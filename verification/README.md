# wither

The library behind Wither, a game launcher that knows about Steam. It is written in
Verus: the functions in `src/` carry contracts that the verifier proves. The few
functions marked `#[verifier::external_body]` only call the standard library or an
outside crate (`Path`, `String::push`, case mappings, `urlencoding`, `uuid`,
`serde_json`); their contracts are trusted, each stating what that code's
documentation or source shows.

- `src/steam/`: Steam's files and services: `.acf` manifests and `libraryfolders.vdf`,
  the planning of a library synchronisation, the OpenID sign-in exchange, Web API and
  Store requests and the checks on their answers.
- `src/process/`: recognising the Steam client and a game's process, the session
  watcher, Proton versions and GE-Proton releases, plain launches.
- `src/commands/`: the decisions behind the launcher's commands: the silent Steam
  launch as a state machine (Steam is only ever started or shut down when the launch
  itself found it not running, and the frontend is told `starting_steam`,
  `waiting_for_steam`, `launching_game`, `running` or `error`), custom-game launches,
  library records, the Store cache, and the Steam account.
- `src/text.rs`, `src/number.rs`, `src/urlcodec.rs`, `src/ordering.rs`, `src/paths.rs`,
  `src/ids.rs`: string, number, URL-encoding, ordering, path and identifier helpers.

`app/` is a command-line front end: the database, the file system, the network and the
processes, around the library.
