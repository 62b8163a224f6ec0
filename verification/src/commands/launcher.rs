//! Launching a library game: which way it is started, the silent Steam launch as a
//! state machine (the caller performs each action and reports what came of it), and
//! how a custom game is started on Linux.
use vstd::prelude::*;
use crate::number::{dec, push_dec};
use crate::paths::{
    extension_of, is_plain_name, is_slash_path, path_extension, path_names, path_parent, rooted,
    slash_extension,
};
use crate::process::proton::ProtonVersion;
use crate::text::{contains, lowercase, push_char, starts_with, to_lowercase};

verus! {

broadcast use vstd::string::group_string_axioms;

/// A started game as the frontend sees it.
#[derive(Debug, Clone)]
pub struct LaunchResult {
    pub session_id: String,
    pub pid: Option<u32>,
    pub started_at: u64,
}

/// The result of a successful launch.
pub fn launch_result(session_id: String, pid: u32, started_at: u64) -> (r: LaunchResult)
    ensures
        r.session_id@ == session_id@,
        r.pid == Some(pid),
        r.started_at == started_at,
{
    LaunchResult { session_id, pid: Some(pid), started_at }
}

/// How a library game is started.
#[derive(Debug, Clone)]
pub enum GameRoute {
    /// Through Steam, by app id.
    Steam { app_id: i64 },
    /// By running its executable.
    Custom { exe_path: String },
}

/// How a game is started, from its stored record: Steam games need their app id; other
/// games need an executable and must be installed.
pub fn launch_route(source: &str, steam_app_id: Option<i64>, executable_path: Option<String>, is_installed: bool) -> (r:
    Result<GameRoute, String>)
    ensures
        source@ == "steam"@ ==> match steam_app_id {
            Some(id) => r matches Ok(GameRoute::Steam { app_id }) && app_id == id,
            None => r matches Err(e) && e@ == "Missing Steam App ID"@,
        },
        source@ != "steam"@ ==> match executable_path {
            None => r matches Err(e) && e@ == "Missing executable path"@,
            Some(p) => if is_installed {
                r matches Ok(GameRoute::Custom { exe_path }) && exe_path@ == p@
            } else {
                r matches Err(e) && e@ == "Game is not installed"@
            },
        },
{
    let steam = String::from_str("steam");
    if crate::text::str_eq(source, steam.as_str()) {
        match steam_app_id {
            Some(app_id) => Ok(GameRoute::Steam { app_id }),
            None => Err(String::from_str("Missing Steam App ID")),
        }
    } else {
        match executable_path {
            None => Err(String::from_str("Missing executable path")),
            Some(exe_path) => if is_installed {
                Ok(GameRoute::Custom { exe_path })
            } else {
                Err(String::from_str("Game is not installed"))
            },
        }
    }
}

/// The decimal text of a signed number.
pub open spec fn signed_dec(x: int) -> Seq<char> {
    if x < 0 {
        "-"@ + dec((-x) as nat)
    } else {
        dec(x as nat)
    }
}

/// The URL that asks Steam to run a game, from its stored app id.
pub fn steam_game_url(app_id: i64) -> (r: String)
    ensures
        r@ == "steam://rungameid/"@ + signed_dec(app_id as int),
{
    let mut r = String::from_str("steam://rungameid/");
    if app_id < 0 {
        let ghost before = r@;
        push_char(&mut r, '-');
        let m: u64 = ((-(app_id + 1)) as u64) + 1;
        push_dec(&mut r, m);
        proof {
            reveal_strlit("-");
            assert(r@ =~= before + "-"@ + dec((-app_id) as nat));
        }
    } else {
        push_dec(&mut r, app_id as u64);
    }
    r
}

/// The error returned when the game's URL could not be opened.
pub fn launch_failure(e: &str) -> (r: String)
    ensures
        r@ == "Failed to launch game: "@ + e@,
{
    let mut r = String::from_str("Failed to launch game: ");
    r.append(e);
    r
}

/// The error returned when the session could not be stored.
pub fn session_failure(e: &str) -> (r: String)
    ensures
        r@ == "Failed to create session: "@ + e@,
{
    let mut r = String::from_str("Failed to create session: ");
    r.append(e);
    r
}

/// Where a Steam launch stands.
#[derive(Debug, Clone, Copy, PartialEq, Eq, Structural)]
pub enum LaunchPhase {
    /// Asking whether Steam runs.
    CheckingSteam,
    /// Steam did not run: starting it.
    StartingSteam,
    /// Steam was started: waiting for it to be ready.
    WaitingForSteam,
    /// Opening the game's `steam://` URL.
    OpeningGame,
    /// Looking for the game's process.
    FindingGame,
    /// The game runs as `pid`: storing its session.
    OpeningSession { pid: u32 },
    /// The session is stored and watched.
    Running { pid: u32 },
    /// The game was not found: shutting down the Steam this launch started.
    ClosingSteam,
    /// The launch failed.
    Failed,
}

/// A Steam launch: where it stands, and whether Steam ran before it (known once Steam
/// was checked, never asked again).
#[derive(Debug, Clone, Copy, PartialEq, Eq, Structural)]
pub struct SteamLaunch {
    pub phase: LaunchPhase,
    pub steam_was_running: bool,
}

/// What came of the last action.
#[derive(Debug, Clone, Copy, PartialEq, Eq, Structural)]
pub enum LaunchEvent {
    SteamChecked { running: bool },
    SteamSpawned { ok: bool },
    SteamReady { ok: bool },
    GameUrlOpened { ok: bool },
    GameProcess { pid: Option<u32> },
    SessionStored { ok: bool },
    SteamClosed,
}

/// What the caller does next.
#[derive(Debug, Clone, Copy, PartialEq, Eq, Structural)]
pub enum LaunchAction {
    /// Tell whether Steam runs (report `SteamChecked`).
    CheckSteam,
    /// Start Steam silently (report `SteamSpawned`).
    SpawnSteam,
    /// Wait for Steam to be ready (report `SteamReady`).
    WaitForSteam,
    /// Open the game's `steam://rungameid/` URL (report `GameUrlOpened`).
    OpenGameUrl,
    /// Wait for the game's process (report `GameProcess`).
    FindGameProcess,
    /// Store a new session for process `pid` (report `SessionStored`).
    StoreSession { pid: u32 },
    /// Watch the game until it exits; then shut Steam down when told to.
    WatchSession { pid: u32, shutdown_steam_after: bool },
    /// Shut Steam down (report `SteamClosed`).
    ShutdownSteam,
    /// Give up with the last error.
    Fail,
    /// Nothing to do: the event did not belong to this phase.
    Nothing,
}

pub open spec fn launch_begin() -> SteamLaunch {
    SteamLaunch { phase: LaunchPhase::CheckingSteam, steam_was_running: false }
}

/// One step of a Steam launch. Steam is started only when it did not run; the session
/// watcher is told to shut Steam down exactly when this launch started it; a game that
/// never shows up also shuts down the Steam this launch started. An event that does not
/// belong to the phase changes nothing.
pub open spec fn launch_next(s: SteamLaunch, e: LaunchEvent) -> (SteamLaunch, LaunchAction) {
    let swr = s.steam_was_running;
    let go = |p: LaunchPhase| SteamLaunch { phase: p, steam_was_running: swr };
    match (s.phase, e) {
        (LaunchPhase::CheckingSteam, LaunchEvent::SteamChecked { running }) => if running {
            (SteamLaunch { phase: LaunchPhase::OpeningGame, steam_was_running: true }, LaunchAction::OpenGameUrl)
        } else {
            (SteamLaunch { phase: LaunchPhase::StartingSteam, steam_was_running: false }, LaunchAction::SpawnSteam)
        },
        (LaunchPhase::StartingSteam, LaunchEvent::SteamSpawned { ok }) => if ok {
            (go(LaunchPhase::WaitingForSteam), LaunchAction::WaitForSteam)
        } else {
            (go(LaunchPhase::Failed), LaunchAction::Fail)
        },
        (LaunchPhase::WaitingForSteam, LaunchEvent::SteamReady { ok }) => if ok {
            (go(LaunchPhase::OpeningGame), LaunchAction::OpenGameUrl)
        } else {
            (go(LaunchPhase::Failed), LaunchAction::Fail)
        },
        (LaunchPhase::OpeningGame, LaunchEvent::GameUrlOpened { ok }) => if ok {
            (go(LaunchPhase::FindingGame), LaunchAction::FindGameProcess)
        } else {
            (go(LaunchPhase::Failed), LaunchAction::Fail)
        },
        (LaunchPhase::FindingGame, LaunchEvent::GameProcess { pid }) => match pid {
            Some(p) => (go(LaunchPhase::OpeningSession { pid: p }), LaunchAction::StoreSession { pid: p }),
            None => if swr {
                (go(LaunchPhase::Failed), LaunchAction::Fail)
            } else {
                (go(LaunchPhase::ClosingSteam), LaunchAction::ShutdownSteam)
            },
        },
        (LaunchPhase::OpeningSession { pid }, LaunchEvent::SessionStored { ok }) => if ok {
            (go(LaunchPhase::Running { pid }), LaunchAction::WatchSession { pid, shutdown_steam_after: !swr })
        } else {
            (go(LaunchPhase::Failed), LaunchAction::Fail)
        },
        (LaunchPhase::ClosingSteam, LaunchEvent::SteamClosed) => (go(LaunchPhase::Failed), LaunchAction::Fail),
        _ => (s, LaunchAction::Nothing),
    }
}

impl SteamLaunch {
    /// A new Steam launch; its first action is to check whether Steam runs.
    pub fn begin() -> (r: (SteamLaunch, LaunchAction))
        ensures
            r.0 == launch_begin(),
            r.1 == LaunchAction::CheckSteam,
    {
        (SteamLaunch { phase: LaunchPhase::CheckingSteam, steam_was_running: false }, LaunchAction::CheckSteam)
    }

    /// The launch after `event`, and what to do next.
    pub fn next(self, event: LaunchEvent) -> (r: (SteamLaunch, LaunchAction))
        ensures
            r == launch_next(self, event),
    {
        let swr = self.steam_was_running;
        match (self.phase, event) {
            (LaunchPhase::CheckingSteam, LaunchEvent::SteamChecked { running }) => if running {
                (SteamLaunch { phase: LaunchPhase::OpeningGame, steam_was_running: true }, LaunchAction::OpenGameUrl)
            } else {
                (SteamLaunch { phase: LaunchPhase::StartingSteam, steam_was_running: false }, LaunchAction::SpawnSteam)
            },
            (LaunchPhase::StartingSteam, LaunchEvent::SteamSpawned { ok }) => if ok {
                (SteamLaunch { phase: LaunchPhase::WaitingForSteam, steam_was_running: swr }, LaunchAction::WaitForSteam)
            } else {
                (SteamLaunch { phase: LaunchPhase::Failed, steam_was_running: swr }, LaunchAction::Fail)
            },
            (LaunchPhase::WaitingForSteam, LaunchEvent::SteamReady { ok }) => if ok {
                (SteamLaunch { phase: LaunchPhase::OpeningGame, steam_was_running: swr }, LaunchAction::OpenGameUrl)
            } else {
                (SteamLaunch { phase: LaunchPhase::Failed, steam_was_running: swr }, LaunchAction::Fail)
            },
            (LaunchPhase::OpeningGame, LaunchEvent::GameUrlOpened { ok }) => if ok {
                (SteamLaunch { phase: LaunchPhase::FindingGame, steam_was_running: swr }, LaunchAction::FindGameProcess)
            } else {
                (SteamLaunch { phase: LaunchPhase::Failed, steam_was_running: swr }, LaunchAction::Fail)
            },
            (LaunchPhase::FindingGame, LaunchEvent::GameProcess { pid }) => match pid {
                Some(p) => (
                    SteamLaunch { phase: LaunchPhase::OpeningSession { pid: p }, steam_was_running: swr },
                    LaunchAction::StoreSession { pid: p },
                ),
                None => if swr {
                    (SteamLaunch { phase: LaunchPhase::Failed, steam_was_running: swr }, LaunchAction::Fail)
                } else {
                    (SteamLaunch { phase: LaunchPhase::ClosingSteam, steam_was_running: swr }, LaunchAction::ShutdownSteam)
                },
            },
            (LaunchPhase::OpeningSession { pid }, LaunchEvent::SessionStored { ok }) => if ok {
                (
                    SteamLaunch { phase: LaunchPhase::Running { pid }, steam_was_running: swr },
                    LaunchAction::WatchSession { pid, shutdown_steam_after: !swr },
                )
            } else {
                (SteamLaunch { phase: LaunchPhase::Failed, steam_was_running: swr }, LaunchAction::Fail)
            },
            (LaunchPhase::ClosingSteam, LaunchEvent::SteamClosed) => (
                SteamLaunch { phase: LaunchPhase::Failed, steam_was_running: swr },
                LaunchAction::Fail,
            ),
            _ => (self, LaunchAction::Nothing),
        }
    }
}

/// The status the frontend is sent before an action, if any: `starting_steam` before
/// Steam is started (never when it already runs), `waiting_for_steam` while it starts,
/// `launching_game` before the game's URL is opened, `running` once the session is
/// watched, and `error` when the launch gives up.
pub fn launch_status(a: LaunchAction) -> (r: Option<&'static str>)
    ensures
        a == LaunchAction::SpawnSteam ==> (r matches Some(t) && t@ == "starting_steam"@),
        a == LaunchAction::WaitForSteam ==> (r matches Some(t) && t@ == "waiting_for_steam"@),
        a == LaunchAction::OpenGameUrl ==> (r matches Some(t) && t@ == "launching_game"@),
        a is WatchSession ==> (r matches Some(t) && t@ == "running"@),
        a == LaunchAction::Fail ==> (r matches Some(t) && t@ == "error"@),
        !(a == LaunchAction::SpawnSteam || a == LaunchAction::WaitForSteam || a == LaunchAction::OpenGameUrl
            || a is WatchSession || a == LaunchAction::Fail) ==> r is None,
{
    match a {
        LaunchAction::SpawnSteam => Some("starting_steam"),
        LaunchAction::WaitForSteam => Some("waiting_for_steam"),
        LaunchAction::OpenGameUrl => Some("launching_game"),
        LaunchAction::WatchSession { .. } => Some("running"),
        LaunchAction::Fail => Some("error"),
        _ => None,
    }
}

/// The actions of a launch from state `s` through `events`, one per event.
pub open spec fn launch_run(s: SteamLaunch, events: Seq<LaunchEvent>) -> Seq<LaunchAction>
    decreases events.len(),
{
    if events.len() == 0 {
        seq![]
    } else {
        let (s2, a) = launch_next(s, events[0]);
        seq![a] + launch_run(s2, events.drop_first())
    }
}

/// What the first Steam check reported, if any event was one.
pub open spec fn first_check(events: Seq<LaunchEvent>) -> Option<bool>
    decreases events.len(),
{
    if events.len() == 0 {
        None
    } else {
        match events[0] {
            LaunchEvent::SteamChecked { running } => Some(running),
            _ => first_check(events.drop_first()),
        }
    }
}

/// An action that acts on Steam itself: starting it, shutting it down, or having the
/// watcher shut it down.
pub open spec fn touches_steam(a: LaunchAction) -> bool {
    ||| a == LaunchAction::SpawnSteam
    ||| a == LaunchAction::ShutdownSteam
    ||| a matches LaunchAction::WatchSession { shutdown_steam_after, .. } && shutdown_steam_after
}

/// An action of starting Steam: spawning it, or waiting for it to be ready.
pub open spec fn starts_steam(a: LaunchAction) -> bool {
    a == LaunchAction::SpawnSteam || a == LaunchAction::WaitForSteam
}

/// A phase reached only when Steam did not run.
pub open spec fn own_steam_phase(p: LaunchPhase) -> bool {
    p == LaunchPhase::StartingSteam || p == LaunchPhase::WaitingForSteam || p == LaunchPhase::ClosingSteam
}

/// A watcher told to leave Steam running.
pub open spec fn leaves_steam(a: LaunchAction) -> bool {
    a matches LaunchAction::WatchSession { shutdown_steam_after, .. } && !shutdown_steam_after
}

proof fn lemma_run_after_check(s: SteamLaunch, events: Seq<LaunchEvent>)
    requires
        s.phase != LaunchPhase::CheckingSteam,
        own_steam_phase(s.phase) ==> !s.steam_was_running,
    ensures
        launch_run(s, events).len() == events.len(),
        forall|k: int| 0 <= k < events.len() && #[trigger] starts_steam(launch_run(s, events)[k]) ==> !s.steam_was_running,
        forall|k: int| 0 <= k < events.len() && #[trigger] touches_steam(launch_run(s, events)[k]) ==> !s.steam_was_running,
        forall|k: int| 0 <= k < events.len() && #[trigger] leaves_steam(launch_run(s, events)[k]) ==> s.steam_was_running,
    decreases events.len(),
{
    if events.len() > 0 {
        let (s2, a) = launch_next(s, events[0]);
        assert(s2.phase != LaunchPhase::CheckingSteam);
        assert(s2.steam_was_running == s.steam_was_running);
        assert(own_steam_phase(s2.phase) ==> !s2.steam_was_running);
        assert(starts_steam(a) ==> !s.steam_was_running);
        assert(touches_steam(a) ==> !s.steam_was_running);
        assert(leaves_steam(a) ==> s.steam_was_running);
        lemma_run_after_check(s2, events.drop_first());
        let r = launch_run(s, events);
        assert(r == seq![a] + launch_run(s2, events.drop_first()));
        assert forall|k: int| 0 <= k < events.len() && #[trigger] touches_steam(r[k]) implies !s.steam_was_running by {
            if k > 0 {
                assert(r[k] == launch_run(s2, events.drop_first())[k - 1]);
            }
        }
        assert forall|k: int| 0 <= k < events.len() && #[trigger] starts_steam(r[k]) implies !s.steam_was_running by {
            if k > 0 {
                assert(r[k] == launch_run(s2, events.drop_first())[k - 1]);
            }
        }
        assert forall|k: int| 0 <= k < events.len() && #[trigger] leaves_steam(r[k]) implies s.steam_was_running by {
            if k > 0 {
                assert(r[k] == launch_run(s2, events.drop_first())[k - 1]);
            }
        }
    }
}

proof fn lemma_run_from_check(s: SteamLaunch, events: Seq<LaunchEvent>)
    requires
        s.phase == LaunchPhase::CheckingSteam,
    ensures
        launch_run(s, events).len() == events.len(),
        forall|k: int| 0 <= k < events.len() && #[trigger] touches_steam(launch_run(s, events)[k]) ==> first_check(events) == Some(false),
        forall|k: int| 0 <= k < events.len() && #[trigger] starts_steam(launch_run(s, events)[k]) ==> first_check(events) == Some(false),
        forall|k: int| 0 <= k < events.len() && #[trigger] leaves_steam(launch_run(s, events)[k]) ==> first_check(events) == Some(true),
    decreases events.len(),
{
    if events.len() > 0 {
        let (s2, a) = launch_next(s, events[0]);
        let r = launch_run(s, events);
        let rest = events.drop_first();
        assert(r == seq![a] + launch_run(s2, rest));
        match events[0] {
            LaunchEvent::SteamChecked { running } => {
                assert(first_check(events) == Some(running));
                assert(s2.steam_was_running == running);
                lemma_run_after_check(s2, rest);
            },
            _ => {
                assert(s2 == s);
                assert(a == LaunchAction::Nothing);
                assert(first_check(events) == first_check(rest));
                lemma_run_from_check(s2, rest);
            },
        }
        assert forall|k: int| 0 <= k < events.len() && #[trigger] touches_steam(r[k]) implies first_check(events) == Some(false) by {
            if k > 0 {
                assert(r[k] == launch_run(s2, rest)[k - 1]);
            }
        }
        assert forall|k: int| 0 <= k < events.len() && #[trigger] starts_steam(r[k]) implies first_check(events) == Some(false) by {
            if k > 0 {
                assert(r[k] == launch_run(s2, rest)[k - 1]);
            }
        }
        assert forall|k: int| 0 <= k < events.len() && #[trigger] leaves_steam(r[k]) implies first_check(events) == Some(true) by {
            if k > 0 {
                assert(r[k] == launch_run(s2, rest)[k - 1]);
            }
        }
    }
}

/// A launch never touches a Steam it did not start: whatever events come, Steam is
/// started (and waited for), shut down, or left for the watcher to shut down only when
/// the Steam check found it not running, and the watcher is told to leave Steam running
/// only when the check found it running. So the statuses `starting_steam` and
/// `waiting_for_steam` are sent only when Steam did not run.
pub proof fn law_steam_only_touched_when_started_here(events: Seq<LaunchEvent>)
    ensures
        launch_run(launch_begin(), events).len() == events.len(),
        forall|k: int| 0 <= k < events.len() && #[trigger] touches_steam(launch_run(launch_begin(), events)[k])
            ==> first_check(events) == Some(false),
        forall|k: int| 0 <= k < events.len() && #[trigger] starts_steam(launch_run(launch_begin(), events)[k])
            ==> first_check(events) == Some(false),
        forall|k: int| 0 <= k < events.len() && #[trigger] leaves_steam(launch_run(launch_begin(), events)[k])
            ==> first_check(events) == Some(true),
{
    lemma_run_from_check(launch_begin(), events);
}

/// Once Steam was checked, the answer is kept: no later step changes it, and no step
/// returns to checking.
pub proof fn law_steam_check_kept(s: SteamLaunch, e: LaunchEvent)
    requires
        s.phase != LaunchPhase::CheckingSteam,
    ensures
        launch_next(s, e).0.steam_was_running == s.steam_was_running,
        launch_next(s, e).0.phase != LaunchPhase::CheckingSteam,
{
}

proof fn lemma_run_watch(s: SteamLaunch, events: Seq<LaunchEvent>)
    ensures
        launch_run(s, events).len() == events.len(),
        forall|k: int|
            0 <= k < events.len() && #[trigger] launch_run(s, events)[k] is WatchSession ==> events[k]
                == (LaunchEvent::SessionStored { ok: true }),
    decreases events.len(),
{
    if events.len() > 0 {
        let (s2, a) = launch_next(s, events[0]);
        lemma_run_watch(s2, events.drop_first());
        let r = launch_run(s, events);
        assert(r == seq![a] + launch_run(s2, events.drop_first()));
        assert forall|k: int|
            0 <= k < events.len() && #[trigger] r[k] is WatchSession implies events[k]
                == (LaunchEvent::SessionStored { ok: true }) by {
            if k > 0 {
                assert(r[k] == launch_run(s2, events.drop_first())[k - 1]);
                assert(events.drop_first()[k - 1] == events[k]);
            }
        }
    }
}

/// A game's session is watched only once it was stored: the step that starts watching
/// answers a stored session (`SessionStored` with `ok`) of the process being watched,
/// in every run of events; a session that could not be stored ends the launch with
/// `Fail`, whatever else the launch had done.
pub proof fn law_watch_needs_stored_session(s: SteamLaunch, e: LaunchEvent, events: Seq<LaunchEvent>)
    ensures
        launch_next(s, e).1 is WatchSession ==> e == (LaunchEvent::SessionStored { ok: true }),
        launch_next(s, e).1 matches LaunchAction::WatchSession { pid, .. } ==> s.phase == (
        LaunchPhase::OpeningSession { pid }),
        s.phase is OpeningSession ==> launch_next(s, LaunchEvent::SessionStored { ok: false }).1
            == LaunchAction::Fail && launch_next(s, LaunchEvent::SessionStored { ok: false }).0.phase
            == LaunchPhase::Failed,
        forall|k: int|
            0 <= k < events.len() && #[trigger] launch_run(s, events)[k] is WatchSession ==> events[k]
                == (LaunchEvent::SessionStored { ok: true }),
{
    lemma_run_watch(s, events);
}

/// How a custom game is started on Linux, by its file's extension (compared in
/// lowercase).
#[derive(Debug, Clone, Copy, PartialEq, Eq, Structural)]
pub enum CustomLaunchKind {
    /// A Windows `.exe`: run through Proton.
    Proton,
    /// An AppImage, a shell script or a file without extension: made executable, then run.
    MakeExecutableThenRun,
    /// Anything else: run as it is.
    Run,
}

/// A custom game's start: the directory it runs in, and how.
#[derive(Debug, Clone)]
pub struct CustomLaunch {
    pub working_dir: String,
    pub kind: CustomLaunchKind,
}

pub open spec fn kind_for_extension(ext: Seq<char>) -> CustomLaunchKind {
    if ext == "exe"@ {
        CustomLaunchKind::Proton
    } else if ext == "appimage"@ || ext == "sh"@ || ext.len() == 0 {
        CustomLaunchKind::MakeExecutableThenRun
    } else {
        CustomLaunchKind::Run
    }
}

/// The start of a custom game from the parent directory of its executable and the
/// extension of its file name: without a parent the path is invalid; else the kind
/// follows the lowercased extension (none counts as empty).
pub fn custom_launch_from(working_dir: Option<String>, extension: Option<String>) -> (r: Result<CustomLaunch, String>)
    ensures
        working_dir is None ==> (r matches Err(e) && e@ == "Invalid executable path"@),
        working_dir matches Some(d) ==> (r matches Ok(c) && c.working_dir@ == d@ && c.kind == kind_for_extension(
            match extension {
                Some(x) => lowercase(x@),
                None => Seq::<char>::empty(),
            },
        )),
{
    match working_dir {
        None => Err(String::from_str("Invalid executable path")),
        Some(d) => {
            let ext = match extension {
                Some(x) => to_lowercase(x.as_str()),
                None => String::new(),
            };
            let e = ext.as_str();
            let kind = if crate::text::str_eq(e, "exe") {
                CustomLaunchKind::Proton
            } else if crate::text::str_eq(e, "appimage") || crate::text::str_eq(e, "sh") || e.unicode_len() == 0 {
                CustomLaunchKind::MakeExecutableThenRun
            } else {
                CustomLaunchKind::Run
            };
            Ok(CustomLaunch { working_dir: d, kind })
        },
    }
}

/// The start of a custom game from its executable's path. The parent directory and
/// the extension are what `Path::parent` and `Path::extension` give on this platform;
/// the decision on them is `custom_launch_from`'s. The working directory is a prefix of
/// the path; a bare file name runs in the empty (current) directory; a `/`-separated
/// path is refused only when it is a root with no named component, and one with named
/// components runs in its parent directory (its names less the last); the extension of a
/// plain name or a `/`-separated path is the one after its file name's last `.`.
pub fn plan_custom_launch(exe_path: &str) -> (r: Result<CustomLaunch, String>)
    ensures
        r matches Err(e) ==> e@ == "Invalid executable path"@,
        r matches Ok(c) ==> starts_with(exe_path@, c.working_dir@),
        r matches Ok(c) ==> (c.kind == kind_for_extension(Seq::<char>::empty()) || exists|x: Seq<char>|
            contains(exe_path@, x) && c.kind == kind_for_extension(lowercase(x))),
        is_plain_name(exe_path@) ==> (r matches Ok(c) && c.working_dir@.len() == 0 && c.kind == kind_for_extension(
            lower_or_empty(extension_of(exe_path@)),
        )),
        is_slash_path(exe_path@) && r is Ok ==> r->Ok_0.kind == kind_for_extension(lower_or_empty(slash_extension(exe_path@))),
        is_slash_path(exe_path@) ==> (r is Ok <==> (!rooted(exe_path@) || path_names(exe_path@).len() > 0)),
        is_slash_path(exe_path@) && path_names(exe_path@).len() > 0 ==> (r matches Ok(c) && rooted(
            c.working_dir@,
        ) == rooted(exe_path@) && path_names(c.working_dir@) == path_names(exe_path@).drop_last()),
{
    let parent = path_parent(exe_path);
    let extension = path_extension(exe_path);
    custom_launch_from(parent, extension)
}

/// An extension in lowercase, or empty when there is none.
pub open spec fn lower_or_empty(ext: Option<Seq<char>>) -> Seq<char> {
    match ext {
        Some(x) => lowercase(x),
        None => Seq::<char>::empty(),
    }
}

/// The Proton directory to run a Windows game with: the one chosen in the settings,
/// else the default one found, else an error.
pub fn proton_dir(saved_path: &str, default_proton: Option<ProtonVersion>) -> (r: Result<String, String>)
    ensures
        saved_path@.len() > 0 ==> (r matches Ok(p) && p@ == saved_path@),
        saved_path@.len() == 0 ==> match default_proton {
            Some(v) => r matches Ok(p) && p@ == v.path@,
            None => r matches Err(e) && e@ == "No Proton version found. Install Proton via Steam or download GE-Proton."@,
        },
{
    if saved_path.unicode_len() > 0 {
        Ok(String::from_str(saved_path))
    } else {
        match default_proton {
            Some(v) => Ok(v.path),
            None => Err(String::from_str("No Proton version found. Install Proton via Steam or download GE-Proton.")),
        }
    }
}

/// The Steam root and the compatibility-data directory used for Windows games run
/// through Proton.
pub fn proton_compat_paths(home: &str) -> (r: (String, String))
    ensures
        r.0@ == home@ + "/.steam/steam"@,
        r.1@ == home@ + "/.steam/steam/steamapps/compatdata/wither_custom"@,
{
    let mut root = String::from_str(home);
    root.append("/.steam/steam");
    let mut data = String::from_str(home);
    data.append("/.steam/steam/steamapps/compatdata/wither_custom");
    (root, data)
}

} // verus!
