//! The decisions of the silent Steam launch: is Steam running or ready, which
//! process is the game, when has the game exited, and when to shut Steam down.
use vstd::prelude::*;
use crate::paths::{is_plain_name, is_slash_path, path_file_name, slash_file_name};
use crate::text::{
    chars_of, concat_str, contains, ends_with, lowercase, replace_char, replace_char_exec,
    str_contains, str_eq, str_ends_with, string_of, string_of_range, to_lowercase,
};
use crate::ordering::{sort_dedup, strictly_sorted, string_set, views};

verus! {

broadcast use vstd::string::group_string_axioms;

/// Whether Steam was running before the launch, and the process Steam was given.
#[derive(Debug, Clone)]
pub struct LaunchContext {
    pub steam_was_running: bool,
    pub steam_pid: Option<u32>,
}

/// The stages of a launch as the interface shows them.
#[derive(Debug, Clone)]
pub enum LaunchStatus {
    Idle,
    StartingSteam,
    WaitingForSteam,
    LaunchingGame,
    Running { pid: u32, started_at: u64 },
    Exited { duration_s: u64 },
    Error { message: String },
}

/// Helper and service processes of Steam, which do not count as the client.
pub open spec fn is_steam_helper(name: Seq<char>) -> bool {
    ||| contains(name, "steamwebhelper"@)
    ||| contains(name, "steamservice"@)
    ||| contains(name, "steamerrorreporter"@)
    ||| name == "steamcmd"@
    ||| name == "steamcmd.exe"@
}

/// The Steam client itself, by lower-cased process name.
pub open spec fn is_steam_client(name: Seq<char>) -> bool {
    &&& !is_steam_helper(name)
    &&& (name == "steam"@ || name == "steam.exe"@ || name == "steam.sh"@)
}

/// Whether a lower-cased process name is the Steam client.
pub fn is_main_steam_process(name: &str) -> (b: bool)
    ensures
        b == is_steam_client(name@),
{
    if str_contains(name, "steamwebhelper") || str_contains(name, "steamservice") || str_contains(
        name,
        "steamerrorreporter",
    ) || str_eq(name, "steamcmd") || str_eq(name, "steamcmd.exe") {
        return false;
    }
    str_eq(name, "steam") || str_eq(name, "steam.exe") || str_eq(name, "steam.sh")
}

/// Whether the Steam client is among the running processes (by name).
pub fn steam_is_running(process_names: &Vec<String>) -> (b: bool)
    ensures
        b == exists|i: int| 0 <= i < process_names.len() && is_steam_client(lowercase(#[trigger] process_names@[i]@)),
{
    let mut i: usize = 0;
    while i < process_names.len()
        invariant
            i <= process_names.len(),
            forall|j: int| 0 <= j < i ==> !is_steam_client(lowercase(#[trigger] process_names@[j]@)),
        decreases process_names.len() - i,
    {
        let name = to_lowercase(process_names[i].as_str());
        if is_main_steam_process(name.as_str()) {
            return true;
        }
        i += 1;
    }
    false
}

/// Whether Steam's web helper, the sign that Steam is up, is among the running processes.
pub fn steam_webhelper_present(process_names: &Vec<String>) -> (b: bool)
    ensures
        b == exists|i: int| 0 <= i < process_names.len() && contains(lowercase(#[trigger] process_names@[i]@), "steamwebhelper"@),
{
    let mut i: usize = 0;
    while i < process_names.len()
        invariant
            i <= process_names.len(),
            forall|j: int| 0 <= j < i ==> !contains(lowercase(#[trigger] process_names@[j]@), "steamwebhelper"@),
        decreases process_names.len() - i,
    {
        let name = to_lowercase(process_names[i].as_str());
        if str_contains(name.as_str(), "steamwebhelper") {
            return true;
        }
        i += 1;
    }
    false
}

/// A lower-cased process name contains one of the hints, lower-cased.
pub open spec fn matches_hint(name: Seq<char>, hints: Seq<String>) -> bool {
    exists|h: int| 0 <= h < hints.len() && contains(name, lowercase(#[trigger] hints[h]@))
}

fn matches_any_hint(name: &str, hints: &Vec<String>) -> (b: bool)
    ensures
        b == matches_hint(name@, hints@),
{
    let mut h: usize = 0;
    while h < hints.len()
        invariant
            h <= hints.len(),
            forall|k: int| 0 <= k < h ==> !contains(name@, lowercase(#[trigger] hints@[k]@)),
        decreases hints.len() - h,
    {
        let hint = to_lowercase(hints[h].as_str());
        if str_contains(name, hint.as_str()) {
            return true;
        }
        h += 1;
    }
    false
}

/// The first process (in the order given) whose lower-cased name contains a lower-cased
/// hint.
pub fn find_game_process(processes: &Vec<(u32, String)>, exe_hints: &Vec<String>) -> (r: Option<u32>)
    ensures
        match r {
            Some(pid) => exists|i: int| {
                &&& 0 <= i < processes.len()
                &&& processes@[i].0 == pid
                &&& matches_hint(lowercase(processes@[i].1@), exe_hints@)
                &&& forall|j: int| 0 <= j < i ==> !matches_hint(lowercase(#[trigger] processes@[j].1@), exe_hints@)
            },
            None => forall|i: int| 0 <= i < processes.len() ==> !matches_hint(lowercase(#[trigger] processes@[i].1@), exe_hints@),
        },
{
    let mut i: usize = 0;
    while i < processes.len()
        invariant
            i <= processes.len(),
            forall|j: int| 0 <= j < i ==> !matches_hint(lowercase(#[trigger] processes@[j].1@), exe_hints@),
        decreases processes.len() - i,
    {
        let name = to_lowercase(processes[i].1.as_str());
        if matches_any_hint(name.as_str(), exe_hints) {
            return Some(processes[i].0);
        }
        i += 1;
    }
    None
}

/// The hints drawn from a game's name: lower-cased, without spaces, and with spaces
/// turned into underscores.
pub open spec fn name_hints(game_name: Seq<char>) -> Seq<Seq<char>> {
    let l = lowercase(game_name);
    seq![l, replace_char(l, ' ', seq![]), replace_char(l, ' ', seq!['_'])]
}

/// The set of hints: those of the directory scan, the lower-cased directory name if
/// there is one, and those of the game's name.
pub open spec fn all_hints(dir_hints: Seq<Seq<char>>, dir_name: Option<Seq<char>>, game_name: Seq<char>) -> Set<Seq<char>> {
    string_set(dir_hints).union(
        match dir_name {
            Some(d) => set![lowercase(d)],
            None => Set::empty(),
        },
    ).union(string_set(name_hints(game_name)))
}

pub open spec fn opt_view(o: Option<String>) -> Option<Seq<char>> {
    match o {
        Some(s) => Some(s@),
        None => None,
    }
}

/// All process-name hints of a game: those found in its install directory, the
/// directory's own name, and those from the game's name; sorted, without duplicates.
pub fn exe_hints_from(game_name: &str, dir_name: Option<String>, dir_hints: &Vec<String>) -> (r: Vec<String>)
    ensures
        strictly_sorted(views(r@)),
        string_set(views(r@)) == all_hints(views(dir_hints@), opt_view(dir_name), game_name@),
{
    let mut all: Vec<String> = Vec::new();
    let mut i: usize = 0;
    while i < dir_hints.len()
        invariant
            i <= dir_hints.len(),
            all@ == dir_hints@.take(i as int),
        decreases dir_hints.len() - i,
    {
        all.push(dir_hints[i].clone());
        i += 1;
        assert(all@ =~= dir_hints@.take(i as int));
    }
    assert(dir_hints@.take(dir_hints.len() as int) =~= dir_hints@);
    let ghost base = all@;
    match &dir_name {
        Some(d) => {
            all.push(to_lowercase(d.as_str()));
        },
        None => {},
    }
    let ghost with_dir = all@;
    let lower = to_lowercase(game_name);
    let lc = chars_of(lower.as_str());
    let empty: Vec<char> = Vec::new();
    let nospace = string_of(&replace_char_exec(&lc, ' ', &empty));
    let mut us: Vec<char> = Vec::new();
    us.push('_');
    let underscored = string_of(&replace_char_exec(&lc, ' ', &us));
    all.push(lower);
    all.push(nospace);
    all.push(underscored);
    proof {
        assert(us@ =~= seq!['_']);
        assert(empty@ =~= Seq::<char>::empty());
        let nh = name_hints(game_name@);
        let va = views(all@);
        assert forall|y: Seq<char>| #[trigger] string_set(va).contains(y) <==> string_set(views(dir_hints@)).union(
            match dir_name {
                Some(d) => set![lowercase(d@)],
                None => Set::empty(),
            },
        ).union(string_set(nh)).contains(y) by {
            if va.contains(y) {
                let k = choose|k: int| 0 <= k < va.len() && va[k] == y;
                if k < dir_hints.len() {
                    assert(views(dir_hints@)[k] == y);
                } else if k < with_dir.len() {
                } else {
                    let t = k - with_dir.len();
                    assert(nh[t] == y);
                }
            }
            if views(dir_hints@).contains(y) {
                let k = choose|k: int| 0 <= k < dir_hints.len() && views(dir_hints@)[k] == y;
                assert(va[k] == y);
            }
            if dir_name is Some && y == lowercase(dir_name->0@) {
                assert(va[dir_hints.len() as int] == y);
            }
            if nh.contains(y) {
                let k = choose|k: int| 0 <= k < 3 && nh[k] == y;
                assert(va[with_dir.len() + k] == y);
            }
        }
    }
    let r = sort_dedup(&all);
    proof {
        assert(string_set(views(all@)) =~= string_set(views(dir_hints@)).union(
            match dir_name {
                Some(d) => set![lowercase(d@)],
                None => Set::empty(),
            },
        ).union(string_set(name_hints(game_name@))));
    }
    r
}

/// Process-name hints for a game; `dir_hints` are the hints found by scanning its
/// install directory, when it has one. The directory's own name is its file name as
/// `Path::file_name` gives it: the name itself for a plain name, the last named
/// component for a `/`-separated path, else some part of the path.
pub fn get_exe_hints(game_name: &str, install_dir: Option<&str>, dir_hints: &Vec<String>) -> (r: Vec<String>)
    ensures
        strictly_sorted(views(r@)),
        install_dir is None ==> string_set(views(r@)) == all_hints(views(dir_hints@), None, game_name@),
        install_dir matches Some(d) ==> (is_plain_name(d@) ==> string_set(views(r@)) == all_hints(views(dir_hints@), Some(d@), game_name@)),
        install_dir matches Some(d) ==> (is_slash_path(d@) ==> string_set(views(r@)) == all_hints(views(dir_hints@), slash_file_name(d@), game_name@)),
        exists|dir_name: Option<Seq<char>>| {
            &&& (install_dir is None ==> dir_name is None)
            &&& (dir_name matches Some(f) ==> install_dir matches Some(d) && contains(d@, f))
            &&& string_set(views(r@)) == #[trigger] all_hints(views(dir_hints@), dir_name, game_name@)
        },
{
    let dir_name = match install_dir {
        Some(d) => path_file_name(d),
        None => None,
    };
    let ghost dn = opt_view(dir_name);
    let r = exe_hints_from(game_name, dir_name, dir_hints);
    assert(all_hints(views(dir_hints@), dn, game_name@) == string_set(views(r@)));
    r
}

/// Names that mark installers, redistributables and crash reporters, not games.
pub open spec fn is_excluded_exe(name: Seq<char>) -> bool {
    ||| contains(name, "unins"@)
    ||| contains(name, "setup"@)
    ||| contains(name, "redist"@)
    ||| contains(name, "vc_"@)
    ||| contains(name, "dxsetup"@)
    ||| contains(name, "crashpad"@)
    ||| contains(name, "dotnet"@)
    ||| contains(name, "vcredist"@)
    ||| contains(name, "directx"@)
    ||| contains(name, "_commonredist"@)
    ||| contains(name, "lsi_server"@)
}

fn excluded_exe(name: &str) -> (b: bool)
    ensures
        b == is_excluded_exe(name@),
{
    str_contains(name, "unins") || str_contains(name, "setup") || str_contains(name, "redist")
        || str_contains(name, "vc_") || str_contains(name, "dxsetup") || str_contains(name, "crashpad")
        || str_contains(name, "dotnet") || str_contains(name, "vcredist") || str_contains(name, "directx")
        || str_contains(name, "_commonredist") || str_contains(name, "lsi_server")
}

/// `s` with every trailing repetition of `suffix` removed (`str::trim_end_matches`).
pub open spec fn strip_suffixes(s: Seq<char>, suffix: Seq<char>) -> Seq<char>
    decreases s.len(),
{
    if suffix.len() > 0 && ends_with(s, suffix) {
        strip_suffixes(s.subrange(0, s.len() - suffix.len()), suffix)
    } else {
        s
    }
}

/// The hint an entry of an install directory gives: on Windows an `.exe` file, by its
/// name without the extension; elsewhere an executable file whose name has no dot.
/// Installers and redistributables give none.
pub open spec fn entry_hint(file_name: Seq<char>, windows: bool, executable_file: bool) -> Option<Seq<char>> {
    let name = lowercase(file_name);
    if windows {
        if ends_with(name, ".exe"@) && !is_excluded_exe(name) {
            Some(strip_suffixes(name, ".exe"@))
        } else {
            None
        }
    } else if executable_file && !is_excluded_exe(name) && !name.contains('.') {
        Some(name)
    } else {
        None
    }
}

/// An entry whose lower-cased name contains `unins`, `setup`, `redist`, `vc_`,
/// `dxsetup`, `crashpad`, `dotnet`, `vcredist`, `directx`, `_commonredist` or
/// `lsi_server` gives no hint, on any system: uninstallers, installers,
/// redistributables and crash reporters are never taken for the game.
pub proof fn law_excluded_entries_give_no_hint(file_name: Seq<char>, windows: bool, executable_file: bool)
    ensures
        contains(lowercase(file_name), "unins"@) ==> entry_hint(file_name, windows, executable_file) is None,
        contains(lowercase(file_name), "setup"@) ==> entry_hint(file_name, windows, executable_file) is None,
        contains(lowercase(file_name), "redist"@) ==> entry_hint(file_name, windows, executable_file) is None,
        contains(lowercase(file_name), "vc_"@) ==> entry_hint(file_name, windows, executable_file) is None,
        contains(lowercase(file_name), "dxsetup"@) ==> entry_hint(file_name, windows, executable_file) is None,
        contains(lowercase(file_name), "crashpad"@) ==> entry_hint(file_name, windows, executable_file) is None,
        contains(lowercase(file_name), "dotnet"@) ==> entry_hint(file_name, windows, executable_file) is None,
        contains(lowercase(file_name), "vcredist"@) ==> entry_hint(file_name, windows, executable_file) is None,
        contains(lowercase(file_name), "directx"@) ==> entry_hint(file_name, windows, executable_file) is None,
        contains(lowercase(file_name), "_commonredist"@) ==> entry_hint(file_name, windows, executable_file)
            is None,
        contains(lowercase(file_name), "lsi_server"@) ==> entry_hint(file_name, windows, executable_file)
            is None,
{
}

/// The hint one directory entry gives (see `entry_hint`).
pub fn exe_hint_for_entry(file_name: &str, windows: bool, executable_file: bool) -> (r: Option<String>)
    ensures
        match r {
            Some(h) => entry_hint(file_name@, windows, executable_file) == Some(h@),
            None => entry_hint(file_name@, windows, executable_file) is None,
        },
{
    let name = to_lowercase(file_name);
    if windows {
        if str_ends_with(name.as_str(), ".exe") && !excluded_exe(name.as_str()) {
            let cs = chars_of(name.as_str());
            let suffix = chars_of(".exe");
            proof {
                reveal_strlit(".exe");
            }
            let mut end = cs.len();
            assert(cs@.subrange(0, end as int) =~= cs@);
            while end >= suffix.len() && crate::text::range_eq(&cs, end - suffix.len(), end, &suffix)
                invariant
                    end <= cs.len(),
                    suffix@ == ".exe"@,
                    suffix@.len() > 0,
                    strip_suffixes(cs@, suffix@) == strip_suffixes(cs@.subrange(0, end as int), suffix@),
                decreases end,
            {
                assert(cs@.subrange(0, end as int).subrange(end - suffix.len(), end as int) =~= cs@.subrange(end - suffix.len(), end as int));
                assert(cs@.subrange(0, end as int).subrange(0, end - suffix.len()) =~= cs@.subrange(0, end - suffix.len()));
                end = end - suffix.len();
            }
            proof {
                let t = cs@.subrange(0, end as int);
                if end >= suffix.len() {
                    assert(t.subrange(end - suffix.len(), end as int) =~= cs@.subrange(end - suffix.len(), end as int));
                }
            }
            Some(string_of_range(&cs, 0, end))
        } else {
            None
        }
    } else {
        if executable_file && !excluded_exe(name.as_str()) && !str_contains(name.as_str(), ".") {
            proof {
                reveal_strlit(".");
                if name@.contains('.') {
                    let k = choose|k: int| 0 <= k < name@.len() && name@[k] == '.';
                    assert(name@.subrange(k, k + 1) =~= "."@);
                    assert(crate::text::matches_at(name@, "."@, k));
                }
            }
            Some(name)
        } else {
            proof {
                reveal_strlit(".");
                if contains(name@, "."@) {
                    let k = choose|k: int| crate::text::matches_at(name@, "."@, k);
                    assert(name@.subrange(k, k + 1)[0] == '.');
                    assert(name@[k] == '.');
                }
            }
            None
        }
    }
}

/// The hints found in an install directory: the entries' hints, sorted and without
/// duplicates.
pub fn get_exe_hints_from_install_dir(entry_hints: &Vec<String>) -> (r: Vec<String>)
    ensures
        strictly_sorted(views(r@)),
        string_set(views(r@)) == string_set(views(entry_hints@)),
{
    sort_dedup(entry_hints)
}

/// Whether the directory scan goes into a subdirectory found at `depth` (the scan
/// stops below depth 3).
pub fn descend_into(depth: u8) -> (b: bool)
    ensures
        b == (depth < 3),
{
    depth < 3
}


/// One look at the processes for the watcher: each process with its parent.
/// Returns the child pids known afterwards and whether a process of the game was seen.
pub open spec fn watch_scan(known_children: Seq<u32>, procs: Seq<(u32, Option<u32>)>, game_pid: u32, n: int) -> (Seq<u32>, bool)
    decreases n,
{
    if n <= 0 {
        (known_children, false)
    } else {
        let (t, seen) = watch_scan(known_children, procs, game_pid, n - 1);
        let pid = procs[n - 1].0;
        let parent = procs[n - 1].1;
        if parent == Some(game_pid) || t.contains(pid) {
            (if t.contains(pid) { t } else { t.push(pid) }, true)
        } else {
            (t, seen)
        }
    }
}

/// What the session watcher remembers between looks: the child processes of the game.
pub struct SessionWatch {
    child_pids: Vec<u32>,
}

impl View for SessionWatch {
    type V = Seq<u32>;

    closed spec fn view(&self) -> Seq<u32> {
        self.child_pids@
    }
}

impl SessionWatch {
    /// No child process known yet.
    pub fn new() -> (w: SessionWatch)
        ensures
            w@ == Seq::<u32>::empty(),
    {
        SessionWatch { child_pids: Vec::new() }
    }

    /// The child pids known.
    pub fn child_pids(&self) -> (r: &Vec<u32>)
        ensures
            r@ == self@,
    {
        &self.child_pids
    }

    /// Takes one look at the processes (pid and parent pid of each): remembers the new
    /// children of the game, and tells whether the game is still running, that is
    /// whether its main process is alive or a child of it (new or known) is present.
    pub fn observe(&mut self, game_pid: u32, main_alive: bool, processes: &Vec<(u32, Option<u32>)>) -> (running: bool)
        ensures
            final(self)@ == watch_scan(old(self)@, processes@, game_pid, processes.len() as int).0,
            running == (main_alive || watch_scan(old(self)@, processes@, game_pid, processes.len() as int).1),
    {
        let ghost start = self.child_pids@;
        let mut child_exists = false;
        let mut i: usize = 0;
        while i < processes.len()
            invariant
                i <= processes.len(),
                (self.child_pids@, child_exists) == watch_scan(start, processes@, game_pid, i as int),
            decreases processes.len() - i,
        {
            let (pid, parent) = processes[i];
            let known = vec_contains(&self.child_pids, pid);
            let is_child = match parent {
                Some(p) => p == game_pid,
                None => false,
            };
            if is_child || known {
                child_exists = true;
                if !known {
                    self.child_pids.push(pid);
                }
            }
            i += 1;
        }
        main_alive || child_exists
    }
}

fn vec_contains(v: &Vec<u32>, x: u32) -> (b: bool)
    ensures
        b == v@.contains(x),
{
    let mut i: usize = 0;
    while i < v.len()
        invariant
            i <= v.len(),
            forall|j: int| 0 <= j < i ==> v@[j] != x,
        decreases v.len() - i,
    {
        if v[i] == x {
            return true;
        }
        i += 1;
    }
    false
}

proof fn lemma_watch_scan(known_children: Seq<u32>, procs: Seq<(u32, Option<u32>)>, game_pid: u32, n: int)
    requires
        0 <= n <= procs.len(),
    ensures
        watch_scan(known_children, procs, game_pid, n).0.len() >= known_children.len(),
        watch_scan(known_children, procs, game_pid, n).0.subrange(0, known_children.len() as int) == known_children,
        forall|x: u32| #[trigger] watch_scan(known_children, procs, game_pid, n).0.contains(x) ==> (known_children.contains(x) || exists|i: int|
            0 <= i < n && procs[i].0 == x && #[trigger] procs[i].1 == Some(game_pid)),
        watch_scan(known_children, procs, game_pid, n).1 <==> exists|i: int|
            0 <= i < n && (#[trigger] procs[i].1 == Some(game_pid) || known_children.contains(procs[i].0)),
    decreases n,
{
    if n > 0 {
        lemma_watch_scan(known_children, procs, game_pid, n - 1);
        let (t, seen) = watch_scan(known_children, procs, game_pid, n - 1);
        let pid = procs[n - 1].0;
        let parent = procs[n - 1].1;
        let t2 = watch_scan(known_children, procs, game_pid, n).0;
        if parent == Some(game_pid) || t.contains(pid) {
            if !t.contains(pid) {
                assert(t2 == t.push(pid));
                assert(t2.subrange(0, known_children.len() as int) =~= t.subrange(0, known_children.len() as int));
                assert forall|x: u32| #[trigger] t2.contains(x) implies (known_children.contains(x) || exists|i: int|
                    0 <= i < n && procs[i].0 == x && #[trigger] procs[i].1 == Some(game_pid)) by {
                    if x != pid {
                        let k = choose|k: int| 0 <= k < t2.len() && t2[k] == x;
                        assert(t[k] == x);
                        assert(t.contains(x));
                        if !known_children.contains(x) {
                            let i = choose|i: int| 0 <= i < n - 1 && procs[i].0 == x && #[trigger] procs[i].1 == Some(game_pid);
                            assert(procs[i].1 == Some(game_pid));
                        }
                    } else {
                        assert(procs[n - 1].1 == Some(game_pid));
                    }
                }
            } else {
                // pid is already known: it is in `known_children` or came from a child entry
                if !(parent == Some(game_pid)) {
                    assert(t.contains(pid));
                    if !known_children.contains(pid) {
                        let i = choose|i: int| 0 <= i < n - 1 && procs[i].0 == pid && #[trigger] procs[i].1 == Some(game_pid);
                        assert(procs[i].1 == Some(game_pid));
                    }
                }
            }
            assert(procs[n - 1].1 == Some(game_pid) || known_children.contains(procs[n - 1].0) || exists|i: int|
                0 <= i < n - 1 && #[trigger] procs[i].1 == Some(game_pid));
        } else {
            if exists|i: int| 0 <= i < n && (#[trigger] procs[i].1 == Some(game_pid) || known_children.contains(procs[i].0)) {
                let i = choose|i: int| 0 <= i < n && (#[trigger] procs[i].1 == Some(game_pid) || known_children.contains(procs[i].0));
                if i == n - 1 {
                    assert(known_children.contains(pid));
                    let k = choose|k: int| 0 <= k < known_children.len() && known_children[k] == pid;
                    assert(t.subrange(0, known_children.len() as int)[k] == pid);
                    assert(t[k] == pid);
                }
            }
        }
    }
}

/// The watcher never forgets a child process: what it knew before a look is a prefix
/// of what it knows after.
pub proof fn law_watch_keeps_children(known_children: Seq<u32>, procs: Seq<(u32, Option<u32>)>, game_pid: u32)
    ensures
        watch_scan(known_children, procs, game_pid, procs.len() as int).0.subrange(0, known_children.len() as int) == known_children,
        watch_scan(known_children, procs, game_pid, procs.len() as int).0.len() >= known_children.len(),
{
    lemma_watch_scan(known_children, procs, game_pid, procs.len() as int);
}

/// The game counts as running after a look exactly when its main process is alive, or
/// some process is a child of the game or a child known from an earlier look.
pub proof fn law_watch_running(known_children: Seq<u32>, procs: Seq<(u32, Option<u32>)>, game_pid: u32, main_alive: bool)
    ensures
        (main_alive || watch_scan(known_children, procs, game_pid, procs.len() as int).1) <==> (main_alive || exists|i: int|
            0 <= i < procs.len() && (#[trigger] procs[i].1 == Some(game_pid) || known_children.contains(procs[i].0))),
{
    lemma_watch_scan(known_children, procs, game_pid, procs.len() as int);
}

/// The end of a session: its length in seconds, without the time the system slept
/// (0 if the clock went back or the sleep covers it all), and whether to shut Steam
/// down, which happens only when Steam was started for it.
pub struct SessionEnd {
    pub duration_s: u64,
    pub shutdown_steam: bool,
}

pub open spec fn session_seconds(started_at: u64, ended_at: u64, slept_s: u64) -> int {
    let wall: int = if ended_at >= started_at { ended_at - started_at } else { 0 };
    if wall >= slept_s { wall - slept_s } else { 0 }
}

/// The seconds the system slept while a watch ran: the wall-clock time from
/// `wall_start` to `wall_now` (Unix seconds) that the monotonic clock, which stops
/// while the system sleeps, did not count in `mono_elapsed_s`; never negative.
pub open spec fn slept_seconds(wall_start: u64, wall_now: u64, mono_elapsed_s: u64) -> int {
    let wall: int = if wall_now >= wall_start { wall_now - wall_start } else { 0 };
    if wall >= mono_elapsed_s { wall - mono_elapsed_s } else { 0 }
}

/// How long the system slept during a watch, from the two clocks' readings.
pub fn slept_during(wall_start: u64, wall_now: u64, mono_elapsed_s: u64) -> (r: u64)
    ensures
        r == slept_seconds(wall_start, wall_now, mono_elapsed_s),
{
    wall_now.saturating_sub(wall_start).saturating_sub(mono_elapsed_s)
}

/// The end of a session that started at `started_at` and ended at `ended_at` (Unix
/// seconds), during which the system slept `slept_s` seconds.
pub fn session_end(started_at: u64, ended_at: u64, slept_s: u64, steam_was_running: bool) -> (e: SessionEnd)
    ensures
        e.duration_s == session_seconds(started_at, ended_at, slept_s),
        e.shutdown_steam == !steam_was_running,
{
    let wall = ended_at.saturating_sub(started_at);
    SessionEnd { duration_s: wall.saturating_sub(slept_s), shutdown_steam: !steam_was_running }
}

/// How long Steam may take to start before the launch fails (seconds).
pub const STEAM_READY_TIMEOUT_SECS: u64 = 20;

/// How long to look for the game's process after opening its URL (seconds).
pub const GAME_PROCESS_TIMEOUT_SECS: u64 = 30;

/// How long Steam may take to close after `steam -shutdown` before it is killed
/// (seconds).
pub const STEAM_SHUTDOWN_TIMEOUT_SECS: u64 = 8;

/// The next move while waiting for Steam to close after asking it to.
#[derive(Debug, Clone, Copy, PartialEq, Eq, Structural)]
pub enum ShutdownStep {
    /// Steam has closed.
    Closed,
    /// Steam is still running past the deadline: kill it.
    ForceKill,
    /// Look again later.
    Wait,
}

pub fn shutdown_poll(steam_running: bool, past_deadline: bool) -> (s: ShutdownStep)
    ensures
        !steam_running ==> s == ShutdownStep::Closed,
        steam_running && past_deadline ==> s == ShutdownStep::ForceKill,
        steam_running && !past_deadline ==> s == ShutdownStep::Wait,
{
    if !steam_running {
        ShutdownStep::Closed
    } else if past_deadline {
        ShutdownStep::ForceKill
    } else {
        ShutdownStep::Wait
    }
}

/// The next move of a polling wait (for Steam to be ready, or for the game's process).
#[derive(Debug, Clone, Copy, PartialEq, Eq, Structural)]
pub enum PollStep {
    TimedOut,
    Done,
    Wait,
}

/// The deadline is checked first; then whether what is awaited was seen.
pub fn poll_step(past_deadline: bool, found: bool) -> (s: PollStep)
    ensures
        past_deadline ==> s == PollStep::TimedOut,
        !past_deadline && found ==> s == PollStep::Done,
        !past_deadline && !found ==> s == PollStep::Wait,
{
    if past_deadline {
        PollStep::TimedOut
    } else if found {
        PollStep::Done
    } else {
        PollStep::Wait
    }
}


/// Where the Steam executable may be on Linux, in the order they are tried: the usual
/// binaries, the system Flatpak, then the user's Flatpak when the home directory is
/// known.
pub fn linux_steam_exe_candidates(home: Option<&str>) -> (r: Vec<String>)
    ensures
        r@.len() == (if home is Some { 5int } else { 4int }),
        r@[0]@ == "/usr/bin/steam"@,
        r@[1]@ == "/usr/local/bin/steam"@,
        r@[2]@ == "/usr/games/steam"@,
        r@[3]@ == "/var/lib/flatpak/exports/bin/com.valvesoftware.Steam"@,
        home matches Some(h) ==> r@[4]@ == h@ + "/.local/share/flatpak/exports/bin/com.valvesoftware.Steam"@,
{
    let mut r: Vec<String> = Vec::new();
    r.push(String::from_str("/usr/bin/steam"));
    r.push(String::from_str("/usr/local/bin/steam"));
    r.push(String::from_str("/usr/games/steam"));
    r.push(String::from_str("/var/lib/flatpak/exports/bin/com.valvesoftware.Steam"));
    match home {
        Some(h) => {
            let mut p = String::from_str(h);
            p.append("/.local/share/flatpak/exports/bin/com.valvesoftware.Steam");
            r.push(p);
        },
        None => {},
    }
    r
}

} // verus!
