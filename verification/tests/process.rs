use wither::process::steam_launcher::{GAME_PROCESS_TIMEOUT_SECS, STEAM_READY_TIMEOUT_SECS, STEAM_SHUTDOWN_TIMEOUT_SECS};
use wither::process::proton::{
    compat_vdf_display_name, ge_install_paths, ge_installed_message, ge_releases, get_default_proton,
    get_proton_versions, parse_version_text, GeAsset, GeReleaseInfo, ProtonCandidate, ProtonVersion,
};
use wither::process::steam_launcher::{
    descend_into, exe_hint_for_entry, find_game_process, get_exe_hints, get_exe_hints_from_install_dir,
    is_main_steam_process, linux_steam_exe_candidates, poll_step, session_end, shutdown_poll, slept_during, steam_is_running,
    steam_webhelper_present, PollStep, SessionWatch, ShutdownStep,
};

fn names(v: &[&str]) -> Vec<String> {
    v.iter().map(|s| s.to_string()).collect()
}

#[test]
fn steam_process_detection() {
    assert!(is_main_steam_process("steam"));
    assert!(is_main_steam_process("steam.exe"));
    assert!(is_main_steam_process("steam.sh"));
    assert!(!is_main_steam_process("steamwebhelper"));
    assert!(!is_main_steam_process("steamcmd"));
    assert!(!is_main_steam_process("steamy"));
    assert!(steam_is_running(&names(&["bash", "Steam.exe"])));
    assert!(!steam_is_running(&names(&["steamwebhelper", "steamservice.exe"])));
    assert!(!steam_is_running(&vec![]));
    assert!(steam_webhelper_present(&names(&["init", "SteamWebHelper"])));
    assert!(!steam_webhelper_present(&names(&["steam"])));
}

#[test]
fn game_process_is_found_by_hint() {
    let procs = vec![(1, "bash".to_string()), (20, "Hades.exe".to_string()), (30, "hades".to_string())];
    assert_eq!(find_game_process(&procs, &names(&["hades"])), Some(20));
    assert_eq!(find_game_process(&procs, &names(&["HaDeS"])), Some(20));
    assert_eq!(find_game_process(&procs, &names(&["celeste"])), None);
    assert_eq!(find_game_process(&procs, &vec![]), None);
}

#[test]
fn exe_hints_are_sorted_and_unique() {
    let hints = get_exe_hints("Hollow Knight", Some("/games/common/Hollow Knight"), &names(&["hollow_knight", "zz"]));
    assert_eq!(hints, names(&["hollow knight", "hollow_knight", "hollowknight", "zz"]));
    let hints = get_exe_hints("Celeste", Some("/games/common/Celeste/"), &vec![]);
    assert_eq!(hints, names(&["celeste"]));
    let hints = get_exe_hints("X", Some("Dir Name"), &vec![]);
    assert_eq!(hints, names(&["dir name", "x"]));
    let hints = get_exe_hints("Celeste", None, &vec![]);
    assert_eq!(hints, names(&["celeste"]));
    assert_eq!(get_exe_hints_from_install_dir(&names(&["b", "a", "b"])), names(&["a", "b"]));
}

#[test]
fn install_dir_entries() {
    assert_eq!(exe_hint_for_entry("Game.EXE", true, false), Some("game".to_string()));
    assert_eq!(exe_hint_for_entry("game.exe.exe", true, false), Some("game".to_string()));
    assert_eq!(exe_hint_for_entry("UnityCrashHandler64.exe", true, false), Some("unitycrashhandler64".to_string()));
    assert_eq!(exe_hint_for_entry("unins000.exe", true, false), None);
    assert_eq!(exe_hint_for_entry("readme.txt", true, true), None);
    assert_eq!(exe_hint_for_entry("Celeste", false, true), Some("celeste".to_string()));
    assert_eq!(exe_hint_for_entry("Celeste", false, false), None);
    assert_eq!(exe_hint_for_entry("run.sh", false, true), None);
    assert_eq!(exe_hint_for_entry("vcredist_x64", false, true), None);
    assert!(descend_into(0) && descend_into(2));
    assert!(!descend_into(3));
}

#[test]
fn session_watch_tracks_children() {
    let mut w = SessionWatch::new();
    assert!(w.observe(100, true, &vec![(5, None)]));
    assert!(w.child_pids().is_empty());
    // The main process is gone but a child lives on.
    assert!(w.observe(100, false, &vec![(1, None), (101, Some(100)), (102, Some(101))]));
    assert_eq!(w.child_pids(), &vec![101]);
    // The known child is still there even though its parent changed.
    assert!(w.observe(100, false, &vec![(101, Some(1))]));
    assert_eq!(w.child_pids(), &vec![101]);
    assert!(!w.observe(100, false, &vec![(7, Some(1))]));
}

#[test]
fn session_end_and_polls() {
    let e = session_end(100, 160, 0, false);
    assert_eq!(e.duration_s, 60);
    assert!(e.shutdown_steam);
    assert_eq!(session_end(100, 4000, 3600, true).duration_s, 300);
    assert_eq!(session_end(100, 160, 90, true).duration_s, 0);
    let e = session_end(200, 100, 0, true);
    assert_eq!(e.duration_s, 0);
    assert!(!e.shutdown_steam);
    assert_eq!(shutdown_poll(false, true), ShutdownStep::Closed);
    assert_eq!(shutdown_poll(true, true), ShutdownStep::ForceKill);
    assert_eq!(shutdown_poll(true, false), ShutdownStep::Wait);
    assert_eq!(poll_step(true, true), PollStep::TimedOut);
    assert_eq!(poll_step(false, true), PollStep::Done);
    assert_eq!(poll_step(false, false), PollStep::Wait);
}

#[test]
fn steam_exe_candidates() {
    let c = linux_steam_exe_candidates(Some("/home/u"));
    assert_eq!(c.len(), 5);
    assert_eq!(c[0], "/usr/bin/steam");
    assert_eq!(c[4], "/home/u/.local/share/flatpak/exports/bin/com.valvesoftware.Steam");
    assert_eq!(linux_steam_exe_candidates(None).len(), 4);
}

fn cand(name: &str) -> ProtonCandidate {
    ProtonCandidate { name: name.to_string(), path: format!("/p/{}", name), version: None }
}

fn pv(name: &str, source: &str) -> ProtonVersion {
    ProtonVersion { name: name.to_string(), path: format!("/p/{}", name), version: None, source: source.to_string() }
}

#[test]
fn proton_versions_are_collected_and_ordered() {
    let r = get_proton_versions(
        vec![cand("GE-Proton8-1"), cand("GE-Proton9-2")],
        vec![cand("GE-Proton9-2"), cand("Luxtorpeda")],
        vec![cand("Proton 8.0"), cand("Steam Linux Runtime"), cand("Proton - Experimental"), cand("Luxtorpeda")],
    );
    let got: Vec<(String, String)> = r.iter().map(|v| (v.name.clone(), v.source.clone())).collect();
    let want: Vec<(String, String)> = vec![
        ("Luxtorpeda", "custom"),
        ("GE-Proton9-2", "custom"),
        ("GE-Proton8-1", "custom"),
        ("Proton 8.0", "steam"),
        ("Proton - Experimental", "steam"),
    ]
    .into_iter()
    .map(|(a, b)| (a.to_string(), b.to_string()))
    .collect();
    assert_eq!(got, want);
    assert_eq!(r[1].path, "/p/GE-Proton9-2");
}

#[test]
fn default_proton_preference() {
    let vs = vec![pv("GE-Proton9-2", "custom"), pv("Proton 8.0", "steam"), pv("Proton - Experimental", "steam")];
    assert_eq!(get_default_proton(&vs).unwrap().name, "Proton - Experimental");
    let vs = vec![pv("Proton 7.0", "steam"), pv("GE-Proton9-2", "custom")];
    assert_eq!(get_default_proton(&vs).unwrap().name, "GE-Proton9-2");
    let vs = vec![pv("Proton 7.0", "steam"), pv("Proton Hotfix", "steam")];
    assert_eq!(get_default_proton(&vs).unwrap().name, "Proton Hotfix");
    let vs = vec![pv("Proton 7.0", "steam"), pv("Proton 6.3", "steam")];
    assert_eq!(get_default_proton(&vs).unwrap().name, "Proton 7.0");
    assert!(get_default_proton(&vec![]).is_none());
}

#[test]
fn proton_files() {
    assert_eq!(parse_version_text("1712345678 proton-9.0-2\n"), Some("proton-9.0-2".to_string()));
    assert_eq!(parse_version_text("  GE-Proton9-2  "), Some("GE-Proton9-2".to_string()));
    assert_eq!(parse_version_text(" \n "), None);
    let vdf = "\"compatibilitytools\"\n{\n  \"compat_tools\"\n  {\n    \"GE-Proton9-2\"\n    {\n      \"install_path\" \".\"\n      \"display_name\" \"GE-Proton9-2 (custom)\"\n    }\n  }\n}\n";
    assert_eq!(compat_vdf_display_name(vdf), Some("GE-Proton9-2 (custom)".to_string()));
    assert_eq!(compat_vdf_display_name("\"display_name\"\n"), None);
    let (dir, archive) = ge_install_paths("/home/u", "GE-Proton9-2");
    assert_eq!(dir, "/home/u/.steam/steam/compatibilitytools.d");
    assert_eq!(archive, "GE-Proton9-2.tar.gz");
    assert_eq!(ge_installed_message("GE-Proton9-2"), "GE-Proton GE-Proton9-2 installed successfully");
}

#[test]
fn ge_release_entries() {
    let rel = |tag: Option<&str>, assets: Option<Vec<GeAsset>>| GeReleaseInfo {
        tag_name: tag.map(|t| t.to_string()),
        name: None,
        published_at: Some("2024-01-01T00:00:00Z".to_string()),
        assets,
    };
    let asset = |name: &str, size: Option<u64>| GeAsset {
        name: Some(name.to_string()),
        browser_download_url: Some(format!("https://dl/{}", name)),
        size,
    };
    let releases = vec![
        rel(Some("GE-Proton9-2"), Some(vec![asset("GE-Proton9-2.sha512sum", Some(1)), asset("GE-Proton9-2.tar.gz", Some(500))])),
        rel(Some("GE-Proton9-1"), Some(vec![asset("notes.txt", None)])),
        rel(Some("GE-Proton8-1"), None),
        rel(None, Some(vec![asset("x.tar.gz", None)])),
    ];
    let out = ge_releases(&releases, &vec![pv("GE-Proton9-2", "custom")]);
    assert_eq!(out.len(), 2);
    assert_eq!(out[0].tag_name, "GE-Proton9-2");
    assert_eq!(out[0].name, "GE-Proton9-2");
    assert_eq!(out[0].download_url, "https://dl/GE-Proton9-2.tar.gz");
    assert_eq!(out[0].size_bytes, 500);
    assert_eq!(out[0].published_at, "2024-01-01T00:00:00Z");
    assert!(out[0].is_installed);
    assert_eq!(out[1].tag_name, "");
    assert_eq!(out[1].size_bytes, 0);
    // An empty tag is contained in every installed name.
    assert!(out[1].is_installed);
}

#[test]
fn slept_time_from_two_clocks() {
    // 1000 s of wall-clock time, 400 s of it counted by the monotonic clock.
    assert_eq!(slept_during(5000, 6000, 400), 600);
    assert_eq!(slept_during(5000, 6000, 1000), 0);
    assert_eq!(slept_during(5000, 6000, 2000), 0);
    assert_eq!(slept_during(6000, 5000, 0), 0);
    let e = session_end(5000, 6000, slept_during(5000, 6000, 400), true);
    assert_eq!(e.duration_s, 400);
}

#[test]
fn lifecycle_timeouts() {
    assert_eq!((STEAM_READY_TIMEOUT_SECS, GAME_PROCESS_TIMEOUT_SECS, STEAM_SHUTDOWN_TIMEOUT_SECS), (20, 30, 8));
}
