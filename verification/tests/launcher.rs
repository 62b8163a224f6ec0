use wither::commands::launcher::{
    custom_launch_from, launch_failure, launch_result, launch_route, launch_status, plan_custom_launch,
    proton_compat_paths, proton_dir, session_failure, steam_game_url, CustomLaunchKind, GameRoute, LaunchAction,
    LaunchEvent, LaunchPhase, SteamLaunch,
};
use wither::process::launcher::{launch_outcome, steam_run_url, LaunchError};
use wither::process::proton::ProtonVersion;

fn run(events: &[LaunchEvent]) -> (SteamLaunch, Vec<LaunchAction>) {
    let (mut s, first) = SteamLaunch::begin();
    assert_eq!(first, LaunchAction::CheckSteam);
    let mut actions = Vec::new();
    for e in events {
        let (s2, a) = s.next(*e);
        s = s2;
        actions.push(a);
    }
    (s, actions)
}

#[test]
fn steam_already_running_is_left_alone() {
    let (s, actions) = run(&[
        LaunchEvent::SteamChecked { running: true },
        LaunchEvent::GameUrlOpened { ok: true },
        LaunchEvent::GameProcess { pid: Some(4242) },
        LaunchEvent::SessionStored { ok: true },
    ]);
    assert_eq!(
        actions,
        vec![
            LaunchAction::OpenGameUrl,
            LaunchAction::FindGameProcess,
            LaunchAction::StoreSession { pid: 4242 },
            LaunchAction::WatchSession { pid: 4242, shutdown_steam_after: false },
        ]
    );
    assert_eq!(s.phase, LaunchPhase::Running { pid: 4242 });
    assert!(s.steam_was_running);
}

#[test]
fn steam_started_here_is_shut_down_after() {
    let (_, actions) = run(&[
        LaunchEvent::SteamChecked { running: false },
        LaunchEvent::SteamSpawned { ok: true },
        LaunchEvent::SteamReady { ok: true },
        LaunchEvent::GameUrlOpened { ok: true },
        LaunchEvent::GameProcess { pid: Some(7) },
        LaunchEvent::SessionStored { ok: true },
    ]);
    assert_eq!(
        actions,
        vec![
            LaunchAction::SpawnSteam,
            LaunchAction::WaitForSteam,
            LaunchAction::OpenGameUrl,
            LaunchAction::FindGameProcess,
            LaunchAction::StoreSession { pid: 7 },
            LaunchAction::WatchSession { pid: 7, shutdown_steam_after: true },
        ]
    );
}

#[test]
fn missing_game_closes_only_our_steam() {
    let (s, actions) = run(&[
        LaunchEvent::SteamChecked { running: false },
        LaunchEvent::SteamSpawned { ok: true },
        LaunchEvent::SteamReady { ok: true },
        LaunchEvent::GameUrlOpened { ok: true },
        LaunchEvent::GameProcess { pid: None },
        LaunchEvent::SteamClosed,
    ]);
    assert_eq!(actions[4], LaunchAction::ShutdownSteam);
    assert_eq!(actions[5], LaunchAction::Fail);
    assert_eq!(s.phase, LaunchPhase::Failed);

    let (_, actions) = run(&[
        LaunchEvent::SteamChecked { running: true },
        LaunchEvent::GameUrlOpened { ok: true },
        LaunchEvent::GameProcess { pid: None },
    ]);
    assert_eq!(actions[2], LaunchAction::Fail);
    assert!(!actions.contains(&LaunchAction::ShutdownSteam));
}

#[test]
fn failures_and_stray_events() {
    let (_, a) = run(&[LaunchEvent::SteamChecked { running: false }, LaunchEvent::SteamSpawned { ok: false }]);
    assert_eq!(a, vec![LaunchAction::SpawnSteam, LaunchAction::Fail]);
    let (_, a) = run(&[
        LaunchEvent::SteamChecked { running: false },
        LaunchEvent::SteamSpawned { ok: true },
        LaunchEvent::SteamReady { ok: false },
    ]);
    assert_eq!(a[2], LaunchAction::Fail);
    let (_, a) = run(&[LaunchEvent::SteamChecked { running: true }, LaunchEvent::GameUrlOpened { ok: false }]);
    assert_eq!(a[1], LaunchAction::Fail);
    // Events that do not belong to the phase change nothing, and the first check is the one kept.
    let (s, a) = run(&[
        LaunchEvent::SteamClosed,
        LaunchEvent::SteamChecked { running: true },
        LaunchEvent::SteamChecked { running: false },
    ]);
    assert_eq!(a, vec![LaunchAction::Nothing, LaunchAction::OpenGameUrl, LaunchAction::Nothing]);
    assert!(s.steam_was_running);
    assert_eq!(s.phase, LaunchPhase::OpeningGame);
}

#[test]
fn launch_status_texts() {
    assert_eq!(launch_status(LaunchAction::CheckSteam), None);
    assert_eq!(launch_status(LaunchAction::SpawnSteam), Some("starting_steam"));
    assert_eq!(launch_status(LaunchAction::Fail), Some("error"));
    assert_eq!(launch_status(LaunchAction::ShutdownSteam), None);
    assert_eq!(launch_status(LaunchAction::WaitForSteam), Some("waiting_for_steam"));
    assert_eq!(launch_status(LaunchAction::OpenGameUrl), Some("launching_game"));
    assert_eq!(launch_status(LaunchAction::WatchSession { pid: 1, shutdown_steam_after: true }), Some("running"));
}

#[test]
fn launch_route_errors_in_order() {
    assert!(matches!(launch_route("steam", Some(570), None, false), Ok(GameRoute::Steam { app_id: 570 })));
    assert_eq!(launch_route("steam", None, Some("x".into()), true).unwrap_err(), "Missing Steam App ID");
    assert_eq!(launch_route("custom", None, None, true).unwrap_err(), "Missing executable path");
    assert_eq!(launch_route("custom", Some(1), Some("/g".into()), false).unwrap_err(), "Game is not installed");
    match launch_route("custom", None, Some("/g/run.sh".into()), true) {
        Ok(GameRoute::Custom { exe_path }) => assert_eq!(exe_path, "/g/run.sh"),
        _ => panic!("expected a custom route"),
    }
}

#[test]
fn urls_and_messages() {
    assert_eq!(steam_game_url(570), "steam://rungameid/570");
    assert_eq!(steam_game_url(-5), "steam://rungameid/-5");
    assert_eq!(steam_game_url(i64::MIN), "steam://rungameid/-9223372036854775808");
    assert_eq!(steam_run_url(4000), "steam://rungameid/4000");
    assert_eq!(launch_failure("no handler"), "Failed to launch game: no handler");
    assert_eq!(session_failure("locked"), "Failed to create session: locked");
    let r = launch_result("sid".to_string(), 9, 123);
    assert_eq!((r.session_id.as_str(), r.pid, r.started_at), ("sid", Some(9), 123));
}

#[test]
fn launch_outcomes() {
    let r = launch_outcome(None, "s".into(), 5).ok().unwrap();
    assert_eq!((r.pid, r.session_id.as_str(), r.started_at), (None, "s", 5));
    let r = launch_outcome(Some(Ok(77)), "t".into(), 6).ok().unwrap();
    assert_eq!(r.pid, Some(77));
    match launch_outcome(Some(Err("denied".into())), "u".into(), 7) {
        Err(LaunchError::Other(m)) => assert_eq!(m, "denied"),
        _ => panic!("expected an error"),
    }
}

#[test]
fn custom_launch_kinds() {
    let k = |e: Option<&str>| custom_launch_from(Some("/g".to_string()), e.map(|x| x.to_string())).ok().unwrap().kind;
    assert_eq!(k(Some("exe")), CustomLaunchKind::Proton);
    assert_eq!(k(Some("EXE")), CustomLaunchKind::Proton);
    assert_eq!(k(Some("AppImage")), CustomLaunchKind::MakeExecutableThenRun);
    assert_eq!(k(Some("sh")), CustomLaunchKind::MakeExecutableThenRun);
    assert_eq!(k(None), CustomLaunchKind::MakeExecutableThenRun);
    assert_eq!(k(Some("x86_64")), CustomLaunchKind::Run);
    assert_eq!(custom_launch_from(None, Some("exe".into())).err().unwrap(), "Invalid executable path");
    let c = plan_custom_launch("/games/witcher/witcher3.exe").ok().unwrap();
    assert_eq!(c.working_dir, "/games/witcher");
    assert_eq!(c.kind, CustomLaunchKind::Proton);
    assert_eq!(plan_custom_launch("/games/celeste/Celeste").ok().unwrap().kind, CustomLaunchKind::MakeExecutableThenRun);
    assert_eq!(plan_custom_launch("/").err().unwrap(), "Invalid executable path");
}

#[test]
fn proton_choice() {
    let v = ProtonVersion {
        name: "GE-Proton9-1".into(),
        path: "/p/GE-Proton9-1".into(),
        version: None,
        source: "custom".into(),
    };
    assert_eq!(proton_dir("/chosen", Some(v.clone())).unwrap(), "/chosen");
    assert_eq!(proton_dir("", Some(v)).unwrap(), "/p/GE-Proton9-1");
    assert_eq!(
        proton_dir("", None).unwrap_err(),
        "No Proton version found. Install Proton via Steam or download GE-Proton."
    );
    let (root, data) = proton_compat_paths("/home/u");
    assert_eq!(root, "/home/u/.steam/steam");
    assert_eq!(data, "/home/u/.steam/steam/steamapps/compatdata/wither_custom");
}

fn statuses(events: &[LaunchEvent]) -> Vec<&'static str> {
    let (mut s, mut a) = SteamLaunch::begin();
    let mut out: Vec<&'static str> = launch_status(a).into_iter().collect();
    for e in events {
        let (s2, a2) = s.next(*e);
        s = s2;
        a = a2;
        out.extend(launch_status(a));
    }
    out
}

#[test]
fn statuses_follow_the_documented_order() {
    assert_eq!(
        statuses(&[
            LaunchEvent::SteamChecked { running: true },
            LaunchEvent::GameUrlOpened { ok: true },
            LaunchEvent::GameProcess { pid: Some(3) },
            LaunchEvent::SessionStored { ok: true },
        ]),
        vec!["launching_game", "running"]
    );
    assert_eq!(
        statuses(&[
            LaunchEvent::SteamChecked { running: false },
            LaunchEvent::SteamSpawned { ok: true },
            LaunchEvent::SteamReady { ok: true },
            LaunchEvent::GameUrlOpened { ok: true },
            LaunchEvent::GameProcess { pid: Some(3) },
            LaunchEvent::SessionStored { ok: true },
        ]),
        vec!["starting_steam", "waiting_for_steam", "launching_game", "running"]
    );
    // Steam slow to start, and a game that never appears: an error either way.
    assert_eq!(
        statuses(&[
            LaunchEvent::SteamChecked { running: false },
            LaunchEvent::SteamSpawned { ok: true },
            LaunchEvent::SteamReady { ok: false },
        ]),
        vec!["starting_steam", "waiting_for_steam", "error"]
    );
    assert_eq!(
        statuses(&[
            LaunchEvent::SteamChecked { running: false },
            LaunchEvent::SteamSpawned { ok: true },
            LaunchEvent::SteamReady { ok: true },
            LaunchEvent::GameUrlOpened { ok: true },
            LaunchEvent::GameProcess { pid: None },
            LaunchEvent::SteamClosed,
        ]),
        vec!["starting_steam", "waiting_for_steam", "launching_game", "error"]
    );
}

#[test]
fn custom_launch_of_paths() {
    let c = plan_custom_launch("celeste.AppImage").ok().unwrap();
    assert_eq!(c.working_dir, "");
    assert_eq!(c.kind, CustomLaunchKind::MakeExecutableThenRun);
    let c = plan_custom_launch("/games//witcher/./bin/witcher3.EXE").ok().unwrap();
    assert!("/games//witcher/./bin/witcher3.EXE".starts_with(&c.working_dir));
    assert_eq!(std::path::Path::new(&c.working_dir), std::path::Path::new("/games/witcher/bin"));
    assert_eq!(c.kind, CustomLaunchKind::Proton);
    let c = plan_custom_launch("games/run.sh").ok().unwrap();
    assert_eq!(c.working_dir, "games");
    assert_eq!(c.kind, CustomLaunchKind::MakeExecutableThenRun);
    assert_eq!(plan_custom_launch("/").err(), Some("Invalid executable path".to_string()));
    assert_eq!(plan_custom_launch("/./").err(), Some("Invalid executable path".to_string()));
    assert_eq!(plan_custom_launch("").err(), Some("Invalid executable path".to_string()));
    assert!(plan_custom_launch("/run.sh").is_ok());
}
