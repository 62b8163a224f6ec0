use wither::commands::steam::{
    acf_not_found, api_fetch_error, appmanifest_file_name, detected_user, fallback_persona, first_existing,
    linux_steam_root_candidates, macos_steam_root, no_steam_result, parse_loginusers_vdf, profile_url, saved_user,
    signed_in_user, sync_result,
};
use wither::steam::acf_parser::AcfGame;
use wither::steam::sync::{is_fully_installed, plan_steam_sync, uninstalled_app_ids, SyncAction};
use wither::steam::web_api::PlayerSummary;

const LOGINUSERS: &str = "\"users\"\n{\n\t\"76561198000000001\"\n\t{\n\t\t\"AccountName\"\t\t\"alice\"\n\t\t\"PersonaName\"\t\t\"Alice\"\n\t\t\"MostRecent\"\t\t\"0\"\n\t\t\"Timestamp\"\t\t\"1700000000\"\n\t}\n\t\"76561198000000002\"\n\t{\n\t\t\"AccountName\"\t\t\"bob\"\n\t\t\"PersonaName\"\t\t\"Bob\"\n\t\t\"MostRecent\"\t\t\"1\"\n\t\t\"Timestamp\"\t\t\"1600000000\"\n\t}\n}\n";

#[test]
fn loginusers_most_recent_wins() {
    assert_eq!(
        parse_loginusers_vdf(LOGINUSERS),
        Some(("76561198000000002".to_string(), "Bob".to_string()))
    );
}

#[test]
fn loginusers_falls_back_to_latest_timestamp() {
    let text = LOGINUSERS.replace("\"MostRecent\"\t\t\"1\"", "\"MostRecent\"\t\t\"0\"");
    assert_eq!(parse_loginusers_vdf(&text), Some(("76561198000000001".to_string(), "Alice".to_string())));
    // The persona is the one read before the timestamp line.
    let early = "\"users\"\r\n{\r\n\"42\"\r\n{\r\n\"Timestamp\" \"5\"\r\n\"PersonaName\" \"Late\"\r\n}\r\n}\r\n";
    assert_eq!(parse_loginusers_vdf(early), Some(("42".to_string(), String::new())));
    assert_eq!(parse_loginusers_vdf(""), None);
    assert_eq!(parse_loginusers_vdf("\"users\"\n{\n}\n"), None);
    // Keys are compared in lowercase; a bad timestamp is ignored.
    let mixed = "\"users\"\n{\n\"7\"\n{\n\"PERSONANAME\" \"Seven\"\n\"timestamp\" \"-1\"\n\"MOSTRECENT\" \"1\"\n}\n}\n";
    assert_eq!(parse_loginusers_vdf(mixed), Some(("7".to_string(), "Seven".to_string())));
}

fn loginusers_of(users: &[(&str, &str, &str, &str)]) -> String {
    let mut text = String::from("\"users\"\n{\n");
    for (id, persona, recent, ts) in users {
        text.push_str(&format!(
            "\t\"{}\"\n\t{{\n\t\t\"PersonaName\"\t\t\"{}\"\n\t\t\"MostRecent\"\t\t\"{}\"\n\t\t\"Timestamp\"\t\t\"{}\"\n\t}}\n",
            id, persona, recent, ts
        ));
    }
    text.push_str("}\n");
    text
}

#[test]
fn loginusers_choice_among_blocks() {
    // The first user marked MostRecent wins, whatever the timestamps.
    let two_recent = loginusers_of(&[("1", "A", "0", "9"), ("2", "B", "1", "1"), ("3", "C", "1", "5")]);
    assert_eq!(parse_loginusers_vdf(&two_recent), Some(("2".to_string(), "B".to_string())));
    // Without one, the first of the users with the greatest timestamp.
    let tie = loginusers_of(&[("1", "A", "0", "3"), ("2", "B", "0", "8"), ("3", "C", "0", "8")]);
    assert_eq!(parse_loginusers_vdf(&tie), Some(("2".to_string(), "B".to_string())));
    // Users whose timestamp is zero are never chosen by timestamp.
    let zero = loginusers_of(&[("1", "A", "0", "0"), ("2", "B", "0", "0")]);
    assert_eq!(parse_loginusers_vdf(&zero), None);
}

#[test]
fn users_built_for_the_frontend() {
    assert_eq!(profile_url("1"), "https://steamcommunity.com/profiles/1");
    assert_eq!(fallback_persona(99), "SteamUser_99");
    let u = signed_in_user(76561198000000002, None);
    assert_eq!(u.steamid, "76561198000000002");
    assert_eq!(u.personaname, "SteamUser_76561198000000002");
    assert_eq!((u.avatar.as_str(), u.avatarfull.as_str()), ("", ""));
    assert_eq!(u.profileurl, "https://steamcommunity.com/profiles/76561198000000002");
    assert!(u.is_public);
    let p = PlayerSummary {
        steamid: "5".into(),
        personaname: "Pat".into(),
        avatar: "a.jpg".into(),
        avatarmedium: "m.jpg".into(),
        avatarfull: "f.jpg".into(),
        profileurl: "https://example.invalid/".into(),
        communityvisibilitystate: 3,
    };
    let u = signed_in_user(5, Some(p));
    assert_eq!((u.personaname.as_str(), u.avatar.as_str(), u.avatarfull.as_str()), ("Pat", "a.jpg", "f.jpg"));
    assert_eq!(u.profileurl, "https://steamcommunity.com/profiles/5");
    let d = detected_user("9".into(), "Nine".into(), Some(("s.jpg".into(), "l.jpg".into())));
    assert_eq!((d.avatar.as_str(), d.avatarfull.as_str()), ("s.jpg", "l.jpg"));
    let d = detected_user("9".into(), "Nine".into(), None);
    assert_eq!(d.avatar, "");
    let s = saved_user(Some("3".into()), "Three".into(), "av".into()).unwrap();
    assert_eq!((s.avatar.as_str(), s.avatarfull.as_str(), s.profileurl.as_str()), ("av", "av", "https://steamcommunity.com/profiles/3"));
    assert!(saved_user(None, "x".into(), "y".into()).is_none());
}

#[test]
fn manifest_locations() {
    assert_eq!(appmanifest_file_name(620), "appmanifest_620.acf");
    assert_eq!(acf_not_found(620), "ACF file not found for AppID 620");
    assert_eq!(first_existing(&vec![false, true, true]), Some(1));
    assert_eq!(first_existing(&vec![false, false]), None);
    assert_eq!(first_existing(&vec![]), None);
    let c = linux_steam_root_candidates("/home/u");
    assert_eq!(c, vec!["/home/u/.steam/steam".to_string(), "/home/u/.local/share/Steam".to_string()]);
    assert_eq!(macos_steam_root("/Users/u"), "/Users/u/Library/Application Support/Steam");
}

fn acf(app_id: u32, state_flags: u32) -> AcfGame {
    AcfGame {
        app_id,
        name: format!("Game {}", app_id),
        install_dir: format!("dir{}", app_id),
        state_flags,
        last_updated: 0,
        size_on_disk: 0,
        library_path: "/lib/steamapps".to_string(),
    }
}

#[test]
fn sync_plan_scenario() {
    let games = vec![acf(10, 4), acf(20, 2), acf(30, 6), acf(50, 4)];
    let plan = plan_steam_sync(&games, &vec![20, 40, 50, 40], &vec![50], &vec![20]);
    assert_eq!(
        plan.actions,
        vec![
            SyncAction::InsertFromManifest { index: 0, installed: true },
            SyncAction::UpdateFromManifest { index: 1, installed: false },
            SyncAction::InsertFromManifest { index: 2, installed: true },
            SyncAction::InsertOwned { app_id: 40 },
        ]
    );
    assert_eq!(plan.seen_app_ids, vec![10, 20, 30, 40]);
    assert_eq!((plan.added, plan.updated), (3, 1));
    // The owned game 40 counts as seen; the removed game 50 and the unknown 99 do not.
    let unseen = uninstalled_app_ids(&vec![10, 20, 30, 40, 50, 99, 4294967306], &plan.seen_app_ids);
    assert_eq!(unseen, vec![50, 99]);
    let r = sync_result(&plan, &unseen, vec![api_fetch_error("timeout")], 1234);
    assert_eq!((r.added, r.updated, r.removed, r.synced_at), (3, 1, 2, 1234));
    assert_eq!(r.errors, vec!["API fetch failed: timeout".to_string()]);
}

#[test]
fn sync_inserts_a_manifest_game_once() {
    let games = vec![acf(10, 4), acf(10, 4)];
    let plan = plan_steam_sync(&games, &vec![10], &vec![], &vec![]);
    assert_eq!(
        plan.actions,
        vec![
            SyncAction::InsertFromManifest { index: 0, installed: true },
            SyncAction::UpdateFromManifest { index: 1, installed: true },
        ]
    );
    assert_eq!(plan.seen_app_ids, vec![10, 10]);
}

#[test]
fn sync_without_steam() {
    let r = no_steam_result(77);
    assert_eq!((r.added, r.updated, r.removed, r.synced_at), (0, 0, 0, 77));
    assert_eq!(r.errors, vec!["Steam installation not found".to_string()]);
    assert!(is_fully_installed(4) && is_fully_installed(6));
    assert!(!is_fully_installed(2) && !is_fully_installed(1030));
}
