use wither::commands::library::{
    close_to_tray, custom_game_name, file_stem, infer_name_from_path, launch_args_field, name_from_file_name,
};
use wither::commands::stats::session_from_columns;
use wither::commands::store::{
    app_details_cache_key, cache_is_fresh, categories_cache_key, featured_cache_key, store_config,
    APP_DETAILS_CACHE_TTL_SECS, FEATURED_CACHE_TTL_SECS, STORE_PAGE_SIZE,
};
use wither::ids::{custom_game_id, new_custom_game_id, new_session_id, steam_game_id};

#[test]
fn infer_name_title_cases_the_stem() {
    assert_eq!(infer_name_from_path("/home/me/games/my_cool-game.v2.exe"), "My Cool Game V2");
    assert_eq!(infer_name_from_path("/opt/hollow_knight/hollow_knight.x86_64"), "Hollow Knight");
    assert_eq!(infer_name_from_path("celeste"), "Celeste");
    assert_eq!(infer_name_from_path("/games/__odd--name__.sh"), "Odd Name");
    assert_eq!(infer_name_from_path("/games/.hidden"), "Hidden");
    assert_eq!(infer_name_from_path("/"), "");
    assert_eq!(infer_name_from_path("/games/ßtraße.bin"), "SStraße");
    assert_eq!(infer_name_from_path("./games//my_game.exe/"), "My Game");
}

#[test]
fn file_stem_follows_path_rules() {
    assert_eq!(file_stem("game.tar.gz"), "game.tar");
    assert_eq!(file_stem(".bashrc"), ".bashrc");
    assert_eq!(file_stem("noext"), "noext");
    assert_eq!(file_stem("trailing."), "trailing");
    assert_eq!(file_stem(""), "");
}

#[test]
fn name_from_file_name_cases() {
    assert_eq!(name_from_file_name(None), "");
    assert_eq!(name_from_file_name(Some("  spaced   out.exe")), "Spaced Out");
    assert_eq!(name_from_file_name(Some("a.b.c")), "A B");
}

#[test]
fn custom_game_name_prefers_given_name() {
    assert_eq!(custom_game_name(Some("Given".to_string()), "/x/other_name.exe"), "Given");
    assert_eq!(custom_game_name(None, "/x/other_name.exe"), "Other Name");
    assert_eq!(custom_game_name(None, "hollow_knight.exe"), "Hollow Knight");
}

#[test]
fn close_to_tray_defaults_to_true() {
    assert!(close_to_tray(None));
    assert!(close_to_tray(Some("true".to_string())));
    assert!(!close_to_tray(Some("false".to_string())));
    assert!(!close_to_tray(Some("TRUE".to_string())));
    assert!(!close_to_tray(Some(String::new())));
}

#[test]
fn launch_args_are_stored_as_json() {
    assert_eq!(launch_args_field(None), None);
    assert_eq!(
        launch_args_field(Some(vec!["-windowed".to_string(), "a \"b\"".to_string()])),
        Some("[\"-windowed\",\"a \\\"b\\\"\"]".to_string())
    );
    assert_eq!(launch_args_field(Some(vec![])), Some("[]".to_string()));
    assert_eq!(
        launch_args_field(Some(vec!["a\u{1}\n\\/é".to_string(), "".to_string()])),
        Some("[\"a\\u0001\\n\\\\/é\",\"\"]".to_string())
    );
}

#[test]
fn ids_have_their_shapes() {
    assert_eq!(steam_game_id(570), "steam_570");
    assert_eq!(custom_game_id("abc"), "custom_abc");
    let id = new_custom_game_id();
    assert_eq!(id.len(), 43);
    assert!(id.starts_with("custom_"));
    let s = new_session_id();
    assert_eq!(s.len(), 36);
    assert_eq!(&s[14..15], "4");
    assert_eq!(s.chars().filter(|c| *c == '-').count(), 4);
    assert_ne!(new_session_id(), new_session_id());
}

#[test]
fn session_from_columns_reads_flags() {
    let s = session_from_columns("s1".to_string(), "g1".to_string(), 100, Some(160), Some(60), 2);
    assert_eq!(s.id, "s1");
    assert_eq!(s.game_id, "g1");
    assert_eq!(s.name, "");
    assert_eq!(s.started_at, 100);
    assert_eq!(s.ended_at, Some(160));
    assert_eq!(s.duration_s, Some(60));
    assert!(s.was_crashed);
    assert!(!session_from_columns("s".to_string(), "g".to_string(), 0, None, None, 0).was_crashed);
}

#[test]
fn store_config_defaults() {
    let c = store_config(None, None);
    assert_eq!(c.cc, "us");
    assert_eq!(c.l, "english");
    let c = store_config(Some("de".to_string()), Some(String::new()));
    assert_eq!(c.cc, "de");
    assert_eq!(c.l, "");
}

#[test]
fn cache_freshness() {
    assert!(cache_is_fresh(1000, 900, FEATURED_CACHE_TTL_SECS));
    assert!(!cache_is_fresh(10_000, 6_400, FEATURED_CACHE_TTL_SECS));
    assert!(cache_is_fresh(10_000, 6_401, FEATURED_CACHE_TTL_SECS));
    assert!(cache_is_fresh(100, 5_000, 1));
    assert!(!cache_is_fresh(100, 5_000, 0));
    // A clock before 1970 reads as a huge unsigned number, so the entry looks very old.
    assert!(!cache_is_fresh(-1, 0, APP_DETAILS_CACHE_TTL_SECS));
    assert_eq!(STORE_PAGE_SIZE, 20);
}

#[test]
fn cache_keys() {
    assert_eq!(featured_cache_key("us"), "featured:us");
    assert_eq!(categories_cache_key("gb"), "categories:gb");
    assert_eq!(app_details_cache_key(620, "fr"), "appdetails:620:fr");
}
