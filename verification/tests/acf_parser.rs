use wither::steam::acf_parser::{
    add_steam_root,
    executable_name_candidates, extract_value, get_all_steam_paths, is_acf_extension, is_app_manifest_file_name,
    largest_exe_index, library_folder_candidates, manifest_changed, parse_acf_content,
};

#[test]
fn test_extract_value() {
    let content = r#"
"AppState"
{
    "appid"     "570"
    "name"      "Dota 2"
    "installdir" "dota 2 beta"
}"#;

    assert_eq!(extract_value(content, "appid"), Some("570"));
    assert_eq!(extract_value(content, "name"), Some("Dota 2"));
    assert_eq!(extract_value(content, "installdir"), Some("dota 2 beta"));
    assert_eq!(extract_value(content, "nonexistent"), None);
}

const MANIFEST: &str = "\"AppState\"\r\n{\r\n\t\"appid\"\t\t\"620\"\r\n\t\"name\"\t\t\"Portal 2\"\r\n\t\"StateFlags\"\t\t\"4\"\r\n\t\"installdir\"\t\t\"Portal 2\"\r\n\t\"LastUpdated\"\t\t\"1700000000\"\r\n\t\"SizeOnDisk\"\t\t\"12884901888\"\r\n}\r\n";

#[test]
fn parse_acf_content_reads_all_fields() {
    let g = parse_acf_content(MANIFEST, "/games/steamapps".to_string()).unwrap();
    assert_eq!(g.app_id, 620);
    assert_eq!(g.name, "Portal 2");
    assert_eq!(g.install_dir, "Portal 2");
    assert_eq!(g.state_flags, 4);
    assert_eq!(g.last_updated, 1700000000);
    assert_eq!(g.size_on_disk, 12884901888);
    assert_eq!(g.library_path, "/games/steamapps");
}

#[test]
fn parse_acf_content_defaults_missing_numbers_to_zero() {
    let text = "\"appid\" \"10\"\n\"name\" \"CS\"\n\"installdir\" \"cs\"\n\"StateFlags\" \"x4\"\n";
    let g = parse_acf_content(text, ".".to_string()).unwrap();
    assert_eq!(g.state_flags, 0);
    assert_eq!(g.last_updated, 0);
    assert_eq!(g.size_on_disk, 0);
}

#[test]
fn parse_acf_content_errors() {
    assert_eq!(parse_acf_content("\"name\" \"x\"", ".".to_string()).unwrap_err(), "Missing appid");
    assert_eq!(
        parse_acf_content("\"appid\" \"12a\"", ".".to_string()).unwrap_err(),
        "Invalid appid: invalid digit found in string"
    );
    assert_eq!(
        parse_acf_content("\"appid\" \"\"", ".".to_string()).unwrap_err(),
        "Invalid appid: cannot parse integer from empty string"
    );
    assert_eq!(
        parse_acf_content("\"appid\" \"4294967296\"", ".".to_string()).unwrap_err(),
        "Invalid appid: number too large to fit in target type"
    );
    assert_eq!(parse_acf_content("\"appid\" \"7\"", ".".to_string()).unwrap_err(), "Missing name");
    assert_eq!(
        parse_acf_content("\"appid\" \"7\"\n\"name\" \"n\"", ".".to_string()).unwrap_err(),
        "Missing installdir"
    );
}

#[test]
fn extract_value_takes_first_line_with_a_value() {
    let text = "\"name\"\n\"name\" \"second\"\n";
    assert_eq!(extract_value(text, "name"), Some("second"));
    assert_eq!(extract_value("  \"k\" \"v\"  ", "k"), Some("v"));
}

#[test]
fn library_folders_from_vdf() {
    // The value of a `"key" "value"` line, or a lone quoted field, when it looks like a path.
    let vdf = r#""libraryfolders"
{
	"0"
	{
		"path"		"/home/u/.local/share/Steam"
		"label"		""
	}
	"1"		"D:\\Games\\Steam"
	"/mnt/games/SteamLibrary"
	"2"		"relative/path"
	"  \\server\share  "
}
"#;
    assert_eq!(
        library_folder_candidates(vdf),
        vec![
            "/home/u/.local/share/Steam".to_string(),
            "D:\\Games\\Steam".to_string(),
            "/mnt/games/SteamLibrary".to_string(),
            "\\server\\share".to_string(),
        ]
    );
    assert!(library_folder_candidates("").is_empty());
}

#[test]
fn manifest_file_names() {
    assert!(is_app_manifest_file_name("appmanifest_570.acf"));
    assert!(!is_app_manifest_file_name("appmanifest_570.acf.bak"));
    assert!(!is_app_manifest_file_name("libraryfolders.vdf"));
    assert!(is_acf_extension(Some("acf".to_string())));
    assert!(!is_acf_extension(Some("ACF".to_string())));
    assert!(!is_acf_extension(None));
    assert!(manifest_changed(&vec!["/s/steamapps/downloading".to_string(), "/s/steamapps/appmanifest_1.acf".to_string()]));
    assert!(!manifest_changed(&vec!["/s/steamapps/appmanifest_1.acf.tmp".to_string()]));
    assert!(!manifest_changed(&vec![]));
}

#[test]
fn executable_candidates_and_largest() {
    let g = parse_acf_content(MANIFEST, "/lib".to_string()).unwrap();
    assert_eq!(
        executable_name_candidates(&g),
        vec!["portal2.exe".to_string(), "portal2.exe".to_string(), "game.exe".to_string(), "main.exe".to_string()]
    );
    assert_eq!(largest_exe_index(&vec![3, 9, 9, 1]), Some(1));
    assert_eq!(largest_exe_index(&vec![]), None);
}

#[test]
fn steam_root_is_added_once() {
    let libs = vec!["/a".to_string(), "/b".to_string()];
    assert_eq!(get_all_steam_paths(None, libs.clone()), libs);
    assert_eq!(get_all_steam_paths(Some("/b".to_string()), libs.clone()), libs);
    assert_eq!(get_all_steam_paths(Some("/b/".to_string()), libs.clone()), libs);
    assert_eq!(
        get_all_steam_paths(Some("/c".to_string()), libs.clone()),
        vec!["/a".to_string(), "/b".to_string(), "/c".to_string()]
    );
}

#[test]
fn steam_root_added_by_listed_flags() {
    assert_eq!(get_all_steam_paths(Some("steam".to_string()), vec![]), vec!["steam".to_string()]);
    assert_eq!(
        get_all_steam_paths(Some("c".to_string()), vec!["a".to_string()]),
        vec!["a".to_string(), "c".to_string()]
    );
    let libs = vec!["/a".to_string(), "/b".to_string()];
    assert_eq!(add_steam_root(libs.clone(), "/b".to_string(), &vec![false, true]), libs);
    assert_eq!(
        add_steam_root(libs.clone(), "/c".to_string(), &vec![false, false]),
        vec!["/a".to_string(), "/b".to_string(), "/c".to_string()]
    );
    assert!(manifest_changed(&vec!["appmanifest_9.acf".to_string()]));
    assert!(!manifest_changed(&vec![".acf".to_string()]));
}

#[test]
fn slash_paths_compare_by_components() {
    assert_eq!(get_all_steam_paths(Some("/s".to_string()), vec!["/s/".to_string()]), vec!["/s/".to_string()]);
    assert_eq!(get_all_steam_paths(Some("/a/./b".to_string()), vec!["/a//b".to_string()]), vec!["/a//b".to_string()]);
    assert_eq!(
        get_all_steam_paths(Some("a/b".to_string()), vec!["/a/b".to_string()]),
        vec!["/a/b".to_string(), "a/b".to_string()]
    );
    assert!(manifest_changed(&vec!["/s/steamapps/appmanifest_1.acf/".to_string()]));
    assert!(!manifest_changed(&vec!["/s/steamapps/.acf".to_string()]));
}
