use wither::steam::store_api::{
    browse_url, check_app_details, featured_categories_url, featured_url, merge_featured, search_url,
    store_app_details_url, FeaturedItem,
};
use wither::steam::web_api::{
    app_details_url, check_owned_games_body, check_owned_games_count, check_players, game_display_name,
    game_metadata, get_background_url, get_cover_url, get_icon_url, owned_games_url, player_summary_url,
    recently_played_url, AppDetails, Genre,
};

#[test]
fn cdn_urls() {
    assert_eq!(get_cover_url(570), "https://cdn.cloudflare.steamstatic.com/steam/apps/570/library_600x900.jpg");
    assert_eq!(get_background_url(570), "https://cdn.cloudflare.steamstatic.com/steam/apps/570/library_hero.jpg");
    assert_eq!(
        get_icon_url(570, "abc123"),
        "https://media.steampowered.com/steamcommunity/public/images/apps/570/abc123.jpg"
    );
    assert_eq!(get_cover_url(0), "https://cdn.cloudflare.steamstatic.com/steam/apps/0/library_600x900.jpg");
}

#[test]
fn web_api_urls() {
    assert_eq!(
        player_summary_url("KEY", "7656"),
        "https://api.steampowered.com/ISteamUser/GetPlayerSummaries/v2/?key=KEY&steamids=7656"
    );
    assert_eq!(
        owned_games_url("K", "S"),
        "https://api.steampowered.com/IPlayerService/GetOwnedGames/v1/?key=K&steamid=S&include_appinfo=1&include_played_free_games=1&format=json"
    );
    assert_eq!(
        recently_played_url("K", "S"),
        "https://api.steampowered.com/IPlayerService/GetRecentlyPlayedGames/v1/?key=K&steamid=S"
    );
    assert_eq!(app_details_url(10), "https://store.steampowered.com/api/appdetails?appids=10");
}

#[test]
fn owned_games_checks() {
    assert_eq!(
        check_owned_games_body("  <!DOCTYPE html><p>403</p>").unwrap_err(),
        "Steam API returned HTML error page. Please check your API key at https://steamcommunity.com/dev/apikey"
    );
    assert!(check_owned_games_body("<html>").is_err());
    assert_eq!(check_owned_games_body("401 Unauthorized").unwrap_err(), "Steam API error: 401 Unauthorized");
    assert_eq!(
        check_owned_games_body("{\"error\":\"x\"}").unwrap_err(),
        "Steam API error: {\"error\":\"x\"}"
    );
    assert!(check_owned_games_body("{\"response\":{\"game_count\":2}}").is_ok());
    assert_eq!(check_owned_games_count(Some(0)).unwrap_err(), "Library is private or empty");
    assert!(check_owned_games_count(Some(3)).is_ok());
    assert!(check_owned_games_count(None).is_ok());
    assert_eq!(check_players(None).unwrap_err(), "No players in response");
    assert_eq!(check_players(Some(0)).unwrap_err(), "Player not found");
    assert!(check_players(Some(1)).is_ok());
}

#[test]
fn metadata_from_details() {
    let d = AppDetails {
        name: "Hades".to_string(),
        header_image: None,
        background: None,
        genres: Some(vec![Genre { description: "Action".into() }, Genre { description: "Indie".into() }]),
        developers: Some(vec!["Supergiant Games".into()]),
        release_date: None,
    };
    let m = game_metadata(1145360, Some(&d));
    assert_eq!(m.genre.as_deref(), Some("Action"));
    assert_eq!(m.developer.as_deref(), Some("Supergiant Games"));
    assert_eq!(m.cover_url.as_deref(), Some("https://cdn.cloudflare.steamstatic.com/steam/apps/1145360/library_600x900.jpg"));
    let m = game_metadata(5, None);
    assert_eq!((m.genre, m.developer), (None, None));
    assert_eq!(m.background_url.as_deref(), Some("https://cdn.cloudflare.steamstatic.com/steam/apps/5/library_hero.jpg"));
    let empty = AppDetails { genres: Some(vec![]), developers: None, ..d.clone() };
    assert_eq!(game_metadata(1, Some(&empty)).genre, None);
    assert_eq!(game_display_name(1145360, Some(&d)), "Hades");
    assert_eq!(game_display_name(42, None), "Game 42");
}

#[test]
fn store_urls() {
    assert_eq!(featured_url("us", "english"), "https://store.steampowered.com/api/featured/?cc=us&l=english");
    assert_eq!(
        featured_categories_url("de", "german"),
        "https://store.steampowered.com/api/featuredcategories/?cc=de&l=german"
    );
    assert_eq!(
        store_app_details_url(620, "us", "english"),
        "https://store.steampowered.com/api/appdetails/?appids=620&cc=us&l=english&filters=basic,price_overview,genres,developers,release_date,screenshots,movies"
    );
    assert_eq!(
        search_url("half life & co", 2, 20, "us", "english"),
        "https://store.steampowered.com/api/search/results/?term=half%20life%20%26%20co&json=1&cc=us&l=english&count=20&start=40"
    );
    assert_eq!(
        browse_url("topsellers", 0, 20, "us", "english"),
        "https://store.steampowered.com/api/search/results/?filter=topsellers&json=1&cc=us&l=english&count=20&start=0"
    );
}

#[test]
fn app_details_checks() {
    assert_eq!(check_app_details(7, false, None).unwrap_err(), "No data for app 7");
    assert_eq!(check_app_details(7, true, Some(false)).unwrap_err(), "App 7 not found or unavailable");
    assert_eq!(check_app_details(7, true, None).unwrap_err(), "App 7 not found or unavailable");
    assert!(check_app_details(7, true, Some(true)).is_ok());
}

fn item(id: u32, name: &str) -> FeaturedItem {
    FeaturedItem {
        id,
        name: name.to_string(),
        discounted: false,
        discount_percent: None,
        original_price: None,
        final_price: None,
        currency: None,
        header_image: String::new(),
        large_capsule_image: None,
    }
}

#[test]
fn featured_lists_merge_sorted_first_wins() {
    let r = merge_featured(
        vec![item(30, "large-30"), item(10, "large-10")],
        vec![item(20, "win-20"), item(10, "win-10")],
        vec![item(30, "special-30"), item(5, "special-5")],
    );
    let got: Vec<(u32, String)> = r.into_iter().map(|i| (i.id, i.name)).collect();
    assert_eq!(
        got,
        vec![
            (5, "special-5".to_string()),
            (10, "large-10".to_string()),
            (20, "win-20".to_string()),
            (30, "large-30".to_string()),
        ]
    );
    assert!(merge_featured(vec![], vec![], vec![]).is_empty());
}
