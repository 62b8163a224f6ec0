//! The Steam Web API and the Store's app-details endpoint: request URLs, checks on
//! the responses, and the metadata drawn from them.
use vstd::prelude::*;
use crate::text::{chars_of, concat_str, contains, starts_with, str_contains, str_starts_with, trim, trim_range, string_of_range};
use crate::number::{dec, push_dec};

verus! {

broadcast use vstd::string::group_string_axioms;

pub const API_BASE: &'static str = "https://api.steampowered.com";

pub const STORE_BASE: &'static str = "https://store.steampowered.com/api";

/// Details of an app from the Store.
#[derive(Debug, Clone)]
pub struct AppDetails {
    pub name: String,
    pub header_image: Option<String>,
    pub background: Option<String>,
    pub genres: Option<Vec<Genre>>,
    pub developers: Option<Vec<String>>,
    pub release_date: Option<ReleaseDate>,
}

#[derive(Debug, Clone)]
pub struct Genre {
    pub description: String,
}

#[derive(Debug, Clone)]
pub struct ReleaseDate {
    pub date: Option<String>,
}

/// A player's public profile.
#[derive(Debug, Clone)]
pub struct PlayerSummary {
    pub steamid: String,
    pub personaname: String,
    pub avatar: String,
    pub avatarmedium: String,
    pub avatarfull: String,
    pub profileurl: String,
    pub communityvisibilitystate: i32,
}

#[derive(Debug, Clone)]
pub struct OwnedGame {
    pub appid: u32,
    pub name: String,
    pub playtime_forever: u64,
    pub playtime_2weeks: Option<u64>,
    pub img_icon_url: Option<String>,
}

#[derive(Debug, Clone)]
pub struct OwnedGamesResponse {
    pub game_count: u32,
    pub games: Vec<OwnedGame>,
}

#[derive(Debug, Clone)]
pub struct RecentlyPlayedGame {
    pub appid: u32,
    pub name: String,
    pub playtime_2weeks: u64,
    pub playtime_forever: u64,
    pub img_icon_url: Option<String>,
}

#[derive(Debug, Clone)]
pub struct RecentlyPlayedGamesResponse {
    pub total_count: u32,
    pub games: Vec<RecentlyPlayedGame>,
}

/// `prefix`, the decimal app id, then `suffix`.
fn url_with_id(prefix: &str, app_id: u32, suffix: &str) -> (r: String)
    ensures
        r@ == prefix@ + dec(app_id as nat) + suffix@,
{
    let mut r = String::from_str(prefix);
    push_dec(&mut r, app_id as u64);
    r.append(suffix);
    r
}

/// The portrait cover image of an app on Steam's CDN.
pub fn get_cover_url(app_id: u32) -> (r: String)
    ensures
        r@ == "https://cdn.cloudflare.steamstatic.com/steam/apps/"@ + dec(app_id as nat) + "/library_600x900.jpg"@,
{
    url_with_id("https://cdn.cloudflare.steamstatic.com/steam/apps/", app_id, "/library_600x900.jpg")
}

/// The wide background image of an app on Steam's CDN.
pub fn get_background_url(app_id: u32) -> (r: String)
    ensures
        r@ == "https://cdn.cloudflare.steamstatic.com/steam/apps/"@ + dec(app_id as nat) + "/library_hero.jpg"@,
{
    url_with_id("https://cdn.cloudflare.steamstatic.com/steam/apps/", app_id, "/library_hero.jpg")
}

/// The icon of an app, from the hash the Web API gives.
pub fn get_icon_url(app_id: u32, icon_hash: &str) -> (r: String)
    ensures
        r@ == "https://media.steampowered.com/steamcommunity/public/images/apps/"@ + dec(app_id as nat) + "/"@ + icon_hash@ + ".jpg"@,
{
    let mut r = url_with_id("https://media.steampowered.com/steamcommunity/public/images/apps/", app_id, "/");
    r.append(icon_hash);
    r.append(".jpg");
    r
}

/// `GetPlayerSummaries` for one SteamID.
pub fn player_summary_url(api_key: &str, steam_id: &str) -> (r: String)
    ensures
        r@ == API_BASE@ + "/ISteamUser/GetPlayerSummaries/v2/?key="@ + api_key@ + "&steamids="@ + steam_id@,
{
    let mut r = String::from_str(API_BASE);
    r.append("/ISteamUser/GetPlayerSummaries/v2/?key=");
    r.append(api_key);
    r.append("&steamids=");
    r.append(steam_id);
    r
}

/// `GetOwnedGames` with app info and free games included, as JSON.
pub fn owned_games_url(api_key: &str, steam_id: &str) -> (r: String)
    ensures
        r@ == API_BASE@ + "/IPlayerService/GetOwnedGames/v1/?key="@ + api_key@ + "&steamid="@ + steam_id@
            + "&include_appinfo=1&include_played_free_games=1&format=json"@,
{
    let mut r = String::from_str(API_BASE);
    r.append("/IPlayerService/GetOwnedGames/v1/?key=");
    r.append(api_key);
    r.append("&steamid=");
    r.append(steam_id);
    r.append("&include_appinfo=1&include_played_free_games=1&format=json");
    r
}

/// `GetRecentlyPlayedGames` for one SteamID.
pub fn recently_played_url(api_key: &str, steam_id: &str) -> (r: String)
    ensures
        r@ == API_BASE@ + "/IPlayerService/GetRecentlyPlayedGames/v1/?key="@ + api_key@ + "&steamid="@ + steam_id@,
{
    let mut r = String::from_str(API_BASE);
    r.append("/IPlayerService/GetRecentlyPlayedGames/v1/?key=");
    r.append(api_key);
    r.append("&steamid=");
    r.append(steam_id);
    r
}

/// The Store's `appdetails` for one app.
pub fn app_details_url(app_id: u32) -> (r: String)
    ensures
        r@ == STORE_BASE@ + "/appdetails?appids="@ + dec(app_id as nat),
{
    let mut r = String::from_str(STORE_BASE);
    r.append("/appdetails?appids=");
    push_dec(&mut r, app_id as u64);
    r
}

pub open spec fn html_error_message() -> Seq<char> {
    "Steam API returned HTML error page. Please check your API key at https://steamcommunity.com/dev/apikey"@
}

/// The checks on the body `GetOwnedGames` returned, before it is read as JSON: an HTML
/// page (after trimming) means a bad key; an error field or `Unauthorized` anywhere is
/// reported with the whole body.
pub open spec fn owned_games_body_error(text: Seq<char>) -> Option<Seq<char>> {
    let t = trim(text);
    if starts_with(t, "<!DOCTYPE"@) || starts_with(t, "<html"@) {
        Some(html_error_message())
    } else if contains(text, "\"error\""@) || contains(text, "\"errordesc\""@) || contains(text, "Unauthorized"@) {
        Some("Steam API error: "@ + text)
    } else {
        None
    }
}

/// Checks the body `GetOwnedGames` returned (see `owned_games_body_error`).
pub fn check_owned_games_body(text: &str) -> (r: Result<(), String>)
    ensures
        match owned_games_body_error(text@) {
            Some(m) => r matches Err(e) && e@ == m,
            None => r is Ok,
        },
{
    let cs = chars_of(text);
    assert(cs@.subrange(0, cs.len() as int) =~= cs@);
    let (a, b) = trim_range(&cs, 0, cs.len());
    let trimmed = string_of_range(&cs, a, b);
    if str_starts_with(trimmed.as_str(), "<!DOCTYPE") || str_starts_with(trimmed.as_str(), "<html") {
        return Err(String::from_str(
            "Steam API returned HTML error page. Please check your API key at https://steamcommunity.com/dev/apikey",
        ));
    }
    if str_contains(text, "\"error\"") || str_contains(text, "\"errordesc\"") || str_contains(text, "Unauthorized") {
        return Err(concat_str("Steam API error: ", text));
    }
    Ok(())
}

/// After reading the JSON: a `game_count` of 0 means a private or empty library.
pub fn check_owned_games_count(game_count: Option<u64>) -> (r: Result<(), String>)
    ensures
        game_count == Some(0u64) ==> (r matches Err(e) && e@ == "Library is private or empty"@),
        game_count != Some(0u64) ==> r is Ok,
{
    if game_count == Some(0u64) {
        Err(String::from_str("Library is private or empty"))
    } else {
        Ok(())
    }
}

/// The players array of `GetPlayerSummaries`: missing, empty, or with a first player.
pub fn check_players(player_count: Option<usize>) -> (r: Result<(), String>)
    ensures
        player_count is None ==> (r matches Err(e) && e@ == "No players in response"@),
        player_count == Some(0usize) ==> (r matches Err(e) && e@ == "Player not found"@),
        player_count matches Some(n) ==> (n > 0 ==> r is Ok),
{
    match player_count {
        None => Err(String::from_str("No players in response")),
        Some(0) => Err(String::from_str("Player not found")),
        Some(_) => Ok(()),
    }
}

/// What the library records of a game from the Store: cover and background images
/// (always, from the CDN), and the first genre and first developer when the details
/// have them.
pub struct GameMetadata {
    pub cover_url: Option<String>,
    pub background_url: Option<String>,
    pub genre: Option<String>,
    pub developer: Option<String>,
}

pub open spec fn first_genre(d: AppDetails) -> Option<Seq<char>> {
    match d.genres {
        Some(g) => if g@.len() > 0 {
            Some(g@[0].description@)
        } else {
            None
        },
        None => None,
    }
}

pub open spec fn first_developer(d: AppDetails) -> Option<Seq<char>> {
    match d.developers {
        Some(v) => if v@.len() > 0 {
            Some(v@[0]@)
        } else {
            None
        },
        None => None,
    }
}

/// The developer recorded from Store details is the one listed first: it is one of the
/// listed developers, a list of one gives that developer, an empty or missing list gives
/// none, and developers listed after the first never change it.
pub proof fn law_first_developer(d: AppDetails, e: AppDetails)
    ensures
        first_developer(d) matches Some(x) ==> (d.developers matches Some(v) && exists|i: int|
            0 <= i < v@.len() && #[trigger] v@[i]@ == x),
        d.developers matches Some(v) ==> (v@.len() == 1 ==> first_developer(d) == Some(v@[0]@)),
        d.developers matches Some(v) ==> (v@.len() == 0 ==> first_developer(d) is None),
        d.developers is None ==> first_developer(d) is None,
        d.developers matches Some(v) ==> (e.developers matches Some(w) ==> (v@.len() > 0 && v@.len()
            <= w@.len() && (forall|i: int| 0 <= i < v@.len() ==> #[trigger] w@[i]@ == v@[i]@)
            ==> first_developer(e) == first_developer(d))),
{
    if first_developer(d) is Some {
        let v = d.developers->0;
        assert(v@[0]@ == first_developer(d)->0);
    }
    if d.developers is Some && e.developers is Some {
        let v = d.developers->0;
        let w = e.developers->0;
        if v@.len() > 0 && v@.len() <= w@.len() && (forall|i: int| 0 <= i < v@.len() ==> #[trigger] w@[i]@ == v@[i]@) {
            assert(w@[0]@ == v@[0]@);
        }
    }
}

/// The genre recorded from Store details is the description of the one listed first:
/// it is one of the listed genres' descriptions, a list of one gives that genre, an
/// empty or missing list gives none, and genres listed after the first never change it.
pub proof fn law_first_genre(d: AppDetails, e: AppDetails)
    ensures
        first_genre(d) matches Some(x) ==> (d.genres matches Some(v) && exists|i: int|
            0 <= i < v@.len() && #[trigger] v@[i].description@ == x),
        d.genres matches Some(v) ==> (v@.len() == 1 ==> first_genre(d) == Some(v@[0].description@)),
        d.genres matches Some(v) ==> (v@.len() == 0 ==> first_genre(d) is None),
        d.genres is None ==> first_genre(d) is None,
        d.genres matches Some(v) ==> (e.genres matches Some(w) ==> (v@.len() > 0 && v@.len() <= w@.len()
            && (forall|i: int| 0 <= i < v@.len() ==> #[trigger] w@[i].description@ == v@[i].description@)
            ==> first_genre(e) == first_genre(d))),
{
    if first_genre(d) is Some {
        let v = d.genres->0;
        assert(v@[0].description@ == first_genre(d)->0);
    }
    if d.genres is Some && e.genres is Some {
        let v = d.genres->0;
        let w = e.genres->0;
        if v@.len() > 0 && v@.len() <= w@.len() && (forall|i: int|
            0 <= i < v@.len() ==> #[trigger] w@[i].description@ == v@[i].description@) {
            assert(w@[0].description@ == v@[0].description@);
        }
    }
}

pub open spec fn opt_view(o: Option<String>) -> Option<Seq<char>> {
    match o {
        Some(s) => Some(s@),
        None => None,
    }
}

/// The metadata of a game from its details, or from the CDN alone when the Store gave
/// none (or the request failed).
pub fn game_metadata(app_id: u32, details: Option<&AppDetails>) -> (m: GameMetadata)
    ensures
        opt_view(m.cover_url) == Some(
            "https://cdn.cloudflare.steamstatic.com/steam/apps/"@ + dec(app_id as nat) + "/library_600x900.jpg"@,
        ),
        opt_view(m.background_url) == Some(
            "https://cdn.cloudflare.steamstatic.com/steam/apps/"@ + dec(app_id as nat) + "/library_hero.jpg"@,
        ),
        opt_view(m.genre) == match details {
            Some(d) => first_genre(*d),
            None => None,
        },
        opt_view(m.developer) == match details {
            Some(d) => first_developer(*d),
            None => None,
        },
{
    let cover_url = Some(get_cover_url(app_id));
    let background_url = Some(get_background_url(app_id));
    match details {
        Some(d) => {
            let genre = match &d.genres {
                Some(g) => if g.len() > 0 {
                    Some(g[0].description.clone())
                } else {
                    None
                },
                None => None,
            };
            let developer = match &d.developers {
                Some(v) => if v.len() > 0 {
                    Some(v[0].clone())
                } else {
                    None
                },
                None => None,
            };
            GameMetadata { cover_url, background_url, genre, developer }
        },
        None => GameMetadata { cover_url, background_url, genre: None, developer: None },
    }
}

/// The name to store for an owned game: the Store's name, or `Game <id>` without details.
pub fn game_display_name(app_id: u32, details: Option<&AppDetails>) -> (r: String)
    ensures
        r@ == match details {
            Some(d) => d.name@,
            None => "Game "@ + dec(app_id as nat),
        },
{
    match details {
        Some(d) => d.name.clone(),
        None => {
            let mut r = String::from_str("Game ");
            push_dec(&mut r, app_id as u64);
            r
        },
    }
}

} // verus!
