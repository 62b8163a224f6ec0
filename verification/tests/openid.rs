use wither::steam::openid::{
    build_auth_url, build_auth_url_for_port, callback_ports, check_callback_mode, extract_steamid64, finish_callback, parse_query,
    verification_params, assertion_is_valid, AuthError, STEAM_OPENID_ENDPOINT,
};

#[test]
fn test_build_auth_url() {
    let url = build_auth_url();
    assert!(url.starts_with(STEAM_OPENID_ENDPOINT));
    assert!(url.contains("openid.ns"));
    assert!(url.contains("openid.mode=checkid_setup"));
}

#[test]
fn test_parse_query() {
    let url = "http://localhost:14069/callback?foo=bar&baz=qux";
    let params = parse_query(url);
    assert_eq!(params.get("foo"), Some(&"bar".to_string()));
    assert_eq!(params.get("baz"), Some(&"qux".to_string()));
}

#[test]
fn test_extract_steamid64() {
    let claimed_id = "https://steamcommunity.com/openid/id/76561198012345678";
    let steamid = extract_steamid64(claimed_id).unwrap();
    assert_eq!(steamid, 76561198012345678);
}

#[test]
fn auth_url_is_exact() {
    let expected = "https://steamcommunity.com/openid/login?openid.ns=http%3A%2F%2Fspecs.openid.net%2Fauth%2F2.0&openid.mode=checkid_setup&openid.return_to=http%3A%2F%2Flocalhost%3A14069%2Fauth%2Fsteam%2Fcallback&openid.realm=http%3A%2F%2Flocalhost%3A14069&openid.identity=http%3A%2F%2Fspecs.openid.net%2Fauth%2F2.0%2Fidentifier_select&openid.claimed_id=http%3A%2F%2Fspecs.openid.net%2Fauth%2F2.0%2Fidentifier_select";
    assert_eq!(build_auth_url(), expected);
    assert!(build_auth_url_for_port(14070).contains("localhost%3A14070%2Fauth"));
}

#[test]
fn parse_query_decodes_and_later_keys_win() {
    let p = parse_query("http://x/cb?a=1&b=hello%20world&a=2&flag&c=%zz");
    assert_eq!(p.get("a"), Some(&"2".to_string()));
    assert_eq!(p.get("b"), Some(&"hello world".to_string()));
    assert_eq!(p.get("flag"), None);
    assert_eq!(p.get("c"), Some(&"%zz".to_string()));
    assert_eq!(parse_query("no-query").get("a"), None);
}

#[test]
fn callback_checks() {
    let p = parse_query("http://x/cb?openid.mode=cancel");
    assert!(matches!(check_callback_mode(&p), Err(AuthError::Cancelled)));
    let p = parse_query("http://x/cb?openid.mode=id_res&openid.claimed_id=https%3A%2F%2Fsteamcommunity.com%2Fopenid%2Fid%2F42");
    assert!(check_callback_mode(&p).is_ok());
    assert_eq!(finish_callback(&p, Ok(true)).unwrap(), 42);
    assert!(matches!(finish_callback(&p, Ok(false)), Err(AuthError::InvalidSignature)));
    let q = parse_query("http://x/cb?openid.mode=id_res");
    assert!(matches!(finish_callback(&q, Ok(true)), Err(AuthError::MissingClaimedId)));
    assert!(matches!(extract_steamid64("https://steamcommunity.com/openid/id/abc"), Err(AuthError::InvalidClaimedId)));
    let v = verification_params(&p);
    assert_eq!(v.get("openid.mode"), Some(&"check_authentication".to_string()));
    assert!(assertion_is_valid("ns:http://specs.openid.net/auth/2.0\nis_valid:true\n"));
    assert!(!assertion_is_valid("is_valid:false"));
    assert_eq!(AuthError::NetworkError("boom".to_string()).message(), "Network error: boom");
    assert_eq!(AuthError::PortInUse.message(), "Port 14069 is already in use");
}

#[test]
fn auth_error_messages() {
    assert_eq!(AuthError::Cancelled.message(), "Authentication cancelled");
    assert_eq!(AuthError::InvalidSignature.message(), "Invalid signature from Steam");
    assert_eq!(AuthError::MissingClaimedId.message(), "Missing claimed ID");
    assert_eq!(AuthError::InvalidClaimedId.message(), "Invalid claimed ID format");
    assert_eq!(AuthError::Timeout.message(), "Authentication timeout (2 minutes)");
    assert_eq!(AuthError::ServerError.message(), "Local server error");
    // A failed check with Steam is passed through unchanged.
    let p = parse_query("http://x/cb?openid.mode=id_res&openid.claimed_id=x%2F1");
    assert!(matches!(finish_callback(&p, Err(AuthError::Timeout)), Err(AuthError::Timeout)));
    assert_eq!(finish_callback(&p, Ok(true)).unwrap(), 1);
    assert_eq!(extract_steamid64("+5").unwrap(), 5);
    assert!(matches!(extract_steamid64("https://x/id/99999999999999999999"), Err(AuthError::InvalidClaimedId)));
    assert!(matches!(extract_steamid64("https://x/id/"), Err(AuthError::InvalidClaimedId)));
}

#[test]
fn built_sign_in_url_parses_back() {
    let p = parse_query(&build_auth_url());
    assert_eq!(p.entries().len(), 6);
    assert_eq!(p.get("openid.ns"), Some(&"http://specs.openid.net/auth/2.0".to_string()));
    assert_eq!(p.get("openid.mode"), Some(&"checkid_setup".to_string()));
    assert_eq!(p.get("openid.return_to"), Some(&"http://localhost:14069/auth/steam/callback".to_string()));
    assert_eq!(p.get("openid.realm"), Some(&"http://localhost:14069".to_string()));
    let select = "http://specs.openid.net/auth/2.0/identifier_select".to_string();
    assert_eq!(p.get("openid.identity"), Some(&select));
    assert_eq!(p.get("openid.claimed_id"), Some(&select));
}

#[test]
fn steamid_text_reads_back() {
    for n in [0u64, 7, 76561198012345678, u64::MAX] {
        let claimed = format!("https://steamcommunity.com/openid/id/{}", n);
        assert_eq!(extract_steamid64(&claimed).unwrap(), n);
    }
}

#[test]
fn callback_ports_in_order() {
    let ports = callback_ports();
    assert_eq!(ports.len(), 11);
    assert_eq!(ports[0], 14069);
    assert_eq!(ports[10], 14079);
    assert_eq!(build_auth_url_for_port(ports[0]), build_auth_url());
}
