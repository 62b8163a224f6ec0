//! Steam sign-in through OpenID 2.0: the redirect URL, reading the callback's query
//! string, and checking the assertion that comes back.
use vstd::prelude::*;
use crate::text::{
    lemma_concat_free, lemma_split_first, lemma_split_last, lemma_split_none,
    chars_of, concat_str, str_eq, contains, find_char, find_char_in, find_in, split_char, split_ranges,
    string_of_range,
};
use crate::number::{dec, is_digit, lemma_dec_digits, lemma_parse_unsigned_dec, parse_uint, parse_unsigned, push_dec, IntErrorKind};
use crate::urlcodec::{hex_upper, law_url_round_trip, percent_encode_bytes, unreserved, url_decode, url_decoded, url_encode, url_encoded};

verus! {

broadcast use vstd::string::group_string_axioms;

pub const STEAM_OPENID_ENDPOINT: &'static str = "https://steamcommunity.com/openid/login";

pub const LOCAL_CALLBACK_PORT: u16 = 14069;

/// The local ports tried in turn for the sign-in callback: the usual one and the ten
/// after it.
pub fn callback_ports() -> (r: Vec<u16>)
    ensures
        r.len() == 11,
        forall|i: int| 0 <= i < 11 ==> r@[i] == LOCAL_CALLBACK_PORT + i,
{
    let mut r: Vec<u16> = Vec::new();
    let mut p: u16 = LOCAL_CALLBACK_PORT;
    while p <= LOCAL_CALLBACK_PORT + 10
        invariant
            LOCAL_CALLBACK_PORT <= p <= LOCAL_CALLBACK_PORT + 11,
            r.len() == p - LOCAL_CALLBACK_PORT,
            forall|i: int| 0 <= i < r.len() ==> r@[i] == LOCAL_CALLBACK_PORT + i,
        decreases LOCAL_CALLBACK_PORT + 11 - p,
    {
        r.push(p);
        p = p + 1;
    }
    r
}

/// A signed-in Steam user.
#[derive(Debug, Clone)]
pub struct SteamUser {
    pub steamid: String,
    pub personaname: String,
    pub avatar: String,
    pub avatarfull: String,
    pub profileurl: String,
    pub is_public: bool,
}

/// Why signing in failed.
#[derive(Debug)]
pub enum AuthError {
    Cancelled,
    InvalidSignature,
    MissingClaimedId,
    InvalidClaimedId,
    Timeout,
    PortInUse,
    ServerError,
    NetworkError(String),
}

impl AuthError {
    /// The text shown to the user for this error.
    pub open spec fn spec_message(&self) -> Seq<char> {
        match self {
            AuthError::Cancelled => "Authentication cancelled"@,
            AuthError::InvalidSignature => "Invalid signature from Steam"@,
            AuthError::MissingClaimedId => "Missing claimed ID"@,
            AuthError::InvalidClaimedId => "Invalid claimed ID format"@,
            AuthError::Timeout => "Authentication timeout (2 minutes)"@,
            AuthError::PortInUse => "Port 14069 is already in use"@,
            AuthError::ServerError => "Local server error"@,
            AuthError::NetworkError(e) => "Network error: "@ + e@,
        }
    }

    /// The text shown to the user for this error.
    pub fn message(&self) -> (m: String)
        ensures
            m@ == self.spec_message(),
    {
        match self {
            AuthError::Cancelled => String::from_str("Authentication cancelled"),
            AuthError::InvalidSignature => String::from_str("Invalid signature from Steam"),
            AuthError::MissingClaimedId => String::from_str("Missing claimed ID"),
            AuthError::InvalidClaimedId => String::from_str("Invalid claimed ID format"),
            AuthError::Timeout => String::from_str("Authentication timeout (2 minutes)"),
            AuthError::PortInUse => String::from_str("Port 14069 is already in use"),
            AuthError::ServerError => String::from_str("Local server error"),
            AuthError::NetworkError(e) => concat_str("Network error: ", e.as_str()),
        }
    }
}

pub open spec fn identifier_select() -> Seq<char> {
    "http://specs.openid.net/auth/2.0/identifier_select"@
}

/// `http://localhost:<port>`.
pub open spec fn realm_url(port: u16) -> Seq<char> {
    "http://localhost:"@ + dec(port as nat)
}

/// `http://localhost:<port>/auth/steam/callback`.
pub open spec fn callback_url(port: u16) -> Seq<char> {
    realm_url(port) + "/auth/steam/callback"@
}

/// The OpenID `checkid_setup` redirect for a callback server on `port`: the endpoint,
/// `?`, and the six parameters, each value percent-encoded, joined with `&`.
pub open spec fn auth_url(port: u16) -> Seq<char> {
    STEAM_OPENID_ENDPOINT@ + "?"@
        + "openid.ns="@ + url_encoded("http://specs.openid.net/auth/2.0"@)
        + "&"@ + "openid.mode="@ + url_encoded("checkid_setup"@)
        + "&"@ + "openid.return_to="@ + url_encoded(callback_url(port))
        + "&"@ + "openid.realm="@ + url_encoded(realm_url(port))
        + "&"@ + "openid.identity="@ + url_encoded(identifier_select())
        + "&"@ + "openid.claimed_id="@ + url_encoded(identifier_select())
}

/// The Steam OpenID redirect URL for a callback server listening on `port`.
pub fn build_auth_url_for_port(port: u16) -> (url: String)
    ensures
        url@ == auth_url(port),
{
    let mut realm = String::from_str("http://localhost:");
    push_dec(&mut realm, port as u64);
    let callback = concat_str(realm.as_str(), "/auth/steam/callback");
    let mut url = String::from_str(STEAM_OPENID_ENDPOINT);
    url.append("?");
    url.append("openid.ns=");
    let v = url_encode("http://specs.openid.net/auth/2.0");
    url.append(v.as_str());
    url.append("&");
    url.append("openid.mode=");
    let v = url_encode("checkid_setup");
    url.append(v.as_str());
    url.append("&");
    url.append("openid.return_to=");
    let v = url_encode(callback.as_str());
    url.append(v.as_str());
    url.append("&");
    url.append("openid.realm=");
    let v = url_encode(realm.as_str());
    url.append(v.as_str());
    url.append("&");
    url.append("openid.identity=");
    let v = url_encode("http://specs.openid.net/auth/2.0/identifier_select");
    url.append(v.as_str());
    url.append("&");
    url.append("openid.claimed_id=");
    let v = url_encode("http://specs.openid.net/auth/2.0/identifier_select");
    url.append(v.as_str());
    url
}

/// The Steam OpenID redirect URL for the default callback port.
pub fn build_auth_url() -> (url: String)
    ensures
        url@ == auth_url(LOCAL_CALLBACK_PORT),
{
    build_auth_url_for_port(LOCAL_CALLBACK_PORT)
}

/// The map of a sequence of key/value entries, a later entry replacing an earlier one
/// with the same key.
pub open spec fn entries_map(s: Seq<(String, String)>) -> Map<Seq<char>, Seq<char>>
    decreases s.len(),
{
    if s.len() == 0 {
        Map::empty()
    } else {
        entries_map(s.drop_last()).insert(s.last().0@, s.last().1@)
    }
}

/// The key/value pairs of a query string.
pub struct QueryParams {
    entries: Vec<(String, String)>,
}

impl View for QueryParams {
    type V = Map<Seq<char>, Seq<char>>;

    closed spec fn view(&self) -> Map<Seq<char>, Seq<char>> {
        entries_map(self.entries@)
    }
}

proof fn lemma_entries_map_find(s: Seq<(String, String)>, k: Seq<char>, j: int)
    requires
        0 <= j < s.len(),
        s[j].0@ == k,
        forall|i: int| j < i < s.len() ==> s[i].0@ != k,
    ensures
        entries_map(s).contains_key(k),
        entries_map(s)[k] == s[j].1@,
    decreases s.len(),
{
    if j < s.len() - 1 {
        lemma_entries_map_find(s.drop_last(), k, j);
    }
}

proof fn lemma_entries_map_absent(s: Seq<(String, String)>, k: Seq<char>)
    requires
        forall|i: int| 0 <= i < s.len() ==> s[i].0@ != k,
    ensures
        !entries_map(s).contains_key(k),
    decreases s.len(),
{
    if s.len() > 0 {
        lemma_entries_map_absent(s.drop_last(), k);
    }
}

impl QueryParams {
    /// No parameters.
    pub fn new() -> (q: QueryParams)
        ensures
            q@ == Map::<Seq<char>, Seq<char>>::empty(),
    {
        QueryParams { entries: Vec::new() }
    }

    /// Sets `key` to `value`, replacing any earlier value.
    pub fn insert(&mut self, key: String, value: String)
        ensures
            final(self)@ == old(self)@.insert(key@, value@),
    {
        let ghost old_entries = self.entries@;
        self.entries.push((key, value));
        assert(self.entries@.drop_last() =~= old_entries);
    }

    /// The value of `key`, if it has one.
    pub fn get(&self, key: &str) -> (r: Option<&String>)
        ensures
            match r {
                Some(v) => self@.contains_key(key@) && self@[key@] == v@,
                None => !self@.contains_key(key@),
            },
    {
        let mut i = self.entries.len();
        while i > 0
            invariant
                i <= self.entries.len(),
                forall|j: int| i <= j < self.entries.len() ==> self.entries@[j].0@ != key@,
            decreases i,
        {
            if str_eq(self.entries[i - 1].0.as_str(), key) {
                proof {
                    lemma_entries_map_find(self.entries@, key@, i - 1);
                }
                return Some(&self.entries[i - 1].1);
            }
            i -= 1;
        }
        proof {
            lemma_entries_map_absent(self.entries@, key@);
        }
        None
    }

    /// The entries in the order they were set; setting them in this order into a map
    /// gives this map.
    pub fn entries(&self) -> (r: &Vec<(String, String)>)
        ensures
            entries_map(r@) == self@,
    {
        &self.entries
    }

    /// A copy of these parameters.
    pub fn copy(&self) -> (r: QueryParams)
        ensures
            r@ == self@,
    {
        let mut entries: Vec<(String, String)> = Vec::new();
        let mut i: usize = 0;
        while i < self.entries.len()
            invariant
                i <= self.entries.len(),
                entries_map(entries@) == entries_map(self.entries@.take(i as int)),
            decreases self.entries.len() - i,
        {
            let k = self.entries[i].0.clone();
            let v = self.entries[i].1.clone();
            let ghost before = entries@;
            entries.push((k, v));
            assert(entries@.drop_last() =~= before);
            assert(self.entries@.take(i + 1).drop_last() =~= self.entries@.take(i as int));
            i += 1;
        }
        assert(self.entries@.take(self.entries.len() as int) =~= self.entries@);
        QueryParams { entries }
    }
}

/// The text between the first and second `?` of a URL, if it has a `?`.
pub open spec fn query_part(url: Seq<char>) -> Option<Seq<char>> {
    let f = split_char(url, '?');
    if f.len() >= 2 {
        Some(f[1])
    } else {
        None
    }
}

/// `key=value` split at the first `=`.
pub open spec fn split_pair(pair: Seq<char>) -> Option<(Seq<char>, Seq<char>)> {
    match find_char(pair, '=') {
        Some(i) => Some((pair.take(i), pair.skip(i + 1))),
        None => None,
    }
}

/// A value, percent-decoded when that gives UTF-8, else as it is.
pub open spec fn decoded_or_raw(v: Seq<char>) -> Seq<char> {
    match url_decoded(v) {
        Some(d) => d,
        None => v,
    }
}

/// The map of the first `n` `&`-separated pairs; pairs without `=` are ignored.
pub open spec fn pairs_map(pairs: Seq<Seq<char>>, n: int) -> Map<Seq<char>, Seq<char>>
    decreases n,
{
    if n <= 0 {
        Map::empty()
    } else {
        let m = pairs_map(pairs, n - 1);
        match split_pair(pairs[n - 1]) {
            Some((k, v)) => m.insert(k, decoded_or_raw(v)),
            None => m,
        }
    }
}

/// The parameters of a URL's query string.
pub open spec fn query_params(url: Seq<char>) -> Map<Seq<char>, Seq<char>> {
    match query_part(url) {
        Some(q) => pairs_map(split_char(q, '&'), split_char(q, '&').len() as int),
        None => Map::empty(),
    }
}

/// Reads the parameters of a URL's query string; later keys win, and values are
/// percent-decoded where that gives UTF-8.
pub fn parse_query(url: &str) -> (params: QueryParams)
    ensures
        params@ == query_params(url@),
{
    let cs = chars_of(url);
    let n = cs.len();
    assert(cs@.subrange(0, n as int) =~= cs@);
    let mut params = QueryParams::new();
    let fields = split_ranges(&cs, 0, n, '?');
    if fields.len() < 2 {
        return params;
    }
    let (qa, qb) = fields[1];
    let pairs = split_ranges(&cs, qa, qb, '&');
    let ghost ps = split_char(cs@.subrange(qa as int, qb as int), '&');
    let mut k: usize = 0;
    while k < pairs.len()
        invariant
            k <= pairs.len() == ps.len(),
            qa <= qb <= n == cs.len(),
            forall|j: int|
                0 <= j < pairs.len() ==> qa <= (#[trigger] pairs@[j]).0 <= pairs@[j].1 <= qb
                    && cs@.subrange(pairs@[j].0 as int, pairs@[j].1 as int) == ps[j],
            params@ == pairs_map(ps, k as int),
        decreases pairs.len() - k,
    {
        let (pa, pb) = pairs[k];
        let ghost pair = cs@.subrange(pa as int, pb as int);
        assert(pair == ps[k as int]);
        match find_char_in(&cs, pa, pb, '=') {
            Some(i) => {
                let key = string_of_range(&cs, pa, i);
                let raw = string_of_range(&cs, i + 1, pb);
                assert(pair.take(i - pa) =~= key@);
                assert(pair.skip(i - pa + 1) =~= raw@);
                let value = match url_decode(raw.as_str()) {
                    Some(d) => d,
                    None => raw,
                };
                params.insert(key, value);
            },
            None => {},
        }
        k += 1;
    }
    params
}

/// The parameters to post back to Steam to check an assertion: those received, with
/// `openid.mode` set to `check_authentication`.
pub fn verification_params(params: &QueryParams) -> (r: QueryParams)
    ensures
        r@ == params@.insert("openid.mode"@, "check_authentication"@),
{
    let mut r = params.copy();
    r.insert(String::from_str("openid.mode"), String::from_str("check_authentication"));
    r
}

/// Whether Steam's answer to the check says the assertion is valid.
pub fn assertion_is_valid(text: &str) -> (b: bool)
    ensures
        b == contains(text@, "is_valid:true"@),
{
    let cs = chars_of(text);
    let pat = chars_of("is_valid:true");
    assert(cs@.subrange(0, cs.len() as int) =~= cs@);
    let r = find_in(&cs, 0, cs.len(), &pat);
    proof {
        crate::text::lemma_find(cs@, pat@);
    }
    r.is_some()
}

/// The last `/`-separated field of a claimed id.
pub open spec fn last_segment(claimed_id: Seq<char>) -> Seq<char> {
    split_char(claimed_id, '/').last()
}

proof fn lemma_split_nonempty(s: Seq<char>, c: char)
    ensures
        split_char(s, c).len() >= 1,
{
}

/// The SteamID64 at the end of a claimed id such as
/// `https://steamcommunity.com/openid/id/76561198012345678`.
pub fn extract_steamid64(claimed_id: &str) -> (r: Result<u64, AuthError>)
    ensures
        match parse_unsigned(last_segment(claimed_id@), 0xffff_ffff_ffff_ffff) {
            Ok(v) => r matches Ok(x) && x == v,
            Err(_) => r matches Err(AuthError::InvalidClaimedId),
        },
{
    let cs = chars_of(claimed_id);
    let n = cs.len();
    assert(cs@.subrange(0, n as int) =~= cs@);
    let fields = split_ranges(&cs, 0, n, '/');
    proof {
        lemma_split_nonempty(cs@, '/');
    }
    let (a, b) = fields[fields.len() - 1];
    match parse_uint(&cs, a, b, 0xffff_ffff_ffff_ffff) {
        Ok(v) => Ok(v),
        Err(_) => Err(AuthError::InvalidClaimedId),
    }
}

/// `openid.mode` is `id_res`: Steam answered with an assertion.
pub open spec fn is_id_res(params: Map<Seq<char>, Seq<char>>) -> bool {
    params.contains_key("openid.mode"@) && params["openid.mode"@] == "id_res"@
}

/// The first check of a callback: anything but an `id_res` answer means the user
/// cancelled.
pub fn check_callback_mode(params: &QueryParams) -> (r: Result<(), AuthError>)
    ensures
        is_id_res(params@) ==> r is Ok,
        !is_id_res(params@) ==> r matches Err(AuthError::Cancelled),
{
    match params.get("openid.mode") {
        Some(m) => {
            if str_eq(m.as_str(), "id_res") {
                Ok(())
            } else {
                Err(AuthError::Cancelled)
            }
        },
        None => Err(AuthError::Cancelled),
    }
}

/// The rest of a callback once Steam has answered the check (`verified`, or the
/// error of the check itself): an invalid signature, a missing or malformed claimed
/// id, or the SteamID64.
pub fn finish_callback(params: &QueryParams, verified: Result<bool, AuthError>) -> (r: Result<u64, AuthError>)
    ensures
        verified matches Err(e) ==> (r matches Err(e2) && e2 == e),
        verified == Ok::<bool, AuthError>(false) ==> r matches Err(AuthError::InvalidSignature),
        verified == Ok::<bool, AuthError>(true) ==> {
            &&& !params@.contains_key("openid.claimed_id"@) ==> (r matches Err(AuthError::MissingClaimedId))
            &&& params@.contains_key("openid.claimed_id"@) ==> match parse_unsigned(
                last_segment(params@["openid.claimed_id"@]),
                0xffff_ffff_ffff_ffff,
            ) {
                Ok(v) => r matches Ok(x) && x == v,
                Err(_) => r matches Err(AuthError::InvalidClaimedId),
            }
        },
{
    match verified {
        Err(e) => Err(e),
        Ok(false) => Err(AuthError::InvalidSignature),
        Ok(true) => match params.get("openid.claimed_id") {
            None => Err(AuthError::MissingClaimedId),
            Some(claimed) => extract_steamid64(claimed.as_str()),
        },
    }
}


/// A SteamID64 in a claimed id reads back as itself: for every `n`, the last field of
/// `https://steamcommunity.com/openid/id/<n>` is the decimal text of `n`, and that text
/// parses to `n`; so `extract_steamid64` gives `n` for it.
pub proof fn law_steamid_round_trip(n: u64)
    ensures
        last_segment("https://steamcommunity.com/openid/id/"@ + dec(n as nat)) == dec(n as nat),
        parse_unsigned(dec(n as nat), 0xffff_ffff_ffff_ffff) == Ok::<nat, IntErrorKind>(n as nat),
{
    reveal_strlit("https://steamcommunity.com/openid/id/");
    let p = "https://steamcommunity.com/openid/id/"@;
    lemma_dec_digits(n as nat);
    assert(!dec(n as nat).contains('/')) by {
        if dec(n as nat).contains('/') {
            let k = choose|k: int| 0 <= k < dec(n as nat).len() && dec(n as nat)[k] == '/';
            assert(is_digit(dec(n as nat)[k]));
        }
    }
    assert(p.last() == '/');
    lemma_split_last(p, dec(n as nat), '/');
    lemma_parse_unsigned_dec(n as nat, 0xffff_ffff_ffff_ffff);
}


/// No `?`, `&` or `=` in the text.
pub open spec fn no_query_marks(s: Seq<char>) -> bool {
    !s.contains('?') && !s.contains('&') && !s.contains('=')
}

proof fn lemma_encoded_no_marks(bs: Seq<u8>)
    ensures
        no_query_marks(percent_encode_bytes(bs)),
    decreases bs.len(),
{
    if bs.len() > 0 {
        let b = bs[0];
        lemma_encoded_no_marks(bs.drop_first());
        let tail = percent_encode_bytes(bs.drop_first());
        let head = if unreserved(b) {
            seq![b as char]
        } else {
            seq!['%', hex_upper((b / 16) as nat), hex_upper((b % 16) as nat)]
        };
        assert(percent_encode_bytes(bs) == head + tail);
        if unreserved(b) {
            assert((b as char) as u32 == b as u32);
        }
        assert(no_query_marks(head)) by {
            if head.contains('?') || head.contains('&') || head.contains('=') {
                let k = choose|k: int| 0 <= k < head.len() && (head[k] == '?' || head[k] == '&' || head[k] == '=');
            }
        }
        lemma_concat_free(head, tail, '?');
        lemma_concat_free(head, tail, '&');
        lemma_concat_free(head, tail, '=');
    } else {
        assert(percent_encode_bytes(bs) =~= Seq::<char>::empty());
    }
}

/// One `key=value` parameter of the built URL: it has no `?` or `&`, splits back into
/// the key and the encoded value, and the value decodes back.
proof fn lemma_auth_param(k: Seq<char>, v: Seq<char>)
    requires
        no_query_marks(k),
    ensures
        ({
            let p = k + seq!['='] + url_encoded(v);
            &&& !p.contains('?')
            &&& !p.contains('&')
            &&& split_pair(p) == Some((k, url_encoded(v)))
            &&& decoded_or_raw(url_encoded(v)) == v
        }),
{
    let e = url_encoded(v);
    lemma_encoded_no_marks(vstd::utf8::encode_utf8(v));
    let p = k + seq!['='] + e;
    assert(!seq!['='].contains('?') && !seq!['='].contains('&'));
    lemma_concat_free(k, seq!['='], '?');
    lemma_concat_free(k + seq!['='], e, '?');
    lemma_concat_free(k, seq!['='], '&');
    lemma_concat_free(k + seq!['='], e, '&');
    crate::text::lemma_find_char_from(p, '=', 0);
    assert(p[k.len() as int] == '=');
    let i = find_char(p, '=').unwrap();
    if i < k.len() {
        assert(k[i] == p[i]);
    }
    assert(i == k.len());
    assert(p.take(i) =~= k);
    assert(p.skip(i + 1) =~= e);
    law_url_round_trip(v);
}

/// `key=value` with the value percent-encoded.
pub open spec fn auth_param(k: Seq<char>, v: Seq<char>) -> Seq<char> {
    k + seq!['='] + url_encoded(v)
}

/// The query string of the sign-in URL, as its six parameters joined with `&`.
pub open spec fn auth_query(port: u16) -> Seq<char> {
    auth_param("openid.ns"@, "http://specs.openid.net/auth/2.0"@) + seq!['&'] + (auth_param(
        "openid.mode"@,
        "checkid_setup"@,
    ) + seq!['&'] + (auth_param("openid.return_to"@, callback_url(port)) + seq!['&'] + (auth_param(
        "openid.realm"@,
        realm_url(port),
    ) + seq!['&'] + (auth_param("openid.identity"@, identifier_select()) + seq!['&'] + auth_param(
        "openid.claimed_id"@,
        identifier_select(),
    )))))
}

#[verifier::rlimit(60)]
proof fn lemma_auth_url_shape(port: u16)
    ensures
        auth_url(port) == STEAM_OPENID_ENDPOINT@ + seq!['?'] + auth_query(port),
{
    reveal_strlit("?");
    reveal_strlit("&");
    reveal_strlit("openid.ns=");
    reveal_strlit("openid.mode=");
    reveal_strlit("openid.return_to=");
    reveal_strlit("openid.realm=");
    reveal_strlit("openid.identity=");
    reveal_strlit("openid.claimed_id=");
    reveal_strlit("openid.ns");
    reveal_strlit("openid.mode");
    reveal_strlit("openid.return_to");
    reveal_strlit("openid.realm");
    reveal_strlit("openid.identity");
    reveal_strlit("openid.claimed_id");
    assert("openid.ns="@ =~= "openid.ns"@ + seq!['=']);
    assert("openid.mode="@ =~= "openid.mode"@ + seq!['=']);
    assert("openid.return_to="@ =~= "openid.return_to"@ + seq!['=']);
    assert("openid.realm="@ =~= "openid.realm"@ + seq!['=']);
    assert("openid.identity="@ =~= "openid.identity"@ + seq!['=']);
    assert("openid.claimed_id="@ =~= "openid.claimed_id"@ + seq!['=']);
    assert("?"@ =~= seq!['?']);
    assert("&"@ =~= seq!['&']);
    assert(auth_url(port) =~= STEAM_OPENID_ENDPOINT@ + seq!['?'] + auth_query(port));
}

/// The sign-in URL parses back into its six parameters: for every port, reading the
/// query string of `build_auth_url_for_port(port)` gives `openid.ns`, `openid.mode`,
/// `openid.return_to`, `openid.realm`, `openid.identity` and `openid.claimed_id` with
/// the values they were built from, and nothing else.
pub proof fn law_auth_url_parses_back(port: u16)
    ensures
        query_params(auth_url(port)) == Map::<Seq<char>, Seq<char>>::empty().insert(
            "openid.ns"@,
            "http://specs.openid.net/auth/2.0"@,
        ).insert("openid.mode"@, "checkid_setup"@).insert("openid.return_to"@, callback_url(port)).insert(
            "openid.realm"@,
            realm_url(port),
        ).insert("openid.identity"@, identifier_select()).insert("openid.claimed_id"@, identifier_select()),
{
    reveal_strlit("https://steamcommunity.com/openid/login");
    reveal_strlit("openid.ns");
    reveal_strlit("openid.mode");
    reveal_strlit("openid.return_to");
    reveal_strlit("openid.realm");
    reveal_strlit("openid.identity");
    reveal_strlit("openid.claimed_id");
    let k1 = "openid.ns"@;
    let k2 = "openid.mode"@;
    let k3 = "openid.return_to"@;
    let k4 = "openid.realm"@;
    let k5 = "openid.identity"@;
    let k6 = "openid.claimed_id"@;
    let v1 = "http://specs.openid.net/auth/2.0"@;
    let v2 = "checkid_setup"@;
    let v3 = callback_url(port);
    let v4 = realm_url(port);
    let v5 = identifier_select();
    let v6 = identifier_select();
    assert(no_query_marks(k1) && no_query_marks(k2) && no_query_marks(k3));
    assert(no_query_marks(k4) && no_query_marks(k5) && no_query_marks(k6));
    lemma_auth_param(k1, v1);
    lemma_auth_param(k2, v2);
    lemma_auth_param(k3, v3);
    lemma_auth_param(k4, v4);
    lemma_auth_param(k5, v5);
    lemma_auth_param(k6, v6);
    let p1 = auth_param(k1, v1);
    let p2 = auth_param(k2, v2);
    let p3 = auth_param(k3, v3);
    let p4 = auth_param(k4, v4);
    let p5 = auth_param(k5, v5);
    let p6 = auth_param(k6, v6);
    let r5 = p5 + seq!['&'] + p6;
    let r4 = p4 + seq!['&'] + r5;
    let r3 = p3 + seq!['&'] + r4;
    let r2 = p2 + seq!['&'] + r3;
    let q = p1 + seq!['&'] + r2;
    assert(q == auth_query(port));
    let e = STEAM_OPENID_ENDPOINT@;
    assert(!e.contains('?'));
    assert(!seq!['&'].contains('?'));
    lemma_concat_free(p5, seq!['&'], '?');
    lemma_concat_free(p5 + seq!['&'], p6, '?');
    lemma_concat_free(p4, seq!['&'], '?');
    lemma_concat_free(p4 + seq!['&'], r5, '?');
    lemma_concat_free(p3, seq!['&'], '?');
    lemma_concat_free(p3 + seq!['&'], r4, '?');
    lemma_concat_free(p2, seq!['&'], '?');
    lemma_concat_free(p2 + seq!['&'], r3, '?');
    lemma_concat_free(p1, seq!['&'], '?');
    lemma_concat_free(p1 + seq!['&'], r2, '?');
    lemma_auth_url_shape(port);
    lemma_split_first(e, q, '?');
    lemma_split_none(q, '?');
    assert(split_char(auth_url(port), '?') =~= seq![e, q]);
    assert(query_part(auth_url(port)) == Some(q));
    lemma_split_none(p6, '&');
    lemma_split_first(p5, p6, '&');
    lemma_split_first(p4, r5, '&');
    lemma_split_first(p3, r4, '&');
    lemma_split_first(p2, r3, '&');
    lemma_split_first(p1, r2, '&');
    let ps = split_char(q, '&');
    assert(ps =~= seq![p1, p2, p3, p4, p5, p6]);
    assert(query_params(auth_url(port)) == pairs_map(ps, 6));
    reveal_with_fuel(pairs_map, 7);
    assert(ps[0] == p1 && ps[1] == p2 && ps[2] == p3 && ps[3] == p4 && ps[4] == p5 && ps[5] == p6);
}

} // verus!
