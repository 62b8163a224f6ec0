//! Store commands: the country and language the Store is asked in, and the cache of
//! Store answers.
use vstd::prelude::*;
use crate::number::{dec, push_dec};

verus! {

broadcast use vstd::string::group_string_axioms;

/// How long featured lists and categories stay cached, in seconds.
pub const FEATURED_CACHE_TTL_SECS: u64 = 3600;

/// How long app details stay cached, in seconds.
pub const APP_DETAILS_CACHE_TTL_SECS: u64 = 86400;

/// Results per page of searching and browsing.
pub const STORE_PAGE_SIZE: u32 = 20;

/// The country code and language the Store is asked in.
#[derive(Debug, Clone)]
pub struct StoreConfig {
    pub cc: String,
    pub l: String,
}

/// The Store settings: the stored ones, else the United States and English.
pub fn store_config(cc: Option<String>, l: Option<String>) -> (c: StoreConfig)
    ensures
        c.cc@ == match cc {
            Some(v) => v@,
            None => "us"@,
        },
        c.l@ == match l {
            Some(v) => v@,
            None => "english"@,
        },
{
    let cc = match cc {
        Some(v) => v,
        None => String::from_str("us"),
    };
    let l = match l {
        Some(v) => v,
        None => String::from_str("english"),
    };
    StoreConfig { cc, l }
}

/// The age of a cache entry: the clock and the time of caching read as unsigned
/// seconds, their difference, and 0 when the entry seems to come from the future.
pub open spec fn cache_age(now: i64, cached_at: i64) -> int {
    let n = now as u64;
    let c = cached_at as u64;
    if n >= c {
        n - c
    } else {
        0
    }
}

/// Whether a cache entry made at `cached_at` may still be used at `now`.
pub fn cache_is_fresh(now: i64, cached_at: i64, ttl_secs: u64) -> (b: bool)
    ensures
        b == (cache_age(now, cached_at) < ttl_secs),
{
    let n = now as u64;
    let c = cached_at as u64;
    let age = if n >= c {
        n - c
    } else {
        0
    };
    age < ttl_secs
}

/// The cache key of the featured list of a country.
pub fn featured_cache_key(cc: &str) -> (r: String)
    ensures
        r@ == "featured:"@ + cc@,
{
    let mut r = String::from_str("featured:");
    r.append(cc);
    r
}

/// The cache key of the featured categories of a country.
pub fn categories_cache_key(cc: &str) -> (r: String)
    ensures
        r@ == "categories:"@ + cc@,
{
    let mut r = String::from_str("categories:");
    r.append(cc);
    r
}

/// The cache key of an app's details in a country.
pub fn app_details_cache_key(app_id: u32, cc: &str) -> (r: String)
    ensures
        r@ == "appdetails:"@ + dec(app_id as nat) + ":"@ + cc@,
{
    let mut r = String::from_str("appdetails:");
    push_dec(&mut r, app_id as u64);
    r.append(":");
    r.append(cc);
    r
}


/// An entry read back from the cache is used exactly while it is younger than its TTL:
/// with the clock at or after the time of caching (both from 1970 on), the entry is
/// fresh exactly when fewer than `ttl_secs` seconds have passed, so one just cached is
/// fresh for any positive TTL.
pub proof fn law_cache_fresh_within_ttl(now: i64, cached_at: i64, ttl_secs: u64)
    requires
        0 <= cached_at <= now,
    ensures
        (cache_age(now, cached_at) < ttl_secs) <==> (now - cached_at < ttl_secs),
        ttl_secs > 0 ==> cache_age(cached_at, cached_at) < ttl_secs,
{
}

} // verus!
