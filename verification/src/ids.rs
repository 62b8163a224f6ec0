//! Identifiers of records: random session and custom-game ids, and Steam game ids.
use vstd::prelude::*;
use crate::number::{dec, push_dec};

verus! {

broadcast use vstd::string::group_string_axioms;

pub open spec fn is_lower_hex(c: char) -> bool {
    ('0' <= c && c <= '9') || ('a' <= c && c <= 'f')
}

/// The hyphenated lowercase text of a version-4 UUID: 36 characters, hyphens at 8, 13,
/// 18 and 23, the version digit `4` at 14, lowercase hex digits elsewhere.
pub open spec fn is_uuid_v4_text(s: Seq<char>) -> bool {
    &&& s.len() == 36
    &&& forall|k: int| 0 <= k < 36 ==> (if k == 8 || k == 13 || k == 18 || k == 23 {
        #[trigger] s[k] == '-'
    } else {
        is_lower_hex(s[k])
    })
    &&& s[14] == '4'
}

/// Calls `uuid::Uuid::new_v4` and formats the result with `to_string`, which writes
/// the hyphenated lowercase form. The value is random: only its shape is stated.
#[verifier::external_body]
pub(crate) fn new_uuid_v4() -> (r: String)
    ensures
        is_uuid_v4_text(r@),
{
    uuid::Uuid::new_v4().to_string()
}

/// A fresh session id: a random version-4 UUID.
pub fn new_session_id() -> (r: String)
    ensures
        is_uuid_v4_text(r@),
{
    new_uuid_v4()
}

/// The id of a custom game made from a UUID text.
pub fn custom_game_id(uuid: &str) -> (r: String)
    ensures
        r@ == "custom_"@ + uuid@,
{
    let mut r = String::from_str("custom_");
    r.append(uuid);
    r
}

/// A fresh custom-game id: `custom_` and a random version-4 UUID.
pub fn new_custom_game_id() -> (r: String)
    ensures
        r@.len() == 43,
        r@.subrange(0, 7) == "custom_"@,
        is_uuid_v4_text(r@.subrange(7, 43)),
{
    let u = new_uuid_v4();
    let r = custom_game_id(u.as_str());
    proof {
        reveal_strlit("custom_");
        assert(r@.subrange(0, 7) =~= "custom_"@);
        assert(r@.subrange(7, 43) =~= u@);
    }
    r
}

/// The id of the library record of a Steam app.
pub fn steam_game_id(app_id: u32) -> (r: String)
    ensures
        r@ == "steam_"@ + dec(app_id as nat),
{
    let mut r = String::from_str("steam_");
    push_dec(&mut r, app_id as u64);
    r
}

} // verus!
