//! Percent-encoding of URL components, through the `urlencoding` crate.
use vstd::prelude::*;
use vstd::utf8::{decode_utf8, encode_utf8, valid_utf8};

verus! {

/// Bytes that `urlencoding::encode` leaves as they are: ASCII letters, digits and `-._~`.
pub open spec fn unreserved(b: u8) -> bool {
    ||| (48 <= b && b <= 57)
    ||| (65 <= b && b <= 90)
    ||| (97 <= b && b <= 122)
    ||| b == 45
    ||| b == 46
    ||| b == 95
    ||| b == 126
}

/// An upper-case hexadecimal digit.
pub open spec fn hex_upper(d: nat) -> char {
    if d < 10 {
        (48 + d) as char
    } else {
        (55 + d) as char
    }
}

/// Each byte kept if unreserved, else written `%XY` in upper-case hexadecimal.
pub open spec fn percent_encode_bytes(bs: Seq<u8>) -> Seq<char>
    decreases bs.len(),
{
    if bs.len() == 0 {
        seq![]
    } else {
        let b = bs[0];
        (if unreserved(b) {
            seq![b as char]
        } else {
            seq!['%', hex_upper((b / 16) as nat), hex_upper((b % 16) as nat)]
        }) + percent_encode_bytes(bs.drop_first())
    }
}

/// What `urlencoding::encode` returns: the UTF-8 bytes of `s`, percent-encoded.
pub open spec fn url_encoded(s: Seq<char>) -> Seq<char> {
    percent_encode_bytes(encode_utf8(s))
}

/// Calls `urlencoding::encode`. Its source keeps ASCII letters, digits and `-._~`
/// and writes every other byte of the UTF-8 encoding as `%` and two upper-case hex
/// digits; the contract states exactly that.
#[verifier::external_body]
pub fn url_encode(s: &str) -> (r: String)
    ensures
        r@ == url_encoded(s@),
{
    urlencoding::encode(s).into_owned()
}

/// The value of a hexadecimal digit byte (either case), if it is one.
pub open spec fn hex_value(b: u8) -> Option<nat> {
    if 48 <= b && b <= 57 {
        Some((b - 48) as nat)
    } else if 65 <= b && b <= 70 {
        Some((b - 55) as nat)
    } else if 97 <= b && b <= 102 {
        Some((b - 87) as nat)
    } else {
        None
    }
}

/// Percent-decoding of bytes as `urlencoding::decode_binary` does it: `%` and two hex
/// digits become that byte; a `%` followed by one hex digit and another byte is kept
/// with that digit; a `%` followed by something else is kept; a `%` with fewer than two
/// bytes after it is kept with them; every other byte is kept.
pub open spec fn percent_decode_bytes(bs: Seq<u8>) -> Seq<u8>
    decreases bs.len(),
{
    if bs.len() == 0 {
        seq![]
    } else if bs[0] != 37 {
        seq![bs[0]] + percent_decode_bytes(bs.drop_first())
    } else if bs.len() < 3 {
        bs
    } else {
        match (hex_value(bs[1]), hex_value(bs[2])) {
            (Some(h), Some(l)) => seq![(h * 16 + l) as u8] + percent_decode_bytes(bs.skip(3)),
            (Some(_), None) => seq![37u8, bs[1]] + percent_decode_bytes(bs.skip(2)),
            _ => seq![37u8] + percent_decode_bytes(bs.skip(1)),
        }
    }
}

/// What `urlencoding::decode` returns for `s`: the percent-decoded UTF-8 bytes of `s`
/// as text, or `None` where they are not UTF-8.
pub open spec fn url_decoded(s: Seq<char>) -> Option<Seq<char>> {
    let bs = percent_decode_bytes(encode_utf8(s));
    if valid_utf8(bs) {
        Some(decode_utf8(bs))
    } else {
        None
    }
}

/// Calls `urlencoding::decode`, mapping its error to `None`. Its source percent-decodes
/// the UTF-8 bytes of `s` (`percent_decode_bytes`) and reads them back as UTF-8, failing
/// where they are not; a string without `%` comes back as it is.
#[verifier::external_body]
pub fn url_decode(s: &str) -> (r: Option<String>)
    ensures
        r is None <==> url_decoded(s@) is None,
        r matches Some(d) ==> url_decoded(s@) == Some(d@),
        r matches Some(d) ==> (!s@.contains('%') ==> d@ == s@),
        r is None ==> s@.contains('%'),
{
    match urlencoding::decode(s) {
        Ok(d) => Some(d.into_owned()),
        Err(_) => None,
    }
}


proof fn lemma_low_bits(v: u32)
    requires
        v <= 0x7F,
    ensures
        v & 0x7F == v,
{
    assert(v <= 0x7F ==> v & 0x7F == v) by (bit_vector);
}

/// The UTF-8 encoding of an ASCII character is its code.
proof fn lemma_encode_ascii(c: char)
    requires
        (c as u32) < 128,
    ensures
        encode_utf8(seq![c]) == seq![(c as u32) as u8],
{
    lemma_low_bits(c as u32);
    assert(seq![c].drop_first() =~= Seq::<char>::empty());
    assert(encode_utf8(seq![c]) =~= vstd::utf8::encode_scalar(c as u32) + encode_utf8(Seq::<char>::empty()));
}

proof fn lemma_encode_utf8_concat(a: Seq<char>, b: Seq<char>)
    ensures
        encode_utf8(a + b) == encode_utf8(a) + encode_utf8(b),
    decreases a.len(),
{
    if a.len() == 0 {
        assert(a + b =~= b);
        assert(encode_utf8(a) + encode_utf8(b) =~= encode_utf8(b));
    } else {
        assert((a + b).drop_first() =~= a.drop_first() + b);
        assert((a + b)[0] == a[0]);
        lemma_encode_utf8_concat(a.drop_first(), b);
        assert(encode_utf8(a + b) =~= encode_utf8(a) + encode_utf8(b));
    }
}

proof fn lemma_percent_round_trip(bs: Seq<u8>)
    ensures
        percent_decode_bytes(encode_utf8(percent_encode_bytes(bs))) == bs,
    decreases bs.len(),
{
    if bs.len() == 0 {
        assert(percent_encode_bytes(bs) =~= Seq::<char>::empty());
    } else {
        let b = bs[0];
        let rest = bs.drop_first();
        lemma_percent_round_trip(rest);
        let tail = percent_encode_bytes(rest);
        let e = encode_utf8(tail);
        if unreserved(b) {
            let head = seq![b as char];
            assert(percent_encode_bytes(bs) == head + tail);
            lemma_encode_utf8_concat(head, tail);
            assert((b as char) as u32 == b as u32);
            lemma_encode_ascii(b as char);
            let x = seq![b] + e;
            assert(encode_utf8(percent_encode_bytes(bs)) == x);
            assert(x[0] == b);
            assert(x.drop_first() =~= e);
            assert(percent_decode_bytes(x) == seq![b] + rest);
            assert(seq![b] + rest =~= bs);
        } else {
            let hi = hex_upper((b / 16) as nat);
            let lo = hex_upper((b % 16) as nat);
            let head = seq!['%', hi, lo];
            assert(percent_encode_bytes(bs) == head + tail);
            lemma_encode_utf8_concat(head, tail);
            assert(head =~= seq!['%'] + (seq![hi] + seq![lo]));
            lemma_encode_utf8_concat(seq!['%'], seq![hi] + seq![lo]);
            lemma_encode_utf8_concat(seq![hi], seq![lo]);
            lemma_encode_ascii('%');
            lemma_encode_ascii(hi);
            lemma_encode_ascii(lo);
            let hb = (hi as u32) as u8;
            let lb = (lo as u32) as u8;
            assert(encode_utf8(head) =~= seq![37u8, hb, lb]);
            let x = seq![37u8, hb, lb] + e;
            assert(encode_utf8(percent_encode_bytes(bs)) == x);
            assert(hex_value(hb) == Some((b / 16) as nat));
            assert(hex_value(lb) == Some((b % 16) as nat));
            assert(x[0] == 37u8 && x[1] == hb && x[2] == lb);
            assert(x.skip(3) =~= e);
            assert(((b / 16) as nat * 16 + (b % 16) as nat) as u8 == b);
            assert(percent_decode_bytes(x) == seq![b] + rest);
            assert(seq![b] + rest =~= bs);
        }
    }
}

/// A text encoded by `url_encode` decodes back to itself.
pub proof fn law_url_round_trip(s: Seq<char>)
    ensures
        url_decoded(url_encoded(s)) == Some(s),
{
    lemma_percent_round_trip(encode_utf8(s));
    vstd::utf8::encode_utf8_valid_utf8(s);
    vstd::utf8::encode_utf8_decode_utf8(s);
}

} // verus!
