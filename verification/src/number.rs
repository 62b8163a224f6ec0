//! Decimal integers: parsing them as `str::parse` does for unsigned types, and
//! writing them out.
use vstd::prelude::*;
use crate::text::push_char;

verus! {

/// Why an unsigned decimal number could not be parsed (the kinds of `ParseIntError`).
#[derive(Debug, Clone, Copy, PartialEq, Eq, Structural)]
pub enum IntErrorKind {
    Empty,
    InvalidDigit,
    PosOverflow,
}

pub open spec fn is_digit(c: char) -> bool {
    '0' <= c && c <= '9'
}

pub open spec fn digit_value(c: char) -> nat {
    (c as int - '0' as int) as nat
}

/// Reads the decimal digits `d[i..]` onto `acc`, stopping at the first non-digit or
/// at the first prefix whose value exceeds `max`.
pub open spec fn parse_digits_from(d: Seq<char>, i: int, acc: nat, max: nat) -> Result<
    nat,
    IntErrorKind,
>
    decreases d.len() - i,
{
    if i < 0 || i >= d.len() {
        Ok(acc)
    } else if !is_digit(d[i]) {
        Err(IntErrorKind::InvalidDigit)
    } else if acc * 10 + digit_value(d[i]) > max {
        Err(IntErrorKind::PosOverflow)
    } else {
        parse_digits_from(d, i + 1, acc * 10 + digit_value(d[i]), max)
    }
}

/// What `str::parse` gives for an unsigned integer type whose largest value is `max`:
/// an optional leading `+`, then at least one decimal digit.
pub open spec fn parse_unsigned(s: Seq<char>, max: nat) -> Result<nat, IntErrorKind> {
    if s.len() == 0 {
        Err(IntErrorKind::Empty)
    } else {
        let d = if s[0] == '+' {
            s.drop_first()
        } else {
            s
        };
        if d.len() == 0 {
            Err(IntErrorKind::InvalidDigit)
        } else {
            parse_digits_from(d, 0, 0, max)
        }
    }
}

pub proof fn lemma_parse_digits_bound(d: Seq<char>, i: int, acc: nat, max: nat)
    requires
        acc <= max,
    ensures
        parse_digits_from(d, i, acc, max) matches Ok(v) ==> v <= max,
    decreases d.len() - i,
{
    if 0 <= i < d.len() && is_digit(d[i]) && acc * 10 + digit_value(d[i]) <= max {
        lemma_parse_digits_bound(d, i + 1, acc * 10 + digit_value(d[i]), max);
    }
}

/// A parsed value never exceeds the type's largest value.
pub proof fn lemma_parse_unsigned_bound(s: Seq<char>, max: nat)
    ensures
        parse_unsigned(s, max) matches Ok(v) ==> v <= max,
{
    if s.len() > 0 {
        let d = if s[0] == '+' {
            s.drop_first()
        } else {
            s
        };
        lemma_parse_digits_bound(d, 0, 0, max);
    }
}

/// The message that `ParseIntError` displays for each kind.
pub open spec fn int_error_text(kind: IntErrorKind) -> Seq<char> {
    match kind {
        IntErrorKind::Empty => "cannot parse integer from empty string"@,
        IntErrorKind::InvalidDigit => "invalid digit found in string"@,
        IntErrorKind::PosOverflow => "number too large to fit in target type"@,
    }
}

pub fn int_error_message(kind: IntErrorKind) -> (m: &'static str)
    ensures
        m@ == int_error_text(kind),
{
    match kind {
        IntErrorKind::Empty => "cannot parse integer from empty string",
        IntErrorKind::InvalidDigit => "invalid digit found in string",
        IntErrorKind::PosOverflow => "number too large to fit in target type",
    }
}

/// Parses `cs[lo..hi]` as an unsigned decimal number no larger than `max`.
pub fn parse_uint(cs: &Vec<char>, lo: usize, hi: usize, max: u64) -> (r: Result<u64, IntErrorKind>)
    requires
        lo <= hi <= cs.len(),
    ensures
        match r {
            Ok(v) => parse_unsigned(cs@.subrange(lo as int, hi as int), max as nat) == Ok::<
                nat,
                IntErrorKind,
            >(v as nat),
            Err(e) => parse_unsigned(cs@.subrange(lo as int, hi as int), max as nat) == Err::<
                nat,
                IntErrorKind,
            >(e),
        },
{
    let ghost s = cs@.subrange(lo as int, hi as int);
    if lo == hi {
        return Err(IntErrorKind::Empty);
    }
    let mut i = lo;
    if cs[lo] == '+' {
        i = lo + 1;
    }
    let ghost d = cs@.subrange(i as int, hi as int);
    assert(d =~= (if s[0] == '+' { s.drop_first() } else { s }));
    if i == hi {
        return Err(IntErrorKind::InvalidDigit);
    }
    let start = i;
    let mut acc: u64 = 0;
    while i < hi
        invariant
            lo <= start <= i <= hi <= cs.len(),
            d == cs@.subrange(start as int, hi as int),
            s == cs@.subrange(lo as int, hi as int),
            acc <= max,
            parse_digits_from(d, (i - start) as int, acc as nat, max as nat) == parse_unsigned(
                s,
                max as nat,
            ),
        decreases hi - i,
    {
        let c = cs[i];
        assert(d[i - start] == c);
        if !('0' <= c && c <= '9') {
            return Err(IntErrorKind::InvalidDigit);
        }
        let dv: u64 = (c as u32 - '0' as u32) as u64;
        assert(dv == digit_value(c));
        let next: u128 = (acc as u128) * 10 + dv as u128;
        if next > max as u128 {
            return Err(IntErrorKind::PosOverflow);
        }
        acc = next as u64;
        i += 1;
    }
    Ok(acc)
}

pub open spec fn digit_char(d: nat) -> char {
    if d == 0 { '0' }
    else if d == 1 { '1' }
    else if d == 2 { '2' }
    else if d == 3 { '3' }
    else if d == 4 { '4' }
    else if d == 5 { '5' }
    else if d == 6 { '6' }
    else if d == 7 { '7' }
    else if d == 8 { '8' }
    else { '9' }
}

/// The decimal digits of `n`, without leading zeros (what `to_string` writes).
pub open spec fn dec(n: nat) -> Seq<char>
    decreases n,
{
    if n < 10 {
        seq![digit_char(n)]
    } else {
        dec(n / 10).push(digit_char(n % 10))
    }
}

fn digit_char_exec(d: u64) -> (c: char)
    requires
        d < 10,
    ensures
        c == digit_char(d as nat),
{
    if d == 0 { '0' }
    else if d == 1 { '1' }
    else if d == 2 { '2' }
    else if d == 3 { '3' }
    else if d == 4 { '4' }
    else if d == 5 { '5' }
    else if d == 6 { '6' }
    else if d == 7 { '7' }
    else if d == 8 { '8' }
    else { '9' }
}

/// Appends the decimal digits of `n` to `s`.
pub fn push_dec(s: &mut String, n: u64)
    ensures
        final(s)@ == old(s)@ + dec(n as nat),
    decreases n,
{
    if n >= 10 {
        push_dec(s, n / 10);
    }
    let c = digit_char_exec(n % 10);
    push_char(s, c);
    assert(final(s)@ =~= old(s)@ + dec(n as nat));
}


proof fn lemma_digit_char(d: nat)
    requires
        d < 10,
    ensures
        is_digit(digit_char(d)),
        digit_value(digit_char(d)) == d,
{
}

/// Every character of `dec(n)` is a decimal digit, and there is at least one.
pub proof fn lemma_dec_digits(n: nat)
    ensures
        dec(n).len() >= 1,
        forall|i: int| 0 <= i < dec(n).len() ==> is_digit(#[trigger] dec(n)[i]),
    decreases n,
{
    lemma_digit_char(n % 10);
    if n >= 10 {
        lemma_dec_digits(n / 10);
        assert forall|i: int| 0 <= i < dec(n).len() implies is_digit(#[trigger] dec(n)[i]) by {
            if i < dec(n / 10).len() {
                assert(dec(n)[i] == dec(n / 10)[i]);
            }
        }
    } else {
        lemma_digit_char(n);
    }
}

proof fn lemma_parse_shift(a: Seq<char>, b: Seq<char>, j: int, acc: nat, max: nat)
    requires
        0 <= j <= b.len(),
    ensures
        parse_digits_from(a + b, a.len() + j, acc, max) == parse_digits_from(b, j, acc, max),
    decreases b.len() - j,
{
    if j < b.len() {
        assert((a + b)[a.len() + j] == b[j]);
        if is_digit(b[j]) && acc * 10 + digit_value(b[j]) <= max {
            lemma_parse_shift(a, b, j + 1, acc * 10 + digit_value(b[j]), max);
        }
    }
}

proof fn lemma_parse_prefix(a: Seq<char>, b: Seq<char>, i: int, acc: nat, max: nat, v: nat)
    requires
        0 <= i <= a.len(),
        parse_digits_from(a, i, acc, max) == Ok::<nat, IntErrorKind>(v),
    ensures
        parse_digits_from(a + b, i, acc, max) == parse_digits_from(a + b, a.len() as int, v, max),
    decreases a.len() - i,
{
    if i < a.len() {
        assert((a + b)[i] == a[i]);
        lemma_parse_prefix(a, b, i + 1, acc * 10 + digit_value(a[i]), max, v);
    }
}

proof fn lemma_parse_dec(n: nat, max: nat)
    requires
        n <= max,
    ensures
        parse_digits_from(dec(n), 0, 0, max) == Ok::<nat, IntErrorKind>(n),
    decreases n,
{
    lemma_digit_char(n % 10);
    if n < 10 {
        lemma_digit_char(n);
        assert(n % 10 == n);
        assert(parse_digits_from(dec(n), 1, n, max) == Ok::<nat, IntErrorKind>(n));
    } else {
        let q = n / 10;
        let c = digit_char(n % 10);
        lemma_parse_dec(q, max);
        let a = dec(q);
        let b = seq![c];
        assert(dec(n) == a + b);
        lemma_parse_prefix(a, b, 0, 0, max, q);
        lemma_parse_shift(a, b, 0, q, max);
        assert(q * 10 + (n % 10) == n);
        assert(parse_digits_from(b, 1, n, max) == Ok::<nat, IntErrorKind>(n));
        assert(parse_digits_from(b, 0, q, max) == Ok::<nat, IntErrorKind>(n));
        assert(parse_digits_from(a + b, a.len() as int, q, max) == Ok::<nat, IntErrorKind>(n));
    }
}

/// The decimal text of a number reads back as that number, for any type whose largest
/// value is at least the number.
pub proof fn lemma_parse_unsigned_dec(n: nat, max: nat)
    requires
        n <= max,
    ensures
        parse_unsigned(dec(n), max) == Ok::<nat, IntErrorKind>(n),
{
    lemma_dec_digits(n);
    assert(is_digit(dec(n)[0]));
    lemma_parse_dec(n, max);
}

} // verus!
