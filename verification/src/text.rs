//! Character-level text utilities shared by the parsers: searching, trimming,
//! splitting into lines and fields, and building strings.
use vstd::prelude::*;

verus! {

broadcast use vstd::string::group_string_axioms;

/// `pat` occurs in `s` starting at index `i`.
pub open spec fn matches_at(s: Seq<char>, pat: Seq<char>, i: int) -> bool {
    &&& 0 <= i
    &&& i + pat.len() <= s.len()
    &&& s.subrange(i, i + pat.len()) == pat
}

/// Index of the first occurrence of `pat` in `s` at or after `i`.
pub open spec fn find_from(s: Seq<char>, pat: Seq<char>, i: int) -> Option<int>
    decreases s.len() + 1 - i,
{
    if i < 0 || i > s.len() - pat.len() {
        None
    } else if matches_at(s, pat, i) {
        Some(i)
    } else {
        find_from(s, pat, i + 1)
    }
}

/// Index of the first occurrence of `pat` in `s` (what `str::find` returns, counted in characters).
pub open spec fn find(s: Seq<char>, pat: Seq<char>) -> Option<int> {
    find_from(s, pat, 0)
}

/// `pat` occurs somewhere in `s`.
pub open spec fn contains(s: Seq<char>, pat: Seq<char>) -> bool {
    exists|i: int| matches_at(s, pat, i)
}

pub open spec fn starts_with(s: Seq<char>, pat: Seq<char>) -> bool {
    pat.len() <= s.len() && s.subrange(0, pat.len() as int) == pat
}

pub open spec fn ends_with(s: Seq<char>, pat: Seq<char>) -> bool {
    pat.len() <= s.len() && s.subrange(s.len() - pat.len(), s.len() as int) == pat
}

/// Index of the first `c` in `s` at or after `i`.
pub open spec fn find_char_from(s: Seq<char>, c: char, i: int) -> Option<int>
    decreases s.len() - i,
{
    if i < 0 || i >= s.len() {
        None
    } else if s[i] == c {
        Some(i)
    } else {
        find_char_from(s, c, i + 1)
    }
}

pub open spec fn find_char(s: Seq<char>, c: char) -> Option<int> {
    find_char_from(s, c, 0)
}

pub proof fn lemma_find_from(s: Seq<char>, pat: Seq<char>, i: int)
    requires
        0 <= i,
    ensures
        match find_from(s, pat, i) {
            Some(k) => i <= k && matches_at(s, pat, k) && forall|j: int|
                i <= j < k ==> !matches_at(s, pat, j),
            None => forall|j: int| i <= j ==> !matches_at(s, pat, j),
        },
    decreases s.len() + 1 - i,
{
    if i > s.len() - pat.len() {
    } else if matches_at(s, pat, i) {
    } else {
        lemma_find_from(s, pat, i + 1);
    }
}

/// `find` returns the first occurrence, and `None` exactly when there is none.
pub proof fn lemma_find(s: Seq<char>, pat: Seq<char>)
    ensures
        match find(s, pat) {
            Some(k) => matches_at(s, pat, k) && forall|j: int| 0 <= j < k ==> !matches_at(s, pat, j),
            None => !contains(s, pat),
        },
{
    lemma_find_from(s, pat, 0);
}

pub proof fn lemma_find_char_from(s: Seq<char>, c: char, i: int)
    requires
        0 <= i,
    ensures
        match find_char_from(s, c, i) {
            Some(k) => i <= k < s.len() && s[k] == c && forall|j: int| i <= j < k ==> s[j] != c,
            None => forall|j: int| i <= j < s.len() ==> s[j] != c,
        },
    decreases s.len() - i,
{
    if i < s.len() && s[i] != c {
        lemma_find_char_from(s, c, i + 1);
    }
}

/// Characters with the Unicode `White_Space` property (what `char::is_whitespace` tests).
pub open spec fn is_ws(c: char) -> bool {
    ||| ('\u{9}' <= c && c <= '\u{d}')
    ||| c == ' '
    ||| c == '\u{85}'
    ||| c == '\u{a0}'
    ||| c == '\u{1680}'
    ||| ('\u{2000}' <= c && c <= '\u{200a}')
    ||| c == '\u{2028}'
    ||| c == '\u{2029}'
    ||| c == '\u{202f}'
    ||| c == '\u{205f}'
    ||| c == '\u{3000}'
}

pub fn is_ws_exec(c: char) -> (b: bool)
    ensures
        b == is_ws(c),
{
    ('\u{9}' <= c && c <= '\u{d}') || c == ' ' || c == '\u{85}' || c == '\u{a0}' || c == '\u{1680}'
        || ('\u{2000}' <= c && c <= '\u{200a}') || c == '\u{2028}' || c == '\u{2029}' || c
        == '\u{202f}' || c == '\u{205f}' || c == '\u{3000}'
}

/// Index of the first non-whitespace character at or after `i` (or the length).
pub open spec fn skip_ws_from(s: Seq<char>, i: int) -> int
    decreases s.len() - i,
{
    if 0 <= i < s.len() && is_ws(s[i]) {
        skip_ws_from(s, i + 1)
    } else {
        i
    }
}

/// End of `s` once trailing whitespace after index `lo` is removed.
pub open spec fn trim_end_at(s: Seq<char>, lo: int, j: int) -> int
    decreases j - lo,
{
    if lo < j && j <= s.len() && is_ws(s[j - 1]) {
        trim_end_at(s, lo, j - 1)
    } else {
        j
    }
}

/// `s` without leading and trailing whitespace (what `str::trim` returns).
pub open spec fn trim(s: Seq<char>) -> Seq<char> {
    let a = skip_ws_from(s, 0);
    s.subrange(a, trim_end_at(s, a, s.len() as int))
}

pub proof fn lemma_skip_ws_from(s: Seq<char>, i: int)
    requires
        0 <= i <= s.len(),
    ensures
        i <= skip_ws_from(s, i) <= s.len(),
        forall|k: int| i <= k < skip_ws_from(s, i) ==> is_ws(s[k]),
        skip_ws_from(s, i) < s.len() ==> !is_ws(s[skip_ws_from(s, i)]),
    decreases s.len() - i,
{
    if i < s.len() && is_ws(s[i]) {
        lemma_skip_ws_from(s, i + 1);
    }
}

pub proof fn lemma_trim_end_at(s: Seq<char>, lo: int, j: int)
    requires
        0 <= lo <= j <= s.len(),
    ensures
        lo <= trim_end_at(s, lo, j) <= j,
        forall|k: int| trim_end_at(s, lo, j) <= k < j ==> is_ws(s[k]),
        trim_end_at(s, lo, j) > lo ==> !is_ws(s[trim_end_at(s, lo, j) - 1]),
    decreases j - lo,
{
    if lo < j && is_ws(s[j - 1]) {
        lemma_trim_end_at(s, lo, j - 1);
    }
}

/// Appends a character to a string (`String::push`).
#[verifier::external_body]
pub fn push_char(s: &mut String, c: char)
    ensures
        final(s)@ == old(s)@.push(c),
{
    s.push(c);
}

/// Builds a string from the characters `cs[lo..hi]`.
pub fn string_of_range(cs: &Vec<char>, lo: usize, hi: usize) -> (r: String)
    requires
        lo <= hi <= cs.len(),
    ensures
        r@ == cs@.subrange(lo as int, hi as int),
{
    let mut r = String::new();
    let mut i = lo;
    while i < hi
        invariant
            lo <= i <= hi <= cs.len(),
            r@ == cs@.subrange(lo as int, i as int),
        decreases hi - i,
    {
        push_char(&mut r, cs[i]);
        i += 1;
        assert(r@ =~= cs@.subrange(lo as int, i as int));
    }
    r
}

/// Builds a string from a vector of characters.
pub fn string_of(cs: &Vec<char>) -> (r: String)
    ensures
        r@ == cs@,
{
    let r = string_of_range(cs, 0, cs.len());
    assert(cs@.subrange(0, cs.len() as int) =~= cs@);
    r
}

/// Copies the characters of a string slice into a vector.
pub fn chars_of(s: &str) -> (v: Vec<char>)
    ensures
        v@ == s@,
{
    let mut v: Vec<char> = Vec::new();
    for c in it: s.chars()
        invariant
            it.seq() == s@,
            v@ == it.seq().take(it.index()),
    {
        v.push(c);
    }
    v
}

/// Index of the first `c` in `cs[lo..hi]`, as an index into `cs`.
pub fn find_char_in(cs: &Vec<char>, lo: usize, hi: usize, c: char) -> (r: Option<usize>)
    requires
        lo <= hi <= cs.len(),
    ensures
        match r {
            Some(i) => lo <= i < hi && find_char(cs@.subrange(lo as int, hi as int), c) == Some(
                i - lo,
            ),
            None => find_char(cs@.subrange(lo as int, hi as int), c) is None,
        },
{
    let ghost s = cs@.subrange(lo as int, hi as int);
    let mut i = lo;
    while i < hi
        invariant
            lo <= i <= hi <= cs.len(),
            s == cs@.subrange(lo as int, hi as int),
            find_char_from(s, c, i - lo) == find_char(s, c),
        decreases hi - i,
    {
        if cs[i] == c {
            return Some(i);
        }
        i += 1;
    }
    None
}

/// Whether `pat` occurs in `cs` at index `i` (requires that it fits before `hi`).
fn matches_here(cs: &Vec<char>, i: usize, hi: usize, pat: &Vec<char>) -> (b: bool)
    requires
        i <= hi <= cs.len(),
        i + pat.len() <= hi,
    ensures
        b == (cs@.subrange(i as int, i + pat.len()) == pat@),
{
    let mut k: usize = 0;
    while k < pat.len()
        invariant
            i + pat.len() <= hi <= cs.len(),
            k <= pat.len(),
            forall|j: int| 0 <= j < k ==> cs@[i + j] == pat@[j],
        decreases pat.len() - k,
    {
        if cs[i + k] != pat[k] {
            assert(cs@.subrange(i as int, i + pat.len())[k as int] != pat@[k as int]);
            return false;
        }
        k += 1;
    }
    assert(cs@.subrange(i as int, i + pat.len()) =~= pat@);
    true
}

/// Index of the first occurrence of `pat` in `cs[lo..hi]`, as an index into `cs`.
pub fn find_in(cs: &Vec<char>, lo: usize, hi: usize, pat: &Vec<char>) -> (r: Option<usize>)
    requires
        lo <= hi <= cs.len(),
    ensures
        match r {
            Some(i) => lo <= i && i + pat.len() <= hi && find(
                cs@.subrange(lo as int, hi as int),
                pat@,
            ) == Some(i - lo),
            None => find(cs@.subrange(lo as int, hi as int), pat@) is None,
        },
{
    let ghost s = cs@.subrange(lo as int, hi as int);
    if pat.len() > hi - lo {
        return None;
    }
    if pat.len() == 0 {
        assert(s.subrange(0, 0) =~= pat@);
        return Some(lo);
    }
    let mut i = lo;
    while i <= hi - pat.len()
        invariant
            lo <= i <= hi <= cs.len(),
            1 <= pat.len() <= hi - lo,
            s == cs@.subrange(lo as int, hi as int),
            find_from(s, pat@, i - lo) == find(s, pat@),
        decreases hi - i,
    {
        let m = matches_here(cs, i, hi, pat);
        assert(s.subrange(i - lo, i - lo + pat.len()) =~= cs@.subrange(i as int, i + pat.len()));
        if m {
            return Some(i);
        }
        i += 1;
    }
    None
}

/// The bounds of `trim(cs[lo..hi])`, as indices into `cs`.
pub fn trim_range(cs: &Vec<char>, lo: usize, hi: usize) -> (r: (usize, usize))
    requires
        lo <= hi <= cs.len(),
    ensures
        lo <= r.0 <= r.1 <= hi,
        cs@.subrange(r.0 as int, r.1 as int) == trim(cs@.subrange(lo as int, hi as int)),
{
    let ghost s = cs@.subrange(lo as int, hi as int);
    let mut a = lo;
    while a < hi && is_ws_exec(cs[a])
        invariant
            lo <= a <= hi <= cs.len(),
            s == cs@.subrange(lo as int, hi as int),
            skip_ws_from(s, a - lo) == skip_ws_from(s, 0),
        decreases hi - a,
    {
        a += 1;
    }
    let mut b = hi;
    while b > a && is_ws_exec(cs[b - 1])
        invariant
            lo <= a <= b <= hi <= cs.len(),
            s == cs@.subrange(lo as int, hi as int),
            skip_ws_from(s, 0) == a - lo,
            trim_end_at(s, a - lo, b - lo) == trim_end_at(s, a - lo, s.len() as int),
        decreases b - a,
    {
        b -= 1;
    }
    assert(cs@.subrange(a as int, b as int) =~= s.subrange(a - lo, b - lo));
    (a, b)
}


/// A line without its final carriage return, if it has one.
pub open spec fn strip_cr(l: Seq<char>) -> Seq<char> {
    if l.len() > 0 && l.last() == '\r' {
        l.drop_last()
    } else {
        l
    }
}

/// The lines of `s` as `str::lines` yields them: split at `\n`, with a `\r` just
/// before the `\n` removed, and no empty line after a final line ending.
pub open spec fn lines(s: Seq<char>) -> Seq<Seq<char>>
    decreases s.len(),
{
    if s.len() == 0 {
        seq![]
    } else {
        match find_char(s, '\n') {
            Some(i) => {
                proof {
                    lemma_find_char_from(s, '\n', 0);
                }
                seq![strip_cr(s.take(i))] + lines(s.skip(i + 1))
            },
            None => seq![s],
        }
    }
}

/// The fields of `s` separated by `c` (what `str::split` yields for a character).
pub open spec fn split_char(s: Seq<char>, c: char) -> Seq<Seq<char>>
    decreases s.len(),
{
    match find_char(s, c) {
        Some(i) => {
            proof {
                lemma_find_char_from(s, c, 0);
            }
            seq![s.take(i)] + split_char(s.skip(i + 1), c)
        },
        None => seq![s],
    }
}

/// The first `c` of `p + s` is that of `p`, when `p` has one.
pub proof fn lemma_find_char_concat(p: Seq<char>, s: Seq<char>, c: char)
    requires
        p.contains(c),
    ensures
        find_char(p + s, c) == find_char(p, c),
{
    lemma_find_char_from(p, c, 0);
    lemma_find_char_from(p + s, c, 0);
    let k = choose|k: int| 0 <= k < p.len() && p[k] == c;
    assert((p + s)[k] == c);
    match find_char(p, c) {
        Some(i) => {
            assert((p + s)[i] == c);
            match find_char(p + s, c) {
                Some(j) => {
                    if j < i {
                        assert(p[j] == (p + s)[j]);
                    }
                },
                None => {},
            }
        },
        None => {},
    }
}

/// The last field of `p + s` split at `c`, where `p` ends with `c` and `s` has no `c`,
/// is `s`.
pub proof fn lemma_split_last(p: Seq<char>, s: Seq<char>, c: char)
    requires
        p.len() > 0,
        p.last() == c,
        !s.contains(c),
    ensures
        split_char(p + s, c).last() == s,
    decreases p.len(),
{
    assert(p.contains(c)) by {
        assert(p[p.len() - 1] == c);
    }
    lemma_find_char_concat(p, s, c);
    lemma_find_char_from(p, c, 0);
    let i = find_char(p, c).unwrap();
    let rest = (p + s).skip(i + 1);
    let rp = p.skip(i + 1);
    assert(rest =~= rp + s);
    if rp.len() == 0 {
        assert(rest =~= s);
        lemma_find_char_from(s, c, 0);
        assert(find_char(s, c) is None);
        assert(split_char(s, c) == seq![s]);
    } else {
        assert(rp.last() == c);
        lemma_split_last(rp, s, c);
    }
}

/// Text without `c` is one field.
pub proof fn lemma_split_none(a: Seq<char>, c: char)
    requires
        !a.contains(c),
    ensures
        split_char(a, c) == seq![a],
{
    lemma_find_char_from(a, c, 0);
    if find_char(a, c) is Some {
        let k = find_char(a, c).unwrap();
        assert(a[k] == c);
    }
}

/// Splitting `a`, `c`, then `b` at `c`, where `a` has no `c`: `a`, then the fields of `b`.
pub proof fn lemma_split_first(a: Seq<char>, b: Seq<char>, c: char)
    requires
        !a.contains(c),
    ensures
        split_char(a + seq![c] + b, c) == seq![a] + split_char(b, c),
{
    let t = a + seq![c] + b;
    lemma_find_char_from(t, c, 0);
    assert(t[a.len() as int] == c);
    let i = find_char(t, c).unwrap();
    if i < a.len() {
        assert(a[i] == t[i]);
    }
    assert(i == a.len());
    assert(t.take(i) =~= a);
    assert(t.skip(i + 1) =~= b);
}

/// Text made of two parts without `c` has no `c`.
pub proof fn lemma_concat_free(a: Seq<char>, b: Seq<char>, c: char)
    requires
        !a.contains(c),
        !b.contains(c),
    ensures
        !(a + b).contains(c),
{
    if (a + b).contains(c) {
        let k = choose|k: int| 0 <= k < (a + b).len() && (a + b)[k] == c;
        if k < a.len() {
            assert(a[k] == c);
        } else {
            assert(b[k - a.len()] == c);
        }
    }
}

/// The first line of `cs[pos..]`, as bounds into `cs`, and where the rest begins.
pub fn next_line(cs: &Vec<char>, pos: usize) -> (r: (usize, usize, usize))
    requires
        pos < cs.len(),
    ensures
        pos == r.0 <= r.1 <= cs.len(),
        pos < r.2 <= cs.len(),
        r.1 < r.2 || r.2 == cs.len(),
        lines(cs@.subrange(pos as int, cs.len() as int)) == seq![
            cs@.subrange(r.0 as int, r.1 as int),
        ] + lines(cs@.subrange(r.2 as int, cs.len() as int)),
{
    let n = cs.len();
    let ghost t = cs@.subrange(pos as int, n as int);
    match find_char_in(cs, pos, n, '\n') {
        Some(i) => {
            proof {
                lemma_find_char_from(t, '\n', 0);
                assert(t.take(i - pos) =~= cs@.subrange(pos as int, i as int));
                assert(t.skip(i - pos + 1) =~= cs@.subrange(i + 1, n as int));
            }
            if i > pos && cs[i - 1] == '\r' {
                assert(cs@.subrange(pos as int, i as int).drop_last() =~= cs@.subrange(
                    pos as int,
                    i - 1,
                ));
                (pos, i - 1, i + 1)
            } else {
                (pos, i, i + 1)
            }
        },
        None => {
            assert(cs@.subrange(n as int, n as int) =~= Seq::<char>::empty());
            (pos, n, n)
        },
    }
}

/// The bounds, as indices into `cs`, of the fields of `cs[lo..hi]` separated by `c`.
pub fn split_ranges(cs: &Vec<char>, lo: usize, hi: usize, c: char) -> (r: Vec<(usize, usize)>)
    requires
        lo <= hi <= cs.len(),
    ensures
        r.len() == split_char(cs@.subrange(lo as int, hi as int), c).len(),
        forall|k: int|
            0 <= k < r.len() ==> lo <= (#[trigger] r@[k]).0 <= r@[k].1 <= hi && cs@.subrange(
                r@[k].0 as int,
                r@[k].1 as int,
            ) == split_char(cs@.subrange(lo as int, hi as int), c)[k],
{
    let ghost s = cs@.subrange(lo as int, hi as int);
    let mut r: Vec<(usize, usize)> = Vec::new();
    let ghost mut parts: Seq<Seq<char>> = seq![];
    let mut pos = lo;
    loop
        invariant
            lo <= pos <= hi <= cs.len(),
            s == cs@.subrange(lo as int, hi as int),
            r.len() == parts.len(),
            forall|k: int|
                0 <= k < r.len() ==> lo <= (#[trigger] r@[k]).0 <= r@[k].1 <= hi
                    && cs@.subrange(r@[k].0 as int, r@[k].1 as int) == parts[k],
            split_char(s, c) == parts + split_char(cs@.subrange(pos as int, hi as int), c),
        decreases hi - pos,
    {
        let ghost t = cs@.subrange(pos as int, hi as int);
        match find_char_in(cs, pos, hi, c) {
            Some(i) => {
                proof {
                    lemma_find_char_from(t, c, 0);
                    assert(t.take(i - pos) =~= cs@.subrange(pos as int, i as int));
                    assert(t.skip(i - pos + 1) =~= cs@.subrange(i + 1, hi as int));
                    assert(split_char(t, c) == seq![cs@.subrange(pos as int, i as int)]
                        + split_char(cs@.subrange(i + 1, hi as int), c));
                    assert(parts + split_char(t, c) =~= parts.push(
                        cs@.subrange(pos as int, i as int),
                    ) + split_char(cs@.subrange(i + 1, hi as int), c));
                    parts = parts.push(cs@.subrange(pos as int, i as int));
                }
                r.push((pos, i));
                pos = i + 1;
            },
            None => {
                proof {
                    assert(split_char(t, c) == seq![t]);
                    assert(parts + split_char(t, c) =~= parts.push(t));
                    parts = parts.push(t);
                }
                r.push((pos, hi));
                return r;
            },
        }
    }
}

/// Whether `cs[lo..hi]` equals `lit`.
pub fn range_eq(cs: &Vec<char>, lo: usize, hi: usize, lit: &Vec<char>) -> (b: bool)
    requires
        lo <= hi <= cs.len(),
    ensures
        b == (cs@.subrange(lo as int, hi as int) == lit@),
{
    if hi - lo != lit.len() {
        assert(cs@.subrange(lo as int, hi as int).len() != lit@.len());
        return false;
    }
    let mut k: usize = 0;
    while k < lit.len()
        invariant
            lo <= hi <= cs.len(),
            hi - lo == lit.len(),
            k <= lit.len(),
            forall|j: int| 0 <= j < k ==> cs@[lo + j] == lit@[j],
        decreases lit.len() - k,
    {
        if cs[lo + k] != lit[k] {
            assert(cs@.subrange(lo as int, hi as int)[k as int] != lit@[k as int]);
            return false;
        }
        k += 1;
    }
    assert(cs@.subrange(lo as int, hi as int) =~= lit@);
    true
}


/// An ASCII character.
pub open spec fn is_ascii_char(c: char) -> bool {
    (c as int) < 128
}

/// Text made of ASCII characters only.
pub open spec fn all_ascii(s: Seq<char>) -> bool {
    forall|i: int| 0 <= i < s.len() ==> is_ascii_char(#[trigger] s[i])
}

/// `A`..`Z` mapped to `a`..`z`; every other character unchanged.
pub open spec fn ascii_lower_char(c: char) -> char {
    if 'A' <= c && c <= 'Z' {
        ((c as int) + 32) as char
    } else {
        c
    }
}

/// `a`..`z` mapped to `A`..`Z`; every other character unchanged.
pub open spec fn ascii_upper_char(c: char) -> char {
    if 'a' <= c && c <= 'z' {
        ((c as int) - 32) as char
    } else {
        c
    }
}

/// Each character of `s` through `ascii_lower_char`.
pub open spec fn ascii_lower(s: Seq<char>) -> Seq<char> {
    Seq::new(s.len(), |i: int| ascii_lower_char(s[i]))
}

/// What `str::to_lowercase` returns for text that is not all ASCII (the Unicode
/// lowercase mapping, which may depend on neighbouring characters).
pub uninterp spec fn unicode_lowercase(s: Seq<char>) -> Seq<char>;

/// What `str::to_lowercase` returns for `s`: on ASCII text, `A`..`Z` lowered and the
/// rest unchanged; otherwise the Unicode mapping.
pub open spec fn lowercase(s: Seq<char>) -> Seq<char> {
    if all_ascii(s) {
        ascii_lower(s)
    } else {
        unicode_lowercase(s)
    }
}

/// Calls `str::to_lowercase`. Stated: ASCII text comes back with `A`..`Z` lowered and
/// every other character unchanged (the Unicode lowercase mapping of ASCII letters, as
/// the documentation's examples show); the result for other text is named by
/// `unicode_lowercase`.
#[verifier::external_body]
pub fn to_lowercase(s: &str) -> (r: String)
    ensures
        r@ == lowercase(s@),
        all_ascii(s@) ==> r@ == ascii_lower(s@),
        !all_ascii(s@) ==> r@ == unicode_lowercase(s@),
{
    s.to_lowercase()
}

/// What `char::to_uppercase` yields for a character that is not ASCII (the Unicode
/// uppercase mapping, one to three characters).
pub uninterp spec fn unicode_uppercase(c: char) -> Seq<char>;

/// What `char::to_uppercase` yields for `c`: for an ASCII character, the one character
/// with `a`..`z` raised; otherwise the Unicode mapping.
pub open spec fn uppercase(c: char) -> Seq<char> {
    if is_ascii_char(c) {
        seq![ascii_upper_char(c)]
    } else {
        unicode_uppercase(c)
    }
}

/// Calls `char::to_uppercase` and collects what it yields. Stated: an ASCII character
/// gives the one character with `a`..`z` raised (as the documentation's examples show);
/// what other characters give is named by `unicode_uppercase`.
#[verifier::external_body]
pub fn to_uppercase_char(c: char) -> (r: String)
    ensures
        r@ == uppercase(c),
        is_ascii_char(c) ==> r@ == seq![ascii_upper_char(c)],
        !is_ascii_char(c) ==> r@ == unicode_uppercase(c),
{
    c.to_uppercase().collect::<String>()
}

/// `s` with every character `from` replaced by the characters `to`.
pub open spec fn replace_char(s: Seq<char>, from: char, to: Seq<char>) -> Seq<char>
    decreases s.len(),
{
    if s.len() == 0 {
        seq![]
    } else {
        replace_char(s.drop_last(), from, to) + (if s.last() == from {
            to
        } else {
            seq![s.last()]
        })
    }
}

/// `s` with every character `from` replaced by `to` (`str::replace` with a one-character pattern).
pub fn replace_char_exec(s: &Vec<char>, from: char, to: &Vec<char>) -> (r: Vec<char>)
    ensures
        r@ == replace_char(s@, from, to@),
{
    let mut r: Vec<char> = Vec::new();
    let mut i: usize = 0;
    while i < s.len()
        invariant
            i <= s.len(),
            r@ == replace_char(s@.take(i as int), from, to@),
        decreases s.len() - i,
    {
        assert(s@.take(i + 1).drop_last() =~= s@.take(i as int));
        if s[i] == from {
            let mut k: usize = 0;
            let ghost r0 = r@;
            while k < to.len()
                invariant
                    k <= to.len(),
                    r@ == r0 + to@.take(k as int),
                decreases to.len() - k,
            {
                r.push(to[k]);
                k += 1;
                assert(r@ =~= r0 + to@.take(k as int));
            }
            assert(to@.take(to.len() as int) =~= to@);
        } else {
            r.push(s[i]);
        }
        i += 1;
        assert(r@ =~= replace_char(s@.take(i as int), from, to@));
    }
    assert(s@.take(s.len() as int) =~= s@);
    r
}

/// Concatenation of two character vectors.
pub fn concat_chars(a: &Vec<char>, b: &Vec<char>) -> (r: Vec<char>)
    ensures
        r@ == a@ + b@,
{
    let mut r: Vec<char> = Vec::new();
    let mut i: usize = 0;
    while i < a.len()
        invariant
            i <= a.len(),
            r@ == a@.take(i as int),
        decreases a.len() - i,
    {
        r.push(a[i]);
        i += 1;
        assert(r@ =~= a@.take(i as int));
    }
    let mut j: usize = 0;
    while j < b.len()
        invariant
            i == a.len(),
            j <= b.len(),
            r@ == a@ + b@.take(j as int),
        decreases b.len() - j,
    {
        r.push(b[j]);
        j += 1;
        assert(r@ =~= a@ + b@.take(j as int));
    }
    assert(a@.take(a.len() as int) =~= a@);
    assert(b@.take(b.len() as int) =~= b@);
    r
}

/// A new string holding `a` followed by `b`.
pub fn concat_str(a: &str, b: &str) -> (r: String)
    ensures
        r@ == a@ + b@,
{
    let mut r = String::from_str(a);
    r.append(b);
    r
}


/// Whether `pat` occurs in `s` (`str::contains`).
pub fn str_contains(s: &str, pat: &str) -> (b: bool)
    ensures
        b == contains(s@, pat@),
{
    let cs = chars_of(s);
    let p = chars_of(pat);
    assert(cs@.subrange(0, cs.len() as int) =~= cs@);
    let r = find_in(&cs, 0, cs.len(), &p);
    proof {
        lemma_find(cs@, p@);
    }
    r.is_some()
}

/// Whether `s` begins with `pat` (`str::starts_with`).
pub fn str_starts_with(s: &str, pat: &str) -> (b: bool)
    ensures
        b == starts_with(s@, pat@),
{
    let cs = chars_of(s);
    let p = chars_of(pat);
    if p.len() > cs.len() {
        return false;
    }
    range_eq(&cs, 0, p.len(), &p)
}

/// Whether `s` ends with `pat` (`str::ends_with`).
pub fn str_ends_with(s: &str, pat: &str) -> (b: bool)
    ensures
        b == ends_with(s@, pat@),
{
    let cs = chars_of(s);
    let p = chars_of(pat);
    if p.len() > cs.len() {
        return false;
    }
    range_eq(&cs, cs.len() - p.len(), cs.len(), &p)
}

/// Whether two strings hold the same characters.
pub fn str_eq(a: &str, b: &str) -> (r: bool)
    ensures
        r == (a@ == b@),
{
    let x = chars_of(a);
    if x.len() == 0 && b.is_empty() {
        assert(a@ =~= b@);
        return true;
    }
    let y = chars_of(b);
    assert(y@.subrange(0, y.len() as int) =~= y@);
    range_eq(&y, 0, y.len(), &x)
}

/// Copies an optional string.
pub fn copy_opt_string(s: &Option<String>) -> (r: Option<String>)
    ensures
        r == *s,
{
    match s {
        Some(x) => Some(x.clone()),
        None => None,
    }
}

} // verus!
