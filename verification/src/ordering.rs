//! The order of strings (by characters, which is the order of their UTF-8 bytes that
//! `String`'s `Ord` uses), and sorted, duplicate-free lists of strings.
use vstd::prelude::*;
use crate::text::{chars_of, string_of};

verus! {

broadcast use vstd::seq_lib::group_seq_properties;

/// `a` sorts strictly before `b`.
pub open spec fn lex_lt(a: Seq<char>, b: Seq<char>) -> bool
    decreases a.len(),
{
    if a.len() == 0 {
        b.len() > 0
    } else if b.len() == 0 {
        false
    } else if a[0] != b[0] {
        a[0] < b[0]
    } else {
        lex_lt(a.drop_first(), b.drop_first())
    }
}

pub proof fn lemma_lex_irreflexive(a: Seq<char>)
    ensures
        !lex_lt(a, a),
    decreases a.len(),
{
    if a.len() > 0 {
        lemma_lex_irreflexive(a.drop_first());
    }
}

pub proof fn lemma_lex_trichotomy(a: Seq<char>, b: Seq<char>)
    ensures
        a == b || lex_lt(a, b) || lex_lt(b, a),
        !(lex_lt(a, b) && lex_lt(b, a)),
    decreases a.len(),
{
    if a.len() > 0 && b.len() > 0 && a[0] == b[0] {
        lemma_lex_trichotomy(a.drop_first(), b.drop_first());
        if a.drop_first() == b.drop_first() {
            assert(a =~= seq![a[0]] + a.drop_first());
            assert(b =~= seq![b[0]] + b.drop_first());
        }
    } else if a.len() == 0 && b.len() == 0 {
        assert(a =~= b);
    }
}

pub proof fn lemma_lex_transitive(a: Seq<char>, b: Seq<char>, c: Seq<char>)
    requires
        lex_lt(a, b),
        lex_lt(b, c),
    ensures
        lex_lt(a, c),
    decreases a.len(),
{
    if a.len() > 0 && b.len() > 0 && c.len() > 0 && a[0] == b[0] && b[0] == c[0] {
        lemma_lex_transitive(a.drop_first(), b.drop_first(), c.drop_first());
    }
}

/// Compares two character vectors: -1, 0 or 1.
pub fn compare_chars(a: &Vec<char>, b: &Vec<char>) -> (r: i8)
    ensures
        r == -1 <==> lex_lt(a@, b@),
        r == 0 <==> a@ == b@,
        r == 1 <==> lex_lt(b@, a@),
        r == -1 || r == 0 || r == 1,
{
    proof {
        lemma_lex_trichotomy(a@, b@);
        lemma_lex_irreflexive(a@);
    }
    let mut i: usize = 0;
    assert(a@.skip(0) =~= a@);
    assert(b@.skip(0) =~= b@);
    assert(a@.take(0) =~= b@.take(0));
    while i < a.len() && i < b.len() && a[i] == b[i]
        invariant
            i <= a.len(),
            i <= b.len(),
            a@.take(i as int) == b@.take(i as int),
            lex_lt(a@, b@) == lex_lt(a@.skip(i as int), b@.skip(i as int)),
            lex_lt(b@, a@) == lex_lt(b@.skip(i as int), a@.skip(i as int)),
        decreases a.len() - i,
    {
        assert(a@.skip(i as int).drop_first() =~= a@.skip(i + 1));
        assert(b@.skip(i as int).drop_first() =~= b@.skip(i + 1));
        assert(a@.take(i + 1) =~= a@.take(i as int).push(a@[i as int]));
        assert(b@.take(i + 1) =~= b@.take(i as int).push(b@[i as int]));
        i += 1;
    }
    if i == a.len() && i == b.len() {
        assert(a@ =~= a@.take(i as int));
        assert(b@ =~= b@.take(i as int));
        0
    } else if i == a.len() {
        assert(a@.skip(i as int).len() == 0);
        -1
    } else if i == b.len() {
        assert(b@.skip(i as int).len() == 0);
        1
    } else if a[i] < b[i] {
        assert(a@.skip(i as int)[0] == a@[i as int]);
        assert(b@.skip(i as int)[0] == b@[i as int]);
        -1
    } else {
        assert(a@.skip(i as int)[0] == a@[i as int]);
        assert(b@.skip(i as int)[0] == b@[i as int]);
        1
    }
}

/// Strictly increasing, hence free of duplicates.
pub open spec fn strictly_sorted(s: Seq<Seq<char>>) -> bool {
    forall|i: int, j: int| 0 <= i < j < s.len() ==> lex_lt(#[trigger] s[i], #[trigger] s[j])
}

/// The strings of `s`, as a set.
pub open spec fn string_set(s: Seq<Seq<char>>) -> Set<Seq<char>> {
    Set::new(|x: Seq<char>| s.contains(x))
}

pub open spec fn views(v: Seq<String>) -> Seq<Seq<char>> {
    v.map_values(|s: String| s@)
}

/// Inserts `x` into a strictly sorted list, unless it is there already.
fn insert_sorted(v: &mut Vec<Vec<char>>, x: Vec<char>)
    requires
        strictly_sorted(old(v)@.map_values(|c: Vec<char>| c@)),
    ensures
        strictly_sorted(final(v)@.map_values(|c: Vec<char>| c@)),
        string_set(final(v)@.map_values(|c: Vec<char>| c@)) == string_set(old(v)@.map_values(|c: Vec<char>| c@)).insert(x@),
{
    let ghost s0 = v@.map_values(|c: Vec<char>| c@);
    let mut i: usize = 0;
    loop
        invariant
            i <= v.len(),
            v@.map_values(|c: Vec<char>| c@) == s0,
            strictly_sorted(s0),
            forall|j: int| 0 <= j < i ==> lex_lt(#[trigger] s0[j], x@),
        ensures
            i <= v.len(),
            v@.map_values(|c: Vec<char>| c@) == s0,
            forall|j: int| 0 <= j < i ==> lex_lt(#[trigger] s0[j], x@),
            i < v.len() ==> lex_lt(x@, s0[i as int]),
        decreases v.len() - i,
    {
        if i == v.len() {
            break;
        }
        let c = compare_chars(&v[i], &x);
        assert(s0[i as int] == v@[i as int]@);
        if c == 0 {
            assert(string_set(s0).insert(x@) =~= string_set(s0));
            return;
        }
        if c == 1 {
            break;
        }
        i += 1;
    }
    let ghost xv = x@;
    v.insert(i, x);
    let ghost s1 = v@.map_values(|c: Vec<char>| c@);
    assert(s1 =~= s0.insert(i as int, xv));
    assert forall|a: int, b: int| 0 <= a < b < s1.len() implies lex_lt(#[trigger] s1[a], #[trigger] s1[b]) by {
        if b < i {
        } else if a < i && b == i {
        } else if a < i && b > i {
            if i < s0.len() {
                assert(lex_lt(s0[a], s0[i as int]));
                if b - 1 > i {
                    lemma_lex_transitive(s0[a], s0[i as int], s0[b - 1]);
                }
            }
        } else if a == i {
            if b - 1 > i {
                lemma_lex_transitive(xv, s0[i as int], s0[b - 1]);
            }
        } else {
        }
    }
    assert forall|y: Seq<char>| #[trigger] string_set(s1).contains(y) <==> string_set(s0).insert(xv).contains(y) by {
        if s1.contains(y) {
            let k = choose|k: int| 0 <= k < s1.len() && s1[k] == y;
            if k < i {
                assert(s0[k] == y);
            } else if k > i {
                assert(s0[k - 1] == y);
            }
        }
        if s0.contains(y) {
            let k = choose|k: int| 0 <= k < s0.len() && s0[k] == y;
            if k < i {
                assert(s1[k] == y);
            } else {
                assert(s1[k + 1] == y);
            }
        }
        if y == xv {
            assert(s1[i as int] == y);
        }
    }
    assert(string_set(s1) =~= string_set(s0).insert(xv));
}

/// The strings of `items`, sorted and without duplicates (`sort` then `dedup`).
pub fn sort_dedup(items: &Vec<String>) -> (r: Vec<String>)
    ensures
        strictly_sorted(views(r@)),
        string_set(views(r@)) == string_set(views(items@)),
{
    let mut acc: Vec<Vec<char>> = Vec::new();
    let mut i: usize = 0;
    while i < items.len()
        invariant
            i <= items.len(),
            strictly_sorted(acc@.map_values(|c: Vec<char>| c@)),
            string_set(acc@.map_values(|c: Vec<char>| c@)) == string_set(views(items@.take(i as int))),
        decreases items.len() - i,
    {
        let x = chars_of(items[i].as_str());
        insert_sorted(&mut acc, x);
        proof {
            let t0 = views(items@.take(i as int));
            let t1 = views(items@.take(i + 1));
            assert(t1 =~= t0.push(items@[i as int]@));
            assert forall|y: Seq<char>| #[trigger] t1.contains(y) <==> (t0.contains(y) || y == items@[i as int]@) by {
                if t1.contains(y) {
                    let k = choose|k: int| 0 <= k < t1.len() && t1[k] == y;
                    if k < t0.len() {
                        assert(t0[k] == y);
                    }
                }
                if t0.contains(y) {
                    let k = choose|k: int| 0 <= k < t0.len() && t0[k] == y;
                    assert(t1[k] == y);
                }
                if y == items@[i as int]@ {
                    assert(t1[t0.len() as int] == y);
                }
            }
            assert(string_set(t1) =~= string_set(t0).insert(items@[i as int]@));
        }
        i += 1;
    }
    assert(items@.take(items.len() as int) =~= items@);
    let mut r: Vec<String> = Vec::new();
    let mut k: usize = 0;
    while k < acc.len()
        invariant
            k <= acc.len(),
            views(r@) == acc@.map_values(|c: Vec<char>| c@).take(k as int),
        decreases acc.len() - k,
    {
        let ghost r0 = r@;
        let sk = string_of(&acc[k]);
        r.push(sk);
        assert(r@ == r0.push(sk));
        assert(views(r@) =~= views(r0).push(acc@[k as int]@));
        k += 1;
        assert(views(r@) =~= acc@.map_values(|c: Vec<char>| c@).take(k as int));
    }
    assert(acc@.map_values(|c: Vec<char>| c@).take(acc.len() as int) =~= acc@.map_values(|c: Vec<char>| c@));
    r
}

} // verus!
