//! Proton compatibility tools: reading their version and display name, listing them
//! in order, choosing the default, and matching GE-Proton releases.
use vstd::prelude::*;
use crate::text::{
    chars_of, contains, copy_opt_string, ends_with, is_ws, is_ws_exec, lines, next_line,
    split_char, split_ranges, starts_with, str_contains, str_ends_with, str_starts_with,
    string_of_range, trim, trim_range,
};
use crate::ordering::{compare_chars, lemma_lex_irreflexive, lemma_lex_transitive, lemma_lex_trichotomy, lex_lt};

verus! {

broadcast use vstd::string::group_string_axioms;

/// An installed Proton version.
#[derive(Debug, Clone)]
pub struct ProtonVersion {
    pub name: String,
    pub path: String,
    pub version: Option<String>,
    /// `custom` (from `compatibilitytools.d`) or `steam` (installed through Steam).
    pub source: String,
}

/// A Proton version as plain text values.
pub struct ProtonView {
    pub name: Seq<char>,
    pub path: Seq<char>,
    pub version: Option<Seq<char>>,
    pub source: Seq<char>,
}

pub open spec fn opt_view(o: Option<String>) -> Option<Seq<char>> {
    match o {
        Some(s) => Some(s@),
        None => None,
    }
}

impl View for ProtonVersion {
    type V = ProtonView;

    open spec fn view(&self) -> ProtonView {
        ProtonView { name: self.name@, path: self.path@, version: opt_view(self.version), source: self.source@ }
    }
}

impl ProtonVersion {
    /// A copy of this version.
    pub fn copy(&self) -> (r: ProtonVersion)
        ensures
            r@ == self@,
    {
        ProtonVersion {
            name: self.name.clone(),
            path: self.path.clone(),
            version: copy_opt_string(&self.version),
            source: self.source.clone(),
        }
    }
}

/// A Proton directory found by the scan: its name (the display name from
/// `compatibilitytool.vdf` or the directory's name), its path and version.
pub struct ProtonCandidate {
    pub name: String,
    pub path: String,
    pub version: Option<String>,
}

/// A GE-Proton release on GitHub, and whether a matching version is installed.
#[derive(Debug, Clone)]
pub struct ProtonGeRelease {
    pub tag_name: String,
    pub name: String,
    pub download_url: String,
    pub size_bytes: u64,
    pub published_at: String,
    pub is_installed: bool,
}

/// Index of the last whitespace character of `s` before `j`, or -1.
pub open spec fn last_ws_before(s: Seq<char>, j: int) -> int
    decreases j,
{
    if j <= 0 || j > s.len() {
        -1
    } else if is_ws(s[j - 1]) {
        j - 1
    } else {
        last_ws_before(s, j - 1)
    }
}

/// The version in a Proton `version` file: nothing if it is blank; if the trimmed text
/// has a space, its last whitespace-separated word; else the trimmed text.
pub open spec fn version_text(content: Seq<char>) -> Option<Seq<char>> {
    let t = trim(content);
    if t.len() == 0 {
        None
    } else if t.contains(' ') {
        Some(t.skip(last_ws_before(t, t.len() as int) + 1))
    } else {
        Some(t)
    }
}

proof fn lemma_last_ws_before(s: Seq<char>, j: int)
    requires
        0 <= j <= s.len(),
    ensures
        -1 <= last_ws_before(s, j) < j,
        last_ws_before(s, j) >= 0 ==> is_ws(s[last_ws_before(s, j)]),
        forall|k: int| last_ws_before(s, j) < k < j ==> !is_ws(s[k]),
    decreases j,
{
    if j > 0 && !is_ws(s[j - 1]) {
        lemma_last_ws_before(s, j - 1);
    }
}

/// Reads the version from the text of a Proton `version` file.
pub fn parse_version_text(content: &str) -> (r: Option<String>)
    ensures
        match r {
            Some(v) => version_text(content@) == Some(v@),
            None => version_text(content@) is None,
        },
{
    let cs = chars_of(content);
    let n = cs.len();
    assert(cs@.subrange(0, n as int) =~= cs@);
    let (a, b) = trim_range(&cs, 0, n);
    let ghost t = cs@.subrange(a as int, b as int);
    if a == b {
        return None;
    }
    let mut has_space = false;
    let mut k = a;
    while k < b
        invariant
            a <= k <= b <= n == cs.len(),
            t == cs@.subrange(a as int, b as int),
            has_space == exists|i: int| 0 <= i < k - a && t[i] == ' ',
        decreases b - k,
    {
        if cs[k] == ' ' {
            has_space = true;
        }
        assert(t[k - a] == cs@[k as int]);
        k += 1;
    }
    if !has_space {
        assert(!t.contains(' '));
        return Some(string_of_range(&cs, a, b));
    }
    let mut j = b;
    while j > a && !is_ws_exec(cs[j - 1])
        invariant
            a <= j <= b <= n == cs.len(),
            t == cs@.subrange(a as int, b as int),
            last_ws_before(t, j - a) == last_ws_before(t, t.len() as int),
        decreases j,
    {
        assert(t[j - a - 1] == cs@[j - 1]);
        j -= 1;
    }
    if j > a {
        assert(t[j - a - 1] == cs@[j - 1]);
    }
    assert(t.skip(last_ws_before(t, t.len() as int) + 1) =~= cs@.subrange(j as int, b as int));
    Some(string_of_range(&cs, j, b))
}

/// The display name on the first line (trimmed) that holds `"display_name"` and at least
/// four `"`-separated fields: the fourth field.
pub open spec fn vdf_display_name(ls: Seq<Seq<char>>) -> Option<Seq<char>>
    decreases ls.len(),
{
    if ls.len() == 0 {
        None
    } else {
        let t = trim(ls[0]);
        if contains(t, "\"display_name\""@) && split_char(t, '"').len() >= 4 {
            Some(split_char(t, '"')[3])
        } else {
            vdf_display_name(ls.drop_first())
        }
    }
}

/// Reads the display name from the text of a `compatibilitytool.vdf`.
pub fn compat_vdf_display_name(content: &str) -> (r: Option<String>)
    ensures
        match r {
            Some(v) => vdf_display_name(lines(content@)) == Some(v@),
            None => vdf_display_name(lines(content@)) is None,
        },
{
    let cs = chars_of(content);
    let n = cs.len();
    let pat = chars_of("\"display_name\"");
    assert(cs@.subrange(0, n as int) =~= cs@);
    let mut pos: usize = 0;
    while pos < n
        invariant
            pos <= n == cs.len(),
            cs@ == content@,
            pat@ == "\"display_name\""@,
            vdf_display_name(lines(content@)) == vdf_display_name(lines(cs@.subrange(pos as int, n as int))),
        decreases n - pos,
    {
        let (a, b, next) = next_line(&cs, pos);
        let (ta, tb) = trim_range(&cs, a, b);
        let ghost ls = lines(cs@.subrange(pos as int, n as int));
        assert(ls[0] == cs@.subrange(a as int, b as int));
        assert(ls.drop_first() =~= lines(cs@.subrange(next as int, n as int)));
        let found = crate::text::find_in(&cs, ta, tb, &pat);
        proof {
            crate::text::lemma_find(cs@.subrange(ta as int, tb as int), pat@);
        }
        if found.is_some() {
            let parts = split_ranges(&cs, ta, tb, '"');
            if parts.len() >= 4 {
                return Some(string_of_range(&cs, parts[3].0, parts[3].1));
            }
        }
        pos = next;
    }
    assert(cs@.subrange(n as int, n as int) =~= Seq::<char>::empty());
    None
}

/// The default Proton: the first "Experimental", else the first GE-Proton, else the
/// first "Hotfix", else the first of all.
pub open spec fn default_proton_index(vs: Seq<ProtonVersion>) -> Option<int> {
    if exists|i: int| 0 <= i < vs.len() && contains(vs[i].name@, "Experimental"@) {
        Some(choose|i: int| 0 <= i < vs.len() && contains(vs[i].name@, "Experimental"@)
            && forall|j: int| 0 <= j < i ==> !contains(#[trigger] vs[j].name@, "Experimental"@))
    } else if exists|i: int| 0 <= i < vs.len() && starts_with(vs[i].name@, "GE-Proton"@) {
        Some(choose|i: int| 0 <= i < vs.len() && starts_with(vs[i].name@, "GE-Proton"@)
            && forall|j: int| 0 <= j < i ==> !starts_with(#[trigger] vs[j].name@, "GE-Proton"@))
    } else if exists|i: int| 0 <= i < vs.len() && contains(vs[i].name@, "Hotfix"@) {
        Some(choose|i: int| 0 <= i < vs.len() && contains(vs[i].name@, "Hotfix"@)
            && forall|j: int| 0 <= j < i ==> !contains(#[trigger] vs[j].name@, "Hotfix"@))
    } else if vs.len() > 0 {
        Some(0)
    } else {
        None
    }
}

/// Index of the first version whose name contains (or, if `prefix`, starts with) `pat`.
fn first_named(vs: &Vec<ProtonVersion>, pat: &str, prefix: bool) -> (r: Option<usize>)
    ensures
        match r {
            Some(i) => i < vs.len() && (if prefix { starts_with(vs@[i as int].name@, pat@) } else { contains(vs@[i as int].name@, pat@) })
                && forall|j: int| 0 <= j < i ==> !(if prefix { starts_with(#[trigger] vs@[j].name@, pat@) } else { contains(vs@[j].name@, pat@) }),
            None => forall|j: int| 0 <= j < vs.len() ==> !(if prefix { starts_with(#[trigger] vs@[j].name@, pat@) } else { contains(vs@[j].name@, pat@) }),
        },
{
    let mut i: usize = 0;
    while i < vs.len()
        invariant
            i <= vs.len(),
            forall|j: int| 0 <= j < i ==> !(if prefix { starts_with(#[trigger] vs@[j].name@, pat@) } else { contains(vs@[j].name@, pat@) }),
        decreases vs.len() - i,
    {
        let hit = if prefix {
            str_starts_with(vs[i].name.as_str(), pat)
        } else {
            str_contains(vs[i].name.as_str(), pat)
        };
        if hit {
            return Some(i);
        }
        i += 1;
    }
    None
}

/// The default Proton among the installed versions (see `default_proton_index`).
pub fn get_default_proton(versions: &Vec<ProtonVersion>) -> (r: Option<ProtonVersion>)
    ensures
        match default_proton_index(versions@) {
            Some(i) => r matches Some(v) && v@ == versions@[i]@,
            None => r is None,
        },
{
    let idx = match first_named(versions, "Experimental", false) {
        Some(i) => Some(i),
        None => match first_named(versions, "GE-Proton", true) {
            Some(i) => Some(i),
            None => match first_named(versions, "Hotfix", false) {
                Some(i) => Some(i),
                None => if versions.len() > 0 {
                    Some(0)
                } else {
                    None
                },
            },
        },
    };
    match idx {
        Some(i) => Some(versions[i].copy()),
        None => None,
    }
}


/// The order of the version list: by source (`custom` before `steam`), then by name,
/// newest (greatest) first.
pub open spec fn proton_before(a: ProtonView, b: ProtonView) -> bool {
    if a.source != b.source {
        lex_lt(a.source, b.source)
    } else {
        lex_lt(b.name, a.name)
    }
}

/// Where a stable insertion puts `x` in `r`: before the first element it sorts before.
pub open spec fn insert_pos_from(r: Seq<ProtonView>, x: ProtonView, j: int) -> int
    decreases r.len() - j,
{
    if j < 0 || j >= r.len() {
        r.len() as int
    } else if proton_before(x, r[j]) {
        j
    } else {
        insert_pos_from(r, x, j + 1)
    }
}

/// `s` stably sorted by `proton_before` (what `sort_by` with that comparator gives).
pub open spec fn proton_sorted(s: Seq<ProtonView>) -> Seq<ProtonView>
    decreases s.len(),
{
    if s.len() == 0 {
        seq![]
    } else {
        let r = proton_sorted(s.drop_last());
        r.insert(insert_pos_from(r, s.last(), 0), s.last())
    }
}

pub open spec fn pviews(s: Seq<ProtonVersion>) -> Seq<ProtonView> {
    s.map_values(|v: ProtonVersion| v@)
}

pub open spec fn candidate_view(c: ProtonCandidate, source: Seq<char>) -> ProtonView {
    ProtonView { name: c.name@, path: c.path@, version: opt_view(c.version), source }
}

pub open spec fn has_name(vs: Seq<ProtonView>, name: Seq<char>) -> bool {
    exists|i: int| 0 <= i < vs.len() && #[trigger] vs[i].name == name
}

/// Adds the first `n` candidates of `cs` as `source`, each unless its name is listed
/// already; with `proton_only`, only those whose name starts with `Proton`.
pub open spec fn add_unique(acc: Seq<ProtonView>, cs: Seq<ProtonCandidate>, source: Seq<char>, proton_only: bool, n: int) -> Seq<ProtonView>
    decreases n,
{
    if n <= 0 {
        acc
    } else {
        let prev = add_unique(acc, cs, source, proton_only, n - 1);
        let c = candidate_view(cs[n - 1], source);
        if (proton_only && !starts_with(c.name, "Proton"@)) || has_name(prev, c.name) {
            prev
        } else {
            prev.push(c)
        }
    }
}

/// The listed versions before sorting: every custom tool from the first directory;
/// those from the second directory whose names are new; then the Steam-installed
/// `Proton*` directories whose names are new.
pub open spec fn proton_collected(custom: Seq<ProtonCandidate>, alt_custom: Seq<ProtonCandidate>, steam: Seq<ProtonCandidate>) -> Seq<ProtonView> {
    let first = custom.map_values(|c: ProtonCandidate| candidate_view(c, "custom"@));
    let second = add_unique(first, alt_custom, "custom"@, false, alt_custom.len() as int);
    add_unique(second, steam, "steam"@, true, steam.len() as int)
}

fn name_listed(vs: &Vec<ProtonVersion>, name: &str) -> (b: bool)
    ensures
        b == has_name(pviews(vs@), name@),
{
    let ghost views = pviews(vs@);
    let mut i: usize = 0;
    while i < vs.len()
        invariant
            i <= vs.len(),
            views == pviews(vs@),
            forall|j: int| 0 <= j < i ==> views[j].name != name@,
        decreases vs.len() - i,
    {
        if crate::text::str_eq(vs[i].name.as_str(), name) {
            assert(views[i as int].name == name@);
            return true;
        }
        i += 1;
    }
    false
}

fn append_candidates(acc: &mut Vec<ProtonVersion>, cs: Vec<ProtonCandidate>, source: &str, proton_only: bool, dedup: bool)
    ensures
        dedup ==> pviews(final(acc)@) == add_unique(
            pviews(old(acc)@),
            cs@,
            source@,
            proton_only,
            cs.len() as int,
        ),
        !dedup && !proton_only ==> pviews(final(acc)@) == pviews(old(acc)@)
            + cs@.map_values(|c: ProtonCandidate| candidate_view(c, source@)),
{
    let ghost start = pviews(acc@);
    let ghost cands = cs@;
    let mut cs = cs;
    let mut k: usize = 0;
    let total = cs.len();
    while cs.len() > 0
        invariant
            k + cs.len() == total == cands.len(),
            cs@ == cands.skip(k as int),
            dedup ==> pviews(acc@) == add_unique(start, cands, source@, proton_only, k as int),
            !dedup && !proton_only ==> pviews(acc@) == start + cands.take(k as int).map_values(
                |c: ProtonCandidate| candidate_view(c, source@),
            ),
        decreases cs.len(),
    {
        let c = cs.remove(0);
        assert(c == cands[k as int]);
        let ghost before = acc@;
        let skip_prefix = proton_only && !str_starts_with(c.name.as_str(), "Proton");
        let skip_dup = dedup && name_listed(acc, c.name.as_str());
        if !(skip_prefix || skip_dup) {
            acc.push(ProtonVersion {
                name: c.name,
                path: c.path,
                version: c.version,
                source: String::from_str(source),
            });
            assert(pviews(acc@) =~= pviews(before).push(
                candidate_view(cands[k as int], source@),
            ));
        }
        proof {
            assert(cands.take(k + 1) =~= cands.take(k as int).push(cands[k as int]));
            assert(cands.take(k + 1).map_values(|c: ProtonCandidate| candidate_view(c, source@)) =~= cands.take(k as int).map_values(
                |c: ProtonCandidate| candidate_view(c, source@),
            ).push(candidate_view(cands[k as int], source@)));
            assert(cands.skip(k + 1) =~= cs@);
        }
        k += 1;
    }
    assert(cands.take(total as int) =~= cands);
}

proof fn lemma_before_transitive(a: ProtonView, b: ProtonView, c: ProtonView)
    requires
        proton_before(a, b),
        proton_before(b, c),
    ensures
        proton_before(a, c),
{
    lemma_lex_trichotomy(a.source, b.source);
    lemma_lex_trichotomy(b.source, c.source);
    lemma_lex_trichotomy(a.source, c.source);
    if a.source != b.source && b.source != c.source {
        lemma_lex_transitive(a.source, b.source, c.source);
        lemma_lex_irreflexive(a.source);
    } else if a.source == b.source && b.source == c.source {
        lemma_lex_transitive(c.name, b.name, a.name);
    }
}

/// Sorted by `proton_before`: no element sorts before one that precedes it.
pub open spec fn proton_ordered(r: Seq<ProtonView>) -> bool {
    forall|i: int, j: int| 0 <= i < j < r.len() ==> !proton_before(#[trigger] r[j], #[trigger] r[i])
}

proof fn lemma_insert_pos(r: Seq<ProtonView>, x: ProtonView, j: int)
    requires
        0 <= j <= r.len(),
    ensures
        j <= insert_pos_from(r, x, j) <= r.len(),
        forall|k: int| j <= k < insert_pos_from(r, x, j) ==> !proton_before(x, #[trigger] r[k]),
        insert_pos_from(r, x, j) < r.len() ==> proton_before(x, r[insert_pos_from(r, x, j)]),
    decreases r.len() - j,
{
    if j < r.len() && !proton_before(x, r[j]) {
        lemma_insert_pos(r, x, j + 1);
    }
}

proof fn lemma_proton_sorted(s: Seq<ProtonView>)
    ensures
        proton_ordered(proton_sorted(s)),
        proton_sorted(s).len() == s.len(),
        forall|x: ProtonView| #[trigger] proton_sorted(s).contains(x) <==> s.contains(x),
    decreases s.len(),
{
    if s.len() > 0 {
        let r = proton_sorted(s.drop_last());
        lemma_proton_sorted(s.drop_last());
        let x = s.last();
        let p = insert_pos_from(r, x, 0);
        lemma_insert_pos(r, x, 0);
        let r2 = r.insert(p, x);
        assert forall|i: int, j: int| 0 <= i < j < r2.len() implies !proton_before(#[trigger] r2[j], #[trigger] r2[i]) by {
            if j < p {
                assert(r2[i] == r[i] && r2[j] == r[j]);
            } else if j == p {
                assert(r2[i] == r[i] && r2[j] == x);
                if proton_before(x, r[i]) {
                    assert(!proton_before(x, r[i]));
                }
            } else if i > p {
                assert(r2[i] == r[i - 1] && r2[j] == r[j - 1]);
            } else if i == p {
                assert(r2[i] == x && r2[j] == r[j - 1]);
                if proton_before(r[j - 1], x) {
                    lemma_before_transitive(r[j - 1], x, r[p]);
                    if j - 1 == p {
                        lemma_lex_irreflexive(r[p].name);
                        lemma_lex_irreflexive(r[p].source);
                    }
                }
            } else {
                assert(r2[i] == r[i] && r2[j] == r[j - 1]);
            }
        }
        assert forall|y: ProtonView| #[trigger] r2.contains(y) <==> s.contains(y) by {
            assert(s == s.drop_last().push(x));
            if r2.contains(y) {
                let k = choose|k: int| 0 <= k < r2.len() && r2[k] == y;
                if k < p {
                    assert(r[k] == y);
                } else if k > p {
                    assert(r[k - 1] == y);
                }
                if y != x {
                    assert(r.contains(y));
                    let m = choose|m: int| 0 <= m < s.drop_last().len() && s.drop_last()[m] == y;
                    assert(s[m] == y);
                } else {
                    assert(s[s.len() - 1] == y);
                }
            }
            if s.contains(y) {
                let k = choose|k: int| 0 <= k < s.len() && s[k] == y;
                if k == s.len() - 1 {
                    assert(r2[p] == y);
                } else {
                    assert(s.drop_last()[k] == y);
                    assert(r.contains(y));
                    let m = choose|m: int| 0 <= m < r.len() && r[m] == y;
                    if m < p {
                        assert(r2[m] == y);
                    } else {
                        assert(r2[m + 1] == y);
                    }
                }
            }
        }
    }
}

/// The version list is sorted by source, then by name from newest to oldest, and holds
/// every collected version (no more, no fewer).
pub proof fn law_proton_list_sorted(custom: Seq<ProtonCandidate>, alt_custom: Seq<ProtonCandidate>, steam: Seq<ProtonCandidate>)
    ensures
        proton_ordered(proton_sorted(proton_collected(custom, alt_custom, steam))),
        proton_sorted(proton_collected(custom, alt_custom, steam)).len() == proton_collected(custom, alt_custom, steam).len(),
        forall|x: ProtonView| #[trigger] proton_sorted(proton_collected(custom, alt_custom, steam)).contains(x)
            <==> proton_collected(custom, alt_custom, steam).contains(x),
{
    lemma_proton_sorted(proton_collected(custom, alt_custom, steam));
}

fn before_exec(a: &ProtonVersion, b: &ProtonVersion) -> (r: bool)
    ensures
        r == proton_before(a@, b@),
{
    let asrc = chars_of(a.source.as_str());
    let bsrc = chars_of(b.source.as_str());
    let c = compare_chars(&asrc, &bsrc);
    if c != 0 {
        c == -1
    } else {
        let an = chars_of(a.name.as_str());
        let bn = chars_of(b.name.as_str());
        compare_chars(&bn, &an) == -1
    }
}

/// Sorts the versions stably by `proton_before`.
pub fn sort_proton_versions(vs: Vec<ProtonVersion>) -> (r: Vec<ProtonVersion>)
    ensures
        pviews(r@) == proton_sorted(pviews(vs@)),
{
    let ghost input = pviews(vs@);
    let total = vs.len();
    let mut vs = vs;
    let mut r: Vec<ProtonVersion> = Vec::new();
    let mut k: usize = 0;
    assert(input.skip(0) =~= input);
    assert(input.take(0) =~= Seq::<ProtonView>::empty());
    while vs.len() > 0
        invariant
            k + vs.len() == total == input.len(),
            pviews(vs@) == input.skip(k as int),
            pviews(r@) == proton_sorted(input.take(k as int)),
        decreases vs.len(),
    {
        let ghost vs0 = vs@;
        let x = vs.remove(0);
        assert(vs@ == vs0.remove(0));
        let ghost xv = x@;
        assert(xv == input[k as int]) by {
            assert(input.skip(k as int)[0] == input[k as int]);
        }
        let ghost rv = pviews(r@);
        let mut j: usize = 0;
        while j < r.len() && !before_exec(&x, &r[j])
            invariant
                j <= r.len(),
                rv == pviews(r@),
                xv == x@,
                insert_pos_from(rv, xv, j as int) == insert_pos_from(rv, xv, 0),
            decreases r.len() - j,
        {
            assert(rv[j as int] == r@[j as int]@);
            j += 1;
        }
        if j < r.len() {
            assert(rv[j as int] == r@[j as int]@);
        }
        r.insert(j, x);
        proof {
            assert(pviews(r@) =~= rv.insert(j as int, xv));
            assert(input.take(k + 1).drop_last() =~= input.take(k as int));
            assert(input.take(k + 1).last() == xv);
            assert forall|t: int| 0 <= t < vs@.len() implies #[trigger] pviews(vs@)[t] == input.skip(k + 1)[t] by {
                assert(vs@[t] == vs0[t + 1]);
                assert(pviews(vs0)[t + 1] == input.skip(k as int)[t + 1]);
            }
            assert(pviews(vs@) =~= input.skip(k + 1));
        }
        k += 1;
    }
    assert(input.take(total as int) =~= input);
    r
}

/// The Proton versions to offer: the candidates collected as `proton_collected` says,
/// sorted by `proton_before`.
pub fn get_proton_versions(
    custom: Vec<ProtonCandidate>,
    alt_custom: Vec<ProtonCandidate>,
    steam: Vec<ProtonCandidate>,
) -> (r: Vec<ProtonVersion>)
    ensures
        pviews(r@) == proton_sorted(proton_collected(custom@, alt_custom@, steam@)),
{
    let mut acc: Vec<ProtonVersion> = Vec::new();
    let ghost c0 = custom@;
    append_candidates(&mut acc, custom, "custom", false, false);
    assert(pviews(acc@) =~= c0.map_values(|c: ProtonCandidate| candidate_view(c, "custom"@)));
    append_candidates(&mut acc, alt_custom, "custom", false, true);
    append_candidates(&mut acc, steam, "steam", true, true);
    sort_proton_versions(acc)
}


/// A release asset as the GitHub API describes it (fields that are not strings or
/// numbers there are `None`).
pub struct GeAsset {
    pub name: Option<String>,
    pub browser_download_url: Option<String>,
    pub size: Option<u64>,
}

/// A release as the GitHub API describes it.
pub struct GeReleaseInfo {
    pub tag_name: Option<String>,
    pub name: Option<String>,
    pub published_at: Option<String>,
    pub assets: Option<Vec<GeAsset>>,
}

/// A GE-Proton release as plain values.
pub struct GeView {
    pub tag_name: Seq<char>,
    pub name: Seq<char>,
    pub download_url: Seq<char>,
    pub size_bytes: u64,
    pub published_at: Seq<char>,
    pub is_installed: bool,
}

impl View for ProtonGeRelease {
    type V = GeView;

    open spec fn view(&self) -> GeView {
        GeView {
            tag_name: self.tag_name@,
            name: self.name@,
            download_url: self.download_url@,
            size_bytes: self.size_bytes,
            published_at: self.published_at@,
            is_installed: self.is_installed,
        }
    }
}

pub open spec fn or_text(o: Option<String>, d: Seq<char>) -> Seq<char> {
    match o {
        Some(s) => s@,
        None => d,
    }
}

/// The asset is the release's archive.
pub open spec fn is_tarball(a: GeAsset) -> bool {
    ends_with(or_text(a.name, seq![]), ".tar.gz"@)
}

/// An installed version matches a tag when either name contains the other.
pub open spec fn tag_installed(installed: Seq<ProtonVersion>, tag: Seq<char>) -> bool {
    exists|i: int| 0 <= i < installed.len() && (contains(#[trigger] installed[i].name@, tag) || contains(tag, installed[i].name@))
}

/// The entry of one release: from its first `.tar.gz` asset; none without one.
pub open spec fn ge_entry(rel: GeReleaseInfo, installed: Seq<ProtonVersion>) -> Option<GeView> {
    let tag = or_text(rel.tag_name, seq![]);
    match rel.assets {
        None => None,
        Some(assets) => if exists|a: int| 0 <= a < assets@.len() && is_tarball(#[trigger] assets@[a]) {
            let a = choose|a: int| 0 <= a < assets@.len() && is_tarball(#[trigger] assets@[a]) && forall|b: int| 0 <= b < a ==> !is_tarball(#[trigger] assets@[b]);
            Some(GeView {
                tag_name: tag,
                name: or_text(rel.name, tag),
                download_url: or_text(assets@[a].browser_download_url, seq![]),
                size_bytes: match assets@[a].size {
                    Some(n) => n,
                    None => 0,
                },
                published_at: or_text(rel.published_at, seq![]),
                is_installed: tag_installed(installed, tag),
            })
        } else {
            None
        },
    }
}

/// The entries of the first `n` releases, in order.
pub open spec fn ge_entries(rels: Seq<GeReleaseInfo>, installed: Seq<ProtonVersion>, n: int) -> Seq<GeView>
    decreases n,
{
    if n <= 0 {
        seq![]
    } else {
        let prev = ge_entries(rels, installed, n - 1);
        match ge_entry(rels[n - 1], installed) {
            Some(e) => prev.push(e),
            None => prev,
        }
    }
}

fn text_or(o: &Option<String>, d: &str) -> (r: String)
    ensures
        r@ == or_text(*o, d@),
{
    match o {
        Some(s) => s.clone(),
        None => String::from_str(d),
    }
}

fn is_tag_installed(installed: &Vec<ProtonVersion>, tag: &str) -> (b: bool)
    ensures
        b == tag_installed(installed@, tag@),
{
    let mut i: usize = 0;
    while i < installed.len()
        invariant
            i <= installed.len(),
            forall|j: int| 0 <= j < i ==> !(contains(#[trigger] installed@[j].name@, tag@) || contains(tag@, installed@[j].name@)),
        decreases installed.len() - i,
    {
        if str_contains(installed[i].name.as_str(), tag) || str_contains(tag, installed[i].name.as_str()) {
            return true;
        }
        i += 1;
    }
    false
}

/// The GE-Proton releases to offer, from the releases GitHub lists and the installed
/// versions.
pub fn ge_releases(releases: &Vec<GeReleaseInfo>, installed: &Vec<ProtonVersion>) -> (r: Vec<ProtonGeRelease>)
    ensures
        r@.map_values(|g: ProtonGeRelease| g@) == ge_entries(releases@, installed@, releases.len() as int),
{
    let mut r: Vec<ProtonGeRelease> = Vec::new();
    let mut i: usize = 0;
    while i < releases.len()
        invariant
            i <= releases.len(),
            r@.map_values(|g: ProtonGeRelease| g@) == ge_entries(releases@, installed@, i as int),
        decreases releases.len() - i,
    {
        let rel = &releases[i];
        let ghost r0 = r@;
        match &rel.assets {
            None => {},
            Some(assets) => {
                let mut a: usize = 0;
                while a < assets.len()
                    invariant
                        a <= assets.len(),
                        forall|b: int| 0 <= b < a ==> !is_tarball(#[trigger] assets@[b]),
                    ensures
                        a <= assets.len(),
                        forall|b: int| 0 <= b < a ==> !is_tarball(#[trigger] assets@[b]),
                        a < assets.len() ==> is_tarball(assets@[a as int]),
                    decreases assets.len() - a,
                {
                    let aname = text_or(&assets[a].name, "");
                    proof {
                        reveal_strlit("");
                        assert(""@ =~= Seq::<char>::empty());
                    }
                    if str_ends_with(aname.as_str(), ".tar.gz") {
                        break;
                    }
                    a += 1;
                }
                if a < assets.len() {
                    let tag = text_or(&rel.tag_name, "");
                    proof {
                        reveal_strlit("");
                        assert(""@ =~= Seq::<char>::empty());
                    }
                    let name = text_or(&rel.name, tag.as_str());
                    let published_at = text_or(&rel.published_at, "");
                    let download_url = text_or(&assets[a].browser_download_url, "");
                    let size_bytes = match assets[a].size {
                        Some(n) => n,
                        None => 0,
                    };
                    let is_installed = is_tag_installed(installed, tag.as_str());
                    r.push(ProtonGeRelease { tag_name: tag, name, download_url, size_bytes, published_at, is_installed });
                    proof {
                        let e = ge_entry(*rel, installed@);
                        assert(e is Some);
                        let ch = choose|c: int| 0 <= c < assets@.len() && is_tarball(#[trigger] assets@[c]) && forall|b: int| 0 <= b < c ==> !is_tarball(#[trigger] assets@[b]);
                        if ch < a {
                        } else if ch > a {
                            assert(!is_tarball(assets@[a as int]));
                        }
                        assert(ch == a);
                        assert(r@.map_values(|g: ProtonGeRelease| g@) =~= r0.map_values(|g: ProtonGeRelease| g@).push(e->0));
                    }
                } else {
                    assert(ge_entry(*rel, installed@) is None);
                }
            },
        }
        proof {
            assert(releases@[i as int] == *rel);
        }
        i += 1;
        assert(r@.map_values(|g: ProtonGeRelease| g@) =~= ge_entries(releases@, installed@, i as int));
    }
    r
}


/// Where a GE-Proton release is unpacked, and the name of its downloaded archive.
pub fn ge_install_paths(home: &str, tag_name: &str) -> (r: (String, String))
    ensures
        r.0@ == home@ + "/.steam/steam/compatibilitytools.d"@,
        r.1@ == tag_name@ + ".tar.gz"@,
{
    let mut dir = String::from_str(home);
    dir.append("/.steam/steam/compatibilitytools.d");
    let mut archive = String::from_str(tag_name);
    archive.append(".tar.gz");
    (dir, archive)
}

/// The message of a finished GE-Proton installation.
pub fn ge_installed_message(tag_name: &str) -> (r: String)
    ensures
        r@ == "GE-Proton "@ + tag_name@ + " installed successfully"@,
{
    let mut r = String::from_str("GE-Proton ");
    r.append(tag_name);
    r.append(" installed successfully");
    r
}

} // verus!
