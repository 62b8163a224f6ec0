//! Steam `.acf` app manifests: reading key/value pairs and building a game record.
use vstd::prelude::*;
use crate::paths::{extension_fits, is_plain_name, is_slash_path, same_path, same_slash_path};
use crate::text::{
    all_ascii, ascii_lower, chars_of, concat_chars, concat_str, contains, ends_with, find, find_char,
    find_char_in, find_in,
    lines, lowercase, next_line, replace_char, replace_char_exec, split_char, split_ranges,
    starts_with, str_ends_with, str_starts_with, string_of, string_of_range, to_lowercase, trim,
    trim_range,
};
use crate::number::{
    int_error_message, int_error_text, lemma_parse_unsigned_bound, parse_uint, parse_unsigned,
    IntErrorKind,
};

verus! {

broadcast use vstd::string::group_string_axioms;

/// One installed game as described by its app manifest.
#[derive(Debug, Clone)]
pub struct AcfGame {
    pub app_id: u32,
    pub name: String,
    pub install_dir: String,
    pub state_flags: u32,
    pub last_updated: u64,
    pub size_on_disk: u64,
    pub library_path: String,
}

/// `"key"`: the key in quotes, as it stands in a manifest line.
pub open spec fn quoted(key: Seq<char>) -> Seq<char> {
    seq!['"'] + key + seq!['"']
}

/// The value that follows the first occurrence of `pat` in `line`: the text between
/// the next two double quotes after it.
pub open spec fn value_after(line: Seq<char>, pat: Seq<char>) -> Option<Seq<char>> {
    match find(line, pat) {
        None => None,
        Some(p) => {
            let rest = line.skip(p + pat.len());
            match find_char(rest, '"') {
                None => None,
                Some(q) => {
                    let after = rest.skip(q + 1);
                    match find_char(after, '"') {
                        None => None,
                        Some(r) => Some(after.take(r)),
                    }
                },
            }
        },
    }
}

/// The value of the first line (trimmed) that yields one for `pat`.
pub open spec fn first_value(ls: Seq<Seq<char>>, pat: Seq<char>) -> Option<Seq<char>>
    decreases ls.len(),
{
    if ls.len() == 0 {
        None
    } else {
        match value_after(trim(ls[0]), pat) {
            Some(v) => Some(v),
            None => first_value(ls.drop_first(), pat),
        }
    }
}

/// The value of `key` in manifest text: from the first line holding `"key"`
/// followed by a quoted value.
pub open spec fn acf_value(content: Seq<char>, key: Seq<char>) -> Option<Seq<char>> {
    first_value(lines(content), quoted(key))
}

/// The bounds in `cs` of `value_after(cs[lo..hi], pat)`.
fn value_in_range(cs: &Vec<char>, lo: usize, hi: usize, pat: &Vec<char>) -> (r: Option<(usize, usize)>)
    requires
        lo <= hi <= cs.len(),
    ensures
        match r {
            Some((x, y)) => lo <= x <= y <= hi && value_after(cs@.subrange(lo as int, hi as int), pat@)
                == Some(cs@.subrange(x as int, y as int)),
            None => value_after(cs@.subrange(lo as int, hi as int), pat@) is None,
        },
{
    let ghost line = cs@.subrange(lo as int, hi as int);
    match find_in(cs, lo, hi, pat) {
        None => None,
        Some(p) => {
            let key_end = p + pat.len();
            let ghost rest = line.skip(p - lo + pat.len());
            assert(rest =~= cs@.subrange(key_end as int, hi as int));
            match find_char_in(cs, key_end, hi, '"') {
                None => None,
                Some(q) => {
                    let ghost after = rest.skip(q - key_end + 1);
                    assert(after =~= cs@.subrange(q + 1, hi as int));
                    match find_char_in(cs, q + 1, hi, '"') {
                        None => None,
                        Some(e) => {
                            assert(after.take(e - (q + 1)) =~= cs@.subrange(q + 1, e as int));
                            Some((q + 1, e))
                        },
                    }
                },
            }
        },
    }
}

/// `"key"` as characters.
fn quoted_chars(key: &str) -> (r: Vec<char>)
    ensures
        r@ == quoted(key@),
{
    let mut r: Vec<char> = Vec::new();
    r.push('"');
    let k = chars_of(key);
    let mut r = concat_chars(&r, &k);
    r.push('"');
    assert(r@ =~= quoted(key@));
    r
}

/// Extracts the value of `key` from the text of a `.acf` manifest: the quoted text
/// after the first `"key"` on the first line that has both.
pub fn extract_value<'a>(content: &'a str, key: &str) -> (r: Option<&'a str>)
    ensures
        match r {
            Some(v) => acf_value(content@, key@) == Some(v@),
            None => acf_value(content@, key@) is None,
        },
{
    let cs = chars_of(content);
    let pat = quoted_chars(key);
    let n = cs.len();
    assert(cs@.subrange(0, n as int) =~= cs@);
    let mut pos: usize = 0;
    while pos < n
        invariant
            pos <= n == cs.len(),
            cs@ == content@,
            pat@ == quoted(key@),
            acf_value(content@, key@) == first_value(
                lines(cs@.subrange(pos as int, n as int)),
                pat@,
            ),
        decreases n - pos,
    {
        let (a, b, next) = next_line(&cs, pos);
        let (ta, tb) = trim_range(&cs, a, b);
        let ghost ls = lines(cs@.subrange(pos as int, n as int));
        assert(ls[0] == cs@.subrange(a as int, b as int));
        assert(ls.drop_first() =~= lines(cs@.subrange(next as int, n as int)));
        match value_in_range(&cs, ta, tb, &pat) {
            Some((x, y)) => {
                return Some(content.substring_char(x, y));
            },
            None => {},
        }
        pos = next;
    }
    assert(cs@.subrange(n as int, n as int) =~= Seq::<char>::empty());
    None
}

/// The number read from an optional value, or 0 when it is missing or not a number
/// (`value.unwrap_or("0").parse().unwrap_or(0)`).
pub open spec fn number_or_zero(v: Option<Seq<char>>, max: nat) -> nat {
    match v {
        Some(s) => match parse_unsigned(s, max) {
            Ok(n) => n,
            Err(_) => 0,
        },
        None => 0,
    }
}

fn number_or_zero_exec(v: Option<&str>, max: u64) -> (n: u64)
    ensures
        n <= max,
        n as nat == number_or_zero(
            match v {
                Some(s) => Some(s@),
                None => None,
            },
            max as nat,
        ),
{
    match v {
        Some(s) => {
            let cs = chars_of(s);
            assert(cs@.subrange(0, cs.len() as int) =~= cs@);
            proof {
                lemma_parse_unsigned_bound(cs@, max as nat);
            }
            match parse_uint(&cs, 0, cs.len(), max) {
                Ok(n) => n,
                Err(_) => 0,
            }
        },
        None => 0,
    }
}

pub open spec fn u32_max() -> nat {
    0xffff_ffff
}

pub open spec fn u64_max() -> nat {
    0xffff_ffff_ffff_ffff
}

/// Builds the game record from the text of an app manifest found in `library_path`.
///
/// Errors: `Missing appid`, `Invalid appid: ...`, `Missing name`, `Missing installdir`,
/// in that order of precedence. `StateFlags`, `LastUpdated` and `SizeOnDisk` default to 0.
pub fn parse_acf_content(content: &str, library_path: String) -> (r: Result<AcfGame, String>)
    ensures
        acf_value(content@, "appid"@) is None ==> (r matches Err(e) && e@ == "Missing appid"@),
        acf_value(content@, "appid"@) matches Some(v) ==> (parse_unsigned(v, u32_max()) matches Err(
            k,
        ) ==> (r matches Err(e) && e@ == "Invalid appid: "@ + int_error_text(k))),
        acf_value(content@, "appid"@) matches Some(v) ==> (parse_unsigned(v, u32_max()) is Ok ==> {
            &&& acf_value(content@, "name"@) is None ==> (r matches Err(e) && e@
                == "Missing name"@)
            &&& acf_value(content@, "name"@) is Some && acf_value(content@, "installdir"@) is None
                ==> (r matches Err(e) && e@ == "Missing installdir"@)
            &&& acf_value(content@, "name"@) is Some && acf_value(content@, "installdir"@) is Some
                ==> (r matches Ok(g) && {
                &&& Ok::<nat, IntErrorKind>(g.app_id as nat) == parse_unsigned(v, u32_max())
                &&& Some(g.name@) == acf_value(content@, "name"@)
                &&& Some(g.install_dir@) == acf_value(content@, "installdir"@)
                &&& g.state_flags == number_or_zero(acf_value(content@, "StateFlags"@), u32_max())
                &&& g.last_updated == number_or_zero(acf_value(content@, "LastUpdated"@), u64_max())
                &&& g.size_on_disk == number_or_zero(acf_value(content@, "SizeOnDisk"@), u64_max())
                &&& g.library_path == library_path
            })
        }),
{
    let app_id_text = match extract_value(content, "appid") {
        Some(v) => v,
        None => {
            return Err(String::from_str("Missing appid"));
        },
    };
    let id_chars = chars_of(app_id_text);
    assert(id_chars@.subrange(0, id_chars.len() as int) =~= id_chars@);
    proof {
        lemma_parse_unsigned_bound(id_chars@, u32_max());
    }
    let app_id = match parse_uint(&id_chars, 0, id_chars.len(), 0xffff_ffff) {
        Ok(n) => n as u32,
        Err(k) => {
            return Err(concat_str("Invalid appid: ", int_error_message(k)));
        },
    };
    let name = match extract_value(content, "name") {
        Some(v) => String::from_str(v),
        None => {
            return Err(String::from_str("Missing name"));
        },
    };
    let install_dir = match extract_value(content, "installdir") {
        Some(v) => String::from_str(v),
        None => {
            return Err(String::from_str("Missing installdir"));
        },
    };
    let state_flags = number_or_zero_exec(extract_value(content, "StateFlags"), 0xffff_ffff) as u32;
    let last_updated = number_or_zero_exec(extract_value(content, "LastUpdated"), 0xffff_ffff_ffff_ffff);
    let size_on_disk = number_or_zero_exec(extract_value(content, "SizeOnDisk"), 0xffff_ffff_ffff_ffff);
    Ok(AcfGame { app_id, name, install_dir, state_flags, last_updated, size_on_disk, library_path })
}


/// `\\` pairs collapsed to one backslash, left to right (`str::replace("\\\\", "\\")`).
pub open spec fn collapse_backslashes(s: Seq<char>) -> Seq<char>
    decreases s.len(),
{
    if s.len() == 0 {
        seq![]
    } else if s.len() >= 2 && s[0] == '\\' && s[1] == '\\' {
        seq!['\\'] + collapse_backslashes(s.skip(2))
    } else {
        seq![s[0]] + collapse_backslashes(s.skip(1))
    }
}

/// Whether text looks like a path: it has a drive colon, or starts with `/` or `\`.
pub open spec fn looks_like_path(p: Seq<char>) -> bool {
    p.contains(':') || (p.len() > 0 && (p[0] == '/' || p[0] == '\\'))
}

/// The quoted field of a `libraryfolders.vdf` line that may name a library: the value
/// of a `"key" "value"` line (`"path" "..."` in the newer format, `"1" "..."` in the
/// older one), else the only quoted field.
pub open spec fn folder_field(parts: Seq<Seq<char>>) -> Seq<char> {
    if parts.len() >= 5 {
        parts[3]
    } else {
        parts[1]
    }
}

/// The library path a line of `libraryfolders.vdf` names, if any: its trimmed value
/// field (see `folder_field`) on a line with at least two quotes, when it looks like a
/// path, with doubled backslashes collapsed.
pub open spec fn folder_in_line(raw: Seq<char>) -> Option<Seq<char>> {
    let t = trim(raw);
    let parts = split_char(t, '"');
    if t.contains('"') && parts.len() >= 3 && looks_like_path(trim(folder_field(parts))) {
        Some(collapse_backslashes(trim(folder_field(parts))))
    } else {
        None
    }
}

/// The library paths named by the lines, in order.
pub open spec fn folders_in_lines(ls: Seq<Seq<char>>) -> Seq<Seq<char>>
    decreases ls.len(),
{
    if ls.len() == 0 {
        seq![]
    } else {
        match folder_in_line(ls[0]) {
            Some(p) => seq![p] + folders_in_lines(ls.drop_first()),
            None => folders_in_lines(ls.drop_first()),
        }
    }
}

fn collapse_backslashes_range(cs: &Vec<char>, lo: usize, hi: usize) -> (r: String)
    requires
        lo <= hi <= cs.len(),
    ensures
        r@ == collapse_backslashes(cs@.subrange(lo as int, hi as int)),
{
    let mut r = String::new();
    let mut i = lo;
    while i < hi
        invariant
            lo <= i <= hi <= cs.len(),
            r@ + collapse_backslashes(cs@.subrange(i as int, hi as int)) == collapse_backslashes(cs@.subrange(lo as int, hi as int)),
        decreases hi - i,
    {
        let ghost t = cs@.subrange(i as int, hi as int);
        if i + 1 < hi && cs[i] == '\\' && cs[i + 1] == '\\' {
            assert(t.skip(2) =~= cs@.subrange(i + 2, hi as int));
            crate::text::push_char(&mut r, '\\');
            i += 2;
        } else {
            assert(t.skip(1) =~= cs@.subrange(i + 1, hi as int));
            crate::text::push_char(&mut r, cs[i]);
            i += 1;
        }
    }
    assert(cs@.subrange(hi as int, hi as int) =~= Seq::<char>::empty());
    r
}

fn range_has_char(cs: &Vec<char>, lo: usize, hi: usize, c: char) -> (b: bool)
    requires
        lo <= hi <= cs.len(),
    ensures
        b == cs@.subrange(lo as int, hi as int).contains(c),
{
    let r = find_char_in(cs, lo, hi, c);
    proof {
        crate::text::lemma_find_char_from(cs@.subrange(lo as int, hi as int), c, 0);
    }
    r.is_some()
}

/// The library paths named in the text of `libraryfolders.vdf` (whether they exist is
/// for the caller to check).
pub fn library_folder_candidates(content: &str) -> (r: Vec<String>)
    ensures
        r@.map_values(|s: String| s@) == folders_in_lines(lines(content@)),
{
    let cs = chars_of(content);
    let n = cs.len();
    assert(cs@.subrange(0, n as int) =~= cs@);
    let mut r: Vec<String> = Vec::new();
    let mut pos: usize = 0;
    while pos < n
        invariant
            pos <= n == cs.len(),
            cs@ == content@,
            r@.map_values(|s: String| s@) + folders_in_lines(lines(cs@.subrange(pos as int, n as int))) == folders_in_lines(
                lines(content@),
            ),
        decreases n - pos,
    {
        let (a, b, next) = next_line(&cs, pos);
        let (ta, tb) = trim_range(&cs, a, b);
        let ghost ls = lines(cs@.subrange(pos as int, n as int));
        assert(ls[0] == cs@.subrange(a as int, b as int));
        assert(ls.drop_first() =~= lines(cs@.subrange(next as int, n as int)));
        let ghost rv = r@.map_values(|s: String| s@);
        if range_has_char(&cs, ta, tb, '"') {
            let parts = split_ranges(&cs, ta, tb, '"');
            if parts.len() >= 3 {
                let field = if parts.len() >= 5 {
                    parts[3]
                } else {
                    parts[1]
                };
                let (pa, pb) = trim_range(&cs, field.0, field.1);
                let ghost p = cs@.subrange(pa as int, pb as int);
                let looks = range_has_char(&cs, pa, pb, ':') || (pa < pb && (cs[pa] == '/' || cs[pa] == '\\'));
                if looks {
                    assert(p.len() > 0 ==> p[0] == cs@[pa as int]);
                    let path = collapse_backslashes_range(&cs, pa, pb);
                    r.push(path);
                    assert(r@.map_values(|s: String| s@) =~= rv.push(path@));
                    assert(rv.push(path@) + folders_in_lines(ls.drop_first()) =~= rv + (seq![path@] + folders_in_lines(
                        ls.drop_first(),
                    )));
                } else {
                    assert(p.len() > 0 ==> p[0] == cs@[pa as int]);
                }
            }
        }
        pos = next;
    }
    assert(cs@.subrange(n as int, n as int) =~= Seq::<char>::empty());
    assert(r@.map_values(|s: String| s@) + seq![] =~= r@.map_values(|s: String| s@));
    r
}

/// Whether an entry of `steamapps` is an app manifest: `appmanifest_*.acf` (the file's
/// extension is `acf` exactly when the name, which has no dot in its prefix, ends with
/// `.acf`).
pub fn is_app_manifest_file_name(file_name: &str) -> (b: bool)
    ensures
        b == (starts_with(file_name@, "appmanifest_"@) && ends_with(file_name@, ".acf"@)),
{
    str_starts_with(file_name, "appmanifest_") && str_ends_with(file_name, ".acf")
}

/// The file names to try for a game's executable, in order: the game's name and its
/// install directory's name, lower-cased without spaces, with `.exe`; then `game.exe`
/// and `main.exe`.
pub open spec fn executable_candidates(name: Seq<char>, install_dir: Seq<char>) -> Seq<Seq<char>> {
    seq![
        replace_char(lowercase(name), ' ', seq![]) + ".exe"@,
        replace_char(lowercase(install_dir), ' ', seq![]) + ".exe"@,
        "game.exe"@,
        "main.exe"@,
    ]
}

/// Text that the executable-name rule leaves as it is: ASCII, with no capital letter
/// and no space.
pub open spec fn plain_lower_ascii(s: Seq<char>) -> bool {
    &&& all_ascii(s)
    &&& forall|i: int| 0 <= i < s.len() ==> !('A' <= #[trigger] s[i] && s[i] <= 'Z') && s[i] != ' '
}

proof fn lemma_replace_absent(s: Seq<char>, c: char, t: Seq<char>)
    requires
        !s.contains(c),
    ensures
        replace_char(s, c, t) == s,
    decreases s.len(),
{
    if s.len() > 0 {
        assert(!s.drop_last().contains(c)) by {
            if s.drop_last().contains(c) {
                let k = choose|k: int| 0 <= k < s.drop_last().len() && s.drop_last()[k] == c;
                assert(s[k] == c);
            }
        }
        lemma_replace_absent(s.drop_last(), c, t);
        assert(s.last() != c) by {
            assert(s[s.len() - 1] == s.last());
        }
        assert(s.drop_last() + seq![s.last()] =~= s);
    }
}

proof fn lemma_plain_candidate(s: Seq<char>)
    requires
        plain_lower_ascii(s),
    ensures
        replace_char(lowercase(s), ' ', seq![]) == s,
{
    assert(ascii_lower(s) =~= s);
    assert(!s.contains(' ')) by {
        if s.contains(' ') {
            let k = choose|k: int| 0 <= k < s.len() && s[k] == ' ';
            assert(s[k] != ' ');
        }
    }
    lemma_replace_absent(s, ' ', seq![]);
}

/// The executable names tried for a game: four of them; the first comes from the
/// game's name alone and the second from its install directory alone, the directory
/// giving the same name the game's name would if it were the same text; a name or
/// directory that is already lower-case ASCII without spaces gives itself with `.exe`;
/// then `game.exe` and `main.exe`.
pub proof fn law_executable_candidates(
    name: Seq<char>,
    other_name: Seq<char>,
    install_dir: Seq<char>,
    other_dir: Seq<char>,
)
    ensures
        executable_candidates(name, install_dir).len() == 4,
        executable_candidates(name, install_dir)[0] == executable_candidates(name, other_dir)[0],
        executable_candidates(name, install_dir)[1] == executable_candidates(other_name, install_dir)[1],
        executable_candidates(name, install_dir)[1] == executable_candidates(install_dir, other_dir)[0],
        plain_lower_ascii(name) ==> executable_candidates(name, install_dir)[0] == name + ".exe"@,
        plain_lower_ascii(install_dir) ==> executable_candidates(name, install_dir)[1] == install_dir
            + ".exe"@,
        executable_candidates(name, install_dir)[2] == "game.exe"@,
        executable_candidates(name, install_dir)[3] == "main.exe"@,
{
    if plain_lower_ascii(name) {
        lemma_plain_candidate(name);
    }
    if plain_lower_ascii(install_dir) {
        lemma_plain_candidate(install_dir);
    }
}

fn squeezed_exe_name(s: &str) -> (r: String)
    ensures
        r@ == replace_char(lowercase(s@), ' ', seq![]) + ".exe"@,
{
    let l = to_lowercase(s);
    let lc = chars_of(l.as_str());
    let empty: Vec<char> = Vec::new();
    assert(empty@ =~= Seq::<char>::empty());
    let mut r = string_of(&replace_char_exec(&lc, ' ', &empty));
    r.append(".exe");
    r
}

/// The executable names to try for a game (see `executable_candidates`).
pub fn executable_name_candidates(game: &AcfGame) -> (r: Vec<String>)
    ensures
        r@.map_values(|s: String| s@) == executable_candidates(game.name@, game.install_dir@),
{
    let mut r: Vec<String> = Vec::new();
    r.push(squeezed_exe_name(game.name.as_str()));
    r.push(squeezed_exe_name(game.install_dir.as_str()));
    r.push(String::from_str("game.exe"));
    r.push(String::from_str("main.exe"));
    assert(r@.map_values(|s: String| s@) =~= executable_candidates(game.name@, game.install_dir@));
    r
}

/// The largest `.exe` found, by size: the first of the largest.
pub fn largest_exe_index(sizes: &Vec<u64>) -> (r: Option<usize>)
    ensures
        sizes.len() == 0 <==> r is None,
        r matches Some(i) ==> i < sizes.len() && (forall|j: int| 0 <= j < sizes.len() ==> sizes@[j] <= sizes@[i as int])
            && (forall|j: int| 0 <= j < i ==> sizes@[j] < sizes@[i as int]),
{
    if sizes.len() == 0 {
        return None;
    }
    let mut best: usize = 0;
    let mut i: usize = 1;
    while i < sizes.len()
        invariant
            0 < sizes.len(),
            best < i <= sizes.len(),
            forall|j: int| 0 <= j < i ==> sizes@[j] <= sizes@[best as int],
            forall|j: int| 0 <= j < best ==> sizes@[j] < sizes@[best as int],
        decreases sizes.len() - i,
    {
        if sizes[i] > sizes[best] {
            best = i;
        }
        i += 1;
    }
    Some(best)
}

/// For each library path, whether `Path::eq` found it equal to the Steam root, as far as
/// that holds on every platform: a path spelled like the root is equal to it, two plain
/// names are equal exactly when spelled alike, and two `/`-separated paths exactly when
/// their components are alike.
pub open spec fn listed_fits(library_paths: Seq<String>, root: Seq<char>, listed: Seq<bool>) -> bool {
    &&& listed.len() == library_paths.len()
    &&& forall|i: int| 0 <= i < listed.len() ==> {
        &&& (#[trigger] library_paths[i])@ == root ==> listed[i]
        &&& (is_plain_name(library_paths[i]@) && is_plain_name(root)) ==> (listed[i] <==> library_paths[i]@ == root)
        &&& (is_slash_path(library_paths[i]@) && is_slash_path(root)) ==> (listed[i] <==> same_slash_path(library_paths[i]@, root))
    }
}

/// The library paths with the Steam root added at the end, unless one of them was found
/// equal to it.
pub open spec fn with_steam_root(library_paths: Seq<String>, root: String, listed: Seq<bool>) -> Seq<String> {
    if listed.contains(true) {
        library_paths
    } else {
        library_paths.push(root)
    }
}

/// Adds the Steam root to the library paths unless `listed` marks one of them as equal
/// to it.
pub fn add_steam_root(library_paths: Vec<String>, root: String, listed: &Vec<bool>) -> (r: Vec<String>)
    ensures
        r@ == with_steam_root(library_paths@, root, listed@),
{
    let mut any = false;
    let mut i: usize = 0;
    while i < listed.len()
        invariant
            i <= listed.len(),
            any <==> exists|j: int| 0 <= j < i && #[trigger] listed@[j],
        decreases listed.len() - i,
    {
        if listed[i] {
            any = true;
        }
        i += 1;
    }
    assert(any <==> listed@.contains(true)) by {
        if listed@.contains(true) {
            let j = choose|j: int| 0 <= j < listed@.len() && listed@[j] == true;
            assert(listed@[j]);
        }
    }
    let mut all = library_paths;
    if !any {
        all.push(root);
    }
    all
}

/// All library paths: those from `libraryfolders.vdf`, then the Steam root itself unless
/// `Path::eq` finds it among them already. A path spelled like the root is always
/// found; plain names are found exactly when spelled alike, and `/`-separated paths
/// exactly when their components are alike (`/s/` is `/s`). Whether other differently
/// spelled paths count as one is the platform's to decide. The root is always added to
/// an empty list.
pub fn get_all_steam_paths(steam_root: Option<String>, library_paths: Vec<String>) -> (r: Vec<String>)
    ensures
        steam_root is None ==> r@ == library_paths@,
        steam_root matches Some(root) ==> exists|listed: Seq<bool>|
            #[trigger] listed_fits(library_paths@, root@, listed) && r@ == with_steam_root(library_paths@, root, listed),
{
    match steam_root {
        None => library_paths,
        Some(root) => {
            let mut listed: Vec<bool> = Vec::new();
            let mut i: usize = 0;
            while i < library_paths.len()
                invariant
                    i <= library_paths.len(),
                    listed.len() == i,
                    forall|j: int| 0 <= j < i ==> {
                        &&& (#[trigger] library_paths@[j])@ == root@ ==> listed@[j]
                        &&& (is_plain_name(library_paths@[j]@) && is_plain_name(root@)) ==> (listed@[j] <==> library_paths@[j]@ == root@)
                        &&& (is_slash_path(library_paths@[j]@) && is_slash_path(root@)) ==> (listed@[j] <==> same_slash_path(library_paths@[j]@, root@))
                    },
                decreases library_paths.len() - i,
            {
                let same = same_path(library_paths[i].as_str(), root.as_str());
                listed.push(same);
                i += 1;
            }
            let ghost l = listed@;
            let r = add_steam_root(library_paths, root, &listed);
            assert(listed_fits(library_paths@, root@, l));
            r
        },
    }
}

/// Whether a file extension is that of a manifest (`acf`, exactly).
pub fn is_acf_extension(ext: Option<String>) -> (b: bool)
    ensures
        b == (ext matches Some(x) && x@ == "acf"@),
{
    match ext {
        Some(x) => crate::text::str_eq(x.as_str(), "acf"),
        None => false,
    }
}

/// Extensions that `Path::extension` may give for the paths, one for each, as far as
/// that holds on every platform (see `extension_fits`).
pub open spec fn extensions_fit(paths: Seq<String>, exts: Seq<Option<Seq<char>>>) -> bool {
    &&& exts.len() == paths.len()
    &&& forall|i: int| 0 <= i < paths.len() ==> extension_fits(#[trigger] paths[i]@, exts[i])
}

/// One of the extensions is `acf`.
pub open spec fn has_acf(exts: Seq<Option<Seq<char>>>) -> bool {
    exists|i: int| 0 <= i < exts.len() && #[trigger] exts[i] == Some("acf"@)
}

/// Whether a change touched a manifest: some changed path has the extension `acf`, as
/// `Path::extension` finds it. Which part of a path is its extension is the platform's
/// to decide; a plain name's extension is what follows its last `.`.
pub fn manifest_changed(paths: &Vec<String>) -> (b: bool)
    ensures
        exists|exts: Seq<Option<Seq<char>>>| #[trigger] extensions_fit(paths@, exts) && b == has_acf(exts),
{
    let ghost mut exts: Seq<Option<Seq<char>>> = seq![];
    let mut found = false;
    let mut i: usize = 0;
    while i < paths.len()
        invariant
            i <= paths.len(),
            exts.len() == i,
            forall|j: int| 0 <= j < i ==> extension_fits(#[trigger] paths@[j]@, exts[j]),
            found == exists|j: int| 0 <= j < i && #[trigger] exts[j] == Some("acf"@),
        decreases paths.len() - i,
    {
        let ext = crate::paths::path_extension(paths[i].as_str());
        let ghost e: Option<Seq<char>> = match &ext {
            Some(x) => Some(x@),
            None => None,
        };
        let acf = is_acf_extension(ext);
        proof {
            let old_exts = exts;
            exts = exts.push(e);
            assert forall|j: int| 0 <= j < i + 1 implies extension_fits(#[trigger] paths@[j]@, exts[j]) by {
                if j < i {
                    assert(exts[j] == old_exts[j]);
                }
            }
            if acf {
                assert(exts[i as int] == Some("acf"@));
            }
            assert((exists|j: int| 0 <= j < i + 1 && #[trigger] exts[j] == Some("acf"@)) == (found || acf)) by {
                if exists|j: int| 0 <= j < i + 1 && #[trigger] exts[j] == Some("acf"@) {
                    let j = choose|j: int| 0 <= j < i + 1 && #[trigger] exts[j] == Some("acf"@);
                    if j < i {
                        assert(old_exts[j] == exts[j]);
                    }
                }
                if found {
                    let j = choose|j: int| 0 <= j < i && #[trigger] old_exts[j] == Some("acf"@);
                    assert(exts[j] == old_exts[j]);
                }
            }
        }
        found = found || acf;
        i += 1;
    }
    assert(extensions_fit(paths@, exts));
    found
}

} // verus!
