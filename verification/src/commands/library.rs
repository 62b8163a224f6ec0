//! Library records: the game and payload types, and the name a custom game gets from
//! its executable's path.
use vstd::prelude::*;
use crate::text::{chars_of, contains, is_ws, is_ws_exec, push_char, string_of_range, to_uppercase_char, uppercase};
use crate::paths::{file_name_fits, is_plain_name, is_slash_path, path_file_name, slash_file_name};
use crate::ordering::views;

verus! {

broadcast use vstd::string::group_string_axioms;

/// A game of the library, as the frontend sees it.
#[derive(Debug, Clone)]
pub struct Game {
    pub id: String,
    pub name: String,
    pub source: String,
    pub drm_type: String,
    pub launch_method: String,
    pub executable_path: Option<String>,
    pub launch_args: Option<String>,
    pub steam_app_id: Option<i64>,
    pub cover_url: Option<String>,
    pub background_url: Option<String>,
    pub genre: Option<String>,
    pub developer: Option<String>,
    pub release_year: Option<i64>,
    pub steam_playtime_s: Option<i64>,
    pub is_installed: bool,
    pub is_favourite: bool,
    pub added_at: i64,
    pub last_synced_at: Option<i64>,
    pub wither_playtime_s: i64,
    pub last_played_at: i64,
    pub session_count: i64,
}

/// A request to add a custom game.
#[derive(Debug, Clone)]
pub struct AddGamePayload {
    pub name: Option<String>,
    pub executable_path: String,
    pub cover_path: Option<String>,
    pub launch_args: Option<Vec<String>>,
}

/// A request to edit a custom game.
#[derive(Debug, Clone)]
pub struct UpdateGamePayload {
    pub game_id: String,
    pub name: String,
    pub executable_path: String,
    pub cover_url: Option<String>,
}

/// Index of the last `.` before index `j`, or -1.
pub open spec fn last_dot_before(s: Seq<char>, j: int) -> int
    decreases j,
{
    if j <= 0 {
        -1
    } else if s[j - 1] == '.' {
        j - 1
    } else {
        last_dot_before(s, j - 1)
    }
}

/// The stem of a file name, as `Path::file_stem` documents it: the whole name when it
/// has no `.` or only a leading one, else the part before the last `.`.
pub open spec fn file_stem_of(name: Seq<char>) -> Seq<char> {
    let p = last_dot_before(name, name.len() as int);
    if p <= 0 {
        name
    } else {
        name.subrange(0, p)
    }
}

pub open spec fn is_name_sep(c: char) -> bool {
    c == '_' || c == '-' || c == '.'
}

/// `s` with `_`, `-` and `.` replaced by spaces.
pub open spec fn spaced(s: Seq<char>) -> Seq<char> {
    Seq::new(s.len(), |k: int| if is_name_sep(s[k]) { ' ' } else { s[k] })
}

/// Index of the first whitespace at or after `i`, or the length.
pub open spec fn next_ws_from(s: Seq<char>, i: int) -> int
    decreases s.len() - i,
{
    if 0 <= i < s.len() && !is_ws(s[i]) {
        next_ws_from(s, i + 1)
    } else {
        i
    }
}

/// The whitespace-separated words of `s` from index `i` on (what `split_whitespace`
/// yields).
pub open spec fn words_from(s: Seq<char>, i: int) -> Seq<Seq<char>>
    decreases s.len() - i,
{
    let a = crate::text::skip_ws_from(s, i);
    if i < 0 || a >= s.len() {
        seq![]
    } else {
        let b = next_ws_from(s, a);
        if b <= i || b > s.len() {
            seq![]
        } else {
            seq![s.subrange(a, b)] + words_from(s, b)
        }
    }
}

/// A word with its first character in uppercase.
pub open spec fn title(w: Seq<char>) -> Seq<char> {
    uppercase(w[0]) + w.drop_first()
}

/// The title-cased words joined by single spaces.
pub open spec fn join_titles(ws: Seq<Seq<char>>) -> Seq<char>
    decreases ws.len(),
{
    if ws.len() == 0 {
        seq![]
    } else if ws.len() == 1 {
        title(ws[0])
    } else {
        title(ws[0]) + " "@ + join_titles(ws.drop_first())
    }
}

/// The display name made from a file name: its stem with `_`, `-` and `.` read as
/// spaces, each word title-cased, words joined by single spaces; empty without a file
/// name.
pub open spec fn name_from_file(file_name: Option<Seq<char>>) -> Seq<char> {
    let stem = match file_name {
        Some(f) => file_stem_of(f),
        None => seq![],
    };
    join_titles(words_from(spaced(stem), 0))
}

/// What is still to be written after the words already written.
pub open spec fn pending_titles(first: bool, ws: Seq<Seq<char>>) -> Seq<char> {
    if ws.len() == 0 {
        seq![]
    } else if first {
        join_titles(ws)
    } else {
        " "@ + join_titles(ws)
    }
}

pub proof fn lemma_next_ws_from(s: Seq<char>, i: int)
    requires
        0 <= i <= s.len(),
    ensures
        i <= next_ws_from(s, i) <= s.len(),
        forall|k: int| i <= k < next_ws_from(s, i) ==> !is_ws(s[k]),
        next_ws_from(s, i) < s.len() ==> is_ws(s[next_ws_from(s, i)]),
    decreases s.len() - i,
{
    if i < s.len() && !is_ws(s[i]) {
        lemma_next_ws_from(s, i + 1);
    }
}

/// The stem of a file name (`Path::file_stem` on a bare file name).
pub fn file_stem(name: &str) -> (r: String)
    ensures
        r@ == file_stem_of(name@),
{
    let cs = chars_of(name);
    let n = cs.len();
    let mut k = n;
    while k > 0 && cs[k - 1] != '.'
        invariant
            k <= n == cs.len(),
            cs@ == name@,
            last_dot_before(cs@, n as int) == last_dot_before(cs@, k as int),
        decreases k,
    {
        k -= 1;
    }
    if k <= 1 {
        String::from_str(name)
    } else {
        string_of_range(&cs, 0, k - 1)
    }
}

/// The display name made from a file name, or the empty name without one.
pub fn name_from_file_name(file_name: Option<&str>) -> (r: String)
    ensures
        r@ == name_from_file(
            match file_name {
                Some(f) => Some(f@),
                None => None,
            },
        ),
{
    let stem = match file_name {
        Some(f) => file_stem(f),
        None => String::new(),
    };
    let cs = chars_of(stem.as_str());
    let n = cs.len();
    let mut sp: Vec<char> = Vec::new();
    let mut i: usize = 0;
    while i < n
        invariant
            i <= n == cs.len(),
            sp.len() == i,
            forall|k: int| 0 <= k < i ==> sp@[k] == (if is_name_sep(cs@[k]) { ' ' } else { cs@[k] }),
        decreases n - i,
    {
        let c = cs[i];
        if c == '_' || c == '-' || c == '.' {
            sp.push(' ');
        } else {
            sp.push(c);
        }
        i += 1;
    }
    assert(sp@ =~= spaced(stem@));
    let ghost target = join_titles(words_from(sp@, 0));
    let mut out = String::new();
    let mut first = true;
    let mut pos: usize = 0;
    assert(out@ + pending_titles(first, words_from(sp@, 0)) =~= target);
    while pos < n
        invariant
            pos <= n == sp.len(),
            target == join_titles(words_from(sp@, 0)),
            target == out@ + pending_titles(first, words_from(sp@, pos as int)),
        decreases n - pos,
    {
        let mut a = pos;
        while a < n && is_ws_exec(sp[a])
            invariant
                pos <= a <= n == sp.len(),
                crate::text::skip_ws_from(sp@, pos as int) == crate::text::skip_ws_from(sp@, a as int),
            decreases n - a,
        {
            a += 1;
        }
        if a == n {
            assert(words_from(sp@, pos as int) =~= Seq::<Seq<char>>::empty());
            pos = n;
        } else {
            let mut b = a + 1;
            proof {
                lemma_next_ws_from(sp@, a as int);
            }
            while b < n && !is_ws_exec(sp[b])
                invariant
                    a < b <= n == sp.len(),
                    !is_ws(sp@[a as int]),
                    next_ws_from(sp@, a as int) == next_ws_from(sp@, b as int),
                decreases n - b,
            {
                b += 1;
            }
            proof {
                lemma_next_ws_from(sp@, b as int);
            }
            let ghost w = sp@.subrange(a as int, b as int);
            let ghost rest = words_from(sp@, b as int);
            let ghost ws = words_from(sp@, pos as int);
            assert(ws == seq![w] + rest);
            assert(ws[0] == w);
            assert(ws.drop_first() =~= rest);
            let ghost out0 = out@;
            if !first {
                push_char(&mut out, ' ');
            }
            let up = to_uppercase_char(sp[a]);
            out.append(up.as_str());
            let tail = string_of_range(&sp, a + 1, b);
            out.append(tail.as_str());
            assert(w.drop_first() =~= tail@);
            assert(title(w) == up@ + tail@);
            proof {
                reveal_strlit(" ");
                if first {
                    assert(out@ =~= out0 + title(w));
                } else {
                    assert(out@ =~= out0 + " "@ + title(w));
                }
                if rest.len() == 0 {
                    assert(join_titles(ws) == title(w));
                } else {
                    assert(join_titles(ws) == title(w) + " "@ + join_titles(rest));
                }
                assert(out@ + pending_titles(false, rest) =~= out0 + pending_titles(first, ws));
            }
            first = false;
            pos = b;
        }
    }
    assert(words_from(sp@, n as int) =~= Seq::<Seq<char>>::empty());
    out
}

/// The name of a custom game added without one, from its executable's path: the file
/// name's stem, title-cased word by word. Which part of the path is the file name is
/// left to `Path::file_name` and the platform (a plain name is its own file name);
/// whatever it is, the name is made from it as `name_from_file_name` says.
pub fn infer_name_from_path(path: &str) -> (r: String)
    ensures
        exists|f: Option<Seq<char>>| file_name_fits(path@, f) && r@ == #[trigger] name_from_file(f),
{
    let file_name = path_file_name(path);
    let ghost f: Option<Seq<char>> = match &file_name {
        Some(x) => Some(x@),
        None => None,
    };
    let r = match file_name {
        Some(x) => name_from_file_name(Some(x.as_str())),
        None => name_from_file_name(None),
    };
    assert(file_name_fits(path@, f));
    r
}

/// The name of a new custom game: the one given, else the one inferred from the path.
pub fn custom_game_name(name: Option<String>, executable_path: &str) -> (r: String)
    ensures
        name matches Some(n) ==> r@ == n@,
        name is None ==> exists|f: Option<Seq<char>>|
            file_name_fits(executable_path@, f) && r@ == #[trigger] name_from_file(f),
        name is None && is_plain_name(executable_path@) ==> r@ == name_from_file(Some(executable_path@)),
        name is None && is_slash_path(executable_path@) ==> r@ == name_from_file(
            slash_file_name(executable_path@),
        ),
{
    match name {
        Some(n) => n,
        None => infer_name_from_path(executable_path),
    }
}


/// Whether closing the window hides the launcher to the tray: the `close_to_tray`
/// setting is "true", or it is not stored at all.
pub fn close_to_tray(stored: Option<String>) -> (b: bool)
    ensures
        b == match stored {
            Some(v) => v@ == "true"@,
            None => true,
        },
{
    match stored {
        Some(v) => crate::text::str_eq(v.as_str(), "true"),
        None => true,
    }
}


/// A lowercase hexadecimal digit.
pub open spec fn hex_lower(d: int) -> char {
    if d < 10 {
        (48 + d) as char
    } else {
        (87 + d) as char
    }
}

/// How serde_json writes one character inside a string: `"` and `\` escaped with a
/// backslash; backspace, tab, line feed, form feed and carriage return as `\b`, `\t`,
/// `\n`, `\f`, `\r`; other characters below U+0020 as `\u00` and two lowercase hex
/// digits; every other character as it is.
pub open spec fn json_char(c: char) -> Seq<char> {
    if c == '"' {
        seq!['\\', '"']
    } else if c == '\\' {
        seq!['\\', '\\']
    } else if c == '\u{8}' {
        seq!['\\', 'b']
    } else if c == '\t' {
        seq!['\\', 't']
    } else if c == '\n' {
        seq!['\\', 'n']
    } else if c == '\u{c}' {
        seq!['\\', 'f']
    } else if c == '\r' {
        seq!['\\', 'r']
    } else if (c as int) < 0x20 {
        seq!['\\', 'u', '0', '0', hex_lower((c as int) / 16), hex_lower((c as int) % 16)]
    } else {
        seq![c]
    }
}

/// The escaped characters of a string.
pub open spec fn json_chars(s: Seq<char>) -> Seq<char>
    decreases s.len(),
{
    if s.len() == 0 {
        seq![]
    } else {
        json_char(s[0]) + json_chars(s.drop_first())
    }
}

/// The JSON strings of a list, separated by commas.
pub open spec fn json_items(items: Seq<Seq<char>>) -> Seq<char>
    decreases items.len(),
{
    if items.len() == 0 {
        seq![]
    } else if items.len() == 1 {
        seq!['"'] + json_chars(items[0]) + seq!['"']
    } else {
        seq!['"'] + json_chars(items[0]) + seq!['"', ','] + json_items(items.drop_first())
    }
}

/// What `serde_json::to_string` writes for a list of strings: `[`, the strings in
/// quotes with their characters escaped (`json_char`), separated by commas, and `]`.
pub open spec fn json_string_list(items: Seq<Seq<char>>) -> Seq<char> {
    seq!['['] + json_items(items) + seq![']']
}

/// Calls `serde_json::to_string` on a list of strings; its source writes the text that
/// `json_string_list` gives (serialising strings cannot fail, and an error would give
/// the empty text).
#[verifier::external_body]
fn strings_to_json(items: &Vec<String>) -> (r: String)
    ensures
        r@ == json_string_list(views(items@)),
{
    serde_json::to_string(items).unwrap_or_default()
}

/// The stored form of a custom game's launch arguments: their JSON array, if any.
pub fn launch_args_field(args: Option<Vec<String>>) -> (r: Option<String>)
    ensures
        args is None <==> r is None,
        args matches Some(a) ==> (r matches Some(j) && j@ == json_string_list(views(a@))),
{
    match args {
        Some(a) => Some(strings_to_json(&a)),
        None => None,
    }
}

} // verus!
