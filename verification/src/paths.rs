//! Paths handed to `std::path::Path`. Stated of them is what holds on every platform:
//! for plain names and for paths whose only separator is `/` (see `is_slash_path`),
//! the components, the file name, the extension and equality are fixed; for other
//! paths, which part is the file name, the parent or the extension, and which paths
//! are equal, is the platform's to decide.
use vstd::prelude::*;
use crate::text::{contains, split_char, starts_with};
use crate::commands::library::last_dot_before;

verus! {

/// A path that is a single plain name on every platform: not empty, not `.` or `..`,
/// and without `/`, `\\` or `:` (no separator, no drive or other prefix). Such a path
/// has exactly one component, a normal one: the name itself.
pub open spec fn is_plain_name(s: Seq<char>) -> bool {
    &&& s.len() > 0
    &&& s != "."@
    &&& s != ".."@
    &&& forall|i: int| 0 <= i < s.len() ==> #[trigger] s[i] != '/' && s[i] != '\\' && s[i] != ':'
}

/// The extension of a file name, as `Path::extension` documents it: none without a `.`
/// or with only a leading one, else the part after the last `.`.
pub open spec fn extension_of(name: Seq<char>) -> Option<Seq<char>> {
    let p = last_dot_before(name, name.len() as int);
    if p <= 0 {
        None
    } else {
        Some(name.skip(p + 1))
    }
}

/// A path parsed alike on every platform: not empty, no `\` and no `:` (so no drive
/// or verbatim prefix on Windows), and not starting with `//` (a network share there).
/// Its only separator is `/`.
pub open spec fn is_slash_path(s: Seq<char>) -> bool {
    &&& s.len() > 0
    &&& forall|i: int| 0 <= i < s.len() ==> #[trigger] s[i] != '\\' && s[i] != ':'
    &&& !(s.len() >= 2 && s[0] == '/' && s[1] == '/')
}

/// The fields between separators that are normal components or `..`: empty fields
/// (repeated or trailing separators) and `.` fields are normalised away.
pub open spec fn normal_fields(fs: Seq<Seq<char>>) -> Seq<Seq<char>>
    decreases fs.len(),
{
    if fs.len() == 0 {
        seq![]
    } else {
        let rest = normal_fields(fs.drop_first());
        if fs[0].len() == 0 || fs[0] == "."@ {
            rest
        } else {
            seq![fs[0]] + rest
        }
    }
}

/// The named components of a `/`-separated path, in order (`..` included).
pub open spec fn path_names(s: Seq<char>) -> Seq<Seq<char>> {
    normal_fields(split_char(s, '/'))
}

/// The path starts with a root directory.
pub open spec fn rooted(s: Seq<char>) -> bool {
    s.len() > 0 && s[0] == '/'
}

/// The path starts with a `.` component, which is kept at the beginning of a relative
/// path.
pub open spec fn starts_at_cur_dir(s: Seq<char>) -> bool {
    !rooted(s) && split_char(s, '/')[0] == "."@
}

/// The file name of a `/`-separated path: its last named component, unless there is
/// none or it is `..`.
pub open spec fn slash_file_name(s: Seq<char>) -> Option<Seq<char>> {
    let n = path_names(s);
    if n.len() == 0 || n.last() == ".."@ {
        None
    } else {
        Some(n.last())
    }
}

/// The extension of a `/`-separated path: that of its file name.
pub open spec fn slash_extension(s: Seq<char>) -> Option<Seq<char>> {
    match slash_file_name(s) {
        Some(f) => extension_of(f),
        None => None,
    }
}

/// Two `/`-separated paths are the same path: their components are alike (both rooted
/// or not, both starting at `.` or not, the same named components).
pub open spec fn same_slash_path(a: Seq<char>, b: Seq<char>) -> bool {
    &&& rooted(a) == rooted(b)
    &&& starts_at_cur_dir(a) == starts_at_cur_dir(b)
    &&& path_names(a) == path_names(b)
}

/// What holds of `Path::file_name` for `path` on every platform: the file name is a part
/// of the path, a plain name is its own file name, and a `/`-separated path has the file
/// name `slash_file_name` gives.
pub open spec fn file_name_fits(path: Seq<char>, r: Option<Seq<char>>) -> bool {
    &&& (r matches Some(f) ==> contains(path, f))
    &&& (is_plain_name(path) ==> r == Some(path))
    &&& (is_slash_path(path) ==> r == slash_file_name(path))
}

/// What holds of `Path::extension` for `path` on every platform: the extension is a part
/// of the path, that of a plain name is `extension_of` the name, and that of a
/// `/`-separated path is `slash_extension` of it.
pub open spec fn extension_fits(path: Seq<char>, r: Option<Seq<char>>) -> bool {
    &&& (r matches Some(e) ==> contains(path, e))
    &&& (is_plain_name(path) ==> r == extension_of(path))
    &&& (is_slash_path(path) ==> r == slash_extension(path))
}

/// What `Path::file_name` returns for `path`, as a string.
///
/// Calls `std::path::Path::file_name`, the final component of the path (none when the
/// path ends in a root or in `..`). Stated: it is a part of the path; a plain name (one
/// normal component) is its own file name; a `/`-separated path's is its last named
/// component, repeated separators, trailing separators and `.` components being
/// normalised away. Which part it is otherwise depends on the platform's separators.
#[verifier::external_body]
pub fn path_file_name(path: &str) -> (r: Option<String>)
    ensures
        r matches Some(f) ==> contains(path@, f@),
        is_plain_name(path@) ==> match r {
            Some(f) => f@ == path@,
            None => false,
        },
        is_slash_path(path@) ==> match r {
            Some(f) => slash_file_name(path@) == Some(f@),
            None => slash_file_name(path@) is None,
        },
{
    std::path::Path::new(path).file_name().map(|f| f.to_string_lossy().into_owned())
}

/// Calls `Path::eq` on two paths given as strings; paths are compared component by
/// component. Stated: equal strings are equal paths, and two plain names (one normal
/// component each) are equal exactly when spelled alike, and two `/`-separated paths
/// exactly when their components are alike (so `/s/` and `/s` are equal). Which other
/// strings name the same path depends on the platform.
#[verifier::external_body]
pub fn same_path(a: &str, b: &str) -> (r: bool)
    ensures
        a@ == b@ ==> r,
        is_plain_name(a@) && is_plain_name(b@) ==> (r <==> a@ == b@),
        is_slash_path(a@) && is_slash_path(b@) ==> (r <==> same_slash_path(a@, b@)),
{
    std::path::Path::new(a) == std::path::Path::new(b)
}

/// Calls `std::path::Path::parent`, the path without its final component, and hands it
/// back as a string. Stated: the empty path has none; a plain name's parent is the
/// empty path; a `/`-separated path has one exactly when it is not a root with no
/// named component after it, and when it has named components its parent is the path
/// without the last of them (rooted as the path is); a parent is a prefix of the path. Which prefix it is otherwise
/// depends on the platform's separators.
#[verifier::external_body]
pub fn path_parent(path: &str) -> (r: Option<String>)
    ensures
        path@.len() == 0 ==> r is None,
        is_plain_name(path@) ==> match r {
            Some(p) => p@.len() == 0,
            None => false,
        },
        is_slash_path(path@) ==> (r is Some <==> (!rooted(path@) || path_names(path@).len() > 0)),
        is_slash_path(path@) && path_names(path@).len() > 0 ==> match r {
            Some(p) => rooted(p@) == rooted(path@) && path_names(p@) == path_names(path@).drop_last(),
            None => false,
        },
        r matches Some(p) ==> starts_with(path@, p@),
{
    std::path::Path::new(path).parent().map(|p| p.to_string_lossy().into_owned())
}

/// Calls `std::path::Path::extension` and hands back the extension as a string. The
/// documentation defines it from the file name (the part after its last `.`, none
/// without a `.` or with only a leading one): stated are that it is a part of the path,
/// and what it is for a plain name and for a `/`-separated path, whose file names are
/// fixed. Which part of another path is its file name depends on the platform.
#[verifier::external_body]
pub fn path_extension(path: &str) -> (r: Option<String>)
    ensures
        r matches Some(e) ==> contains(path@, e@),
        is_plain_name(path@) ==> match r {
            Some(e) => extension_of(path@) == Some(e@),
            None => extension_of(path@) is None,
        },
        is_slash_path(path@) ==> match r {
            Some(e) => slash_extension(path@) == Some(e@),
            None => slash_extension(path@) is None,
        },
{
    std::path::Path::new(path).extension().map(|e| e.to_string_lossy().into_owned())
}

} // verus!
