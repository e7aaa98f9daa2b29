//! Unix paths held as text, with the parts of `std::path` the library relies on.

use crate::text::split_on;
use vstd::prelude::*;

verus! {

/// A Unix path is absolute when it starts at the root.
pub open spec fn is_absolute(p: Seq<char>) -> bool {
    p.len() > 0 && p[0] == '/'
}

/// `Path::join` on Unix: an absolute `rel` replaces `base`; otherwise `rel` is
/// appended, with a separator unless `base` is empty or already ends in one.
pub open spec fn join(base: Seq<char>, rel: Seq<char>) -> Seq<char> {
    if is_absolute(rel) {
        rel
    } else if base.len() == 0 || base.last() == '/' {
        base + rel
    } else {
        base + seq!['/'] + rel
    }
}

/// The named components of a Unix path, as `Path::components` yields them:
/// the pieces between separators, where repeated separators, a trailing
/// separator and `.` pieces are normalized away.
pub open spec fn normal_components(p: Seq<char>) -> Seq<Seq<char>> {
    split_on(p, '/').filter(|c: Seq<char>| c.len() > 0 && c != "."@)
}

/// A relative path that begins with a `.` component (`.` or `./…`), which
/// `Path::components` keeps as `CurDir`.
pub open spec fn starts_at_cur_dir(p: Seq<char>) -> bool {
    !is_absolute(p) && split_on(p, '/')[0] == "."@
}

/// Whether `Path::new(a) == Path::new(b)`: paths compare by their components,
/// that is the root, a leading `.` and the named components.
pub open spec fn path_eq(a: Seq<char>, b: Seq<char>) -> bool {
    &&& is_absolute(a) == is_absolute(b)
    &&& starts_at_cur_dir(a) == starts_at_cur_dir(b)
    &&& normal_components(a) == normal_components(b)
}

/// What `Path::file_name` returns for a path, as text.
pub uninterp spec fn path_file_name(p: Seq<char>) -> Option<Seq<char>>;

/// What `Path::parent` returns for a path, as text.
pub uninterp spec fn path_parent(p: Seq<char>) -> Option<Seq<char>>;

/// Whether a path is absolute.
pub fn path_is_absolute(p: &str) -> (r: bool)
    ensures
        r == is_absolute(p@),
{
    p.unicode_len() > 0 && p.get_char(0) == '/'
}

/// Joins two paths as `Path::join` does on Unix.
pub fn join_path(base: &str, rel: &str) -> (r: String)
    ensures
        r@ == join(base@, rel@),
{
    if path_is_absolute(rel) {
        return String::from_str(rel);
    }
    let n = base.unicode_len();
    let mut r = String::from_str(base);
    if n > 0 && base.get_char(n - 1) != '/' {
        r.push('/');
    }
    r.append(rel);
    r
}

/// Compares two paths with `<Path as PartialEq>::eq`, which compares their
/// components (`Path::components`): the root, a leading `.`, and the named
/// components, with repeated separators, a trailing separator and other `.`
/// components normalized away.
#[verifier::external_body]
pub(crate) fn paths_equal(a: &str, b: &str) -> (r: bool)
    ensures
        r == path_eq(a@, b@),
{
    std::path::Path::new(a) == std::path::Path::new(b)
}

/// The final component of a path, from `Path::file_name`, as text. For a path
/// given as text the component is text as well, so the conversion keeps it.
#[verifier::external_body]
pub(crate) fn file_name_of(p: &str) -> (r: Option<String>)
    ensures
        r is Some <==> path_file_name(p@) is Some,
        r matches Some(n) ==> path_file_name(p@) == Some(n@),
{
    match std::path::Path::new(p).file_name() {
        Some(name) => name.to_str().map(String::from),
        None => None,
    }
}

/// The path without its final component, from `Path::parent`. Stated: the result
/// is `path_parent` of the text, and a parent is shorter than its path (it is the
/// path without its final component).
#[verifier::external_body]
pub(crate) fn parent_of(p: &str) -> (r: Option<String>)
    ensures
        r is Some <==> path_parent(p@) is Some,
        r matches Some(q) ==> path_parent(p@) == Some(q@) && q@.len() < p@.len(),
{
    match std::path::Path::new(p).parent() {
        Some(parent) => parent.to_str().map(String::from),
        None => None,
    }
}

} // verus!
