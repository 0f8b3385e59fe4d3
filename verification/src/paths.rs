//! File-system path arithmetic.
//!
//! Where a platform splits or joins paths its own way (Windows drive and
//! UNC prefixes, verbatim `\\?\` paths, `\` as a separator), the contracts
//! only state what holds on every platform; on paths that every platform
//! reads alike they state the result exactly.

use vstd::prelude::*;
use crate::text::{chars_of, extend_chars, string_from_chars};

verus! {

/// A character that separates path components on some platform.
pub open spec fn is_sep(c: char) -> bool {
    c == '/' || c == '\\'
}

/// A Windows verbatim path (`\\?\…`), whose components a join rebuilds.
pub open spec fn is_verbatim(p: Seq<char>) -> bool {
    p.len() >= 4 && is_sep(p[0]) && is_sep(p[1]) && p[2] == '?' && is_sep(p[3])
}

/// A relative component that no platform reads as rooted or as carrying a
/// drive prefix: not empty, not starting with a separator, without `:`.
pub open spec fn plain_component(rel: Seq<char>) -> bool {
    rel.len() > 0 && !is_sep(rel[0]) && !rel.contains(':')
}

/// `r` is `base`, one separator, then `rel`.
pub open spec fn sep_joined(r: Seq<char>, base: Seq<char>, rel: Seq<char>) -> bool {
    &&& r.len() == base.len() + rel.len() + 1
    &&& r.take(base.len() as int) == base
    &&& is_sep(r[base.len() as int])
    &&& r.skip(base.len() + 1int) == rel
}

/// `r` is `rel` appended to `base` as a path component, as every platform
/// does it: `rel` alone after an empty base, straight after a trailing `/`,
/// after one separator where the base ends in anything but a separator or
/// `:`, and either way after a trailing `\` or `:` (a separator on one
/// platform, a plain character or a drive on another).
pub open spec fn joined(r: Seq<char>, base: Seq<char>, rel: Seq<char>) -> bool {
    if base.len() == 0 {
        r == rel
    } else if base.last() == '/' {
        r == base + rel
    } else if base.last() == '\\' || base.last() == ':' {
        r == base + rel || sep_joined(r, base, rel)
    } else {
        sep_joined(r, base, rel)
    }
}

/// `std::path::Path::join`, turned back into text. With a base that is not
/// verbatim and a plain relative component, every platform appends the
/// component as [`joined`] says; the separator it adds is the platform's.
/// Of a verbatim base or another component only that a non-empty
/// component gives a non-empty path is stated.
#[verifier::external_body]
pub(crate) fn path_join(base: &str, rel: &str) -> (r: String)
    ensures
        !is_verbatim(base@) && plain_component(rel@) ==> joined(r@, base@, rel@),
        rel@.len() > 0 ==> r@.len() > 0,
{
    std::path::Path::new(base).join(rel).to_string_lossy().into_owned()
}

/// What joining `rel` onto `base` gives on the Unix targets: `/` is the one
/// separator and is added unless the base is empty or already ends in one.
pub open spec fn unix_joined(base: Seq<char>, rel: Seq<char>) -> Seq<char> {
    if base.len() == 0 || base.last() == '/' {
        base + rel
    } else {
        base + seq!['/'] + rel
    }
}

/// `base` joined with the relative component `rel` on a Unix target.
pub fn unix_join(base: &str, rel: &str) -> (r: String)
    ensures
        r@ == unix_joined(base@, rel@),
{
    let mut v = chars_of(base);
    if v.len() > 0 && v[v.len() - 1] != '/' {
        v.push('/');
    }
    extend_chars(&mut v, chars_of(rel).as_slice());
    string_from_chars(v.as_slice())
}

/// A path that every platform splits alike, at `/` alone and with no
/// prefix: no `\`, no `:`, and not starting with `//`.
pub open spec fn portable_path(p: Seq<char>) -> bool {
    &&& !p.contains('\\')
    &&& !p.contains(':')
    &&& !(p.len() >= 2 && p[0] == '/' && p[1] == '/')
}

/// The path holds a character that is neither `/` nor `.`, so it has a
/// named component.
pub open spec fn has_named_component(p: Seq<char>) -> bool {
    exists|i: int| 0 <= i < p.len() && p[i] != '/' && p[i] != '.'
}

/// The index of the last `/` of `p`, or `-1`.
pub open spec fn last_slash(p: Seq<char>) -> int
    decreases p.len(),
{
    if p.len() == 0 {
        -1
    } else if p.last() == '/' {
        p.len() - 1
    } else {
        last_slash(p.drop_last())
    }
}

/// A portable path written without redundant parts: not empty, no `//`, no
/// trailing `/`, and no `.` component.
pub open spec fn tidy_path(p: Seq<char>) -> bool {
    &&& portable_path(p)
    &&& p.len() > 0
    &&& p.last() != '/'
    &&& forall|i: int| 0 < i < p.len() && #[trigger] p[i] == '/' ==> p[i - 1] != '/'
    &&& forall|i: int|
        0 <= i < p.len() && #[trigger] p[i] == '.' && (i == 0 || p[i - 1] == '/') ==> i + 1 < p.len()
            && p[i + 1] != '/'
}

/// The parent of a tidy path: the text before its last `/`, the root `/`
/// itself when that is the only `/` and leads, and the empty path when it
/// has no `/`.
pub open spec fn parent_text(p: Seq<char>) -> Seq<char> {
    if last_slash(p) < 0 {
        Seq::empty()
    } else if last_slash(p) == 0 {
        seq!['/']
    } else {
        p.take(last_slash(p))
    }
}

/// `std::path::Path::parent`: the path without its final component, `None`
/// at a root, a prefix or the empty path. The parent is always a shorter
/// prefix of the path; a portable path with a named component has one; of
/// a tidy path it is [`parent_text`]; the empty path and the root `/` have
/// none. Where the parent of another path
/// ends (trailing separators and `.` components are dropped) is not stated.
#[verifier::external_body]
pub(crate) fn path_parent(path: &str) -> (r: Option<String>)
    ensures
        r matches Some(p) ==> p@.len() < path@.len() && path@.take(p@.len() as int) == p@,
        portable_path(path@) && has_named_component(path@) ==> r is Some,
        tidy_path(path@) ==> r is Some && r.unwrap()@ == parent_text(path@),
        path@.len() == 0 || path@ == seq!['/'] ==> r is None,
{
    std::path::Path::new(path).parent().map(|p| p.to_string_lossy().into_owned())
}

/// The text after the last `/` of `p` (all of `p` when it has none).
pub open spec fn last_segment(p: Seq<char>) -> Seq<char>
    decreases p.len(),
{
    if p.len() == 0 || p.last() == '/' {
        Seq::empty()
    } else {
        last_segment(p.drop_last()).push(p.last())
    }
}

/// The text after the last `.` of `name`, or `None` when it has no `.`.
pub open spec fn after_last_dot(name: Seq<char>) -> Option<Seq<char>>
    decreases name.len(),
{
    if name.len() == 0 {
        None
    } else if name.last() == '.' {
        Some(Seq::empty())
    } else {
        match after_last_dot(name.drop_last()) {
            Some(t) => Some(t.push(name.last())),
            None => None,
        }
    }
}

/// The extension of the file name `name`: the text after its last `.`,
/// `None` when it has no `.` or when its only `.` leads it (`.bashrc`).
pub open spec fn name_extension(name: Seq<char>) -> Option<Seq<char>> {
    match after_last_dot(name) {
        Some(t) => if t.len() + 1 == name.len() {
            None
        } else {
            Some(t)
        },
        None => None,
    }
}

/// A portable path whose last segment is a file name (not empty, `.` or
/// `..`), so every platform takes that segment as its file name.
pub open spec fn named_file_path(p: Seq<char>) -> bool {
    &&& portable_path(p)
    &&& last_segment(p) != Seq::<char>::empty()
    &&& last_segment(p) != seq!['.']
    &&& last_segment(p) != seq!['.', '.']
}

/// The extension of the file a path names.
pub open spec fn path_ext(p: Seq<char>) -> Option<Seq<char>> {
    name_extension(last_segment(p))
}

/// `e` stands in `p` right after a `.` that is not `p`'s first character,
/// and is followed by the end of `p` or by a separator.
pub open spec fn ext_at(p: Seq<char>, e: Seq<char>, i: int) -> bool {
    &&& 0 < i
    &&& i + 1 + e.len() <= p.len()
    &&& p[i] == '.'
    &&& p.subrange(i + 1, i + 1 + e.len()) == e
    &&& (i + 1 + e.len() == p.len() || is_sep(p[i + 1 + e.len()]))
}

/// `e` is the text after a `.` at the end of some component of `p`: where
/// an extension can come from on any platform.
pub open spec fn ext_in_text(p: Seq<char>, e: Seq<char>) -> bool {
    exists|i: int| ext_at(p, e, i)
}

/// `std::path::Path::extension` (as text): the part of the file name after
/// its last `.`, if any (none for a name whose only `.` leads it). On a
/// path that names a file the same way on every platform this is
/// [`path_ext`]. On any path the result holds no `.` and is the end of the
/// file name, a component of the path: text after a `.` that is not the
/// path's first character, followed by the end of the path or a separator.
#[verifier::external_body]
pub(crate) fn path_extension(path: &str) -> (r: Option<String>)
    ensures
        r matches Some(e) ==> !e@.contains('.') && ext_in_text(path@, e@),
        named_file_path(path@) ==> match r {
            Some(e) => path_ext(path@) == Some(e@),
            None => path_ext(path@) is None,
        },
{
    std::path::Path::new(path).extension().and_then(|e| e.to_str()).map(str::to_owned)
}

} // verus!
