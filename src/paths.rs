//! The path operations of the standard library that the resolver relies on.
//! Each works on the text of a path; results that depend on the file system
//! carry no promise.

use vstd::prelude::*;
use crate::text::opt_view;

verus! {

/// What `Path::file_name` gives for a path: its final component, when that is
/// a normal component.
pub uninterp spec fn file_name_of(path: Seq<char>) -> Option<Seq<char>>;

/// Whether `Path::is_absolute` holds of a path.
pub uninterp spec fn path_is_absolute(path: Seq<char>) -> bool;

/// What `Path::join` gives for a base and a further path.
pub uninterp spec fn joined(base: Seq<char>, tail: Seq<char>) -> Seq<char>;

/// What `Path::strip_prefix` gives for a path and a base, when it succeeds.
pub uninterp spec fn relative_to(path: Seq<char>, base: Seq<char>) -> Option<Seq<char>>;

/// Relies on `Path::file_name` (and `OsStr::to_str`, lossless on text that
/// came from a `str`): the final component of the path, or `None` when the
/// path ends in `..` or has no component.  The name is a piece of the path
/// between separators, so a path without a backslash gives a name without
/// one.
#[verifier::external_body]
pub(crate) fn file_name(path: &str) -> (r: Option<String>)
    ensures
        opt_view(r) == file_name_of(path@),
        (forall|i: int| 0 <= i < path@.len() ==> path@[i] != '\\') ==> match r {
            Some(n) => forall|i: int| 0 <= i < n@.len() ==> n@[i] != '\\',
            None => true,
        },
{
    std::path::Path::new(path).file_name().and_then(|n| n.to_str()).map(|n| n.to_string())
}

/// Relies on `Path::is_absolute`, which depends on the path's text alone.  On
/// Unix a path is absolute when it starts with the root `/`; on Windows when
/// it has a prefix (`\\…` or a drive `X:`) and a root.  So a path that starts
/// with neither is relative on both.
#[verifier::external_body]
pub(crate) fn is_absolute_path(path: &str) -> (r: bool)
    ensures
        r == path_is_absolute(path@),
        r ==> path@.len() > 0 && (path@[0] == '/' || path@[0] == '\\' || (
        path@.len() >= 2 && path@[1] == ':')),
{
    std::path::Path::new(path).is_absolute()
}

/// Relies on `Path::join`, which depends on the two paths' text alone.
#[verifier::external_body]
pub(crate) fn join_path(base: &str, tail: &str) -> (r: String)
    ensures
        r@ == joined(base@, tail@),
{
    std::path::Path::new(base).join(tail).to_string_lossy().into_owned()
}

/// Relies on `Path::strip_prefix`, which compares whole components of the two
/// paths' text.
#[verifier::external_body]
pub(crate) fn strip_path_prefix(path: &str, base: &str) -> (r: Option<String>)
    ensures
        opt_view(r) == relative_to(path@, base@),
{
    std::path::Path::new(path).strip_prefix(base).ok().map(|p| p.to_string_lossy().into_owned())
}

/// Relies on `Path::canonicalize`: the symlink-free absolute form of a path
/// that exists, or `None` when the file system cannot give one.  The result
/// depends on the file system, so nothing is promised of it.
#[verifier::external_body]
pub(crate) fn canonicalize(path: &str) -> (r: Option<String>)
{
    std::path::Path::new(path).canonicalize().ok().map(|p| p.to_string_lossy().into_owned())
}

/// Relies on `glob::glob`: the paths on disk that match a pattern, with the
/// entries that could not be read left out, or `None` when the pattern is
/// malformed.  The result depends on the file system, so nothing is promised
/// of it.
#[verifier::external_body]
pub(crate) fn glob_entries(pattern: &str) -> (r: Option<Vec<String>>)
{
    match glob::glob(pattern) {
        Ok(paths) => Some(paths.flatten().map(|p| p.to_string_lossy().into_owned()).collect()),
        Err(_) => None,
    }
}

} // verus!
