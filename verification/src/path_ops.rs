//! The operations on file system paths that the watch bookkeeping relies on.
//!
//! Paths are held as strings in the normal form of their components (no repeated or trailing
//! separator, no `.` component but a leading one): a watched path is brought to that form when
//! it is made absolute (`paths::absolute_path`), and the paths below it are built from it, so
//! that two paths name the same location exactly when their strings are equal. The
//! component-wise operations are those of `std::path::Path`.

use std::path::{Path, PathBuf};
use vstd::prelude::*;

verus! {

/// Whether `base` is a prefix of `path`, whole components only (`Path::starts_with`).
pub uninterp spec fn path_starts_with(path: Seq<char>, base: Seq<char>) -> bool;

/// The path without its final component, if it has one (`Path::parent`).
pub uninterp spec fn path_parent(path: Seq<char>) -> Option<Seq<char>>;

/// `rel` appended to `base` (`Path::join`).
pub uninterp spec fn path_join(base: Seq<char>, rel: Seq<char>) -> Seq<char>;

/// The part of `path` below `base`, if `base` is a prefix of it (`Path::strip_prefix`).
pub uninterp spec fn path_strip_prefix(path: Seq<char>, base: Seq<char>) -> Option<Seq<char>>;

/// Whether the path is absolute (`Path::is_absolute`).
pub uninterp spec fn path_is_absolute(path: Seq<char>) -> bool;

/// The path rebuilt from its components (`Path::components`): without repeated separators, a
/// trailing separator or `.` components other than a leading one.
pub uninterp spec fn path_normal(path: Seq<char>) -> Seq<char>;

/// Calls `Path::components`, and collects the components into a path again: the normal form
/// of the path.
#[verifier::external_body]
pub(crate) fn normalize(path: &str) -> (r: String)
    ensures
        r@ == path_normal(path@),
{
    Path::new(path).components().collect::<PathBuf>().to_string_lossy().into_owned()
}

/// Calls `Path::starts_with`: whether `base` is a prefix of `path`, whole components only.
#[verifier::external_body]
pub(crate) fn starts_with(path: &str, base: &str) -> (r: bool)
    ensures
        r == path_starts_with(path@, base@),
{
    Path::new(path).starts_with(base)
}

/// Calls `Path::parent`: the path without its final component, if it has one. The parent is
/// a part of the path, so it is shorter.
#[verifier::external_body]
pub(crate) fn parent(path: &str) -> (r: Option<String>)
    ensures
        r is Some <==> path_parent(path@) is Some,
        r matches Some(p) ==> p@ == path_parent(path@)->0 && p@.len() < path@.len(),
{
    match Path::new(path).parent() {
        Some(p) => Some(p.to_string_lossy().into_owned()),
        None => None,
    }
}

/// Calls `Path::join`: `rel` appended to `base`.
#[verifier::external_body]
pub(crate) fn join(base: &str, rel: &str) -> (r: String)
    ensures
        r@ == path_join(base@, rel@),
{
    Path::new(base).join(rel).to_string_lossy().into_owned()
}

/// Calls `Path::strip_prefix`: the part of `path` below `base`, if `base` is a prefix of it.
#[verifier::external_body]
pub(crate) fn strip_prefix(path: &str, base: &str) -> (r: Option<String>)
    ensures
        r is Some <==> path_strip_prefix(path@, base@) is Some,
        r matches Some(p) ==> p@ == path_strip_prefix(path@, base@)->0,
{
    match Path::new(path).strip_prefix(base) {
        Ok(p) => Some(p.to_string_lossy().into_owned()),
        Err(_) => None,
    }
}

/// Calls `Path::is_absolute`.
#[verifier::external_body]
pub(crate) fn is_absolute(path: &str) -> (r: bool)
    ensures
        r == path_is_absolute(path@),
{
    Path::new(path).is_absolute()
}

/// Whether two paths are the same (their normal forms are equal).
pub fn same_path(a: &String, b: &String) -> (r: bool)
    ensures
        r == (a@ == b@),
{
    a.eq(b)
}

} // verus!
