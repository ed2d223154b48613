//! Paths of the file system, carried through as std holds them.

use std::path::PathBuf;
use vstd::prelude::*;

verus! {

/// A path of the file system, as std holds it. Nothing here looks inside one.
#[verifier::external_type_specification]
#[verifier::external_body]
pub struct ExPathBuf(PathBuf);

/// The path that `std::path::Path::join` gives for a directory and a name.
pub uninterp spec fn joined(dir: PathBuf, name: Seq<char>) -> PathBuf;

/// `dir.join(name)` of std: the path of `name` seen from `dir`, or `name`
/// itself where it is absolute.
#[verifier::external_body]
pub(crate) fn join_path(dir: &PathBuf, name: &str) -> (path: PathBuf)
    ensures
        path == joined(*dir, name@),
{
    dir.join(name)
}

} // verus!
