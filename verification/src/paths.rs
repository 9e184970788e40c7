//! File system paths, as `std::path` reads them.

use vstd::prelude::*;
use std::path::Path;

verus! {

/// The last component of a path, as `Path::file_name` reads it.
pub uninterp spec fn file_name_of(path: Seq<char>) -> Option<Seq<char>>;

/// `Path::file_name`. Claimed: the result depends on the path text alone;
/// which component it is is left to the std documentation.
#[verifier::external_body]
pub(crate) fn file_name(path: &str) -> (r: Option<String>)
    ensures
        r matches Some(n) ==> file_name_of(path@) == Some(n@),
        r is None ==> file_name_of(path@) is None,
{
    Path::new(path).file_name().map(|n| n.to_string_lossy().to_string())
}

/// The parent of a path, as `Path::parent` reads it.
pub uninterp spec fn parent_of(path: Seq<char>) -> Option<Seq<char>>;

/// `Path::parent`. Claimed: the result depends on the path text alone.
#[verifier::external_body]
pub(crate) fn parent(path: &str) -> (r: Option<String>)
    ensures
        r matches Some(p) ==> parent_of(path@) == Some(p@),
        r is None ==> parent_of(path@) is None,
{
    Path::new(path).parent().map(|p| p.to_string_lossy().to_string())
}

/// `base` with `name` appended as a further component, as `Path::join`
/// writes it.
pub uninterp spec fn join_of(base: Seq<char>, name: Seq<char>) -> Seq<char>;

/// `Path::join`. Claimed: the result depends on the two texts alone.
#[verifier::external_body]
pub(crate) fn join(base: &str, name: &str) -> (r: String)
    ensures
        r@ == join_of(base@, name@),
{
    Path::new(base).join(name).to_string_lossy().to_string()
}

} // verus!
