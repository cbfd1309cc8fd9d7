//! Paths, held as strings, and what the standard library says about them.
//!
//! The library keeps paths as text so that its logic can be stated over plain
//! values. Splitting a path into its parts is the platform's business and is
//! asked of `std::path`; what comes back is named, not re-derived.

use vstd::prelude::*;

verus! {

/// The extension `std::path::Path::extension` finds in a path, as text.
pub uninterp spec fn extension_of(path: Seq<char>) -> Option<Seq<char>>;

/// `str::to_lowercase` of a string.
pub uninterp spec fn lowercase_of(s: Seq<char>) -> Seq<char>;

/// `std::path::Path::join` of a base and a name, as text.
pub uninterp spec fn joined(base: Seq<char>, name: Seq<char>) -> Seq<char>;

/// Calls `std::path::Path::extension` and keeps the extension when it is
/// valid Unicode. The contract claims only that the answer is a function of
/// the path's text.
#[verifier::external_body]
pub(crate) fn extension(path: &str) -> (ext: Option<String>)
    ensures
        match ext {
            Some(e) => extension_of(path@) == Some(e@),
            None => extension_of(path@) is None,
        },
{
    std::path::Path::new(path).extension().and_then(|e| e.to_str()).map(|e| e.to_string())
}

/// Calls `str::to_lowercase`. The contract claims only that the answer is a
/// function of the string.
#[verifier::external_body]
pub(crate) fn to_lowercase(s: &str) -> (lower: String)
    ensures
        lower@ == lowercase_of(s@),
{
    s.to_lowercase()
}

/// Calls `std::path::Path::join`, rendering the result back to text. The
/// contract claims only that the answer is a function of the two parts.
#[verifier::external_body]
pub(crate) fn join(base: &str, name: &str) -> (path: String)
    ensures
        path@ == joined(base@, name@),
{
    std::path::Path::new(base).join(name).to_string_lossy().into_owned()
}

/// `std::path::Path::parent` of a path, as text.
pub uninterp spec fn parent_of(path: Seq<char>) -> Option<Seq<char>>;

/// `std::path::Path::starts_with`: `base` is a leading run of whole
/// components of `path`.
pub uninterp spec fn starts_with_path(path: Seq<char>, base: Seq<char>) -> bool;

/// `std::path::Path`'s equality: the same components.
pub uninterp spec fn equal_paths(a: Seq<char>, b: Seq<char>) -> bool;

/// Calls `std::path::Path::parent`. The contract claims that the answer is a
/// function of the path, and what the documentation says of it: the path
/// without its final component, so shorter than the path.
#[verifier::external_body]
pub(crate) fn parent(path: &str) -> (p: Option<String>)
    ensures
        match p {
            Some(q) => parent_of(path@) == Some(q@) && q@.len() < path@.len(),
            None => parent_of(path@) is None,
        },
{
    std::path::Path::new(path).parent().map(|q| q.to_string_lossy().into_owned())
}

/// Calls `std::path::Path::starts_with`. The contract claims only that the
/// answer is a function of the two paths.
#[verifier::external_body]
pub(crate) fn path_starts_with(path: &str, base: &str) -> (yes: bool)
    ensures
        yes == starts_with_path(path@, base@),
{
    std::path::Path::new(path).starts_with(base)
}

/// Compares two paths with `std::path::Path`'s `==`. The contract claims only
/// that the answer is a function of the two paths.
#[verifier::external_body]
pub(crate) fn same_path(a: &str, b: &str) -> (same: bool)
    ensures
        same == equal_paths(a@, b@),
{
    std::path::Path::new(a) == std::path::Path::new(b)
}

} // verus!
