//! The few filesystem-path operations of `std::path` the library needs,
//! behind trusted wrappers.
use vstd::prelude::*;

verus! {

/// What `Path::new(base).join(rel)` renders as, for UTF-8 input.
pub uninterp spec fn spec_path_join(base: Seq<char>, rel: Seq<char>) -> Seq<char>;

/// What `Path::new(path).file_name()` gives, as text (none when the path
/// ends in `..` or is a root or empty).
pub uninterp spec fn spec_file_name(path: Seq<char>) -> Option<Seq<char>>;

/// What `Path::new(path).extension()` gives, as text.
pub uninterp spec fn spec_extension(path: Seq<char>) -> Option<Seq<char>>;

/// What `Path::new(path).parent()` gives, as text.
pub uninterp spec fn spec_parent(path: Seq<char>) -> Option<Seq<char>>;

/// Calls `std::path::Path::join`; the result is the named function of both
/// arguments.
#[verifier::external_body]
pub(crate) fn path_join(base: &str, rel: &str) -> (r: String)
    ensures
        r@ == spec_path_join(base@, rel@),
{
    std::path::Path::new(base).join(rel).to_string_lossy().into_owned()
}

/// Calls `std::path::Path::file_name`; the result is the named function of
/// the path. A name that is not valid UTF-8 is reported as none, as
/// `OsStr::to_str` does.
#[verifier::external_body]
pub(crate) fn path_file_name(path: &str) -> (r: Option<String>)
    ensures
        match r {
            Some(s) => spec_file_name(path@) == Some(s@),
            None => spec_file_name(path@) is None,
        },
{
    std::path::Path::new(path).file_name().and_then(|n| n.to_str()).map(|s| s.to_string())
}

/// Calls `std::path::Path::extension`; the result is the named function of
/// the path.
#[verifier::external_body]
pub(crate) fn path_extension(path: &str) -> (r: Option<String>)
    ensures
        match r {
            Some(s) => spec_extension(path@) == Some(s@),
            None => spec_extension(path@) is None,
        },
{
    std::path::Path::new(path).extension().and_then(|n| n.to_str()).map(|s| s.to_string())
}

/// Calls `std::path::Path::parent`; the result is the named function of the
/// path. A parent is the path without its final component, so it is shorter
/// than the path.
#[verifier::external_body]
pub(crate) fn path_parent(path: &str) -> (r: Option<String>)
    ensures
        match r {
            Some(s) => spec_parent(path@) == Some(s@) && s@.len() < path@.len(),
            None => spec_parent(path@) is None,
        },
{
    std::path::Path::new(path).parent().map(|p| p.to_string_lossy().into_owned())
}

/// Calls `std::path::Path::exists`. The answer depends on the filesystem at
/// the time of the call, so nothing is stated of it.
#[verifier::external_body]
pub(crate) fn path_exists(path: &str) -> (r: bool) {
    std::path::Path::new(path).exists()
}

} // verus!
