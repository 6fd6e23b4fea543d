//! The two facts the library reads off a file's path: its extension, which decides the reader,
//! and its stem, the title of last resort. Both come from `std::path` as written.

use vstd::prelude::*;

verus! {

/// `Path::extension`, as text: the part of the file name after its last `.`, if any.
pub uninterp spec fn extension_of(path: Seq<char>) -> Option<Seq<char>>;

/// `Path::file_stem`, as text: the file name without its extension, if there is a file name.
pub uninterp spec fn file_stem_of(path: Seq<char>) -> Option<Seq<char>>;

/// `Path::strip_prefix`, as text: the path relative to `base` when it lies under it.
pub uninterp spec fn relative_to(path: Seq<char>, base: Seq<char>) -> Option<Seq<char>>;

/// Calls `std::path::Path::extension` on the path and reads it as UTF-8. The result is taken
/// as `extension_of` of the path.
#[verifier::external_body]
pub(crate) fn path_extension(path: &str) -> (r: Option<String>)
    ensures
        match r {
            Some(e) => extension_of(path@) == Some(e@),
            None => extension_of(path@) is None,
        },
{
    match std::path::Path::new(path).extension() {
        Some(value) => Some(value.to_string_lossy().into_owned()),
        None => None,
    }
}

/// Calls `std::path::Path::file_stem` on the path. The result is taken as `file_stem_of` of
/// the path.
#[verifier::external_body]
pub(crate) fn path_file_stem(path: &str) -> (r: Option<String>)
    ensures
        match r {
            Some(e) => file_stem_of(path@) == Some(e@),
            None => file_stem_of(path@) is None,
        },
{
    match std::path::Path::new(path).file_stem() {
        Some(stem) => Some(stem.to_string_lossy().into_owned()),
        None => None,
    }
}

/// Calls `std::path::Path::strip_prefix`, which matches whole components. The result is taken
/// as `relative_to` of the two paths.
#[verifier::external_body]
pub(crate) fn path_relative(path: &str, base: &str) -> (r: Option<String>)
    ensures
        match r {
            Some(e) => relative_to(path@, base@) == Some(e@),
            None => relative_to(path@, base@) is None,
        },
{
    match std::path::Path::new(path).strip_prefix(base) {
        Ok(rest) => Some(rest.to_string_lossy().into_owned()),
        Err(_) => None,
    }
}

} // verus!
