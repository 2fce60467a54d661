//! Paths, held as UTF-8 text, and the `std::path` operations the server uses
//! on them, each called through one wrapper whose result is named here.

use vstd::prelude::*;

use std::path::Path;

verus! {

/// What `Path::extension` gives for `path`.
pub uninterp spec fn extension_of(path: Seq<char>) -> Option<Seq<char>>;

/// What `Path::join` gives for `base` and `child`.
pub uninterp spec fn joined_path(base: Seq<char>, child: Seq<char>) -> Seq<char>;

/// What `Path::with_extension` gives for `path` and `extension`.
pub uninterp spec fn path_with_extension(path: Seq<char>, extension: Seq<char>) -> Seq<char>;

/// What `Path::starts_with` says of `path` and `base` (a prefix of whole
/// components).
pub uninterp spec fn path_has_prefix(path: Seq<char>, base: Seq<char>) -> bool;

/// `Path::extension`, as text. A path given as UTF-8 text has a UTF-8
/// extension, so the conversion back loses nothing.
#[verifier::external_body]
pub(crate) fn path_extension(path: &str) -> (r: Option<String>)
    ensures
        match r {
            Some(e) => extension_of(path@) == Some(e@),
            None => extension_of(path@) is None,
        },
{
    match Path::new(path).extension() {
        Some(e) => Some(e.to_string_lossy().into_owned()),
        None => None,
    }
}

/// `Path::join`, as text.
#[verifier::external_body]
pub(crate) fn join_path(base: &str, child: &str) -> (r: String)
    ensures
        r@ == joined_path(base@, child@),
{
    Path::new(base).join(child).to_string_lossy().into_owned()
}

/// `Path::with_extension`, as text. It panics when the extension holds a
/// path separator, so an extension with `/` or `\\` is not admitted.
#[verifier::external_body]
pub(crate) fn replace_extension(path: &str, extension: &str) -> (r: String)
    requires
        !extension@.contains('/'),
        !extension@.contains('\\'),
    ensures
        r@ == path_with_extension(path@, extension@),
{
    Path::new(path).with_extension(extension).to_string_lossy().into_owned()
}

/// `Path::starts_with`.
#[verifier::external_body]
pub(crate) fn starts_with_path(path: &str, base: &str) -> (r: bool)
    ensures
        r == path_has_prefix(path@, base@),
{
    Path::new(path).starts_with(Path::new(base))
}

/// A path as display text. Paths here are held as UTF-8 text, which is
/// exactly what displaying one shows.
pub fn path_string(path: &str) -> (r: String)
    ensures
        r@ == path@,
{
    path.to_string()
}

} // verus!
