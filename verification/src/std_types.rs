//! Declarations of the std types that the library carries through opaquely.

use vstd::prelude::*;

verus! {

/// File-system paths are carried through the library unchanged.
#[verifier::external_type_specification]
#[verifier::external_body]
pub struct ExPathBuf(std::path::PathBuf);

/// I/O errors raised while reading a source file.
#[verifier::external_type_specification]
#[verifier::external_body]
pub struct ExIoError(std::io::Error);

/// `PathBuf::clone` (std): the copy is the same path as the one cloned.
pub assume_specification[ <std::path::PathBuf as Clone>::clone ](p: &std::path::PathBuf) -> (r: std::path::PathBuf)
    ensures
        r == *p,
;

/// The path that `PathBuf::from` makes of a text.
pub uninterp spec fn path_of(text: Seq<char>) -> std::path::PathBuf;

/// `PathBuf::from` (std) on a string slice.
#[verifier::external_body]
pub(crate) fn path_from_str(text: &str) -> (p: std::path::PathBuf)
    ensures
        p == path_of(text@),
{
    std::path::PathBuf::from(text)
}

} // verus!
