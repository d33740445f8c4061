//! The few operations of the standard library that this crate relies on
//! without proof. Each contract below repeats what the standard library
//! documents; nothing in this crate checks it.

use vstd::prelude::*;

verus! {

/// `String::push` appends the one character to the end of the string and
/// leaves the rest of it as it was.
pub assume_specification[ String::push ](s: &mut String, ch: char)
    ensures
        final(s)@ == old(s)@.push(ch),
;

/// `Path::exists` says whether the path names an entry of the file system
/// at the moment of the call. The answer depends on the disk, so nothing is
/// claimed of it.
#[verifier::external_body]
pub(crate) fn path_exists(path: &str) -> (found: bool) {
    std::path::Path::new(path).exists()
}

/// `Path::is_dir` says whether the path names a directory at the moment of
/// the call. The answer depends on the disk, so nothing is claimed of it.
#[verifier::external_body]
pub(crate) fn path_is_dir(path: &str) -> (directory: bool) {
    std::path::Path::new(path).is_dir()
}

/// `Path::extension` gives the part of the final component behind its last
/// dot, if that component has one that is not its first character. Which
/// characters separate components depends on the platform, so nothing is
/// claimed of the answer.
#[verifier::external_body]
pub(crate) fn path_extension(path: &str) -> (extension: Option<String>) {
    Some(std::path::Path::new(path).extension()?.to_str()?.to_owned())
}

} // verus!
