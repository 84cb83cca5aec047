//! Questions put to the file system.

use crate::link::PathLookup;
use vstd::prelude::*;

verus! {

/// `std::path::Path::exists`: whether the path names something that is on
/// disk at this moment. The answer depends on the file system alone, so
/// nothing is stated of it.
#[verifier::external_body]
fn path_exists(path: &str) -> (r: bool) {
    std::path::Path::new(path).exists()
}

/// `std::path::Path::canonicalize`: the absolute form of the path with its
/// links resolved, where the file system gives one and it is text. The
/// answer depends on the file system alone, so nothing is stated of it.
#[verifier::external_body]
fn canonical_path(path: &str) -> (r: Option<String>) {
    match std::path::Path::new(path).canonicalize() {
        Ok(p) => p.into_os_string().into_string().ok(),
        Err(_) => None,
    }
}

/// Asks the file system whether a directory exists and under which canonical
/// path; `PathLookup::from_answers` says what the answers amount to.
pub(crate) fn lookup(path: &str) -> (r: PathLookup) {
    if path_exists(path) {
        PathLookup::from_answers(true, canonical_path(path))
    } else {
        PathLookup::from_answers(false, None)
    }
}

} // verus!
