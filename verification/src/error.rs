//! What can go wrong.

use semver::Error as VersionError;
use vstd::prelude::*;

verus! {

/// `semver::Error`: why a version could not be read. Nothing is known of what it holds.
#[verifier::external_type_specification]
#[verifier::external_body]
pub struct ExVersionError(VersionError);

/// An error of the library.
#[derive(Debug)]
pub enum Error {
    /// A message for the user.
    Msg(String),
    /// What the operating system said of a directory.
    Io(String),
    /// Output that is not UTF-8.
    Utf8,
    /// A version that cannot be read.
    Version(VersionError),
}

} // verus!
