//! The kinds of failure that the library reports.

use vstd::prelude::*;

verus! {

/// Why an operation did not succeed.
#[derive(Clone, Copy, Debug, PartialEq, Eq, Structural)]
pub enum ErrorKind {
    /// The requested tag is in no release of the catalog.
    NotFound,
    /// The platform is not supported, or a release has no asset for it.
    PlatformUnsupported,
    /// The release feed or an asset could not be fetched.
    NetworkFailure,
    /// A file or directory could not be created, removed or copied.
    IoFailure,
    /// A cached document, a header or a release record is malformed.
    ParseFailure,
}

impl ErrorKind {
    /// The text shown to the user for this kind of failure.
    pub open spec fn spec_message(self) -> Seq<char> {
        match self {
            ErrorKind::NotFound => "[cmvm] Version not found."@,
            ErrorKind::PlatformUnsupported => "[cmvm] No asset found."@,
            ErrorKind::NetworkFailure => "[cmvm] Something went wrong"@,
            ErrorKind::IoFailure => "[cmvm] A file operation failed."@,
            ErrorKind::ParseFailure => "[cmvm] Malformed release data."@,
        }
    }

    /// The text shown to the user for this kind of failure.
    pub fn message(&self) -> (r: String)
        ensures
            r@ == self.spec_message(),
    {
        match self {
            ErrorKind::NotFound => "[cmvm] Version not found.".to_owned(),
            ErrorKind::PlatformUnsupported => "[cmvm] No asset found.".to_owned(),
            ErrorKind::NetworkFailure => "[cmvm] Something went wrong".to_owned(),
            ErrorKind::IoFailure => "[cmvm] A file operation failed.".to_owned(),
            ErrorKind::ParseFailure => "[cmvm] Malformed release data.".to_owned(),
        }
    }
}

} // verus!
