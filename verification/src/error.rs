//! Why a run gave no files.

use vstd::prelude::*;
use vstd::std_specs::convert::FromSpecImpl;
use zip::result::ZipError;

verus! {

/// Why a run gave no files.
#[derive(Debug)]
pub enum Error {
    /// The bytes of the archive or of an entry could not be read.
    Io(std::io::Error),
    /// The archive reader refused the archive, or an entry of it.
    Zip(ZipError),
    /// No password that was tried decodes every entry.
    CannotDecrypt,
}

impl From<std::io::Error> for Error {
    fn from(reason: std::io::Error) -> (error: Error) {
        Error::Io(reason)
    }
}

impl FromSpecImpl<std::io::Error> for Error {
    open spec fn obeys_from_spec() -> bool {
        true
    }

    open spec fn from_spec(reason: std::io::Error) -> Error {
        Error::Io(reason)
    }
}

impl From<ZipError> for Error {
    fn from(reason: ZipError) -> (error: Error) {
        Error::Zip(reason)
    }
}

impl FromSpecImpl<ZipError> for Error {
    open spec fn obeys_from_spec() -> bool {
        true
    }

    open spec fn from_spec(reason: ZipError) -> Error {
        Error::Zip(reason)
    }
}

} // verus!
