//! The failures of an upload, by the stage in which they occur.

use vstd::prelude::*;
use vstd::std_specs::convert::FromSpecImpl;
use crate::link::UrlError;

verus! {

/// `std::io::Error`, the operating system's error for a file that could
/// not be opened. It is carried through; nothing is known of its inside.
#[verifier::external_type_specification]
#[verifier::external_body]
pub struct ExIoError(std::io::Error);

/// Why the metadata blob could not be produced or read.
#[derive(Clone, Copy, Debug, PartialEq, Eq, Structural)]
pub enum MetaError {
    /// The cipher refused to encrypt the metadata.
    Encrypt,
    /// The blob is not one that the key has made: its tag does not verify.
    Decrypt,
    /// The blob verifies, but what it carries is no metadata.
    Malformed,
}

/// Why the encrypted reader could not be set up.
#[derive(Clone, Copy, Debug, PartialEq, Eq, Structural)]
pub enum ReaderError {
    /// The content cipher could not be initialised.
    Encrypt,
    /// The progress layer around the reader could not be created.
    Progress,
}

/// A failure while preparing the upload, before anything is sent.
#[derive(Clone, Copy, Debug, PartialEq, Eq, Structural)]
pub enum PrepareError {
    /// The metadata could not be prepared.
    Meta(MetaError),
    /// The encrypted reader could not be prepared.
    Reader(ReaderError),
}

/// A failure to use the file that should be uploaded.
#[derive(Debug)]
pub enum FileError {
    /// The path does not name an existing regular file.
    NotAFile,
    /// The file could not be opened for reading.
    Open(std::io::Error),
}

/// A failure of the upload itself, after it was prepared.
#[derive(Debug)]
pub enum UploadError {
    /// The progress of the upload could not be started or updated.
    Progress,
    /// The request could not be sent.
    Request,
    /// The service answered with a status that is no success: the status
    /// code and the message that came with it.
    RequestStatus(u16, String),
    /// The answer of the service could not be read.
    Decode,
    /// The address that the service gave for the file is none.
    ParseUrl(UrlError),
}

/// A failure of an upload, by the stage in which it occurred.
#[derive(Debug)]
pub enum Error {
    /// The upload could not be prepared.
    Prepare(PrepareError),
    /// The file could not be used.
    File(FileError),
    /// The upload failed.
    Upload(UploadError),
}

impl From<MetaError> for Error {
    fn from(err: MetaError) -> (res: Error) {
        Error::Prepare(PrepareError::Meta(err))
    }
}

impl FromSpecImpl<MetaError> for Error {
    open spec fn obeys_from_spec() -> bool {
        true
    }

    open spec fn from_spec(err: MetaError) -> Error {
        Error::Prepare(PrepareError::Meta(err))
    }
}

impl From<ReaderError> for Error {
    fn from(err: ReaderError) -> (res: Error) {
        Error::Prepare(PrepareError::Reader(err))
    }
}

impl FromSpecImpl<ReaderError> for Error {
    open spec fn obeys_from_spec() -> bool {
        true
    }

    open spec fn from_spec(err: ReaderError) -> Error {
        Error::Prepare(PrepareError::Reader(err))
    }
}

impl From<FileError> for Error {
    fn from(err: FileError) -> (res: Error) {
        Error::File(err)
    }
}

impl FromSpecImpl<FileError> for Error {
    open spec fn obeys_from_spec() -> bool {
        true
    }

    open spec fn from_spec(err: FileError) -> Error {
        Error::File(err)
    }
}

impl From<UploadError> for Error {
    fn from(err: UploadError) -> (res: Error) {
        Error::Upload(err)
    }
}

impl FromSpecImpl<UploadError> for Error {
    open spec fn obeys_from_spec() -> bool {
        true
    }

    open spec fn from_spec(err: UploadError) -> Error {
        Error::Upload(err)
    }
}

} // verus!
