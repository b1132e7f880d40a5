//! The ways in which an operation of the engine fails.

use vstd::prelude::*;

verus! {

/// A failure of the upload engine. Nothing is retried inside the engine: each failure
/// reaches the caller, and the record of acknowledged chunks stays as it was.
#[derive(Debug, Clone, PartialEq, Eq)]
pub enum UploadError {
    /// An argument is outside what the operation accepts: a chunk size that is not
    /// positive, a blob or a metadata value that is too long, or a persisted record that
    /// does not fit the blob it is bound to.
    InvalidArgument,
    /// The metadata key at position `index` holds a space or a comma.
    InvalidMetadataKey { index: usize },
    /// The digest in a persisted record differs from the digest of the blob.
    FingerprintMismatch,
    /// The transport could not deliver a request or its answer.
    TransportError { message: String },
    /// The server answered the creation request with a status other than 201.
    CreationRejected { status: u16, body: String },
    /// The server's answer lacks a header that the protocol requires.
    ProtocolError,
    /// The server answered the request for chunk `index` with a status other than 204.
    ChunkRejected { index: usize, status: u16 },
}

} // verus!
