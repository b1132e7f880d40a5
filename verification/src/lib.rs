//! A resumable upload engine for the tus 1.0.0 protocol (Core and Creation).
//!
//! The crate holds the decisions of the engine and leaves the transport to
//! its caller: it fingerprints a blob, cuts it into chunks, keeps the record
//! of acknowledged chunks, and says which HTTP request comes next and what a
//! response means for the upload.

pub mod blob;
pub mod chunk;
pub mod error;
pub mod fingerprint;
pub mod media;
pub mod metadata;
pub mod text;
pub mod tus;
pub mod upload;
pub mod wire;

pub use blob::Blob;
pub use chunk::{Chunk, ChunkIter};
pub use error::UploadError;
pub use fingerprint::Digest;
pub use media::{Media, MediaFormat};
pub use upload::{new_resumable_upload, ResumableUpload, ResumableUploadData};
