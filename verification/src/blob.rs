//! The binary object that is uploaded.

use vstd::prelude::*;
use vstd::slice::slice_subrange;
use crate::error::UploadError;

verus! {

/// The largest size of a blob in bytes: the length of the longest message that has a
/// SHA-256 digest, which is one whose length in bits fits 64 bits.
pub const MAX_BLOB_SIZE: u64 = 0x1fff_ffff_ffff_ffff;

/// An immutable, byte-addressable binary object with an optional name. It holds at most
/// [`MAX_BLOB_SIZE`] bytes.
#[derive(Debug, PartialEq, Eq)]
pub struct Blob {
    name: Option<String>,
    bytes: Vec<u8>,
}

impl View for Blob {
    type V = Seq<u8>;

    /// The byte contents.
    closed spec fn view(&self) -> Seq<u8> {
        self.bytes@
    }
}

impl Blob {
    #[verifier::type_invariant]
    spec fn size_has_digest(&self) -> bool {
        self.bytes@.len() <= MAX_BLOB_SIZE
    }

    /// The name, as a sequence of characters, if the blob has one.
    pub closed spec fn spec_name(&self) -> Option<Seq<char>> {
        match self.name {
            Some(n) => Some(n@),
            None => None,
        }
    }

    /// A blob named `name` that holds `bytes`. More than [`MAX_BLOB_SIZE`] bytes are
    /// refused.
    pub fn new(name: Option<String>, bytes: Vec<u8>) -> (made: Result<Blob, UploadError>)
        ensures
            bytes@.len() > MAX_BLOB_SIZE ==> made == Err::<Blob, UploadError>(
                UploadError::InvalidArgument,
            ),
            bytes@.len() <= MAX_BLOB_SIZE ==> match made {
                Ok(blob) => blob@ == bytes@ && blob.spec_name() == match name {
                    Some(n) => Some(n@),
                    None => None,
                },
                Err(_) => false,
            },
    {
        if bytes.len() as u64 > MAX_BLOB_SIZE {
            return Err(UploadError::InvalidArgument);
        }
        Ok(Blob { name, bytes })
    }

    /// The size of a blob fits the machine's word.
    pub proof fn lemma_size_bounded(&self)
        ensures
            self@.len() <= usize::MAX,
    {
        assert(self.bytes.len() == self.bytes@.len());
    }

    /// The size in bytes.
    pub fn size(&self) -> (n: usize)
        ensures
            n == self@.len(),
            n <= MAX_BLOB_SIZE,
    {
        proof {
            use_type_invariant(self);
        }
        self.bytes.len()
    }

    /// The name, if the blob has one.
    pub fn name(&self) -> (n: Option<String>)
        ensures
            match n {
                Some(s) => self.spec_name() == Some(s@),
                None => self.spec_name().is_none(),
            },
    {
        match &self.name {
            Some(s) => Some(s.clone()),
            None => None,
        }
    }

    /// The whole contents.
    pub fn bytes(&self) -> (b: &[u8])
        ensures
            b@ == self@,
    {
        self.bytes.as_slice()
    }

    /// The bytes from `start` up to, not including, `end`, without copying them.
    pub fn slice(&self, start: usize, end: usize) -> (b: &[u8])
        requires
            start <= end <= self@.len(),
        ensures
            b@ == self@.subrange(start as int, end as int),
    {
        slice_subrange(self.bytes.as_slice(), start, end)
    }
}

} // verus!
