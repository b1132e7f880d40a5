//! The fingerprint of a blob: the SHA-256 digest of its bytes.

use vstd::prelude::*;
use crate::blob::{Blob, MAX_BLOB_SIZE};
use crate::chunk::{chunk_count, chunk_start, lemma_chunk_appends, lemma_chunk_coverage, ChunkIter};
use sha2::Sha256;
use vstd::std_specs::cmp::PartialEqSpecImpl;

verus! {

/// A streaming SHA-256 hasher of the `sha2` crate. Verus sees nothing inside it: what
/// it has taken in is known through [`absorbed`] alone.
#[verifier::external_body]
pub struct Hasher {
    inner: Sha256,
}

/// The bytes that a hasher has taken in so far, in the order in which it took them.
pub uninterp spec fn absorbed(hasher: Hasher) -> Seq<u8>;

/// The SHA-256 digest of a sequence of bytes.
pub uninterp spec fn sha256(bytes: Seq<u8>) -> Seq<u8>;

/// `sha2::Sha256::default`: a hasher that has taken in nothing.
#[verifier::external_body]
fn hasher_new() -> (hasher: Hasher)
    ensures
        absorbed(hasher) == Seq::<u8>::empty(),
{
    Hasher { inner: Sha256::default() }
}

/// `sha2::Digest::update`: the hasher takes in `data` after what it had taken in before.
/// The call is left out where the hasher would have taken in more than the longest
/// message that has a digest.
#[verifier::external_body]
fn hasher_update(hasher: &mut Hasher, data: &[u8])
    requires
        absorbed(*old(hasher)).len() + data@.len() <= MAX_BLOB_SIZE,
    ensures
        absorbed(*final(hasher)) == absorbed(*old(hasher)) + data@,
{
    sha2::Digest::update(&mut hasher.inner, data)
}

/// `sha2::Digest::finalize`: the SHA-256 digest, 32 bytes, of all that the hasher has
/// taken in. The call is left out where that is more than the longest message that has a
/// digest.
#[verifier::external_body]
fn hasher_finalize(hasher: Hasher) -> (digest: [u8; 32])
    requires
        absorbed(hasher).len() <= MAX_BLOB_SIZE,
    ensures
        digest@ == sha256(absorbed(hasher)),
{
    sha2::Digest::finalize(hasher.inner).into()
}

/// A 256-bit digest: 32 bytes in the order in which the hash gives them. Two digests are
/// equal when all their bytes are.
#[derive(Debug, Clone, Copy)]
pub struct Digest {
    bytes: [u8; 32],
}

impl View for Digest {
    type V = Seq<u8>;

    closed spec fn view(&self) -> Seq<u8> {
        self.bytes@
    }
}

impl Digest {
    /// A digest made of the given bytes.
    pub fn from_bytes(bytes: [u8; 32]) -> (digest: Digest)
        ensures
            digest@ == bytes@,
    {
        Digest { bytes }
    }

    /// The bytes of the digest.
    pub fn as_bytes(&self) -> (bytes: &[u8; 32])
        ensures
            bytes@ == self@,
    {
        &self.bytes
    }

    /// A digest has 32 bytes.
    pub proof fn lemma_len(&self)
        ensures
            self@.len() == 32,
    {
    }
}

impl PartialEq for Digest {
    fn eq(&self, other: &Digest) -> (equal: bool) {
        let mut i: usize = 0;
        while i < 32
            invariant
                i <= 32,
                forall|j: int| 0 <= j < i ==> self.bytes@[j] == other.bytes@[j],
            decreases 32 - i,
        {
            if self.bytes[i] != other.bytes[i] {
                return false;
            }
            i += 1;
        }
        assert(self.bytes@ =~= other.bytes@);
        true
    }
}

impl Eq for Digest {

}

impl PartialEqSpecImpl for Digest {
    open spec fn obeys_eq_spec() -> bool {
        true
    }

    open spec fn eq_spec(&self, other: &Digest) -> bool {
        self@ == other@
    }
}

/// The size in bytes of the slices in which a blob is fed to the hasher.
pub const HASH_CHUNK_SIZE: i32 = 80_000;

/// The fingerprint of `blob`: the SHA-256 digest of its bytes in their natural order. The
/// blob is read in slices of `chunk_sz` bytes, which bounds the memory that hashing takes
/// and has no part in the result.
pub fn hash_slices(blob: &Blob, chunk_sz: i32) -> (digest: Digest)
    requires
        chunk_sz > 0,
    ensures
        digest@ == sha256(blob@),
{
    let mut hasher = hasher_new();
    let mut chunks = ChunkIter::new(blob, chunk_sz);
    let ghost n = chunk_count(blob@.len(), chunk_sz as nat);
    let size = blob.size();
    proof {
        lemma_chunk_coverage(blob@.len(), chunk_sz as nat);
        assert(blob@.subrange(0, 0) =~= Seq::<u8>::empty());
    }
    loop
        invariant
            chunk_sz > 0,
            blob@.len() == size <= MAX_BLOB_SIZE,
            chunks.wf(),
            chunks.blob() == blob,
            chunks.chunk_sz() == chunk_sz as nat,
            n == chunk_count(blob@.len(), chunk_sz as nat),
            chunks.position() <= n,
            chunks.position() < n ==> absorbed(hasher) == blob@.subrange(
                0,
                chunk_start(chunks.position(), chunk_sz as nat) as int,
            ),
            chunks.position() == n ==> absorbed(hasher) == blob@,
        ensures
            absorbed(hasher) == blob@,
        decreases n - chunks.position(),
    {
        let ghost i = chunks.position();
        match chunks.next() {
            None => {
                break ;
            },
            Some(chunk) => {
                proof {
                    lemma_chunk_appends(blob@, chunk_sz as nat, i);
                    lemma_chunk_coverage(blob@.len(), chunk_sz as nat);
                }
                hasher_update(&mut hasher, chunk.bytes);
                proof {
                    if i + 1 == n {
                        assert(blob@.subrange(0, blob@.len() as int) =~= blob@);
                    }
                }
            },
        }
    }
    Digest::from_bytes(hasher_finalize(hasher))
}

/// Two blobs that hold the same bytes have the same fingerprint.
pub proof fn lemma_fingerprint_determinism(first: Blob, second: Blob)
    requires
        first@ == second@,
    ensures
        sha256(first@) == sha256(second@),
{
}

} // verus!
