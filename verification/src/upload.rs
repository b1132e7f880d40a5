//! The record of an upload and its binding to a blob.

use vstd::prelude::*;
use vstd::std_specs::cmp::PartialEqSpecImpl;
use crate::blob::Blob;
use crate::chunk::{
    chunk_at, chunk_bytes, chunk_count, chunk_end, chunk_start, count_chunks,
    lemma_chunk_coverage, lemma_chunk_in_range, Chunk, ChunkIter,
};
use crate::error::UploadError;
use crate::fingerprint::{hash_slices, sha256, Digest, HASH_CHUNK_SIZE};
use crate::wire::{encode_state, lemma_encode_injective, read_record, write_record};

verus! {

/// What a record of an upload holds: the digest of the blob, the size of a chunk, and for
/// each chunk whether the server has acknowledged it.
#[verifier::ext_equal]
pub struct UploadState {
    pub hash: Seq<u8>,
    pub chunk_sz: int,
    pub sent: Seq<bool>,
}

impl UploadState {
    /// The digest has 32 bytes, the chunk size is positive and fits 32 bits, and the number
    /// of chunks fits 64 bits.
    pub open spec fn valid(self) -> bool {
        &&& self.hash.len() == 32
        &&& 0 < self.chunk_sz <= i32::MAX
        &&& self.sent.len() <= u64::MAX
    }

    /// The record of a blob of `bytes` cut into chunks of `chunk_sz` bytes, none of them
    /// acknowledged.
    pub open spec fn fresh(bytes: Seq<u8>, chunk_sz: int) -> UploadState {
        UploadState {
            hash: sha256(bytes),
            chunk_sz,
            sent: Seq::new(chunk_count(bytes.len(), chunk_sz as nat), |i: int| false),
        }
    }

    /// Whether the record belongs to a blob of `bytes`: it holds the digest of the bytes and
    /// one flag for each chunk.
    pub open spec fn fits(self, bytes: Seq<u8>) -> bool {
        &&& self.hash == sha256(bytes)
        &&& self.sent.len() == chunk_count(bytes.len(), self.chunk_sz as nat)
    }

    /// The record with chunk `index` acknowledged.
    pub open spec fn acknowledge(self, index: int) -> UploadState {
        UploadState { sent: self.sent.update(index, true), ..self }
    }

    /// Whether `later` may come after `self` in the life of an upload: it is the record of
    /// the same upload, and every chunk that is acknowledged in `self` is acknowledged in
    /// `later`.
    pub open spec fn progressed_to(self, later: UploadState) -> bool {
        &&& later.hash == self.hash
        &&& later.chunk_sz == self.chunk_sz
        &&& later.sent.len() == self.sent.len()
        &&& forall|i: int| 0 <= i < self.sent.len() && self.sent[i] ==> later.sent[i]
    }

    /// What binding the record to a blob of `bytes` gives: the record itself if it belongs
    /// to the blob, a fingerprint mismatch if it holds another digest, and an invalid
    /// argument if it holds the digest of the blob and a number of flags that is not the
    /// number of chunks of the blob.
    pub open spec fn bound_to(self, bytes: Seq<u8>) -> Result<UploadState, UploadError> {
        if self.hash != sha256(bytes) {
            Err(UploadError::FingerprintMismatch)
        } else if !self.fits(bytes) {
            Err(UploadError::InvalidArgument)
        } else {
            Ok(self)
        }
    }
}

/// The record that `bytes` is the persisted form of, if there is one.
pub open spec fn decode_state(bytes: Seq<u8>) -> Option<UploadState> {
    if exists|state: UploadState| state.valid() && encode_state(state) == bytes {
        Some(choose|state: UploadState| state.valid() && encode_state(state) == bytes)
    } else {
        None
    }
}

/// A record that is written and read back is the record that was written.
pub proof fn lemma_serialize_round_trip(state: UploadState)
    requires
        state.valid(),
    ensures
        decode_state(encode_state(state)) == Some(state),
{
    let read = choose|read: UploadState| read.valid() && encode_state(read) == encode_state(state);
    lemma_encode_injective(read, state);
}

/// A record that is written, read back and bound to a blob is bound as the record that was
/// written: to a blob that holds the bytes that the record was made for it is bound with
/// its flags as they were, and a blob with another digest is refused as a fingerprint
/// mismatch.
pub proof fn lemma_rehydrate_round_trip(state: UploadState, bytes: Seq<u8>)
    requires
        state.valid(),
    ensures
        ({
            let read = decode_state(encode_state(state));
            &&& read == Some(state)
            &&& state.fits(bytes) ==> read.unwrap().bound_to(bytes) == Ok::<
                UploadState,
                UploadError,
            >(state)
            &&& state.hash != sha256(bytes) <==> read.unwrap().bound_to(bytes) == Err::<
                UploadState,
                UploadError,
            >(UploadError::FingerprintMismatch)
        }),
{
    lemma_serialize_round_trip(state);
}

/// Progress is kept over any number of steps: a record has progressed to itself, and
/// progress after progress is progress. So a chunk that is acknowledged stays
/// acknowledged however many operations follow.
pub proof fn lemma_progress_is_monotone(first: UploadState, second: UploadState, third: UploadState)
    ensures
        first.progressed_to(first),
        first.progressed_to(second) && second.progressed_to(third) ==> first.progressed_to(third),
{
}

/// The number of `true` entries of `sent`.
pub open spec fn count_sent(sent: Seq<bool>) -> nat
    decreases sent.len(),
{
    if sent.len() == 0 {
        0
    } else {
        count_sent(sent.drop_last()) + if sent.last() {
            1nat
        } else {
            0nat
        }
    }
}

/// The persistable record of an upload. It can be stored and later bound again, with
/// [`ResumableUploadData::enliven`], to a blob that holds the same bytes.
#[derive(Debug, Clone)]
pub struct ResumableUploadData {
    hash: Digest,
    chunk_sz: i32,
    sent: Vec<bool>,
}

impl View for ResumableUploadData {
    type V = UploadState;

    closed spec fn view(&self) -> UploadState {
        UploadState { hash: self.hash@, chunk_sz: self.chunk_sz as int, sent: self.sent@ }
    }
}

impl ResumableUploadData {
    /// The chunk size is positive.
    pub open spec fn wf(&self) -> bool {
        self@.valid()
    }

    /// The record of a new upload of `file` in chunks of `chunk_sz` bytes: the digest of the
    /// blob and one flag for each chunk, none of them set. A chunk size that is not positive
    /// is refused.
    pub fn new(file: &Blob, chunk_sz: i32) -> (made: Result<Self, UploadError>)
        ensures
            chunk_sz <= 0 ==> made == Err::<Self, UploadError>(UploadError::InvalidArgument),
            chunk_sz > 0 ==> match made {
                Ok(data) => {
                    &&& data.wf()
                    &&& data@ == UploadState::fresh(file@, chunk_sz as int)
                    &&& data@.sent.len() == chunk_count(file@.len(), chunk_sz as nat)
                    &&& data@.fits(file@)
                },
                Err(_) => false,
            },
    {
        if chunk_sz <= 0 {
            return Err(UploadError::InvalidArgument);
        }
        let nchunks = count_chunks(file.size(), chunk_sz as usize);
        let mut sent: Vec<bool> = Vec::new();
        let mut i: usize = 0;
        while i < nchunks
            invariant
                i <= nchunks,
                sent@.len() == i,
                forall|j: int| 0 <= j < i ==> !sent@[j],
            decreases nchunks - i,
        {
            sent.push(false);
            i += 1;
        }
        let hash = Self::hash_parts(file);
        let data = Self { hash, chunk_sz, sent };
        proof {
            hash.lemma_len();
            assert(data@ =~= UploadState::fresh(file@, chunk_sz as int));
        }
        Ok(data)
    }

    /// The fingerprint of `file`: the SHA-256 digest of its bytes, which are read in slices
    /// of [`HASH_CHUNK_SIZE`] bytes.
    pub fn hash_parts(file: &Blob) -> (digest: Digest)
        ensures
            digest@ == sha256(file@),
    {
        hash_slices(file, HASH_CHUNK_SIZE)
    }

    /// A record made of its parts. A chunk size that is not positive is refused.
    pub fn from_parts(hash: Digest, chunk_sz: i32, sent: Vec<bool>) -> (made: Result<
        Self,
        UploadError,
    >)
        ensures
            chunk_sz <= 0 ==> made == Err::<Self, UploadError>(UploadError::InvalidArgument),
            chunk_sz > 0 ==> match made {
                Ok(data) => data.wf() && data@ == (UploadState {
                    hash: hash@,
                    chunk_sz: chunk_sz as int,
                    sent: sent@,
                }),
                Err(_) => false,
            },
    {
        if chunk_sz <= 0 {
            return Err(UploadError::InvalidArgument);
        }
        proof {
            hash.lemma_len();
            assert(sent.len() == sent@.len());
        }
        Ok(Self { hash, chunk_sz, sent })
    }

    /// The digest of the blob that the record belongs to.
    pub fn hash(&self) -> (hash: Digest)
        ensures
            hash@ == self@.hash,
    {
        self.hash
    }

    /// The size of a chunk in bytes.
    pub fn chunk_size(&self) -> (chunk_sz: i32)
        ensures
            chunk_sz == self@.chunk_sz,
    {
        self.chunk_sz
    }

    /// For each chunk, whether the server has acknowledged it.
    pub fn sent(&self) -> (sent: &[bool])
        ensures
            sent@ == self@.sent,
    {
        self.sent.as_slice()
    }

    /// Binds the record to `file` again. The digest of `file` is computed anew: if it
    /// differs from the digest in the record, the record belongs to another blob and is
    /// refused. A record with the digest of `file` whose number of flags is not the number
    /// of chunks of `file` is refused as well. The flags are left as they are.
    pub fn enliven<'a>(self, file: &'a Blob) -> (bound: Result<ResumableUpload<'a>, UploadError>)
        requires
            self.wf(),
        ensures
            match bound {
                Ok(upload) => {
                    &&& self@.bound_to(file@) == Ok::<UploadState, UploadError>(upload@)
                    &&& upload.wf()
                    &&& upload.blob() == file
                },
                Err(e) => self@.bound_to(file@) == Err::<UploadState, UploadError>(e),
            },
    {
        let hash = Self::hash_parts(file);
        if hash != self.hash {
            return Err(UploadError::FingerprintMismatch);
        }
        if self.sent.len() != count_chunks(file.size(), self.chunk_sz as usize) {
            return Err(UploadError::InvalidArgument);
        }
        Ok(ResumableUpload { data: self, file })
    }

    /// The persisted form of the record.
    pub fn serialize(&self) -> (bytes: Vec<u8>)
        requires
            self.wf(),
        ensures
            bytes@ == encode_state(self@),
    {
        write_record(&self.hash, self.chunk_sz, &self.sent)
    }

    /// The record that `bytes` is the persisted form of, if there is one.
    pub fn deserialize(bytes: &[u8]) -> (read: Option<Self>)
        ensures
            match read {
                Some(data) => data.wf() && decode_state(bytes@) == Some(data@),
                None => decode_state(bytes@).is_none(),
            },
    {
        match read_record(bytes) {
            Some((hash, chunk_sz, sent)) => {
                let data = Self { hash, chunk_sz, sent };
                proof {
                    lemma_serialize_round_trip(data@);
                }
                Some(data)
            },
            None => None,
        }
    }
}

impl PartialEq for ResumableUploadData {
    fn eq(&self, other: &ResumableUploadData) -> (equal: bool) {
        if self.hash != other.hash || self.chunk_sz != other.chunk_sz || self.sent.len()
            != other.sent.len() {
            return false;
        }
        let mut i: usize = 0;
        while i < self.sent.len()
            invariant
                i <= self.sent@.len(),
                self.sent@.len() == other.sent@.len(),
                forall|j: int| 0 <= j < i ==> self.sent@[j] == other.sent@[j],
            decreases self.sent@.len() - i,
        {
            if self.sent[i] != other.sent[i] {
                return false;
            }
            i += 1;
        }
        assert(self@ =~= other@);
        true
    }
}

impl Eq for ResumableUploadData {

}

impl PartialEqSpecImpl for ResumableUploadData {
    open spec fn obeys_eq_spec() -> bool {
        true
    }

    open spec fn eq_spec(&self, other: &ResumableUploadData) -> bool {
        self@ == other@
    }
}

/// An upload in progress: a record bound to the blob that it is the record of.
#[derive(Debug)]
pub struct ResumableUpload<'a> {
    data: ResumableUploadData,
    file: &'a Blob,
}

impl<'a> View for ResumableUpload<'a> {
    type V = UploadState;

    closed spec fn view(&self) -> UploadState {
        self.data@
    }
}

impl<'a> ResumableUpload<'a> {
    /// The blob that is uploaded.
    pub closed spec fn blob(&self) -> &'a Blob {
        self.file
    }

    /// The record is valid and belongs to the blob: it holds the digest of the blob and
    /// one flag for each of its chunks.
    pub open spec fn wf(&self) -> bool {
        &&& self@.valid()
        &&& self@.fits(self.blob()@)
    }

    /// A new upload of `file` in chunks of `chunk_sz` bytes, with no chunk acknowledged. A
    /// chunk size that is not positive is refused.
    pub fn new(file: &'a Blob, chunk_sz: i32) -> (made: Result<ResumableUpload<'a>, UploadError>)
        ensures
            chunk_sz <= 0 ==> made == Err::<ResumableUpload<'a>, UploadError>(
                UploadError::InvalidArgument,
            ),
            chunk_sz > 0 ==> match made {
                Ok(upload) => {
                    &&& upload.wf()
                    &&& upload.blob() == file
                    &&& upload@ == UploadState::fresh(file@, chunk_sz as int)
                    &&& upload@.sent.len() == chunk_count(file@.len(), chunk_sz as nat)
                },
                Err(_) => false,
            },
    {
        match ResumableUploadData::new(file, chunk_sz) {
            Ok(data) => Ok(Self { data, file }),
            Err(e) => Err(e),
        }
    }

    /// The name of the blob, if it has one.
    pub fn file_name(&self) -> (name: Option<String>)
        ensures
            match name {
                Some(s) => self.blob().spec_name() == Some(s@),
                None => self.blob().spec_name().is_none(),
            },
    {
        self.file.name()
    }

    /// Calls `f` once for each chunk that is not acknowledged, in increasing order of
    /// index, with the index of the chunk and its bytes, and records what `f` returns as
    /// the new flag of the chunk. Chunks that are acknowledged already are passed over and
    /// stay acknowledged.
    pub fn for_each_unsent<F>(&mut self, f: F) where F: Fn(usize, &[u8]) -> bool
        requires
            old(self).wf(),
            forall|index: usize, bytes: &[u8]|
                index < old(self)@.sent.len() && bytes@ == chunk_bytes(
                    old(self).blob()@,
                    index as nat,
                    old(self)@.chunk_sz as nat,
                ) ==> call_requires(f, (index, bytes)),
        ensures
            final(self).wf(),
            final(self).blob() == old(self).blob(),
            old(self)@.progressed_to(final(self)@),
            forall|i: usize|
                i < old(self)@.sent.len() && !old(self)@.sent[i as int] ==> #[trigger] answered(
                    f,
                    i,
                    chunk_bytes(old(self).blob()@, i as nat, old(self)@.chunk_sz as nat),
                    final(self)@.sent[i as int],
                ),
    {
        let n = self.data.sent.len();
        let mut i: usize = 0;
        while i < n
            invariant
                i <= n,
                n == old(self)@.sent.len(),
                self.wf(),
                self.blob() == old(self).blob(),
                self@.hash == old(self)@.hash,
                self@.chunk_sz == old(self)@.chunk_sz,
                self@.sent.len() == old(self)@.sent.len(),
                forall|index: usize, bytes: &[u8]|
                    index < old(self)@.sent.len() && bytes@ == chunk_bytes(
                        old(self).blob()@,
                        index as nat,
                        old(self)@.chunk_sz as nat,
                    ) ==> call_requires(f, (index, bytes)),
                forall|j: int| i <= j < n ==> self@.sent[j] == old(self)@.sent[j],
                forall|j: int| 0 <= j < i && old(self)@.sent[j] ==> self@.sent[j],
                forall|j: usize|
                    j < i && !old(self)@.sent[j as int] ==> #[trigger] answered(
                        f,
                        j,
                        chunk_bytes(old(self).blob()@, j as nat, old(self)@.chunk_sz as nat),
                        self@.sent[j as int],
                    ),
            decreases n - i,
        {
            let ghost before = self@.sent;
            if !self.data.sent[i] {
                let chunk = chunk_at(self.file, self.data.chunk_sz as usize, i);
                let ok = f(i, chunk.bytes);
                self.data.sent[i] = ok;
                assert(call_ensures(f, (i, chunk.bytes), ok));
            }
            assert forall|j: usize| j < i + 1 && !old(self)@.sent[j as int] implies #[trigger] answered(
                f,
                j,
                chunk_bytes(old(self).blob()@, j as nat, old(self)@.chunk_sz as nat),
                self@.sent[j as int],
            ) by {
                if j < i {
                    assert(self@.sent[j as int] == before[j as int]);
                }
            }
            i += 1;
        }
    }

    /// The chunks that are not acknowledged, in increasing order of index.
    pub fn iter_unsent(&self) -> (chunks: Vec<Chunk<'a>>)
        requires
            self.wf(),
        ensures
            chunks@.len() == unsent_indices(self@.sent).len(),
            forall|j: int|
                0 <= j < chunks@.len() ==> (#[trigger] chunks@[j]).index == unsent_indices(
                    self@.sent,
                )[j] && chunks@[j].bytes@ == chunk_bytes(
                    self.blob()@,
                    chunks@[j].index as nat,
                    self@.chunk_sz as nat,
                ),
    {
        let mut iter = ChunkIter::new(self.file, self.data.chunk_sz);
        let mut chunks: Vec<Chunk<'a>> = Vec::new();
        let ghost sent = self@.sent;
        proof {
            assert(sent.subrange(0, 0) =~= Seq::<bool>::empty());
        }
        loop
            invariant
                self.wf(),
                sent == self@.sent,
                iter.wf(),
                iter.blob() == self.blob(),
                iter.chunk_sz() == self@.chunk_sz as nat,
                iter.position() <= sent.len(),
                chunks@.len() == unsent_indices(sent.subrange(0, iter.position() as int)).len(),
                forall|j: int|
                    0 <= j < chunks@.len() ==> (#[trigger] chunks@[j]).index == unsent_indices(
                        sent.subrange(0, iter.position() as int),
                    )[j] && chunks@[j].bytes@ == chunk_bytes(
                        self.blob()@,
                        chunks@[j].index as nat,
                        self@.chunk_sz as nat,
                    ),
            ensures
                iter.position() == sent.len(),
                chunks@.len() == unsent_indices(sent.subrange(0, iter.position() as int)).len(),
                forall|j: int|
                    0 <= j < chunks@.len() ==> (#[trigger] chunks@[j]).index == unsent_indices(
                        sent.subrange(0, iter.position() as int),
                    )[j] && chunks@[j].bytes@ == chunk_bytes(
                        self.blob()@,
                        chunks@[j].index as nat,
                        self@.chunk_sz as nat,
                    ),
            decreases sent.len() - iter.position(),
        {
            let ghost at = iter.position() as int;
            match iter.next() {
                None => {
                    break ;
                },
                Some(chunk) => {
                    proof {
                        assert(sent.subrange(0, at + 1).drop_last() =~= sent.subrange(0, at));
                    }
                    if !self.data.sent[chunk.index] {
                        chunks.push(chunk);
                    }
                },
            }
        }
        proof {
            assert(sent.subrange(0, sent.len() as int) =~= sent);
        }
        chunks
    }

    /// The first chunk that is not acknowledged, or `None` when every chunk is
    /// acknowledged.
    pub fn first_unsent(&self) -> (first: Option<Chunk<'a>>)
        requires
            self.wf(),
        ensures
            match first {
                None => {
                    &&& forall|i: int| 0 <= i < self@.sent.len() ==> self@.sent[i]
                    &&& unsent_indices(self@.sent).len() == 0
                },
                Some(chunk) => {
                    &&& chunk.index < self@.sent.len()
                    &&& !self@.sent[chunk.index as int]
                    &&& forall|i: int| 0 <= i < chunk.index ==> self@.sent[i]
                    &&& unsent_indices(self@.sent).len() > 0
                    &&& chunk.index == unsent_indices(self@.sent)[0]
                    &&& chunk.bytes@ == chunk_bytes(
                        self.blob()@,
                        chunk.index as nat,
                        self@.chunk_sz as nat,
                    )
                },
            },
    {
        let mut i: usize = 0;
        while i < self.data.sent.len()
            invariant
                self.wf(),
                i <= self@.sent.len(),
                forall|j: int| 0 <= j < i ==> self@.sent[j],
            decreases self@.sent.len() - i,
        {
            if !self.data.sent[i] {
                proof {
                    lemma_first_unsent(self@.sent, i as int);
                }
                return Some(chunk_at(self.file, self.data.chunk_sz as usize, i));
            }
            i += 1;
        }
        proof {
            lemma_unsent_indices(self@.sent);
            if unsent_indices(self@.sent).len() > 0 {
                assert(!self@.sent[unsent_indices(self@.sent)[0]]);
            }
        }
        None
    }

    /// Records that the server has acknowledged chunk `index`.
    pub fn sent_ok(&mut self, index: usize)
        requires
            old(self).wf(),
            index < old(self)@.sent.len(),
        ensures
            final(self).wf(),
            final(self).blob() == old(self).blob(),
            final(self)@ == old(self)@.acknowledge(index as int),
            old(self)@.progressed_to(final(self)@),
    {
        self.data.sent[index] = true;
        assert(self@ =~= old(self)@.acknowledge(index as int));
    }

    /// The size of a chunk in bytes.
    pub fn chunk_size(&self) -> (chunk_sz: i32)
        ensures
            chunk_sz == self@.chunk_sz,
    {
        self.data.chunk_sz
    }

    /// The number of chunks.
    pub fn chunks(&self) -> (n: u64)
        ensures
            n == self@.sent.len(),
    {
        self.data.sent.len() as u64
    }

    /// The number of chunks.
    pub fn nchunks(&self) -> (n: usize)
        ensures
            n == self@.sent.len(),
    {
        self.data.sent.len()
    }

    /// The number of chunks that the server has acknowledged.
    pub fn sent(&self) -> (n: u64)
        ensures
            n == count_sent(self@.sent),
    {
        let mut n: u64 = 0;
        let mut i: usize = 0;
        proof {
            assert(self@.sent.subrange(0, 0) =~= Seq::<bool>::empty());
        }
        while i < self.data.sent.len()
            invariant
                i <= self@.sent.len(),
                n == count_sent(self@.sent.subrange(0, i as int)),
                n <= i,
            decreases self@.sent.len() - i,
        {
            proof {
                assert(self@.sent.subrange(0, i + 1).drop_last() =~= self@.sent.subrange(
                    0,
                    i as int,
                ));
            }
            if self.data.sent[i] {
                n += 1;
            }
            i += 1;
        }
        proof {
            assert(self@.sent.subrange(0, i as int) =~= self@.sent);
        }
        n
    }

    /// A copy of the record, to be stored.
    pub fn as_data(&self) -> (data: ResumableUploadData)
        ensures
            data@ == self@,
            self.wf() ==> data.wf(),
    {
        let mut sent: Vec<bool> = Vec::new();
        let mut i: usize = 0;
        while i < self.data.sent.len()
            invariant
                i <= self.data.sent@.len(),
                sent@ == self.data.sent@.subrange(0, i as int),
            decreases self.data.sent@.len() - i,
        {
            sent.push(self.data.sent[i]);
            i += 1;
            assert(sent@ =~= self.data.sent@.subrange(0, i as int));
        }
        assert(sent@ =~= self.data.sent@);
        let data = ResumableUploadData { hash: self.data.hash, chunk_sz: self.data.chunk_sz, sent };
        assert(data@ =~= self@);
        data
    }

    /// The persisted form of the record.
    pub fn serialize(&self) -> (bytes: Vec<u8>)
        requires
            self.wf(),
        ensures
            bytes@ == encode_state(self@),
    {
        self.data.serialize()
    }

    /// The size of the blob in bytes.
    pub fn size(&self) -> (n: usize)
        ensures
            n == self.blob()@.len(),
    {
        self.file.size()
    }
}

/// A new upload of `file` in chunks of `chunk_sz` bytes, with no chunk acknowledged: the
/// same as [`ResumableUpload::new`].
pub fn new_resumable_upload<'a>(file: &'a Blob, chunk_sz: i32) -> (made: Result<
    ResumableUpload<'a>,
    UploadError,
>)
    ensures
        chunk_sz <= 0 ==> made == Err::<ResumableUpload<'a>, UploadError>(
            UploadError::InvalidArgument,
        ),
        chunk_sz > 0 ==> match made {
            Ok(upload) => {
                &&& upload.wf()
                &&& upload.blob() == file
                &&& upload@ == UploadState::fresh(file@, chunk_sz as int)
                &&& upload@.sent.len() == chunk_count(file@.len(), chunk_sz as nat)
            },
            Err(_) => false,
        },
{
    ResumableUpload::new(file, chunk_sz)
}

/// Whether `flag` is what a call of `f` on chunk `index`, which holds the bytes `chunk`,
/// may have returned.
pub open spec fn answered<F: Fn(usize, &[u8]) -> bool>(
    f: F,
    index: usize,
    chunk: Seq<u8>,
    flag: bool,
) -> bool {
    exists|bytes: &[u8]| bytes@ == chunk && #[trigger] call_ensures(f, (index, bytes), flag)
}

/// The number of bytes of a blob of `size` bytes that stand in acknowledged chunks.
pub open spec fn bytes_acknowledged(sent: Seq<bool>, chunk_sz: nat, size: nat) -> nat
    decreases sent.len(),
{
    if sent.len() == 0 {
        0
    } else {
        let index = (sent.len() - 1) as nat;
        bytes_acknowledged(sent.drop_last(), chunk_sz, size) + if sent.last() {
            (chunk_end(index, chunk_sz, size) - chunk_start(index, chunk_sz)) as nat
        } else {
            0nat
        }
    }
}

/// The acknowledged chunks among the first `upto` hold no more bytes than these chunks
/// hold together, and as many exactly when all of them are acknowledged.
proof fn lemma_bytes_of_prefix(sent: Seq<bool>, chunk_sz: nat, size: nat, upto: nat)
    requires
        chunk_sz > 0,
        sent.len() == chunk_count(size, chunk_sz),
        upto <= sent.len(),
    ensures
        upto == 0 ==> bytes_acknowledged(sent.subrange(0, upto as int), chunk_sz, size) == 0,
        upto > 0 ==> bytes_acknowledged(sent.subrange(0, upto as int), chunk_sz, size)
            <= chunk_end((upto - 1) as nat, chunk_sz, size),
        upto > 0 ==> (bytes_acknowledged(sent.subrange(0, upto as int), chunk_sz, size)
            == chunk_end((upto - 1) as nat, chunk_sz, size) <==> forall|i: int|
            0 <= i < upto ==> sent[i]),
    decreases upto,
{
    let prefix = sent.subrange(0, upto as int);
    if upto > 0 {
        let index = (upto - 1) as nat;
        lemma_bytes_of_prefix(sent, chunk_sz, size, index);
        lemma_chunk_coverage(size, chunk_sz);
        lemma_chunk_in_range(size, chunk_sz, index);
        assert(prefix.drop_last() =~= sent.subrange(0, index as int));
        assert(prefix.last() == sent[index as int]);
        if index > 0 {
            assert(chunk_end((index - 1) as nat, chunk_sz, size) == chunk_start(index, chunk_sz));
        }
    }
}

/// The acknowledged chunks hold no more bytes than the blob, and as many as the blob
/// exactly when every chunk is acknowledged.
pub proof fn lemma_bytes_acknowledged(sent: Seq<bool>, chunk_sz: nat, size: nat)
    requires
        chunk_sz > 0,
        sent.len() == chunk_count(size, chunk_sz),
    ensures
        bytes_acknowledged(sent, chunk_sz, size) <= size,
        bytes_acknowledged(sent, chunk_sz, size) == size <==> forall|i: int|
            0 <= i < sent.len() ==> sent[i],
{
    lemma_bytes_of_prefix(sent, chunk_sz, size, sent.len());
    lemma_chunk_coverage(size, chunk_sz);
    assert(sent.subrange(0, sent.len() as int) =~= sent);
}

/// The indices of the `false` entries of `sent`, in increasing order.
pub open spec fn unsent_indices(sent: Seq<bool>) -> Seq<int>
    decreases sent.len(),
{
    if sent.len() == 0 {
        Seq::empty()
    } else if sent.last() {
        unsent_indices(sent.drop_last())
    } else {
        unsent_indices(sent.drop_last()).push(sent.len() - 1)
    }
}

/// The unsent indices are the indices of the chunks that are not acknowledged, each once
/// and in increasing order; there are as many of them as there are chunks that are not
/// acknowledged.
pub proof fn lemma_unsent_indices(sent: Seq<bool>)
    ensures
        unsent_indices(sent).len() + count_sent(sent) == sent.len(),
        forall|j: int|
            0 <= j < unsent_indices(sent).len() ==> 0 <= (#[trigger] unsent_indices(sent)[j])
                < sent.len() && !sent[unsent_indices(sent)[j]],
        forall|j: int, k: int|
            0 <= j < k < unsent_indices(sent).len() ==> (#[trigger] unsent_indices(sent)[j]) < (
            #[trigger] unsent_indices(sent)[k]),
        forall|i: int|
            0 <= i < sent.len() && !sent[i] ==> exists|j: int|
                0 <= j < unsent_indices(sent).len() && #[trigger] unsent_indices(sent)[j] == i,
    decreases sent.len(),
{
    if sent.len() > 0 {
        let rest = sent.drop_last();
        lemma_unsent_indices(rest);
        let list = unsent_indices(sent);
        let shorter = unsent_indices(rest);
        assert forall|j: int| 0 <= j < list.len() implies 0 <= (#[trigger] list[j]) < sent.len()
            && !sent[list[j]] by {
            if j < shorter.len() {
                assert(list[j] == shorter[j]);
                assert(sent[shorter[j]] == rest[shorter[j]]);
            }
        }
        assert forall|j: int, k: int| 0 <= j < k < list.len() implies (#[trigger] list[j]) < (
        #[trigger] list[k]) by {
            assert(list[j] == shorter[j]);
            if k < shorter.len() {
                assert(list[k] == shorter[k]);
            }
        }
        assert forall|i: int| 0 <= i < sent.len() && !sent[i] implies exists|j: int|
            0 <= j < list.len() && #[trigger] list[j] == i by {
            if i < rest.len() {
                assert(!rest[i]);
                let j = choose|j: int| 0 <= j < shorter.len() && #[trigger] shorter[j] == i;
                assert(list[j] == i);
            } else {
                assert(list[list.len() - 1] == i);
            }
        }
    }
}

/// The first unsent index is the least index of a chunk that is not acknowledged, and
/// once that chunk is acknowledged the unsent indices are those that came after it. So a
/// transfer that takes the first chunk that is not acknowledged, again and again, sends
/// the chunks that a transfer before it has left, each once and in increasing order, and
/// no chunk that is acknowledged already.
pub proof fn lemma_transfer_resumes(sent: Seq<bool>)
    requires
        unsent_indices(sent).len() > 0,
    ensures
        0 <= unsent_indices(sent)[0] < sent.len(),
        !sent[unsent_indices(sent)[0]],
        forall|i: int| 0 <= i < unsent_indices(sent)[0] ==> sent[i],
        unsent_indices(sent.update(unsent_indices(sent)[0], true)) == unsent_indices(
            sent,
        ).drop_first(),
    decreases sent.len(),
{
    lemma_unsent_indices(sent);
    let list = unsent_indices(sent);
    let first = list[0];
    assert forall|i: int| 0 <= i < first implies sent[i] by {
        if !sent[i] {
            let j = choose|j: int| 0 <= j < list.len() && #[trigger] list[j] == i;
            if j > 0 {
                assert(list[0] < list[j]);
            }
        }
    }
    let rest = sent.drop_last();
    let shorter = unsent_indices(rest);
    if shorter.len() > 0 {
        lemma_transfer_resumes(rest);
        assert(first == shorter[0]);
        assert(sent.update(first, true).drop_last() =~= rest.update(first, true));
        assert(unsent_indices(sent.update(first, true)) =~= list.drop_first());
    } else {
        assert(first == sent.len() - 1);
        assert(sent.update(first, true).drop_last() =~= rest);
        assert(unsent_indices(sent.update(first, true)) =~= list.drop_first());
    }
}

/// The first chunk that is not acknowledged is the chunk at the first unsent index, and
/// every chunk is acknowledged exactly when there is no unsent index.
pub proof fn lemma_first_unsent(sent: Seq<bool>, first: int)
    requires
        0 <= first < sent.len(),
        !sent[first],
        forall|i: int| 0 <= i < first ==> sent[i],
    ensures
        unsent_indices(sent).len() > 0,
        unsent_indices(sent)[0] == first,
{
    lemma_unsent_indices(sent);
    let list = unsent_indices(sent);
    let j = choose|j: int| 0 <= j < list.len() && #[trigger] list[j] == first;
    if j > 0 {
        assert(list[0] < list[j]);
        assert(!sent[list[0]]);
    }
}


} // verus!
