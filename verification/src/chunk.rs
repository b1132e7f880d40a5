//! Cutting a blob into chunks of a fixed size.

use vstd::prelude::*;
use crate::blob::Blob;

verus! {

/// The number of chunks of `chunk_sz` bytes that cover `size` bytes: `size / chunk_sz`,
/// rounded up. The last chunk may be shorter than the others.
pub open spec fn chunk_count(size: nat, chunk_sz: nat) -> nat {
    if chunk_sz == 0 {
        0
    } else if size % chunk_sz == 0 {
        size / chunk_sz
    } else {
        size / chunk_sz + 1
    }
}

/// The offset of the first byte of chunk `index`.
pub open spec fn chunk_start(index: nat, chunk_sz: nat) -> nat {
    index * chunk_sz
}

/// The offset just past the last byte of chunk `index` in a blob of `size` bytes.
pub open spec fn chunk_end(index: nat, chunk_sz: nat, size: nat) -> nat {
    if (index + 1) * chunk_sz <= size {
        (index + 1) * chunk_sz
    } else {
        size
    }
}

/// Whether the byte at `offset` belongs to chunk `index`.
pub open spec fn in_chunk(offset: nat, index: nat, chunk_sz: nat, size: nat) -> bool {
    chunk_start(index, chunk_sz) <= offset < chunk_end(index, chunk_sz, size)
}

/// The bytes of chunk `index` of `bytes`.
pub open spec fn chunk_bytes(bytes: Seq<u8>, index: nat, chunk_sz: nat) -> Seq<u8> {
    bytes.subrange(
        chunk_start(index, chunk_sz) as int,
        chunk_end(index, chunk_sz, bytes.len()) as int,
    )
}

/// Every chunk lies inside the blob and is not empty.
pub proof fn lemma_chunk_in_range(size: nat, chunk_sz: nat, index: nat)
    requires
        chunk_sz > 0,
        index < chunk_count(size, chunk_sz),
    ensures
        chunk_start(index, chunk_sz) < chunk_end(index, chunk_sz, size) <= size,
        chunk_end(index, chunk_sz, size) - chunk_start(index, chunk_sz) <= chunk_sz,
        index + 1 < chunk_count(size, chunk_sz) ==> chunk_end(index, chunk_sz, size)
            == chunk_start(index, chunk_sz) + chunk_sz,
        index + 1 == chunk_count(size, chunk_sz) ==> chunk_end(index, chunk_sz, size) == size,
{
    let n = chunk_count(size, chunk_sz);
    assert(index * chunk_sz < size && (index + 1) * chunk_sz == index * chunk_sz + chunk_sz && (index
        + 1 < n ==> (index + 1) * chunk_sz < size) && (index + 1 == n ==> (index + 1) * chunk_sz
        >= size)) by (nonlinear_arith)
        requires
            chunk_sz > 0,
            index < n,
            n == if size % chunk_sz == 0 {
                size / chunk_sz
            } else {
                size / chunk_sz + 1
            },
    ;
}

/// The chunks partition the blob: there are `size / chunk_sz` of them, rounded up; they
/// follow one another without gap or overlap from offset 0 to `size`; every byte lies in
/// exactly one of them; all but the last hold `chunk_sz` bytes, and the last holds what
/// is left.
pub proof fn lemma_chunk_coverage(size: nat, chunk_sz: nat)
    requires
        chunk_sz > 0,
    ensures
        size == 0 <==> chunk_count(size, chunk_sz) == 0,
        (chunk_count(size, chunk_sz) - 1) * chunk_sz < size <= chunk_count(size, chunk_sz)
            * chunk_sz || size == 0,
        chunk_count(size, chunk_sz) > 0 ==> chunk_start(0, chunk_sz) == 0 && chunk_end(
            (chunk_count(size, chunk_sz) - 1) as nat,
            chunk_sz,
            size,
        ) == size,
        forall|i: nat|
            i < chunk_count(size, chunk_sz) ==> #[trigger] chunk_start(i, chunk_sz) < chunk_end(
                i,
                chunk_sz,
                size,
            ) <= size,
        forall|i: nat|
            i + 1 < chunk_count(size, chunk_sz) ==> #[trigger] chunk_end(i, chunk_sz, size)
                == chunk_start(i + 1, chunk_sz),
        forall|i: nat|
            i + 1 < chunk_count(size, chunk_sz) ==> #[trigger] chunk_end(i, chunk_sz, size)
                - chunk_start(i, chunk_sz) == chunk_sz,
        size > 0 ==> chunk_end((chunk_count(size, chunk_sz) - 1) as nat, chunk_sz, size)
            - chunk_start((chunk_count(size, chunk_sz) - 1) as nat, chunk_sz) == size - (
        chunk_count(size, chunk_sz) - 1) * chunk_sz,
        forall|b: nat, i: nat|
            b < size && i < chunk_count(size, chunk_sz) ==> (#[trigger] in_chunk(
                b,
                i,
                chunk_sz,
                size,
            ) <==> i == b / chunk_sz),
{
    let n = chunk_count(size, chunk_sz);
    assert((size == 0 <==> n == 0) && ((n - 1) * chunk_sz < size <= n * chunk_sz || size == 0))
        by (nonlinear_arith)
        requires
            chunk_sz > 0,
            n == if size % chunk_sz == 0 {
                size / chunk_sz
            } else {
                size / chunk_sz + 1
            },
    ;
    if n > 0 {
        lemma_chunk_in_range(size, chunk_sz, (n - 1) as nat);
        assert(chunk_start(0, chunk_sz) == 0) by (nonlinear_arith);
    }
    assert forall|i: nat| i < n implies #[trigger] chunk_start(i, chunk_sz) < chunk_end(
        i,
        chunk_sz,
        size,
    ) <= size by {
        lemma_chunk_in_range(size, chunk_sz, i);
    }
    assert forall|i: nat| i + 1 < n implies #[trigger] chunk_end(i, chunk_sz, size) == chunk_start(
        i + 1,
        chunk_sz,
    ) && chunk_end(i, chunk_sz, size) - chunk_start(i, chunk_sz) == chunk_sz by {
        lemma_chunk_in_range(size, chunk_sz, i);
        assert((i + 1) * chunk_sz == i * chunk_sz + chunk_sz) by (nonlinear_arith);
    }
    assert forall|b: nat, i: nat| b < size && i < n implies (#[trigger] in_chunk(
        b,
        i,
        chunk_sz,
        size,
    ) <==> i == b / chunk_sz) by {
        lemma_chunk_in_range(size, chunk_sz, i);
        let q = b / chunk_sz;
        assert((i * chunk_sz <= b < (i + 1) * chunk_sz) <==> i == q) by (nonlinear_arith)
            requires
                chunk_sz > 0,
                q == b / chunk_sz,
        ;
    }
}

/// What the chunks before `index` hold, followed by chunk `index`, is what the chunks up to
/// and including `index` hold.
pub proof fn lemma_chunk_appends(bytes: Seq<u8>, chunk_sz: nat, index: nat)
    requires
        chunk_sz > 0,
        index < chunk_count(bytes.len(), chunk_sz),
    ensures
        bytes.subrange(0, chunk_start(index, chunk_sz) as int) + chunk_bytes(bytes, index, chunk_sz)
            == bytes.subrange(0, chunk_end(index, chunk_sz, bytes.len()) as int),
{
    lemma_chunk_in_range(bytes.len(), chunk_sz, index);
    assert(bytes.subrange(0, chunk_start(index, chunk_sz) as int) + chunk_bytes(
        bytes,
        index,
        chunk_sz,
    ) =~= bytes.subrange(0, chunk_end(index, chunk_sz, bytes.len()) as int));
}

/// A chunk of a blob: its position among the chunks and a reference to its bytes.
#[derive(Debug, Clone, Copy, PartialEq, Eq)]
pub struct Chunk<'a> {
    pub index: usize,
    pub bytes: &'a [u8],
}

/// Walks over the chunks of a blob in increasing order of index.
pub struct ChunkIter<'a> {
    file: &'a Blob,
    file_sz: usize,
    chunk_sz: usize,
    i: usize,
}

impl<'a> ChunkIter<'a> {
    /// The blob that is walked over.
    pub closed spec fn blob(&self) -> &'a Blob {
        self.file
    }

    /// The chunk size.
    pub closed spec fn chunk_sz(&self) -> nat {
        self.chunk_sz as nat
    }

    /// The index of the chunk that comes next.
    pub closed spec fn position(&self) -> nat {
        self.i as nat
    }

    /// The number of chunks of the blob.
    pub open spec fn count(&self) -> nat {
        chunk_count(self.blob()@.len(), self.chunk_sz())
    }

    /// The chunk size is positive and the position is at most the number of chunks.
    pub closed spec fn wf(&self) -> bool {
        &&& self.chunk_sz > 0
        &&& self.file_sz == self.file@.len()
        &&& self.i <= chunk_count(self.file@.len(), self.chunk_sz as nat)
    }

    /// An iterator over the chunks of `file`, `chunk_sz` bytes each, that starts at the
    /// first chunk.
    pub fn new(file: &'a Blob, chunk_sz: i32) -> (it: Self)
        requires
            chunk_sz > 0,
        ensures
            it.wf(),
            it.blob() == file,
            it.chunk_sz() == chunk_sz,
            it.position() == 0,
    {
        Self { file, file_sz: file.size(), chunk_sz: chunk_sz as usize, i: 0 }
    }

    /// The next chunk, or `None` when all chunks of the blob have been given.
    pub fn next(&mut self) -> (item: Option<Chunk<'a>>)
        requires
            old(self).wf(),
        ensures
            final(self).wf(),
            final(self).blob() == old(self).blob(),
            final(self).chunk_sz() == old(self).chunk_sz(),
            old(self).position() < old(self).count() ==> final(self).position() == old(
                self,
            ).position() + 1 && match item {
                Some(chunk) => chunk.index == old(self).position() && chunk.bytes@ == chunk_bytes(
                    old(self).blob()@,
                    old(self).position(),
                    old(self).chunk_sz(),
                ),
                None => false,
            },
            old(self).position() >= old(self).count() ==> item.is_none() && final(self).position()
                == old(self).position(),
    {
        let index = self.i;
        if index >= count_chunks(self.file_sz, self.chunk_sz) {
            return None;
        }
        self.i = index + 1;
        Some(chunk_at(self.file, self.chunk_sz, index))
    }
}

/// Chunk `index` of `file` cut into chunks of `chunk_sz` bytes. The bytes are not copied.
pub fn chunk_at<'a>(file: &'a Blob, chunk_sz: usize, index: usize) -> (chunk: Chunk<'a>)
    requires
        chunk_sz > 0,
        index < chunk_count(file@.len(), chunk_sz as nat),
    ensures
        chunk.index == index,
        chunk.bytes@ == chunk_bytes(file@, index as nat, chunk_sz as nat),
{
    let size = file.size();
    proof {
        lemma_chunk_in_range(size as nat, chunk_sz as nat, index as nat);
        assert((index + 1) * chunk_sz == index * chunk_sz + chunk_sz) by (nonlinear_arith);
    }
    let start = index * chunk_sz;
    let end = if size - start < chunk_sz {
        size
    } else {
        start + chunk_sz
    };
    Chunk { index, bytes: file.slice(start, end) }
}

/// The number of chunks of `chunk_sz` bytes that cover `size` bytes.
pub fn count_chunks(size: usize, chunk_sz: usize) -> (n: usize)
    requires
        chunk_sz > 0,
    ensures
        n == chunk_count(size as nat, chunk_sz as nat),
        n <= size,
{
    assert(chunk_count(size as nat, chunk_sz as nat) <= size) by (nonlinear_arith)
        requires
            chunk_sz > 0,
            chunk_count(size as nat, chunk_sz as nat) == if size as nat % chunk_sz as nat == 0 {
                size as nat / chunk_sz as nat
            } else {
                size as nat / chunk_sz as nat + 1
            },
    ;
    if size % chunk_sz == 0 {
        size / chunk_sz
    } else {
        size / chunk_sz + 1
    }
}

} // verus!
