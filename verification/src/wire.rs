//! The persisted form of an upload record.
//!
//! A record is written as a version byte, the 32 bytes of the digest, the chunk size as
//! four bytes and the number of chunks as eight bytes, both little-endian, and then one
//! byte for each chunk: 1 if the chunk is acknowledged, 0 if it is not.

use vstd::prelude::*;
use vstd::bytes::{
    lemma_auto_spec_u32_to_from_le_bytes, lemma_auto_spec_u64_to_from_le_bytes,
    spec_u32_from_le_bytes, spec_u32_to_le_bytes, spec_u64_from_le_bytes, spec_u64_to_le_bytes,
    u32_from_le_bytes, u32_to_le_bytes, u64_from_le_bytes, u64_to_le_bytes,
};
use vstd::slice::slice_subrange;
use crate::fingerprint::Digest;
use crate::upload::UploadState;

verus! {

/// The version of the persisted form that this crate writes and reads.
pub const WIRE_VERSION: u8 = 1;

/// The number of bytes that stand before the flags.
pub const WIRE_HEADER_LEN: usize = 45;

/// The byte that stands for a flag.
pub open spec fn flag_byte(flag: bool) -> u8 {
    if flag {
        1
    } else {
        0
    }
}

/// The bytes that stand for the flags of the chunks.
pub open spec fn flag_bytes(sent: Seq<bool>) -> Seq<u8> {
    Seq::new(sent.len(), |i: int| flag_byte(sent[i]))
}

/// The persisted form of a record.
pub open spec fn encode_state(state: UploadState) -> Seq<u8> {
    seq![WIRE_VERSION] + state.hash + spec_u32_to_le_bytes(state.chunk_sz as u32)
        + spec_u64_to_le_bytes(state.sent.len() as u64) + flag_bytes(state.sent)
}

/// Where each field of a record stands in its persisted form.
pub proof fn lemma_encode_layout(state: UploadState)
    requires
        state.valid(),
    ensures
        encode_state(state).len() == WIRE_HEADER_LEN + state.sent.len(),
        encode_state(state)[0] == WIRE_VERSION,
        encode_state(state).subrange(1, 33) == state.hash,
        encode_state(state).subrange(33, 37) == spec_u32_to_le_bytes(state.chunk_sz as u32),
        spec_u32_from_le_bytes(encode_state(state).subrange(33, 37)) == state.chunk_sz,
        encode_state(state).subrange(37, 45) == spec_u64_to_le_bytes(state.sent.len() as u64),
        spec_u64_from_le_bytes(encode_state(state).subrange(37, 45)) == state.sent.len(),
        encode_state(state).subrange(45, encode_state(state).len() as int) == flag_bytes(
            state.sent,
        ),
{
    lemma_auto_spec_u32_to_from_le_bytes();
    lemma_auto_spec_u64_to_from_le_bytes();
    let e = encode_state(state);
    let size = spec_u32_to_le_bytes(state.chunk_sz as u32);
    let count = spec_u64_to_le_bytes(state.sent.len() as u64);
    assert(size.len() == 4);
    assert(count.len() == 8);
    assert(e.subrange(1, 33) =~= state.hash);
    assert(e.subrange(33, 37) =~= size);
    assert(e.subrange(37, 45) =~= count);
    assert(e.subrange(45, e.len() as int) =~= flag_bytes(state.sent));
}

/// Two records with the same persisted form are the same record.
pub proof fn lemma_encode_injective(first: UploadState, second: UploadState)
    requires
        first.valid(),
        second.valid(),
        encode_state(first) == encode_state(second),
    ensures
        first == second,
{
    lemma_encode_layout(first);
    lemma_encode_layout(second);
    assert(first.sent =~= second.sent) by {
        assert(first.sent.len() == second.sent.len());
        assert forall|i: int| 0 <= i < first.sent.len() implies first.sent[i] == second.sent[i] by {
            assert(flag_bytes(first.sent)[i] == flag_bytes(second.sent)[i]);
        }
    }
    assert(first =~= second);
}

/// Appends the bytes of `src` to `out`.
fn append_bytes(out: &mut Vec<u8>, src: &[u8])
    ensures
        final(out)@ == old(out)@ + src@,
{
    let mut i: usize = 0;
    while i < src.len()
        invariant
            i <= src@.len(),
            out@ == old(out)@ + src@.subrange(0, i as int),
        decreases src@.len() - i,
    {
        out.push(src[i]);
        i += 1;
        assert(out@ =~= old(out)@ + src@.subrange(0, i as int));
    }
    assert(src@.subrange(0, i as int) =~= src@);
}

/// Writes a record in its persisted form.
pub(crate) fn write_record(hash: &Digest, chunk_sz: i32, sent: &Vec<bool>) -> (out: Vec<u8>)
    requires
        chunk_sz > 0,
    ensures
        out@ == encode_state(UploadState { hash: hash@, chunk_sz: chunk_sz as int, sent: sent@ }),
{
    let mut out: Vec<u8> = Vec::new();
    out.push(WIRE_VERSION);
    append_bytes(&mut out, hash.as_bytes().as_slice());
    let size = u32_to_le_bytes(chunk_sz as u32);
    append_bytes(&mut out, size.as_slice());
    let count = u64_to_le_bytes(sent.len() as u64);
    append_bytes(&mut out, count.as_slice());
    let ghost head = out@;
    let mut i: usize = 0;
    while i < sent.len()
        invariant
            i <= sent@.len(),
            out@ == head + flag_bytes(sent@).subrange(0, i as int),
        decreases sent@.len() - i,
    {
        out.push(if sent[i] { 1u8 } else { 0u8 });
        i += 1;
        assert(out@ =~= head + flag_bytes(sent@).subrange(0, i as int));
    }
    assert(flag_bytes(sent@).subrange(0, i as int) =~= flag_bytes(sent@));
    assert(seq![WIRE_VERSION] =~= Seq::<u8>::empty().push(WIRE_VERSION));
    out
}

/// Reads a record from its persisted form. The bytes are refused unless they are the
/// persisted form of a record: the version is the one this crate writes, the chunk size
/// is positive, the number of flags is the one announced, and each flag is 0 or 1.
pub(crate) fn read_record(bytes: &[u8]) -> (read: Option<(Digest, i32, Vec<bool>)>)
    ensures
        match read {
            Some((hash, chunk_sz, sent)) => {
                let state = UploadState { hash: hash@, chunk_sz: chunk_sz as int, sent: sent@ };
                state.valid() && encode_state(state) == bytes@
            },
            None => forall|state: UploadState| state.valid() ==> encode_state(state) != bytes@,
        },
{
    proof {
        lemma_auto_spec_u32_to_from_le_bytes();
        lemma_auto_spec_u64_to_from_le_bytes();
    }
    if bytes.len() < WIRE_HEADER_LEN || bytes[0] != WIRE_VERSION {
        assert forall|state: UploadState| state.valid() implies encode_state(state) != bytes@ by {
            lemma_encode_layout(state);
        }
        return None;
    }
    let size = u32_from_le_bytes(slice_subrange(bytes, 33, 37));
    let count = u64_from_le_bytes(slice_subrange(bytes, 37, 45));
    if size == 0 || size > 0x7fff_ffff || count != (bytes.len() - WIRE_HEADER_LEN) as u64 {
        assert forall|state: UploadState| state.valid() implies encode_state(state) != bytes@ by {
            lemma_encode_layout(state);
        }
        return None;
    }
    let mut hash = [0u8; 32];
    let mut i: usize = 0;
    while i < 32
        invariant
            i <= 32,
            bytes@.len() >= WIRE_HEADER_LEN,
            forall|j: int| 0 <= j < i ==> hash@[j] == bytes@[1 + j],
        decreases 32 - i,
    {
        hash[i] = bytes[1 + i];
        i += 1;
    }
    let mut sent: Vec<bool> = Vec::new();
    let mut k: usize = WIRE_HEADER_LEN;
    while k < bytes.len()
        invariant
            WIRE_HEADER_LEN <= k <= bytes@.len(),
            sent@.len() == k - WIRE_HEADER_LEN,
            forall|j: int| 0 <= j < sent@.len() ==> flag_byte(sent@[j]) == bytes@[WIRE_HEADER_LEN + j],
        decreases bytes@.len() - k,
    {
        let flag = bytes[k];
        if flag > 1 {
            assert forall|state: UploadState| state.valid() implies encode_state(state)
                != bytes@ by {
                lemma_encode_layout(state);
                if encode_state(state) == bytes@ {
                    assert(flag_bytes(state.sent)[k - WIRE_HEADER_LEN] == bytes@[k as int]);
                }
            }
            return None;
        }
        sent.push(flag == 1);
        k += 1;
    }
    let digest = Digest::from_bytes(hash);
    proof {
        let state = UploadState { hash: digest@, chunk_sz: size as i32 as int, sent: sent@ };
        assert(bytes@ =~= encode_state(state)) by {
            assert(bytes@.subrange(1, 33) =~= digest@);
            assert(bytes@.subrange(45, bytes@.len() as int) =~= flag_bytes(sent@));
            assert(bytes@ =~= seq![WIRE_VERSION] + bytes@.subrange(1, 33) + bytes@.subrange(33, 37)
                + bytes@.subrange(37, 45) + bytes@.subrange(45, bytes@.len() as int));
        }
    }
    Some((digest, size as i32, sent))
}

} // verus!
