//! The `Upload-Metadata` header of the creation request.

use vstd::prelude::*;
use vstd::string::{StringExecFns, StringSliceAdditionalSpecFns};
use crate::error::UploadError;

verus! {

/// Whether a key may stand in the header: it holds no space and no comma.
pub open spec fn valid_key(key: Seq<char>) -> bool {
    forall|i: int| 0 <= i < key.len() ==> key[i] != ' ' && key[i] != ','
}

/// Whether `key` holds no space and no comma.
pub fn key_is_valid(key: &str) -> (ok: bool)
    ensures
        ok == valid_key(key@),
{
    let mut ok = true;
    for c in it: key.chars()
        invariant
            it.seq() == key@,
            ok == valid_key(key@.subrange(0, it.index() as int)),
    {
        proof {
            let i = it.index() as int;
            let before = key@.subrange(0, i);
            let after = key@.subrange(0, i + 1);
            assert(after[i] == c);
            assert(forall|j: int| 0 <= j < i ==> before[j] == after[j]);
        }
        if c == ' ' || c == ',' {
            ok = false;
        }
    }
    assert(key@.subrange(0, key@.len() as int) =~= key@);
    ok
}

/// The base64 text of a sequence of bytes, in the standard alphabet and with padding.
pub uninterp spec fn base64_standard(bytes: Seq<u8>) -> Seq<char>;

/// Whether a character belongs to base64 text in the standard alphabet with padding.
pub open spec fn is_base64_char(c: char) -> bool {
    ||| 'A' <= c <= 'Z'
    ||| 'a' <= c <= 'z'
    ||| '0' <= c <= '9'
    ||| c == '+'
    ||| c == '/'
    ||| c == '='
}

/// The length of the base64 text of `len` bytes: four characters for every three bytes,
/// the last group padded.
pub open spec fn base64_len(len: nat) -> nat {
    4 * ((len + 2) / 3)
}

/// `base64::Engine::encode` on the engine `base64::prelude::BASE64_STANDARD`: the base64
/// text of `bytes`, made of characters of the standard alphabet and of the padding
/// character. The call is left out where the text would be longer than an allocation
/// may be.
#[verifier::external_body]
fn base64_encode(bytes: &[u8]) -> (text: String)
    requires
        base64_len(bytes@.len()) <= isize::MAX,
    ensures
        text@ == base64_standard(bytes@),
        forall|i: int| 0 <= i < text@.len() ==> is_base64_char(#[trigger] text@[i]),
{
    base64::Engine::encode(&base64::prelude::BASE64_STANDARD, bytes)
}

/// Whether the base64 text of `len` bytes is short enough to be held in memory.
fn base64_fits(len: usize) -> (fits: bool)
    ensures
        fits == (base64_len(len as nat) <= isize::MAX),
{
    let groups = if len % 3 == 0 {
        len / 3
    } else {
        len / 3 + 1
    };
    groups <= (isize::MAX as usize) / 4
}

/// What the encoder reads of its input: of each pair the characters of the key and the
/// bytes of the value.
pub open spec fn metadata_view(metadata: Seq<(&str, &str)>) -> Seq<(Seq<char>, Seq<u8>)> {
    Seq::new(metadata.len(), |i: int| (metadata[i].0@, metadata[i].1.spec_bytes()))
}

/// What a reader of the header finds: of each pair the key and the base64 text of the
/// value.
pub open spec fn encoded_pairs(pairs: Seq<(Seq<char>, Seq<u8>)>) -> Seq<(Seq<char>, Seq<char>)> {
    Seq::new(pairs.len(), |i: int| (pairs[i].0, base64_standard(pairs[i].1)))
}

/// The token of a pair: the key, a space, and the base64 text of the value.
pub open spec fn token(key: Seq<char>, value: Seq<u8>) -> Seq<char> {
    key + seq![' '] + base64_standard(value)
}

/// The header value for a sequence of pairs: their tokens, joined by commas.
pub open spec fn join_tokens(pairs: Seq<(Seq<char>, Seq<u8>)>) -> Seq<char>
    decreases pairs.len(),
{
    if pairs.len() == 0 {
        Seq::empty()
    } else if pairs.len() == 1 {
        token(pairs[0].0, pairs[0].1)
    } else {
        join_tokens(pairs.drop_last()) + seq![','] + token(pairs.last().0, pairs.last().1)
    }
}

/// Whether every key of `pairs` may stand in the header.
pub open spec fn all_keys_valid(pairs: Seq<(Seq<char>, Seq<u8>)>) -> bool {
    forall|i: int| 0 <= i < pairs.len() ==> valid_key(#[trigger] pairs[i].0)
}

/// Whether the base64 text of every value of `pairs` is short enough to be held in memory.
pub open spec fn all_values_fit(pairs: Seq<(Seq<char>, Seq<u8>)>) -> bool {
    forall|i: int| 0 <= i < pairs.len() ==> base64_len((#[trigger] pairs[i].1).len()) <= isize::MAX
}

/// The position of the first `c` in `text`, or the length of `text` if it holds none.
pub open spec fn first_index_of(text: Seq<char>, c: char) -> int
    decreases text.len(),
{
    if text.len() == 0 || text[0] == c {
        0
    } else {
        1 + first_index_of(text.drop_first(), c)
    }
}

/// The position of the last `c` in `text`, or -1 if it holds none.
pub open spec fn last_index_of(text: Seq<char>, c: char) -> int
    decreases text.len(),
{
    if text.len() == 0 {
        -1
    } else if text.last() == c {
        text.len() - 1
    } else {
        last_index_of(text.drop_last(), c)
    }
}

/// A token read back: what stands before its first space, and what stands after it.
pub open spec fn parse_token(token: Seq<char>) -> (Seq<char>, Seq<char>) {
    let at = first_index_of(token, ' ');
    if 0 <= at < token.len() {
        (token.subrange(0, at), token.subrange(at + 1, token.len() as int))
    } else {
        (token, Seq::empty())
    }
}

/// A header value read back: it is cut at its commas, and each piece at its first space.
pub open spec fn parse_metadata(text: Seq<char>) -> Seq<(Seq<char>, Seq<char>)>
    decreases text.len(),
{
    if text.len() == 0 {
        Seq::empty()
    } else {
        let at = last_index_of(text, ',');
        if 0 <= at < text.len() {
            parse_metadata(text.subrange(0, at)).push(
                parse_token(text.subrange(at + 1, text.len() as int)),
            )
        } else {
            seq![parse_token(text)]
        }
    }
}

proof fn lemma_first_index(head: Seq<char>, c: char, tail: Seq<char>)
    requires
        forall|i: int| 0 <= i < head.len() ==> head[i] != c,
    ensures
        first_index_of(head + seq![c] + tail, c) == head.len(),
    decreases head.len(),
{
    let text = head + seq![c] + tail;
    if head.len() == 0 {
        assert(text[0] == c);
    } else {
        assert(text[0] == head[0]);
        assert(text.drop_first() =~= head.drop_first() + seq![c] + tail);
        lemma_first_index(head.drop_first(), c, tail);
    }
}

proof fn lemma_last_index_none(text: Seq<char>, c: char)
    requires
        forall|i: int| 0 <= i < text.len() ==> text[i] != c,
    ensures
        last_index_of(text, c) == -1,
    decreases text.len(),
{
    if text.len() > 0 {
        lemma_last_index_none(text.drop_last(), c);
    }
}

proof fn lemma_last_index(head: Seq<char>, c: char, tail: Seq<char>)
    requires
        forall|i: int| 0 <= i < tail.len() ==> tail[i] != c,
    ensures
        last_index_of(head + seq![c] + tail, c) == head.len(),
    decreases tail.len(),
{
    let text = head + seq![c] + tail;
    if tail.len() == 0 {
        assert(text.last() == c);
    } else {
        assert(text.last() == tail.last());
        assert(text.drop_last() =~= head + seq![c] + tail.drop_last());
        lemma_last_index(head, c, tail.drop_last());
    }
}

/// A token whose key is valid and whose second part is base64 text reads back as its key
/// and that text, and holds no comma.
proof fn lemma_token(key: Seq<char>, encoded: Seq<char>)
    requires
        valid_key(key),
        forall|i: int| 0 <= i < encoded.len() ==> is_base64_char(#[trigger] encoded[i]),
    ensures
        parse_token(key + seq![' '] + encoded) == (key, encoded),
        forall|i: int|
            0 <= i < (key + seq![' '] + encoded).len() ==> (key + seq![' '] + encoded)[i] != ',',
{
    let text = key + seq![' '] + encoded;
    lemma_first_index(key, ' ', encoded);
    assert(text.subrange(0, key.len() as int) =~= key);
    assert(text.subrange(key.len() as int + 1, text.len() as int) =~= encoded);
    assert forall|i: int| 0 <= i < text.len() implies text[i] != ',' by {
        if i < key.len() {
            assert(text[i] == key[i]);
        } else if i > key.len() {
            assert(text[i] == encoded[i - key.len() - 1]);
            assert(is_base64_char(encoded[i - key.len() - 1]));
        }
    }
}

/// A header value with one more token at its end reads back as what it read back as
/// before, with the pair of that token at the end.
proof fn lemma_parse_push(joined: Seq<char>, key: Seq<char>, encoded: Seq<char>)
    requires
        valid_key(key),
        forall|i: int| 0 <= i < encoded.len() ==> is_base64_char(#[trigger] encoded[i]),
    ensures
        parse_metadata(key + seq![' '] + encoded) == seq![(key, encoded)],
        parse_metadata(joined + seq![','] + (key + seq![' '] + encoded)) == parse_metadata(
            joined,
        ).push((key, encoded)),
{
    let piece = key + seq![' '] + encoded;
    lemma_token(key, encoded);
    lemma_last_index_none(piece, ',');
    let text = joined + seq![','] + piece;
    lemma_last_index(joined, ',', piece);
    assert(text.subrange(0, joined.len() as int) =~= joined);
    assert(text.subrange(joined.len() as int + 1, text.len() as int) =~= piece);
}

/// The value of the `Upload-Metadata` header for the given pairs of key and value: for
/// each pair the key, a space and the base64 text of the value, the pairs joined by
/// commas. Read back, the header gives each key and the base64 text of each value, in
/// the order of the pairs.
///
/// A key that holds a space or a comma is refused; the error names the first such key.
/// With valid keys, a value whose base64 text would be longer than an allocation may be
/// is refused as an invalid argument.
pub fn encode_metadata(metadata: &[(&str, &str)]) -> (encoded: Result<String, UploadError>)
    ensures
        match encoded {
            Ok(text) => {
                &&& all_keys_valid(metadata_view(metadata@))
                &&& all_values_fit(metadata_view(metadata@))
                &&& text@ == join_tokens(metadata_view(metadata@))
                &&& parse_metadata(text@) == encoded_pairs(metadata_view(metadata@))
            },
            Err(UploadError::InvalidMetadataKey { index }) => {
                &&& index < metadata@.len()
                &&& !valid_key(metadata@[index as int].0@)
                &&& forall|j: int| 0 <= j < index ==> valid_key(#[trigger] metadata@[j].0@)
            },
            Err(UploadError::InvalidArgument) => {
                &&& all_keys_valid(metadata_view(metadata@))
                &&& !all_values_fit(metadata_view(metadata@))
            },
            Err(_) => false,
        },
{
    let ghost pairs = metadata_view(metadata@);
    let mut i: usize = 0;
    while i < metadata.len()
        invariant
            i <= metadata@.len(),
            forall|j: int| 0 <= j < i ==> valid_key(#[trigger] metadata@[j].0@),
        decreases metadata@.len() - i,
    {
        if !key_is_valid(metadata[i].0) {
            return Err(UploadError::InvalidMetadataKey { index: i });
        }
        i += 1;
    }
    assert(all_keys_valid(pairs)) by {
        assert forall|j: int| 0 <= j < pairs.len() implies valid_key(#[trigger] pairs[j].0) by {
            assert(valid_key(metadata@[j].0@));
        }
    }
    let mut text = String::new();
    let mut k: usize = 0;
    proof {
        assert(pairs.subrange(0, 0) =~= Seq::empty());
        assert(encoded_pairs(pairs.subrange(0, 0)) =~= Seq::empty());
    }
    while k < metadata.len()
        invariant
            k <= metadata@.len(),
            pairs == metadata_view(metadata@),
            all_keys_valid(pairs),
            all_values_fit(pairs.subrange(0, k as int)),
            text@ == join_tokens(pairs.subrange(0, k as int)),
            parse_metadata(text@) == encoded_pairs(pairs.subrange(0, k as int)),
        decreases metadata@.len() - k,
    {
        let (key, value) = metadata[k];
        let bytes = value.as_bytes();
        if !base64_fits(bytes.len()) {
            assert(!all_values_fit(pairs)) by {
                assert(pairs[k as int].1 == bytes@);
            }
            return Err(UploadError::InvalidArgument);
        }
        let value_text = base64_encode(bytes);
        let ghost before = text@;
        if k > 0 {
            text.append(",");
        }
        text.append(key);
        text.append(" ");
        text.append(value_text.as_str());
        proof {
            reveal_strlit(",");
            reveal_strlit(" ");
            assert(","@ =~= seq![',']);
            assert(" "@ =~= seq![' ']);
            let done = pairs.subrange(0, k as int);
            let next = pairs.subrange(0, k + 1);
            assert(next.drop_last() =~= done);
            assert(next.last() == pairs[k as int]);
            assert(pairs[k as int] == (key@, bytes@));
            assert(valid_key(pairs[k as int].0));
            lemma_parse_push(before, key@, value_text@);
            if k > 0 {
                assert(text@ =~= before + seq![','] + (key@ + seq![' '] + value_text@));
            } else {
                assert(text@ =~= key@ + seq![' '] + value_text@);
            }
            assert(encoded_pairs(next) =~= encoded_pairs(done).push((key@, value_text@)));
            assert(all_values_fit(next)) by {
                assert forall|j: int| 0 <= j < next.len() implies base64_len(
                    (#[trigger] next[j].1).len(),
                ) <= isize::MAX by {
                    if j < k {
                        assert(next[j] == done[j]);
                    }
                }
            }
        }
        k += 1;
    }
    assert(pairs.subrange(0, k as int) =~= pairs);
    Ok(text)
}

} // verus!
