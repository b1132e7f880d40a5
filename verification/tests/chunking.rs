use resumable::blob::Blob;
use resumable::chunk::{chunk_at, count_chunks, ChunkIter};

fn blah(times: usize) -> Blob {
    Blob::new(Some("blah.txt".to_string()), "blah".repeat(times).into_bytes()).unwrap()
}

#[test]
fn count_chunks_rounds_up() {
    assert_eq!(count_chunks(20, 4), 5);
    assert_eq!(count_chunks(20, 3), 7);
    assert_eq!(count_chunks(1, 4), 1);
    assert_eq!(count_chunks(4, 4), 1);
    assert_eq!(count_chunks(5, 4), 2);
    assert_eq!(count_chunks(7, 1), 7);
}

#[test]
fn count_chunks_of_nothing_is_zero() {
    assert_eq!(count_chunks(0, 4), 0);
    assert_eq!(count_chunks(0, 1), 0);
}

#[test]
fn count_chunks_at_the_limits() {
    assert_eq!(count_chunks(usize::MAX, 1), usize::MAX);
    assert_eq!(count_chunks(usize::MAX, usize::MAX), 1);
    assert_eq!(count_chunks(usize::MAX - 1, usize::MAX), 1);
}

#[test]
fn chunk_iter_covers_blob_in_order() {
    let blob = blah(5);
    let mut iter = ChunkIter::new(&blob, 3);
    let mut seen: Vec<u8> = Vec::new();
    let mut lengths: Vec<usize> = Vec::new();
    let mut index = 0;
    while let Some(chunk) = iter.next() {
        assert_eq!(chunk.index, index);
        lengths.push(chunk.bytes.len());
        seen.extend_from_slice(chunk.bytes);
        index += 1;
    }
    assert_eq!(index, 7);
    assert_eq!(lengths, vec![3, 3, 3, 3, 3, 3, 2]);
    assert_eq!(seen, blob.bytes().to_vec());
    assert!(iter.next().is_none());
    assert!(iter.next().is_none());
}

#[test]
fn chunk_iter_with_exact_division() {
    let blob = blah(5);
    let mut iter = ChunkIter::new(&blob, 4);
    let mut count = 0;
    while let Some(chunk) = iter.next() {
        assert_eq!(chunk.index, count);
        assert_eq!(chunk.bytes, b"blah");
        count += 1;
    }
    assert_eq!(count, 5);
}

#[test]
fn chunk_iter_over_empty_blob_gives_nothing() {
    let blob = Blob::new(None, Vec::new()).unwrap();
    let mut iter = ChunkIter::new(&blob, 4);
    assert!(iter.next().is_none());
}

#[test]
fn chunk_iter_with_chunk_larger_than_blob() {
    let blob = blah(1);
    let mut iter = ChunkIter::new(&blob, 80_000);
    let chunk = iter.next().unwrap();
    assert_eq!(chunk.index, 0);
    assert_eq!(chunk.bytes, b"blah");
    assert!(iter.next().is_none());
}

#[test]
fn two_iterators_over_one_blob_are_independent() {
    let blob = blah(2);
    let mut first = ChunkIter::new(&blob, 3);
    let mut second = ChunkIter::new(&blob, 3);
    assert_eq!(first.next().unwrap().bytes, b"bla");
    assert_eq!(first.next().unwrap().bytes, b"hbl");
    assert_eq!(second.next().unwrap().bytes, b"bla");
    assert_eq!(first.next().unwrap().bytes, b"ah");
    assert_eq!(second.next().unwrap().index, 1);
}

#[test]
fn chunk_at_gives_the_byte_range_of_the_index() {
    let blob = Blob::new(None, (0u8..20).collect()).unwrap();
    let last = chunk_at(&blob, 3, 6);
    assert_eq!(last.index, 6);
    assert_eq!(last.bytes, &[18u8, 19][..]);
    let middle = chunk_at(&blob, 3, 2);
    assert_eq!(middle.bytes, &[6u8, 7, 8][..]);
    let first = chunk_at(&blob, 3, 0);
    assert_eq!(first.bytes, &[0u8, 1, 2][..]);
}

#[test]
fn last_chunk_holds_what_is_left() {
    let size = 20usize;
    let chunk_sz = 3usize;
    let blob = Blob::new(None, vec![0u8; size]).unwrap();
    let n = count_chunks(size, chunk_sz);
    let last = chunk_at(&blob, chunk_sz, n - 1);
    assert_eq!(last.bytes.len(), size - (n - 1) * chunk_sz);
}

#[test]
fn blob_reports_size_name_and_slices() {
    let blob = blah(5);
    assert_eq!(blob.size(), 20);
    assert_eq!(blob.name(), Some("blah.txt".to_string()));
    assert_eq!(blob.slice(2, 6), b"ahbl");
    assert_eq!(blob.slice(20, 20), b"");
    assert_eq!(blob.bytes(), "blah".repeat(5).as_bytes());
    let nameless = Blob::new(None, vec![1, 2, 3]).unwrap();
    assert_eq!(nameless.name(), None);
    assert_eq!(nameless.size(), 3);
}

#[test]
fn largest_blob_size_is_the_longest_message_with_a_digest() {
    assert_eq!(resumable::blob::MAX_BLOB_SIZE, (1u64 << 61) - 1);
    assert!(Blob::new(None, vec![0u8; 1 << 20]).is_ok());
}
