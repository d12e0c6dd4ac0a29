use iloveu::stream::BlobStreamer;

fn drain(size: u64, chunks: &[Vec<u8>]) -> Vec<u8> {
    let mut streamer = BlobStreamer::new(size);
    let mut out = Vec::new();
    for chunk in chunks {
        match streamer.next_chunk(chunk) {
            Some(part) => out.extend_from_slice(&part),
            None => break,
        }
    }
    out
}

#[test]
fn chunks_smaller_than_the_payload_are_passed_through() {
    let chunks = vec![vec![1, 2, 3], vec![4, 5, 6], vec![7, 8, 9], vec![10, 11, 12]];
    assert_eq!(drain(10, &chunks), vec![1, 2, 3, 4, 5, 6, 7, 8, 9, 10]);
}

#[test]
fn a_chunk_equal_to_the_payload_is_the_whole_stream() {
    let chunks = vec![vec![1, 2, 3, 4], vec![5, 6, 7, 8]];
    assert_eq!(drain(4, &chunks), vec![1, 2, 3, 4]);
}

#[test]
fn a_chunk_larger_than_the_payload_is_sliced() {
    let chunks = vec![vec![1, 2, 3, 4, 5, 6, 7, 8]];
    assert_eq!(drain(5, &chunks), vec![1, 2, 3, 4, 5]);
}

#[test]
fn nothing_is_emitted_past_the_payload() {
    let mut streamer = BlobStreamer::new(3);
    assert_eq!(streamer.next_chunk(&vec![1, 2, 3]), Some(vec![1, 2, 3]));
    assert!(streamer.done());
    assert_eq!(streamer.next_chunk(&vec![4, 5]), None);
}

#[test]
fn a_zero_byte_payload_ends_immediately() {
    let mut streamer = BlobStreamer::new(0);
    assert!(streamer.done());
    assert_eq!(streamer.next_chunk(&vec![1, 2]), None);
}
