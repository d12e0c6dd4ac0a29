use iloveu::cache::IloveuCache;
use iloveu::catalog::Catalog;
use iloveu::codec::{encode_media_record, encode_tag_record};
use iloveu::types::{MediaType, ReplayError};

fn be(x: u64) -> Vec<u8> {
    x.to_be_bytes().to_vec()
}

#[test]
fn tag_record_layout_is_exact() {
    let rec = encode_tag_record("hi");
    let mut expected = Vec::new();
    expected.extend_from_slice(&be(0));
    expected.extend_from_slice(&be(2));
    expected.extend_from_slice(b"hi");
    assert_eq!(rec, expected);
}

#[test]
fn media_record_layout_is_exact() {
    let rec = encode_media_record(
        "t",
        "de",
        &vec![5, 6],
        1.5f64.to_bits(),
        MediaType::Video,
        "f.mp4",
        &vec![9, 8, 7],
    );
    let mut expected = Vec::new();
    expected.extend_from_slice(&be(1));
    expected.extend_from_slice(&be(1));
    expected.extend_from_slice(b"t");
    expected.extend_from_slice(&be(2));
    expected.extend_from_slice(b"de");
    expected.extend_from_slice(&be(2));
    expected.extend_from_slice(&be(5));
    expected.extend_from_slice(&be(6));
    expected.extend_from_slice(&1.5f64.to_be_bytes());
    expected.extend_from_slice(&be(1));
    expected.extend_from_slice(&be(5));
    expected.extend_from_slice(b"f.mp4");
    expected.extend_from_slice(&be(3));
    expected.extend_from_slice(&[9, 8, 7]);
    assert_eq!(rec, expected);
}

#[test]
fn replay_reads_back_what_was_encoded() {
    let mut log = encode_tag_record("family");
    log.extend_from_slice(&encode_media_record(
        "Beach",
        "",
        &vec![0],
        7.25f64.to_bits(),
        MediaType::Picture,
        "b.jpg",
        &vec![0xAB; 4],
    ));
    let mut cache = IloveuCache::new();
    assert_eq!(cache.run_raw_transactions(&log), Ok(()));
    assert_eq!(cache.get_tags(), &vec![String::from("family")]);
    let media = cache.get_media();
    assert_eq!(media.len(), 1);
    assert_eq!(media[0].title, "Beach");
    assert_eq!(media[0].file_reference.size, 4);
    let off = media[0].file_reference.offset as usize;
    assert_eq!(&log[off..off + 4], &[0xAB; 4]);
}

#[test]
fn truncation_mid_record_is_a_corruption_error() {
    let full = encode_tag_record("family");
    // Cut at every position strictly inside the record: each one must fail,
    // never produce a silently shortened cache.
    for cut in 1..full.len() {
        let mut cache = IloveuCache::new();
        let torn = full[..cut].to_vec();
        assert_eq!(
            cache.run_raw_transactions(&torn),
            Err(ReplayError::TruncatedRecord),
            "cut at {cut}"
        );
    }
    // At the boundary (a whole number of records) the log is simply shorter.
    let mut cache = IloveuCache::new();
    assert_eq!(cache.run_raw_transactions(&Vec::new()), Ok(()));
    assert_eq!(cache.get_tags().len(), 0);
}

#[test]
fn truncation_of_a_later_record_keeps_the_error() {
    let mut log = encode_tag_record("a");
    log.extend_from_slice(&encode_tag_record("b"));
    log.truncate(log.len() - 1);
    let mut cache = IloveuCache::new();
    assert_eq!(
        cache.run_raw_transactions(&log),
        Err(ReplayError::TruncatedRecord)
    );
}

#[test]
fn unknown_discriminant_is_fatal() {
    let mut cache = IloveuCache::new();
    assert_eq!(
        cache.run_raw_transactions(&be(7)),
        Err(ReplayError::UnknownDiscriminant)
    );
}

#[test]
fn invalid_utf8_in_a_name_is_fatal() {
    let mut log = Vec::new();
    log.extend_from_slice(&be(0));
    log.extend_from_slice(&be(1));
    log.push(0xFF);
    let mut cache = IloveuCache::new();
    assert_eq!(
        cache.run_raw_transactions(&log),
        Err(ReplayError::InvalidText)
    );
}

#[test]
fn unknown_media_type_code_is_fatal() {
    let mut log = Vec::new();
    log.extend_from_slice(&be(1)); // add-media discriminant
    log.extend_from_slice(&be(0)); // empty title
    log.extend_from_slice(&be(0)); // empty description
    log.extend_from_slice(&be(0)); // no tag ids
    log.extend_from_slice(&be(0)); // datetime bits
    log.extend_from_slice(&be(2)); // no such media type
    let mut cache = IloveuCache::new();
    assert_eq!(
        cache.run_raw_transactions(&log),
        Err(ReplayError::UnknownMediaType)
    );
}

#[test]
fn a_corrupt_log_refuses_to_start_the_catalog() {
    let mut log = encode_tag_record("family");
    log.truncate(log.len() - 3);
    assert!(Catalog::new(String::from("pw"), log).is_err());
}
