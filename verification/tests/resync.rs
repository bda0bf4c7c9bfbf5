use sw_core::error::Error;
use sw_core::image::resync::{find_all, find_record, pick_record, RecordSearch, ScoredCandidate};

#[test]
fn finds_every_occurrence() {
    assert_eq!(find_all(b"abcabcab", b"ab"), vec![0, 3, 6]);
    assert_eq!(find_all(b"aaaa", b"aa"), vec![0, 1, 2]);
    assert!(find_all(b"a", b"ab").is_empty());
}

fn candidate(offset: u64, next_matches: bool, name: &str) -> ScoredCandidate {
    ScoredCandidate { offset, next_matches, matched_name: name.to_string() }
}

#[test]
fn the_closest_candidate_wins() {
    let found = pick_record("foo", Some(100), &vec![candidate(90, false, "foo"), candidate(105, false, "./foo")])
        .unwrap()
        .unwrap();
    assert_eq!(found.record_offset, 105);
    assert_eq!(found.matched_name, "./foo");
}

#[test]
fn the_next_record_check_beats_distance() {
    let found = pick_record("foo", Some(100), &vec![candidate(101, false, "foo"), candidate(500, true, "foo")])
        .unwrap()
        .unwrap();
    assert_eq!(found.record_offset, 500);
}

#[test]
fn ties_are_ambiguous() {
    let error = pick_record("foo", Some(100), &vec![candidate(90, false, "foo"), candidate(110, false, "foo")])
        .unwrap_err();
    assert_eq!(error, Error::AmbiguousPayloadRecord { entry: "foo".to_string(), candidates: vec![90, 110] });
    assert_eq!(error.to_string(), "ambiguous payload record for foo: candidates at [90, 110]");
    assert!(pick_record("foo", None, &Vec::new()).unwrap().is_none());
}

#[test]
fn scans_the_whole_archive_without_an_expected_offset() {
    let mut bytes = b"im001V530P00\0".to_vec();
    bytes.extend_from_slice(&[9, 9, 9]);
    bytes.extend_from_slice(&[0, 5, b'.', b'/', b'f', b'o', b'o']);
    bytes.extend_from_slice(b"data");
    let read = |_archive: &str, offset: u64, length: usize| -> Result<Vec<u8>, Error> {
        Ok(bytes[offset as usize..offset as usize + length].to_vec())
    };
    let search = RecordSearch { raw_name: "foo", encoded_size: Some(4), next_name: None };
    let found = find_record(&read, "t.sw", bytes.len() as u64, None, &search).unwrap().unwrap();
    assert_eq!(found.record_offset, 16);
    assert_eq!(found.matched_name, "./foo");
}
