//! The segment model: partition shape, counts, and the download record.
use segfetch::meta::{partition, Location, Meta, Segment, SEGMENT_SIZE};

fn plain_location() -> Location {
    Location {
        scheme: b"http".to_vec(),
        host: b"example.com".to_vec(),
        port: None,
        path: b"/file.bin".to_vec(),
        query: None,
        fragment: None,
    }
}

#[test]
fn scenario_three_segments() {
    let segs = partition(2_500_000, 1_000_000);
    assert_eq!(segs.len(), 3);
    assert_eq!((segs[0].offset, segs[0].size), (0, 1_000_000));
    assert_eq!((segs[1].offset, segs[1].size), (1_000_000, 1_000_000));
    assert_eq!((segs[2].offset, segs[2].size), (2_000_000, 500_000));
    assert!(segs.iter().all(|s| s.downloaded == 0));
}

#[test]
fn scenario_single_short_segment() {
    let segs = partition(500_000, 1_000_000);
    assert_eq!(segs.len(), 1);
    assert_eq!(segs[0].offset, 0);
    assert_eq!(segs[0].size, 500_000);
}

#[test]
fn empty_resource_has_no_segments() {
    assert_eq!(partition(0, 1_000_000).len(), 0);
    assert_eq!(partition(0, 1).len(), 0);
}

#[test]
fn exact_multiple_splits_evenly() {
    let segs = partition(2_000_000, 1_000_000);
    assert_eq!(segs.len(), 2);
    assert_eq!((segs[1].offset, segs[1].size), (1_000_000, 1_000_000));
}

#[test]
fn chunk_of_one_byte() {
    let segs = partition(5, 1);
    assert_eq!(segs.len(), 5);
    for (i, s) in segs.iter().enumerate() {
        assert_eq!(s.offset, i);
        assert_eq!(s.size, 1);
    }
}

#[test]
fn partition_covers_resource_without_gaps() {
    let segs = partition(7_654_321, 1_048_576);
    assert_eq!(segs[0].offset, 0);
    for w in segs.windows(2) {
        assert_eq!(w[0].offset + w[0].size, w[1].offset);
    }
    let last = segs.last().unwrap();
    assert_eq!(last.offset + last.size, 7_654_321);
    let total: usize = segs.iter().map(|s| s.size).sum();
    assert_eq!(total, 7_654_321);
}

#[test]
fn build_uses_default_chunk() {
    let segs = Segment::build(2 * SEGMENT_SIZE + 1);
    assert_eq!(segs.len(), 3);
    assert_eq!(segs[1].offset, SEGMENT_SIZE);
    assert_eq!(segs[2].size, 1);
}

#[test]
fn counter_grows_and_stays_within_segment() {
    let mut segs = partition(100, 60);
    assert_eq!(segs.len(), 2);
    let before = segs[0].downloaded;
    segs[0].advance(10);
    let mid = segs[0].downloaded;
    segs[0].advance(50);
    let after = segs[0].downloaded;
    assert!(before <= mid && mid <= after);
    assert_eq!(after, 60);
    assert!(after <= segs[0].size);
}

#[test]
fn completion_iff_counters_sum_to_size() {
    let mut meta = Meta::new(plain_location(), String::from("file.bin"), 150);
    assert_eq!(meta.segments.len(), 1);
    assert!(!meta.is_complete());
    assert_eq!(meta.progress(), 0);
    meta.segments[0].advance(100);
    assert!(!meta.is_complete());
    assert_eq!(meta.progress(), 100);
    meta.segments[0].advance(50);
    assert!(meta.is_complete());
    assert_eq!(meta.progress(), 150);
}

#[test]
fn empty_download_is_immediately_complete() {
    let meta = Meta::new(plain_location(), String::from("file.bin"), 0);
    assert_eq!(meta.segments.len(), 0);
    assert!(meta.is_complete());
}

#[test]
fn header_selects_its_scheme_provider() {
    let meta = Meta::new(plain_location(), String::from("file.bin"), 10);
    assert_eq!(meta.header.scheme(), Some(segfetch::schema::Schema::Http));
    let mut odd = plain_location();
    odd.scheme = b"gopher".to_vec();
    let meta = Meta::new(odd, String::from("file.bin"), 10);
    assert_eq!(meta.header.scheme(), None);
}
