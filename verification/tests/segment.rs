use raft_core::log::index::ENTIRE_WIDTH;
use raft_core::log::segment::{Config, Segment};
use raft_core::log::LogError;

fn config(max_index_bytes: u64, max_store_bytes: u64) -> Config {
    Config {
        max_index_bytes,
        max_store_bytes,
        sync_writes: false,
    }
}

fn segment(cfg: Config, base_offset: u64) -> Segment {
    Segment::new(cfg, base_offset, Vec::new(), Vec::new())
}

#[test]
fn new_initializes_offsets_and_opens_files() {
    let base_offset = 16;

    let segment = segment(config(1024, 1024), base_offset);

    assert_eq!(segment.base_offset(), base_offset);
    assert_eq!(segment.next_offset(), base_offset);
}

#[test]
fn segment_append_returns_incrementing_offsets() {
    let base_offset = 0;
    let mut segment = segment(config(1024, 1024), base_offset);

    assert_eq!(segment.append(b"first").unwrap(), base_offset);
    assert_eq!(segment.append(b"second").unwrap(), base_offset + 1);
    assert_eq!(segment.append(b"third").unwrap(), base_offset + 2);
    assert_eq!(segment.next_offset(), base_offset + 3);
}

#[test]
fn append_and_read_round_trips_records() {
    let base_offset = 10;
    let mut segment = segment(config(1024, 1024), base_offset);

    let records: Vec<&[u8]> = vec![b"alpha", b"beta", b"gamma"];
    let mut offsets = Vec::new();
    for &record in &records {
        offsets.push(segment.append(record).unwrap());
    }

    for (i, &expected) in records.iter().enumerate() {
        let mut buf = Vec::new();
        segment.read(offsets[i], &mut buf).unwrap();
        assert_eq!(buf, expected);
    }
}

#[test]
fn read_below_base_offset_errors() {
    let base_offset = 5;
    let mut segment = segment(config(1024, 1024), base_offset);
    segment.append(b"data").unwrap();

    assert!(segment.read(base_offset - 1, &mut Vec::new()).is_err());
}

#[test]
fn read_above_written_offset_errors() {
    let base_offset = 0;
    let mut segment = segment(config(1024, 1024), base_offset);
    segment.append(b"only one").unwrap();

    assert!(segment.read(base_offset + 1, &mut Vec::new()).is_err());
}

#[test]
fn is_maxed_when_index_reaches_limit() {
    let mut segment = segment(config(ENTIRE_WIDTH, 1024), 0);
    assert!(!segment.is_maxed());

    segment.append(b"fills the only index slot").unwrap();
    assert!(segment.is_maxed());
}

#[test]
fn is_maxed_when_store_reaches_limit() {
    // One record of 12 bytes + 8 byte length prefix exactly hits the 20 byte limit.
    let mut segment = segment(config(1024, 20), 0);
    assert!(!segment.is_maxed());

    let buf = [0u8; 12];

    segment.append(&buf).unwrap();
    assert!(segment.is_maxed());
}

#[test]
fn read_unwritten_segment_errors() {
    let segment = segment(config(1024, 1024), 0);

    assert!(segment.read(0, &mut Vec::new()).is_err());
}

#[test]
fn append_empty_record_round_trips() {
    let mut segment = segment(config(1024, 1024), 0);

    let off = segment.append(&[]).unwrap();
    let mut buf = Vec::new();
    segment.read(off, &mut buf).unwrap();
    assert!(buf.is_empty());
}

#[test]
fn append_updates_store_and_index_sizes() {
    let mut segment = segment(config(1024, 1024), 0);

    assert_eq!(segment.store_len(), 0);
    assert_eq!(segment.index_len(), 0);

    segment.append(b"first").unwrap();
    assert_eq!(segment.store_len(), 8 + 5);
    assert_eq!(segment.index_len(), ENTIRE_WIDTH);

    segment.append(b"second").unwrap();
    assert_eq!(segment.store_len(), (8 + 5) + (8 + 6));
    assert_eq!(segment.index_len(), ENTIRE_WIDTH * 2);
}

#[test]
fn append_past_index_limit_errors() {
    let mut segment = segment(config(ENTIRE_WIDTH, 1024), 0);
    segment.append(b"one").unwrap();
    assert!(segment.append(b"two").is_err());
}

#[test]
fn append_beyond_store_limit_marks_segment_maxed() {
    let mut segment = segment(config(1024, 20), 0);
    assert!(!segment.is_maxed());

    // Exactly fills the configured store byte limit.
    segment.append(&[0u8; 12]).unwrap();
    assert!(segment.is_maxed());

    // The current implementation does not reject appends once maxed;
    // callers are expected to check is_maxed() before appending.
    let size_before = segment.store_len();
    segment.append(b"extra").unwrap();
    assert!(segment.store_len() > size_before);
}

#[test]
fn is_not_maxed_when_under_both_limits() {
    let mut segment = segment(config(ENTIRE_WIDTH * 4, 1024), 0);
    segment.append(b"small").unwrap();
    assert!(!segment.is_maxed());
}

#[test]
fn lifecycle_with_sync_writes_enabled() {
    let mut cfg = config(1024, 1024);
    cfg.sync_writes = true;

    let mut segment = segment(cfg, 0);
    assert!(segment.sync_writes());

    let off = segment.append(b"synced").unwrap();
    let mut buf = Vec::new();
    segment.read(off, &mut buf).unwrap();
    assert_eq!(buf, b"synced");
}

#[test]
fn segment_read_errors_name_their_cause() {
    let mut segment = segment(config(ENTIRE_WIDTH, 1024), 3);
    assert_eq!(segment.read(3, &mut Vec::new()), Err(LogError::SegmentOutOfRange));
    segment.append(b"one").unwrap();
    assert_eq!(segment.append(b"two"), Err(LogError::IndexFull));
    assert_eq!(segment.next_offset(), 4);
    // The record went to the store before the index refused it.
    assert_eq!(segment.store_len(), (8 + 3) + (8 + 3));
    let mut buf = Vec::new();
    segment.read(3, &mut buf).unwrap();
    assert_eq!(buf, b"one");
    assert!(segment.is_in_range(3));
    assert!(!segment.is_in_range(4));
    assert!(segment.is_lesser_than_range(2));
    assert!(!segment.is_lesser_than_range(3));
}

#[test]
fn reopened_segment_resumes_after_its_entries() {
    let mut first = segment(config(ENTIRE_WIDTH * 4, 1024), 7);
    first.append(b"a").unwrap();
    first.append(b"bc").unwrap();
    // An abrupt stop leaves the whole index region on disk.
    let store = first.store_contents().to_vec();
    let index = first.index_contents().to_vec();

    let mut reopened = Segment::new(config(ENTIRE_WIDTH * 4, 1024), 7, store, index);
    assert_eq!(reopened.next_offset(), 9);
    assert_eq!(reopened.index_len(), 2 * ENTIRE_WIDTH);
    let mut buf = Vec::new();
    reopened.read(8, &mut buf).unwrap();
    assert_eq!(buf, b"bc");
    assert_eq!(reopened.append(b"d").unwrap(), 9);
}
