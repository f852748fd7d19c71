use fetchcore::planner::{plan, ByteRange};

fn assert_well_formed(ranges: &[ByteRange], total: u64) {
    assert!(!ranges.is_empty());
    assert_eq!(ranges[0].start, 0);
    assert_eq!(ranges[ranges.len() - 1].end, total - 1);
    for w in ranges.windows(2) {
        assert_eq!(w[1].start, w[0].end + 1);
        assert!(w[0].end < w[1].start);
    }
    let sum: u64 = ranges.iter().map(|r| r.end - r.start + 1).sum();
    assert_eq!(sum, total);
}

#[test]
fn even_split_eight_chunks() {
    let ranges = plan(800000, 8);
    assert_eq!(ranges.len(), 8);
    for (i, r) in ranges.iter().enumerate() {
        assert_eq!(r.end - r.start + 1, 100000, "chunk {i} size");
    }
    assert_well_formed(&ranges, 800000);
}

#[test]
fn remainder_goes_to_last_chunk() {
    let ranges = plan(100003, 8);
    assert_eq!(ranges.len(), 8);
    for r in ranges.iter().take(7) {
        assert_eq!(r.end - r.start + 1, 12500);
    }
    assert_eq!(ranges[7].end - ranges[7].start + 1, 12503);
    assert_well_formed(&ranges, 100003);
}

#[test]
fn degenerate_inputs_yield_no_plan() {
    assert!(plan(0, 8).is_empty());
    assert!(plan(800000, 0).is_empty());
    assert!(plan(0, 0).is_empty());
}

#[test]
fn tiny_payload_gets_one_range_per_byte() {
    let ranges = plan(3, 8);
    assert_eq!(ranges.len(), 3);
    for (i, r) in ranges.iter().enumerate() {
        assert_eq!(r.start, i as u64);
        assert_eq!(r.end, i as u64);
    }
    assert_well_formed(&ranges, 3);
}

#[test]
fn single_chunk_covers_everything() {
    let ranges = plan(12345, 1);
    assert_eq!(ranges.len(), 1);
    assert_eq!(ranges[0].start, 0);
    assert_eq!(ranges[0].end, 12344);
}
