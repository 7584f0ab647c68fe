use madhava::error::EngineError;
use madhava::range::{partition, TermRange};

fn bounds(ranges: &[TermRange]) -> Vec<(u64, u64)> {
    ranges.iter().map(|r| (r.start(), r.end())).collect()
}

#[test]
fn range_new_accepts_ordered_bounds() {
    let range = TermRange::new(3, 8).unwrap();
    assert_eq!(range.start(), 3);
    assert_eq!(range.end(), 8);
    assert_eq!(range.len(), 5);
    assert!(!range.is_empty());
}

#[test]
fn range_new_rejects_reversed_bounds() {
    assert_eq!(TermRange::new(8, 3), None);
    assert_eq!(TermRange::new(1, 0), None);
}

#[test]
fn range_with_equal_bounds_is_empty() {
    let range = TermRange::new(5, 5).unwrap();
    assert!(range.is_empty());
    assert_eq!(range.len(), 0);
    assert!(!range.contains(5));
}

#[test]
fn range_contains_is_half_open() {
    let range = TermRange::new(2, 4).unwrap();
    assert!(!range.contains(1));
    assert!(range.contains(2));
    assert!(range.contains(3));
    assert!(!range.contains(4));
}

#[test]
fn range_spans_the_whole_index_type() {
    let range = TermRange::new(0, u64::MAX).unwrap();
    assert_eq!(range.len(), u64::MAX);
    assert!(range.contains(u64::MAX - 1));
    assert!(!range.contains(u64::MAX));
}

#[test]
fn partition_divides_evenly() {
    let ranges = partition(12, 4).unwrap();
    assert_eq!(bounds(&ranges), vec![(0, 3), (3, 6), (6, 9), (9, 12)]);
}

#[test]
fn partition_drops_the_remainder() {
    let ranges = partition(10, 3).unwrap();
    assert_eq!(bounds(&ranges), vec![(0, 3), (3, 6), (6, 9)]);
    assert!(ranges.iter().all(|r| !r.contains(9)));
}

#[test]
fn partition_with_one_worker_is_the_whole_interval() {
    let ranges = partition(1_000_000, 1).unwrap();
    assert_eq!(bounds(&ranges), vec![(0, 1_000_000)]);
}

#[test]
fn partition_with_more_workers_than_terms_gives_empty_windows() {
    let ranges = partition(3, 5).unwrap();
    assert_eq!(ranges.len(), 5);
    assert!(ranges.iter().all(|r| r.is_empty() && r.start() == 0));
}

#[test]
fn partition_of_no_terms() {
    let ranges = partition(0, 2).unwrap();
    assert_eq!(bounds(&ranges), vec![(0, 0), (0, 0)]);
}

#[test]
fn partition_without_workers_is_invalid() {
    assert_eq!(partition(100, 0), Err(EngineError::InvalidPartition));
    assert_eq!(partition(0, 0), Err(EngineError::InvalidPartition));
}

#[test]
fn partition_of_the_largest_total() {
    let ranges = partition(u64::MAX, 2).unwrap();
    let half = u64::MAX / 2;
    assert_eq!(bounds(&ranges), vec![(0, half), (half, 2 * half)]);
}

#[test]
fn partition_windows_are_contiguous_disjoint_and_inside_the_total() {
    for total in 0u64..60 {
        for workers in 1usize..9 {
            let ranges = partition(total, workers).unwrap();
            assert_eq!(ranges.len(), workers);
            assert_eq!(ranges[0].start(), 0);
            for pair in ranges.windows(2) {
                assert_eq!(pair[0].end(), pair[1].start());
            }
            let covered = ranges[workers - 1].end();
            assert!(covered <= total);
            assert!(total - covered < workers as u64);
            assert_eq!(total - covered, total % workers as u64);
            for k in 0..total + 2 {
                let holders = ranges.iter().filter(|r| r.contains(k)).count();
                assert_eq!(holders, if k < covered { 1 } else { 0 });
            }
        }
    }
}
