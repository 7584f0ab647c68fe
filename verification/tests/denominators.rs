use madhava::denominators::{create_factor_slices, create_factor_vectors, denominator_window};
use madhava::error::EngineError;
use madhava::range::{partition, TermRange};
use madhava::term::term_at;

#[test]
fn factor_vectors_for_five_factors() {
    let (pos, neg) = create_factor_vectors(5);
    assert_eq!(pos, vec![3, 7, 11]);
    assert_eq!(neg, vec![5, 9]);
}

#[test]
fn factor_vectors_for_an_even_count() {
    let (pos, neg) = create_factor_vectors(6);
    assert_eq!(pos, vec![3, 7, 11]);
    assert_eq!(neg, vec![5, 9, 13]);
}

#[test]
fn factor_vectors_for_no_factor() {
    let (pos, neg) = create_factor_vectors(0);
    assert!(pos.is_empty());
    assert!(neg.is_empty());
}

#[test]
fn factor_vectors_for_one_factor() {
    let (pos, neg) = create_factor_vectors(1);
    assert_eq!(pos, vec![3]);
    assert!(neg.is_empty());
}

#[test]
fn factor_vectors_match_the_stepped_ranges() {
    for factors in 0u64..50 {
        let last = 3 + 2 * factors;
        let (pos, neg) = create_factor_vectors(factors);
        let stepped_pos: Vec<u64> = (3..last).step_by(4).collect();
        let stepped_neg: Vec<u64> = (5..last).step_by(4).collect();
        assert_eq!(pos, stepped_pos);
        assert_eq!(neg, stepped_neg);
        assert_eq!(pos.len() + neg.len(), factors as usize);
    }
}

#[test]
fn factor_vectors_hold_the_denominators_of_the_series() {
    let (pos, neg) = create_factor_vectors(41);
    for (j, d) in pos.iter().enumerate() {
        let term = term_at(2 * j as u64 + 1);
        assert!(term.negative);
        assert_eq!(term.denominator, *d as u128);
    }
    for (j, d) in neg.iter().enumerate() {
        let term = term_at(2 * j as u64 + 2);
        assert!(!term.negative);
        assert_eq!(term.denominator, *d as u128);
    }
}

#[test]
fn window_copies_the_entries_of_its_range() {
    let (pos, _) = create_factor_vectors(10);
    let window = denominator_window(&pos, TermRange::new(1, 4).unwrap());
    assert_eq!(window, Some(vec![7, 11, 15]));
}

#[test]
fn window_of_an_empty_range_is_empty() {
    let (pos, _) = create_factor_vectors(10);
    assert_eq!(denominator_window(&pos, TermRange::new(2, 2).unwrap()), Some(Vec::new()));
    assert_eq!(denominator_window(&pos, TermRange::new(5, 5).unwrap()), Some(Vec::new()));
}

#[test]
fn window_may_end_with_the_list() {
    let (_, neg) = create_factor_vectors(6);
    assert_eq!(denominator_window(&neg, TermRange::new(0, 3).unwrap()), Some(vec![5, 9, 13]));
}

#[test]
fn window_past_the_end_of_the_list_is_refused() {
    let (_, neg) = create_factor_vectors(6);
    assert_eq!(denominator_window(&neg, TermRange::new(0, 4).unwrap()), None);
    assert_eq!(denominator_window(&neg, TermRange::new(4, 4).unwrap()), None);
}

#[test]
fn windows_of_a_partition_tile_the_list() {
    let (pos, neg) = create_factor_vectors(20);
    let ranges = partition(neg.len() as u64, 3).unwrap();
    let mut joined = Vec::new();
    for range in &ranges {
        joined.extend(denominator_window(&pos, *range).unwrap());
    }
    assert_eq!(joined, vec![3, 7, 11, 15, 19, 23, 27, 31, 35]);
}

#[test]
fn slices_cut_both_lists_at_the_same_positions() {
    let slices = create_factor_slices(20, 3).unwrap();
    assert_eq!(
        slices,
        vec![
            (vec![3, 7, 11], vec![5, 9, 13]),
            (vec![15, 19, 23], vec![17, 21, 25]),
            (vec![27, 31, 35], vec![29, 33, 37]),
        ]
    );
}

#[test]
fn slices_for_one_worker_drop_the_odd_entry_at_the_end() {
    let slices = create_factor_slices(5, 1).unwrap();
    assert_eq!(slices, vec![(vec![3, 7], vec![5, 9])]);
}

#[test]
fn slices_for_more_workers_than_entries_are_empty() {
    let slices = create_factor_slices(4, 3).unwrap();
    assert_eq!(slices.len(), 3);
    assert!(slices.iter().all(|(pos, neg)| pos.is_empty() && neg.is_empty()));
}

#[test]
fn slices_without_workers_are_invalid() {
    assert_eq!(create_factor_slices(20, 0), Err(EngineError::InvalidPartition));
}

#[test]
fn slices_are_the_windows_of_the_lists() {
    for factors in 0u64..40 {
        for workers in 1usize..6 {
            let (pos, neg) = create_factor_vectors(factors);
            let ranges = partition(neg.len() as u64, workers).unwrap();
            let slices = create_factor_slices(factors, workers).unwrap();
            assert_eq!(slices.len(), workers);
            for (range, (pos_slice, neg_slice)) in ranges.iter().zip(slices) {
                assert_eq!(Some(pos_slice), denominator_window(&pos, *range));
                assert_eq!(Some(neg_slice), denominator_window(&neg, *range));
            }
        }
    }
}
