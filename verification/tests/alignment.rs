use video_lab::alignment::{feature_pairs, has_temporal_term, linspace_idx};

#[test]
fn linspace_matches_torch() {
    assert_eq!(linspace_idx(4, 2), vec![0, 3]);
    assert_eq!(linspace_idx(24, 4), vec![0, 7, 15, 23]);
    assert_eq!(linspace_idx(1, 1), vec![0]);
}

#[test]
fn degenerate_spreads_are_zeros() {
    assert_eq!(linspace_idx(5, 0), Vec::<usize>::new());
    assert_eq!(linspace_idx(0, 0), Vec::<usize>::new());
    assert_eq!(linspace_idx(5, 1), vec![0]);
    assert_eq!(linspace_idx(0, 3), vec![0, 0, 0]);
    assert_eq!(linspace_idx(1, 4), vec![0, 0, 0, 0]);
}

#[test]
fn spreads_are_those_of_the_floating_point_formula() {
    for len in 2..40usize {
        for pairs in 2..40usize {
            let expected: Vec<usize> = (0..pairs)
                .map(|i| (i as f64 * (len - 1) as f64 / (pairs - 1) as f64) as usize)
                .collect();
            assert_eq!(linspace_idx(len, pairs), expected);
        }
    }
}

#[test]
fn spreads_span_their_range_in_order() {
    for len in 1..30usize {
        for pairs in 2..30usize {
            let indices = linspace_idx(len, pairs);
            assert_eq!(indices[0], 0);
            assert_eq!(indices[pairs - 1], len - 1);
            for w in indices.windows(2) {
                assert!(w[0] <= w[1]);
                assert!(pairs > len || w[0] < w[1]);
            }
        }
    }
}

#[test]
fn layers_and_relations_are_paired_end_to_end() {
    assert_eq!(feature_pairs(24, 4), vec![(0, 0), (7, 1), (15, 2), (23, 3)]);
    assert_eq!(feature_pairs(2, 4), vec![(0, 0), (1, 3)]);
    assert_eq!(feature_pairs(3, 1), vec![(0, 0)]);
    assert!(feature_pairs(5, 0).is_empty());
}

#[test]
fn one_frame_has_no_temporal_term() {
    assert!(!has_temporal_term(0));
    assert!(!has_temporal_term(1));
    assert!(has_temporal_term(2));
}
