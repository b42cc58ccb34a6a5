use yolo_train::{greedy_count, greedy_match, greedy_pairs, mark_official_matches, match_targets, N_THRESHOLDS};

#[test]
fn greedy_pairs_take_best_overlap_first() {
    let cands = vec![(0, 0, 50), (1, 0, 90), (1, 1, 80), (0, 1, 70)];
    let pairs = greedy_pairs(&cands, 2, 2);
    assert_eq!(pairs, vec![(1, 0, 90), (0, 1, 70)]);
    assert_eq!(greedy_count(&cands, 2, 2), 2);
}

#[test]
fn greedy_pairs_keep_earlier_candidate_on_ties() {
    let cands = vec![(0, 1, 60), (0, 0, 60)];
    assert_eq!(greedy_pairs(&cands, 1, 2), vec![(0, 1, 60)]);
}

#[test]
fn greedy_match_marks_only_one_threshold() {
    let mut tp = vec![[false; N_THRESHOLDS]; 3];
    tp[2][0] = true;
    let cands = vec![(0, 0, 10), (2, 0, 20)];
    greedy_match(&mut tp, 3, &cands, 3, 1);
    assert!(tp[2][3]);
    assert!(!tp[0][3]);
    assert!(tp[2][0]);
    assert!(!tp[1][3]);
}

#[test]
fn official_matching_dedups_predictions_then_targets_in_prediction_order() {
    // Prediction 0 keeps target 1 (its best overlap); prediction 1 keeps
    // target 1 too and loses it to the earlier prediction.
    let cands = vec![(1, 1, 95), (0, 0, 40), (0, 1, 60), (1, 0, 10)];
    let mut tp = vec![[false; N_THRESHOLDS]; 2];
    mark_official_matches(&mut tp, 0, 2, 2, &cands);
    assert!(tp[0][0]);
    assert!(!tp[1][0]);
}

#[test]
fn official_matching_with_no_candidates_marks_nothing() {
    let mut tp = vec![[false; N_THRESHOLDS]; 2];
    mark_official_matches(&mut tp, 5, 2, 0, &vec![]);
    assert!(tp.iter().all(|row| row.iter().all(|flag| !flag)));
}

#[test]
fn per_target_matching_counts_matched_and_valid_targets() {
    let counted = vec![true, false, true];
    let keys = vec![
        vec![Some(70), Some(90)],
        vec![Some(99), None],
        vec![None, Some(95)],
    ];
    // Target 0 takes prediction 1; target 2 can only use prediction 1, which is taken.
    assert_eq!(match_targets(&counted, &keys, 2), (1, 2));
}

#[test]
fn per_target_matching_prefers_earliest_on_equal_keys() {
    let counted = vec![true, true];
    let keys = vec![vec![Some(5), Some(5)], vec![Some(5), None]];
    assert_eq!(match_targets(&counted, &keys, 2), (1, 2));
}

#[test]
fn greedy_pairs_are_one_to_one() {
    let mut cands = Vec::new();
    for p in 0..4usize {
        for t in 0..3usize {
            cands.push((p, t, ((p * 3 + t * 5) % 7) as u64));
        }
    }
    let pairs = greedy_pairs(&cands, 4, 3);
    for (i, a) in pairs.iter().enumerate() {
        for b in pairs.iter().skip(i + 1) {
            assert_ne!(a.0, b.0);
            assert_ne!(a.1, b.1);
        }
    }
    assert_eq!(pairs.len(), 3);
}
