use yolo_train::{
    compute_object_stats, resolve_detection_assignments, tal_primary_topk, tal_secondary_topk,
    AssignmentCandidate,
};

fn key(value: f32) -> u64 {
    value.to_bits() as u64
}

fn candidate(object_idx: usize, anchor_idx: usize, metric: f32, overlap: f32) -> AssignmentCandidate {
    AssignmentCandidate {
        batch_idx: 0,
        object_idx,
        anchor_idx,
        metric_key: key(metric),
        overlap_key: key(overlap),
        in_gt: true,
    }
}

#[test]
fn conflict_resolution_keeps_highest_overlap_gt() {
    let assignments = vec![candidate(0, 0, 0.9, 0.2), candidate(1, 0, 0.8, 0.7)];
    let result = resolve_detection_assignments(&assignments, 1, 1, 2, 1, None);
    assert_eq!(result.len(), 1);
    assert_eq!(assignments[result[0]].object_idx, 1);
}

#[test]
fn normalization_stats_are_computed_after_secondary_topk() {
    let assignments = vec![candidate(0, 0, 0.9, 0.4), candidate(0, 1, 0.8, 0.99)];
    let result = resolve_detection_assignments(&assignments, 1, 2, 1, 2, Some(1));
    assert_eq!(result.len(), 1);
    assert_eq!(assignments[result[0]].anchor_idx, 0);
    let stats = compute_object_stats(&assignments, &result, 1, 1, key(0.0));
    let pos_metric = f32::from_bits(stats[0].pos_metric as u32);
    let pos_overlap = f32::from_bits(stats[0].pos_overlap as u32);
    assert!((pos_metric - 0.9).abs() < 1e-6);
    assert!((pos_overlap - 0.4).abs() < 1e-6);
}

#[test]
fn topk_applies_after_the_in_box_filter() {
    let mut outside = candidate(0, 0, 0.99, 1.0);
    outside.in_gt = false;
    let inside = candidate(0, 1, 0.2, 0.6);
    let assignments = vec![outside, inside];
    let result = resolve_detection_assignments(&assignments, 1, 2, 1, 1, None);
    assert_eq!(result, vec![1]);
}

#[test]
fn single_claim_wins_without_overlap_comparison() {
    let assignments = vec![candidate(0, 0, 0.5, 0.1), candidate(1, 1, 0.5, 0.9)];
    let result = resolve_detection_assignments(&assignments, 1, 2, 2, 10, None);
    assert_eq!(result, vec![0, 1]);
}

#[test]
fn equal_overlaps_go_to_the_smaller_object() {
    let assignments = vec![candidate(1, 0, 0.9, 0.5), candidate(0, 0, 0.8, 0.5)];
    let result = resolve_detection_assignments(&assignments, 1, 1, 2, 1, None);
    assert_eq!(result.len(), 1);
    assert_eq!(assignments[result[0]].object_idx, 0);
}

#[test]
fn primary_topk_ties_prefer_smaller_anchor() {
    let assignments = vec![candidate(0, 2, 0.5, 0.3), candidate(0, 1, 0.5, 0.3), candidate(0, 0, 0.1, 0.3)];
    let result = resolve_detection_assignments(&assignments, 1, 3, 1, 1, None);
    assert_eq!(result, vec![1]);
}

#[test]
fn kept_anchors_come_out_in_anchor_order_without_trim() {
    let assignments = vec![candidate(0, 2, 0.9, 0.3), candidate(0, 0, 0.1, 0.3), candidate(0, 1, 0.5, 0.3)];
    let result = resolve_detection_assignments(&assignments, 1, 3, 1, 3, None);
    assert_eq!(result, vec![1, 2, 0]);
}

#[test]
fn secondary_trim_orders_by_metric() {
    let assignments = vec![candidate(0, 2, 0.9, 0.3), candidate(0, 0, 0.1, 0.3), candidate(0, 1, 0.5, 0.3)];
    let result = resolve_detection_assignments(&assignments, 1, 3, 1, 3, Some(2));
    assert_eq!(result, vec![0, 2]);
}

#[test]
fn objects_are_listed_image_by_image() {
    let mut second_image = candidate(0, 0, 0.7, 0.7);
    second_image.batch_idx = 1;
    let assignments = vec![second_image, candidate(1, 1, 0.6, 0.6), candidate(0, 0, 0.5, 0.5)];
    let result = resolve_detection_assignments(&assignments, 2, 2, 2, 10, None);
    assert_eq!(result, vec![2, 1, 0]);
}

#[test]
fn top_k_settings_follow_the_config_rules() {
    assert_eq!(tal_primary_topk(0), 1);
    assert_eq!(tal_primary_topk(10), 10);
    assert_eq!(tal_secondary_topk(10, None), 10);
    assert_eq!(tal_secondary_topk(7, Some(1)), 1);
    assert_eq!(tal_secondary_topk(3, Some(9)), 3);
    assert_eq!(tal_secondary_topk(0, Some(0)), 1);
}

#[test]
fn object_stats_start_from_the_floor() {
    let assignments = vec![candidate(0, 0, 0.3, 0.2)];
    let stats = compute_object_stats(&assignments, &vec![], 1, 2, 5);
    assert_eq!(stats.len(), 2);
    assert_eq!(stats[0].pos_metric, 5);
    assert_eq!(stats[1].pos_overlap, 5);
}

#[test]
fn no_anchor_is_assigned_twice() {
    let mut assignments = Vec::new();
    for object_idx in 0..3 {
        for anchor_idx in 0..4 {
            let metric = ((object_idx * 7 + anchor_idx * 3) % 5) as f32 / 10.0;
            let overlap = ((object_idx * 5 + anchor_idx * 2) % 7) as f32 / 10.0;
            assignments.push(candidate(object_idx, anchor_idx, metric, overlap));
        }
    }
    let result = resolve_detection_assignments(&assignments, 1, 4, 3, 3, None);
    let mut anchors = result.iter().map(|&i| assignments[i].anchor_idx).collect::<Vec<_>>();
    let count = anchors.len();
    anchors.sort();
    anchors.dedup();
    assert_eq!(anchors.len(), count);
}
