use yolo_train::{
    classification_counts, ClassificationEvalMetrics, DetectionEvalMetrics, SemanticMapAccumulator,
    TrainError,
};

#[test]
fn classification_counts_pair_predictions_with_targets() {
    let metrics = classification_counts(&vec![1, 2, 3], &vec![1, 0, 3], &vec![true, true, false]).unwrap();
    assert_eq!(metrics, ClassificationEvalMetrics { correct: 2, top5_correct: 2, total: 3 });
    assert!(matches!(
        classification_counts(&vec![1], &vec![1, 2], &vec![]),
        Err(TrainError::InvalidTensor(_))
    ));
}

#[test]
fn metric_counts_add_field_by_field() {
    let mut c = ClassificationEvalMetrics { correct: 1, top5_correct: 2, total: 3 };
    c.add(ClassificationEvalMetrics { correct: 4, top5_correct: 5, total: 6 });
    assert_eq!(c, ClassificationEvalMetrics { correct: 5, top5_correct: 7, total: 9 });
    let mut d = DetectionEvalMetrics { matched_targets: 1, total_targets: 2, predictions: 3 };
    d.add(DetectionEvalMetrics { matched_targets: 1, total_targets: 1, predictions: 0 });
    assert_eq!(d, DetectionEvalMetrics { matched_targets: 2, total_targets: 3, predictions: 3 });
}

#[test]
fn semantic_confusion_matrix_counts_valid_pixels() {
    let mut acc = SemanticMapAccumulator::new();
    assert_eq!(acc.classes(), 0);
    acc.add_batch(&[0, 1, 1, 2, 0], &[0, 1, 0, u32::MAX, 5], 2);
    assert_eq!(acc.classes(), 2);
    assert_eq!(acc.valid_pixels(), 3);
    let stats = acc.class_stats();
    assert_eq!(stats.len(), 2);
    assert_eq!((stats[0].true_positive, stats[0].target, stats[0].predicted), (1, 2, 1));
    assert_eq!((stats[1].true_positive, stats[1].target, stats[1].predicted), (1, 1, 2));
    let total_targets: u128 = stats.iter().map(|s| s.target).sum();
    assert_eq!(total_targets, acc.valid_pixels() as u128);
}

#[test]
fn semantic_batches_pair_up_to_the_shorter_map() {
    let mut acc = SemanticMapAccumulator::new();
    acc.add_batch(&[1, 1, 1], &[1], 2);
    assert_eq!(acc.valid_pixels(), 1);
}
