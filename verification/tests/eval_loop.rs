use candle_core::{DType, Device, Tensor};
use yolo_train::{
    classification_loss_report, eval_loop_steps, semantic_loss, smoke_loss, ClassificationEvalMetrics, DenseDetectionOutput,
    DetectionEvalMetrics, EvalLoopCounts, Output, SemanticMapAccumulator, TrainError,
};

#[test]
fn eval_steps_cover_the_dataset_in_batches() {
    assert_eq!(eval_loop_steps(10, 4, None).unwrap(), 3);
    assert_eq!(eval_loop_steps(8, 4, None).unwrap(), 2);
    assert_eq!(eval_loop_steps(1, 4, None).unwrap(), 1);
    assert_eq!(eval_loop_steps(10, 4, Some(7)).unwrap(), 7);
}

#[test]
fn eval_steps_reject_empty_datasets_and_zero_sizes() {
    assert!(matches!(eval_loop_steps(0, 4, None), Err(TrainError::InvalidConfig(_))));
    assert!(matches!(eval_loop_steps(10, 0, None), Err(TrainError::InvalidConfig(_))));
    assert!(matches!(eval_loop_steps(10, 4, Some(0)), Err(TrainError::InvalidConfig(_))));
}

#[test]
fn eval_counts_merge_batches() {
    let mut counts = EvalLoopCounts::new();
    counts.add_batch(
        4,
        Some(ClassificationEvalMetrics { correct: 3, top5_correct: 4, total: 4 }),
        None,
        false,
        false,
    );
    counts.add_batch(
        2,
        Some(ClassificationEvalMetrics { correct: 1, top5_correct: 2, total: 2 }),
        None,
        false,
        false,
    );
    assert_eq!(counts.total_samples, 6);
    assert_eq!(
        counts.classification,
        Some(ClassificationEvalMetrics { correct: 4, top5_correct: 6, total: 6 })
    );
    assert_eq!(counts.detection, None);
    assert!(!counts.has_detection_output);

    counts.add_batch(
        1,
        None,
        Some(DetectionEvalMetrics { matched_targets: 2, total_targets: 3, predictions: 5 }),
        true,
        false,
    );
    assert_eq!(
        counts.detection,
        Some(DetectionEvalMetrics { matched_targets: 2, total_targets: 3, predictions: 5 })
    );
    assert!(counts.has_detection_output);
    assert!(counts.has_mask_output);
    assert!(!counts.has_pose_output);
}

#[test]
fn semantic_batches_may_name_more_classes_when_pixels_fit() {
    let mut acc = SemanticMapAccumulator::new();
    acc.add_batch(&[0, 1], &[0, 1], 3);
    assert_eq!(acc.classes(), 3);
    // Four classes named, but every counted cell (0 * 4 + 2 = 2) lies in the 3x3 matrix.
    acc.add_batch(&[2], &[0], 4);
    assert_eq!(acc.classes(), 3);
    assert_eq!(acc.valid_pixels(), 3);
}

#[test]
fn smoke_loss_of_classification_logits_is_their_mean_square() {
    let output = Output::Classify {
        logits: Tensor::from_vec(vec![1f32, 3.], (1, 2), &Device::Cpu).unwrap(),
    };
    let loss = smoke_loss(&output).unwrap().to_scalar::<f32>().unwrap();
    assert_eq!(loss, 5.0);
}

#[test]
fn smoke_loss_of_detection_leaves_out_anchors_and_strides() {
    let output = Output::Detect(DenseDetectionOutput {
        boxes: Tensor::ones((1, 4, 1), DType::F32, &Device::Cpu).unwrap(),
        scores: Tensor::from_vec(vec![2f32], (1, 1, 1), &Device::Cpu).unwrap(),
        anchors: Tensor::zeros((1, 2, 1), DType::F32, &Device::Cpu).unwrap(),
        stride_tensor: Tensor::ones((1, 1, 1), DType::F32, &Device::Cpu).unwrap(),
    });
    let loss = smoke_loss(&output).unwrap().to_scalar::<f32>().unwrap();
    assert_eq!(loss, 5.0);
}

#[test]
fn semantic_loss_rejects_out_of_range_class_ids() {
    let logits = Tensor::zeros((1, 2, 1, 2), DType::F32, &Device::Cpu).unwrap();
    let class_map = Tensor::from_vec(vec![0u32, 2], (1, 1, 2), &Device::Cpu).unwrap();
    assert!(matches!(semantic_loss(&logits, &class_map), Err(TrainError::InvalidTensor(_))));
    let ignored = Tensor::from_vec(vec![u32::MAX, 1], (1, 1, 2), &Device::Cpu).unwrap();
    let loss = semantic_loss(&logits, &ignored).unwrap();
    assert_eq!(loss.dims(), &[] as &[usize]);
}

#[test]
fn classification_loss_report_has_only_the_classification_component() {
    let logits = Tensor::zeros((2, 4), DType::F32, &Device::Cpu).unwrap();
    let class_ids = Tensor::from_vec(vec![0u32, 3], 2, &Device::Cpu).unwrap();
    let report = classification_loss_report(&logits, &class_ids).unwrap();
    let loss = report.loss.to_scalar::<f32>().unwrap();
    assert!((loss - 4f32.ln()).abs() < 1e-5);
    let component = report.components.classification_loss.unwrap().to_scalar::<f32>().unwrap();
    assert_eq!(component, loss);
    assert!(report.components.semantic_loss.is_none());
    assert!(report.components.smoke_loss.is_none());
    let wrong_rows = Tensor::from_vec(vec![0u32], 1, &Device::Cpu).unwrap();
    assert!(matches!(
        classification_loss_report(&logits, &wrong_rows),
        Err(TrainError::Tensor(_))
    ));
}
