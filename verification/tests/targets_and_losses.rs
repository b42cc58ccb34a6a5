use candle_core::{DType, Device, Tensor};
use yolo_train::{
    check_detection_dims, nearest_source_index, positive_mask_assignments, route_loss_report,
    select_supervised_pixels, semantic_loss, smoke_loss, supervised_loss_route, tensor_loss_report,
    DenseDetectionOutput, DetectionTargets, MaskCoefficientLayout, ObbTargets, Output,
    PositiveMaskAssignment, SegmentationMaskEncoding, SegmentationTargets, SupervisedLossRoute,
    Target, TrainError, SEMANTIC_IGNORE_CLASS_ID,
};

fn tensor(values: Vec<f32>, shape: &[usize]) -> Tensor {
    Tensor::from_vec(values, shape, &Device::Cpu).unwrap()
}

fn detection(batch: usize, objects: usize, classes: Vec<f32>) -> DetectionTargets {
    DetectionTargets::new(
        tensor(vec![0.0; batch * objects * 4], &[batch, objects, 4]),
        tensor(classes, &[batch, objects]),
        tensor(vec![1.0; batch * objects], &[batch, objects]),
    )
    .unwrap()
}

fn dense(anchors: usize) -> DenseDetectionOutput {
    DenseDetectionOutput {
        boxes: tensor(vec![1.0; 4 * anchors], &[1, 4, anchors]),
        scores: tensor(vec![0.5; anchors], &[1, 1, anchors]),
        anchors: tensor(vec![0.0; 2 * anchors], &[1, 2, anchors]),
        stride_tensor: tensor(vec![8.0; anchors], &[1, 1, anchors]),
    }
}

#[test]
fn detection_targets_reject_bad_shapes() {
    let bad = DetectionTargets::new(
        tensor(vec![0.0; 6], &[1, 2, 3]),
        tensor(vec![0.0; 2], &[1, 2]),
        tensor(vec![1.0; 2], &[1, 2]),
    );
    assert!(matches!(bad, Err(TrainError::InvalidTensor(_))));
    let bad_valid = DetectionTargets::new(
        tensor(vec![0.0; 8], &[1, 2, 4]),
        tensor(vec![0.0; 2], &[1, 2]),
        tensor(vec![1.0; 3], &[1, 3]),
    );
    assert!(matches!(bad_valid, Err(TrainError::InvalidTensor(_))));
}

#[test]
fn detection_dims_rule() {
    assert!(check_detection_dims(&vec![2, 5, 4], &vec![2, 5], &vec![2, 5]).is_ok());
    assert!(check_detection_dims(&vec![2, 5, 4], &vec![2, 4], &vec![2, 5]).is_err());
    assert!(check_detection_dims(&vec![2, 5], &vec![2, 5], &vec![2, 5]).is_err());
}

#[test]
fn per_instance_semantic_masks_prefer_smallest_object() {
    // Object 0 covers the whole 2x2 mask, object 1 only the first pixel.
    let masks = tensor(vec![1.0, 1.0, 1.0, 1.0, 1.0, 0.0, 0.0, 0.0], &[1, 2, 2, 2]);
    let targets = SegmentationTargets::new(detection(1, 2, vec![3.0, 5.0]), masks).unwrap();
    let semantic = targets.semantic_masks.to_vec3::<u32>().unwrap();
    assert_eq!(semantic, vec![vec![vec![5, 3], vec![3, 3]]]);
}

#[test]
fn overlap_semantic_masks_use_instance_index() {
    let masks = tensor(vec![0.0, 1.0, 2.0, 2.2], &[1, 1, 2, 2]);
    let targets = SegmentationTargets::new_overlap(detection(1, 2, vec![4.0, 7.0]), masks).unwrap();
    let semantic = targets.semantic_masks.to_vec3::<u32>().unwrap();
    assert_eq!(semantic, vec![vec![vec![0, 4], vec![7, 7]]]);
}

#[test]
fn empty_batch_gives_empty_class_map() {
    let masks = tensor(Vec::new(), &[0, 2, 3, 5]);
    let targets = SegmentationTargets::new(detection(0, 2, Vec::new()), masks).unwrap();
    assert_eq!(targets.semantic_masks.dims(), &[0, 3, 5]);
    let overlap = tensor(Vec::new(), &[0, 1, 3, 5]);
    let targets = SegmentationTargets::new_overlap(detection(0, 2, Vec::new()), overlap).unwrap();
    assert_eq!(targets.semantic_masks.dims(), &[0, 3, 5]);
}

#[test]
fn overlap_masks_need_one_channel() {
    let masks = tensor(vec![0.0; 8], &[1, 2, 2, 2]);
    let result = SegmentationTargets::new_overlap(detection(1, 2, vec![0.0, 0.0]), masks);
    assert!(matches!(result, Err(TrainError::InvalidTensor(_))));
}

#[test]
fn obb_targets_check_rbox_shape() {
    let ok = ObbTargets::new_with_rboxes(
        detection(1, 2, vec![0.0, 1.0]),
        tensor(vec![0.1, 0.2], &[1, 2]),
        tensor(vec![0.0; 10], &[1, 2, 5]),
    );
    assert!(ok.is_ok());
    let bad = ObbTargets::new_with_rboxes(
        detection(1, 2, vec![0.0, 1.0]),
        tensor(vec![0.1, 0.2], &[1, 2]),
        tensor(vec![0.0; 8], &[1, 2, 4]),
    );
    assert!(matches!(bad, Err(TrainError::InvalidTensor(_))));
}

#[test]
fn positives_are_listed_row_major() {
    let unassigned = usize::MAX;
    let target_gt_idx = vec![unassigned, 2, 0, unassigned];
    let positives = positive_mask_assignments(&target_gt_idx, 2, 2);
    assert_eq!(
        positives,
        vec![
            PositiveMaskAssignment { batch_idx: 0, anchor_idx: 1, object_idx: 2 },
            PositiveMaskAssignment { batch_idx: 1, anchor_idx: 0, object_idx: 0 },
        ]
    );
}

#[test]
fn mask_coefficient_layouts() {
    assert_eq!(
        MaskCoefficientLayout::from_dims(32, 100, 32, 100).unwrap().anchors_len(),
        100
    );
    assert_eq!(
        MaskCoefficientLayout::from_dims(100, 32, 32, 100).unwrap().anchors_len(),
        100
    );
    assert!(matches!(
        MaskCoefficientLayout::from_dims(10, 20, 32, 100),
        Err(TrainError::InvalidTensor(_))
    ));
}

#[test]
fn supervised_pixels_skip_ignored_and_reject_out_of_range() {
    let targets = vec![1, SEMANTIC_IGNORE_CLASS_ID, 0, 2];
    let (indices, kept) = select_supervised_pixels(&targets, 3).unwrap();
    assert_eq!(indices, vec![0, 2, 3]);
    assert_eq!(kept, vec![1, 0, 2]);
    assert!(matches!(
        select_supervised_pixels(&vec![0, 3], 3),
        Err(TrainError::InvalidTensor(_))
    ));
}

#[test]
fn nearest_source_indices() {
    assert_eq!(nearest_source_index(3, 4, 2), 1);
    assert_eq!(nearest_source_index(1, 4, 2), 0);
    assert_eq!(nearest_source_index(5, 4, 8), 7);
    assert_eq!(nearest_source_index(2, 1, 8), 0);
    assert_eq!(nearest_source_index(2, 4, 1), 0);
}

#[test]
fn semantic_loss_of_uniform_logits_is_log_classes() {
    let logits = tensor(vec![0.0; 2 * 2 * 2], &[1, 2, 2, 2]);
    let class_map = tensor(vec![0.0, 1.0, 1.0, 0.0], &[1, 2, 2]);
    let loss = semantic_loss(&logits, &class_map).unwrap().to_scalar::<f32>().unwrap();
    assert!((loss - std::f32::consts::LN_2).abs() < 1e-6);
}

#[test]
fn semantic_loss_rejects_mismatched_class_map() {
    let logits = tensor(vec![0.0; 8], &[1, 2, 2, 2]);
    let class_map = tensor(vec![0.0; 6], &[1, 2, 3]);
    assert!(matches!(semantic_loss(&logits, &class_map), Err(TrainError::InvalidTensor(_))));
}

#[test]
fn smoke_loss_of_classification_logits() {
    let output = Output::Classify { logits: tensor(vec![1.0, 3.0], &[1, 2]) };
    let loss = smoke_loss(&output).unwrap().to_scalar::<f32>().unwrap();
    assert!((loss - 5.0).abs() < 1e-6);
}

#[test]
fn routes_follow_output_and_target_kinds() {
    let output = Output::Classify { logits: tensor(vec![0.0, 1.0], &[1, 2]) };
    let target = Target::Classification { class_ids: tensor(vec![1.0], &[1]) };
    assert!(matches!(
        supervised_loss_route(&output, &target),
        Ok(SupervisedLossRoute::Classification { .. })
    ));
    let detect = Output::Detect(dense(2));
    assert!(matches!(
        supervised_loss_route(&detect, &target),
        Err(TrainError::Unsupported(_))
    ));
    let pose = Output::Pose { detect: dense(2), keypoints: tensor(vec![0.0; 6], &[1, 3, 2]) };
    let det_target = Target::Detection(detection(1, 1, vec![0.0]));
    assert!(matches!(
        supervised_loss_route(&pose, &det_target),
        Ok(SupervisedLossRoute::Detection { .. })
    ));
    assert!(matches!(
        supervised_loss_route(&pose, &Target::Dense),
        Err(TrainError::Unsupported(_))
    ));
}

#[test]
fn route_reports_cover_classification_and_semantic_routes() {
    let logits = Tensor::zeros((1, 2), DType::F32, &Device::Cpu).unwrap();
    let class_ids = Tensor::from_vec(vec![1u32], 1, &Device::Cpu).unwrap();
    let output = Output::Classify { logits };
    let target = Target::Classification { class_ids };
    let route = supervised_loss_route(&output, &target).unwrap();
    let report = route_loss_report(&route).unwrap().unwrap();
    assert!((report.loss.to_scalar::<f32>().unwrap() - 2f32.ln()).abs() < 1e-5);
    assert!(report.components.classification_loss.is_some());
    assert!(report.components.semantic_loss.is_none());

    let output = Output::Semantic { logits: tensor(vec![0.0; 8], &[1, 2, 2, 2]) };
    let target = Target::Semantic { class_map: tensor(vec![0.0, 1.0, 1.0, 0.0], &[1, 2, 2]) };
    let route = supervised_loss_route(&output, &target).unwrap();
    let report = route_loss_report(&route).unwrap().unwrap();
    assert!((report.loss.to_scalar::<f32>().unwrap() - 2f32.ln()).abs() < 1e-5);
    assert!(report.components.semantic_loss.is_some());
    assert!(report.components.classification_loss.is_none());

    let det_target = Target::Detection(detection(1, 1, vec![0.0]));
    let detect = Output::Detect(dense(2));
    let route = supervised_loss_route(&detect, &det_target).unwrap();
    assert!(route_loss_report(&route).is_none());
}

#[test]
fn tensor_loss_reports_by_output_and_target_kind() {
    let output = Output::Classify { logits: Tensor::zeros((2, 3), DType::F32, &Device::Cpu).unwrap() };
    let target = Target::Classification {
        class_ids: Tensor::from_vec(vec![0u32, 2], 2, &Device::Cpu).unwrap(),
    };
    let report = tensor_loss_report(&output, &target).unwrap().unwrap();
    assert!((report.loss.to_scalar::<f32>().unwrap() - 3f32.ln()).abs() < 1e-5);
    assert!(report.components.classification_loss.is_some());

    let semantic = Output::Semantic { logits: tensor(vec![0.0; 8], &[1, 2, 2, 2]) };
    let bad_map = Target::Semantic { class_map: tensor(vec![0.0, 1.0, 1.0, 7.0], &[1, 2, 2]) };
    assert!(matches!(
        tensor_loss_report(&semantic, &bad_map),
        Err(TrainError::InvalidTensor(_))
    ));

    let detect = Output::Detect(dense(2));
    let det_target = Target::Detection(detection(1, 1, vec![0.0]));
    assert!(matches!(tensor_loss_report(&detect, &det_target), Ok(None)));
    assert!(matches!(
        tensor_loss_report(&detect, &target),
        Err(TrainError::Unsupported(_))
    ));
}

#[test]
fn dedicated_constructors_agree_with_the_general_one() {
    let masks = tensor(vec![1.0, 1.0, 1.0, 1.0, 1.0, 0.0, 0.0, 0.0], &[1, 2, 2, 2]);
    let a = SegmentationTargets::new(detection(1, 2, vec![3.0, 5.0]), masks.clone()).unwrap();
    let b = SegmentationTargets::new_with_mask_encoding(
        detection(1, 2, vec![3.0, 5.0]),
        masks,
        SegmentationMaskEncoding::PerInstance,
    )
    .unwrap();
    assert_eq!(a.mask_encoding, b.mask_encoding);
    assert_eq!(a.semantic_masks.dims(), b.semantic_masks.dims());
    assert_eq!(
        a.semantic_masks.to_vec3::<u32>().unwrap(),
        b.semantic_masks.to_vec3::<u32>().unwrap()
    );

    let overlap = tensor(vec![0.0, 1.0, 2.0, 2.2], &[1, 1, 2, 2]);
    let c = SegmentationTargets::new_overlap(detection(1, 2, vec![4.0, 7.0]), overlap.clone()).unwrap();
    let d = SegmentationTargets::new_with_mask_encoding(
        detection(1, 2, vec![4.0, 7.0]),
        overlap,
        SegmentationMaskEncoding::Overlap,
    )
    .unwrap();
    assert_eq!(c.mask_encoding, SegmentationMaskEncoding::Overlap);
    assert_eq!(
        c.semantic_masks.to_vec3::<u32>().unwrap(),
        d.semantic_masks.to_vec3::<u32>().unwrap()
    );

    let bad = tensor(vec![0.0; 8], &[1, 2, 2, 2]);
    assert!(matches!(
        SegmentationTargets::new_overlap(detection(1, 2, vec![0.0, 0.0]), bad.clone()),
        Err(TrainError::InvalidTensor(_))
    ));
    assert!(matches!(
        SegmentationTargets::new_with_mask_encoding(
            detection(1, 2, vec![0.0, 0.0]),
            bad,
            SegmentationMaskEncoding::Overlap
        ),
        Err(TrainError::InvalidTensor(_))
    ));
}
