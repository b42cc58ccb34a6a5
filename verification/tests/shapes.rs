use candle_core::{Device, Tensor};
use yolo_train::{
    bce_with_logits_elementwise, bce_with_logits_sum, decode_detection_boxes, decode_keypoint_xy,
    keypoint_visibility_logits, pose_keypoint_dims, smoke_loss, validate_target_mask_shape, DenseDetectionOutput,
    DetectionTargets, MaskCoefficientLayout, Output, SegmentationTargets, TrainError,
};

fn tensor(values: Vec<f32>, shape: &[usize]) -> Tensor {
    Tensor::from_vec(values, shape, &Device::Cpu).unwrap()
}

fn counting(shape: &[usize]) -> Tensor {
    let n: usize = shape.iter().product();
    tensor((0..n).map(|v| v as f32).collect(), shape)
}

fn detection(batch: usize, objects: usize) -> DetectionTargets {
    DetectionTargets::new(
        tensor(vec![0.0; batch * objects * 4], &[batch, objects, 4]),
        tensor(vec![1.0; batch * objects], &[batch, objects]),
        tensor(vec![1.0; batch * objects], &[batch, objects]),
    )
    .unwrap()
}

#[test]
fn channel_anchor_coefficients_are_one_row_of_channels() {
    // [batch 2, channels 3, anchors 4]
    let coefficients = counting(&[2, 3, 4]);
    let layout = MaskCoefficientLayout::ChannelAnchor { anchors_len: 4 };
    let row = layout.anchor_coefficients(&coefficients, 1, 2).unwrap();
    assert_eq!(row.dims(), &[1, 3]);
    assert_eq!(row.to_vec2::<f32>().unwrap(), vec![vec![14.0, 18.0, 22.0]]);
}

#[test]
fn anchor_channel_coefficients_are_one_row_of_channels() {
    // [batch 1, anchors 3, channels 2]
    let coefficients = counting(&[1, 3, 2]);
    let layout = MaskCoefficientLayout::AnchorChannel { anchors_len: 3 };
    let row = layout.anchor_coefficients(&coefficients, 0, 1).unwrap();
    assert_eq!(row.dims(), &[1, 2]);
    assert_eq!(row.to_vec2::<f32>().unwrap(), vec![vec![2.0, 3.0]]);
}

#[test]
fn anchor_coefficients_out_of_range_fail() {
    let coefficients = counting(&[2, 3, 4]);
    let layout = MaskCoefficientLayout::ChannelAnchor { anchors_len: 4 };
    assert!(matches!(
        layout.anchor_coefficients(&coefficients, 2, 0),
        Err(TrainError::Tensor(_))
    ));
    assert!(matches!(
        layout.anchor_coefficients(&coefficients, 0, 4),
        Err(TrainError::Tensor(_))
    ));
}

#[test]
fn decoded_keypoints_have_two_columns_per_keypoint() {
    // 5 anchors, 2 keypoints of 3 values each.
    let keypoints = tensor(vec![1.0; 5 * 6], &[5, 6]);
    let anchors = counting(&[5, 2]);
    let strides = tensor(vec![2.0; 5], &[5, 1]);
    let decoded = decode_keypoint_xy(&keypoints, &anchors, &strides, 2, 3).unwrap();
    assert_eq!(decoded.dims(), &[5, 4]);
    let rows = decoded.to_vec2::<f32>().unwrap();
    // anchor 1 is (2, 3): x = (1 + 2) * 2, y = (1 + 3) * 2
    assert_eq!(rows[1], vec![6.0, 8.0, 6.0, 8.0]);
}

#[test]
fn decoding_no_keypoints_fails() {
    let keypoints = tensor(vec![1.0; 5 * 6], &[5, 6]);
    let anchors = counting(&[5, 2]);
    let strides = tensor(vec![2.0; 5], &[5, 1]);
    assert!(decode_keypoint_xy(&keypoints, &anchors, &strides, 0, 3).is_err());
}

#[test]
fn decoding_keypoints_without_their_channels_fails() {
    let keypoints = tensor(vec![1.0; 5 * 4], &[5, 4]);
    let anchors = counting(&[5, 2]);
    let strides = tensor(vec![2.0; 5], &[5, 1]);
    assert!(decode_keypoint_xy(&keypoints, &anchors, &strides, 2, 3).is_err());
}

#[test]
fn visibility_logits_take_one_column_per_keypoint() {
    let keypoints = counting(&[2, 9]);
    let single = keypoint_visibility_logits(&keypoints, 1, 3).unwrap();
    assert_eq!(single.dims(), &[2, 1]);
    let visibility = keypoint_visibility_logits(&keypoints, 3, 3).unwrap();
    assert_eq!(visibility.dims(), &[2, 3]);
    assert_eq!(
        visibility.to_vec2::<f32>().unwrap(),
        vec![vec![2.0, 5.0, 8.0], vec![11.0, 14.0, 17.0]]
    );
    assert!(keypoint_visibility_logits(&keypoints, 0, 3).is_err());
    assert!(keypoint_visibility_logits(&keypoints, 4, 3).is_err());
}

#[test]
fn target_mask_shape_reports_height_and_width() {
    let masks = tensor(vec![0.0; 2 * 3 * 5], &[1, 2, 3, 5]);
    let targets = SegmentationTargets::new(detection(1, 2), masks).unwrap();
    assert_eq!(targets.semantic_masks.dims(), &[1, 3, 5]);
    assert_eq!(validate_target_mask_shape(&targets, 1).unwrap(), (3, 5));
    assert!(matches!(
        validate_target_mask_shape(&targets, 2),
        Err(TrainError::InvalidTensor(_))
    ));
}

#[test]
fn segmentation_targets_reject_masks_of_the_wrong_rank() {
    let masks = tensor(vec![0.0; 2 * 3], &[1, 2, 3]);
    assert!(matches!(
        SegmentationTargets::new(detection(1, 2), masks),
        Err(TrainError::InvalidTensor(_))
    ));
}

#[test]
fn losses_are_scalars() {
    let logits = tensor(vec![0.5, -0.5, 2.0, 0.0], &[2, 2]);
    let target = tensor(vec![1.0, 0.0, 1.0, 0.0], &[2, 2]);
    let sum = bce_with_logits_sum(&logits, &target).unwrap();
    assert_eq!(sum.dims(), &[] as &[usize]);
    let output = Output::Semantic { logits: tensor(vec![1.0, 2.0], &[1, 2]) };
    assert_eq!(smoke_loss(&output).unwrap().dims(), &[] as &[usize]);
}

#[test]
fn bce_broadcasts_targets_over_logits() {
    let logits = tensor(vec![0.0; 6], &[2, 3]);
    let target = tensor(vec![1.0, 0.0, 1.0], &[3]);
    let losses = bce_with_logits_elementwise(&logits, &target).unwrap();
    assert_eq!(losses.dims(), &[2, 3]);
    let mismatched = tensor(vec![1.0, 0.0], &[2]);
    assert!(bce_with_logits_elementwise(&logits, &mismatched).is_err());
}

#[test]
fn box_decoding_needs_four_distance_channels() {
    let output = DenseDetectionOutput {
        boxes: tensor(vec![1.0; 3], &[1, 3, 1]),
        scores: tensor(vec![0.5], &[1, 1, 1]),
        anchors: tensor(vec![0.0; 2], &[1, 2, 1]),
        stride_tensor: tensor(vec![8.0], &[1, 1, 1]),
    };
    assert!(decode_detection_boxes(&output).is_err());
}

#[test]
fn pose_keypoint_dims_split_channels_evenly() {
    assert_eq!(pose_keypoint_dims(51, 17).unwrap(), 3);
    assert_eq!(pose_keypoint_dims(34, 17).unwrap(), 2);
    assert!(matches!(pose_keypoint_dims(17, 17), Err(TrainError::InvalidTensor(_))));
    assert!(matches!(pose_keypoint_dims(50, 17), Err(TrainError::InvalidTensor(_))));
    assert!(matches!(pose_keypoint_dims(51, 0), Err(TrainError::InvalidTensor(_))));
}
