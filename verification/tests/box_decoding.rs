use candle_core::{Device, Tensor};
use yolo_train::{bce_with_logits_elementwise, decode_detection_boxes, DenseDetectionOutput};

#[test]
fn decode_detection_boxes_matches_dist2bbox_without_clamping() {
    let device = Device::Cpu;
    let output = DenseDetectionOutput {
        boxes: Tensor::from_vec(vec![-1.0f32, -2.0, -3.0, -4.0], (1, 4, 1), &device).unwrap(),
        scores: Tensor::from_vec(vec![0.0f32], (1, 1, 1), &device).unwrap(),
        anchors: Tensor::from_vec(vec![5.0f32, 6.0], (1, 2, 1), &device).unwrap(),
        stride_tensor: Tensor::from_vec(vec![8.0f32], (1, 1, 1), &device).unwrap(),
    };

    let decoded = decode_detection_boxes(&output)
        .unwrap()
        .to_vec3::<f32>()
        .unwrap();

    assert_eq!(decoded[0][0][0], 48.0);
    assert_eq!(decoded[0][1][0], 64.0);
    assert_eq!(decoded[0][2][0], 16.0);
    assert_eq!(decoded[0][3][0], 16.0);
}

#[test]
fn bce_with_logits_is_non_negative_for_saturated_logits() {
    let device = Device::Cpu;
    let logits = Tensor::from_vec(vec![-100.0f32, 100.0, 0.0, 0.0], (1, 4), &device).unwrap();
    let target = Tensor::from_vec(vec![0.0f32, 1.0, 0.0, 1.0], (1, 4), &device).unwrap();

    let losses = bce_with_logits_elementwise(&logits, &target)
        .unwrap()
        .to_vec2::<f32>()
        .unwrap();

    for value in losses[0].iter().copied() {
        assert!(value >= 0.0, "BCE loss must be non-negative, got {value}");
    }
    assert!(losses[0][0] < 1e-4);
    assert!(losses[0][1] < 1e-4);
    assert!((losses[0][2] - std::f32::consts::LN_2).abs() < 1e-6);
    assert!((losses[0][3] - std::f32::consts::LN_2).abs() < 1e-6);
}
