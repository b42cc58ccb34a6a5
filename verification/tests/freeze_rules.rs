use yolo_train::{is_always_frozen_variable, Freeze, TrainError};

#[test]
fn first_layers_freeze_leading_model_layers() {
    let rule = Freeze::first_layers(3);
    assert!(rule.freezes_variable("model.0.conv.weight"));
    assert!(rule.freezes_variable("model.2.cv1.bias"));
    assert!(!rule.freezes_variable("model.3.conv.weight"));
    assert!(!rule.freezes_variable("model.10.conv.weight"));
    assert!(rule.allows_variable("model.12.m.0.weight"));
    assert_eq!(rule.first_layers_count(), Some(3));
    assert_eq!(rule.layers_list(), None);
}

#[test]
fn dfl_variables_are_always_frozen() {
    assert!(is_always_frozen_variable("model.23.dfl.conv.weight"));
    assert!(Freeze::first_layers(0).freezes_variable("model.23.dfl.conv.weight"));
    assert!(!is_always_frozen_variable("model.23.cv2.weight"));
}

#[test]
fn layer_lists_are_sorted_and_deduplicated() {
    let rule = Freeze::layers(vec![5, 1, 5, 3]).unwrap();
    assert_eq!(rule.layers_list(), Some(&[1usize, 3, 5][..]));
    assert_eq!(rule, Freeze::layers(vec![3, 1, 5]).unwrap());
    assert!(rule.freezes_variable("model.3.conv.weight"));
    assert!(!rule.freezes_variable("model.2.conv.weight"));
    assert_eq!(rule.first_layers_count(), None);
}

#[test]
fn empty_layer_list_is_rejected() {
    assert!(matches!(Freeze::layers(vec![]), Err(TrainError::InvalidConfig(_))));
}

#[test]
fn listing_leading_layers_matches_first_layers() {
    let listed = Freeze::layers(vec![0, 1]).unwrap();
    let first = Freeze::first_layers(2);
    for name in ["model.0.a", "model.1.b", "model.2.c", "x.dfl"] {
        assert_eq!(listed.freezes_variable(name), first.freezes_variable(name));
    }
}
