use yolo_train::{
    auto_optimizer, is_musgd_high_lr_variable, optimizer_group_plan, is_no_decay_variable, is_task_head_variable,
    validate_class_names, variable_role, OfficialOptimizer, OptimizerGroupRole, Task, TrainError,
};

#[test]
fn task_identifiers() {
    assert_eq!(Task::Detect.as_str(), "detect");
    assert_eq!(Task::Classify.as_str(), "classify");
    assert_eq!(Task::Segment.as_str(), "segment");
    assert_eq!(Task::Pose.as_str(), "pose");
    assert_eq!(Task::Semantic.as_str(), "semantic");
    assert_eq!(Task::Obb.as_str(), "obb");
}

#[test]
fn head_variables_follow_the_task_head_layer() {
    assert!(is_task_head_variable(Task::Detect, "model.23.cv2.0.weight"));
    assert!(is_task_head_variable(Task::Obb, "model.23.cv4.1.bias"));
    assert!(!is_task_head_variable(Task::Detect, "model.2.cv1.weight"));
    assert!(is_task_head_variable(Task::Classify, "model.10.linear.weight"));
    assert!(!is_task_head_variable(Task::Classify, "model.23.cv2.weight"));
    assert!(is_task_head_variable(Task::Semantic, "model.17.proto.weight"));
    assert!(!is_task_head_variable(Task::Semantic, "backbone.model.17.x"));
}

#[test]
fn variable_roles() {
    assert_eq!(variable_role("model.0.conv.bias", 1), OptimizerGroupRole::Bias);
    assert_eq!(variable_role("model.0.bn.weight", 1), OptimizerGroupRole::NoDecay);
    assert_eq!(variable_role("model.0.conv.weight", 4), OptimizerGroupRole::Main);
    assert_eq!(variable_role("model.0.conv.weight", 1), OptimizerGroupRole::NoDecay);
    assert_eq!(variable_role("model.5.Norm.weight", 2), OptimizerGroupRole::NoDecay);
}

#[test]
fn no_decay_names_are_case_insensitive() {
    assert!(is_no_decay_variable("encoder.LayerNorm.weight"));
    assert!(is_no_decay_variable("BN.weight"));
    assert!(is_no_decay_variable("head.logit_scale"));
    assert!(is_no_decay_variable("block_bn.weight"));
    assert!(!is_no_decay_variable("model.3.conv.weight"));
    assert!(!is_no_decay_variable("abn.weight"));
}

#[test]
fn musgd_high_lr_names() {
    assert!(is_musgd_high_lr_variable("model.23.cv3.0.weight"));
    assert!(!is_musgd_high_lr_variable("model.23.cv2.0.weight"));
    assert!(is_musgd_high_lr_variable("model.22.proto.semseg.weight"));
    assert!(is_musgd_high_lr_variable("SemanticSegment.head"));
}

#[test]
fn auto_optimizer_selection() {
    assert!(matches!(auto_optimizer(0, 5), Err(TrainError::InvalidConfig(_))));
    assert_eq!(auto_optimizer(80, 10_000).unwrap(), OfficialOptimizer::AdamW);
    assert_eq!(auto_optimizer(80, 10_001).unwrap(), OfficialOptimizer::MuSgd);
}

#[test]
fn class_names_validation() {
    let names = vec!["cat".to_string(), "dog".to_string()];
    assert!(validate_class_names(2, None).is_ok());
    assert!(validate_class_names(2, Some(names.as_slice())).is_ok());
    assert!(matches!(validate_class_names(3, Some(names.as_slice())), Err(TrainError::InvalidConfig(_))));
    let with_empty = vec!["cat".to_string(), String::new()];
    assert!(matches!(validate_class_names(2, Some(with_empty.as_slice())), Err(TrainError::InvalidConfig(_))));
}

#[test]
fn optimizer_groups_follow_first_appearance() {
    let names = vec![
        "model.0.conv.weight".to_string(),
        "model.0.conv.bias".to_string(),
        "model.0.bn.weight".to_string(),
        "model.23.cv3.0.weight".to_string(),
        "model.1.conv.weight".to_string(),
        "model.23.cv3.0.bias".to_string(),
    ];
    let ranks = vec![4, 1, 1, 4, 4, 1];
    let plan = optimizer_group_plan(&names, &ranks, true);
    let summary = plan
        .iter()
        .map(|g| (g.role, g.high_lr, g.members.clone()))
        .collect::<Vec<_>>();
    assert_eq!(
        summary,
        vec![
            (OptimizerGroupRole::Main, false, vec![0, 4]),
            (OptimizerGroupRole::Bias, false, vec![1]),
            (OptimizerGroupRole::NoDecay, false, vec![2]),
            (OptimizerGroupRole::Main, true, vec![3]),
            (OptimizerGroupRole::Bias, true, vec![5]),
        ]
    );
    let plain = optimizer_group_plan(&names, &ranks, false);
    assert_eq!(plain.len(), 3);
    let mut all = plain.iter().flat_map(|g| g.members.clone()).collect::<Vec<_>>();
    all.sort();
    assert_eq!(all, vec![0, 1, 2, 3, 4, 5]);
}

#[test]
fn one_to_one_heads_align_with_skipped_sources() {
    let skipped = vec![
        "model.23.one2one_cv3.0.2.weight".to_string(),
        "model.23.cv3.0.2.weight".to_string(),
        "model.23.one2one_cv3.1.2.weight".to_string(),
        "model.23.cv2.0.weight".to_string(),
    ];
    let pairs = yolo_train::one_to_one_alignments(&skipped);
    assert_eq!(pairs, vec![(0, "model.23.cv3.0.2.weight".to_string())]);
}
