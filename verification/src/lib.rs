//! Verified training-side logic for YOLO-style models: layer freezing rules,
//! target validation, loss routing, anchor assignment, and evaluation
//! bookkeeping.

pub mod assignment;
pub mod error;
pub mod eval_loop;
pub mod freeze;
pub mod glob;
pub mod heads;
pub mod matching;
pub mod metrics;
pub mod names;
pub mod output;
pub mod route;
pub mod semantic_loss;
pub mod semantic_masks;
pub mod targets;
mod tensor;
pub mod text;

pub use assignment::{
    compute_object_stats, resolve_detection_assignments, tal_primary_topk, tal_secondary_topk,
    AssignmentCandidate, ObjectStats,
};
pub use error::{message, TrainError};
pub use eval_loop::{eval_loop_steps, EvalLoopCounts};
pub use freeze::{is_always_frozen_variable, Freeze};
pub use glob::{
    components_have_glob, extension_is_supported_image, extension_is_text,
    glob_component_has_wildcard, glob_component_matches, is_supported_image, is_text_file,
    list_file_entries, path_has_glob,
};
pub use heads::{
    check_target_mask_dims, decode_keypoint_xy, keypoint_visibility_logits, pose_keypoint_dims,
    positive_mask_assignments, validate_target_mask_shape, MaskCoefficientLayout,
    PositiveMaskAssignment,
};
pub use matching::{
    greedy_count, greedy_match, greedy_pairs, mark_official_matches, match_targets, N_THRESHOLDS,
};
pub use metrics::{
    classification_counts, ClassificationEvalMetrics, DetectionEvalMetrics, SemanticClassStats,
    SemanticMapAccumulator,
};
pub use names::{
    auto_optimizer, is_musgd_high_lr_variable, is_no_decay_variable, is_task_head_variable,
    one_to_one_alignments, optimizer_group_plan, validate_class_names, variable_role,
    OfficialOptimizer, OptimizerGroupPlan, OptimizerGroupRole, Task, AUTO_MUSGD_MIN_ITERATIONS,
};
pub use output::{
    bce_with_logits_elementwise, bce_with_logits_sum, classification_loss_report,
    decode_detection_boxes, mean_sqr_sum,
    obb_parts, output_detection, pose_parts, segment_output, smoke_loss, smoke_loss_terms,
    target_detection, target_segmentation, DenseDetectionOutput, LoadReport, LossTensorComponents,
    LossTensorReport, Output, Target,
};
pub use route::{route_loss_report, supervised_loss_route, tensor_loss_report, SupervisedLossRoute};
pub use semantic_loss::{
    nearest_source_index, select_supervised_pixels, semantic_loss, semantic_loss_report,
    semantic_loss_with_ignore, SEMANTIC_IGNORE_CLASS_ID,
};
pub use semantic_masks::{semantic_class_map, MaskTargetData};
pub use targets::{
    check_detection_dims, check_obb_dims, check_pose_dims, check_segmentation_mask_dims,
    validate_segmentation_masks, DetectionTargets, ObbTargets, PoseTargets,
    SegmentationMaskEncoding, SegmentationTargets,
};
pub use text::{str_chars, str_contains, str_starts_with};
