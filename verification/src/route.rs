//! Which supervised loss applies to an output/target pair.
//!
//! The loss computations themselves run on floating-point weights; the choice
//! of loss, and of the tensors each one reads, is made here.
use vstd::prelude::*;

use candle_core::Tensor;

use crate::error::{message, TrainError};
use crate::output::{
    classification_loss_report, classification_report_made, DenseDetectionOutput, LossTensorReport,
    Output, Target,
};
use crate::semantic_loss::{semantic_loss_report, semantic_report_made};
use crate::tensor::{
    cpu_int_tensor, cpu_logits_without_classes, element_count_fits, no_cpu_int_elements,
};
use crate::targets::{DetectionTargets, ObbTargets, PoseTargets, SegmentationTargets};

verus! {

/// The supervised loss chosen for an output/target pair, with the tensors it reads.
pub enum SupervisedLossRoute<'a> {
    /// Cross entropy of class logits.
    Classification { logits: &'a Tensor, class_ids: &'a Tensor },
    /// Detection loss of a single head.
    Detection { detect: &'a DenseDetectionOutput, targets: &'a DetectionTargets },
    /// Progressive blend of the one-to-many and one-to-one detection losses.
    ProgressiveDetection {
        one_to_many: &'a DenseDetectionOutput,
        one_to_one: &'a DenseDetectionOutput,
        targets: &'a DetectionTargets,
    },
    /// Detection plus mask (and optional semantic) loss of a single head.
    Segmentation {
        detect: &'a DenseDetectionOutput,
        masks: &'a Tensor,
        proto: &'a Tensor,
        semantic: Option<&'a Tensor>,
        targets: &'a SegmentationTargets,
    },
    /// Progressive blend of the two segmentation heads.
    ProgressiveSegmentation {
        one_to_many_detect: &'a DenseDetectionOutput,
        one_to_many_masks: &'a Tensor,
        one_to_one_detect: &'a DenseDetectionOutput,
        one_to_one_masks: &'a Tensor,
        proto: &'a Tensor,
        semantic: Option<&'a Tensor>,
        targets: &'a SegmentationTargets,
    },
    /// Detection plus keypoint loss of a single head.
    Pose { detect: &'a DenseDetectionOutput, keypoints: &'a Tensor, targets: &'a PoseTargets },
    /// Progressive blend of the two pose heads.
    ProgressivePose {
        one_to_many_detect: &'a DenseDetectionOutput,
        one_to_many_keypoints: &'a Tensor,
        one_to_one_detect: &'a DenseDetectionOutput,
        one_to_one_keypoints: &'a Tensor,
        targets: &'a PoseTargets,
    },
    /// Detection plus angle loss of a single head.
    Obb { detect: &'a DenseDetectionOutput, angles: &'a Tensor, targets: &'a ObbTargets },
    /// Progressive blend of the two oriented-box heads.
    ProgressiveObb {
        one_to_many_detect: &'a DenseDetectionOutput,
        one_to_many_angles: &'a Tensor,
        one_to_one_detect: &'a DenseDetectionOutput,
        one_to_one_angles: &'a Tensor,
        targets: &'a ObbTargets,
    },
    /// Semantic segmentation cross entropy.
    Semantic { logits: &'a Tensor, class_map: &'a Tensor },
}

/// The optional semantic tensor, as a spec value.
pub open spec fn same_optional(r: Option<&Tensor>, t: Option<Tensor>) -> bool {
    match (r, t) {
        (Some(a), Some(b)) => *a == b,
        (None, None) => true,
        _ => false,
    }
}

/// The route that applies to `(output, target)`, stated pair by pair; any pair
/// not listed is unsupported.
pub open spec fn route_matches(output: Output, target: Target, r: SupervisedLossRoute) -> bool {
    match (output, target) {
        (Output::Classify { logits }, Target::Classification { class_ids }) => r matches SupervisedLossRoute::Classification {
            logits: l,
            class_ids: c,
        } && *l == logits && *c == class_ids,
        (Output::Detect(out), Target::Detection(targets)) => r matches SupervisedLossRoute::Detection {
            detect: d,
            targets: t,
        } && *d == out && *t == targets,
        (Output::DetectE2e { one_to_many, one_to_one }, Target::Detection(targets)) => r matches SupervisedLossRoute::ProgressiveDetection {
            one_to_many: m,
            one_to_one: o,
            targets: t,
        } && *m == one_to_many && *o == one_to_one && *t == targets,
        (
            Output::Segment { detect, masks, proto, semantic },
            Target::Segmentation(targets),
        ) => r matches SupervisedLossRoute::Segmentation {
            detect: d,
            masks: m,
            proto: p,
            semantic: s,
            targets: t,
        } && *d == detect && *m == masks && *p == proto && same_optional(s, semantic) && *t
            == targets,
        (
            Output::SegmentE2e {
                one_to_many_detect,
                one_to_many_masks,
                one_to_one_detect,
                one_to_one_masks,
                proto,
                semantic,
            },
            Target::Segmentation(targets),
        ) => r matches SupervisedLossRoute::ProgressiveSegmentation {
            one_to_many_detect: md,
            one_to_many_masks: mm,
            one_to_one_detect: od,
            one_to_one_masks: om,
            proto: p,
            semantic: s,
            targets: t,
        } && *md == one_to_many_detect && *mm == one_to_many_masks && *od == one_to_one_detect
            && *om == one_to_one_masks && *p == proto && same_optional(s, semantic) && *t
            == targets,
        (Output::Pose { detect, keypoints }, Target::Pose(targets)) => r matches SupervisedLossRoute::Pose {
            detect: d,
            keypoints: k,
            targets: t,
        } && *d == detect && *k == keypoints && *t == targets,
        (
            Output::PoseE2e {
                one_to_many_detect,
                one_to_many_keypoints,
                one_to_one_detect,
                one_to_one_keypoints,
            },
            Target::Pose(targets),
        ) => r matches SupervisedLossRoute::ProgressivePose {
            one_to_many_detect: md,
            one_to_many_keypoints: mk,
            one_to_one_detect: od,
            one_to_one_keypoints: ok,
            targets: t,
        } && *md == one_to_many_detect && *mk == one_to_many_keypoints && *od
            == one_to_one_detect && *ok == one_to_one_keypoints && *t == targets,
        (Output::Obb { detect, angles }, Target::Obb(targets)) => r matches SupervisedLossRoute::Obb {
            detect: d,
            angles: a,
            targets: t,
        } && *d == detect && *a == angles && *t == targets,
        (
            Output::ObbE2e {
                one_to_many_detect,
                one_to_many_angles,
                one_to_one_detect,
                one_to_one_angles,
            },
            Target::Obb(targets),
        ) => r matches SupervisedLossRoute::ProgressiveObb {
            one_to_many_detect: md,
            one_to_many_angles: ma,
            one_to_one_detect: od,
            one_to_one_angles: oa,
            targets: t,
        } && *md == one_to_many_detect && *ma == one_to_many_angles && *od == one_to_one_detect
            && *oa == one_to_one_angles && *t == targets,
        (Output::Segment { detect, .. }, Target::Detection(targets)) => r matches SupervisedLossRoute::Detection {
            detect: d,
            targets: t,
        } && *d == detect && *t == targets,
        (Output::Pose { detect, .. }, Target::Detection(targets)) => r matches SupervisedLossRoute::Detection {
            detect: d,
            targets: t,
        } && *d == detect && *t == targets,
        (Output::Obb { detect, .. }, Target::Detection(targets)) => r matches SupervisedLossRoute::Detection {
            detect: d,
            targets: t,
        } && *d == detect && *t == targets,
        (
            Output::SegmentE2e { one_to_many_detect, one_to_one_detect, .. },
            Target::Detection(targets),
        ) => r matches SupervisedLossRoute::ProgressiveDetection {
            one_to_many: m,
            one_to_one: o,
            targets: t,
        } && *m == one_to_many_detect && *o == one_to_one_detect && *t == targets,
        (
            Output::PoseE2e { one_to_many_detect, one_to_one_detect, .. },
            Target::Detection(targets),
        ) => r matches SupervisedLossRoute::ProgressiveDetection {
            one_to_many: m,
            one_to_one: o,
            targets: t,
        } && *m == one_to_many_detect && *o == one_to_one_detect && *t == targets,
        (
            Output::ObbE2e { one_to_many_detect, one_to_one_detect, .. },
            Target::Detection(targets),
        ) => r matches SupervisedLossRoute::ProgressiveDetection {
            one_to_many: m,
            one_to_one: o,
            targets: t,
        } && *m == one_to_many_detect && *o == one_to_one_detect && *t == targets,
        (Output::Semantic { logits }, Target::Semantic { class_map }) => r matches SupervisedLossRoute::Semantic {
            logits: l,
            class_map: c,
        } && *l == logits && *c == class_map,
        _ => false,
    }
}

/// Whether some supervised loss applies to `(output, target)`.
pub open spec fn route_exists(output: Output, target: Target) -> bool {
    match (output, target) {
        (Output::Classify { .. }, Target::Classification { .. }) => true,
        (Output::Semantic { .. }, Target::Semantic { .. }) => true,
        (Output::Detect(_), Target::Detection(_)) => true,
        (Output::DetectE2e { .. }, Target::Detection(_)) => true,
        (Output::Segment { .. }, Target::Segmentation(_)) => true,
        (Output::SegmentE2e { .. }, Target::Segmentation(_)) => true,
        (Output::Pose { .. }, Target::Pose(_)) => true,
        (Output::PoseE2e { .. }, Target::Pose(_)) => true,
        (Output::Obb { .. }, Target::Obb(_)) => true,
        (Output::ObbE2e { .. }, Target::Obb(_)) => true,
        (Output::Segment { .. }, Target::Detection(_)) => true,
        (Output::SegmentE2e { .. }, Target::Detection(_)) => true,
        (Output::Pose { .. }, Target::Detection(_)) => true,
        (Output::PoseE2e { .. }, Target::Detection(_)) => true,
        (Output::Obb { .. }, Target::Detection(_)) => true,
        (Output::ObbE2e { .. }, Target::Detection(_)) => true,
        _ => false,
    }
}

/// Chooses the supervised loss for an output/target pair.
///
/// Matching task pairs get their task loss (the progressive variant for
/// end-to-end outputs); segmentation, pose and oriented-box outputs against
/// plain detection targets get the detection loss of their detection heads;
/// every other pair is `Unsupported`.
pub fn supervised_loss_route<'a>(output: &'a Output, target: &'a Target) -> (r: Result<
    SupervisedLossRoute<'a>,
    TrainError,
>)
    ensures
        r is Ok <==> route_exists(*output, *target),
        r matches Ok(route) ==> route_matches(*output, *target, route),
        r matches Err(e) ==> e is Unsupported,
{
    match (output, target) {
        (Output::Classify { logits }, Target::Classification { class_ids }) => Ok(
            SupervisedLossRoute::Classification { logits, class_ids },
        ),
        (Output::Detect(out), Target::Detection(targets)) => Ok(
            SupervisedLossRoute::Detection { detect: out, targets },
        ),
        (Output::DetectE2e { one_to_many, one_to_one }, Target::Detection(targets)) => Ok(
            SupervisedLossRoute::ProgressiveDetection { one_to_many, one_to_one, targets },
        ),
        (
            Output::Segment { detect, masks, proto, semantic },
            Target::Segmentation(targets),
        ) => Ok(
            SupervisedLossRoute::Segmentation {
                detect,
                masks,
                proto,
                semantic: semantic.as_ref(),
                targets,
            },
        ),
        (
            Output::SegmentE2e {
                one_to_many_detect,
                one_to_many_masks,
                one_to_one_detect,
                one_to_one_masks,
                proto,
                semantic,
            },
            Target::Segmentation(targets),
        ) => Ok(
            SupervisedLossRoute::ProgressiveSegmentation {
                one_to_many_detect,
                one_to_many_masks,
                one_to_one_detect,
                one_to_one_masks,
                proto,
                semantic: semantic.as_ref(),
                targets,
            },
        ),
        (Output::Pose { detect, keypoints }, Target::Pose(targets)) => Ok(
            SupervisedLossRoute::Pose { detect, keypoints, targets },
        ),
        (
            Output::PoseE2e {
                one_to_many_detect,
                one_to_many_keypoints,
                one_to_one_detect,
                one_to_one_keypoints,
            },
            Target::Pose(targets),
        ) => Ok(
            SupervisedLossRoute::ProgressivePose {
                one_to_many_detect,
                one_to_many_keypoints,
                one_to_one_detect,
                one_to_one_keypoints,
                targets,
            },
        ),
        (Output::Obb { detect, angles }, Target::Obb(targets)) => Ok(
            SupervisedLossRoute::Obb { detect, angles, targets },
        ),
        (
            Output::ObbE2e {
                one_to_many_detect,
                one_to_many_angles,
                one_to_one_detect,
                one_to_one_angles,
            },
            Target::Obb(targets),
        ) => Ok(
            SupervisedLossRoute::ProgressiveObb {
                one_to_many_detect,
                one_to_many_angles,
                one_to_one_detect,
                one_to_one_angles,
                targets,
            },
        ),
        (Output::Segment { detect, .. }, Target::Detection(targets)) => Ok(
            SupervisedLossRoute::Detection { detect, targets },
        ),
        (Output::Pose { detect, .. }, Target::Detection(targets)) => Ok(
            SupervisedLossRoute::Detection { detect, targets },
        ),
        (Output::Obb { detect, .. }, Target::Detection(targets)) => Ok(
            SupervisedLossRoute::Detection { detect, targets },
        ),
        (
            Output::SegmentE2e { one_to_many_detect, one_to_one_detect, .. },
            Target::Detection(targets),
        ) => Ok(
            SupervisedLossRoute::ProgressiveDetection {
                one_to_many: one_to_many_detect,
                one_to_one: one_to_one_detect,
                targets,
            },
        ),
        (
            Output::PoseE2e { one_to_many_detect, one_to_one_detect, .. },
            Target::Detection(targets),
        ) => Ok(
            SupervisedLossRoute::ProgressiveDetection {
                one_to_many: one_to_many_detect,
                one_to_one: one_to_one_detect,
                targets,
            },
        ),
        (
            Output::ObbE2e { one_to_many_detect, one_to_one_detect, .. },
            Target::Detection(targets),
        ) => Ok(
            SupervisedLossRoute::ProgressiveDetection {
                one_to_many: one_to_many_detect,
                one_to_one: one_to_one_detect,
                targets,
            },
        ),
        (Output::Semantic { logits }, Target::Semantic { class_map }) => Ok(
            SupervisedLossRoute::Semantic { logits, class_map },
        ),
        _ => Err(
            TrainError::Unsupported(
                message("task-specific supervised losses are not implemented yet"),
            ),
        ),
    }
}

/// The loss report of a route whose loss this library computes: classification
/// cross entropy ([`classification_loss_report`]) and semantic cross entropy
/// ([`semantic_loss_report`]). `None` for the detection, segmentation, pose
/// and oriented-box routes, whose losses run on floating-point weights.
pub fn route_loss_report(route: &SupervisedLossRoute) -> (r: Option<Result<LossTensorReport, TrainError>>)
    requires
        *route matches SupervisedLossRoute::Classification { logits, .. } ==> no_cpu_int_elements(
            *logits,
        ) && !cpu_logits_without_classes(*logits),
        *route matches SupervisedLossRoute::Semantic { logits, .. } ==> !cpu_int_tensor(*logits)
            && element_count_fits(*logits),
    ensures
        r is Some <==> (*route is Classification || *route is Semantic),
        *route matches SupervisedLossRoute::Classification { logits, class_ids } ==> (r matches Some(
            res,
        ) && classification_report_made(*logits, *class_ids, res)),
        *route matches SupervisedLossRoute::Semantic { logits, class_map } ==> (r matches Some(res)
            && semantic_report_made(*logits, *class_map, res)),
{
    match route {
        SupervisedLossRoute::Classification { logits, class_ids } => Some(
            classification_loss_report(logits, class_ids),
        ),
        SupervisedLossRoute::Semantic { logits, class_map } => Some(
            semantic_loss_report(logits, class_map),
        ),
        _ => None,
    }
}

/// A loss report as an optional report: `Ok(report)` becomes `Ok(Some(report))`.
pub open spec fn some_report(res: Result<LossTensorReport, TrainError>) -> Result<
    Option<LossTensorReport>,
    TrainError,
> {
    match res {
        Ok(report) => Ok(Some(report)),
        Err(e) => Err(e),
    }
}

/// The supervised loss report of an output/target pair whose loss is plain
/// tensor arithmetic: classification logits against class ids, and semantic
/// logits against a class map. Pairs without a supervised loss are
/// `Unsupported`; pairs whose loss runs on floating-point weights give
/// `Ok(None)`.
pub fn tensor_loss_report(output: &Output, target: &Target) -> (r: Result<
    Option<LossTensorReport>,
    TrainError,
>)
    requires
        *output matches Output::Classify { logits } ==> no_cpu_int_elements(logits)
            && !cpu_logits_without_classes(logits),
        *output matches Output::Semantic { logits } ==> !cpu_int_tensor(logits) && element_count_fits(
            logits,
        ),
    ensures
        !route_exists(*output, *target) ==> (r matches Err(e) && e is Unsupported),
        route_exists(*output, *target) && !(*output is Classify) && !(*output is Semantic) ==> r
            == Ok::<Option<LossTensorReport>, TrainError>(None),
        *output matches Output::Classify { logits } ==> (*target matches Target::Classification {
            class_ids,
        } ==> exists|res: Result<LossTensorReport, TrainError>|
            #[trigger] classification_report_made(logits, class_ids, res) && r == some_report(res)),
        *output matches Output::Semantic { logits } ==> (*target matches Target::Semantic {
            class_map,
        } ==> exists|res: Result<LossTensorReport, TrainError>|
            #[trigger] semantic_report_made(logits, class_map, res) && r == some_report(res)),
{
    let route = supervised_loss_route(output, target)?;
    match route_loss_report(&route) {
        Some(Ok(report)) => Ok(Some(report)),
        Some(Err(e)) => Err(e),
        None => Ok(None),
    }
}

} // verus!
