//! Raw model outputs, supervised targets, and the choice of loss for a pair
//! of them.
use vstd::prelude::*;

use candle_core::Tensor;

use crate::error::{message, TrainError};
use crate::targets::{DetectionTargets, ObbTargets, PoseTargets, SegmentationTargets};
use crate::tensor::{
    abs_from, broadcast_difference_of, broadcast_product_of, broadcast_sum_of,
    concatenated_from, exp_from, log_from, maximum_of, narrowed_from, negated_from, ones_for,
    tensor_values, total_of, zeros_for, class_cross_entropy_from, cpu_logits_without_classes, cross_entropy_tensors, cpu_float_tensor, cpu_int_tensor, lemma_update_keeps_zero, lemma_zero_size_broadcast,
    no_cpu_int_elements, mean_from, tensor_on_cpu, squared_from, sum_of, tensor_element_type, broadcast_compatible, broadcast_shape, cat_dim_total, lemma_broadcast_absorbs,
    lemma_broadcast_self, lift, tensor_abs, tensor_shape, tensor_add, tensor_broadcast_add, tensor_broadcast_mul, tensor_broadcast_sub,
    tensor_cat, tensor_exp, tensor_log, tensor_maximum, tensor_mean_all, tensor_narrow, tensor_neg,
    tensor_ones_like, tensor_sqr, tensor_sum_all, tensor_zeros_like,
};

verus! {

/// Report returned after partial checkpoint loading.
#[derive(Debug, Clone, PartialEq, Eq)]
pub struct LoadReport {
    /// Variables loaded from the checkpoint.
    pub loaded: usize,
    /// Model variables missing from the checkpoint.
    pub missing: usize,
    /// Identity variables skipped due to shape mismatch.
    pub skipped: usize,
    /// Model variable names missing from the checkpoint.
    pub missing_names: Vec<String>,
    /// Model variable names skipped due to shape mismatch.
    pub skipped_names: Vec<String>,
}

/// Dense detection raw output before top-k/NMS.
pub struct DenseDetectionOutput {
    /// Box branch output.
    pub boxes: Tensor,
    /// Class branch logits.
    pub scores: Tensor,
    /// Anchor centers.
    pub anchors: Tensor,
    /// Per-anchor stride tensor.
    pub stride_tensor: Tensor,
}

/// Raw train-time output for each task.
pub enum Output {
    /// Detection raw outputs.
    Detect(DenseDetectionOutput),
    /// End-to-end detection raw outputs with one-to-many and one-to-one heads.
    DetectE2e {
        /// One-to-many training head output.
        one_to_many: DenseDetectionOutput,
        /// One-to-one inference-aligned training head output.
        one_to_one: DenseDetectionOutput,
    },
    /// Classification logits.
    Classify {
        /// Raw class logits.
        logits: Tensor,
    },
    /// Instance segmentation raw outputs.
    Segment {
        /// Detection branch raw outputs.
        detect: DenseDetectionOutput,
        /// Mask coefficients.
        masks: Tensor,
        /// Prototype masks.
        proto: Tensor,
        /// Optional semantic logits used only during training.
        semantic: Option<Tensor>,
    },
    /// End-to-end instance segmentation raw outputs.
    SegmentE2e {
        /// One-to-many detection branch raw output.
        one_to_many_detect: DenseDetectionOutput,
        /// One-to-many mask coefficients.
        one_to_many_masks: Tensor,
        /// One-to-one detection branch raw output.
        one_to_one_detect: DenseDetectionOutput,
        /// One-to-one mask coefficients.
        one_to_one_masks: Tensor,
        /// Shared prototype masks.
        proto: Tensor,
        /// Optional semantic logits from the one-to-many proto branch.
        semantic: Option<Tensor>,
    },
    /// Pose raw outputs.
    Pose {
        /// Detection branch raw outputs.
        detect: DenseDetectionOutput,
        /// Keypoint branch output.
        keypoints: Tensor,
    },
    /// End-to-end pose raw outputs.
    PoseE2e {
        /// One-to-many detection branch raw output.
        one_to_many_detect: DenseDetectionOutput,
        /// One-to-many keypoint branch output.
        one_to_many_keypoints: Tensor,
        /// One-to-one detection branch raw output.
        one_to_one_detect: DenseDetectionOutput,
        /// One-to-one keypoint branch output.
        one_to_one_keypoints: Tensor,
    },
    /// Semantic segmentation logits.
    Semantic {
        /// Per-class segmentation logits.
        logits: Tensor,
    },
    /// Oriented bounding-box raw outputs.
    Obb {
        /// Detection branch raw outputs.
        detect: DenseDetectionOutput,
        /// Angle branch output.
        angles: Tensor,
    },
    /// End-to-end oriented bounding-box raw outputs.
    ObbE2e {
        /// One-to-many detection branch raw output.
        one_to_many_detect: DenseDetectionOutput,
        /// One-to-many angle branch output.
        one_to_many_angles: Tensor,
        /// One-to-one detection branch raw output.
        one_to_one_detect: DenseDetectionOutput,
        /// One-to-one angle branch output.
        one_to_one_angles: Tensor,
    },
}

/// Training target supplied to a task loss.
pub enum Target {
    /// Classification class ids shaped `[batch]`.
    Classification {
        /// Class id tensor.
        class_ids: Tensor,
    },
    /// Detection targets in model-image xyxy coordinates.
    Detection(DetectionTargets),
    /// Instance segmentation targets.
    Segmentation(SegmentationTargets),
    /// Pose/keypoint targets.
    Pose(PoseTargets),
    /// Oriented bounding-box targets.
    Obb(ObbTargets),
    /// Semantic segmentation class map shaped `[batch, height, width]`.
    Semantic {
        /// Per-pixel class ids.
        class_map: Tensor,
    },
    /// Dense task targets for task-specific future losses.
    Dense,
}

/// Per-component loss tensors of a supervised loss.
#[derive(Default)]
pub struct LossTensorComponents {
    /// Classification cross-entropy (classification task).
    pub classification_loss: Option<Tensor>,
    /// Weighted box regression loss.
    pub box_loss: Option<Tensor>,
    /// Weighted class confidence loss.
    pub cls_loss: Option<Tensor>,
    /// Weighted distribution-focal / normalized-L1 box loss.
    pub dfl_loss: Option<Tensor>,
    /// Weighted instance mask loss.
    pub mask_loss: Option<Tensor>,
    /// Weighted pose keypoint loss.
    pub pose_loss: Option<Tensor>,
    /// Weighted keypoint visibility loss.
    pub kobj_loss: Option<Tensor>,
    /// Weighted OBB angle loss.
    pub angle_loss: Option<Tensor>,
    /// Weighted semantic segmentation loss.
    pub semantic_loss: Option<Tensor>,
    /// Smoke-test raw activation loss (debug only).
    pub smoke_loss: Option<Tensor>,
}

/// A supervised loss result with the scalar total and per-component tensors.
pub struct LossTensorReport {
    /// Total weighted loss tensor.
    pub loss: Tensor,
    /// Per-component weighted loss tensors.
    pub components: LossTensorComponents,
}

impl LossTensorComponents {
    /// A component set with only the classification loss present.
    pub open spec fn only_classification(self, loss: Tensor) -> bool {
        &&& self.classification_loss == Some(loss)
        &&& self.box_loss is None
        &&& self.cls_loss is None
        &&& self.dfl_loss is None
        &&& self.mask_loss is None
        &&& self.pose_loss is None
        &&& self.kobj_loss is None
        &&& self.angle_loss is None
        &&& self.semantic_loss is None
        &&& self.smoke_loss is None
    }

    /// A component set with only the semantic loss present.
    pub open spec fn only_semantic(self, loss: Tensor) -> bool {
        &&& self.semantic_loss == Some(loss)
        &&& self.classification_loss is None
        &&& self.box_loss is None
        &&& self.cls_loss is None
        &&& self.dfl_loss is None
        &&& self.mask_loss is None
        &&& self.pose_loss is None
        &&& self.kobj_loss is None
        &&& self.angle_loss is None
        &&& self.smoke_loss is None
    }
}

/// The detection head whose predictions are evaluated: the one-to-one head of
/// end-to-end outputs, the only head otherwise; none for classification and
/// semantic outputs.
pub open spec fn detection_head(o: Output) -> Option<DenseDetectionOutput> {
    match o {
        Output::Detect(d) => Some(d),
        Output::DetectE2e { one_to_one, .. } => Some(one_to_one),
        Output::SegmentE2e { one_to_one_detect, .. } => Some(one_to_one_detect),
        Output::Segment { detect, .. } => Some(detect),
        Output::PoseE2e { one_to_one_detect, .. } => Some(one_to_one_detect),
        Output::Pose { detect, .. } => Some(detect),
        Output::ObbE2e { one_to_one_detect, .. } => Some(one_to_one_detect),
        Output::Obb { detect, .. } => Some(detect),
        _ => None,
    }
}

/// The detection targets carried by a target, if any.
pub open spec fn detection_targets_of(t: Target) -> Option<DetectionTargets> {
    match t {
        Target::Detection(d) => Some(d),
        Target::Segmentation(s) => Some(s.detection),
        Target::Pose(p) => Some(p.detection),
        Target::Obb(o) => Some(o.detection),
        _ => None,
    }
}

/// Selects the evaluated detection head of an output.
pub fn output_detection(output: &Output) -> (r: Option<&DenseDetectionOutput>)
    ensures
        match r {
            Some(d) => detection_head(*output) == Some(*d),
            None => detection_head(*output) is None,
        },
{
    match output {
        Output::Detect(detect) => Some(detect),
        Output::DetectE2e { one_to_one, .. } => Some(one_to_one),
        Output::SegmentE2e { one_to_one_detect, .. } => Some(one_to_one_detect),
        Output::Segment { detect, .. } => Some(detect),
        Output::PoseE2e { one_to_one_detect, .. } => Some(one_to_one_detect),
        Output::Pose { detect, .. } => Some(detect),
        Output::ObbE2e { one_to_one_detect, .. } => Some(one_to_one_detect),
        Output::Obb { detect, .. } => Some(detect),
        _ => None,
    }
}

/// Selects the detection targets of a target.
pub fn target_detection(target: &Target) -> (r: Option<&DetectionTargets>)
    ensures
        match r {
            Some(d) => detection_targets_of(*target) == Some(*d),
            None => detection_targets_of(*target) is None,
        },
{
    match target {
        Target::Detection(targets) => Some(targets),
        Target::Segmentation(targets) => Some(&targets.detection),
        Target::Pose(targets) => Some(&targets.detection),
        Target::Obb(targets) => Some(&targets.detection),
        _ => None,
    }
}

/// Selects the segmentation targets of a target.
pub fn target_segmentation(target: &Target) -> (r: Option<&SegmentationTargets>)
    ensures
        match *target {
            Target::Segmentation(s) => r matches Some(t) && *t == s,
            _ => r is None,
        },
{
    match target {
        Target::Segmentation(targets) => Some(targets),
        _ => None,
    }
}

/// Selects the evaluated detection head, mask coefficients and prototypes of a
/// segmentation output.
pub fn segment_output(output: &Output) -> (r: Option<(&DenseDetectionOutput, &Tensor, &Tensor)>)
    ensures
        match *output {
            Output::Segment { detect, masks, proto, .. } => r matches Some(
                t,
            ) && *t.0 == detect && *t.1 == masks && *t.2 == proto,
            Output::SegmentE2e { one_to_one_detect, one_to_one_masks, proto, .. } => r matches Some(
                t,
            ) && *t.0 == one_to_one_detect && *t.1 == one_to_one_masks && *t.2 == proto,
            _ => r is None,
        },
{
    match output {
        Output::Segment { detect, masks, proto, .. } => Some((detect, masks, proto)),
        Output::SegmentE2e { one_to_one_detect, one_to_one_masks, proto, .. } => Some(
            (one_to_one_detect, one_to_one_masks, proto),
        ),
        _ => None,
    }
}

/// Selects the evaluated detection head and keypoints of a pose output.
pub fn pose_parts(output: &Output) -> (r: Option<(&DenseDetectionOutput, &Tensor)>)
    ensures
        match *output {
            Output::Pose { detect, keypoints } => r matches Some(t) && *t.0 == detect && *t.1
                == keypoints,
            Output::PoseE2e { one_to_one_detect, one_to_one_keypoints, .. } => r matches Some(t)
                && *t.0 == one_to_one_detect && *t.1 == one_to_one_keypoints,
            _ => r is None,
        },
{
    match output {
        Output::Pose { detect, keypoints } => Some((detect, keypoints)),
        Output::PoseE2e { one_to_one_detect, one_to_one_keypoints, .. } => Some(
            (one_to_one_detect, one_to_one_keypoints),
        ),
        _ => None,
    }
}

/// Selects the evaluated detection head and angles of an oriented-box output.
pub fn obb_parts(output: &Output) -> (r: Option<(&DenseDetectionOutput, &Tensor)>)
    ensures
        match *output {
            Output::Obb { detect, angles } => r matches Some(t) && *t.0 == detect && *t.1 == angles,
            Output::ObbE2e { one_to_one_detect, one_to_one_angles, .. } => r matches Some(t) && *t.0
                == one_to_one_detect && *t.1 == one_to_one_angles,
            _ => r is None,
        },
{
    match output {
        Output::Obb { detect, angles } => Some((detect, angles)),
        Output::ObbE2e { one_to_one_detect, one_to_one_angles, .. } => Some(
            (one_to_one_detect, one_to_one_angles),
        ),
        _ => None,
    }
}

/// The tensors whose mean squares make up the smoke loss of an output, in order.
pub open spec fn smoke_terms(o: Output) -> Seq<Tensor> {
    match o {
        Output::Detect(d) => seq![d.boxes, d.scores],
        Output::DetectE2e { one_to_many, one_to_one } => seq![
            one_to_many.boxes,
            one_to_many.scores,
            one_to_one.boxes,
            one_to_one.scores,
        ],
        Output::Classify { logits } => seq![logits],
        Output::Segment { detect, masks, proto, semantic } => seq![
            detect.boxes,
            detect.scores,
            masks,
            proto,
        ] + optional_term(semantic),
        Output::SegmentE2e {
            one_to_many_detect,
            one_to_many_masks,
            one_to_one_detect,
            one_to_one_masks,
            proto,
            semantic,
        } => seq![
            one_to_many_detect.boxes,
            one_to_many_detect.scores,
            one_to_many_masks,
            one_to_one_detect.boxes,
            one_to_one_detect.scores,
            one_to_one_masks,
            proto,
        ] + optional_term(semantic),
        Output::Pose { detect, keypoints } => seq![detect.boxes, detect.scores, keypoints],
        Output::PoseE2e {
            one_to_many_detect,
            one_to_many_keypoints,
            one_to_one_detect,
            one_to_one_keypoints,
        } => seq![
            one_to_many_detect.boxes,
            one_to_many_detect.scores,
            one_to_many_keypoints,
            one_to_one_detect.boxes,
            one_to_one_detect.scores,
            one_to_one_keypoints,
        ],
        Output::Semantic { logits } => seq![logits],
        Output::Obb { detect, angles } => seq![detect.boxes, detect.scores, angles],
        Output::ObbE2e {
            one_to_many_detect,
            one_to_many_angles,
            one_to_one_detect,
            one_to_one_angles,
        } => seq![
            one_to_many_detect.boxes,
            one_to_many_detect.scores,
            one_to_many_angles,
            one_to_one_detect.boxes,
            one_to_one_detect.scores,
            one_to_one_angles,
        ],
    }
}

/// The present optional tensor as a sequence of zero or one terms.
pub open spec fn optional_term(t: Option<Tensor>) -> Seq<Tensor> {
    match t {
        Some(x) => seq![x],
        None => Seq::empty(),
    }
}

/// The tensors contributing to the smoke loss of an output, in order.
pub fn smoke_loss_terms(output: &Output) -> (r: Vec<&Tensor>)
    ensures
        r@.len() == smoke_terms(*output).len(),
        forall|i: int| 0 <= i < r@.len() ==> *r@[i] == smoke_terms(*output)[i],
        r@.len() > 0,
{
    let mut terms: Vec<&Tensor> = Vec::new();
    match output {
        Output::Detect(out) => {
            terms.push(&out.boxes);
            terms.push(&out.scores);
        },
        Output::DetectE2e { one_to_many, one_to_one } => {
            terms.push(&one_to_many.boxes);
            terms.push(&one_to_many.scores);
            terms.push(&one_to_one.boxes);
            terms.push(&one_to_one.scores);
        },
        Output::Classify { logits } => {
            terms.push(logits);
        },
        Output::Segment { detect, masks, proto, semantic } => {
            terms.push(&detect.boxes);
            terms.push(&detect.scores);
            terms.push(masks);
            terms.push(proto);
            if let Some(semantic) = semantic {
                terms.push(semantic);
            }
        },
        Output::SegmentE2e {
            one_to_many_detect,
            one_to_many_masks,
            one_to_one_detect,
            one_to_one_masks,
            proto,
            semantic,
        } => {
            terms.push(&one_to_many_detect.boxes);
            terms.push(&one_to_many_detect.scores);
            terms.push(one_to_many_masks);
            terms.push(&one_to_one_detect.boxes);
            terms.push(&one_to_one_detect.scores);
            terms.push(one_to_one_masks);
            terms.push(proto);
            if let Some(semantic) = semantic {
                terms.push(semantic);
            }
        },
        Output::Pose { detect, keypoints } => {
            terms.push(&detect.boxes);
            terms.push(&detect.scores);
            terms.push(keypoints);
        },
        Output::PoseE2e {
            one_to_many_detect,
            one_to_many_keypoints,
            one_to_one_detect,
            one_to_one_keypoints,
        } => {
            terms.push(&one_to_many_detect.boxes);
            terms.push(&one_to_many_detect.scores);
            terms.push(one_to_many_keypoints);
            terms.push(&one_to_one_detect.boxes);
            terms.push(&one_to_one_detect.scores);
            terms.push(one_to_one_keypoints);
        },
        Output::Semantic { logits } => {
            terms.push(logits);
        },
        Output::Obb { detect, angles } => {
            terms.push(&detect.boxes);
            terms.push(&detect.scores);
            terms.push(angles);
        },
        Output::ObbE2e {
            one_to_many_detect,
            one_to_many_angles,
            one_to_one_detect,
            one_to_one_angles,
        } => {
            terms.push(&one_to_many_detect.boxes);
            terms.push(&one_to_many_detect.scores);
            terms.push(one_to_many_angles);
            terms.push(&one_to_one_detect.boxes);
            terms.push(&one_to_one_detect.scores);
            terms.push(one_to_one_angles);
        },
    }
    terms
}

/// `u` is the sum of the mean squares of `terms` as computed here: the first
/// term squared and averaged, then each further term, in order, squared,
/// averaged and added to the running sum.
pub open spec fn mean_square_sum_of(u: Tensor, terms: Seq<Tensor>) -> bool
    decreases terms.len(),
{
    if terms.len() == 0 {
        false
    } else if terms.len() == 1 {
        exists|q: Tensor| #![trigger squared_from(q, terms[0])] squared_from(q, terms[0]) && mean_from(u, q)
    } else {
        exists|a: Tensor, q: Tensor, m: Tensor|
            #![trigger squared_from(q, terms.last()), mean_from(m, q), sum_of(u, a, m)]
            mean_square_sum_of(a, terms.drop_last()) && squared_from(q, terms.last()) && mean_from(
                m,
                q,
            ) && sum_of(u, a, m)
    }
}

/// Terms on which the mean-square sum succeeds: at least one, all CPU float
/// tensors of the first term's element type.
pub open spec fn mean_square_terms_ready(terms: Seq<Tensor>) -> bool {
    &&& terms.len() > 0
    &&& forall|i: int|
        0 <= i < terms.len() ==> cpu_float_tensor(#[trigger] terms[i]) && tensor_element_type(
            terms[i],
        ) == tensor_element_type(terms[0])
}

/// The tensors behind a list of references.
pub open spec fn referenced(tensors: Seq<&Tensor>) -> Seq<Tensor> {
    Seq::new(tensors.len(), |i: int| *tensors[i])
}

/// Sum over the tensors of the mean of their squares.
///
/// An empty list is rejected with `InvalidTensor`; otherwise only candle
/// failures are reported, and there are none on CPU float tensors of one
/// element type.
pub fn mean_sqr_sum(tensors: &Vec<&Tensor>) -> (r: Result<Tensor, TrainError>)
    requires
        forall|i: int| 0 <= i < tensors@.len() ==> no_cpu_int_elements(*#[trigger] tensors@[i]),
        tensors@.len() > 1 ==> !cpu_int_tensor(*tensors@[0]),
    ensures
        tensors@.len() == 0 ==> (r matches Err(e) && e is InvalidTensor),
        tensors@.len() > 0 ==> (r matches Err(e) ==> e is Tensor),
        r matches Ok(t) ==> tensor_shape(t) == Seq::<usize>::empty(),
        r matches Ok(t) ==> mean_square_sum_of(t, referenced(tensors@)),
        mean_square_terms_ready(referenced(tensors@)) ==> r is Ok,
{
    let ghost terms = referenced(tensors@);
    if tensors.len() == 0 {
        return Err(TrainError::InvalidTensor(message("empty smoke-loss tensor list")));
    }
    let first = lift(tensor_sqr(tensors[0]))?;
    let mut loss = lift(tensor_mean_all(&first))?;
    proof {
        assert(terms.take(1) =~= seq![terms[0]]);
        assert(squared_from(first, terms.take(1)[0]) && mean_from(loss, first));
    }
    let mut i: usize = 1;
    while i < tensors.len()
        invariant
            1 <= i <= tensors.len(),
            terms == referenced(tensors@),
            tensor_shape(loss) == Seq::<usize>::empty(),
            mean_square_sum_of(loss, terms.take(i as int)),
            mean_square_terms_ready(terms) ==> cpu_float_tensor(loss) && tensor_element_type(loss)
                == tensor_element_type(terms[0]),
            forall|j: int| 0 <= j < tensors@.len() ==> no_cpu_int_elements(*#[trigger] tensors@[j]),
            tensors@.len() > 1 ==> !cpu_int_tensor(*tensors@[0]),
            tensor_element_type(loss) == tensor_element_type(*tensors@[0]),
            tensor_on_cpu(loss) == tensor_on_cpu(*tensors@[0]),
        decreases tensors.len() - i,
    {
        proof {
            if mean_square_terms_ready(terms) {
                assert(cpu_float_tensor(terms[i as int]));
                assert(terms[i as int] == *tensors@[i as int]);
            }
        }
        let sq = lift(tensor_sqr(tensors[i]))?;
        let mean = lift(tensor_mean_all(&sq))?;
        let next = lift(tensor_add(&loss, &mean))?;
        proof {
            let pre = terms.take(i as int);
            let cur = terms.take(i + 1);
            assert(cur.drop_last() =~= pre);
            assert(cur.last() == terms[i as int]);
            assert(squared_from(sq, cur.last()) && mean_from(mean, sq) && sum_of(next, loss, mean));
        }
        loss = next;
        i = i + 1;
    }
    assert(terms.take(tensors@.len() as int) =~= terms);
    Ok(loss)
}

/// A differentiable smoke loss over raw outputs: the sum of the mean squares of
/// [`smoke_terms`], a scalar.
pub fn smoke_loss(output: &Output) -> (r: Result<Tensor, TrainError>)
    requires
        forall|i: int|
            0 <= i < smoke_terms(*output).len() ==> no_cpu_int_elements(
                #[trigger] smoke_terms(*output)[i],
            ),
        smoke_terms(*output).len() > 1 ==> !cpu_int_tensor(smoke_terms(*output)[0]),
    ensures
        r matches Ok(t) ==> tensor_shape(t) == Seq::<usize>::empty(),
        r matches Ok(t) ==> mean_square_sum_of(t, smoke_terms(*output)),
        mean_square_terms_ready(smoke_terms(*output)) ==> r is Ok,
        r matches Err(e) ==> e is Tensor,
{
    let terms = smoke_loss_terms(output);
    assert(referenced(terms@) =~= smoke_terms(*output));
    assert forall|i: int| 0 <= i < terms@.len() implies no_cpu_int_elements(*#[trigger] terms@[i]) by {
        assert(*terms@[i] == smoke_terms(*output)[i]);
    }
    assert(terms@.len() > 1 ==> *terms@[0] == smoke_terms(*output)[0]);
    mean_sqr_sum(&terms)
}

/// The shape of decoded boxes: anchors broadcast with a two-channel slice of
/// the distances, two such halves concatenated along dimension 1, broadcast
/// with the strides.
pub open spec fn decoded_box_shape(boxes: Seq<usize>, anchors: Seq<usize>, strides: Seq<usize>) -> Seq<
    usize,
> {
    let half = broadcast_shape(anchors, boxes.update(1, 2));
    broadcast_shape(half.update(1, (half[1] + half[1]) as usize), strides)
}

/// `t` is the decoding computed here: the distance channels `0..2` (left/top)
/// and `2..4` (right/bottom) of the boxes, the anchors minus the first and
/// plus the second, the two concatenated along dimension 1, times the strides.
pub open spec fn box_decoding_made(t: Tensor, output: DenseDetectionOutput) -> bool {
    exists|lt: Tensor, rb: Tensor, a: Tensor, b: Tensor, xy: Tensor|
        #![trigger narrowed_from(lt, output.boxes, 1usize, 0usize, 2usize), narrowed_from(rb, output.boxes, 1usize, 2usize, 2usize), broadcast_difference_of(a, output.anchors, lt), broadcast_sum_of(b, output.anchors, rb), broadcast_product_of(t, xy, output.stride_tensor)]
        narrowed_from(lt, output.boxes, 1usize, 0usize, 2usize) && narrowed_from(
            rb,
            output.boxes,
            1usize,
            2usize,
            2usize,
        ) && broadcast_difference_of(a, output.anchors, lt) && broadcast_sum_of(b, output.anchors, rb)
            && concatenated_from(xy, seq![a, b], 1usize) && broadcast_product_of(
            t,
            xy,
            output.stride_tensor,
        )
}

/// Decodes l/t/r/b box distances into xyxy pixels:
/// `[(anchor - lt), (anchor + rb)] * stride`, without clamping.
///
/// Fails when the distances do not have four channels in dimension 1.
pub fn decode_detection_boxes(output: &DenseDetectionOutput) -> (r: Result<Tensor, TrainError>)
    requires
        no_cpu_int_elements(output.anchors),
    ensures
        tensor_shape(output.boxes).len() < 2 || tensor_shape(output.boxes)[1] < 4 ==> r is Err,
        r matches Ok(t) ==> tensor_shape(t) == decoded_box_shape(
            tensor_shape(output.boxes),
            tensor_shape(output.anchors),
            tensor_shape(output.stride_tensor),
        ),
        r matches Err(e) ==> e is Tensor,
        box_decoding_ready(*output) ==> r is Ok,
        r matches Ok(t) ==> box_decoding_made(t, *output),
{
    let lt = lift(tensor_narrow(&output.boxes, 1, 0, 2))?;
    let rb = lift(tensor_narrow(&output.boxes, 1, 2, 2))?;
    let x1y1 = lift(tensor_broadcast_sub(&output.anchors, &lt))?;
    let x2y2 = lift(tensor_broadcast_add(&output.anchors, &rb))?;
    let mut parts: Vec<&Tensor> = Vec::new();
    parts.push(&x1y1);
    parts.push(&x2y2);
    proof {
        let p = parts@;
        assert(p.drop_last().drop_last() =~= Seq::<&Tensor>::empty());
        assert(cat_dim_total(p.drop_last().drop_last(), 1) == 0);
        assert(p.drop_last().last() == &x1y1);
        assert(cat_dim_total(p.drop_last(), 1) == tensor_shape(x1y1)[1]);
        assert(p.last() == &x2y2);
        assert(cat_dim_total(p, 1) == tensor_shape(x1y1)[1] + tensor_shape(x2y2)[1]);
    }
    let xyxy = lift(tensor_cat(&parts, 1))?;
    proof {
        if cpu_int_tensor(output.anchors) {
            lemma_zero_size_broadcast(tensor_shape(output.anchors), tensor_shape(lt));
            lemma_update_keeps_zero(
                tensor_shape(x1y1),
                1,
                (tensor_shape(x1y1)[1] + tensor_shape(x2y2)[1]) as usize,
            );
        }
    }
    let r = lift(tensor_broadcast_mul(&xyxy, &output.stride_tensor));
    proof {
        if let Ok(t) = &r {
            assert(tensor_values(parts@) =~= seq![x1y1, x2y2]);
            assert(narrowed_from(lt, output.boxes, 1usize, 0usize, 2usize) && narrowed_from(
                rb,
                output.boxes,
                1usize,
                2usize,
                2usize,
            ) && broadcast_difference_of(x1y1, output.anchors, lt) && broadcast_sum_of(
                x2y2,
                output.anchors,
                rb,
            ) && concatenated_from(xyxy, seq![x1y1, x2y2], 1usize));
        }
    }
    r
}

/// CPU float logits, and CPU targets of the same element type whose shape
/// broadcasts with the logits.
pub open spec fn bce_inputs_ready(logits: Tensor, target: Tensor) -> bool {
    &&& cpu_float_tensor(logits)
    &&& tensor_on_cpu(target)
    &&& tensor_element_type(target) == tensor_element_type(logits)
    &&& broadcast_compatible(tensor_shape(logits), tensor_shape(target))
}

/// CPU float distances, anchors and strides of one element type whose shapes
/// fit the decoding: four distance channels, anchors that broadcast with a
/// two-channel slice, and strides that broadcast with the concatenated halves.
pub open spec fn box_decoding_ready(output: DenseDetectionOutput) -> bool {
    let sb = tensor_shape(output.boxes);
    let half = broadcast_shape(tensor_shape(output.anchors), sb.update(1, 2));
    &&& cpu_float_tensor(output.boxes)
    &&& cpu_float_tensor(output.anchors)
    &&& cpu_float_tensor(output.stride_tensor)
    &&& tensor_element_type(output.anchors) == tensor_element_type(output.boxes)
    &&& tensor_element_type(output.stride_tensor) == tensor_element_type(output.boxes)
    &&& sb.len() >= 2
    &&& sb[1] >= 4
    &&& broadcast_compatible(tensor_shape(output.anchors), sb.update(1, 2))
    &&& half.len() >= 2
    &&& half[1] + half[1] <= usize::MAX
    &&& broadcast_compatible(half.update(1, (half[1] + half[1]) as usize), tensor_shape(output.stride_tensor))
}

/// `t` is the stable binary cross entropy computed here from `logits` `x` and
/// targets `y`: `max(x, 0) - x * y + log(exp(-|x|) + 1)`, each step the named
/// candle operation on the previous ones.
pub open spec fn bce_made(t: Tensor, logits: Tensor, target: Tensor) -> bool {
    exists|one: Tensor, zero: Tensor, mx: Tensor, tt: Tensor, mag: Tensor, ng: Tensor, dec: Tensor, sh: Tensor, lg: Tensor, diff: Tensor|
        #![trigger ones_for(one, logits), zeros_for(zero, logits), maximum_of(mx, logits, zero), broadcast_product_of(tt, logits, target), abs_from(mag, logits), negated_from(ng, mag), exp_from(dec, ng), broadcast_sum_of(sh, dec, one), log_from(lg, sh), broadcast_difference_of(diff, mx, tt)]
        ones_for(one, logits) && zeros_for(zero, logits) && maximum_of(mx, logits, zero)
            && broadcast_product_of(tt, logits, target) && abs_from(mag, logits) && negated_from(ng, mag)
            && exp_from(dec, ng) && broadcast_sum_of(sh, dec, one) && log_from(lg, sh)
            && broadcast_difference_of(diff, mx, tt) && broadcast_sum_of(t, diff, lg)
}

/// Element-wise binary cross entropy with logits, in the stable form
/// `max(x, 0) - x * t + log(1 + exp(-|x|))`, of the broadcast shape of logits
/// and targets.
pub fn bce_with_logits_elementwise(logits: &Tensor, target: &Tensor) -> (r: Result<
    Tensor,
    TrainError,
>)
    requires
        no_cpu_int_elements(*logits),
    ensures
        !broadcast_compatible(tensor_shape(*logits), tensor_shape(*target)) ==> r is Err,
        r matches Ok(t) ==> tensor_shape(t) == broadcast_shape(tensor_shape(*logits), tensor_shape(*target)),
        r matches Ok(t) ==> tensor_element_type(t) == tensor_element_type(*logits),
        r matches Ok(t) ==> tensor_on_cpu(t) == tensor_on_cpu(*logits),
        r matches Err(e) ==> e is Tensor,
        bce_inputs_ready(*logits, *target) ==> r is Ok,
        r matches Ok(t) ==> bce_made(t, *logits, *target),
{
    proof {
        lemma_broadcast_self(tensor_shape(*logits));
    }
    let one = lift(tensor_ones_like(logits))?;
    let zero = lift(tensor_zeros_like(logits))?;
    let max_logits = lift(tensor_maximum(logits, &zero))?;
    let target_term = lift(tensor_broadcast_mul(logits, target))?;
    proof {
        lemma_broadcast_absorbs(tensor_shape(*logits), tensor_shape(*target));
    }
    let magnitude = lift(tensor_abs(logits))?;
    let negated = lift(tensor_neg(&magnitude))?;
    let decayed = lift(tensor_exp(&negated))?;
    let shifted = lift(tensor_broadcast_add(&decayed, &one))?;
    let log_term = lift(tensor_log(&shifted))?;
    let difference = lift(tensor_broadcast_sub(&max_logits, &target_term))?;
    proof {
        if cpu_int_tensor(*logits) {
            lemma_zero_size_broadcast(tensor_shape(*logits), tensor_shape(*target));
        }
    }
    let r = lift(tensor_broadcast_add(&difference, &log_term));
    proof {
        if let Ok(t) = &r {
            assert(ones_for(one, *logits) && zeros_for(zero, *logits) && maximum_of(
                max_logits,
                *logits,
                zero,
            ) && broadcast_product_of(target_term, *logits, *target) && abs_from(magnitude, *logits)
                && negated_from(negated, magnitude) && exp_from(decayed, negated) && broadcast_sum_of(
                shifted,
                decayed,
                one,
            ) && log_from(log_term, shifted) && broadcast_difference_of(
                difference,
                max_logits,
                target_term,
            ));
        }
    }
    r
}

/// Summed binary cross entropy with logits, a scalar.
pub fn bce_with_logits_sum(logits: &Tensor, target: &Tensor) -> (r: Result<Tensor, TrainError>)
    requires
        no_cpu_int_elements(*logits),
    ensures
        !broadcast_compatible(tensor_shape(*logits), tensor_shape(*target)) ==> r is Err,
        r matches Ok(t) ==> tensor_shape(t) == Seq::<usize>::empty(),
        r matches Err(e) ==> e is Tensor,
        bce_inputs_ready(*logits, *target) ==> r is Ok,
        r matches Ok(t) ==> exists|e: Tensor|
            #[trigger] bce_made(e, *logits, *target) && total_of(t, e),
{
    let elementwise = bce_with_logits_elementwise(logits, target)?;
    proof {
        if cpu_int_tensor(*logits) {
            lemma_zero_size_broadcast(tensor_shape(*logits), tensor_shape(*target));
        }
    }
    let r = lift(tensor_sum_all(&elementwise));
    proof {
        if let Ok(t) = &r {
            assert(bce_made(elementwise, *logits, *target) && total_of(*t, elementwise));
        }
    }
    r
}

/// What [`classification_loss_report`] gives: a tensor error for logits of a
/// rank other than 2 or class ids that are not one per row; on success a scalar
/// loss, the cross entropy of `logits` against `class_ids`, as the only component.
pub open spec fn classification_report_made(
    logits: Tensor,
    class_ids: Tensor,
    r: Result<LossTensorReport, TrainError>,
) -> bool {
    &&& tensor_shape(logits).len() != 2 ==> (r matches Err(e) && e is Tensor)
    &&& tensor_shape(logits).len() == 2 ==> (tensor_shape(class_ids) != seq![tensor_shape(logits)[0]]
        ==> (r matches Err(e) && e is Tensor))
    &&& r matches Ok(report) ==> report.components.only_classification(report.loss)
    &&& r matches Ok(report) ==> tensor_shape(report.loss) == Seq::<usize>::empty()
    &&& r matches Ok(report) ==> class_cross_entropy_from(report.loss, logits, class_ids)
    &&& r matches Err(e) ==> e is Tensor
}

/// The cross-entropy loss of classification logits `[N, C]` against `N` class
/// ids, as a report whose only component is that loss.
///
/// Fails with a tensor error for logits of another rank or class ids that are
/// not one per row; otherwise whether candle succeeds depends on the class ids
/// the tensor holds (each must be below `C`).
pub fn classification_loss_report(logits: &Tensor, class_ids: &Tensor) -> (r: Result<
    LossTensorReport,
    TrainError,
>)
    requires
        no_cpu_int_elements(*logits),
        !cpu_logits_without_classes(*logits),
    ensures
        classification_report_made(*logits, *class_ids, r),
{
    let loss = lift(cross_entropy_tensors(logits, class_ids))?;
    let component = loss.clone();
    Ok(
        LossTensorReport {
            loss,
            components: LossTensorComponents {
                classification_loss: Some(component),
                box_loss: None,
                cls_loss: None,
                dfl_loss: None,
                mask_loss: None,
                pose_loss: None,
                kobj_loss: None,
                angle_loss: None,
                semantic_loss: None,
                smoke_loss: None,
            },
        },
    )
}

} // verus!
