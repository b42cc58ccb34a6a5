//! Training targets and the shape rules they are validated against.
//!
//! Each constructor reads the shapes of its tensors and hands them to a
//! verified shape check whose contract states exactly which shapes pass.
use vstd::prelude::*;

use candle_core::Tensor;

use crate::error::{message, TrainError};
use crate::semantic_masks::{
    build_segmentation_semantic_masks, class_map_tensor, mask_data_read, mask_inputs_on_cpu,
    law_class_map_is_determined_by_values, semantic_mask_shapes_consistent, MaskTargetData,
};
use crate::tensor::{created_from_u32s, tensor_dims, tensor_shape};

verus! {

/// Detection targets in model input coordinates.
#[derive(Debug, Clone)]
pub struct DetectionTargets {
    /// Target boxes shaped `[batch, max_objects, 4]` in xyxy model pixels.
    pub boxes_xyxy: Tensor,
    /// Target class ids shaped `[batch, max_objects]`.
    pub class_ids: Tensor,
    /// Valid-object mask shaped `[batch, max_objects]`.
    pub valid: Tensor,
}

/// Layout of instance-segmentation target masks.
#[derive(Debug, Clone, Copy, PartialEq, Eq, Structural)]
pub enum SegmentationMaskEncoding {
    /// Masks are stored per instance as `[batch, max_objects, mask_h, mask_w]`.
    PerInstance,
    /// Masks are stored as overlap instance-index maps `[batch, 1, mask_h, mask_w]`.
    Overlap,
}

/// Instance segmentation targets in model/prototype coordinates.
#[derive(Debug, Clone)]
pub struct SegmentationTargets {
    /// Detection targets shared with the box/class branches.
    pub detection: DetectionTargets,
    /// Instance masks in the layout described by `mask_encoding`.
    pub masks: Tensor,
    /// Per-pixel class ids derived from the instance masks, shaped `[batch, H, W]`.
    pub semantic_masks: Tensor,
    /// Encoding used by the segmentation mask tensor.
    pub mask_encoding: SegmentationMaskEncoding,
}

/// Pose targets in model-image coordinates.
pub struct PoseTargets {
    /// Detection targets shared with the box/class branches.
    pub detection: DetectionTargets,
    /// Keypoint x/y targets shaped `[batch, max_objects, keypoints, 2]`.
    pub keypoints: Tensor,
    /// Visibility mask shaped `[batch, max_objects, keypoints]`.
    pub visibility: Tensor,
    /// Optional left/right keypoint permutation for horizontal flipping.
    pub flip_indices: Option<Vec<usize>>,
}

/// Oriented bounding-box targets in model-image coordinates.
pub struct ObbTargets {
    /// Detection targets shared with the box/class branches.
    pub detection: DetectionTargets,
    /// Rotation angle targets shaped `[batch, max_objects]`, in radians.
    pub angles: Tensor,
    /// Oriented boxes shaped `[batch, max_objects, 5]` as `[cx, cy, w, h, angle]`.
    pub rboxes_xywhr: Tensor,
}

/// Detection target shapes: boxes `[B, N, 4]`, class ids and valid flags `[B, N]`.
pub open spec fn detection_dims_ok(boxes: Seq<usize>, class_ids: Seq<usize>, valid: Seq<usize>) -> bool {
    &&& boxes.len() == 3
    &&& boxes[2] == 4
    &&& class_ids =~= boxes.take(2)
    &&& valid =~= boxes.take(2)
}

/// Segmentation mask shapes for the given encoding, against boxes of shape `[B, N, 4]`.
pub open spec fn segmentation_mask_dims_ok(
    boxes: Seq<usize>,
    masks: Seq<usize>,
    encoding: SegmentationMaskEncoding,
) -> bool {
    &&& masks.len() == 4
    &&& match encoding {
        SegmentationMaskEncoding::PerInstance => masks.take(2) =~= boxes.take(2),
        SegmentationMaskEncoding::Overlap => masks[0] == boxes[0] && masks[1] == 1,
    }
}

/// Pose shapes: keypoints `[B, N, K, 2]`, visibility `[B, N, K]`.
pub open spec fn pose_dims_ok(boxes: Seq<usize>, keypoints: Seq<usize>, visibility: Seq<usize>) -> bool {
    &&& keypoints.len() == 4
    &&& keypoints[0] == boxes[0]
    &&& keypoints[1] == boxes[1]
    &&& keypoints[3] == 2
    &&& visibility =~= keypoints.take(3)
}

/// Oriented-box shapes: angles `[B, N]`, boxes `[B, N, 5]`.
pub open spec fn obb_dims_ok(boxes: Seq<usize>, angles: Seq<usize>, rboxes: Seq<usize>) -> bool {
    &&& angles =~= boxes.take(2)
    &&& rboxes =~= boxes.take(2).push(5)
}

fn same_dims(a: &Vec<usize>, b: &Vec<usize>) -> (r: bool)
    ensures
        r == (a@ =~= b@),
{
    if a.len() != b.len() {
        return false;
    }
    let mut i: usize = 0;
    while i < a.len()
        invariant
            a.len() == b.len(),
            i <= a.len(),
            forall|j: int| 0 <= j < i ==> a@[j] == b@[j],
        decreases a.len() - i,
    {
        if a[i] != b[i] {
            return false;
        }
        i = i + 1;
    }
    true
}

fn leading_dims(d: &Vec<usize>, n: usize) -> (r: Vec<usize>)
    requires
        n <= d.len(),
    ensures
        r@ =~= d@.take(n as int),
{
    let mut r: Vec<usize> = Vec::new();
    let mut i: usize = 0;
    while i < n
        invariant
            n <= d.len(),
            i <= n,
            r@ =~= d@.take(i as int),
        decreases n - i,
    {
        r.push(d[i]);
        i = i + 1;
    }
    r
}

/// Checks detection target shapes: boxes `[B, N, 4]`, class ids and valid flags `[B, N]`.
pub fn check_detection_dims(boxes: &Vec<usize>, class_ids: &Vec<usize>, valid: &Vec<usize>) -> (r:
    Result<(), TrainError>)
    ensures
        r is Ok <==> detection_dims_ok(boxes@, class_ids@, valid@),
        r matches Err(e) ==> e is InvalidTensor,
{
    if boxes.len() != 3 || boxes[2] != 4 {
        return Err(
            TrainError::InvalidTensor(
                message("detection boxes must have shape [batch, max_objects, 4]"),
            ),
        );
    }
    let prefix = leading_dims(boxes, 2);
    if !same_dims(class_ids, &prefix) {
        return Err(
            TrainError::InvalidTensor(
                message("detection class_ids must have shape [batch, max_objects]"),
            ),
        );
    }
    if !same_dims(valid, &prefix) {
        return Err(
            TrainError::InvalidTensor(
                message("detection valid mask must have shape [batch, max_objects]"),
            ),
        );
    }
    Ok(())
}

/// Checks segmentation mask shapes against detection boxes of shape `[B, N, 4]`.
pub fn check_segmentation_mask_dims(
    boxes: &Vec<usize>,
    masks: &Vec<usize>,
    encoding: SegmentationMaskEncoding,
) -> (r: Result<(), TrainError>)
    requires
        boxes@.len() >= 2,
    ensures
        r is Ok <==> segmentation_mask_dims_ok(boxes@, masks@, encoding),
        r matches Err(e) ==> e is InvalidTensor,
{
    if masks.len() != 4 {
        return Err(TrainError::InvalidTensor(message("segmentation masks must have rank 4")));
    }
    match encoding {
        SegmentationMaskEncoding::PerInstance => {
            let expected = leading_dims(boxes, 2);
            let got = leading_dims(masks, 2);
            if !same_dims(&got, &expected) {
                return Err(
                    TrainError::InvalidTensor(
                        message("segmentation masks must have shape [batch, max_objects, H, W]"),
                    ),
                );
            }
        },
        SegmentationMaskEncoding::Overlap => {
            if masks[0] != boxes[0] || masks[1] != 1 {
                return Err(
                    TrainError::InvalidTensor(
                        message("overlap segmentation masks must have shape [batch, 1, H, W]"),
                    ),
                );
            }
        },
    }
    Ok(())
}

/// Checks pose shapes: keypoints `[B, N, K, 2]` and visibility `[B, N, K]`.
pub fn check_pose_dims(boxes: &Vec<usize>, keypoints: &Vec<usize>, visibility: &Vec<usize>) -> (r:
    Result<(), TrainError>)
    requires
        boxes@.len() >= 2,
    ensures
        r is Ok <==> pose_dims_ok(boxes@, keypoints@, visibility@),
        r matches Err(e) ==> e is InvalidTensor,
{
    if keypoints.len() != 4 || keypoints[0] != boxes[0] || keypoints[1] != boxes[1]
        || keypoints[3] != 2 {
        return Err(
            TrainError::InvalidTensor(
                message("pose keypoints must have shape [batch, objects, keypoints, 2]"),
            ),
        );
    }
    let expected = leading_dims(keypoints, 3);
    if !same_dims(visibility, &expected) {
        return Err(
            TrainError::InvalidTensor(
                message("pose visibility must have shape [batch, objects, keypoints]"),
            ),
        );
    }
    Ok(())
}

/// Checks oriented-box shapes: angles `[B, N]` and boxes `[B, N, 5]`.
pub fn check_obb_dims(boxes: &Vec<usize>, angles: &Vec<usize>, rboxes: &Vec<usize>) -> (r: Result<
    (),
    TrainError,
>)
    requires
        boxes@.len() >= 2,
    ensures
        r is Ok <==> obb_dims_ok(boxes@, angles@, rboxes@),
        r matches Err(e) ==> e is InvalidTensor,
{
    let expected = leading_dims(boxes, 2);
    if !same_dims(angles, &expected) {
        return Err(TrainError::InvalidTensor(message("obb angles must have shape [batch, objects]")));
    }
    let mut expected_rboxes = expected;
    expected_rboxes.push(5);
    if !same_dims(rboxes, &expected_rboxes) {
        return Err(
            TrainError::InvalidTensor(message("obb rboxes must have shape [batch, objects, 5]")),
        );
    }
    Ok(())
}

/// The leading two dimensions of the detection boxes, or an error when the
/// boxes have fewer than two dimensions.
fn box_dims(detection: &DetectionTargets) -> (r: Result<Vec<usize>, TrainError>)
    ensures
        r is Ok <==> tensor_shape(detection.boxes_xyxy).len() >= 2,
        r matches Ok(d) ==> d@ == tensor_shape(detection.boxes_xyxy),
        r matches Err(e) ==> e is InvalidTensor,
{
    let d = tensor_dims(&detection.boxes_xyxy);
    if d.len() < 2 {
        return Err(TrainError::InvalidTensor(message("detection boxes must have at least two dimensions")));
    }
    Ok(d)
}

impl DetectionTargets {
    /// Creates validated detection targets.
    ///
    /// Fails with `InvalidTensor` unless the shapes pass [`check_detection_dims`].
    pub fn new(boxes_xyxy: Tensor, class_ids: Tensor, valid: Tensor) -> (r: Result<Self, TrainError>)
        ensures
            r is Ok <==> detection_dims_ok(
                tensor_shape(boxes_xyxy),
                tensor_shape(class_ids),
                tensor_shape(valid),
            ),
            r matches Ok(t) ==> t.boxes_xyxy == boxes_xyxy && t.class_ids == class_ids && t.valid
                == valid,
            r matches Err(e) ==> e is InvalidTensor,
    {
        let boxes_dims = tensor_dims(&boxes_xyxy);
        let class_dims = tensor_dims(&class_ids);
        let valid_dims = tensor_dims(&valid);
        check_detection_dims(&boxes_dims, &class_dims, &valid_dims)?;
        Ok(DetectionTargets { boxes_xyxy, class_ids, valid })
    }
}

/// Shapes of segmentation targets that construction accepts: the mask shape
/// rule of [`segmentation_masks_valid`] and the data sizes of
/// [`semantic_mask_shapes_consistent`].
pub open spec fn segmentation_target_shapes_ok(
    detection: &DetectionTargets,
    masks: &Tensor,
    encoding: SegmentationMaskEncoding,
) -> bool {
    &&& segmentation_masks_valid(tensor_shape(detection.boxes_xyxy), tensor_shape(*masks), encoding)
    &&& semantic_mask_shapes_consistent(
        tensor_shape(detection.boxes_xyxy),
        tensor_shape(detection.class_ids),
        tensor_shape(detection.valid),
        tensor_shape(*masks),
        encoding,
    )
}

/// What constructing segmentation targets from `detection` and `masks` with
/// `encoding` gives:
/// - masks of the wrong shape are rejected with `InvalidTensor`, and
///   `InvalidTensor` comes only for shapes that break
///   [`segmentation_target_shapes_ok`];
/// - on CPU tensors of computable element types with accepted shapes, success;
/// - on success the targets hold `detection`, `masks` and `encoding`, and a
///   `[B, H, W]` class map created from what was read from the targets
///   ([`mask_data_read`], [`class_map_tensor`]);
/// - any other failure is a tensor error.
pub open spec fn segmentation_targets_built(
    detection: DetectionTargets,
    masks: Tensor,
    encoding: SegmentationMaskEncoding,
    r: Result<SegmentationTargets, TrainError>,
) -> bool {
    &&& !segmentation_masks_valid(tensor_shape(detection.boxes_xyxy), tensor_shape(masks), encoding)
        ==> (r matches Err(e) && e is InvalidTensor)
    &&& r matches Err(e) ==> (e is InvalidTensor ==> !segmentation_target_shapes_ok(
        &detection,
        &masks,
        encoding,
    ))
    &&& r matches Err(e) ==> e is InvalidTensor || e is Tensor
    &&& segmentation_target_shapes_ok(&detection, &masks, encoding) && mask_inputs_on_cpu(
        detection,
        masks,
    ) ==> r is Ok
    &&& r matches Ok(t) ==> {
        &&& t.detection == detection
        &&& t.masks == masks
        &&& t.mask_encoding == encoding
        &&& segmentation_target_shapes_ok(&detection, &masks, encoding)
        &&& tensor_shape(t.semantic_masks) == seq![
            tensor_shape(detection.boxes_xyxy)[0],
            tensor_shape(masks)[2],
            tensor_shape(masks)[3],
        ]
        &&& exists|d: MaskTargetData|
            #[trigger] mask_data_read(detection, masks, encoding, d) && d.well_formed(encoding)
                && class_map_tensor(t.semantic_masks, d, encoding)
    }
}

impl SegmentationTargets {
    /// Creates validated per-instance segmentation targets: the same as
    /// [`SegmentationTargets::new_with_mask_encoding`] with `PerInstance`.
    pub fn new(detection: DetectionTargets, masks: Tensor) -> (r: Result<Self, TrainError>)
        ensures
            segmentation_targets_built(detection, masks, SegmentationMaskEncoding::PerInstance, r),
    {
        Self::new_with_mask_encoding(detection, masks, SegmentationMaskEncoding::PerInstance)
    }

    /// Creates validated overlap-encoded segmentation targets: the same as
    /// [`SegmentationTargets::new_with_mask_encoding`] with `Overlap`.
    pub fn new_overlap(detection: DetectionTargets, masks: Tensor) -> (r: Result<Self, TrainError>)
        ensures
            segmentation_targets_built(detection, masks, SegmentationMaskEncoding::Overlap, r),
    {
        Self::new_with_mask_encoding(detection, masks, SegmentationMaskEncoding::Overlap)
    }

    /// Creates validated segmentation targets with an explicit mask encoding.
    ///
    /// The mask shapes must pass [`check_segmentation_mask_dims`]; the per-pixel
    /// class map is then derived from the masks.
    pub fn new_with_mask_encoding(
        detection: DetectionTargets,
        masks: Tensor,
        mask_encoding: SegmentationMaskEncoding,
    ) -> (r: Result<Self, TrainError>)
        ensures
            segmentation_targets_built(detection, masks, mask_encoding, r),
    {
        validate_segmentation_masks(&detection, &masks, mask_encoding)?;
        let semantic_masks = build_segmentation_semantic_masks(&detection, &masks, mask_encoding)?;
        Ok(SegmentationTargets { detection, masks, semantic_masks, mask_encoding })
    }
}

/// The dedicated constructors agree with the general one: two results that meet
/// the contract of construction from the same targets, masks and encoding (as
/// `SegmentationTargets::new` with `PerInstance`, `new_overlap` with `Overlap`
/// and `new_with_mask_encoding` each do) both fail with `InvalidTensor` on masks
/// of the wrong shape, both fail on shapes construction refuses, both succeed on
/// CPU tensors of computable element types with accepted shapes, and, when both
/// succeed, hold the same detection targets, masks and encoding, class maps of
/// one shape, each created from the class map of values read from those targets,
/// and class maps created from one and the same list of classes wherever both
/// hold the class map of the same values read.
pub proof fn law_segmentation_constructors_agree(
    detection: DetectionTargets,
    masks: Tensor,
    encoding: SegmentationMaskEncoding,
    dedicated: Result<SegmentationTargets, TrainError>,
    general: Result<SegmentationTargets, TrainError>,
)
    requires
        segmentation_targets_built(detection, masks, encoding, dedicated),
        segmentation_targets_built(detection, masks, encoding, general),
    ensures
        !segmentation_masks_valid(tensor_shape(detection.boxes_xyxy), tensor_shape(masks), encoding)
            ==> (dedicated matches Err(e) && e is InvalidTensor) && (general matches Err(f)
            && f is InvalidTensor),
        !segmentation_target_shapes_ok(&detection, &masks, encoding) ==> dedicated is Err
            && general is Err,
        segmentation_target_shapes_ok(&detection, &masks, encoding) && mask_inputs_on_cpu(
            detection,
            masks,
        ) ==> dedicated is Ok && general is Ok,
        dedicated matches Ok(a) ==> (general matches Ok(b) ==> {
            &&& a.detection == b.detection
            &&& a.masks == b.masks
            &&& a.mask_encoding == b.mask_encoding
            &&& a.mask_encoding == encoding
            &&& tensor_shape(a.semantic_masks) == tensor_shape(b.semantic_masks)
        }),
        dedicated matches Ok(a) ==> exists|d: MaskTargetData|
            #[trigger] mask_data_read(detection, masks, encoding, d) && d.well_formed(encoding)
                && class_map_tensor(a.semantic_masks, d, encoding),
        general matches Ok(b) ==> exists|d: MaskTargetData|
            #[trigger] mask_data_read(detection, masks, encoding, d) && d.well_formed(encoding)
                && class_map_tensor(b.semantic_masks, d, encoding),
        dedicated matches Ok(a) ==> (general matches Ok(b) ==> forall|d: MaskTargetData|
            #![trigger class_map_tensor(a.semantic_masks, d, encoding), class_map_tensor(b.semantic_masks, d, encoding)]
            d.well_formed(encoding) && class_map_tensor(a.semantic_masks, d, encoding)
                && class_map_tensor(b.semantic_masks, d, encoding) ==> exists|out: Seq<u32>|
                #![trigger created_from_u32s(a.semantic_masks, out), created_from_u32s(b.semantic_masks, out)]
                created_from_u32s(a.semantic_masks, out) && created_from_u32s(b.semantic_masks, out)),
{
    if let Ok(a) = dedicated {
        if let Ok(b) = general {
            assert forall|d: MaskTargetData|
                d.well_formed(encoding) && class_map_tensor(a.semantic_masks, d, encoding)
                    && class_map_tensor(b.semantic_masks, d, encoding) implies exists|out: Seq<u32>|
                #![trigger created_from_u32s(a.semantic_masks, out), created_from_u32s(b.semantic_masks, out)]
                created_from_u32s(a.semantic_masks, out) && created_from_u32s(
                    b.semantic_masks,
                    out,
                ) by {
                let oa = choose|out: Seq<u32>|
                    #[trigger] created_from_u32s(a.semantic_masks, out) && out.len() == d.batch
                        * d.plane() && forall|k: int|
                        0 <= k < out.len() ==> #[trigger] d.class_map_entry_ok(encoding, k, out[k]);
                let ob = choose|out: Seq<u32>|
                    #[trigger] created_from_u32s(b.semantic_masks, out) && out.len() == d.batch
                        * d.plane() && forall|k: int|
                        0 <= k < out.len() ==> #[trigger] d.class_map_entry_ok(encoding, k, out[k]);
                law_class_map_is_determined_by_values(d, encoding, oa, ob);
                assert(created_from_u32s(a.semantic_masks, oa) && created_from_u32s(b.semantic_masks, oa));
            }
        }
    }
}

/// The segmentation mask shape accepted against the detection boxes: boxes of
/// rank at least 2 and masks passing [`segmentation_mask_dims_ok`].
pub open spec fn segmentation_masks_valid(
    boxes: Seq<usize>,
    masks: Seq<usize>,
    encoding: SegmentationMaskEncoding,
) -> bool {
    boxes.len() >= 2 && segmentation_mask_dims_ok(boxes, masks, encoding)
}

/// Validates the segmentation mask tensor against the detection boxes.
pub fn validate_segmentation_masks(
    detection: &DetectionTargets,
    masks: &Tensor,
    mask_encoding: SegmentationMaskEncoding,
) -> (r: Result<(), TrainError>)
    ensures
        r is Ok <==> segmentation_masks_valid(
            tensor_shape(detection.boxes_xyxy),
            tensor_shape(*masks),
            mask_encoding,
        ),
        r matches Err(e) ==> e is InvalidTensor,
{
    let boxes = box_dims(detection)?;
    let mask_dims = tensor_dims(masks);
    check_segmentation_mask_dims(&boxes, &mask_dims, mask_encoding)
}

impl PoseTargets {
    /// Creates validated pose targets without a flip permutation.
    ///
    /// Fails with `InvalidTensor` unless the shapes pass [`check_pose_dims`].
    pub fn new(detection: DetectionTargets, keypoints: Tensor, visibility: Tensor) -> (r: Result<
        Self,
        TrainError,
    >)
        ensures
            r is Ok <==> tensor_shape(detection.boxes_xyxy).len() >= 2 && pose_dims_ok(
                tensor_shape(detection.boxes_xyxy),
                tensor_shape(keypoints),
                tensor_shape(visibility),
            ),
            r matches Ok(t) ==> t.detection == detection && t.keypoints == keypoints
                && t.visibility == visibility && t.flip_indices is None,
            r matches Err(e) ==> e is InvalidTensor,
    {
        let boxes = box_dims(&detection)?;
        let keypoint_dims = tensor_dims(&keypoints);
        let visibility_dims = tensor_dims(&visibility);
        check_pose_dims(&boxes, &keypoint_dims, &visibility_dims)?;
        Ok(PoseTargets { detection, keypoints, visibility, flip_indices: None })
    }
}

impl ObbTargets {
    /// Creates validated OBB targets with explicit `xywhr` boxes.
    ///
    /// Fails with `InvalidTensor` unless the shapes pass [`check_obb_dims`].
    pub fn new_with_rboxes(detection: DetectionTargets, angles: Tensor, rboxes_xywhr: Tensor) -> (r:
        Result<Self, TrainError>)
        ensures
            r is Ok <==> tensor_shape(detection.boxes_xyxy).len() >= 2 && obb_dims_ok(
                tensor_shape(detection.boxes_xyxy),
                tensor_shape(angles),
                tensor_shape(rboxes_xywhr),
            ),
            r matches Ok(t) ==> t.detection == detection && t.angles == angles && t.rboxes_xywhr
                == rboxes_xywhr,
            r matches Err(e) ==> e is InvalidTensor,
    {
        let boxes = box_dims(&detection)?;
        let angle_dims = tensor_dims(&angles);
        let rbox_dims = tensor_dims(&rboxes_xywhr);
        check_obb_dims(&boxes, &angle_dims, &rbox_dims)?;
        Ok(ObbTargets { detection, angles, rboxes_xywhr })
    }
}

} // verus!
