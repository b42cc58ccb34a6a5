//! Shape rules and tensor slicing for the mask and keypoint heads.
use vstd::prelude::*;

use candle_core::Tensor;

use crate::error::{message, TrainError};
use crate::targets::{SegmentationMaskEncoding, SegmentationTargets};
use crate::tensor::{
    broadcast_product_of, broadcast_sum_of, concatenated_from, narrowed_from, squeezed_from,
    tensor_values, transposed_from, cpu_int_tensor, lemma_update_keeps_zero, lemma_zero_size_broadcast, no_cpu_int_elements,
    broadcast_compatible, cpu_float_tensor, cpu_ready, tensor_element_type, tensor_on_cpu,
    broadcast_shape,
    cat_dim_total, cat_shape, lemma_cat_total_uniform, lift, tensor_broadcast_add, tensor_broadcast_mul,
    tensor_cat, tensor_dims, tensor_narrow, tensor_shape, tensor_squeeze, tensor_transpose,
};

verus! {

/// Layout of per-anchor mask coefficients within one image.
#[derive(Clone, Copy, Debug, PartialEq, Eq, Structural)]
pub enum MaskCoefficientLayout {
    /// Coefficients stored as `[channels, anchors]`.
    ChannelAnchor { anchors_len: usize },
    /// Coefficients stored as `[anchors, channels]`.
    AnchorChannel { anchors_len: usize },
}

impl MaskCoefficientLayout {
    /// Recognises the coefficient layout from the two trailing dimensions.
    ///
    /// `[proto_dim, anchors]` is preferred when both orders fit; any other
    /// shape is rejected with `InvalidTensor`.
    pub fn from_dims(dim_1: usize, dim_2: usize, proto_dim: usize, anchors_len: usize) -> (r: Result<
        Self,
        TrainError,
    >)
        ensures
            dim_1 == proto_dim && dim_2 == anchors_len ==> r == Ok::<Self, TrainError>(
                MaskCoefficientLayout::ChannelAnchor { anchors_len: dim_2 },
            ),
            !(dim_1 == proto_dim && dim_2 == anchors_len) && dim_1 == anchors_len && dim_2
                == proto_dim ==> r == Ok::<Self, TrainError>(
                MaskCoefficientLayout::AnchorChannel { anchors_len: dim_1 },
            ),
            !(dim_1 == proto_dim && dim_2 == anchors_len) && !(dim_1 == anchors_len && dim_2
                == proto_dim) ==> (r matches Err(e) && e is InvalidTensor),
    {
        if dim_1 == proto_dim && dim_2 == anchors_len {
            Ok(MaskCoefficientLayout::ChannelAnchor { anchors_len: dim_2 })
        } else if dim_1 == anchors_len && dim_2 == proto_dim {
            Ok(MaskCoefficientLayout::AnchorChannel { anchors_len: dim_1 })
        } else {
            Err(
                TrainError::InvalidTensor(
                    message(
                        "segmentation mask coefficients must be [batch, channels, anchors] or [batch, anchors, channels]",
                    ),
                ),
            )
        }
    }

    /// The number of anchors of the layout.
    pub fn anchors_len(self) -> (r: usize)
        ensures
            match self {
                MaskCoefficientLayout::ChannelAnchor { anchors_len } => r == anchors_len,
                MaskCoefficientLayout::AnchorChannel { anchors_len } => r == anchors_len,
            },
    {
        match self {
            MaskCoefficientLayout::ChannelAnchor { anchors_len } => anchors_len,
            MaskCoefficientLayout::AnchorChannel { anchors_len } => anchors_len,
        }
    }

    /// The image and anchor exist in coefficients of shape `s`: `s` is
    /// `[batch, channels, anchors, ..]` or `[batch, anchors, channels, ..]` by
    /// the layout, with `batch_idx` and `anchor_idx` in range.
    pub open spec fn anchor_in_range(self, s: Seq<usize>, batch_idx: usize, anchor_idx: usize) -> bool {
        match self {
            MaskCoefficientLayout::ChannelAnchor { .. } => s.len() >= 3 && batch_idx < s[0]
                && anchor_idx < s[2],
            MaskCoefficientLayout::AnchorChannel { .. } => s.len() >= 2 && batch_idx < s[0]
                && anchor_idx < s[1],
        }
    }

    /// The shape of one anchor's coefficients taken from shape `s`: `[1, channels]`
    /// followed by any trailing dimensions of `s`.
    pub open spec fn anchor_coefficients_shape(self, s: Seq<usize>) -> Seq<usize> {
        match self {
            MaskCoefficientLayout::ChannelAnchor { .. } => seq![1usize, s[1]] + s.subrange(3, s.len() as int),
            MaskCoefficientLayout::AnchorChannel { .. } => seq![1usize] + s.subrange(2, s.len() as int),
        }
    }

    /// `t` holds the coefficients of anchor `anchor_idx` of image `batch_idx`
    /// as taken here: the image's slice along dimension 0, squeezed, then the
    /// anchor's column (transposed to a row) or row, by the layout.
    pub open spec fn anchor_coefficients_made(
        self,
        t: Tensor,
        mask_coefficients: Tensor,
        batch_idx: usize,
        anchor_idx: usize,
    ) -> bool {
        exists|image: Tensor, coeff: Tensor|
            #![trigger narrowed_from(image, mask_coefficients, 0usize, batch_idx, 1usize), squeezed_from(coeff, image, 0usize)]
            narrowed_from(image, mask_coefficients, 0usize, batch_idx, 1usize) && squeezed_from(
                coeff,
                image,
                0usize,
            ) && match self {
                MaskCoefficientLayout::ChannelAnchor { .. } => exists|column: Tensor|
                    #![trigger narrowed_from(column, coeff, 1usize, anchor_idx, 1usize)]
                    narrowed_from(column, coeff, 1usize, anchor_idx, 1usize) && transposed_from(
                        t,
                        column,
                        0usize,
                        1usize,
                    ),
                MaskCoefficientLayout::AnchorChannel { .. } => narrowed_from(
                    t,
                    coeff,
                    0usize,
                    anchor_idx,
                    1usize,
                ),
            }
    }

    /// The `[1, channels]` coefficients of one anchor of one image.
    ///
    /// Succeeds exactly when the image and anchor exist (for indices below
    /// `usize::MAX`, which no tensor dimension can exceed).
    pub fn anchor_coefficients(self, mask_coefficients: &Tensor, batch_idx: usize, anchor_idx: usize) -> (r:
        Result<Tensor, TrainError>)
        ensures
            batch_idx < usize::MAX && anchor_idx < usize::MAX ==> (r is Ok <==> self.anchor_in_range(
                tensor_shape(*mask_coefficients),
                batch_idx,
                anchor_idx,
            )),
            r matches Ok(t) ==> tensor_shape(t) == self.anchor_coefficients_shape(
                tensor_shape(*mask_coefficients),
            ),
            r matches Ok(t) ==> self.anchor_coefficients_made(
                t,
                *mask_coefficients,
                batch_idx,
                anchor_idx,
            ),
            r matches Err(e) ==> e is Tensor,
    {
        let ghost s = tensor_shape(*mask_coefficients);
        let image = lift(tensor_narrow(mask_coefficients, 0, batch_idx, 1))?;
        let coeff = lift(tensor_squeeze(&image, 0))?;
        assert(tensor_shape(coeff) =~= s.subrange(1, s.len() as int));
        match self {
            MaskCoefficientLayout::ChannelAnchor { .. } => {
                let column = lift(tensor_narrow(&coeff, 1, anchor_idx, 1))?;
                let r = lift(tensor_transpose(&column, 0, 1));
                proof {
                    if let Ok(t) = &r {
                        assert(tensor_shape(*t) =~= self.anchor_coefficients_shape(s));
                        assert(narrowed_from(image, *mask_coefficients, 0usize, batch_idx, 1usize)
                            && squeezed_from(coeff, image, 0usize) && narrowed_from(
                            column,
                            coeff,
                            1usize,
                            anchor_idx,
                            1usize,
                        ));
                    }
                }
                r
            },
            MaskCoefficientLayout::AnchorChannel { .. } => {
                let r = lift(tensor_narrow(&coeff, 0, anchor_idx, 1));
                proof {
                    if let Ok(t) = &r {
                        assert(tensor_shape(*t) =~= self.anchor_coefficients_shape(s));
                        assert(narrowed_from(image, *mask_coefficients, 0usize, batch_idx, 1usize)
                            && squeezed_from(coeff, image, 0usize));
                    }
                }
                r
            },
        }
    }
}

/// Target mask shapes accepted by the mask loss: `[batch, M, H, W]` with one
/// mask per object (`M` = objects) or one overlap map (`M` = 1).
pub open spec fn target_mask_dims_ok(
    masks: Seq<usize>,
    boxes: Seq<usize>,
    batch: usize,
    encoding: SegmentationMaskEncoding,
) -> bool {
    &&& masks.len() == 4
    &&& masks[0] == batch
    &&& match encoding {
        SegmentationMaskEncoding::PerInstance => boxes.len() >= 2 && masks[1] == boxes[1],
        SegmentationMaskEncoding::Overlap => masks[1] == 1,
    }
}

/// Checks target mask shapes and returns the mask height and width.
pub fn check_target_mask_dims(
    masks: &Vec<usize>,
    boxes: &Vec<usize>,
    batch: usize,
    encoding: SegmentationMaskEncoding,
) -> (r: Result<(usize, usize), TrainError>)
    ensures
        r is Ok <==> target_mask_dims_ok(masks@, boxes@, batch, encoding),
        r matches Ok(hw) ==> hw.0 == masks@[2] && hw.1 == masks@[3],
        r matches Err(e) ==> e is InvalidTensor,
{
    if masks.len() != 4 || masks[0] != batch {
        return Err(
            TrainError::InvalidTensor(
                message("segmentation target masks must have shape [batch, masks, H, W]"),
            ),
        );
    }
    match encoding {
        SegmentationMaskEncoding::PerInstance => {
            if boxes.len() < 2 || masks[1] != boxes[1] {
                return Err(
                    TrainError::InvalidTensor(
                        message("segmentation target masks must have one mask per object"),
                    ),
                );
            }
        },
        SegmentationMaskEncoding::Overlap => {
            if masks[1] != 1 {
                return Err(
                    TrainError::InvalidTensor(
                        message("overlap segmentation masks must have one map channel"),
                    ),
                );
            }
        },
    }
    Ok((masks[2], masks[3]))
}

/// Reads the mask shape of segmentation targets and returns `(H, W)`.
pub fn validate_target_mask_shape(targets: &SegmentationTargets, batch: usize) -> (r: Result<
    (usize, usize),
    TrainError,
>)
    ensures
        r is Ok <==> target_mask_dims_ok(
            tensor_shape(targets.masks),
            tensor_shape(targets.detection.boxes_xyxy),
            batch,
            targets.mask_encoding,
        ),
        r matches Ok(hw) ==> hw.0 == tensor_shape(targets.masks)[2] && hw.1 == tensor_shape(
            targets.masks,
        )[3],
        r matches Err(e) ==> e is InvalidTensor,
{
    let masks = tensor_dims(&targets.masks);
    let boxes = tensor_dims(&targets.detection.boxes_xyxy);
    check_target_mask_dims(&masks, &boxes, batch, targets.mask_encoding)
}

/// One foreground anchor together with the object it was assigned.
#[derive(Clone, Copy, Debug, PartialEq, Eq, Structural)]
pub struct PositiveMaskAssignment {
    /// Image index.
    pub batch_idx: usize,
    /// Anchor index within the image.
    pub anchor_idx: usize,
    /// Index of the assigned object.
    pub object_idx: usize,
}

/// The assigned anchors among the first `k` row-major `(image, anchor)` slots;
/// `usize::MAX` marks an unassigned anchor.
pub open spec fn positives_prefix(target_gt_idx: Seq<usize>, anchors_len: nat, k: nat) -> Seq<
    PositiveMaskAssignment,
>
    decreases k,
{
    if k == 0 {
        Seq::empty()
    } else {
        let prev = positives_prefix(target_gt_idx, anchors_len, (k - 1) as nat);
        let object_idx = target_gt_idx[k - 1];
        if object_idx == usize::MAX {
            prev
        } else {
            prev.push(
                PositiveMaskAssignment {
                    batch_idx: ((k - 1) / (anchors_len as int)) as usize,
                    anchor_idx: ((k - 1) % (anchors_len as int)) as usize,
                    object_idx,
                },
            )
        }
    }
}

proof fn lemma_row_major(b: int, a: int, n: int)
    requires
        0 <= b,
        0 <= a < n,
    ensures
        (b * n + a) / n == b,
        (b * n + a) % n == a,
{
    vstd::arithmetic::div_mod::lemma_fundamental_div_mod_converse(b * n + a, n, b, a);
}

proof fn lemma_next_row(b: int, n: int, total: int)
    by (nonlinear_arith)
    requires
        0 <= b < total,
        0 <= n,
    ensures
        b * n + n <= total * n,
        (b + 1) * n == b * n + n,
{
}

proof fn lemma_step(b: int, a: int, n: int, total: int)
    by (nonlinear_arith)
    requires
        0 <= b < total,
        0 <= a < n,
    ensures
        b * n + a < total * n,
        b * n + n <= total * n,
        (b + 1) * n == b * n + n,
{
}

/// Lists the assigned anchors in row-major `(image, anchor)` order.
pub fn positive_mask_assignments(target_gt_idx: &Vec<usize>, batch: usize, anchors_len: usize) -> (r:
    Vec<PositiveMaskAssignment>)
    requires
        batch * anchors_len <= target_gt_idx@.len(),
    ensures
        r@ == positives_prefix(target_gt_idx@, anchors_len as nat, (batch * anchors_len) as nat),
{
    let total_len = target_gt_idx.len();
    let mut positives: Vec<PositiveMaskAssignment> = Vec::new();
    let mut b: usize = 0;
    while b < batch
        invariant
            batch * anchors_len <= target_gt_idx@.len(),
            total_len == target_gt_idx@.len(),
            b <= batch,
            b * anchors_len <= batch * anchors_len,
            positives@ == positives_prefix(target_gt_idx@, anchors_len as nat, (b * anchors_len) as nat),
        decreases batch - b,
    {
        proof {
            lemma_next_row(b as int, anchors_len as int, batch as int);
        }
        let mut anchor_idx: usize = 0;
        while anchor_idx < anchors_len
            invariant
                batch * anchors_len <= target_gt_idx@.len(),
                total_len == target_gt_idx@.len(),
                b < batch,
                anchor_idx <= anchors_len,
                b * anchors_len + anchors_len <= batch * anchors_len,
                positives@ == positives_prefix(
                    target_gt_idx@,
                    anchors_len as nat,
                    (b * anchors_len + anchor_idx) as nat,
                ),
            decreases anchors_len - anchor_idx,
        {
            proof {
                lemma_step(b as int, anchor_idx as int, anchors_len as int, batch as int);
                lemma_row_major(b as int, anchor_idx as int, anchors_len as int);
            }
            let k = b * anchors_len + anchor_idx;
            let object_idx = target_gt_idx[k];
            if object_idx != usize::MAX {
                positives.push(PositiveMaskAssignment { batch_idx: b, anchor_idx, object_idx });
            }
            anchor_idx = anchor_idx + 1;
        }
        b = b + 1;
    }
    positives
}

/// The shape of one decoded keypoint coordinate: a keypoint channel
/// (`[.., 1, ..]` of the keypoints) plus an anchor coordinate channel, times the
/// strides, each step broadcast.
pub open spec fn keypoint_coordinate_shape(keypoints: Seq<usize>, anchors: Seq<usize>, strides: Seq<usize>) -> Seq<
    usize,
> {
    broadcast_shape(broadcast_shape(keypoints.update(1, 1), anchors.update(1, 1)), strides)
}

/// The keypoint channel at `start` (of size one) lies inside dimension 1.
pub open spec fn channel_exists(s: Seq<usize>, start: int) -> bool {
    s.len() >= 2 && start + 1 <= s[1]
}

/// Values per keypoint of a pose head with `channels` output channels for
/// `count` target keypoints: the channels must split evenly into at least an x
/// and a y value per keypoint, else `InvalidTensor`.
pub fn pose_keypoint_dims(channels: usize, count: usize) -> (r: Result<usize, TrainError>)
    ensures
        r is Ok <==> (count > 0 && channels % count == 0 && channels / count >= 2),
        r matches Ok(d) ==> d == channels / count && d * count == channels,
        r matches Err(e) ==> e is InvalidTensor,
{
    if count == 0 || channels % count != 0 {
        return Err(
            TrainError::InvalidTensor(
                message("pose keypoint channels are not divisible by the target keypoints"),
            ),
        );
    }
    let dims = channels / count;
    if dims < 2 {
        return Err(
            TrainError::InvalidTensor(
                message("pose keypoint output requires at least x/y values per keypoint"),
            ),
        );
    }
    proof {
        vstd::arithmetic::div_mod::lemma_fundamental_div_mod(channels as int, count as int);
        assert(dims * count == channels) by (nonlinear_arith)
            requires
                channels == count * (channels / count) + channels % count,
                channels % count == 0,
                dims == channels / count,
        ;
    }
    Ok(dims)
}

/// `c` is one decoded coordinate as computed here: the keypoint channel at
/// `start`, plus the anchor coordinate column, times the strides.
pub open spec fn keypoint_coordinate_made(
    c: Tensor,
    keypoints: Tensor,
    anchor_column: Tensor,
    strides: Tensor,
    start: usize,
) -> bool {
    exists|raw: Tensor, shifted: Tensor|
        #![trigger narrowed_from(raw, keypoints, 1usize, start, 1usize), broadcast_sum_of(shifted, raw, anchor_column)]
        narrowed_from(raw, keypoints, 1usize, start, 1usize) && broadcast_sum_of(
            shifted,
            raw,
            anchor_column,
        ) && broadcast_product_of(c, shifted, strides)
}

/// Entries `2k` and `2k + 1` of `coords` are the decoded x and y of keypoint
/// `k`, whose values start at channel `k * dims`.
pub open spec fn keypoint_pair_made(
    coords: Seq<Tensor>,
    k: int,
    keypoints: Tensor,
    anchor_x: Tensor,
    anchor_y: Tensor,
    strides: Tensor,
    dims: usize,
) -> bool {
    &&& keypoint_coordinate_made(coords[2 * k], keypoints, anchor_x, strides, (k * dims) as usize)
    &&& keypoint_coordinate_made(coords[2 * k + 1], keypoints, anchor_y, strides, (k * dims + 1) as usize)
}

/// `t` is the decoding computed here: the anchors' x and y columns, then for
/// each of `count` keypoints its decoded x and y, all concatenated along
/// dimension 1.
pub open spec fn keypoint_decoding_made(
    t: Tensor,
    keypoints: Tensor,
    anchors: Tensor,
    strides: Tensor,
    count: usize,
    dims: usize,
) -> bool {
    exists|anchor_x: Tensor, anchor_y: Tensor, coords: Seq<Tensor>|
        #![trigger narrowed_from(anchor_x, anchors, 1usize, 0usize, 1usize), narrowed_from(anchor_y, anchors, 1usize, 1usize, 1usize), concatenated_from(t, coords, 1usize)]
        narrowed_from(anchor_x, anchors, 1usize, 0usize, 1usize) && narrowed_from(
            anchor_y,
            anchors,
            1usize,
            1usize,
            1usize,
        ) && coords.len() == 2 * count && (forall|k: int|
            0 <= k < count ==> #[trigger] keypoint_pair_made(
                coords,
                k,
                keypoints,
                anchor_x,
                anchor_y,
                strides,
                dims,
            )) && concatenated_from(t, coords, 1usize)
}

/// `t` is the visibility channels taken here: channel `k * dims + 2` of each of
/// `count` keypoints, concatenated along dimension 1.
pub open spec fn visibility_channels_made(t: Tensor, keypoints: Tensor, count: usize, dims: usize) -> bool {
    exists|channels: Seq<Tensor>|
        #![trigger concatenated_from(t, channels, 1usize)]
        channels.len() == count && (forall|k: int|
            0 <= k < count ==> narrowed_from(
                #[trigger] channels[k],
                keypoints,
                1usize,
                (k * dims + 2) as usize,
                1usize,
            )) && concatenated_from(t, channels, 1usize)
}

/// CPU float keypoints, anchors and strides of one element type whose shapes
/// fit the decoding of `count` keypoints of `dims` values each: the anchors
/// have an x and a y column, the keypoints the channels of the last keypoint,
/// and the slices broadcast.
pub open spec fn keypoint_decoding_ready(
    keypoints: Tensor,
    anchors: Tensor,
    strides: Tensor,
    count: usize,
    dims: usize,
) -> bool {
    let sk = tensor_shape(keypoints);
    let sa = tensor_shape(anchors);
    let w = keypoint_coordinate_shape(sk, sa, tensor_shape(strides));
    &&& cpu_float_tensor(keypoints)
    &&& cpu_float_tensor(anchors)
    &&& cpu_float_tensor(strides)
    &&& tensor_element_type(anchors) == tensor_element_type(keypoints)
    &&& tensor_element_type(strides) == tensor_element_type(keypoints)
    &&& count > 0
    &&& channel_exists(sa, 1)
    &&& channel_exists(sk, (count - 1) * dims + 1)
    &&& broadcast_compatible(sk.update(1, 1), sa.update(1, 1))
    &&& broadcast_compatible(broadcast_shape(sk.update(1, 1), sa.update(1, 1)), tensor_shape(strides))
    &&& w.len() >= 2
    &&& 2 * count * w[1] <= usize::MAX
}

/// Decodes keypoint x/y channels to pixels: `(kpt + anchor) * stride` for each
/// keypoint, concatenated as `[x0, y0, x1, y1, ...]` along dimension 1.
///
/// Fails when there is no keypoint, when the anchors lack an x and a y column,
/// or when the keypoints lack the x/y channels of the last keypoint.
pub fn decode_keypoint_xy(
    keypoints: &Tensor,
    anchors: &Tensor,
    strides: &Tensor,
    keypoints_count: usize,
    keypoint_dims: usize,
) -> (r: Result<Tensor, TrainError>)
    requires
        keypoints_count * keypoint_dims + 1 <= usize::MAX,
        no_cpu_int_elements(*keypoints),
    ensures
        keypoints_count == 0 ==> r is Err,
        !channel_exists(tensor_shape(*anchors), 1) ==> r is Err,
        keypoints_count > 0 && !channel_exists(
            tensor_shape(*keypoints),
            (keypoints_count - 1) * keypoint_dims + 1,
        ) ==> r is Err,
        r matches Ok(t) ==> tensor_shape(t) == {
            let w = keypoint_coordinate_shape(
                tensor_shape(*keypoints),
                tensor_shape(*anchors),
                tensor_shape(*strides),
            );
            w.update(1, (2 * keypoints_count * w[1]) as usize)
        },
        r matches Err(e) ==> e is Tensor,
        keypoint_decoding_ready(*keypoints, *anchors, *strides, keypoints_count, keypoint_dims)
            ==> r is Ok,
        r matches Ok(t) ==> keypoint_decoding_made(
            t,
            *keypoints,
            *anchors,
            *strides,
            keypoints_count,
            keypoint_dims,
        ),
{
    let ghost sk = tensor_shape(*keypoints);
    let ghost w = keypoint_coordinate_shape(sk, tensor_shape(*anchors), tensor_shape(*strides));
    let ghost ready = keypoint_decoding_ready(
        *keypoints,
        *anchors,
        *strides,
        keypoints_count,
        keypoint_dims,
    );
    let anchor_x = lift(tensor_narrow(anchors, 1, 0, 1))?;
    let anchor_y = lift(tensor_narrow(anchors, 1, 1, 1))?;
    assert(channel_exists(tensor_shape(*anchors), 1));
    let mut decoded: Vec<Tensor> = Vec::new();
    let mut keypoint_idx: usize = 0;
    while keypoint_idx < keypoints_count
        invariant
            keypoints_count * keypoint_dims + 1 <= usize::MAX,
            keypoint_idx <= keypoints_count,
            sk == tensor_shape(*keypoints),
            w == keypoint_coordinate_shape(sk, tensor_shape(*anchors), tensor_shape(*strides)),
            tensor_shape(anchor_x) == tensor_shape(*anchors).update(1, 1),
            tensor_shape(anchor_y) == tensor_shape(*anchors).update(1, 1),
            decoded@.len() == 2 * keypoint_idx,
            forall|i: int| 0 <= i < decoded@.len() ==> tensor_shape(#[trigger] decoded@[i]) == w,
            keypoint_idx > 0 ==> channel_exists(sk, (keypoint_idx - 1) * keypoint_dims + 1),
            ready == keypoint_decoding_ready(
                *keypoints,
                *anchors,
                *strides,
                keypoints_count,
                keypoint_dims,
            ),
            no_cpu_int_elements(*keypoints),
            forall|k: int|
                0 <= k < keypoint_idx ==> #[trigger] keypoint_pair_made(
                    decoded@,
                    k,
                    *keypoints,
                    anchor_x,
                    anchor_y,
                    *strides,
                    keypoint_dims,
                ),
            ready ==> tensor_on_cpu(anchor_x) && tensor_on_cpu(anchor_y),
            ready ==> tensor_element_type(anchor_x) == tensor_element_type(*keypoints),
            ready ==> tensor_element_type(anchor_y) == tensor_element_type(*keypoints),
            ready ==> forall|i: int|
                0 <= i < decoded@.len() ==> cpu_ready(#[trigger] decoded@[i]) && tensor_element_type(
                    decoded@[i],
                ) == tensor_element_type(*keypoints),
        decreases keypoints_count - keypoint_idx,
    {
        proof {
            assert(keypoint_idx * keypoint_dims <= keypoints_count * keypoint_dims) by (nonlinear_arith)
                requires
                    keypoint_idx <= keypoints_count,
            ;
            assert(keypoint_idx * keypoint_dims + 2 <= usize::MAX) by (nonlinear_arith)
                requires
                    keypoint_idx < keypoints_count,
                    keypoints_count * keypoint_dims + 1 <= usize::MAX,
            ;
            assert(keypoint_idx * keypoint_dims <= (keypoints_count - 1) * keypoint_dims) by (nonlinear_arith)
                requires
                    keypoint_idx < keypoints_count,
            ;
        }
        let base = keypoint_idx * keypoint_dims;
        let x_raw = lift(tensor_narrow(keypoints, 1, base, 1))?;
        proof {
            if cpu_int_tensor(*keypoints) {
                lemma_update_keeps_zero(sk, 1, 1);
            }
        }
        let x_shifted = lift(tensor_broadcast_add(&x_raw, &anchor_x))?;
        proof {
            if cpu_int_tensor(*keypoints) {
                lemma_zero_size_broadcast(tensor_shape(x_raw), tensor_shape(anchor_x));
            }
        }
        let x = lift(tensor_broadcast_mul(&x_shifted, strides))?;
        let y_raw = lift(tensor_narrow(keypoints, 1, base + 1, 1))?;
        let y_shifted = lift(tensor_broadcast_add(&y_raw, &anchor_y))?;
        proof {
            if cpu_int_tensor(*keypoints) {
                lemma_zero_size_broadcast(tensor_shape(y_raw), tensor_shape(anchor_y));
            }
        }
        let y = lift(tensor_broadcast_mul(&y_shifted, strides))?;
        let ghost before = decoded@;
        decoded.push(x);
        decoded.push(y);
        proof {
            let k0 = keypoint_idx as int;
            assert(decoded@[2 * k0] == x && decoded@[2 * k0 + 1] == y);
            assert(narrowed_from(x_raw, *keypoints, 1usize, (k0 * keypoint_dims) as usize, 1usize)
                && broadcast_sum_of(x_shifted, x_raw, anchor_x));
            assert(narrowed_from(
                y_raw,
                *keypoints,
                1usize,
                (k0 * keypoint_dims + 1) as usize,
                1usize,
            ) && broadcast_sum_of(y_shifted, y_raw, anchor_y));
            assert(keypoint_pair_made(decoded@, k0, *keypoints, anchor_x, anchor_y, *strides, keypoint_dims));
            assert forall|k: int| 0 <= k < k0 implies #[trigger] keypoint_pair_made(
                decoded@,
                k,
                *keypoints,
                anchor_x,
                anchor_y,
                *strides,
                keypoint_dims,
            ) by {
                assert(keypoint_pair_made(before, k, *keypoints, anchor_x, anchor_y, *strides, keypoint_dims));
                assert(decoded@[2 * k] == before[2 * k]);
                assert(decoded@[2 * k + 1] == before[2 * k + 1]);
            }
        }
        keypoint_idx = keypoint_idx + 1;
    }
    let mut refs: Vec<&Tensor> = Vec::new();
    let mut i: usize = 0;
    while i < decoded.len()
        invariant
            i <= decoded.len(),
            refs@.len() == i,
            forall|j: int| 0 <= j < i ==> *#[trigger] refs@[j] == decoded@[j],
        decreases decoded.len() - i,
    {
        refs.push(&decoded[i]);
        i = i + 1;
    }
    proof {
        assert forall|j: int| 0 <= j < refs@.len() implies tensor_shape(*#[trigger] refs@[j]) == w by {
            assert(tensor_shape(decoded@[j]) == w);
        }
        lemma_cat_total_uniform(refs@, 1, w);
        if ready {
            assert(refs@.len() == 2 * keypoints_count);
            assert forall|j: int| 0 <= j < refs@.len() implies cpu_ready(*#[trigger] refs@[j])
                && tensor_element_type(*refs@[j]) == tensor_element_type(*refs@[0]) by {
                assert(*refs@[j] == decoded@[j]);
                assert(*refs@[0] == decoded@[0]);
            }
        }
    }
    let r = lift(tensor_cat(&refs, 1));
    proof {
        if let Ok(t) = &r {
            assert(tensor_values(refs@) =~= decoded@);
            assert(narrowed_from(anchor_x, *anchors, 1usize, 0usize, 1usize) && narrowed_from(
                anchor_y,
                *anchors,
                1usize,
                1usize,
                1usize,
            ) && concatenated_from(*t, decoded@, 1usize));
        }
    }
    r
}

/// A CPU tensor of a computable element type with the visibility channel of
/// the last of `count >= 1` keypoints of `dims` values each.
pub open spec fn keypoint_channels_ready(keypoints: Tensor, count: usize, dims: usize) -> bool {
    &&& cpu_ready(keypoints)
    &&& count > 0
    &&& channel_exists(tensor_shape(keypoints), (count - 1) * dims + 2)
}

/// The visibility logit channel (index 2 of each keypoint) of every keypoint,
/// concatenated along dimension 1.
///
/// Fails when there is no keypoint or when the keypoints lack the visibility
/// channel of the last keypoint.
pub fn keypoint_visibility_logits(keypoints: &Tensor, keypoints_count: usize, keypoint_dims: usize) -> (r:
    Result<Tensor, TrainError>)
    requires
        keypoints_count * keypoint_dims + 2 <= usize::MAX,
    ensures
        keypoints_count == 0 ==> r is Err,
        keypoints_count > 0 && !channel_exists(
            tensor_shape(*keypoints),
            (keypoints_count - 1) * keypoint_dims + 2,
        ) ==> r is Err,
        r matches Ok(t) ==> tensor_shape(t) == tensor_shape(*keypoints).update(1, keypoints_count),
        r matches Ok(t) ==> visibility_channels_made(t, *keypoints, keypoints_count, keypoint_dims),
        r matches Err(e) ==> e is Tensor,
        keypoint_channels_ready(*keypoints, keypoints_count, keypoint_dims) ==> r is Ok,
{
    let ghost sk = tensor_shape(*keypoints);
    let ghost w = sk.update(1, 1);
    let ghost ready = keypoint_channels_ready(*keypoints, keypoints_count, keypoint_dims);
    let mut channels: Vec<Tensor> = Vec::new();
    let mut keypoint_idx: usize = 0;
    while keypoint_idx < keypoints_count
        invariant
            keypoints_count * keypoint_dims + 2 <= usize::MAX,
            keypoint_idx <= keypoints_count,
            sk == tensor_shape(*keypoints),
            w == sk.update(1, 1),
            channels@.len() == keypoint_idx,
            forall|i: int| 0 <= i < channels@.len() ==> tensor_shape(#[trigger] channels@[i]) == w,
            keypoint_idx > 0 ==> channel_exists(sk, (keypoint_idx - 1) * keypoint_dims + 2),
            ready == keypoint_channels_ready(*keypoints, keypoints_count, keypoint_dims),
            forall|k: int|
                0 <= k < channels@.len() ==> narrowed_from(
                    #[trigger] channels@[k],
                    *keypoints,
                    1usize,
                    (k * keypoint_dims + 2) as usize,
                    1usize,
                ),
            ready ==> forall|i: int|
                0 <= i < channels@.len() ==> cpu_ready(#[trigger] channels@[i]) && tensor_element_type(
                    channels@[i],
                ) == tensor_element_type(*keypoints),
        decreases keypoints_count - keypoint_idx,
    {
        proof {
            assert(keypoint_idx * keypoint_dims <= keypoints_count * keypoint_dims) by (nonlinear_arith)
                requires
                    keypoint_idx <= keypoints_count,
            ;
            assert(keypoint_idx * keypoint_dims <= (keypoints_count - 1) * keypoint_dims) by (nonlinear_arith)
                requires
                    keypoint_idx < keypoints_count,
            ;
            assert(keypoint_idx * keypoint_dims + 3 <= usize::MAX) by (nonlinear_arith)
                requires
                    keypoint_idx < keypoints_count,
                    keypoints_count * keypoint_dims + 2 <= usize::MAX,
            ;
        }
        let channel = lift(tensor_narrow(keypoints, 1, keypoint_idx * keypoint_dims + 2, 1))?;
        let ghost before = channels@;
        channels.push(channel);
        proof {
            assert forall|k: int| 0 <= k < channels@.len() implies narrowed_from(
                #[trigger] channels@[k],
                *keypoints,
                1usize,
                (k * keypoint_dims + 2) as usize,
                1usize,
            ) by {
                if k < before.len() {
                    assert(channels@[k] == before[k]);
                }
            }
        }
        keypoint_idx = keypoint_idx + 1;
    }
    let mut refs: Vec<&Tensor> = Vec::new();
    let mut i: usize = 0;
    while i < channels.len()
        invariant
            i <= channels.len(),
            refs@.len() == i,
            forall|j: int| 0 <= j < i ==> *#[trigger] refs@[j] == channels@[j],
        decreases channels.len() - i,
    {
        refs.push(&channels[i]);
        i = i + 1;
    }
    proof {
        assert forall|j: int| 0 <= j < refs@.len() implies tensor_shape(*#[trigger] refs@[j]) == w by {
            assert(tensor_shape(channels@[j]) == w);
        }
        lemma_cat_total_uniform(refs@, 1, w);
        if ready {
            assert forall|j: int| 0 <= j < refs@.len() implies cpu_ready(*#[trigger] refs@[j])
                && tensor_element_type(*refs@[j]) == tensor_element_type(*refs@[0]) by {
                assert(*refs@[j] == channels@[j]);
                assert(*refs@[0] == channels@[0]);
            }
            let n = refs@.len() as int;
            let one = w[1] as int;
            assert(one == 1);
            assert(n * one == n) by (nonlinear_arith)
                requires
                    one == 1,
            ;
            assert(cat_dim_total(refs@, 1) <= usize::MAX);
        }
    }
    let r = lift(tensor_cat(&refs, 1));
    proof {
        if let Ok(t) = &r {
            assert(sk.len() >= 2);
            assert(w[1] == 1);
            if refs@.len() == 1 {
                assert(*t == channels@[0]);
            } else {
                assert(tensor_shape(*refs@[0]) == w);
                assert(cat_dim_total(refs@, 1) == refs@.len() * w[1]);
                let n = refs@.len() as int;
                let one = w[1] as int;
                assert(n * one == n) by (nonlinear_arith)
                    requires
                        one == 1,
                ;
                assert(tensor_shape(*t) == cat_shape(refs@, 1));
                assert(tensor_shape(*t) == w.update(1, keypoints_count as usize));
            }
            assert(tensor_shape(*t) =~= sk.update(1, keypoints_count as usize));
            assert(tensor_values(refs@) =~= channels@);
            assert(concatenated_from(*t, channels@, 1usize));
        }
    }
    r
}

} // verus!
