//! Per-pixel class maps derived from instance-segmentation masks.
//!
//! Mask and validity values enter as sign flags (`> 0` and `<= 0`, both kept
//! because a NaN value is neither) and, for overlap maps, as the rounded
//! instance index. The class map is then computed from those plain values.
use vstd::prelude::*;

use candle_core::Tensor;

use crate::error::{message, TrainError};
use crate::targets::{DetectionTargets, SegmentationMaskEncoding};
use crate::tensor::{
    at_most_of, converted_from, cpu_ready, created_from_u32s, flattened_from, greater_than_of,
    read_i64_from, read_u32_from, read_u8_from, rounded_from, zeros_for, ElementType, lift, shape_size, tensor_dims, tensor_shape, tensor_flatten_all, tensor_from_vec_u32_3d, tensor_gt, tensor_le,
    tensor_round, tensor_to_f32, tensor_to_i64, tensor_to_u32, tensor_to_vec1_i64,
    tensor_to_vec1_u32, tensor_to_vec1_u8, tensor_zeros_like,
};

verus! {

/// Pixel areas stop growing at 2^24, the largest count a single-precision
/// accumulator reaches by adding ones.
pub const AREA_CAP: usize = 16777216;

/// Plain values read from segmentation targets.
pub struct MaskTargetData {
    /// Batch size.
    pub batch: usize,
    /// Objects per image.
    pub objects: usize,
    /// Mask channels per image.
    pub channels: usize,
    /// Mask height.
    pub height: usize,
    /// Mask width.
    pub width: usize,
    /// Class id per `(image, object)`, row-major.
    pub classes: Vec<u32>,
    /// `valid > 0` per `(image, object)`.
    pub valid_positive: Vec<u8>,
    /// `valid <= 0` per `(image, object)`.
    pub valid_nonpositive: Vec<u8>,
    /// `mask > 0` per `(image, channel, y, x)`.
    pub mask_positive: Vec<u8>,
    /// `mask <= 0` per `(image, channel, y, x)`.
    pub mask_nonpositive: Vec<u8>,
    /// Rounded mask value per `(image, channel, y, x)`; read for overlap maps only.
    pub mask_rounded: Vec<i64>,
}

impl MaskTargetData {
    /// Pixels per mask plane.
    pub open spec fn plane(self) -> int {
        self.height * self.width
    }

    /// Position of mask element `(b, c, p)`, with `p` the row-major pixel index.
    pub open spec fn mask_index(self, b: int, c: int, p: int) -> int {
        (b * self.channels + c) * self.plane() + p
    }

    /// The vectors have the lengths the dimensions call for.
    pub open spec fn well_formed(self, encoding: SegmentationMaskEncoding) -> bool {
        let mask_len = self.batch * self.channels * self.plane();
        &&& self.batch > 0 ==> self.plane() <= usize::MAX
        &&& self.batch * self.plane() <= usize::MAX
        &&& self.batch * self.channels <= usize::MAX
        &&& self.batch * self.objects <= usize::MAX
        &&& mask_len <= usize::MAX
        &&& self.classes@.len() == self.batch * self.objects
        &&& self.valid_positive@.len() == self.batch * self.objects
        &&& self.valid_nonpositive@.len() == self.batch * self.objects
        &&& self.mask_positive@.len() == mask_len
        &&& self.mask_nonpositive@.len() == mask_len
        &&& match encoding {
            SegmentationMaskEncoding::PerInstance => self.channels == self.objects,
            SegmentationMaskEncoding::Overlap => self.channels >= 1 && self.mask_rounded@.len()
                == mask_len,
        }
    }

    /// Number of the first `n` pixels of object `obj`'s mask that are positive.
    pub open spec fn positive_count(self, b: int, obj: int, n: nat) -> nat
        decreases n,
    {
        if n == 0 {
            0
        } else {
            self.positive_count(b, obj, (n - 1) as nat) + if self.mask_positive@[self.mask_index(
                b,
                obj,
                n - 1,
            )] != 0 {
                1nat
            } else {
                0nat
            }
        }
    }

    /// Area of object `obj`'s mask, saturating at [`AREA_CAP`].
    pub open spec fn area(self, b: int, obj: int) -> nat {
        let count = self.positive_count(b, obj, self.plane() as nat);
        if count < AREA_CAP {
            count
        } else {
            AREA_CAP as nat
        }
    }

    /// Object `obj` claims pixel `p`: it is not marked invalid and its mask is not `<= 0` there.
    pub open spec fn claims(self, b: int, obj: int, p: int) -> bool {
        &&& 0 <= obj < self.objects
        &&& self.valid_nonpositive@[b * self.objects + obj] == 0
        &&& self.mask_nonpositive@[self.mask_index(b, obj, p)] == 0
    }

    /// `obj` is the claiming object of smallest area, the first one on ties.
    pub open spec fn smallest_claim(self, b: int, p: int, obj: int) -> bool {
        &&& self.claims(b, obj, p)
        &&& forall|other: int|
            #![trigger self.claims(b, other, p)]
            self.claims(b, other, p) ==> self.area(b, obj) <= self.area(b, other) && (other < obj
                ==> self.area(b, other) > self.area(b, obj))
    }

    /// Class of pixel `p` of image `b` for per-instance masks.
    pub open spec fn per_instance_pixel_ok(self, b: int, p: int, v: u32) -> bool {
        &&& (forall|obj: int| 0 <= obj < self.objects ==> !#[trigger] self.claims(b, obj, p)) ==> v
            == 0
        &&& forall|obj: int| #[trigger]
            self.smallest_claim(b, p, obj) ==> v == self.classes@[b * self.objects + obj]
    }

    /// Instance index encoded by a rounded overlap value (values below one name the first instance).
    pub open spec fn overlap_object(r: i64) -> int {
        if r <= 1 {
            0
        } else {
            r - 1
        }
    }

    /// Class of pixel `p` of image `b` for overlap maps.
    pub open spec fn overlap_pixel(self, b: int, p: int) -> u32 {
        let at = self.mask_index(b, 0, p);
        if self.mask_nonpositive@[at] != 0 {
            0
        } else {
            let obj = Self::overlap_object(self.mask_rounded@[at]);
            if obj < self.objects && self.valid_positive@[b * self.objects + obj] != 0 {
                self.classes@[b * self.objects + obj]
            } else {
                0
            }
        }
    }

    /// The class stored at row-major position `k` of the class map.
    pub open spec fn class_map_entry_ok(self, encoding: SegmentationMaskEncoding, k: int, v: u32) -> bool {
        let b = k / self.plane();
        let p = k % self.plane();
        match encoding {
            SegmentationMaskEncoding::PerInstance => self.per_instance_pixel_ok(b, p, v),
            SegmentationMaskEncoding::Overlap => v == self.overlap_pixel(b, p),
        }
    }
}

proof fn lemma_flat_index(q: int, n: int, p: int, m: int)
    by (nonlinear_arith)
    requires
        0 <= q < n,
        0 <= p < m,
    ensures
        0 <= q * m + p < n * m,
        q * m <= (n - 1) * m,
{
}

proof fn lemma_next_row(b: int, n: int, m: int)
    by (nonlinear_arith)
    requires
        0 <= b < n,
        0 <= m,
    ensures
        b * m + m <= n * m,
        (b + 1) * m == b * m + m,
{
}

proof fn lemma_row_major(b: int, p: int, m: int)
    requires
        0 <= b,
        0 <= p < m,
    ensures
        (b * m + p) / m == b,
        (b * m + p) % m == p,
{
    vstd::arithmetic::div_mod::lemma_fundamental_div_mod_converse(b * m + p, m, b, p);
}

proof fn lemma_plane_fits(batch: int, plane: int)
    by (nonlinear_arith)
    requires
        batch >= 1,
        plane > usize::MAX,
    ensures
        batch * plane > usize::MAX,
{
}

proof fn lemma_mask_index_bound(d: MaskTargetData, b: int, c: int, p: int)
    requires
        0 <= b < d.batch,
        0 <= c < d.channels,
        0 <= p < d.plane(),
    ensures
        0 <= d.mask_index(b, c, p) < d.batch * d.channels * d.plane(),
        0 <= b * d.channels + c < d.batch * d.channels,
{
    lemma_flat_index(b, d.batch as int, c, d.channels as int);
    lemma_flat_index(b * d.channels + c, d.batch * d.channels, p, d.plane());
}

proof fn lemma_object_index_bound(d: MaskTargetData, b: int, obj: int)
    requires
        0 <= b < d.batch,
        0 <= obj < d.objects,
    ensures
        0 <= b * d.objects + obj < d.batch * d.objects,
{
    lemma_flat_index(b, d.batch as int, obj, d.objects as int);
}

/// The claiming object of smallest area among objects `0..n` at pixel `p` of
/// image `b`, the first one on ties; `-1` when none of them claims the pixel.
pub open spec fn smallest_claim_below(d: MaskTargetData, b: int, p: int, n: nat) -> int
    decreases n,
{
    if n == 0 {
        -1
    } else {
        let prev = smallest_claim_below(d, b, p, (n - 1) as nat);
        let c = n - 1;
        if d.claims(b, c, p) && (prev == -1 || d.area(b, c) < d.area(b, prev)) {
            c
        } else {
            prev
        }
    }
}

proof fn lemma_smallest_claim_below(d: MaskTargetData, b: int, p: int, n: nat)
    ensures
        ({
            let r = smallest_claim_below(d, b, p, n);
            &&& -1 <= r < n
            &&& r == -1 ==> forall|o: int| 0 <= o < n ==> !#[trigger] d.claims(b, o, p)
            &&& r != -1 ==> d.claims(b, r, p)
            &&& r != -1 ==> forall|o: int|
                0 <= o < n && #[trigger] d.claims(b, o, p) ==> d.area(b, r) <= d.area(b, o) && (o
                    < r ==> d.area(b, o) > d.area(b, r))
        }),
    decreases n,
{
    if n > 0 {
        lemma_smallest_claim_below(d, b, p, (n - 1) as nat);
    }
}

/// Every pixel has at most one class: two class maps that both meet
/// [`MaskTargetData::class_map_entry_ok`] for the same values read are equal, so
/// the class map is a function of the values read from the targets.
pub proof fn law_class_map_is_determined_by_values(
    d: MaskTargetData,
    encoding: SegmentationMaskEncoding,
    first: Seq<u32>,
    second: Seq<u32>,
)
    requires
        d.well_formed(encoding),
        first.len() == d.batch * d.plane(),
        second.len() == d.batch * d.plane(),
        forall|k: int| 0 <= k < first.len() ==> #[trigger] d.class_map_entry_ok(encoding, k, first[k]),
        forall|k: int|
            0 <= k < second.len() ==> #[trigger] d.class_map_entry_ok(encoding, k, second[k]),
    ensures
        first == second,
{
    assert forall|k: int| 0 <= k < first.len() implies first[k] == second[k] by {
        assert(d.class_map_entry_ok(encoding, k, first[k]));
        assert(d.class_map_entry_ok(encoding, k, second[k]));
        let b = k / d.plane();
        let p = k % d.plane();
        if encoding == SegmentationMaskEncoding::PerInstance {
            lemma_smallest_claim_below(d, b, p, d.objects as nat);
            let r = smallest_claim_below(d, b, p, d.objects as nat);
            if r != -1 {
                assert(d.smallest_claim(b, p, r));
            }
        }
    }
    assert(first =~= second);
}

/// Overlap maps paint only valid instances: at pixel `p` of image `b`, with
/// `v` the first mask channel's value there and `obj = max(round(v), 1) - 1`
/// the instance it names, the class is 0 where `v` is not positive, 0 where
/// instance `obj` does not exist, 0 where it is not valid, and the class of
/// instance `obj` otherwise.
pub proof fn law_overlap_pixels_follow_valid_instances(
    d: MaskTargetData,
    out: Seq<u32>,
    b: int,
    p: int,
)
    requires
        d.well_formed(SegmentationMaskEncoding::Overlap),
        out.len() == d.batch * d.plane(),
        forall|k: int|
            0 <= k < out.len() ==> #[trigger] d.class_map_entry_ok(
                SegmentationMaskEncoding::Overlap,
                k,
                out[k],
            ),
        0 <= b < d.batch,
        0 <= p < d.height * d.width,
    ensures
        ({
            let at = (b * d.channels) * (d.height * d.width) + p;
            let r = d.mask_rounded@[at];
            let obj = if r <= 1 {
                0
            } else {
                r - 1
            };
            let v = out[b * (d.height * d.width) + p];
            &&& d.mask_nonpositive@[at] != 0 ==> v == 0
            &&& d.mask_nonpositive@[at] == 0 && obj >= d.objects ==> v == 0
            &&& d.mask_nonpositive@[at] == 0 && obj < d.objects && d.valid_positive@[b * d.objects
                + obj] == 0 ==> v == 0
            &&& d.mask_nonpositive@[at] == 0 && obj < d.objects && d.valid_positive@[b * d.objects
                + obj] != 0 ==> v == d.classes@[b * d.objects + obj]
        }),
{
    let m = d.plane();
    let k = b * m + p;
    lemma_flat_index(b, d.batch as int, p, m);
    lemma_row_major(b, p, m);
    assert(d.class_map_entry_ok(SegmentationMaskEncoding::Overlap, k, out[k]));
    assert(d.mask_index(b, 0, p) == (b * d.channels) * m + p);
}

/// Per-instance maps paint the smallest covering valid object: at pixel `p`
/// of image `b`, where an object covers the pixel when it is not marked
/// invalid and its mask is not `<= 0` there, the class is 0 when no object
/// covers it, and otherwise the class of a covering object whose area is no
/// larger than that of any covering object, and strictly smaller than that of
/// every covering object before it.
pub proof fn law_per_instance_pixels_take_smallest_cover(
    d: MaskTargetData,
    out: Seq<u32>,
    b: int,
    p: int,
)
    requires
        d.well_formed(SegmentationMaskEncoding::PerInstance),
        out.len() == d.batch * d.plane(),
        forall|k: int|
            0 <= k < out.len() ==> #[trigger] d.class_map_entry_ok(
                SegmentationMaskEncoding::PerInstance,
                k,
                out[k],
            ),
        0 <= b < d.batch,
        0 <= p < d.height * d.width,
    ensures
        ({
            let v = out[b * (d.height * d.width) + p];
            let covers = |o: int|
                0 <= o < d.objects && d.valid_nonpositive@[b * d.objects + o] == 0
                    && d.mask_nonpositive@[(b * d.channels + o) * (d.height * d.width) + p] == 0;
            &&& (forall|o: int| !#[trigger] covers(o)) ==> v == 0
            &&& (exists|o: int| #[trigger] covers(o)) ==> exists|o: int|
                #[trigger] covers(o) && v == d.classes@[b * d.objects + o] && forall|o2: int|
                    #[trigger] covers(o2) ==> d.area(b, o) <= d.area(b, o2) && (o2 < o ==> d.area(
                        b,
                        o2,
                    ) > d.area(b, o))
        }),
{
    let m = d.plane();
    let k = b * m + p;
    lemma_flat_index(b, d.batch as int, p, m);
    lemma_row_major(b, p, m);
    assert(d.class_map_entry_ok(SegmentationMaskEncoding::PerInstance, k, out[k]));
    let covers = |o: int|
        0 <= o < d.objects && d.valid_nonpositive@[b * d.objects + o] == 0
            && d.mask_nonpositive@[(b * d.channels + o) * (d.height * d.width) + p] == 0;
    assert forall|o: int| #[trigger] covers(o) == d.claims(b, o, p) by {}
    lemma_smallest_claim_below(d, b, p, d.objects as nat);
    let r = smallest_claim_below(d, b, p, d.objects as nat);
    if r != -1 {
        assert(d.smallest_claim(b, p, r));
        assert(covers(r));
    }
}

/// Saturated positive-pixel area of object `obj` in image `b`.
fn object_area(d: &MaskTargetData, b: usize, obj: usize, encoding: Ghost<SegmentationMaskEncoding>) -> (r: usize)
    requires
        d.well_formed(encoding@),
        encoding@ == SegmentationMaskEncoding::PerInstance,
        b < d.batch,
        obj < d.objects,
    ensures
        r == d.area(b as int, obj as int),
{
    let plane = d.height * d.width;
    proof {
        lemma_flat_index(b as int, d.batch as int, obj as int, d.channels as int);
    }
    let base_row = b * d.channels + obj;
    let mut area: usize = 0;
    let mut p: usize = 0;
    while p < plane
        invariant
            d.well_formed(encoding@),
            encoding@ == SegmentationMaskEncoding::PerInstance,
            b < d.batch,
            obj < d.objects,
            plane == d.plane(),
            base_row == b * d.channels + obj,
            p <= plane,
            area == (if d.positive_count(b as int, obj as int, p as nat) < AREA_CAP {
                d.positive_count(b as int, obj as int, p as nat)
            } else {
                AREA_CAP as nat
            }),
        decreases plane - p,
    {
        proof {
            lemma_mask_index_bound(*d, b as int, obj as int, p as int);
        }
        let at = base_row * plane + p;
        if d.mask_positive[at] != 0 && area < AREA_CAP {
            area = area + 1;
        }
        p = p + 1;
    }
    area
}

/// The smallest-area object claiming pixel `p` of image `b`.
fn smallest_claiming_object(
    d: &MaskTargetData,
    areas: &Vec<usize>,
    b: usize,
    p: usize,
    encoding: Ghost<SegmentationMaskEncoding>,
) -> (r: Option<usize>)
    requires
        d.well_formed(encoding@),
        encoding@ == SegmentationMaskEncoding::PerInstance,
        b < d.batch,
        p < d.plane(),
        areas@.len() == d.objects,
        forall|obj: int| 0 <= obj < d.objects ==> areas@[obj] == d.area(b as int, obj),
    ensures
        r is None ==> forall|obj: int| 0 <= obj < d.objects ==> !#[trigger] d.claims(b as int, obj, p as int),
        r matches Some(o) ==> d.smallest_claim(b as int, p as int, o as int),
{
    let plane = d.height * d.width;
    let mut best: Option<usize> = None;
    let mut obj: usize = 0;
    while obj < d.objects
        invariant
            d.well_formed(encoding@),
            encoding@ == SegmentationMaskEncoding::PerInstance,
            b < d.batch,
            p < d.plane(),
            plane == d.plane(),
            areas@.len() == d.objects,
            forall|o: int| 0 <= o < d.objects ==> areas@[o] == d.area(b as int, o),
            obj <= d.objects,
            best is None ==> forall|o: int| 0 <= o < obj ==> !#[trigger] d.claims(b as int, o, p as int),
            best matches Some(bo) ==> bo < obj && d.claims(b as int, bo as int, p as int) && (
            forall|o: int|
                #![trigger d.claims(b as int, o, p as int)]
                0 <= o < obj && d.claims(b as int, o, p as int) ==> d.area(b as int, bo as int)
                    <= d.area(b as int, o) && (o < bo ==> d.area(b as int, o) > d.area(
                    b as int,
                    bo as int,
                ))),
        decreases d.objects - obj,
    {
        proof {
            lemma_object_index_bound(*d, b as int, obj as int);
            lemma_mask_index_bound(*d, b as int, obj as int, p as int);
        }
        let claims = d.valid_nonpositive[b * d.objects + obj] == 0 && d.mask_nonpositive[(b
            * d.channels + obj) * plane + p] == 0;
        assert(claims == d.claims(b as int, obj as int, p as int));
        if claims {
            match best {
                None => {
                    best = Some(obj);
                },
                Some(bo) => {
                    if areas[obj] < areas[bo] {
                        best = Some(obj);
                    }
                },
            }
        }
        obj = obj + 1;
    }
    if let Some(bo) = best {
        assert forall|o: int| #[trigger] d.claims(b as int, o, p as int) implies d.area(b as int, bo as int)
            <= d.area(b as int, o) && (o < bo ==> d.area(b as int, o) > d.area(b as int, bo as int)) by {
        }
    }
    best
}

/// Builds the per-pixel class map, in row-major `(image, y, x)` order.
///
/// Per-instance masks: a pixel takes the class of the smallest-area valid
/// object whose mask covers it (the first such object on ties), else 0.
/// Overlap maps: a pixel with a positive value `v` takes the class of instance
/// `max(round(v), 1) - 1` when that instance exists and is valid, else 0.
pub fn semantic_class_map(d: &MaskTargetData, encoding: SegmentationMaskEncoding) -> (out: Vec<u32>)
    requires
        d.well_formed(encoding),
    ensures
        out@.len() == d.batch * d.plane(),
        forall|k: int|
            0 <= k < out@.len() ==> #[trigger] d.class_map_entry_ok(encoding, k, out@[k]),
{
    if d.batch == 0 {
        return Vec::new();
    }
    let plane = d.height * d.width;
    let mut out: Vec<u32> = Vec::new();
    let mut b: usize = 0;
    while b < d.batch
        invariant
            d.well_formed(encoding),
            plane == d.plane(),
            b <= d.batch,
            out@.len() == b * plane,
            forall|k: int|
                0 <= k < out@.len() ==> #[trigger] d.class_map_entry_ok(encoding, k, out@[k]),
        decreases d.batch - b,
    {
        let mut areas: Vec<usize> = Vec::new();
        if encoding == SegmentationMaskEncoding::PerInstance {
            let mut obj: usize = 0;
            while obj < d.objects
                invariant
                    d.well_formed(encoding),
                    encoding == SegmentationMaskEncoding::PerInstance,
                    b < d.batch,
                    obj <= d.objects,
                    areas@.len() == obj,
                    forall|o: int| 0 <= o < obj ==> areas@[o] == d.area(b as int, o),
                decreases d.objects - obj,
            {
                let a = object_area(d, b, obj, Ghost(encoding));
                areas.push(a);
                obj = obj + 1;
            }
        }
        proof {
            lemma_next_row(b as int, d.batch as int, plane as int);
        }
        let mut p: usize = 0;
        while p < plane
            invariant
                d.well_formed(encoding),
                plane == d.plane(),
                b < d.batch,
                p <= plane,
                out@.len() == b * plane + p,
                b * plane + plane <= d.batch * plane,
                encoding == SegmentationMaskEncoding::PerInstance ==> areas@.len() == d.objects
                    && forall|o: int| 0 <= o < d.objects ==> areas@[o] == d.area(b as int, o),
                forall|k: int|
                    0 <= k < out@.len() ==> #[trigger] d.class_map_entry_ok(encoding, k, out@[k]),
            decreases plane - p,
        {
            let v: u32 = match encoding {
                SegmentationMaskEncoding::PerInstance => {
                    match smallest_claiming_object(d, &areas, b, p, Ghost(encoding)) {
                        None => 0,
                        Some(o) => {
                            proof {
                                lemma_object_index_bound(*d, b as int, o as int);
                            }
                            d.classes[b * d.objects + o]
                        },
                    }
                },
                SegmentationMaskEncoding::Overlap => {
                    proof {
                        lemma_mask_index_bound(*d, b as int, 0, p as int);
                    }
                    let at = (b * d.channels) * plane + p;
                    if d.mask_nonpositive[at] != 0 {
                        0
                    } else {
                        let r = d.mask_rounded[at];
                        let obj: u64 = if r <= 1 {
                            0
                        } else {
                            (r - 1) as u64
                        };
                        if obj < d.objects as u64 {
                            let o = obj as usize;
                            proof {
                                lemma_object_index_bound(*d, b as int, o as int);
                            }
                            if d.valid_positive[b * d.objects + o] != 0 {
                                d.classes[b * d.objects + o]
                            } else {
                                0
                            }
                        } else {
                            0
                        }
                    }
                },
            };
            proof {
                lemma_row_major(b as int, p as int, plane as int);
                let k = b * plane + p;
                assert(k / (plane as int) == b);
                assert(k % (plane as int) == p);
                if encoding == SegmentationMaskEncoding::PerInstance {
                    assert forall|obj: int| #[trigger] d.smallest_claim(b as int, p as int, obj) implies v
                        == d.classes@[b * d.objects + obj] by {
                        assert(d.claims(b as int, obj, p as int));
                    }
                }
            }
            out.push(v);
            p = p + 1;
        }
        b = b + 1;
    }
    out
}

/// `v` holds the `> 0` flags of `t` as read here: a zero tensor made for `t`,
/// `t > zeros`, flattened, read as `u8`.
pub open spec fn flags_above_zero(t: Tensor, v: Seq<u8>) -> bool {
    exists|z: Tensor, g: Tensor, f: Tensor|
        #![trigger zeros_for(z, t), greater_than_of(g, t, z), read_u8_from(f, v)]
        zeros_for(z, t) && greater_than_of(g, t, z) && flattened_from(f, g) && read_u8_from(f, v)
}

/// `v` holds the `<= 0` flags of `t` as read here: a zero tensor made for `t`,
/// `t <= zeros`, flattened, read as `u8`.
pub open spec fn flags_at_most_zero(t: Tensor, v: Seq<u8>) -> bool {
    exists|z: Tensor, g: Tensor, f: Tensor|
        #![trigger zeros_for(z, t), at_most_of(g, t, z), read_u8_from(f, v)]
        zeros_for(z, t) && at_most_of(g, t, z) && flattened_from(f, g) && read_u8_from(f, v)
}

/// `v` holds class ids as read here: `t` converted to `u32`, flattened, read.
pub open spec fn class_ids_read(t: Tensor, v: Seq<u32>) -> bool {
    exists|a: Tensor, f: Tensor|
        #![trigger converted_from(a, t, ElementType::U32), read_u32_from(f, v)]
        converted_from(a, t, ElementType::U32) && flattened_from(f, a) && read_u32_from(f, v)
}

/// `v` holds rounded values as read here: `t` rounded, converted to `i64`,
/// flattened, read.
pub open spec fn rounded_values_read(t: Tensor, v: Seq<i64>) -> bool {
    exists|q: Tensor, a: Tensor, f: Tensor|
        #![trigger rounded_from(q, t), converted_from(a, q, ElementType::I64), read_i64_from(f, v)]
        rounded_from(q, t) && converted_from(a, q, ElementType::I64) && flattened_from(f, a)
            && read_i64_from(f, v)
}

/// Reads a tensor as a flat `u8` vector of `> 0` flags, one per element.
fn positive_flags(t: &Tensor) -> (r: Result<Vec<u8>, TrainError>)
    ensures
        r matches Ok(v) ==> v@.len() == shape_size(tensor_shape(*t)) as usize,
        r matches Ok(v) ==> flags_above_zero(*t, v@),
        r matches Err(e) ==> e is Tensor,
        cpu_ready(*t) ==> r is Ok,
{
    let zeros = lift(tensor_zeros_like(t))?;
    let flags = lift(tensor_gt(t, &zeros))?;
    let flat = lift(tensor_flatten_all(&flags))?;
    let r = lift(tensor_to_vec1_u8(&flat));
    proof {
        if let Ok(v) = &r {
            assert(zeros_for(zeros, *t) && greater_than_of(flags, *t, zeros) && read_u8_from(flat, v@));
        }
    }
    r
}

/// Reads a tensor as a flat `u8` vector of `<= 0` flags, one per element.
fn nonpositive_flags(t: &Tensor) -> (r: Result<Vec<u8>, TrainError>)
    ensures
        r matches Ok(v) ==> v@.len() == shape_size(tensor_shape(*t)) as usize,
        r matches Ok(v) ==> flags_at_most_zero(*t, v@),
        r matches Err(e) ==> e is Tensor,
        cpu_ready(*t) ==> r is Ok,
{
    let zeros = lift(tensor_zeros_like(t))?;
    let flags = lift(tensor_le(t, &zeros))?;
    let flat = lift(tensor_flatten_all(&flags))?;
    let r = lift(tensor_to_vec1_u8(&flat));
    proof {
        if let Ok(v) = &r {
            assert(zeros_for(zeros, *t) && at_most_of(flags, *t, zeros) && read_u8_from(flat, v@));
        }
    }
    r
}

fn mismatch() -> (e: TrainError)
    ensures
        e matches TrainError::InvalidTensor(m) && m@
            == "segmentation target data does not match its shape"@,
{
    TrainError::InvalidTensor(message("segmentation target data does not match its shape"))
}

/// `d` holds what is read here from segmentation targets: the dimensions of
/// the boxes `[B, N, ..]` and masks `[B, C, H, W, ..]`, the class ids, the `> 0`
/// and `<= 0` flags of the validity values and of the mask values (each taken in
/// single precision), and for overlap maps the rounded mask values.
pub open spec fn mask_data_read(
    detection: DetectionTargets,
    masks: Tensor,
    encoding: SegmentationMaskEncoding,
    d: MaskTargetData,
) -> bool {
    &&& d.batch == tensor_shape(detection.boxes_xyxy)[0]
    &&& d.objects == tensor_shape(detection.boxes_xyxy)[1]
    &&& d.channels == tensor_shape(masks)[1]
    &&& d.height == tensor_shape(masks)[2]
    &&& d.width == tensor_shape(masks)[3]
    &&& class_ids_read(detection.class_ids, d.classes@)
    &&& exists|vf: Tensor|
        #![trigger converted_from(vf, detection.valid, ElementType::F32)]
        converted_from(vf, detection.valid, ElementType::F32) && flags_above_zero(
            vf,
            d.valid_positive@,
        ) && flags_at_most_zero(vf, d.valid_nonpositive@)
    &&& exists|mf: Tensor|
        #![trigger converted_from(mf, masks, ElementType::F32)]
        converted_from(mf, masks, ElementType::F32) && flags_above_zero(mf, d.mask_positive@)
            && flags_at_most_zero(mf, d.mask_nonpositive@) && match encoding {
            SegmentationMaskEncoding::PerInstance => d.mask_rounded@.len() == 0,
            SegmentationMaskEncoding::Overlap => rounded_values_read(mf, d.mask_rounded@),
        }
}

/// `t` was created holding the class map of `d`: one entry per pixel, each the
/// class [`MaskTargetData::class_map_entry_ok`] calls for.
pub open spec fn class_map_tensor(t: Tensor, d: MaskTargetData, encoding: SegmentationMaskEncoding) -> bool {
    exists|out: Seq<u32>|
        #[trigger] created_from_u32s(t, out) && out.len() == d.batch * d.plane() && forall|k: int|
            0 <= k < out.len() ==> #[trigger] d.class_map_entry_ok(encoding, k, out[k])
}

/// The target tensors are CPU tensors of computable element types.
pub open spec fn mask_inputs_on_cpu(detection: DetectionTargets, masks: Tensor) -> bool {
    &&& cpu_ready(detection.class_ids)
    &&& cpu_ready(detection.valid)
    &&& cpu_ready(masks)
}

/// The tensor shapes that `build_segmentation_semantic_masks` accepts: boxes
/// `[B, N, ..]`, masks `[B, C, H, W, ..]`, as many class ids and validity values
/// as `(image, object)` pairs, as many mask values as `B * C * H * W`, sizes that
/// fit in `usize`, and `C == N` per instance or `C >= 1` for overlap maps.
pub open spec fn semantic_mask_shapes_consistent(
    boxes: Seq<usize>,
    classes: Seq<usize>,
    valid: Seq<usize>,
    masks: Seq<usize>,
    encoding: SegmentationMaskEncoding,
) -> bool {
    &&& boxes.len() >= 2
    &&& masks.len() >= 4
    &&& boxes[0] * masks[2] <= usize::MAX
    &&& boxes[0] * (masks[2] * masks[3]) <= usize::MAX
    &&& boxes[0] * boxes[1] <= usize::MAX
    &&& boxes[0] * masks[1] <= usize::MAX
    &&& boxes[0] * masks[1] * (masks[2] * masks[3]) <= usize::MAX
    &&& shape_size(classes) as usize == boxes[0] * boxes[1]
    &&& shape_size(valid) as usize == boxes[0] * boxes[1]
    &&& shape_size(masks) as usize == boxes[0] * masks[1] * (masks[2] * masks[3])
    &&& match encoding {
        SegmentationMaskEncoding::PerInstance => masks[1] == boxes[1],
        SegmentationMaskEncoding::Overlap => masks[1] >= 1,
    }
}

/// Derives the `[batch, H, W]` class map of segmentation targets.
///
/// Masks and validity flags are compared in single precision; the class map is
/// [`semantic_class_map`] of the values read. Shapes outside
/// [`semantic_mask_shapes_consistent`] are rejected with `InvalidTensor`.
pub fn build_segmentation_semantic_masks(
    detection: &DetectionTargets,
    masks: &Tensor,
    mask_encoding: SegmentationMaskEncoding,
) -> (r: Result<Tensor, TrainError>)
    ensures
        tensor_shape(detection.boxes_xyxy).len() < 2 || tensor_shape(*masks).len() < 4 ==> (r matches Err(
            e,
        ) && e is InvalidTensor),
        r matches Err(e) ==> e is InvalidTensor || e is Tensor,
        r matches Err(e) ==> (e is InvalidTensor ==> !semantic_mask_shapes_consistent(
            tensor_shape(detection.boxes_xyxy),
            tensor_shape(detection.class_ids),
            tensor_shape(detection.valid),
            tensor_shape(*masks),
            mask_encoding,
        )),
        r matches Ok(t) ==> semantic_mask_shapes_consistent(
            tensor_shape(detection.boxes_xyxy),
            tensor_shape(detection.class_ids),
            tensor_shape(detection.valid),
            tensor_shape(*masks),
            mask_encoding,
        ),
        r matches Ok(t) ==> tensor_shape(t) == seq![
            tensor_shape(detection.boxes_xyxy)[0],
            tensor_shape(*masks)[2],
            tensor_shape(*masks)[3],
        ],
        r matches Ok(t) ==> exists|d: MaskTargetData|
            #[trigger] mask_data_read(*detection, *masks, mask_encoding, d) && d.well_formed(
                mask_encoding,
            ) && class_map_tensor(t, d, mask_encoding),
        mask_inputs_on_cpu(*detection, *masks) && semantic_mask_shapes_consistent(
            tensor_shape(detection.boxes_xyxy),
            tensor_shape(detection.class_ids),
            tensor_shape(detection.valid),
            tensor_shape(*masks),
            mask_encoding,
        ) ==> r is Ok,
{
    let box_dims = tensor_dims(&detection.boxes_xyxy);
    let mask_dims = tensor_dims(masks);
    if box_dims.len() < 2 || mask_dims.len() < 4 {
        return Err(mismatch());
    }
    let batch = box_dims[0];
    let objects = box_dims[1];
    let channels = mask_dims[1];
    let height = mask_dims[2];
    let width = mask_dims[3];

    let class_u32 = lift(tensor_to_u32(&detection.class_ids))?;
    let class_flat = lift(tensor_flatten_all(&class_u32))?;
    let classes = lift(tensor_to_vec1_u32(&class_flat))?;
    let valid_f32 = lift(tensor_to_f32(&detection.valid))?;
    let valid_positive = positive_flags(&valid_f32)?;
    let valid_nonpositive = nonpositive_flags(&valid_f32)?;
    let mask_f32 = lift(tensor_to_f32(masks))?;
    let mask_positive = positive_flags(&mask_f32)?;
    let mask_nonpositive = nonpositive_flags(&mask_f32)?;
    let mask_rounded = match mask_encoding {
        SegmentationMaskEncoding::Overlap => {
            let rounded = lift(tensor_round(&mask_f32))?;
            let as_int = lift(tensor_to_i64(&rounded))?;
            let flat = lift(tensor_flatten_all(&as_int))?;
            let values = lift(tensor_to_vec1_i64(&flat))?;
            assert(rounded_from(rounded, mask_f32) && converted_from(as_int, rounded, ElementType::I64)
                && read_i64_from(flat, values@));
            values
        },
        SegmentationMaskEncoding::PerInstance => Vec::new(),
    };

    // An empty batch holds no pixels, whatever the mask planes measure.
    let plane: usize = if batch == 0 {
        0
    } else {
        match height.checked_mul(width) {
            Some(v) => v,
            None => {
                proof {
                    lemma_plane_fits(batch as int, height * width);
                }
                return Err(mismatch());
            },
        }
    };
    if batch.checked_mul(height).is_none() {
        return Err(mismatch());
    }
    let pixels = match batch.checked_mul(plane) {
        Some(v) => v,
        None => return Err(mismatch()),
    };
    let pairs = match batch.checked_mul(objects) {
        Some(v) => v,
        None => return Err(mismatch()),
    };
    let mask_len = match batch.checked_mul(channels) {
        Some(bc) => match bc.checked_mul(plane) {
            Some(v) => v,
            None => return Err(mismatch()),
        },
        None => return Err(mismatch()),
    };
    proof {
        if batch == 0 {
            assert(batch * (height * width) == 0 && batch * channels * (height * width) == 0)
                by (nonlinear_arith)
                requires
                    batch == 0,
            ;
        }
        assert(pixels == batch * (height * width));
        assert(mask_len == batch * channels * (height * width));
    }
    if classes.len() != pairs || valid_positive.len() != pairs || valid_nonpositive.len() != pairs
        || mask_positive.len() != mask_len || mask_nonpositive.len() != mask_len {
        return Err(mismatch());
    }
    match mask_encoding {
        SegmentationMaskEncoding::PerInstance => {
            if channels != objects {
                return Err(mismatch());
            }
        },
        SegmentationMaskEncoding::Overlap => {
            if channels < 1 || mask_rounded.len() != mask_len {
                return Err(mismatch());
            }
        },
    }
    let data = MaskTargetData {
        batch,
        objects,
        channels,
        height,
        width,
        classes,
        valid_positive,
        valid_nonpositive,
        mask_positive,
        mask_nonpositive,
        mask_rounded,
    };
    assert(data.well_formed(mask_encoding));
    proof {
        assert(converted_from(class_u32, detection.class_ids, ElementType::U32) && read_u32_from(
            class_flat,
            data.classes@,
        ));
        assert(converted_from(valid_f32, detection.valid, ElementType::F32));
        assert(converted_from(mask_f32, *masks, ElementType::F32));
        assert(mask_data_read(*detection, *masks, mask_encoding, data));
    }
    let semantic = semantic_class_map(&data, mask_encoding);
    let ghost out = semantic@;
    assert(out.len() == batch * (height * width)) by (nonlinear_arith)
        requires
            out.len() == data.batch * data.plane(),
            data.batch == batch,
            data.plane() == height * width,
    ;
    assert(batch * height * width == batch * (height * width)) by (nonlinear_arith);
    assert(batch * height <= usize::MAX);
    let r = lift(tensor_from_vec_u32_3d(semantic, (batch, height, width), masks));
    proof {
        if let Ok(t) = &r {
            assert(created_from_u32s(*t, out));
            assert(class_map_tensor(*t, data, mask_encoding));
        }
    }
    r
}

} // verus!
