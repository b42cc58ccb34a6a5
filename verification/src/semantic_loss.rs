//! Semantic segmentation cross entropy with ignored pixels.
use vstd::prelude::*;

use candle_core::Tensor;

use crate::error::{message, TrainError};
use crate::output::{LossTensorComponents, LossTensorReport};
use crate::semantic_masks::class_ids_read;
use crate::tensor::{
    cross_entropy_from, permuted_from, product_of, rows_selected_from, total_of, zeros_for,
    cpu_int_tensor, converted_from, cpu_float_tensor, cpu_ready, cross_entropy_ok, index_select_ok,
    reshaped_from, shape_size, tensor_contiguous, ElementType, cpu_logits_without_classes, element_count_fits, cross_entropy_u32, lift, tensor_shape, tensor_dims, tensor_dims4, tensor_flatten_all, tensor_index_select_u32, tensor_mul,
    tensor_permute4, tensor_reshape1, tensor_reshape2, tensor_sum_all,
    tensor_to_u32, tensor_to_vec1_u32, tensor_zeros_like, read_u32_from,
};

verus! {

/// Class id marking pixels that contribute no loss.
pub const SEMANTIC_IGNORE_CLASS_ID: u32 = 0xffff_ffff;

/// The supervised pixels among the first `n` targets: their indices (as `u32`)
/// and their class ids, in order.
pub open spec fn supervised_prefix(targets: Seq<u32>, n: nat) -> (Seq<u32>, Seq<u32>)
    decreases n,
{
    if n == 0 {
        (Seq::empty(), Seq::empty())
    } else {
        let prev = supervised_prefix(targets, (n - 1) as nat);
        let c = targets[n - 1];
        if c == SEMANTIC_IGNORE_CLASS_ID {
            prev
        } else {
            (prev.0.push((n - 1) as u32), prev.1.push(c))
        }
    }
}

/// Some non-ignored target is not a valid class.
pub open spec fn has_out_of_range_class(targets: Seq<u32>, classes: nat) -> bool {
    exists|i: int|
        0 <= i < targets.len() && #[trigger] targets[i] != SEMANTIC_IGNORE_CLASS_ID && targets[i]
            >= classes
}

/// The supervised indices and classes come in pairs; every index is a
/// position below `n` (as `u32`), and with no out-of-range class every kept
/// class is below `classes`.
proof fn lemma_supervised_prefix(targets: Seq<u32>, n: nat, classes: nat)
    requires
        n <= targets.len(),
    ensures
        supervised_prefix(targets, n).0.len() == supervised_prefix(targets, n).1.len(),
        forall|i: int|
            0 <= i < supervised_prefix(targets, n).0.len() ==> #[trigger] supervised_prefix(
                targets,
                n,
            ).0[i] < targets.len(),
        !has_out_of_range_class(targets, classes) ==> forall|i: int|
            0 <= i < supervised_prefix(targets, n).1.len() ==> #[trigger] supervised_prefix(
                targets,
                n,
            ).1[i] < classes,
    decreases n,
{
    if n > 0 {
        lemma_supervised_prefix(targets, (n - 1) as nat, classes);
        let c = targets[n - 1];
        if c != SEMANTIC_IGNORE_CLASS_ID {
            let j = (n - 1) as int;
            if j <= u32::MAX {
                assert((j as u32) as int == j);
            }
            assert((j as u32) < targets.len());
            if !has_out_of_range_class(targets, classes) {
                assert(!(targets[j] != SEMANTIC_IGNORE_CLASS_ID && targets[j] >= classes));
            }
        }
    }
}

/// `v` holds the class ids of a class map as read here: the map converted to
/// `u32`, reshaped to one row per pixel, then read as [`class_ids_read`] does.
pub open spec fn class_map_ids_read(class_map: Tensor, v: Seq<u32>) -> bool {
    exists|a: Tensor, b: Tensor|
        #![trigger converted_from(a, class_map, ElementType::U32), reshaped_from(b, a)]
        converted_from(a, class_map, ElementType::U32) && reshaped_from(b, a) && class_ids_read(b, v)
}

/// `t` is the loss computed here from flattened logits and the class ids `v`
/// read from the targets: with no supervised pixel, the logits' sum times a
/// zero of its shape; otherwise the cross entropy of the logits' supervised rows
/// against their class ids (both in pixel order, as [`supervised_prefix`]
/// lists them).
pub open spec fn semantic_loss_made(t: Tensor, logits: Tensor, v: Seq<u32>) -> bool {
    let sel = supervised_prefix(v, v.len());
    if sel.0.len() == 0 {
        exists|total: Tensor, zero: Tensor|
            #![trigger total_of(total, logits), zeros_for(zero, total)]
            total_of(total, logits) && zeros_for(zero, total) && product_of(t, total, zero)
    } else {
        exists|rows: Tensor|
            #![trigger rows_selected_from(rows, logits, sel.0, 0usize)]
            rows_selected_from(rows, logits, sel.0, 0usize) && cross_entropy_from(t, rows, sel.1)
    }
}

/// `rows` holds the logits of a `[B, C, H, W]` tensor as one row of `C` per
/// pixel: permuted to `[B, H, W, C]`, then reshaped.
pub open spec fn logit_rows_of(rows: Tensor, logits: Tensor) -> bool {
    exists|p: Tensor|
        #![trigger permuted_from(p, logits, (0usize, 2usize, 3usize, 1usize))]
        permuted_from(p, logits, (0usize, 2usize, 3usize, 1usize)) && reshaped_from(rows, p)
}

/// Flattened logits `[N, C]` (CPU, float, contiguous) and CPU targets of `N`
/// elements: the inputs on which only the class ids can stop the loss.
pub open spec fn semantic_rows_ready(logits: Tensor, targets: Tensor, classes: usize) -> bool {
    &&& cpu_float_tensor(logits)
    &&& tensor_contiguous(logits)
    &&& tensor_shape(logits) == seq![shape_size(tensor_shape(targets)) as usize, classes]
    &&& cpu_ready(targets)
}

/// Splits flattened targets into supervised pixel indices and their classes.
///
/// Fails with `InvalidTensor` when a non-ignored class id is not below `classes`.
pub fn select_supervised_pixels(targets: &Vec<u32>, classes: usize) -> (r: Result<
    (Vec<u32>, Vec<u32>),
    TrainError,
>)
    ensures
        r is Err <==> has_out_of_range_class(targets@, classes as nat),
        r matches Err(e) ==> e is InvalidTensor,
        r matches Ok(sel) ==> sel.0@ == supervised_prefix(targets@, targets@.len()).0 && sel.1@
            == supervised_prefix(targets@, targets@.len()).1,
{
    let mut indices: Vec<u32> = Vec::new();
    let mut kept: Vec<u32> = Vec::new();
    let mut i: usize = 0;
    while i < targets.len()
        invariant
            i <= targets.len(),
            indices@ == supervised_prefix(targets@, i as nat).0,
            kept@ == supervised_prefix(targets@, i as nat).1,
            forall|j: int|
                0 <= j < i ==> !(#[trigger] targets@[j] != SEMANTIC_IGNORE_CLASS_ID && targets@[j]
                    >= classes),
        decreases targets.len() - i,
    {
        let class_id = targets[i];
        if class_id != SEMANTIC_IGNORE_CLASS_ID {
            if class_id as usize >= classes {
                assert(targets@[i as int] != SEMANTIC_IGNORE_CLASS_ID && targets@[i as int]
                    >= classes);
                return Err(
                    TrainError::InvalidTensor(
                        message("semantic class id is outside logits class count"),
                    ),
                );
            }
            indices.push(i as u32);
            kept.push(class_id);
        }
        i = i + 1;
    }
    Ok((indices, kept))
}

/// Cross entropy over the supervised rows of flattened logits `[N, C]`.
///
/// Pixels whose target is [`SEMANTIC_IGNORE_CLASS_ID`] are left out; with no
/// supervised pixel the loss is the logits' sum times zero, which keeps the
/// graph connected.
pub fn semantic_loss_with_ignore(
    flattened_logits: &Tensor,
    flattened_targets: &Tensor,
    classes: usize,
) -> (r: Result<Tensor, TrainError>)
    requires
        !cpu_int_tensor(*flattened_logits),
        cpu_logits_without_classes(*flattened_logits) ==> classes == 0,
    ensures
        r matches Ok(t) ==> tensor_shape(t) == Seq::<usize>::empty(),
        r matches Err(e) ==> e is InvalidTensor || e is Tensor,
        r matches Ok(t) ==> exists|v: Seq<u32>|
            #[trigger] class_ids_read(*flattened_targets, v) && !has_out_of_range_class(
                v,
                classes as nat,
            ) && semantic_loss_made(t, *flattened_logits, v),
        r matches Err(e) ==> (e is InvalidTensor ==> exists|v: Seq<u32>|
            #[trigger] class_ids_read(*flattened_targets, v) && has_out_of_range_class(
                v,
                classes as nat,
            )),
        semantic_rows_ready(*flattened_logits, *flattened_targets, classes) ==> (r is Ok || (r matches Err(
            e,
        ) && e is InvalidTensor)),
{
    let as_u32 = lift(tensor_to_u32(flattened_targets))?;
    let flat = lift(tensor_flatten_all(&as_u32))?;
    let targets = lift(tensor_to_vec1_u32(&flat))?;
    assert(converted_from(as_u32, *flattened_targets, ElementType::U32) && read_u32_from(flat, targets@));
    assert(class_ids_read(*flattened_targets, targets@));
    let (indices, kept) = select_supervised_pixels(&targets, classes)?;
    proof {
        lemma_supervised_prefix(targets@, targets@.len(), classes as nat);
    }
    if indices.len() == 0 {
        let total = lift(tensor_sum_all(flattened_logits))?;
        let zero = lift(tensor_zeros_like(&total))?;
        let r = lift(tensor_mul(&total, &zero));
        proof {
            if let Ok(t) = &r {
                assert(total_of(total, *flattened_logits) && zeros_for(zero, total));
                assert(semantic_loss_made(*t, *flattened_logits, targets@));
            }
        }
        return r;
    }
    proof {
        if semantic_rows_ready(*flattened_logits, *flattened_targets, classes) {
            assert(index_select_ok(*flattened_logits, indices@, 0));
        }
    }
    let ghost sel_indices = indices@;
    let ghost sel_classes = kept@;
    let logits = lift(tensor_index_select_u32(flattened_logits, indices, 0))?;
    proof {
        if semantic_rows_ready(*flattened_logits, *flattened_targets, classes) {
            assert(kept@[0] < classes);
            assert(cross_entropy_ok(logits, kept@));
        }
    }
    let r = lift(cross_entropy_u32(&logits, kept));
    proof {
        if let Ok(t) = &r {
            assert(rows_selected_from(logits, *flattened_logits, sel_indices, 0usize));
            assert(semantic_loss_made(*t, *flattened_logits, targets@));
        }
    }
    r
}

/// The class map of `[B, C, H, W]` logits is `[B, H, W]`, and its pixel count
/// `B * H * W` (and the partial product `B * H`) fits in `usize`.
pub open spec fn semantic_class_map_fits(logits: Seq<usize>, class_map: Seq<usize>) -> bool {
    &&& class_map == seq![logits[0], logits[2], logits[3]]
    &&& logits[0] * logits[2] <= usize::MAX
    &&& logits[0] * logits[2] * logits[3] <= usize::MAX
}

/// Semantic segmentation cross entropy over `[B, C, H, W]` logits.
///
/// Fails with a tensor error when the logits are not of rank 4, and with
/// `InvalidTensor` when the class map is not `[B, H, W]` or a class id is out
/// of range.
pub fn semantic_loss(logits: &Tensor, class_map: &Tensor) -> (r: Result<Tensor, TrainError>)
    requires
        !cpu_int_tensor(*logits),
        element_count_fits(*logits),
    ensures
        tensor_shape(*logits).len() != 4 ==> (r matches Err(e) && e is Tensor),
        tensor_shape(*logits).len() == 4 && !semantic_class_map_fits(
            tensor_shape(*logits),
            tensor_shape(*class_map),
        ) ==> (r matches Err(e) && e is InvalidTensor),
        r matches Ok(t) ==> tensor_shape(t) == Seq::<usize>::empty(),
        r matches Err(e) ==> e is InvalidTensor || e is Tensor,
        r matches Ok(t) ==> exists|rows: Tensor, v: Seq<u32>|
            #![trigger logit_rows_of(rows, *logits), class_map_ids_read(*class_map, v)]
            logit_rows_of(rows, *logits) && class_map_ids_read(*class_map, v)
                && !has_out_of_range_class(v, tensor_shape(*logits)[1] as nat) && semantic_loss_made(
                t,
                rows,
                v,
            ),
        r matches Err(e) ==> (e is InvalidTensor ==> !semantic_class_map_fits(
            tensor_shape(*logits),
            tensor_shape(*class_map),
        ) || exists|v: Seq<u32>|
            #[trigger] class_map_ids_read(*class_map, v) && has_out_of_range_class(
                v,
                tensor_shape(*logits)[1] as nat,
            )),
        tensor_shape(*logits).len() == 4 && semantic_class_map_fits(
            tensor_shape(*logits),
            tensor_shape(*class_map),
        ) && cpu_float_tensor(*logits) && cpu_ready(*class_map) ==> (r is Ok || (r matches Err(
            e,
        ) && e is InvalidTensor)),
{
    let (batch, classes, height, width) = lift(tensor_dims4(logits))?;
    let map_dims = tensor_dims(class_map);
    if map_dims.len() != 3 || map_dims[0] != batch || map_dims[1] != height || map_dims[2]
        != width {
        return Err(
            TrainError::InvalidTensor(message("semantic class_map must have shape [batch, height, width]")),
        );
    }
    assert(map_dims@ =~= seq![batch, height, width]);
    let rows = match batch.checked_mul(height) {
        Some(bh) => match bh.checked_mul(width) {
            Some(v) => v,
            None => return Err(TrainError::InvalidTensor(message("semantic logits are too large"))),
        },
        None => return Err(TrainError::InvalidTensor(message("semantic logits are too large"))),
    };
    let permuted = lift(tensor_permute4(logits, (0, 2, 3, 1)))?;
    proof {
        let ps = tensor_shape(permuted);
        assert(ps == seq![batch, height, width, classes]);
        reveal_with_fuel(shape_size, 5);
        assert(ps.drop_last() =~= seq![batch, height, width]);
        assert(ps.drop_last().drop_last() =~= seq![batch, height]);
        assert(ps.drop_last().drop_last().drop_last() =~= seq![batch]);
        assert(ps.drop_last().drop_last().drop_last().drop_last() =~= Seq::<usize>::empty());
        let x1 = ps.drop_last().drop_last().drop_last();
        assert(x1.drop_last() =~= Seq::<usize>::empty());
        assert(shape_size(x1.drop_last()) == 1);
        assert(x1.last() == batch);
        assert(shape_size(x1) == shape_size(x1.drop_last()) * (x1.last() as nat));
        assert(shape_size(x1) == batch);
        assert(shape_size(ps.drop_last().drop_last()) == batch * height);
        assert(shape_size(ps.drop_last()) == batch * height * width);
        assert(shape_size(ps) == batch * height * width * classes);
        assert(shape_size(ps) == rows * classes);
        let ls = tensor_shape(*logits);
        assert(ls =~= seq![batch, classes, height, width]);
        assert(ls.drop_last() =~= seq![batch, classes, height]);
        assert(ls.drop_last().drop_last() =~= seq![batch, classes]);
        assert(ls.drop_last().drop_last().drop_last() =~= seq![batch]);
        assert(ls.drop_last().drop_last().drop_last().drop_last() =~= Seq::<usize>::empty());
        assert(shape_size(ls) == batch * classes * height * width);
        assert(batch * classes * height * width == batch * height * width * classes)
            by (nonlinear_arith);
    }
    let flattened_logits = lift(tensor_reshape2(&permuted, rows, classes))?;
    let targets_u32 = lift(tensor_to_u32(class_map))?;
    proof {
        let ts = tensor_shape(targets_u32);
        reveal_with_fuel(shape_size, 4);
        assert(ts.drop_last() =~= seq![batch, height]);
        assert(ts.drop_last().drop_last() =~= seq![batch]);
        assert(ts.drop_last().drop_last().drop_last() =~= Seq::<usize>::empty());
        let y1 = ts.drop_last().drop_last();
        assert(y1.drop_last() =~= Seq::<usize>::empty());
        assert(shape_size(y1.drop_last()) == 1);
        assert(shape_size(y1) == shape_size(y1.drop_last()) * (y1.last() as nat));
        assert(shape_size(y1) == batch);
        assert(shape_size(ts.drop_last()) == batch * height);
        assert(shape_size(ts) == rows);
    }
    let flattened_targets = lift(tensor_reshape1(&targets_u32, rows))?;
    proof {
        let fs = tensor_shape(flattened_targets);
        reveal_with_fuel(shape_size, 2);
        assert(fs.drop_last() =~= Seq::<usize>::empty());
        assert(shape_size(fs) == rows);
    }
    let r = semantic_loss_with_ignore(&flattened_logits, &flattened_targets, classes);
    proof {
        assert(permuted_from(permuted, *logits, (0usize, 2usize, 3usize, 1usize)) && reshaped_from(
            flattened_logits,
            permuted,
        ));
        assert(logit_rows_of(flattened_logits, *logits));
        assert(converted_from(targets_u32, *class_map, ElementType::U32) && reshaped_from(
            flattened_targets,
            targets_u32,
        ));
        assert forall|v: Seq<u32>| #[trigger] class_ids_read(flattened_targets, v) implies class_map_ids_read(
            *class_map,
            v,
        ) by {
            assert(converted_from(targets_u32, *class_map, ElementType::U32) && reshaped_from(
                flattened_targets,
                targets_u32,
            ));
        }
    }
    r
}

/// What [`semantic_loss_report`] gives: the errors and success of
/// [`semantic_loss`], and on success its loss as the only component.
pub open spec fn semantic_report_made(
    logits: Tensor,
    class_map: Tensor,
    r: Result<LossTensorReport, TrainError>,
) -> bool {
    let shape = tensor_shape(logits);
    let fits = semantic_class_map_fits(shape, tensor_shape(class_map));
    &&& shape.len() != 4 ==> (r matches Err(e) && e is Tensor)
    &&& shape.len() == 4 && !fits ==> (r matches Err(e) && e is InvalidTensor)
    &&& r matches Ok(report) ==> report.components.only_semantic(report.loss)
    &&& r matches Ok(report) ==> tensor_shape(report.loss) == Seq::<usize>::empty()
    &&& r matches Ok(report) ==> exists|rows: Tensor, v: Seq<u32>|
        #![trigger logit_rows_of(rows, logits), class_map_ids_read(class_map, v)]
        logit_rows_of(rows, logits) && class_map_ids_read(class_map, v) && !has_out_of_range_class(
            v,
            shape[1] as nat,
        ) && semantic_loss_made(report.loss, rows, v)
    &&& r matches Err(e) ==> e is InvalidTensor || e is Tensor
    &&& r matches Err(e) ==> (e is InvalidTensor ==> !fits || exists|v: Seq<u32>|
        #[trigger] class_map_ids_read(class_map, v) && has_out_of_range_class(v, shape[1] as nat))
    &&& shape.len() == 4 && fits && cpu_float_tensor(logits) && cpu_ready(class_map) ==> (r is Ok
        || (r matches Err(e) && e is InvalidTensor))
}

/// The semantic loss as a report whose only component is the semantic loss:
/// the loss, errors and success of [`semantic_loss`].
pub fn semantic_loss_report(logits: &Tensor, class_map: &Tensor) -> (r: Result<
    LossTensorReport,
    TrainError,
>)
    requires
        !cpu_int_tensor(*logits),
        element_count_fits(*logits),
    ensures
        semantic_report_made(*logits, *class_map, r),
{
    let loss = semantic_loss(logits, class_map)?;
    let component = loss.clone();
    Ok(
        LossTensorReport {
            loss,
            components: LossTensorComponents {
                classification_loss: None,
                box_loss: None,
                cls_loss: None,
                dfl_loss: None,
                mask_loss: None,
                pose_loss: None,
                kobj_loss: None,
                angle_loss: None,
                semantic_loss: Some(component),
                smoke_loss: None,
            },
        },
    )
}

/// Nearest source index for resizing `size` positions onto `source_size`:
/// `floor(index * source_size / size)`, capped at the last source position.
pub fn nearest_source_index(index: usize, size: usize, source_size: usize) -> (r: usize)
    requires
        index * source_size <= usize::MAX,
    ensures
        source_size <= 1 || size <= 1 ==> r == 0,
        source_size > 1 && size > 1 ==> r == if (index * source_size) as int / (size as int) < source_size - 1 {
            (index * source_size) as int / (size as int)
        } else {
            (source_size - 1) as int
        },
{
    if source_size <= 1 || size <= 1 {
        return 0;
    }
    let scaled = index * source_size / size;
    if scaled < source_size - 1 {
        scaled
    } else {
        source_size - 1
    }
}

} // verus!
