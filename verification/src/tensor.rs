//! The candle tensor boundary.
//!
//! Tensor contents are opaque here. What the wrappers below state of the
//! tensors they return is what the source fixes from their arguments: the
//! shape ([`tensor_shape`]), element type ([`tensor_element_type`]), device
//! ([`tensor_on_cpu`]) and layout ([`tensor_contiguous`]); when a call succeeds
//! on the CPU; and which call made a tensor from which others (`converted_from`,
//! `greater_than_of`, ...). Contents are not named: candle can change a
//! tensor's contents in place through a shared reference, so they are no
//! function of the tensor. Lists read out of tensors are handed to verified
//! functions that take them as arguments.
use vstd::prelude::*;

use candle_core::{DType, Tensor};

use crate::error::TrainError;

verus! {

#[verifier::external_type_specification]
#[verifier::external_body]
pub struct ExTensor(Tensor);

#[verifier::external_type_specification]
#[verifier::external_body]
pub struct ExCandleError(candle_core::Error);

/// `Clone for Tensor`: `Tensor` is a derived-`Clone` wrapper of one `Arc`, so the
/// clone is another handle to the same tensor.
pub assume_specification[ <candle_core::Tensor as std::clone::Clone>::clone ](t: &candle_core::Tensor) -> (r: candle_core::Tensor)
    ensures
        r == *t,
;

/// The shape of a tensor, as `Tensor::dims` reports it. A tensor keeps its
/// shape for its whole life (candle never reshapes a tensor in place).
pub uninterp spec fn tensor_shape(t: Tensor) -> Seq<usize>;

/// The number of elements of a shape: the product of its dimensions.
pub open spec fn shape_size(s: Seq<usize>) -> nat
    decreases s.len(),
{
    if s.len() == 0 {
        1
    } else {
        shape_size(s.drop_last()) * (s.last() as nat)
    }
}

/// The rank of the broadcast of two shapes: the larger rank.
pub open spec fn broadcast_rank(a: Seq<usize>, b: Seq<usize>) -> int {
    if a.len() >= b.len() {
        a.len() as int
    } else {
        b.len() as int
    }
}

/// The size of `s` at position `i` of a rank-`n` broadcast: shapes are aligned
/// on their last dimension, and a missing leading dimension counts as 1.
pub open spec fn aligned_dim(s: Seq<usize>, n: int, i: int) -> usize {
    let k = i - (n - s.len());
    if 0 <= k {
        s[k]
    } else {
        1
    }
}

/// Two shapes broadcast: at every aligned position the sizes agree or one is 1.
pub open spec fn broadcast_compatible(a: Seq<usize>, b: Seq<usize>) -> bool {
    let n = broadcast_rank(a, b);
    forall|i: int|
        0 <= i < n ==> {
            let x = #[trigger] aligned_dim(a, n, i);
            let y = aligned_dim(b, n, i);
            x == y || x == 1 || y == 1
        }
}

/// The broadcast shape of two compatible shapes: at each aligned position the
/// size that is not 1 (or 1 when both are).
pub open spec fn broadcast_shape(a: Seq<usize>, b: Seq<usize>) -> Seq<usize> {
    let n = broadcast_rank(a, b);
    Seq::new(
        n as nat,
        |i: int|
            if aligned_dim(a, n, i) == 1 {
                aligned_dim(b, n, i)
            } else {
                aligned_dim(a, n, i)
            },
    )
}

/// The sum of the sizes along `dim` of the tensors to concatenate.
pub open spec fn cat_dim_total(parts: Seq<&Tensor>, dim: int) -> int
    decreases parts.len(),
{
    if parts.len() == 0 {
        0
    } else {
        cat_dim_total(parts.drop_last(), dim) + tensor_shape(*parts.last())[dim]
    }
}

/// A shape with the sizes at `d1` and `d2` exchanged.
pub open spec fn swap_dims(s: Seq<usize>, d1: int, d2: int) -> Seq<usize> {
    s.update(d1, s[d2]).update(d2, s[d1])
}

/// The shape of a concatenation along `dim`: the first part's shape with the
/// summed size at `dim` (summed in `usize`, as candle does).
pub open spec fn cat_shape(parts: Seq<&Tensor>, dim: int) -> Seq<usize> {
    tensor_shape(*parts[0]).update(dim, cat_dim_total(parts, dim) as usize)
}

/// Concatenating parts of one shape `w` along `dim` sums to `n * w[dim]`.
pub(crate) proof fn lemma_cat_total_uniform(parts: Seq<&Tensor>, dim: int, w: Seq<usize>)
    requires
        forall|i: int| 0 <= i < parts.len() ==> tensor_shape(*#[trigger] parts[i]) == w,
    ensures
        cat_dim_total(parts, dim) == parts.len() * w[dim],
    decreases parts.len(),
{
    if parts.len() > 0 {
        let init = parts.drop_last();
        assert forall|i: int| 0 <= i < init.len() implies tensor_shape(*#[trigger] init[i]) == w by {
            assert(init[i] == parts[i]);
        }
        lemma_cat_total_uniform(init, dim, w);
        assert(tensor_shape(*parts.last()) == w);
        let n = init.len() as int;
        let x = w[dim] as int;
        assert(n * x + x == (n + 1) * x) by (nonlinear_arith);
    }
}

/// A shape broadcasts with itself to itself.
pub(crate) proof fn lemma_broadcast_self(s: Seq<usize>)
    ensures
        broadcast_compatible(s, s),
        broadcast_shape(s, s) == s,
{
    assert(broadcast_shape(s, s) =~= s);
}

/// Broadcasting `a` again onto the broadcast of `a` and `b`, on either side,
/// changes nothing.
pub(crate) proof fn lemma_broadcast_absorbs(a: Seq<usize>, b: Seq<usize>)
    requires
        broadcast_compatible(a, b),
    ensures
        broadcast_compatible(a, broadcast_shape(a, b)),
        broadcast_shape(a, broadcast_shape(a, b)) == broadcast_shape(a, b),
        broadcast_compatible(broadcast_shape(a, b), a),
        broadcast_shape(broadcast_shape(a, b), a) == broadcast_shape(a, b),
{
    let u = broadcast_shape(a, b);
    let n = broadcast_rank(a, b);
    assert(broadcast_rank(a, u) == n);
    assert(broadcast_rank(u, a) == n);
    assert forall|i: int| 0 <= i < n implies #[trigger] aligned_dim(u, n, i) == u[i] by {}
    assert forall|i: int| 0 <= i < n implies {
        let x = #[trigger] aligned_dim(a, n, i);
        let y = aligned_dim(u, n, i);
        x == y || x == 1 || y == 1
    } by {
        assert(aligned_dim(u, n, i) == u[i]);
    }
    assert forall|i: int| 0 <= i < n implies {
        let x = #[trigger] aligned_dim(u, n, i);
        let y = aligned_dim(a, n, i);
        x == y || x == 1 || y == 1
    } by {
        assert(aligned_dim(u, n, i) == u[i]);
        let y = aligned_dim(b, n, i);
        assert(aligned_dim(a, n, i) == y || aligned_dim(a, n, i) == 1 || y == 1);
    }
    assert(broadcast_shape(a, u) =~= u);
    assert forall|i: int| 0 <= i < n implies broadcast_shape(u, a)[i] == u[i] by {
        assert(aligned_dim(u, n, i) == u[i]);
        let y = aligned_dim(b, n, i);
        assert(aligned_dim(a, n, i) == y || aligned_dim(a, n, i) == 1 || y == 1);
    }
    assert(broadcast_shape(u, a) =~= u);
}

/// The element types of candle tensors, one per `candle_core::DType` variant.
#[derive(Clone, Copy, Debug, PartialEq, Eq, Structural)]
pub enum ElementType {
    U8,
    U32,
    I16,
    I32,
    I64,
    BF16,
    F16,
    F32,
    F64,
    F8E4M3,
    F6E2M3,
    F6E3M2,
    F4,
    F8E8M0,
}

/// The element type of a tensor, as `Tensor::dtype` reports it (fixed for the
/// tensor's life).
pub uninterp spec fn tensor_element_type(t: Tensor) -> ElementType;

/// The tensor lives on the CPU: `Tensor::device` followed by `Device::is_cpu`
/// (fixed for the tensor's life).
pub uninterp spec fn tensor_on_cpu(t: Tensor) -> bool;

/// The tensor's layout is row-major without gaps: `Tensor::is_contiguous`
/// (the layout is fixed for the tensor's life).
pub uninterp spec fn tensor_contiguous(t: Tensor) -> bool;

/// `u` is a tensor that `Tensor::to_dtype` returned for `t` and element type `to`.
pub uninterp spec fn converted_from(u: Tensor, t: Tensor, to: ElementType) -> bool;

/// `u` is a tensor that `Tensor::zeros_like` returned for `t`.
pub uninterp spec fn zeros_for(u: Tensor, t: Tensor) -> bool;

/// `u` is a tensor that `Tensor::gt` returned for `a` and `b`.
pub uninterp spec fn greater_than_of(u: Tensor, a: Tensor, b: Tensor) -> bool;

/// `u` is a tensor that `Tensor::le` returned for `a` and `b`.
pub uninterp spec fn at_most_of(u: Tensor, a: Tensor, b: Tensor) -> bool;

/// `u` is a tensor that `Tensor::round` returned for `t`.
pub uninterp spec fn rounded_from(u: Tensor, t: Tensor) -> bool;

/// `u` is a tensor that `Tensor::flatten_all` returned for `t`.
pub uninterp spec fn flattened_from(u: Tensor, t: Tensor) -> bool;

/// `u` is a tensor that `Tensor::reshape` returned for `t`.
pub uninterp spec fn reshaped_from(u: Tensor, t: Tensor) -> bool;

/// `u` is a tensor that `Tensor::sqr` returned for `t`.
pub uninterp spec fn squared_from(u: Tensor, t: Tensor) -> bool;

/// `u` is a tensor that `Tensor::mean_all` returned for `t`.
pub uninterp spec fn mean_from(u: Tensor, t: Tensor) -> bool;

/// `u` is a tensor that `Tensor::add` returned for `a` and `b`.
pub uninterp spec fn sum_of(u: Tensor, a: Tensor, b: Tensor) -> bool;

/// `v` is a list that `Tensor::to_vec1::<u8>` read from `t`.
pub uninterp spec fn read_u8_from(t: Tensor, v: Seq<u8>) -> bool;

/// `v` is a list that `Tensor::to_vec1::<u32>` read from `t`.
pub uninterp spec fn read_u32_from(t: Tensor, v: Seq<u32>) -> bool;

/// `v` is a list that `Tensor::to_vec1::<i64>` read from `t`.
pub uninterp spec fn read_i64_from(t: Tensor, v: Seq<i64>) -> bool;

/// `u` is a tensor that `tensor_index_select_u32` returned: the entries of `t`
/// at `indices` along `dim`.
pub uninterp spec fn rows_selected_from(u: Tensor, t: Tensor, indices: Seq<u32>, dim: usize) -> bool;

/// `u` is a tensor that `cross_entropy_u32` returned for `logits` and the class
/// ids `targets`.
pub uninterp spec fn cross_entropy_from(u: Tensor, logits: Tensor, targets: Seq<u32>) -> bool;

/// `u` is a tensor that `Tensor::narrow` returned for `t`, `dim`, `start` and `len`.
pub uninterp spec fn narrowed_from(u: Tensor, t: Tensor, dim: usize, start: usize, len: usize) -> bool;

/// `u` is a tensor that `Tensor::squeeze` returned for `t` and `dim`.
pub uninterp spec fn squeezed_from(u: Tensor, t: Tensor, dim: usize) -> bool;

/// `u` is a tensor that `Tensor::transpose` returned for `t`, `dim1` and `dim2`.
pub uninterp spec fn transposed_from(u: Tensor, t: Tensor, dim1: usize, dim2: usize) -> bool;

/// `u` is a tensor that `Tensor::broadcast_add` returned for `a` and `b`.
pub uninterp spec fn broadcast_sum_of(u: Tensor, a: Tensor, b: Tensor) -> bool;

/// `u` is a tensor that `Tensor::broadcast_sub` returned for `a` and `b`.
pub uninterp spec fn broadcast_difference_of(u: Tensor, a: Tensor, b: Tensor) -> bool;

/// `u` is a tensor that `Tensor::broadcast_mul` returned for `a` and `b`.
pub uninterp spec fn broadcast_product_of(u: Tensor, a: Tensor, b: Tensor) -> bool;

/// `u` is a tensor that `Tensor::cat` returned for `parts` and `dim`.
pub uninterp spec fn concatenated_from(u: Tensor, parts: Seq<Tensor>, dim: usize) -> bool;

/// `u` is a tensor that `Tensor::ones_like` returned for `t`.
pub uninterp spec fn ones_for(u: Tensor, t: Tensor) -> bool;

/// `u` is a tensor that `Tensor::maximum` returned for `a` and `b`.
pub uninterp spec fn maximum_of(u: Tensor, a: Tensor, b: Tensor) -> bool;

/// `u` is a tensor that `Tensor::abs` returned for `t`.
pub uninterp spec fn abs_from(u: Tensor, t: Tensor) -> bool;

/// `u` is a tensor that `Tensor::neg` returned for `t`.
pub uninterp spec fn negated_from(u: Tensor, t: Tensor) -> bool;

/// `u` is a tensor that `Tensor::exp` returned for `t`.
pub uninterp spec fn exp_from(u: Tensor, t: Tensor) -> bool;

/// `u` is a tensor that `Tensor::log` returned for `t`.
pub uninterp spec fn log_from(u: Tensor, t: Tensor) -> bool;

/// The tensors behind a list of references.
pub open spec fn tensor_values(parts: Seq<&Tensor>) -> Seq<Tensor> {
    Seq::new(parts.len(), |i: int| *parts[i])
}

/// `u` is a tensor that `Tensor::permute` returned for `t` and `order`.
pub uninterp spec fn permuted_from(u: Tensor, t: Tensor, order: (usize, usize, usize, usize)) -> bool;

/// `u` is a tensor that `candle_nn::loss::cross_entropy` returned for `logits`
/// and the class-id tensor `class_ids`.
pub uninterp spec fn class_cross_entropy_from(u: Tensor, logits: Tensor, class_ids: Tensor) -> bool;

/// `u` is a tensor that `Tensor::sum_all` returned for `t`.
pub uninterp spec fn total_of(u: Tensor, t: Tensor) -> bool;

/// `u` is a tensor that `Tensor::mul` returned for `a` and `b`.
pub uninterp spec fn product_of(u: Tensor, a: Tensor, b: Tensor) -> bool;

/// `u` is a tensor that `Tensor::from_vec` created holding `data`.
pub uninterp spec fn created_from_u32s(u: Tensor, data: Seq<u32>) -> bool;

/// Integer element types.
pub open spec fn int_type(e: ElementType) -> bool {
    e is U8 || e is U32 || e is I16 || e is I32 || e is I64
}

/// A CPU tensor of an integer element type.
pub open spec fn cpu_int_tensor(t: Tensor) -> bool {
    tensor_on_cpu(t) && int_type(tensor_element_type(t))
}

/// Not a non-empty CPU tensor of integers: on integer elements candle's CPU
/// kernels for `exp`, `log`, `neg` and `sqr` stop the program, and its plain
/// integer `+`, `-`, `*` and sums can overflow.
pub open spec fn no_cpu_int_elements(t: Tensor) -> bool {
    !(cpu_int_tensor(t) && shape_size(tensor_shape(t)) != 0)
}

/// Not a non-empty CPU tensor of signed integers: candle's CPU `abs` on them
/// overflows on the smallest value.
pub open spec fn abs_kernel_defined(t: Tensor) -> bool {
    !(tensor_on_cpu(t) && (tensor_element_type(t) is I16 || tensor_element_type(t) is I32
        || tensor_element_type(t) is I64) && shape_size(tensor_shape(t)) != 0)
}

/// Element types that candle's CPU backend computes with (all but the four
/// storage-only small float formats).
pub open spec fn cpu_computable(e: ElementType) -> bool {
    !(e is F6E2M3 || e is F6E3M2 || e is F4 || e is F8E8M0)
}

/// The float element types on which every element-wise CPU operation used here
/// is defined.
pub open spec fn cpu_float(e: ElementType) -> bool {
    e is BF16 || e is F16 || e is F32 || e is F64
}

/// A CPU tensor of a computable element type.
pub open spec fn cpu_ready(t: Tensor) -> bool {
    tensor_on_cpu(t) && cpu_computable(tensor_element_type(t))
}

/// A CPU tensor of a float element type.
pub open spec fn cpu_float_tensor(t: Tensor) -> bool {
    tensor_on_cpu(t) && cpu_float(tensor_element_type(t))
}

/// Two CPU tensors of one shape and one computable element type: what an
/// element-wise comparison or arithmetic needs.
pub open spec fn cpu_pair_ready(a: Tensor, b: Tensor) -> bool {
    &&& cpu_ready(a)
    &&& tensor_on_cpu(b)
    &&& tensor_element_type(a) == tensor_element_type(b)
    &&& tensor_shape(a) == tensor_shape(b)
}

/// Two CPU tensors of one computable element type whose shapes broadcast.
pub open spec fn cpu_broadcast_ready(a: Tensor, b: Tensor) -> bool {
    &&& cpu_ready(a)
    &&& tensor_on_cpu(b)
    &&& tensor_element_type(a) == tensor_element_type(b)
    &&& broadcast_compatible(tensor_shape(a), tensor_shape(b))
}

/// At least two CPU tensors of one shape and one computable element type, `dim`
/// one of their dimensions, and the concatenated size within `usize`.
pub open spec fn cpu_cat_ready(parts: Seq<&Tensor>, dim: usize) -> bool {
    &&& parts.len() >= 2
    &&& dim < tensor_shape(*parts[0]).len()
    &&& cat_dim_total(parts, dim as int) <= usize::MAX
    &&& forall|i: int|
        0 <= i < parts.len() ==> cpu_ready(*#[trigger] parts[i]) && tensor_shape(*parts[i])
            == tensor_shape(*parts[0]) && tensor_element_type(*parts[i]) == tensor_element_type(
            *parts[0],
        )
}

/// `order` lists 0, 1, 2 and 3 once each.
pub open spec fn is_permutation4(order: (usize, usize, usize, usize)) -> bool {
    &&& order.0 < 4 && order.1 < 4 && order.2 < 4 && order.3 < 4
    &&& order.0 != order.1 && order.0 != order.2 && order.0 != order.3
    &&& order.1 != order.2 && order.1 != order.3 && order.2 != order.3
}

/// The shape of a rank-4 tensor with its dimensions in `order`.
pub open spec fn permuted_shape(s: Seq<usize>, order: (usize, usize, usize, usize)) -> Seq<usize> {
    seq![s[order.0 as int], s[order.1 as int], s[order.2 as int], s[order.3 as int]]
}

/// A reshape of a CPU tensor to a shape of `size` elements: candle compares the
/// element counts as `usize` products.
pub open spec fn cpu_reshape_ok(t: Tensor, size: int) -> bool {
    cpu_ready(t) && shape_size(tensor_shape(t)) as usize == size as usize
}

/// What `tensor_index_select_u32` needs to succeed on the CPU: a contiguous
/// source, `dim` one of its dimensions, and every index below its size there.
pub open spec fn index_select_ok(t: Tensor, indices: Seq<u32>, dim: usize) -> bool {
    &&& cpu_ready(t)
    &&& tensor_contiguous(t)
    &&& dim < tensor_shape(t).len()
    &&& forall|i: int| 0 <= i < indices.len() ==> #[trigger] indices[i] < tensor_shape(t)[dim as int]
}

/// The element count of `t` fits in `usize`.
pub open spec fn element_count_fits(t: Tensor) -> bool {
    shape_size(tensor_shape(t)) <= usize::MAX
}

/// CPU logits `[N, 0]`: candle's log-softmax divides by the class count of
/// such logits and stops the program.
pub open spec fn cpu_logits_without_classes(t: Tensor) -> bool {
    &&& tensor_on_cpu(t)
    &&& tensor_shape(t).len() == 2
    &&& tensor_shape(t)[1] == 0
}

/// What `cross_entropy_u32` needs to succeed on the CPU: float logits `[N, C]`
/// with `N, C >= 1`, and `N` class ids below `C`.
pub open spec fn cross_entropy_ok(logits: Tensor, targets: Seq<u32>) -> bool {
    &&& cpu_float_tensor(logits)
    &&& tensor_shape(logits).len() == 2
    &&& tensor_shape(logits)[0] == targets.len()
    &&& tensor_shape(logits)[0] >= 1
    &&& tensor_shape(logits)[1] >= 1
    &&& forall|i: int| 0 <= i < targets.len() ==> #[trigger] targets[i] < tensor_shape(logits)[1]
}

/// A shape with a zero size somewhere has no elements, and broadcasting it
/// keeps a zero size.
pub(crate) proof fn lemma_zero_size_broadcast(a: Seq<usize>, b: Seq<usize>)
    requires
        shape_size(a) == 0,
    ensures
        shape_size(broadcast_shape(a, b)) == 0,
{
    let k = lemma_zero_size_has_zero(a);
    let n = broadcast_rank(a, b);
    let s = broadcast_shape(a, b);
    let i = k + (n - a.len());
    assert(aligned_dim(a, n, i) == 0);
    assert(s[i] == 0);
    lemma_zero_entry_size(s, i);
}

/// Changing one size of a shape without elements keeps it without elements,
/// unless the changed size was its only zero and becomes non-zero.
pub(crate) proof fn lemma_update_keeps_zero(s: Seq<usize>, j: int, v: usize)
    requires
        shape_size(s) == 0,
        0 <= j < s.len(),
        s[j] == 0 ==> v == 0,
    ensures
        shape_size(s.update(j, v)) == 0,
{
    let k = lemma_zero_size_has_zero(s);
    if k == j {
        lemma_zero_entry_size(s.update(j, v), j);
    } else {
        lemma_zero_entry_size(s.update(j, v), k);
    }
}

/// A shape without elements has a zero size somewhere.
pub(crate) proof fn lemma_zero_size_has_zero(s: Seq<usize>) -> (k: int)
    requires
        shape_size(s) == 0,
    ensures
        0 <= k < s.len(),
        s[k] == 0,
    decreases s.len(),
{
    if s.len() == 0 {
        assert(false);
        0
    } else if s.last() == 0 {
        (s.len() - 1) as int
    } else {
        assert(shape_size(s) == shape_size(s.drop_last()) * (s.last() as nat));
        assert(shape_size(s.drop_last()) == 0) by (nonlinear_arith)
            requires
                shape_size(s) == shape_size(s.drop_last()) * (s.last() as nat),
                shape_size(s) == 0,
                s.last() != 0,
        ;
        let k = lemma_zero_size_has_zero(s.drop_last());
        k
    }
}

/// A shape with a zero size somewhere has no elements.
pub(crate) proof fn lemma_zero_entry_size(s: Seq<usize>, i: int)
    requires
        0 <= i < s.len(),
        s[i] == 0,
    ensures
        shape_size(s) == 0,
    decreases s.len(),
{
    assert(shape_size(s) == shape_size(s.drop_last()) * (s.last() as nat));
    if i < s.len() - 1 {
        assert(s.drop_last()[i] == s[i]);
        lemma_zero_entry_size(s.drop_last(), i);
        assert(shape_size(s.drop_last()) == 0);
    } else {
        assert(s.last() == 0);
    }
    let a = shape_size(s.drop_last()) as int;
    let b = s.last() as int;
    assert(a == 0 || b == 0);
    assert(a * b == 0) by (nonlinear_arith)
        requires
            a == 0 || b == 0,
    ;
}

/// Turns a candle result into a library result, keeping the candle error.
pub fn lift<T>(r: Result<T, candle_core::Error>) -> (out: Result<T, TrainError>)
    ensures
        r is Ok <==> out is Ok,
        r matches Ok(v) ==> out matches Ok(w) && w == v,
        out matches Err(e) ==> e is Tensor,
{
    match r {
        Ok(v) => Ok(v),
        Err(e) => Err(TrainError::Tensor(e)),
    }
}

/// `Tensor::dims`: the shape of a tensor, copied into a vector; claimed to be
/// [`tensor_shape`] of the tensor.
#[verifier::external_body]
pub(crate) fn tensor_dims(t: &Tensor) -> (r: Vec<usize>)
    ensures
        r@ == tensor_shape(*t),
{
    t.dims().to_vec()
}

/// `Tensor::dims4`: the shape of a rank-4 tensor; claimed to fail exactly for
/// other ranks.
#[verifier::external_body]
pub(crate) fn tensor_dims4(t: &Tensor) -> (r: Result<(usize, usize, usize, usize), candle_core::Error>)
    ensures
        r is Ok <==> tensor_shape(*t).len() == 4,
        r matches Ok(d) ==> tensor_shape(*t) == seq![d.0, d.1, d.2, d.3],
{
    t.dims4()
}

/// `Tensor::narrow`: the slice `start..start + len` along `dim`. Claimed: an
/// error when `dim` is not a dimension; otherwise (for a range end that fits in
/// `usize`) success exactly when the range lies in the dimension; the result has
/// size `len` at `dim` and the input's other sizes.
#[verifier::external_body]
pub(crate) fn tensor_narrow(t: &Tensor, dim: usize, start: usize, len: usize) -> (r: Result<
    Tensor,
    candle_core::Error,
>)
    ensures
        r matches Ok(u) ==> dim < tensor_shape(*t).len() && tensor_shape(u)
            == tensor_shape(*t).update(dim as int, len),
        dim >= tensor_shape(*t).len() ==> r is Err,
        start + len <= usize::MAX ==> (r is Ok <==> (dim < tensor_shape(*t).len() && start + len
            <= tensor_shape(*t)[dim as int])),
        r matches Ok(u) ==> tensor_element_type(u) == tensor_element_type(*t),
        r matches Ok(u) ==> tensor_on_cpu(u) == tensor_on_cpu(*t),
        r matches Ok(u) ==> narrowed_from(u, *t, dim, start, len),
{
    t.narrow(dim, start, len)
}

/// `Tensor::squeeze`: removes a dimension of size one. Claimed: success exactly
/// when `dim` is a dimension; the dimension is dropped when its size is 1 and
/// the shape kept otherwise.
#[verifier::external_body]
pub(crate) fn tensor_squeeze(t: &Tensor, dim: usize) -> (r: Result<Tensor, candle_core::Error>)
    ensures
        r is Ok <==> dim < tensor_shape(*t).len(),
        r matches Ok(u) ==> tensor_shape(u) == if tensor_shape(*t)[dim as int] == 1 {
            tensor_shape(*t).remove(dim as int)
        } else {
            tensor_shape(*t)
        },
        r matches Ok(u) ==> tensor_element_type(u) == tensor_element_type(*t),
        r matches Ok(u) ==> tensor_on_cpu(u) == tensor_on_cpu(*t),
        r matches Ok(u) ==> squeezed_from(u, *t, dim),
{
    t.squeeze(dim)
}

/// `Tensor::transpose`: swaps two dimensions. Claimed: success exactly when both
/// are dimensions, with their sizes exchanged.
#[verifier::external_body]
pub(crate) fn tensor_transpose(t: &Tensor, dim1: usize, dim2: usize) -> (r: Result<
    Tensor,
    candle_core::Error,
>)
    ensures
        r is Ok <==> (dim1 < tensor_shape(*t).len() && dim2 < tensor_shape(*t).len()),
        r matches Ok(u) ==> tensor_shape(u) == swap_dims(tensor_shape(*t), dim1 as int, dim2 as int),
        r matches Ok(u) ==> tensor_element_type(u) == tensor_element_type(*t),
        r matches Ok(u) ==> tensor_on_cpu(u) == tensor_on_cpu(*t),
        r matches Ok(u) ==> transposed_from(u, *t, dim1, dim2),
{
    t.transpose(dim1, dim2)
}

/// `Tensor::permute` with a four-dimensional order.
#[verifier::external_body]
pub(crate) fn tensor_permute4(t: &Tensor, order: (usize, usize, usize, usize)) -> (r: Result<Tensor, candle_core::Error>)
    ensures
        r matches Ok(u) ==> tensor_shape(u) == permuted_shape(tensor_shape(*t), order),
        r matches Ok(u) ==> tensor_element_type(u) == tensor_element_type(*t),
        r matches Ok(u) ==> tensor_on_cpu(u) == tensor_on_cpu(*t),
        tensor_shape(*t).len() == 4 ==> (is_permutation4(order) ==> r is Ok),
        r matches Ok(u) ==> permuted_from(u, *t, order),
{
    t.permute(order)
}

/// `Tensor::reshape` to a two-dimensional shape. Not called with
/// `rows * cols` beyond `usize`, where candle's element count overflows and
/// stops the program.
#[verifier::external_body]
pub(crate) fn tensor_reshape2(t: &Tensor, rows: usize, cols: usize) -> (r: Result<Tensor, candle_core::Error>)
    requires
        rows * cols <= usize::MAX,
    ensures
        r matches Ok(u) ==> tensor_shape(u) == seq![rows, cols],
        r matches Ok(u) ==> tensor_element_type(u) == tensor_element_type(*t),
        r matches Ok(u) ==> tensor_on_cpu(u) == tensor_on_cpu(*t),
        r matches Ok(u) ==> tensor_contiguous(u),
        r matches Ok(u) ==> reshaped_from(u, *t),
        cpu_reshape_ok(*t, rows * cols) ==> r is Ok,
{
    t.reshape((rows, cols))
}

/// `Tensor::reshape` to a one-dimensional shape.
#[verifier::external_body]
pub(crate) fn tensor_reshape1(t: &Tensor, len: usize) -> (r: Result<Tensor, candle_core::Error>)
    ensures
        r matches Ok(u) ==> tensor_shape(u) == seq![len],
        r matches Ok(u) ==> tensor_element_type(u) == tensor_element_type(*t),
        r matches Ok(u) ==> tensor_on_cpu(u) == tensor_on_cpu(*t),
        r matches Ok(u) ==> tensor_contiguous(u),
        r matches Ok(u) ==> reshaped_from(u, *t),
        cpu_reshape_ok(*t, len as int) ==> r is Ok,
{
    t.reshape((len,))
}

/// `Tensor::broadcast_add`. Claimed: an error for shapes that do not broadcast;
/// on success the broadcast shape, with the element type and device of `a`;
/// success for CPU tensors of one computable element type that broadcast.
#[verifier::external_body]
pub(crate) fn tensor_broadcast_add(a: &Tensor, b: &Tensor) -> (r: Result<Tensor, candle_core::Error>)
    requires
        no_cpu_int_elements(*a),
    ensures
        r matches Ok(u) ==> broadcast_compatible(tensor_shape(*a), tensor_shape(*b))
            && tensor_shape(u) == broadcast_shape(tensor_shape(*a), tensor_shape(*b)),
        !broadcast_compatible(tensor_shape(*a), tensor_shape(*b)) ==> r is Err,
        r matches Ok(u) ==> tensor_element_type(u) == tensor_element_type(*a),
        r matches Ok(u) ==> tensor_on_cpu(u) == tensor_on_cpu(*a),
        cpu_broadcast_ready(*a, *b) ==> r is Ok,
        r matches Ok(u) ==> broadcast_sum_of(u, *a, *b),
{
    a.broadcast_add(b)
}

/// `Tensor::broadcast_sub`. Claimed: an error for shapes that do not broadcast;
/// on success the broadcast shape, with the element type and device of `a`;
/// success for CPU tensors of one computable element type that broadcast.
#[verifier::external_body]
pub(crate) fn tensor_broadcast_sub(a: &Tensor, b: &Tensor) -> (r: Result<Tensor, candle_core::Error>)
    requires
        no_cpu_int_elements(*a),
    ensures
        r matches Ok(u) ==> broadcast_compatible(tensor_shape(*a), tensor_shape(*b))
            && tensor_shape(u) == broadcast_shape(tensor_shape(*a), tensor_shape(*b)),
        !broadcast_compatible(tensor_shape(*a), tensor_shape(*b)) ==> r is Err,
        r matches Ok(u) ==> tensor_element_type(u) == tensor_element_type(*a),
        r matches Ok(u) ==> tensor_on_cpu(u) == tensor_on_cpu(*a),
        cpu_broadcast_ready(*a, *b) ==> r is Ok,
        r matches Ok(u) ==> broadcast_difference_of(u, *a, *b),
{
    a.broadcast_sub(b)
}

/// `Tensor::broadcast_mul`. Claimed: an error for shapes that do not broadcast;
/// on success the broadcast shape, with the element type and device of `a`;
/// success for CPU tensors of one computable element type that broadcast.
#[verifier::external_body]
pub(crate) fn tensor_broadcast_mul(a: &Tensor, b: &Tensor) -> (r: Result<Tensor, candle_core::Error>)
    requires
        no_cpu_int_elements(*a),
    ensures
        r matches Ok(u) ==> broadcast_compatible(tensor_shape(*a), tensor_shape(*b))
            && tensor_shape(u) == broadcast_shape(tensor_shape(*a), tensor_shape(*b)),
        !broadcast_compatible(tensor_shape(*a), tensor_shape(*b)) ==> r is Err,
        r matches Ok(u) ==> tensor_element_type(u) == tensor_element_type(*a),
        r matches Ok(u) ==> tensor_on_cpu(u) == tensor_on_cpu(*a),
        cpu_broadcast_ready(*a, *b) ==> r is Ok,
        r matches Ok(u) ==> broadcast_product_of(u, *a, *b),
{
    a.broadcast_mul(b)
}

/// `Tensor::cat`: concatenation along `dim`. Claimed: an error for no parts; one
/// part comes back as it is; for more, success needs `dim` to be a dimension of
/// the first part, and the result is its shape with the sizes at `dim` summed.
#[verifier::external_body]
pub(crate) fn tensor_cat(parts: &Vec<&Tensor>, dim: usize) -> (r: Result<Tensor, candle_core::Error>)
    ensures
        parts@.len() == 0 ==> r is Err,
        parts@.len() == 1 ==> r is Ok,
        r matches Ok(u) ==> (parts@.len() == 1 ==> u == *parts@[0]),
        r is Ok ==> (parts@.len() >= 2 ==> dim < tensor_shape(*parts@[0]).len()),
        r matches Ok(u) ==> (parts@.len() >= 2 ==> tensor_shape(u) == cat_shape(parts@, dim as int)),
        r matches Ok(u) ==> (parts@.len() >= 1 ==> tensor_element_type(u) == tensor_element_type(
            *parts@[0],
        )),
        r matches Ok(u) ==> (parts@.len() >= 1 ==> tensor_on_cpu(u) == tensor_on_cpu(*parts@[0])),
        cpu_cat_ready(parts@, dim) ==> r is Ok,
        r matches Ok(u) ==> concatenated_from(u, tensor_values(parts@), dim),
{
    Tensor::cat(parts.as_slice(), dim)
}

/// `Tensor::sqr`: element-wise square; claimed to keep the shape. Not called
/// on non-empty CPU integer tensors, where candle's kernel stops the program.
#[verifier::external_body]
pub(crate) fn tensor_sqr(t: &Tensor) -> (r: Result<Tensor, candle_core::Error>)
    requires
        no_cpu_int_elements(*t),
    ensures
        r matches Ok(u) ==> tensor_shape(u) == tensor_shape(*t),
        r matches Ok(u) ==> tensor_element_type(u) == tensor_element_type(*t),
        r matches Ok(u) ==> tensor_on_cpu(u) == tensor_on_cpu(*t),
        r matches Ok(u) ==> squared_from(u, *t),
        cpu_float_tensor(*t) ==> r is Ok,
{
    t.sqr()
}

/// `Tensor::mean_all`: mean over every element; claimed to be a scalar (rank 0).
#[verifier::external_body]
pub(crate) fn tensor_mean_all(t: &Tensor) -> (r: Result<Tensor, candle_core::Error>)
    requires
        no_cpu_int_elements(*t),
    ensures
        r matches Ok(u) ==> tensor_shape(u) == Seq::<usize>::empty(),
        r matches Ok(u) ==> tensor_element_type(u) == tensor_element_type(*t),
        r matches Ok(u) ==> tensor_on_cpu(u) == tensor_on_cpu(*t),
        r matches Ok(u) ==> mean_from(u, *t),
        cpu_float_tensor(*t) ==> r is Ok,
{
    t.mean_all()
}

/// `Tensor::sum_all`: sum over every element; claimed to be a scalar (rank 0).
#[verifier::external_body]
pub(crate) fn tensor_sum_all(t: &Tensor) -> (r: Result<Tensor, candle_core::Error>)
    requires
        no_cpu_int_elements(*t),
    ensures
        r matches Ok(u) ==> tensor_shape(u) == Seq::<usize>::empty(),
        r matches Ok(u) ==> tensor_element_type(u) == tensor_element_type(*t),
        r matches Ok(u) ==> tensor_on_cpu(u) == tensor_on_cpu(*t),
        cpu_float_tensor(*t) ==> r is Ok,
        r matches Ok(u) ==> total_of(u, *t),
{
    t.sum_all()
}

/// `Tensor::add`: element-wise sum of two tensors of one shape. Claimed: an
/// error for different shapes, the common shape on success.
#[verifier::external_body]
pub(crate) fn tensor_add(a: &Tensor, b: &Tensor) -> (r: Result<Tensor, candle_core::Error>)
    requires
        no_cpu_int_elements(*a),
    ensures
        r matches Ok(u) ==> tensor_shape(*a) == tensor_shape(*b) && tensor_shape(u)
            == tensor_shape(*a),
        tensor_shape(*a) != tensor_shape(*b) ==> r is Err,
        r matches Ok(u) ==> tensor_element_type(u) == tensor_element_type(*a),
        r matches Ok(u) ==> tensor_on_cpu(u) == tensor_on_cpu(*a),
        r matches Ok(u) ==> sum_of(u, *a, *b),
        cpu_pair_ready(*a, *b) ==> r is Ok,
{
    a.add(b)
}

/// `Tensor::mul`: element-wise product of two tensors of one shape. Claimed: an
/// error for different shapes, the common shape on success.
#[verifier::external_body]
pub(crate) fn tensor_mul(a: &Tensor, b: &Tensor) -> (r: Result<Tensor, candle_core::Error>)
    requires
        no_cpu_int_elements(*a),
    ensures
        r matches Ok(u) ==> tensor_shape(*a) == tensor_shape(*b) && tensor_shape(u)
            == tensor_shape(*a),
        tensor_shape(*a) != tensor_shape(*b) ==> r is Err,
        r matches Ok(u) ==> tensor_element_type(u) == tensor_element_type(*a),
        r matches Ok(u) ==> tensor_on_cpu(u) == tensor_on_cpu(*a),
        cpu_pair_ready(*a, *b) ==> r is Ok,
        r matches Ok(u) ==> product_of(u, *a, *b),
{
    a.mul(b)
}

/// `Tensor::maximum`: element-wise maximum. Claimed: an error for different
/// shapes, the common shape on success.
#[verifier::external_body]
pub(crate) fn tensor_maximum(a: &Tensor, b: &Tensor) -> (r: Result<Tensor, candle_core::Error>)
    ensures
        r matches Ok(u) ==> tensor_shape(*a) == tensor_shape(*b) && tensor_shape(u)
            == tensor_shape(*a),
        tensor_shape(*a) != tensor_shape(*b) ==> r is Err,
        r matches Ok(u) ==> tensor_element_type(u) == tensor_element_type(*a),
        r matches Ok(u) ==> tensor_on_cpu(u) == tensor_on_cpu(*a),
        cpu_pair_ready(*a, *b) ==> r is Ok,
        r matches Ok(u) ==> maximum_of(u, *a, *b),
{
    a.maximum(b)
}

/// `Tensor::abs`; claimed to keep the shape. Not called on non-empty CPU
/// signed-integer tensors, where the kernel can overflow.
#[verifier::external_body]
pub(crate) fn tensor_abs(t: &Tensor) -> (r: Result<Tensor, candle_core::Error>)
    requires
        abs_kernel_defined(*t),
    ensures
        r matches Ok(u) ==> tensor_shape(u) == tensor_shape(*t),
        r matches Ok(u) ==> tensor_element_type(u) == tensor_element_type(*t),
        r matches Ok(u) ==> tensor_on_cpu(u) == tensor_on_cpu(*t),
        cpu_float_tensor(*t) ==> r is Ok,
        r matches Ok(u) ==> abs_from(u, *t),
{
    t.abs()
}

/// `Tensor::neg`; claimed to keep the shape. Not called on non-empty CPU
/// integer tensors, where candle's kernel stops the program.
#[verifier::external_body]
pub(crate) fn tensor_neg(t: &Tensor) -> (r: Result<Tensor, candle_core::Error>)
    requires
        no_cpu_int_elements(*t),
    ensures
        r matches Ok(u) ==> tensor_shape(u) == tensor_shape(*t),
        r matches Ok(u) ==> tensor_element_type(u) == tensor_element_type(*t),
        r matches Ok(u) ==> tensor_on_cpu(u) == tensor_on_cpu(*t),
        cpu_float_tensor(*t) ==> r is Ok,
        r matches Ok(u) ==> negated_from(u, *t),
{
    t.neg()
}

/// `Tensor::exp`; claimed to keep the shape. Not called on non-empty CPU
/// integer tensors, where candle's kernel stops the program.
#[verifier::external_body]
pub(crate) fn tensor_exp(t: &Tensor) -> (r: Result<Tensor, candle_core::Error>)
    requires
        no_cpu_int_elements(*t),
    ensures
        r matches Ok(u) ==> tensor_shape(u) == tensor_shape(*t),
        r matches Ok(u) ==> tensor_element_type(u) == tensor_element_type(*t),
        r matches Ok(u) ==> tensor_on_cpu(u) == tensor_on_cpu(*t),
        cpu_float_tensor(*t) ==> r is Ok,
        r matches Ok(u) ==> exp_from(u, *t),
{
    t.exp()
}

/// `Tensor::log`; claimed to keep the shape. Not called on non-empty CPU
/// integer tensors, where candle's kernel stops the program.
#[verifier::external_body]
pub(crate) fn tensor_log(t: &Tensor) -> (r: Result<Tensor, candle_core::Error>)
    requires
        no_cpu_int_elements(*t),
    ensures
        r matches Ok(u) ==> tensor_shape(u) == tensor_shape(*t),
        r matches Ok(u) ==> tensor_element_type(u) == tensor_element_type(*t),
        r matches Ok(u) ==> tensor_on_cpu(u) == tensor_on_cpu(*t),
        cpu_float_tensor(*t) ==> r is Ok,
        r matches Ok(u) ==> log_from(u, *t),
{
    t.log()
}

/// `Tensor::ones_like`: a tensor of ones with the shape, dtype and device of `t`;
/// the shape is claimed.
#[verifier::external_body]
pub(crate) fn tensor_ones_like(t: &Tensor) -> (r: Result<Tensor, candle_core::Error>)
    ensures
        r matches Ok(u) ==> tensor_shape(u) == tensor_shape(*t),
        r matches Ok(u) ==> tensor_element_type(u) == tensor_element_type(*t),
        r matches Ok(u) ==> tensor_on_cpu(u) == tensor_on_cpu(*t),
        cpu_float_tensor(*t) ==> r is Ok,
        r matches Ok(u) ==> ones_for(u, *t),
{
    t.ones_like()
}

/// `Tensor::zeros_like`: a tensor of zeros with the shape, dtype and device of `t`;
/// the shape is claimed.
#[verifier::external_body]
pub(crate) fn tensor_zeros_like(t: &Tensor) -> (r: Result<Tensor, candle_core::Error>)
    ensures
        r matches Ok(u) ==> tensor_shape(u) == tensor_shape(*t),
        r matches Ok(u) ==> tensor_element_type(u) == tensor_element_type(*t),
        r matches Ok(u) ==> tensor_on_cpu(u) == tensor_on_cpu(*t),
        r matches Ok(u) ==> zeros_for(u, *t),
        cpu_ready(*t) ==> r is Ok,
{
    t.zeros_like()
}

/// `Tensor::gt`: element-wise `a > b` as a `u8` tensor of ones and zeros.
/// Claimed: an error for different shapes, the common shape on success.
#[verifier::external_body]
pub(crate) fn tensor_gt(a: &Tensor, b: &Tensor) -> (r: Result<Tensor, candle_core::Error>)
    ensures
        r matches Ok(u) ==> tensor_shape(*a) == tensor_shape(*b) && tensor_shape(u)
            == tensor_shape(*a),
        tensor_shape(*a) != tensor_shape(*b) ==> r is Err,
        r matches Ok(u) ==> tensor_element_type(u) == ElementType::U8,
        r matches Ok(u) ==> tensor_on_cpu(u) == tensor_on_cpu(*a),
        r matches Ok(u) ==> greater_than_of(u, *a, *b),
        cpu_pair_ready(*a, *b) ==> r is Ok,
{
    a.gt(b)
}

/// `Tensor::le`: element-wise `a <= b` as a `u8` tensor of ones and zeros.
/// Claimed: an error for different shapes, the common shape on success.
#[verifier::external_body]
pub(crate) fn tensor_le(a: &Tensor, b: &Tensor) -> (r: Result<Tensor, candle_core::Error>)
    ensures
        r matches Ok(u) ==> tensor_shape(*a) == tensor_shape(*b) && tensor_shape(u)
            == tensor_shape(*a),
        tensor_shape(*a) != tensor_shape(*b) ==> r is Err,
        r matches Ok(u) ==> tensor_element_type(u) == ElementType::U8,
        r matches Ok(u) ==> tensor_on_cpu(u) == tensor_on_cpu(*a),
        r matches Ok(u) ==> at_most_of(u, *a, *b),
        cpu_pair_ready(*a, *b) ==> r is Ok,
{
    a.le(b)
}

/// `Tensor::round`: element-wise rounding half away from zero; claimed to keep
/// the shape.
#[verifier::external_body]
pub(crate) fn tensor_round(t: &Tensor) -> (r: Result<Tensor, candle_core::Error>)
    ensures
        r matches Ok(u) ==> tensor_shape(u) == tensor_shape(*t),
        r matches Ok(u) ==> tensor_element_type(u) == tensor_element_type(*t),
        r matches Ok(u) ==> tensor_on_cpu(u) == tensor_on_cpu(*t),
        r matches Ok(u) ==> rounded_from(u, *t),
        cpu_float_tensor(*t) ==> r is Ok,
{
    t.round()
}

/// `Tensor::to_dtype` with `DType::U32`; claimed to keep the shape.
#[verifier::external_body]
pub(crate) fn tensor_to_u32(t: &Tensor) -> (r: Result<Tensor, candle_core::Error>)
    ensures
        r matches Ok(u) ==> tensor_shape(u) == tensor_shape(*t),
        r matches Ok(u) ==> tensor_element_type(u) == ElementType::U32,
        r matches Ok(u) ==> tensor_on_cpu(u) == tensor_on_cpu(*t),
        r matches Ok(u) ==> converted_from(u, *t, ElementType::U32),
        cpu_ready(*t) ==> r is Ok,
{
    t.to_dtype(DType::U32)
}

/// `Tensor::to_dtype` with `DType::F32`; claimed to keep the shape.
#[verifier::external_body]
pub(crate) fn tensor_to_f32(t: &Tensor) -> (r: Result<Tensor, candle_core::Error>)
    ensures
        r matches Ok(u) ==> tensor_shape(u) == tensor_shape(*t),
        r matches Ok(u) ==> tensor_element_type(u) == ElementType::F32,
        r matches Ok(u) ==> tensor_on_cpu(u) == tensor_on_cpu(*t),
        r matches Ok(u) ==> converted_from(u, *t, ElementType::F32),
        cpu_ready(*t) ==> r is Ok,
{
    t.to_dtype(DType::F32)
}

/// `Tensor::to_dtype` with `DType::I64`; claimed to keep the shape.
#[verifier::external_body]
pub(crate) fn tensor_to_i64(t: &Tensor) -> (r: Result<Tensor, candle_core::Error>)
    ensures
        r matches Ok(u) ==> tensor_shape(u) == tensor_shape(*t),
        r matches Ok(u) ==> tensor_element_type(u) == ElementType::I64,
        r matches Ok(u) ==> tensor_on_cpu(u) == tensor_on_cpu(*t),
        r matches Ok(u) ==> converted_from(u, *t, ElementType::I64),
        cpu_ready(*t) ==> r is Ok,
{
    t.to_dtype(DType::I64)
}

/// `Tensor::flatten_all`: the elements as a one-dimensional tensor; claimed to
/// have one dimension, the element count (a `usize` product).
#[verifier::external_body]
pub(crate) fn tensor_flatten_all(t: &Tensor) -> (r: Result<Tensor, candle_core::Error>)
    ensures
        r matches Ok(u) ==> tensor_shape(u) == seq![shape_size(tensor_shape(*t)) as usize],
        r matches Ok(u) ==> tensor_element_type(u) == tensor_element_type(*t),
        r matches Ok(u) ==> tensor_on_cpu(u) == tensor_on_cpu(*t),
        r matches Ok(u) ==> flattened_from(u, *t),
        cpu_ready(*t) ==> r is Ok,
{
    t.flatten_all()
}

/// `Tensor::to_vec1::<u8>`: the elements of a one-dimensional `u8` tensor.
/// Claimed: an error for other ranks; on success one entry per element.
#[verifier::external_body]
pub(crate) fn tensor_to_vec1_u8(t: &Tensor) -> (r: Result<Vec<u8>, candle_core::Error>)
    ensures
        tensor_shape(*t).len() != 1 ==> r is Err,
        r matches Ok(v) ==> tensor_shape(*t).len() == 1 && v@.len() == tensor_shape(*t)[0],
        r matches Ok(v) ==> read_u8_from(*t, v@),
        tensor_shape(*t).len() == 1 ==> (tensor_on_cpu(*t) ==> (tensor_element_type(*t)
            == ElementType::U8 ==> r is Ok)),
{
    t.to_vec1::<u8>()
}

/// `Tensor::to_vec1::<u32>`: the elements of a one-dimensional `u32` tensor.
/// Claimed: an error for other ranks; on success one entry per element.
#[verifier::external_body]
pub(crate) fn tensor_to_vec1_u32(t: &Tensor) -> (r: Result<Vec<u32>, candle_core::Error>)
    ensures
        tensor_shape(*t).len() != 1 ==> r is Err,
        r matches Ok(v) ==> tensor_shape(*t).len() == 1 && v@.len() == tensor_shape(*t)[0],
        r matches Ok(v) ==> read_u32_from(*t, v@),
        tensor_shape(*t).len() == 1 ==> (tensor_on_cpu(*t) ==> (tensor_element_type(*t)
            == ElementType::U32 ==> r is Ok)),
{
    t.to_vec1::<u32>()
}

/// `Tensor::to_vec1::<i64>`: the elements of a one-dimensional `i64` tensor.
/// Claimed: an error for other ranks; on success one entry per element.
#[verifier::external_body]
pub(crate) fn tensor_to_vec1_i64(t: &Tensor) -> (r: Result<Vec<i64>, candle_core::Error>)
    ensures
        tensor_shape(*t).len() != 1 ==> r is Err,
        r matches Ok(v) ==> tensor_shape(*t).len() == 1 && v@.len() == tensor_shape(*t)[0],
        r matches Ok(v) ==> read_i64_from(*t, v@),
        tensor_shape(*t).len() == 1 ==> (tensor_on_cpu(*t) ==> (tensor_element_type(*t)
            == ElementType::I64 ==> r is Ok)),
{
    t.to_vec1::<i64>()
}

/// `Tensor::from_vec`: a `[d0, d1, d2]` tensor of `u32` on the device of `like`;
/// the shape is claimed on success. Not called where `d0 * d1` or
/// `d0 * d1 * d2` goes beyond `usize`, where candle's element count overflows
/// and stops the program.
#[verifier::external_body]
pub(crate) fn tensor_from_vec_u32_3d(data: Vec<u32>, dims: (usize, usize, usize), like: &Tensor) -> (r:
    Result<Tensor, candle_core::Error>)
    requires
        dims.0 * dims.1 <= usize::MAX,
        dims.0 * dims.1 * dims.2 <= usize::MAX,
    ensures
        r matches Ok(u) ==> tensor_shape(u) == seq![dims.0, dims.1, dims.2],
        r matches Ok(u) ==> tensor_element_type(u) == ElementType::U32,
        r matches Ok(u) ==> tensor_on_cpu(u) == tensor_on_cpu(*like),
        r matches Ok(u) ==> created_from_u32s(u, data@),
        dims.0 * dims.1 * dims.2 <= usize::MAX ==> (data@.len() != dims.0 * dims.1 * dims.2
            ==> r is Err),
        dims.0 * dims.1 * dims.2 <= usize::MAX ==> (tensor_on_cpu(*like) ==> (data@.len()
            == dims.0 * dims.1 * dims.2 ==> r is Ok)),
{
    Tensor::from_vec(data, dims, like.device())
}

/// `Tensor::index_select` with the indices given as a list: the list becomes a
/// one-dimensional `u32` tensor (`Tensor::new`) on the device of `t`, whose
/// entries at those indices along `dim` are selected. Claimed on success: the
/// size at `dim` becomes the number of indices, with the element type and
/// device of `t` and a contiguous layout; on the CPU, success whenever the
/// source is contiguous and every index lies inside dimension `dim`.
#[verifier::external_body]
pub(crate) fn tensor_index_select_u32(t: &Tensor, indices: Vec<u32>, dim: usize) -> (r: Result<Tensor, candle_core::Error>)
    ensures
        r matches Ok(u) ==> dim < tensor_shape(*t).len() && tensor_shape(u) == tensor_shape(
            *t,
        ).update(dim as int, indices@.len() as usize),
        r matches Ok(u) ==> tensor_element_type(u) == tensor_element_type(*t),
        r matches Ok(u) ==> tensor_on_cpu(u) == tensor_on_cpu(*t),
        r matches Ok(u) ==> tensor_contiguous(u),
        index_select_ok(*t, indices@, dim) ==> r is Ok,
        r matches Ok(u) ==> rows_selected_from(u, *t, indices@, dim),
{
    let ids = Tensor::new(indices, t.device())?;
    t.index_select(&ids, dim)
}

/// `candle_nn::loss::cross_entropy` of logits against a tensor of class ids.
/// Claimed: an error for logits of rank other than 2, and for class ids that
/// are not one per logits row; a scalar on success. Whether it succeeds
/// otherwise depends on the class ids the tensor holds at the call (candle lets
/// a tensor's contents change in place), which nothing here names. Not called
/// on non-empty CPU integer logits or CPU logits without classes, where
/// candle's kernels stop the program.
#[verifier::external_body]
pub(crate) fn cross_entropy_tensors(logits: &Tensor, class_ids: &Tensor) -> (r: Result<
    Tensor,
    candle_core::Error,
>)
    requires
        no_cpu_int_elements(*logits),
        !cpu_logits_without_classes(*logits),
    ensures
        tensor_shape(*logits).len() != 2 ==> r is Err,
        tensor_shape(*logits).len() == 2 ==> (tensor_shape(*class_ids) != seq![tensor_shape(*logits)[0]]
            ==> r is Err),
        r matches Ok(u) ==> tensor_shape(u) == Seq::<usize>::empty(),
        r matches Ok(u) ==> class_cross_entropy_from(u, *logits, *class_ids),
{
    candle_nn::loss::cross_entropy(logits, class_ids)
}

/// `candle_nn::loss::cross_entropy` with the class ids given as a list: the
/// list becomes a one-dimensional `u32` tensor (`Tensor::new`) on the device of
/// the logits. Claimed: an error for logits of rank other than 2; a scalar on
/// success; on the CPU, success for float logits `[N, C]` with `N, C >= 1` and
/// `N` class ids below `C`. Not called on non-empty CPU integer logits or CPU
/// logits without classes, where candle's kernels stop the program.
#[verifier::external_body]
pub(crate) fn cross_entropy_u32(logits: &Tensor, targets: Vec<u32>) -> (r: Result<Tensor, candle_core::Error>)
    requires
        no_cpu_int_elements(*logits),
        !cpu_logits_without_classes(*logits),
    ensures
        tensor_shape(*logits).len() != 2 ==> r is Err,
        r matches Ok(u) ==> tensor_shape(u) == Seq::<usize>::empty(),
        cross_entropy_ok(*logits, targets@) ==> r is Ok,
        r matches Ok(u) ==> cross_entropy_from(u, *logits, targets@),
{
    let targets = Tensor::new(targets, logits.device())?;
    candle_nn::loss::cross_entropy(logits, &targets)
}

} // verus!
