//! The fuzzy-logic connectives: conjunction, disjunction, complement and
//! implication, each taken element by element.

use vstd::prelude::*;
use crate::arithmetic::{
    is_count, is_difference, is_less, is_maximum, is_norm, is_product, is_scaled, is_tolerance,
    norm_of, scale, tolerance, Arithmetic,
};
use crate::error::TensorError;
use crate::parallel::{par_map, par_zip_with};
use crate::shape::{copy_shape, same_shape};
use crate::tensor::Tensor;

verus! {

/// `r` holds, position by position, a product of the elements of `a` and `b`.
pub open spec fn is_conjunction<T, A: Arithmetic<T>>(ops: &A, a: Seq<T>, b: Seq<T>, r: Seq<T>) -> bool {
    &&& a.len() == b.len()
    &&& r.len() == a.len()
    &&& forall|i: int| 0 <= i < r.len() ==> is_product(ops, a[i], b[i], #[trigger] r[i])
}

/// `r` holds, position by position, a maximum of the elements of `a` and `b`.
pub open spec fn is_pointwise_maximum<T, A: Arithmetic<T>>(
    ops: &A,
    a: Seq<T>,
    b: Seq<T>,
    r: Seq<T>,
) -> bool {
    &&& a.len() == b.len()
    &&& r.len() == a.len()
    &&& forall|i: int| 0 <= i < r.len() ==> is_maximum(ops, a[i], b[i], #[trigger] r[i])
}

/// `r` is what renormalising `m` may give: each element divided by the norm
/// of `m` where that norm exceeds the tolerance, and `m` itself otherwise.
pub open spec fn is_renormalized<T, A: Arithmetic<T>>(ops: &A, m: Seq<T>, r: Seq<T>) -> bool {
    exists|n: T, tol: T, large: bool|
        {
            &&& is_norm(ops, m, n)
            &&& is_tolerance(ops, tol)
            &&& #[trigger] is_less(ops, tol, n, large)
            &&& if large {
                is_scaled(ops, m, n, r)
            } else {
                r == m
            }
        }
}

/// `r` is a disjunction of `a` and `b`: their pointwise maximum,
/// renormalised.
pub open spec fn is_disjunction<T, A: Arithmetic<T>>(ops: &A, a: Seq<T>, b: Seq<T>, r: Seq<T>) -> bool {
    exists|m: Seq<T>| #[trigger] is_pointwise_maximum(ops, a, b, m) && is_renormalized(ops, m, r)
}

/// `r` holds, position by position, a difference of `one` and the element
/// of `a`, where `one` is a scalar for the count 1.
pub open spec fn is_complement<T, A: Arithmetic<T>>(ops: &A, a: Seq<T>, r: Seq<T>) -> bool {
    &&& r.len() == a.len()
    &&& exists|one: T|
        {
            &&& #[trigger] is_count(ops, 1, one)
            &&& forall|i: int| 0 <= i < r.len() ==> is_difference(ops, one, a[i], #[trigger] r[i])
        }
}

/// `r` is a maximum of a difference of `one` and `x`, and `y`.
pub open spec fn is_implied<T, A: Arithmetic<T>>(ops: &A, one: T, x: T, y: T, r: T) -> bool {
    exists|d: T| #[trigger] is_difference(ops, one, x, d) && is_maximum(ops, d, y, r)
}

/// `r` holds, position by position, a maximum of the complement of the
/// element of `a` and the element of `b`.
pub open spec fn is_implication<T, A: Arithmetic<T>>(ops: &A, a: Seq<T>, b: Seq<T>, r: Seq<T>) -> bool {
    &&& a.len() == b.len()
    &&& r.len() == a.len()
    &&& exists|one: T|
        {
            &&& #[trigger] is_count(ops, 1, one)
            &&& forall|i: int| 0 <= i < r.len() ==> is_implied(ops, one, a[i], b[i], #[trigger] r[i])
        }
}

/// The outcome that two operands of the given shapes call for: a result of
/// the shape of the first where the shapes agree, and otherwise the error
/// that carries both shapes.
pub open spec fn agrees_or_reports<T>(
    a: &Tensor<T>,
    b: &Tensor<T>,
    r: Result<Tensor<T>, TensorError>,
) -> bool {
    match r {
        Ok(t) => a.shape@ == b.shape@ && t.shape@ == a.shape@ && t.rank == a.rank && t.wf(),
        Err(e) => a.shape@ != b.shape@ && e.is_shape_mismatch(a.shape@, b.shape@),
    }
}

/// The error for two operands whose shapes differ.
fn shape_mismatch<T>(a: &Tensor<T>, b: &Tensor<T>) -> (e: TensorError)
    ensures
        e.is_shape_mismatch(a.shape@, b.shape@),
{
    TensorError::ShapeMismatch {
        left: copy_shape(a.shape.as_slice()),
        right: copy_shape(b.shape.as_slice()),
    }
}

/// The conjunction of two tensors of one shape: the product of their
/// elements, position by position.
pub fn tensor_and<T: Send + Sync, A: Arithmetic<T> + Sync>(
    tensor_a: &Tensor<T>,
    tensor_b: &Tensor<T>,
    ops: &A,
) -> (r: Result<Tensor<T>, TensorError>)
    requires
        tensor_a.wf(),
        tensor_b.wf(),
    ensures
        agrees_or_reports(tensor_a, tensor_b, r),
        r matches Ok(t) ==> is_conjunction(ops, tensor_a.data@, tensor_b.data@, t.data@),
{
    if !same_shape(tensor_a.shape.as_slice(), tensor_b.shape.as_slice()) {
        return Err(shape_mismatch(tensor_a, tensor_b));
    }
    let f = |x: &T, y: &T| -> (p: T)
        ensures
            is_product(ops, *x, *y, p),
        { ops.times(x, y) };
    let data = par_zip_with(&f, &tensor_a.data, &tensor_b.data);
    Ok(Tensor { shape: copy_shape(tensor_a.shape.as_slice()), data, rank: tensor_a.rank })
}

/// The disjunction of two tensors of one shape: the larger of their
/// elements, position by position, rescaled to unit norm where the norm of
/// those maxima exceeds the tolerance.
pub fn tensor_or<T: Send + Sync, A: Arithmetic<T> + Sync>(
    tensor_a: &Tensor<T>,
    tensor_b: &Tensor<T>,
    ops: &A,
) -> (r: Result<Tensor<T>, TensorError>)
    requires
        tensor_a.wf(),
        tensor_b.wf(),
    ensures
        agrees_or_reports(tensor_a, tensor_b, r),
        r matches Ok(t) ==> is_disjunction(ops, tensor_a.data@, tensor_b.data@, t.data@),
{
    if !same_shape(tensor_a.shape.as_slice(), tensor_b.shape.as_slice()) {
        return Err(shape_mismatch(tensor_a, tensor_b));
    }
    let f = |x: &T, y: &T| -> (m: T)
        ensures
            is_maximum(ops, *x, *y, m),
        { ops.maximum(x, y) };
    let maxima = par_zip_with(&f, &tensor_a.data, &tensor_b.data);
    let n = norm_of(ops, &maxima);
    let tol = tolerance(ops);
    let large = ops.less_than(&tol, &n);
    let ghost m = maxima@;
    let data = if large {
        scale(ops, &maxima, &n)
    } else {
        maxima
    };
    proof {
        assert(is_pointwise_maximum(ops, tensor_a.data@, tensor_b.data@, m));
        assert(is_less(ops, tol, n, large));
        assert(is_renormalized(ops, m, data@));
    }
    Ok(Tensor { shape: copy_shape(tensor_a.shape.as_slice()), data, rank: tensor_a.rank })
}

/// The complement of a tensor: one minus each element.
pub fn tensor_not<T: Send + Sync, A: Arithmetic<T> + Sync>(tensor: &Tensor<T>, ops: &A) -> (r:
    Tensor<T>)
    requires
        tensor.wf(),
    ensures
        r.wf(),
        r.shape@ == tensor.shape@,
        r.rank == tensor.rank,
        is_complement(ops, tensor.data@, r.data@),
{
    let one = ops.from_count(1);
    let unit = &one;
    let f = |x: &T| -> (d: T)
        ensures
            is_difference(ops, *unit, *x, d),
        { ops.minus(unit, x) };
    let data = par_map(&f, &tensor.data);
    assert(is_count(ops, 1, one));
    Tensor { shape: copy_shape(tensor.shape.as_slice()), data, rank: tensor.rank }
}

/// The larger of `one - x` and `y`.
fn implied<T, A: Arithmetic<T>>(ops: &A, one: &T, x: &T, y: &T) -> (m: T)
    ensures
        is_implied(ops, *one, *x, *y, m),
{
    let d = ops.minus(one, x);
    let m = ops.maximum(&d, y);
    assert(is_difference(ops, *one, *x, d));
    m
}

/// The implication between two tensors of one shape: the larger of the
/// complement of the first element and the second, position by position.
pub fn tensor_implies<T: Send + Sync, A: Arithmetic<T> + Sync>(
    tensor_a: &Tensor<T>,
    tensor_b: &Tensor<T>,
    ops: &A,
) -> (r: Result<Tensor<T>, TensorError>)
    requires
        tensor_a.wf(),
        tensor_b.wf(),
    ensures
        agrees_or_reports(tensor_a, tensor_b, r),
        r matches Ok(t) ==> is_implication(ops, tensor_a.data@, tensor_b.data@, t.data@),
{
    if !same_shape(tensor_a.shape.as_slice(), tensor_b.shape.as_slice()) {
        return Err(shape_mismatch(tensor_a, tensor_b));
    }
    let one = ops.from_count(1);
    let unit = &one;
    let f = |x: &T, y: &T| -> (m: T)
        ensures
            is_implied(ops, *unit, *x, *y, m),
        { implied(ops, unit, x, y) };
    let data = par_zip_with(&f, &tensor_a.data, &tensor_b.data);
    assert(is_count(ops, 1, one));
    Ok(Tensor { shape: copy_shape(tensor_a.shape.as_slice()), data, rank: tensor_a.rank })
}

} // verus!
