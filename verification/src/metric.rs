//! Scalar metrics between tensors, and the mean of several tensors.

use vstd::prelude::*;
use crate::arithmetic::{
    dot, is_count, is_dot, is_less, is_norm, is_product, is_quotient, is_scaled, is_sum,
    is_tolerance, norm_of, scale, tolerance, Arithmetic,
};
use crate::error::TensorError;
use crate::shape::{copy_shape, same_shape};
use crate::tensor::Tensor;

verus! {

/// `r` is a cosine of the angle between `xs` and `ys`, given their norms: an
/// inner product of the two divided by a product of the norms.
pub open spec fn is_cosine<T, A: Arithmetic<T>>(
    ops: &A,
    xs: Seq<T>,
    ys: Seq<T>,
    norm_x: T,
    norm_y: T,
    r: T,
) -> bool {
    exists|d: T, m: T|
        {
            &&& is_dot(ops, xs, ys, d)
            &&& is_product(ops, norm_x, norm_y, m)
            &&& #[trigger] is_quotient(ops, d, m, r)
        }
}

/// `r` is a similarity of `xs` and `ys`: zero where they differ in length or
/// where the norm of either is below the tolerance, and their cosine
/// otherwise.
pub open spec fn is_similarity<T, A: Arithmetic<T>>(ops: &A, xs: Seq<T>, ys: Seq<T>, r: T) -> bool {
    if xs.len() != ys.len() {
        is_count(ops, 0, r)
    } else {
        exists|norm_x: T, norm_y: T, tol: T, small_x: bool, small_y: bool|
            {
                &&& is_norm(ops, xs, norm_x)
                &&& is_norm(ops, ys, norm_y)
                &&& is_tolerance(ops, tol)
                &&& #[trigger] is_less(ops, norm_x, tol, small_x)
                &&& #[trigger] is_less(ops, norm_y, tol, small_y)
                &&& if small_x || small_y {
                    is_count(ops, 0, r)
                } else {
                    is_cosine(ops, xs, ys, norm_x, norm_y, r)
                }
            }
    }
}

/// The cosine similarity of two buffers. Never fails: buffers of different
/// lengths, and buffers of which one has a norm below the tolerance, have
/// the similarity zero.
pub fn similarity<T, A: Arithmetic<T>>(ops: &A, xs: &Vec<T>, ys: &Vec<T>) -> (r: T)
    ensures
        is_similarity(ops, xs@, ys@, r),
{
    if xs.len() != ys.len() {
        return ops.from_count(0);
    }
    let d = dot(ops, xs, ys);
    let norm_a = norm_of(ops, xs);
    let norm_b = norm_of(ops, ys);
    let tol = tolerance(ops);
    let small_a = ops.less_than(&norm_a, &tol);
    let small_b = ops.less_than(&norm_b, &tol);
    let r = if small_a || small_b {
        ops.from_count(0)
    } else {
        let m = ops.times(&norm_a, &norm_b);
        let q = ops.divide(&d, &m);
        assert(is_quotient(ops, d, m, q));
        q
    };
    assert(is_less(ops, norm_a, tol, small_a) && is_less(ops, norm_b, tol, small_b));
    r
}

/// The cosine similarity of two tensors, taken over their flat buffers,
/// which need not agree in shape. Never fails: see `similarity`.
pub fn tensor_similarity<T, A: Arithmetic<T>>(tensor_a: &Tensor<T>, tensor_b: &Tensor<T>, ops: &A) -> (r:
    T)
    ensures
        is_similarity(ops, tensor_a.data@, tensor_b.data@, r),
{
    similarity(ops, &tensor_a.data, &tensor_b.data)
}

/// `s` is a value that summing element `i` of the first `n` of `tensors`, in
/// their order and starting from the scalar for zero, may give.
pub open spec fn is_column_sum<T, A: Arithmetic<T>>(
    ops: &A,
    tensors: Seq<Tensor<T>>,
    i: int,
    n: nat,
    s: T,
) -> bool
    decreases n,
{
    if n == 0 {
        is_count(ops, 0, s)
    } else {
        exists|acc: T|
            {
                &&& is_column_sum(ops, tensors, i, (n - 1) as nat, acc)
                &&& #[trigger] is_sum(ops, acc, tensors[n - 1].data@[i], s)
            }
    }
}

/// One more tensor extends a column sum by one term.
pub proof fn lemma_column_step<T, A: Arithmetic<T>>(
    ops: &A,
    tensors: Seq<Tensor<T>>,
    i: int,
    n: nat,
    acc: T,
    s: T,
)
    requires
        n < tensors.len(),
        0 <= i < tensors[n as int].data@.len(),
        is_column_sum(ops, tensors, i, n, acc),
        is_sum(ops, acc, tensors[n as int].data@[i], s),
    ensures
        is_column_sum(ops, tensors, i, n + 1, s),
{
    let m: nat = n + 1;
    assert((m - 1) as nat == n);
    assert(is_sum(ops, acc, tensors[m - 1].data@[i], s));
}

/// `r` holds, position by position, a mean of the elements of `tensors`:
/// their sum in the order of the tensors, divided by a scalar for their
/// number.
pub open spec fn is_mean<T, A: Arithmetic<T>>(ops: &A, tensors: Seq<Tensor<T>>, r: Seq<T>) -> bool {
    &&& tensors.len() > 0
    &&& r.len() == tensors[0].data@.len()
    &&& exists|sums: Seq<T>, count: T|
        {
            &&& sums.len() == r.len()
            &&& forall|i: int|
                0 <= i < sums.len() ==> is_column_sum(ops, tensors, i, tensors.len(), #[trigger] sums[i])
            &&& is_count(ops, tensors.len() as usize, count)
            &&& #[trigger] is_scaled(ops, sums, count, r)
        }
}

/// Tensor `j` is the first whose shape differs from that of the first.
pub open spec fn first_stray<T>(tensors: Seq<Tensor<T>>, j: int) -> bool {
    &&& 0 < j < tensors.len()
    &&& tensors[j].shape@ != tensors[0].shape@
    &&& forall|i: int| 0 < i < j ==> (#[trigger] tensors[i]).shape@ == tensors[0].shape@
}

/// The mean of several tensors of one shape, element by element.
pub fn unify_tensors<T: Send + Sync, A: Arithmetic<T> + Sync>(tensors: &[Tensor<T>], ops: &A) -> (r:
    Result<Tensor<T>, TensorError>)
    requires
        forall|i: int| 0 <= i < tensors@.len() ==> (#[trigger] tensors@[i]).wf(),
    ensures
        match r {
            Ok(t) => {
                &&& tensors@.len() > 0
                &&& forall|i: int|
                    0 <= i < tensors@.len() ==> (#[trigger] tensors@[i]).shape@
                        == tensors@[0].shape@
                &&& t.wf()
                &&& t.shape@ == tensors@[0].shape@
                &&& is_mean(ops, tensors@, t.data@)
            },
            Err(e) => match e {
                TensorError::EmptyInput => tensors@.len() == 0,
                TensorError::ShapeMismatch { left, right } => exists|j: int| #[trigger]
                    first_stray(tensors@, j) && left@ == tensors@[0].shape@ && right@
                        == tensors@[j].shape@,
                _ => false,
            },
        },
{
    let count = tensors.len();
    if count == 0 {
        return Err(TensorError::EmptyInput);
    }
    let first = &tensors[0];
    let mut j: usize = 1;
    while j < count
        invariant
            1 <= j <= count,
            count == tensors@.len(),
            *first == tensors@[0],
            forall|i: int| 0 < i < j ==> (#[trigger] tensors@[i]).shape@ == tensors@[0].shape@,
        decreases count - j,
    {
        if !same_shape(tensors[j].shape.as_slice(), first.shape.as_slice()) {
            assert(first_stray(tensors@, j as int));
            return Err(
                TensorError::ShapeMismatch {
                    left: copy_shape(first.shape.as_slice()),
                    right: copy_shape(tensors[j].shape.as_slice()),
                },
            );
        }
        j += 1;
    }
    let size = first.data.len();
    let mut sums: Vec<T> = Vec::new();
    let mut z: usize = 0;
    while z < size
        invariant
            z <= size,
            sums@.len() == z,
            forall|i: int| 0 <= i < z ==> is_column_sum(ops, tensors@, i, 0, #[trigger] sums@[i]),
        decreases size - z,
    {
        let zero = ops.from_count(0);
        sums.push(zero);
        z += 1;
    }
    let mut t: usize = 0;
    while t < count
        invariant
            t <= count,
            count == tensors@.len(),
            size == tensors@[0].data@.len(),
            sums@.len() == size,
            forall|i: int| 0 <= i < count ==> (#[trigger] tensors@[i]).wf(),
            forall|i: int| 0 <= i < count ==> (#[trigger] tensors@[i]).shape@ == tensors@[0].shape@,
            forall|i: int|
                0 <= i < size ==> is_column_sum(ops, tensors@, i, t as nat, #[trigger] sums@[i]),
        decreases count - t,
    {
        let tensor = &tensors[t];
        assert(tensors@[t as int].wf() && tensors@[0].wf());
        assert(tensors@[t as int].shape@ == tensors@[0].shape@);
        let mut i: usize = 0;
        while i < size
            invariant
                i <= size,
                t < count,
                count == tensors@.len(),
                *tensor == tensors@[t as int],
                tensor.data@.len() == size,
                sums@.len() == size,
                forall|k: int|
                    0 <= k < i ==> is_column_sum(
                        ops,
                        tensors@,
                        k,
                        (t + 1) as nat,
                        #[trigger] sums@[k],
                    ),
                forall|k: int|
                    i <= k < size ==> is_column_sum(ops, tensors@, k, t as nat, #[trigger] sums@[k]),
            decreases size - i,
        {
            let s = ops.plus(&sums[i], &tensor.data[i]);
            proof {
                lemma_column_step(ops, tensors@, i as int, t as nat, sums@[i as int], s);
            }
            sums.set(i, s);
            i += 1;
        }
        t += 1;
    }
    let divisor = ops.from_count(count);
    let data = scale(ops, &sums, &divisor);
    proof {
        assert(is_count(ops, tensors@.len() as usize, divisor));
        assert(is_scaled(ops, sums@, divisor, data@));
    }
    Ok(Tensor { shape: copy_shape(first.shape.as_slice()), data, rank: first.rank })
}

} // verus!
