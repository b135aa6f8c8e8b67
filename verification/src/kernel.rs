//! Kernel functions between two flat buffers: linear, polynomial and
//! radial-basis.

use vstd::prelude::*;
use crate::arithmetic::{
    dot, is_count, is_difference, is_dot, is_exponential, is_negation, is_power, is_product,
    is_sum, Arithmetic,
};
use crate::error::TensorError;
use crate::tensor::Tensor;

verus! {

/// The kernels that the engine knows. The polynomial kernel has the offset 1
/// and the degree 2, the radial-basis kernel the width parameter 1.
#[derive(Clone, Copy, Debug, PartialEq, Eq, Structural)]
pub enum KernelKind {
    Linear,
    Polynomial,
    Rbf,
}

/// The kernel that a name stands for.
pub open spec fn kernel_named(name: Seq<char>) -> Option<KernelKind> {
    if name == "linear"@ {
        Some(KernelKind::Linear)
    } else if name == "polynomial"@ {
        Some(KernelKind::Polynomial)
    } else if name == "rbf"@ {
        Some(KernelKind::Rbf)
    } else {
        None
    }
}

/// Whether two texts are the same.
fn same_text(left: &str, right: &str) -> (r: bool)
    ensures
        r == (left@ == right@),
{
    let l = left.to_owned();
    let r = right.to_owned();
    l == r
}

impl KernelKind {
    /// The kernel of the given name, if there is one.
    pub fn from_name(name: &str) -> (r: Option<KernelKind>)
        ensures
            r == kernel_named(name@),
    {
        if same_text(name, "linear") {
            Some(KernelKind::Linear)
        } else if same_text(name, "polynomial") {
            Some(KernelKind::Polynomial)
        } else if same_text(name, "rbf") {
            Some(KernelKind::Rbf)
        } else {
            None
        }
    }
}

/// `r` is a value that summing the first `n` squares `(xs[i] - ys[i])^2`, in
/// order of ascending `i` and starting from the scalar for zero, may give.
pub open spec fn is_squared_distance_prefix<T, A: Arithmetic<T>>(
    ops: &A,
    xs: Seq<T>,
    ys: Seq<T>,
    n: nat,
    r: T,
) -> bool
    decreases n,
{
    if n == 0 {
        is_count(ops, 0, r)
    } else {
        exists|acc: T, d: T, q: T|
            {
                &&& is_squared_distance_prefix(ops, xs, ys, (n - 1) as nat, acc)
                &&& #[trigger] is_difference(ops, xs[n - 1], ys[n - 1], d)
                &&& is_product(ops, d, d, q)
                &&& #[trigger] is_sum(ops, acc, q, r)
            }
    }
}

/// One more square extends a partial squared distance by one position.
pub proof fn lemma_squared_distance_step<T, A: Arithmetic<T>>(
    ops: &A,
    xs: Seq<T>,
    ys: Seq<T>,
    n: nat,
    acc: T,
    d: T,
    q: T,
    r: T,
)
    requires
        n < xs.len(),
        n < ys.len(),
        is_squared_distance_prefix(ops, xs, ys, n, acc),
        is_difference(ops, xs[n as int], ys[n as int], d),
        is_product(ops, d, d, q),
        is_sum(ops, acc, q, r),
    ensures
        is_squared_distance_prefix(ops, xs, ys, n + 1, r),
{
    let m: nat = n + 1;
    assert((m - 1) as nat == n);
    assert(is_difference(ops, xs[m - 1], ys[m - 1], d));
}

/// `r` is a value that the squared Euclidean distance of `xs` and `ys` may
/// have.
pub open spec fn is_squared_distance<T, A: Arithmetic<T>>(ops: &A, xs: Seq<T>, ys: Seq<T>, r: T) -> bool {
    xs.len() == ys.len() && is_squared_distance_prefix(ops, xs, ys, xs.len(), r)
}

/// `r` is a value of the polynomial kernel: an inner product plus one,
/// raised to the power two.
pub open spec fn is_polynomial<T, A: Arithmetic<T>>(ops: &A, xs: Seq<T>, ys: Seq<T>, r: T) -> bool {
    exists|d: T, one: T, two: T, base: T|
        {
            &&& is_dot(ops, xs, ys, d)
            &&& is_count(ops, 1, one)
            &&& is_count(ops, 2, two)
            &&& #[trigger] is_sum(ops, d, one, base)
            &&& #[trigger] is_power(ops, base, two, r)
        }
}

/// `r` is a value of the radial-basis kernel: the exponential of the
/// squared distance multiplied by minus one.
pub open spec fn is_radial<T, A: Arithmetic<T>>(ops: &A, xs: Seq<T>, ys: Seq<T>, r: T) -> bool {
    exists|s: T, gamma: T, minus_gamma: T, e: T|
        {
            &&& is_squared_distance(ops, xs, ys, s)
            &&& is_count(ops, 1, gamma)
            &&& #[trigger] is_negation(ops, gamma, minus_gamma)
            &&& #[trigger] is_product(ops, minus_gamma, s, e)
            &&& is_exponential(ops, e, r)
        }
}

/// `r` is a value of the kernel `kind` on `xs` and `ys`.
pub open spec fn is_kernel_value<T, A: Arithmetic<T>>(
    ops: &A,
    kind: KernelKind,
    xs: Seq<T>,
    ys: Seq<T>,
    r: T,
) -> bool {
    match kind {
        KernelKind::Linear => is_dot(ops, xs, ys, r),
        KernelKind::Polynomial => is_polynomial(ops, xs, ys, r),
        KernelKind::Rbf => is_radial(ops, xs, ys, r),
    }
}

/// The squared Euclidean distance of two buffers of one length, accumulated
/// in index order.
fn squared_distance<T, A: Arithmetic<T>>(ops: &A, xs: &Vec<T>, ys: &Vec<T>) -> (r: T)
    requires
        xs@.len() == ys@.len(),
    ensures
        is_squared_distance(ops, xs@, ys@, r),
{
    let mut acc = ops.from_count(0);
    let mut i: usize = 0;
    while i < xs.len()
        invariant
            xs@.len() == ys@.len(),
            i <= xs@.len(),
            is_squared_distance_prefix(ops, xs@, ys@, i as nat, acc),
        decreases xs@.len() - i,
    {
        let d = ops.minus(&xs[i], &ys[i]);
        let q = ops.times(&d, &d);
        let next = ops.plus(&acc, &q);
        proof {
            lemma_squared_distance_step(ops, xs@, ys@, i as nat, acc, d, q, next);
        }
        acc = next;
        i += 1;
    }
    acc
}

/// The value of a kernel on two buffers, which must agree in length.
pub fn evaluate_kernel<T, A: Arithmetic<T>>(kind: KernelKind, xs: &Vec<T>, ys: &Vec<T>, ops: &A) -> (r:
    Result<T, TensorError>)
    ensures
        match r {
            Ok(v) => xs@.len() == ys@.len() && is_kernel_value(ops, kind, xs@, ys@, v),
            Err(e) => {
                &&& xs@.len() != ys@.len()
                &&& e matches TensorError::LengthMismatch { left_len, right_len }
                &&& left_len == xs@.len()
                &&& right_len == ys@.len()
            },
        },
{
    let left_len = xs.len();
    let right_len = ys.len();
    if left_len != right_len {
        return Err(TensorError::LengthMismatch { left_len, right_len });
    }
    match kind {
        KernelKind::Linear => Ok(dot(ops, xs, ys)),
        KernelKind::Polynomial => {
            let d = dot(ops, xs, ys);
            let one = ops.from_count(1);
            let two = ops.from_count(2);
            let base = ops.plus(&d, &one);
            let v = ops.power(&base, &two);
            assert(is_sum(ops, d, one, base) && is_power(ops, base, two, v));
            Ok(v)
        },
        KernelKind::Rbf => {
            let s = squared_distance(ops, xs, ys);
            let gamma = ops.from_count(1);
            let minus_gamma = ops.negate(&gamma);
            let e = ops.times(&minus_gamma, &s);
            let v = ops.exponential(&e);
            assert(is_negation(ops, gamma, minus_gamma) && is_product(ops, minus_gamma, s, e));
            Ok(v)
        },
    }
}

/// The outcome that applying the kernel called `name` to two buffers calls
/// for. The name is looked at first: an unknown name is refused whatever
/// the buffers hold.
pub open spec fn is_kernel_outcome<T, A: Arithmetic<T>>(
    ops: &A,
    name: Seq<char>,
    xs: Seq<T>,
    ys: Seq<T>,
    r: Result<T, TensorError>,
) -> bool {
    match r {
        Ok(v) => {
            &&& kernel_named(name) matches Some(kind)
            &&& xs.len() == ys.len()
            &&& is_kernel_value(ops, kind, xs, ys, v)
        },
        Err(e) => match e {
            TensorError::UnknownKernel { name: given } => kernel_named(name).is_none() && given@
                == name,
            TensorError::LengthMismatch { left_len, right_len } => {
                &&& kernel_named(name).is_some()
                &&& xs.len() != ys.len()
                &&& left_len == xs.len()
                &&& right_len == ys.len()
            },
            _ => false,
        },
    }
}

/// The value of the kernel called `name` on two buffers.
pub fn apply_kernel_to<T, A: Arithmetic<T>>(name: &str, xs: &Vec<T>, ys: &Vec<T>, ops: &A) -> (r:
    Result<T, TensorError>)
    ensures
        is_kernel_outcome(ops, name@, xs@, ys@, r),
{
    match KernelKind::from_name(name) {
        Some(kind) => evaluate_kernel(kind, xs, ys, ops),
        None => Err(TensorError::UnknownKernel { name: name.to_owned() }),
    }
}

/// The value of the kernel called `kernel_type` on the flat buffers of two
/// tensors, which must agree in length but need not agree in shape. The
/// name is looked at first: an unknown name is refused whatever the tensors
/// hold.
pub fn apply_kernel<T, A: Arithmetic<T>>(
    kernel_type: &str,
    tensor_a: &Tensor<T>,
    tensor_b: &Tensor<T>,
    ops: &A,
) -> (r: Result<T, TensorError>)
    ensures
        is_kernel_outcome(ops, kernel_type@, tensor_a.data@, tensor_b.data@, r),
{
    apply_kernel_to(kernel_type, &tensor_a.data, &tensor_b.data, ops)
}

} // verus!
