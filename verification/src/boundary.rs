//! The boundary adapter: tensors on their way between the engine and a
//! foreign caller.
//!
//! A tensor crosses the boundary as a `CTensor`: its two buffers, either of
//! which a foreign caller may have left out, and the rank it claims. Every
//! crossing is a move. The engine that hands a tensor out keeps nothing of
//! it, and the engine that takes one in owns its buffers from then on. A
//! caller that holds a `CTensor` releases it exactly once, through
//! `tensor_free`; nothing here can tell whether it did.

use vstd::prelude::*;
use crate::arithmetic::{is_count, Arithmetic};
use crate::error::TensorError;
use crate::ffi::FFIError;
use crate::kernel::{apply_kernel_to, is_kernel_value, kernel_named};
use crate::logic::{
    is_complement, is_conjunction, is_disjunction, is_implication, tensor_and, tensor_implies,
    tensor_not, tensor_or,
};
use crate::metric::{is_similarity, similarity};
use crate::shape::{checked_size, shape_size};
use crate::tensor::Tensor;

verus! {

/// A tensor as a foreign caller sees it. An absent buffer stands for a null
/// pointer.
pub struct CTensor<T> {
    pub shape: Option<Vec<usize>>,
    pub data: Option<Vec<T>>,
    pub rank: usize,
}

impl<T> CTensor<T> {
    /// Why the engine cannot adopt this value, if it cannot: a buffer is
    /// absent, the rank is not the number of axes, the shape describes more
    /// elements than can be counted, or the number of elements is not the
    /// one that the shape describes. The checks are made in this order.
    pub open spec fn refusal(self) -> Option<TensorError> {
        match (self.shape, self.data) {
            (Some(shape), Some(data)) => {
                if self.rank != shape@.len() {
                    Some(
                        TensorError::LengthMismatch {
                            left_len: self.rank,
                            right_len: shape@.len() as usize,
                        },
                    )
                } else if shape_size(shape@) > usize::MAX {
                    Some(TensorError::CapacityOverflow)
                } else if data@.len() != shape_size(shape@) {
                    Some(
                        TensorError::LengthMismatch {
                            left_len: data@.len() as usize,
                            right_len: shape_size(shape@) as usize,
                        },
                    )
                } else {
                    None
                }
            },
            _ => Some(TensorError::NullArgument),
        }
    }

    /// The tensor that this value holds, where both buffers are present.
    pub open spec fn tensor(self) -> Tensor<T> {
        Tensor { shape: self.shape.unwrap(), data: self.data.unwrap(), rank: self.rank }
    }

    /// The value that hands `tensor` to a foreign caller.
    pub open spec fn of(tensor: Tensor<T>) -> CTensor<T> {
        CTensor { shape: Some(tensor.shape), data: Some(tensor.data), rank: tensor.rank }
    }

    /// Hands a tensor to the foreign caller. The buffers are moved, not
    /// copied, and the engine keeps nothing of them.
    pub fn from_tensor(tensor: Tensor<T>) -> (c: Self)
        ensures
            c == Self::of(tensor),
    {
        CTensor { shape: Some(tensor.shape), data: Some(tensor.data), rank: tensor.rank }
    }

    /// Adopts the buffers of a foreign caller as a tensor of the engine.
    /// Both buffers are checked for presence before either is read.
    pub fn to_tensor(self) -> (r: Result<Tensor<T>, TensorError>)
        ensures
            match self.refusal() {
                Some(e) => r == Err::<Tensor<T>, TensorError>(e),
                None => r == Ok::<Tensor<T>, TensorError>(self.tensor()) && self.tensor().wf(),
            },
    {
        let shape = match self.shape {
            Some(shape) => shape,
            None => {
                return Err(TensorError::NullArgument);
            },
        };
        let data = match self.data {
            Some(data) => data,
            None => {
                return Err(TensorError::NullArgument);
            },
        };
        let axes = shape.len();
        if self.rank != axes {
            return Err(TensorError::LengthMismatch { left_len: self.rank, right_len: axes });
        }
        let expected = match checked_size(shape.as_slice()) {
            Some(n) => n,
            None => {
                return Err(TensorError::CapacityOverflow);
            },
        };
        let held = data.len();
        if held != expected {
            return Err(TensorError::LengthMismatch { left_len: held, right_len: expected });
        }
        Ok(Tensor { shape, data, rank: self.rank })
    }

    /// A tensor that crosses the boundary and comes back is the tensor that
    /// went out.
    pub proof fn lemma_round_trip(tensor: Tensor<T>)
        requires
            tensor.wf(),
        ensures
            Self::of(tensor).refusal().is_none(),
            Self::of(tensor).tensor() == tensor,
    {
        vstd::std_specs::vec::axiom_spec_len(&tensor.data);
    }
}

/// The class under which an error is reported to a foreign caller: an
/// absent argument as a null pointer, a result too large to count as a
/// failed allocation, everything else as an invalid argument.
pub open spec fn status_class(e: TensorError) -> FFIError {
    match e {
        TensorError::NullArgument => FFIError::NullPointer,
        TensorError::CapacityOverflow => FFIError::MemoryAllocation,
        _ => FFIError::InvalidArgument,
    }
}

/// The class under which an error is reported to a foreign caller.
pub fn status_of(e: &TensorError) -> (s: FFIError)
    ensures
        s == status_class(*e),
        s != FFIError::Success,
{
    match e {
        TensorError::NullArgument => FFIError::NullPointer,
        TensorError::CapacityOverflow => FFIError::MemoryAllocation,
        _ => FFIError::InvalidArgument,
    }
}

/// What a call across the boundary hands back for `r`: the status zero and
/// the tensor where there is one, and otherwise the code of the error's
/// class and nothing else.
pub open spec fn delivered<T>(r: Result<Tensor<T>, TensorError>) -> (i32, Option<CTensor<T>>) {
    match r {
        Ok(t) => (0i32, Some(CTensor::of(t))),
        Err(e) => (status_class(e).code_spec() as i32, None),
    }
}

/// Turns the outcome of an operation into a status and an output. The
/// output is there exactly where the status is zero.
fn deliver<T>(r: Result<Tensor<T>, TensorError>) -> (out: (i32, Option<CTensor<T>>))
    ensures
        out == delivered(r),
        out.0 == 0 <==> out.1.is_some(),
        out.0 <= 0,
        match r {
            Ok(t) => t.wf() ==> CTensor::of(t).refusal().is_none() && CTensor::of(t).tensor() == t,
            Err(_) => true,
        },
{
    proof {
        if r is Ok && r->Ok_0.wf() {
            CTensor::lemma_round_trip(r->Ok_0);
        }
    }
    match r {
        Ok(t) => (0, Some(CTensor::from_tensor(t))),
        Err(e) => (status_of(&e).code(), None),
    }
}

/// The error that keeps a binary operation from starting, if there is one:
/// an absent operand or output slot, or an operand that cannot be adopted.
/// Presence is checked of all three before either operand is read.
pub open spec fn pair_refusal<T>(a: Option<CTensor<T>>, b: Option<CTensor<T>>, has_result: bool) -> Option<
    TensorError,
> {
    match (a, b) {
        (Some(x), Some(y)) => {
            if !has_result {
                Some(TensorError::NullArgument)
            } else if x.refusal().is_some() {
                x.refusal()
            } else {
                y.refusal()
            }
        },
        _ => Some(TensorError::NullArgument),
    }
}

/// Adopts the two operands of a binary operation.
fn adopt_pair<T>(a: Option<CTensor<T>>, b: Option<CTensor<T>>, has_result: bool) -> (r: Result<
    (Tensor<T>, Tensor<T>),
    TensorError,
>)
    ensures
        match pair_refusal(a, b, has_result) {
            Some(e) => r == Err::<(Tensor<T>, Tensor<T>), TensorError>(e),
            None => r == Ok::<(Tensor<T>, Tensor<T>), TensorError>(
                (a.unwrap().tensor(), b.unwrap().tensor()),
            ) && a.unwrap().tensor().wf() && b.unwrap().tensor().wf(),
        },
{
    let x = match a {
        Some(x) => x,
        None => {
            return Err(TensorError::NullArgument);
        },
    };
    let y = match b {
        Some(y) => y,
        None => {
            return Err(TensorError::NullArgument);
        },
    };
    if !has_result {
        return Err(TensorError::NullArgument);
    }
    let left = match x.to_tensor() {
        Ok(t) => t,
        Err(e) => {
            return Err(e);
        },
    };
    let right = match y.to_tensor() {
        Ok(t) => t,
        Err(e) => {
            return Err(e);
        },
    };
    Ok((left, right))
}

/// Builds a tensor from the buffers of a foreign caller and hands it back
/// across the boundary.
pub fn tensor_create<T>(shape: Option<Vec<usize>>, data: Option<Vec<T>>) -> (r: Result<
    CTensor<T>,
    TensorError,
>)
    ensures
        ({
            let given = CTensor { shape, data, rank: shape.unwrap()@.len() as usize };
            match r {
                Ok(c) => shape.is_some() && data.is_some() && given.refusal().is_none() && c
                    == given,
                Err(e) => if shape.is_none() || data.is_none() {
                    e == TensorError::NullArgument
                } else {
                    given.refusal() == Some(e)
                },
            }
        }),
{
    let shape = match shape {
        Some(shape) => shape,
        None => {
            return Err(TensorError::NullArgument);
        },
    };
    if data.is_none() {
        return Err(TensorError::NullArgument);
    }
    let rank = shape.len();
    let given = CTensor { shape: Some(shape), data, rank };
    match given.to_tensor() {
        Ok(t) => Ok(CTensor::from_tensor(t)),
        Err(e) => Err(e),
    }
}

/// Releases a tensor that was handed across the boundary. Releasing nothing
/// is allowed and does nothing.
pub fn tensor_free<T>(tensor: Option<CTensor<T>>) {
}

/// Conjunction across the boundary. Returns a status and, where the status
/// is zero, the result.
pub fn tensor_and_ffi<T: Send + Sync, A: Arithmetic<T> + Sync>(
    tensor_a: Option<CTensor<T>>,
    tensor_b: Option<CTensor<T>>,
    has_result: bool,
    ops: &A,
) -> (out: (i32, Option<CTensor<T>>))
    ensures
        out.0 == 0 <==> out.1.is_some(),
        match pair_refusal(tensor_a, tensor_b, has_result) {
            Some(e) => out == delivered(Err::<Tensor<T>, TensorError>(e)),
            None => {
                let a = tensor_a.unwrap().tensor();
                let b = tensor_b.unwrap().tensor();
                match out.1 {
                    Some(c) => a.shape@ == b.shape@ && c.refusal().is_none() && c.tensor().shape@
                        == a.shape@ && is_conjunction(ops, a.data@, b.data@, c.tensor().data@),
                    None => a.shape@ != b.shape@ && out.0 == FFIError::InvalidArgument.code_spec(),
                }
            },
        },
{
    match adopt_pair(tensor_a, tensor_b, has_result) {
        Ok((a, b)) => {
            deliver(tensor_and(&a, &b, ops))
        },
        Err(e) => deliver(Err(e)),
    }
}

/// Disjunction across the boundary. Returns a status and, where the status
/// is zero, the result.
pub fn tensor_or_ffi<T: Send + Sync, A: Arithmetic<T> + Sync>(
    tensor_a: Option<CTensor<T>>,
    tensor_b: Option<CTensor<T>>,
    has_result: bool,
    ops: &A,
) -> (out: (i32, Option<CTensor<T>>))
    ensures
        out.0 == 0 <==> out.1.is_some(),
        match pair_refusal(tensor_a, tensor_b, has_result) {
            Some(e) => out == delivered(Err::<Tensor<T>, TensorError>(e)),
            None => {
                let a = tensor_a.unwrap().tensor();
                let b = tensor_b.unwrap().tensor();
                match out.1 {
                    Some(c) => a.shape@ == b.shape@ && c.refusal().is_none() && c.tensor().shape@
                        == a.shape@ && is_disjunction(ops, a.data@, b.data@, c.tensor().data@),
                    None => a.shape@ != b.shape@ && out.0 == FFIError::InvalidArgument.code_spec(),
                }
            },
        },
{
    match adopt_pair(tensor_a, tensor_b, has_result) {
        Ok((a, b)) => {
            deliver(tensor_or(&a, &b, ops))
        },
        Err(e) => deliver(Err(e)),
    }
}

/// Implication across the boundary. Returns a status and, where the status
/// is zero, the result.
pub fn tensor_implies_ffi<T: Send + Sync, A: Arithmetic<T> + Sync>(
    tensor_a: Option<CTensor<T>>,
    tensor_b: Option<CTensor<T>>,
    has_result: bool,
    ops: &A,
) -> (out: (i32, Option<CTensor<T>>))
    ensures
        out.0 == 0 <==> out.1.is_some(),
        match pair_refusal(tensor_a, tensor_b, has_result) {
            Some(e) => out == delivered(Err::<Tensor<T>, TensorError>(e)),
            None => {
                let a = tensor_a.unwrap().tensor();
                let b = tensor_b.unwrap().tensor();
                match out.1 {
                    Some(c) => a.shape@ == b.shape@ && c.refusal().is_none() && c.tensor().shape@
                        == a.shape@ && is_implication(ops, a.data@, b.data@, c.tensor().data@),
                    None => a.shape@ != b.shape@ && out.0 == FFIError::InvalidArgument.code_spec(),
                }
            },
        },
{
    match adopt_pair(tensor_a, tensor_b, has_result) {
        Ok((a, b)) => {
            deliver(tensor_implies(&a, &b, ops))
        },
        Err(e) => deliver(Err(e)),
    }
}

/// Complement across the boundary. Returns a status and, where the status
/// is zero, the result.
pub fn tensor_not_ffi<T: Send + Sync, A: Arithmetic<T> + Sync>(
    tensor: Option<CTensor<T>>,
    has_result: bool,
    ops: &A,
) -> (out: (i32, Option<CTensor<T>>))
    ensures
        out.0 == 0 <==> out.1.is_some(),
        match tensor {
            Some(x) => if !has_result {
                out == delivered(Err::<Tensor<T>, TensorError>(TensorError::NullArgument))
            } else {
                match x.refusal() {
                    Some(e) => out == delivered(Err::<Tensor<T>, TensorError>(e)),
                    None => out.1 matches Some(c) && c.refusal().is_none() && c.tensor().shape@
                        == x.tensor().shape@ && is_complement(
                        ops,
                        x.tensor().data@,
                        c.tensor().data@,
                    ),
                }
            },
            None => out == delivered(Err::<Tensor<T>, TensorError>(TensorError::NullArgument)),
        },
{
    let x = match tensor {
        Some(x) => x,
        None => {
            return deliver(Err(TensorError::NullArgument));
        },
    };
    if !has_result {
        return deliver(Err(TensorError::NullArgument));
    }
    match x.to_tensor() {
        Ok(t) => {
            deliver(Ok(tensor_not(&t, ops)))
        },
        Err(e) => deliver(Err(e)),
    }
}

/// Similarity across the boundary: zero where an operand or one of its data
/// buffers is absent, and the similarity of the two data buffers otherwise.
pub fn tensor_similarity_ffi<T, A: Arithmetic<T>>(
    tensor_a: Option<CTensor<T>>,
    tensor_b: Option<CTensor<T>>,
    ops: &A,
) -> (r: T)
    ensures
        match (tensor_a, tensor_b) {
            (Some(x), Some(y)) => match (x.data, y.data) {
                (Some(xs), Some(ys)) => is_similarity(ops, xs@, ys@, r),
                _ => is_count(ops, 0, r),
            },
            _ => is_count(ops, 0, r),
        },
{
    match (tensor_a, tensor_b) {
        (Some(x), Some(y)) => match (x.data, y.data) {
            (Some(xs), Some(ys)) => similarity(ops, &xs, &ys),
            _ => ops.from_count(0),
        },
        _ => ops.from_count(0),
    }
}

/// A kernel across the boundary: zero where the name, an operand or one of
/// its data buffers is absent, where the name is unknown, and where the
/// data buffers differ in length; the value of the kernel otherwise.
pub fn tensor_apply_kernel_ffi<T, A: Arithmetic<T>>(
    kernel_type: Option<&str>,
    tensor_a: Option<CTensor<T>>,
    tensor_b: Option<CTensor<T>>,
    ops: &A,
) -> (r: T)
    ensures
        match (kernel_type, tensor_a, tensor_b) {
            (Some(name), Some(x), Some(y)) => match (x.data, y.data) {
                (Some(xs), Some(ys)) => match kernel_named(name@) {
                    Some(kind) => if xs@.len() == ys@.len() {
                        is_kernel_value(ops, kind, xs@, ys@, r)
                    } else {
                        is_count(ops, 0, r)
                    },
                    None => is_count(ops, 0, r),
                },
                _ => is_count(ops, 0, r),
            },
            _ => is_count(ops, 0, r),
        },
{
    match (kernel_type, tensor_a, tensor_b) {
        (Some(name), Some(x), Some(y)) => match (x.data, y.data) {
            (Some(xs), Some(ys)) => match apply_kernel_to(name, &xs, &ys, ops) {
                Ok(v) => v,
                Err(_) => ops.from_count(0),
            },
            _ => ops.from_count(0),
        },
        _ => ops.from_count(0),
    }
}

} // verus!
