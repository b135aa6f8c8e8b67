//! The dense tensor value.

use vstd::prelude::*;
use crate::arithmetic::{
    is_less, is_norm, is_scaled, is_tolerance, norm_of, scale, tolerance, Arithmetic,
};
use crate::shape::{checked_size, shape_size};

verus! {

/// A dense tensor: a shape, and its elements in row-major order (the last
/// axis varies fastest).
#[derive(Debug)]
pub struct Tensor<T> {
    pub shape: Vec<usize>,
    pub data: Vec<T>,
    pub rank: usize,
}

impl<T> Tensor<T> {
    /// The tensor is consistent: `rank` counts the axes, and there is exactly
    /// one element for each position that the shape describes.
    pub open spec fn wf(&self) -> bool {
        &&& self.rank == self.shape@.len()
        &&& self.data@.len() == shape_size(self.shape@)
    }

    /// A tensor of the given shape over the given elements.
    pub fn new(shape: Vec<usize>, data: Vec<T>) -> (t: Self)
        requires
            data@.len() == shape_size(shape@),
        ensures
            t.shape == shape,
            t.data == data,
            t.rank == shape@.len(),
            t.wf(),
    {
        let rank = shape.len();
        Tensor { shape, data, rank }
    }

    /// The number of elements.
    pub fn size(&self) -> (n: usize)
        ensures
            n == self.data@.len(),
            self.wf() ==> n == shape_size(self.shape@),
    {
        self.data.len()
    }

    /// The Euclidean norm of the elements.
    pub fn norm<A: Arithmetic<T>>(&self, ops: &A) -> (r: T)
        ensures
            is_norm(ops, self.data@, r),
    {
        norm_of(ops, &self.data)
    }

    /// Whether the tensor is consistent.
    pub fn is_valid(&self) -> (ok: bool)
        ensures
            ok == self.wf(),
    {
        if self.rank != self.shape.len() {
            return false;
        }
        let len = self.data.len();
        match checked_size(self.shape.as_slice()) {
            Some(n) => n == len,
            None => false,
        }
    }
}

/// `after` is what rescaling `before` to unit norm may leave: `before`
/// itself where its norm is below the tolerance, and otherwise each element
/// divided by the norm.
pub open spec fn is_normalized<T, A: Arithmetic<T>>(ops: &A, before: Seq<T>, after: Seq<T>) -> bool {
    exists|n: T, tol: T, small: bool|
        {
            &&& is_norm(ops, before, n)
            &&& is_tolerance(ops, tol)
            &&& #[trigger] is_less(ops, n, tol, small)
            &&& if small {
                after == before
            } else {
                is_scaled(ops, before, n, after)
            }
        }
}

impl<T: Send + Sync> Tensor<T> {
    /// Rescales the elements to unit norm, in place. A tensor whose norm is
    /// below the tolerance is left as it is.
    pub fn normalize<A: Arithmetic<T> + Sync>(&mut self, ops: &A)
        ensures
            final(self).shape == old(self).shape,
            final(self).rank == old(self).rank,
            final(self).data@.len() == old(self).data@.len(),
            is_normalized(ops, old(self).data@, final(self).data@),
    {
        let n = norm_of(ops, &self.data);
        let tol = tolerance(ops);
        let small = ops.less_than(&n, &tol);
        if !small {
            let scaled = scale(ops, &self.data, &n);
            self.data = scaled;
        }
        assert(is_less(ops, n, tol, small));
    }
}

} // verus!
