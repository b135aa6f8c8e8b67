//! The ways in which an operation of the engine fails.

use vstd::prelude::*;

verus! {

/// Why an operation produced no tensor or scalar.
#[derive(Debug)]
pub enum TensorError {
    /// Two tensors that must agree in shape do not.
    ShapeMismatch { left: Vec<usize>, right: Vec<usize> },
    /// Two flat buffers that must agree in length do not.
    LengthMismatch { left_len: usize, right_len: usize },
    /// An index list does not name one label per axis of its tensor.
    IndexArityMismatch,
    /// Two axes that carry the same label differ in extent.
    DimensionMismatch { label: usize, dim_a: usize, dim_b: usize },
    /// An output label names no axis of either input.
    UnknownOutputIndex { label: usize },
    /// An aggregation was asked for over no tensors.
    EmptyInput,
    /// A kernel name is none of the known ones.
    UnknownKernel { name: String },
    /// A required argument was absent at the boundary.
    NullArgument,
    /// A result would hold more elements than can be counted.
    CapacityOverflow,
}

impl TensorError {
    /// This error is a shape mismatch that carries the two shapes given.
    pub open spec fn is_shape_mismatch(self, left: Seq<usize>, right: Seq<usize>) -> bool {
        self matches TensorError::ShapeMismatch { left: l, right: r } && l@ == left && r@ == right
    }
}

} // verus!
