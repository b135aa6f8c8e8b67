//! Status codes and the result wrapper handed to a foreign caller.

use vstd::prelude::*;

verus! {

/// The outcome classes that a foreign caller can tell apart.
#[derive(Clone, Copy, Debug, PartialEq, Eq, Structural)]
pub enum FFIError {
    Success,
    NullPointer,
    InvalidArgument,
    MemoryAllocation,
    InvalidOperation,
}

impl FFIError {
    /// The status code of each class: zero for success, a negative number of
    /// its own for every failure.
    pub open spec fn code_spec(self) -> int {
        match self {
            FFIError::Success => 0,
            FFIError::NullPointer => -1,
            FFIError::InvalidArgument => -2,
            FFIError::MemoryAllocation => -3,
            FFIError::InvalidOperation => -4,
        }
    }

    /// The status code handed to the foreign caller.
    pub fn code(&self) -> (c: i32)
        ensures
            c == self.code_spec(),
    {
        match self {
            FFIError::Success => 0,
            FFIError::NullPointer => -1,
            FFIError::InvalidArgument => -2,
            FFIError::MemoryAllocation => -3,
            FFIError::InvalidOperation => -4,
        }
    }

    /// Only success has the code zero, and no two classes share a code.
    pub proof fn lemma_codes_distinct(x: FFIError, y: FFIError)
        ensures
            x.code_spec() == 0 <==> x == FFIError::Success,
            x.code_spec() <= 0,
            x.code_spec() == y.code_spec() ==> x == y,
    {
    }
}

/// A value together with the status of the call that produced it.
pub struct FFIResult<T> {
    pub error_code: FFIError,
    pub data: T,
}

impl<T> FFIResult<T> {
    /// The result of a call that succeeded with `data`.
    pub fn success(data: T) -> (r: Self)
        ensures
            r.error_code == FFIError::Success,
            r.data == data,
    {
        FFIResult { error_code: FFIError::Success, data }
    }

    /// The result of a call that ended with `error_code`, carrying `data`.
    pub fn error(error_code: FFIError, data: T) -> (r: Self)
        ensures
            r.error_code == error_code,
            r.data == data,
    {
        FFIResult { error_code, data }
    }
}

} // verus!
