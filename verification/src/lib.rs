//! A tensor-logic engine: dense row-major tensors over an abstract scalar
//! type, with fuzzy-logic connectives, index contraction, similarity and
//! kernel metrics, mean aggregation, and a boundary adapter that moves
//! tensors between the engine and a foreign caller.
//!
//! The scalar arithmetic is a parameter (`Arithmetic`): the engine fixes the
//! order in which it is applied and to which elements, and every contract is
//! stated over the results that the arithmetic itself admits.

pub mod arithmetic;
mod parallel;
pub mod shape;
pub mod error;
pub mod tensor;
pub mod logic;
pub mod contraction;
pub mod metric;
pub mod kernel;
pub mod laws;
pub mod ffi;
pub mod boundary;
pub mod memory_manager;
pub mod consciousness;
pub mod neural_engine;
pub mod wasm;
