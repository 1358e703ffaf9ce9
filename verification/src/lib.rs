//! A small compiler for tensor computations: a graph of tensor operations is
//! given shapes and layouts, then lowered to a plan of buffer allocations,
//! kernel dispatches and deallocations for a compute backend.

pub mod builder;
pub mod compiler;
pub mod describe;
pub mod error;
pub mod graph;
pub mod tensor;
pub mod text;
pub mod wgpu;
