//! Lowering for a WebGPU backend: plans, the schedule that a graph
//! prescribes, and the compiler that emits it.

pub mod compiler;
pub mod expr;
pub mod kernel;
pub mod laws;
pub mod plan;
pub mod schedule;
