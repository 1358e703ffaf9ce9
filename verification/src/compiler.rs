//! The interfaces between a graph, a compiler and a backend.

use vstd::prelude::*;

use crate::graph::Graph;
use crate::tensor::Tensor;

verus! {

/// Turns graphs into something a backend can run.
pub trait Compiler {
    /// What comes out of a compilation.
    type CompileResult;

    /// Compiles `graph`, which is used up.
    fn compile(&self, graph: Graph) -> Self::CompileResult
        requires
            graph@.wf(),
    ;
}

/// A backend: prepares what a compiler emits, and runs it.
pub trait Runner {
    /// The compiler whose results this backend takes.
    type Compiler: Compiler;

    /// A compilation result made ready to run.
    type Runnable;

    /// Prepares a compilation result once, for any number of runs.
    fn preprocess(&mut self, result: <Self::Compiler as Compiler>::CompileResult) -> Self::Runnable;

    /// Runs `runnable` on `inputs`, which are bound to the declared inputs in
    /// order, and returns one tensor per declared output.
    fn run(&mut self, runnable: Self::Runnable, inputs: Vec<Tensor>) -> Vec<Tensor>;
}

} // verus!
