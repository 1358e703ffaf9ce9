//! Shorthands for adding operations to a graph.

use vstd::prelude::*;

use crate::error::ErrorKind;
use crate::graph::{ElemwiseOp, ExprId, Graph, Op, OpModel};

verus! {

/// The sum of two nodes, element by element.
#[derive(Debug, Clone, Copy)]
pub struct Add {
    left: ExprId,
    right: ExprId,
}

impl Add {
    pub closed spec fn operands(self) -> Seq<usize> {
        seq![self.left@, self.right@]
    }

    /// The sum of `left` and `right`.
    pub fn new(left: ExprId, right: ExprId) -> (sum: Add)
        ensures
            sum.operands() == seq![left@, right@],
    {
        Add { left, right }
    }

    /// Adds the sum to `graph` and returns its handle, or what
    /// [`Graph::add_op`] refuses it for.
    pub fn build(&self, graph: &mut Graph) -> (result: Result<ExprId, ErrorKind>)
        requires
            old(graph)@.wf(),
        ensures
            final(graph)@.wf(),
            match old(graph)@.refusal(OpModel::Elemwise(ElemwiseOp::Add), self.operands()) {
                Some(error) => result == Err::<ExprId, ErrorKind>(error) && final(graph)@ == old(
                    graph,
                )@,
                None => result matches Ok(id) && id@ == old(graph)@.len() && final(graph)@ == old(
                    graph,
                )@.with_op(OpModel::Elemwise(ElemwiseOp::Add), self.operands()),
            },
    {
        let children: [ExprId; 2] = [self.left, self.right];
        proof {
            assert(crate::graph::indices(children@) =~= self.operands());
        }
        graph.add_op(Op::Elemwise(ElemwiseOp::Add), children.as_slice())
    }
}

/// The product of two nodes, element by element.
#[derive(Debug, Clone, Copy)]
pub struct Mul {
    left: ExprId,
    right: ExprId,
}

impl Mul {
    pub closed spec fn operands(self) -> Seq<usize> {
        seq![self.left@, self.right@]
    }

    /// The product of `left` and `right`.
    pub fn new(left: ExprId, right: ExprId) -> (product: Mul)
        ensures
            product.operands() == seq![left@, right@],
    {
        Mul { left, right }
    }

    /// Adds the product to `graph` and returns its handle, or what
    /// [`Graph::add_op`] refuses it for.
    pub fn build(&self, graph: &mut Graph) -> (result: Result<ExprId, ErrorKind>)
        requires
            old(graph)@.wf(),
        ensures
            final(graph)@.wf(),
            match old(graph)@.refusal(OpModel::Elemwise(ElemwiseOp::Mul), self.operands()) {
                Some(error) => result == Err::<ExprId, ErrorKind>(error) && final(graph)@ == old(
                    graph,
                )@,
                None => result matches Ok(id) && id@ == old(graph)@.len() && final(graph)@ == old(
                    graph,
                )@.with_op(OpModel::Elemwise(ElemwiseOp::Mul), self.operands()),
            },
    {
        let children: [ExprId; 2] = [self.left, self.right];
        proof {
            assert(crate::graph::indices(children@) =~= self.operands());
        }
        graph.add_op(Op::Elemwise(ElemwiseOp::Mul), children.as_slice())
    }
}

} // verus!
