//! The schedule that a graph prescribes.
//!
//! Nodes are visited in table order. A constant is allocated, an elementwise
//! operation is executed into a buffer of its own, and a movement operation
//! emits nothing: its node lives in the buffer of its operand. A buffer is
//! freed right after the step of the last node that uses it, through whichever
//! of the nodes that live in it; a buffer that holds a declared output is never
//! freed.

use vstd::prelude::*;

use crate::graph::{BodyModel, GraphModel, OpModel};
use crate::wgpu::plan::{PlanModel, StepModel};

verus! {

/// The least number of groups of `width` threads that cover `elements`
/// elements.
pub open spec fn workgroups_for(elements: nat, width: nat) -> nat
    recommends
        width > 0,
{
    if elements % width == 0 {
        elements / width
    } else {
        elements / width + 1
    }
}

/// `workgroups_for` rounds the quotient up: its groups cover all elements,
/// and one group less would not.
pub proof fn lemma_workgroups_round_up(elements: nat, width: nat)
    requires
        width > 0,
    ensures
        workgroups_for(elements, width) == (elements + width - 1) / (width as int),
        workgroups_for(elements, width) * width >= elements,
        (workgroups_for(elements, width) - 1) * width < elements,
{
    let e = elements as int;
    let w = width as int;
    let q = e / w;
    let r = e % w;
    assert(e == w * q + r && 0 <= r < w) by {
        vstd::arithmetic::div_mod::lemma_fundamental_div_mod(e, w);
        vstd::arithmetic::div_mod::lemma_mod_bound(e, w);
    }
    assert(q * w == w * q) by (nonlinear_arith);
    assert((q + 1) * w == w * q + w) by (nonlinear_arith);
    assert((q - 1) * w == w * q - w) by (nonlinear_arith);
    if r == 0 {
        vstd::arithmetic::div_mod::lemma_fundamental_div_mod_converse(e + w - 1, w, q, w - 1);
    } else {
        vstd::arithmetic::div_mod::lemma_fundamental_div_mod_converse(e + w - 1, w, q + 1, r - 1);
    }
}

impl GraphModel {
    /// Whether node `n` is a view: a movement operation, which has no buffer
    /// of its own.
    pub open spec fn is_view(self, n: int) -> bool {
        self.nodes[n].body matches BodyModel::Op { op, .. } && op is Movement
    }

    /// The node in whose buffer node `n` lives: the node itself, or for a
    /// view the alias of its operand.
    pub open spec fn alias(self, n: int) -> int
        decreases n,
    {
        if 0 <= n < self.len() && self.is_view(n) && self.children(n).len() > 0 && self.children(
            n,
        )[0] < n {
            self.alias(self.children(n)[0] as int)
        } else {
            n
        }
    }

    /// The youngest recorded last usage among the nodes below `upto` that
    /// live in buffer `s`; `s` where there is none.
    pub open spec fn last_usage_within(self, s: int, upto: int) -> int
        decreases upto,
    {
        if upto <= 0 {
            s
        } else {
            let rest = self.last_usage_within(s, upto - 1);
            if self.alias(upto - 1) == s && self.nodes[upto - 1].last_usage > rest {
                self.nodes[upto - 1].last_usage as int
            } else {
                rest
            }
        }
    }

    /// The node after whose step buffer `s` is no longer needed: the
    /// youngest node recorded as last usage of any node that lives in `s`.
    pub open spec fn release_point(self, s: int) -> int {
        self.last_usage_within(s, self.len() as int)
    }

    /// Whether buffer `s` holds a declared output.
    pub open spec fn retrieved(self, s: int) -> bool {
        exists|i: int| 0 <= i < self.outputs.len() && #[trigger] self.alias(self.outputs[i] as int) == s
    }

    /// The buffer of the `j`-th operand of node `n`.
    pub open spec fn operand_buffer(self, n: int, j: int) -> int {
        self.alias(self.children(n)[j] as int)
    }

    /// Whether the step of node `n` is followed by the release of the buffer
    /// of its `j`-th operand: node `n` is the buffer's release point, the
    /// buffer holds no declared output, and no earlier operand of `n` lives in
    /// the same buffer.
    pub open spec fn releases(self, n: int, j: int) -> bool {
        let s = self.operand_buffer(n, j);
        &&& self.release_point(s) == n
        &&& !self.retrieved(s)
        &&& forall|i: int| 0 <= i < j ==> #[trigger] self.operand_buffer(n, i) != s
    }

    /// The deallocations that follow the step of node `n`, for its first
    /// `upto` operands, in operand order.
    pub open spec fn deallocations(self, n: int, upto: int) -> Seq<StepModel>
        decreases upto,
    {
        if upto <= 0 {
            Seq::empty()
        } else {
            let rest = self.deallocations(n, upto - 1);
            if self.releases(n, upto - 1) {
                rest.push(StepModel::Deallocate(self.operand_buffer(n, upto - 1) as usize))
            } else {
                rest
            }
        }
    }

    /// The dispatch of node `n` with the kernel `source`: one work group per
    /// `width` elements of the result, along x; bound are the node's own
    /// buffer, to be written, and then the buffer of each operand, to be read.
    pub open spec fn execution(self, n: int, width: u32, source: Seq<char>) -> StepModel {
        let operands = self.children(n);
        StepModel::Execute {
            output: n as usize,
            source,
            workgroups: seq![
                workgroups_for(self.nodes[n].layout.elements(), width as nat) as u32,
                1u32,
                1u32,
            ],
            inputs: seq![n as usize] + Seq::new(
                operands.len(),
                |j: int| self.operand_buffer(n, j) as usize,
            ),
            inputs_layout: seq![(self.nodes[n].layout.size() as usize, false)] + Seq::new(
                operands.len(),
                |j: int| (self.nodes[operands[j] as int].layout.size() as usize, true),
            ),
        }
    }

    /// The steps that node `n` contributes to the plan.
    pub open spec fn node_steps(self, n: int, width: u32, kernels: Seq<Seq<char>>) -> Seq<
        StepModel,
    > {
        match self.nodes[n].body {
            BodyModel::Input(_) => Seq::empty(),
            BodyModel::Const(tensor) => seq![StepModel::Allocate { id: n as usize, tensor }],
            BodyModel::Op { op, children } => {
                if op is Movement {
                    self.deallocations(n, children.len() as int)
                } else {
                    seq![self.execution(n, width, kernels[n])] + self.deallocations(
                        n,
                        children.len() as int,
                    )
                }
            },
        }
    }

    /// The steps of the first `upto` nodes.
    pub open spec fn steps(self, upto: int, width: u32, kernels: Seq<Seq<char>>) -> Seq<StepModel>
        decreases upto,
    {
        if upto <= 0 {
            Seq::empty()
        } else {
            self.steps(upto - 1, width, kernels) + self.node_steps(upto - 1, width, kernels)
        }
    }

    /// Whether node `n` can be lowered for work groups of `width` threads:
    /// there is no kernel for reductions, and the number of work groups of an
    /// elementwise operation has to fit the backend's 32-bit dispatch size.
    pub open spec fn node_supported(self, n: int, width: u32) -> bool {
        match self.nodes[n].body {
            BodyModel::Op { op: OpModel::Reduce { .. }, .. } => false,
            BodyModel::Op { op: OpModel::Elemwise(_), .. } => workgroups_for(
                self.nodes[n].layout.elements(),
                width as nat,
            ) <= u32::MAX,
            _ => true,
        }
    }

    /// Whether the graph can be lowered for work groups of `width` threads:
    /// a work group holds at least one thread, and every node can be lowered.
    pub open spec fn supported(self, width: u32) -> bool {
        &&& width > 0
        &&& forall|n: int| 0 <= n < self.len() ==> #[trigger] self.node_supported(n, width)
    }

    /// Whether node `n` is dispatched as a kernel.
    pub open spec fn is_executed(self, n: int) -> bool {
        self.nodes[n].body matches BodyModel::Op { op, .. } && !(op is Movement)
    }

    /// The plan of the graph for work groups of `width` threads, with
    /// `kernels[n]` as the kernel of every executed node `n`. Outputs are named
    /// by the buffers they live in and keep the layouts of their own nodes.
    pub open spec fn plan(self, width: u32, kernels: Seq<Seq<char>>) -> PlanModel {
        PlanModel {
            inputs: self.inputs,
            steps: self.steps(self.len() as int, width, kernels),
            outputs: Seq::new(self.outputs.len(), |i: int| self.alias(self.outputs[i] as int) as usize),
            output_layouts: Seq::new(
                self.outputs.len(),
                |i: int| self.nodes[self.outputs[i] as int].layout,
            ),
        }
    }
}

/// A node lives in its own buffer or in that of an older node, and the node
/// that owns a buffer is no view.
pub proof fn lemma_alias_is_older(graph: GraphModel, n: int)
    requires
        graph.wf(),
        0 <= n < graph.len(),
    ensures
        0 <= graph.alias(n) <= n,
        !graph.is_view(graph.alias(n)),
        graph.alias(graph.alias(n)) == graph.alias(n),
    decreases n,
{
    if graph.is_view(n) {
        assert(graph.node_typed(n));
        assert(graph.children(n).len() == 1);
        assert(graph.children(n)[0] < n);
        lemma_alias_is_older(graph, graph.children(n)[0] as int);
    }
}

} // verus!
