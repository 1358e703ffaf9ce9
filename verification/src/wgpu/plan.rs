//! Execution plans: what the compiler hands to a backend.
//!
//! A plan names buffers by the handles of the nodes that own them. It holds
//! no device handle and no reference into the graph it came from.

use vstd::prelude::*;

use crate::graph::{indices, ExprId};
use crate::tensor::{Layout, LayoutModel, Tensor, TensorModel};

verus! {

/// One step of a plan.
#[derive(Debug, PartialEq, Eq)]
pub enum WgpuStep {
    /// Create buffer `id` and fill it with the tensor's data.
    Allocate { id: ExprId, tensor: Tensor },
    /// Free buffer `id`.
    Deallocate(ExprId),
    /// Create buffer `output` and run a kernel that fills it.
    Execute {
        output: ExprId,
        /// Source text of the kernel.
        source: String,
        /// Number of work groups to dispatch along x, y and z.
        workgroups: [u32; 3],
        /// The buffers to bind, in binding order: the output, then the
        /// buffer of every operand.
        inputs: Vec<ExprId>,
        /// Per binding, the buffer's size in bytes and whether the kernel only
        /// reads it.
        inputs_layout: Vec<(usize, bool)>,
    },
}

/// Mathematical model of a [`WgpuStep`].
pub enum StepModel {
    Allocate { id: usize, tensor: TensorModel },
    Deallocate(usize),
    Execute {
        output: usize,
        source: Seq<char>,
        workgroups: Seq<u32>,
        inputs: Seq<usize>,
        inputs_layout: Seq<(usize, bool)>,
    },
}

impl View for WgpuStep {
    type V = StepModel;

    open spec fn view(&self) -> StepModel {
        match self {
            WgpuStep::Allocate { id, tensor } => StepModel::Allocate { id: id@, tensor: tensor@ },
            WgpuStep::Deallocate(id) => StepModel::Deallocate(id@),
            WgpuStep::Execute { output, source, workgroups, inputs, inputs_layout } => {
                StepModel::Execute {
                    output: output@,
                    source: source@,
                    workgroups: workgroups@,
                    inputs: indices(inputs@),
                    inputs_layout: inputs_layout@,
                }
            },
        }
    }
}

impl StepModel {
    /// Whether the step binds buffer `s`, as its output or as an operand.
    pub open spec fn binds(self, s: int) -> bool {
        self matches StepModel::Execute { inputs, .. } && exists|k: int|
            0 <= k < inputs.len() && #[trigger] inputs[k] == s
    }

    /// Whether the step brings buffer `s` into being.
    pub open spec fn creates(self, s: int) -> bool {
        match self {
            StepModel::Allocate { id, .. } => id == s,
            StepModel::Execute { output, .. } => output == s,
            StepModel::Deallocate(_) => false,
        }
    }

    /// Whether the step frees buffer `s`.
    pub open spec fn frees(self, s: int) -> bool {
        self matches StepModel::Deallocate(id) && id == s
    }
}

/// The models of a sequence of steps.
pub open spec fn step_models(steps: Seq<WgpuStep>) -> Seq<StepModel> {
    steps.map_values(|step: WgpuStep| step@)
}

/// The models of a sequence of layouts.
pub open spec fn layout_models(layouts: Seq<Layout>) -> Seq<LayoutModel> {
    layouts.map_values(|layout: Layout| layout@)
}

/// The plan for one graph.
#[derive(Debug, PartialEq, Eq)]
pub struct WgpuPlan {
    /// The buffers that the caller supplies, in the order of the tensors
    /// handed to a run.
    pub inputs: Vec<ExprId>,
    /// What to do, in order.
    pub steps: Vec<WgpuStep>,
    /// The buffers to read back once all steps have run.
    pub outputs: Vec<ExprId>,
    /// The layout under which each output is presented.
    pub output_layouts: Vec<Layout>,
}

/// Mathematical model of a [`WgpuPlan`].
pub struct PlanModel {
    pub inputs: Seq<usize>,
    pub steps: Seq<StepModel>,
    pub outputs: Seq<usize>,
    pub output_layouts: Seq<LayoutModel>,
}

impl View for WgpuPlan {
    type V = PlanModel;

    open spec fn view(&self) -> PlanModel {
        PlanModel {
            inputs: indices(self.inputs@),
            steps: step_models(self.steps@),
            outputs: indices(self.outputs@),
            output_layouts: layout_models(self.output_layouts@),
        }
    }
}

} // verus!
