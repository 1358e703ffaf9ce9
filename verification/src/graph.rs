//! The graph of tensor expressions.
//!
//! A graph is a table of nodes that only grows. A node is an input, a
//! constant or an operation on earlier nodes, and is known by its position in
//! the table. Every node carries the layout inferred for it and the position of
//! the last node that reads it.

use vstd::prelude::*;

use crate::error::ErrorKind;
use crate::tensor::{DimId, Layout, LayoutModel, Shape, Tensor, TensorModel};
use crate::text::{decimal, decimal_text};

verus! {

/// Handle of a node: its position in the graph's table.
#[derive(Copy, Clone, Debug, PartialEq, Eq, PartialOrd, Ord, Hash, Structural)]
pub struct ExprId(pub(crate) usize);

impl View for ExprId {
    type V = usize;

    open(crate) spec fn view(&self) -> usize {
        self.0
    }
}

impl ExprId {
    /// The handle of the node at position `index`.
    pub fn new(index: usize) -> (id: ExprId)
        ensures
            id@ == index,
    {
        ExprId(index)
    }

    /// The node's position in the table.
    pub fn index(&self) -> (index: usize)
        ensures
            index == self@,
    {
        self.0
    }

    /// The handle as it is written: `@` and the position.
    pub fn to_text(&self) -> (text: String)
        ensures
            text@ == "@"@ + decimal_text(self@ as nat),
    {
        let mut text = String::from_str("@");
        let position = decimal(self.0);
        text.append(position.as_str());
        text
    }
}

/// The positions that a sequence of handles stands for.
pub open spec fn indices(ids: Seq<ExprId>) -> Seq<usize> {
    ids.map_values(|id: ExprId| id@)
}

/// Operations applied element by element.
#[derive(Copy, Clone, Debug, PartialEq, Eq, Structural)]
pub enum ElemwiseOp {
    Add,
    Mul,
    Sin,
}

impl ElemwiseOp {
    /// Number of operands.
    pub open spec fn arity(self) -> nat {
        match self {
            ElemwiseOp::Add => 2,
            ElemwiseOp::Mul => 2,
            ElemwiseOp::Sin => 1,
        }
    }

    /// The operation's name in lower case.
    pub fn name(&self) -> (name: &'static str)
        ensures
            name@ == match *self {
                ElemwiseOp::Add => "add"@,
                ElemwiseOp::Mul => "mul"@,
                ElemwiseOp::Sin => "sin"@,
            },
    {
        match self {
            ElemwiseOp::Add => "add",
            ElemwiseOp::Mul => "mul",
            ElemwiseOp::Sin => "sin",
        }
    }
}

/// Operations that fold dimensions away.
#[derive(Copy, Clone, Debug, PartialEq, Eq, Structural)]
pub enum ReduceOp {
    Sum,
    Max,
}

impl ReduceOp {
    /// The operation's name in lower case.
    pub fn name(&self) -> (name: &'static str)
        ensures
            name@ == match *self {
                ReduceOp::Sum => "sum"@,
                ReduceOp::Max => "max"@,
            },
    {
        match self {
            ReduceOp::Sum => "sum",
            ReduceOp::Max => "max",
        }
    }
}

/// Operations that give another view of the same storage.
#[derive(Debug)]
pub enum MovementOp {
    Reshape(Shape),
    Transpose,
    Squeeze,
}

/// Mathematical model of a [`MovementOp`].
pub enum MovementModel {
    Reshape(LayoutModel),
    Transpose,
    Squeeze,
}

impl View for MovementOp {
    type V = MovementModel;

    open spec fn view(&self) -> MovementModel {
        match self {
            MovementOp::Reshape(shape) => MovementModel::Reshape(shape@),
            MovementOp::Transpose => MovementModel::Transpose,
            MovementOp::Squeeze => MovementModel::Squeeze,
        }
    }
}

impl Clone for MovementOp {
    fn clone(&self) -> (copy: Self)
        ensures
            copy@ == self@,
    {
        match self {
            MovementOp::Reshape(shape) => MovementOp::Reshape(shape.clone()),
            MovementOp::Transpose => MovementOp::Transpose,
            MovementOp::Squeeze => MovementOp::Squeeze,
        }
    }
}

impl MovementOp {
    /// The operation's name in lower case.
    pub fn name(&self) -> (name: &'static str)
        ensures
            name@ == match self@ {
                MovementModel::Reshape(_) => "reshape"@,
                MovementModel::Transpose => "transpose"@,
                MovementModel::Squeeze => "squeeze"@,
            },
    {
        match self {
            MovementOp::Reshape(_) => "reshape",
            MovementOp::Transpose => "transpose",
            MovementOp::Squeeze => "squeeze",
        }
    }
}

/// An operation of the graph.
#[derive(Debug)]
pub enum Op {
    Elemwise(ElemwiseOp),
    Reduce { op: ReduceOp, dims: Vec<DimId> },
    Movement(MovementOp),
}

/// Mathematical model of an [`Op`].
pub enum OpModel {
    Elemwise(ElemwiseOp),
    Reduce { op: ReduceOp, dims: Seq<usize> },
    Movement(MovementModel),
}

impl View for Op {
    type V = OpModel;

    open spec fn view(&self) -> OpModel {
        match self {
            Op::Elemwise(op) => OpModel::Elemwise(*op),
            Op::Reduce { op, dims } => OpModel::Reduce { op: *op, dims: dims@ },
            Op::Movement(op) => OpModel::Movement(op@),
        }
    }
}

impl Clone for Op {
    fn clone(&self) -> (copy: Self)
        ensures
            copy@ == self@,
    {
        match self {
            Op::Elemwise(op) => Op::Elemwise(*op),
            Op::Reduce { op, dims } => {
                let copied = dims.clone();
                assert(copied@ =~= dims@);
                Op::Reduce { op: *op, dims: copied }
            },
            Op::Movement(op) => Op::Movement(op.clone()),
        }
    }
}

impl OpModel {
    /// A reshape's target is a well-formed layout.
    pub open spec fn wf(self) -> bool {
        self matches OpModel::Movement(MovementModel::Reshape(target)) ==> target.wf()
    }

    /// Number of operands.
    pub open spec fn arity(self) -> nat {
        match self {
            OpModel::Elemwise(op) => op.arity(),
            OpModel::Reduce { .. } => 1,
            OpModel::Movement(_) => 1,
        }
    }

    pub open spec fn is_movement(self) -> bool {
        self is Movement
    }

    /// Whether the operation can be applied to a first operand laid out as
    /// `operand`: a reduction names dimensions that exist and gives a result
    /// whose size in bytes fits in `usize`, a transposition has two dimensions
    /// to exchange.
    pub open spec fn applies_to(self, operand: LayoutModel) -> bool {
        match self {
            OpModel::Reduce { dims, .. } => (forall|k: int|
                0 <= k < dims.len() ==> dims[k] < operand.rank()) && operand.reduced(dims).wf(),
            OpModel::Movement(MovementModel::Transpose) => operand.rank() >= 2,
            _ => true,
        }
    }

    /// Whether a reshape keeps the number of elements of `operand`.
    pub open spec fn keeps_elements_of(self, operand: LayoutModel) -> bool {
        self matches OpModel::Movement(MovementModel::Reshape(target)) ==> target.elements()
            == operand.elements()
    }

    /// The layout of the result, given the layout of the first operand.
    pub open spec fn infer(self, operand: LayoutModel) -> LayoutModel {
        match self {
            OpModel::Elemwise(_) => operand,
            OpModel::Reduce { dims, .. } => operand.reduced(dims),
            OpModel::Movement(MovementModel::Reshape(target)) => target,
            OpModel::Movement(MovementModel::Transpose) => operand.transposed(),
            OpModel::Movement(MovementModel::Squeeze) => operand.squeezed(),
        }
    }
}

impl Op {
    /// Number of operands.
    pub fn arity(&self) -> (arity: usize)
        ensures
            arity == self@.arity(),
    {
        match self {
            Op::Elemwise(ElemwiseOp::Add) => 2,
            Op::Elemwise(ElemwiseOp::Mul) => 2,
            Op::Elemwise(ElemwiseOp::Sin) => 1,
            Op::Reduce { .. } => 1,
            Op::Movement(_) => 1,
        }
    }

    /// The layout of the operation's result on operands with the given
    /// layouts. Only the first operand decides.
    pub fn infer_layout(&self, children: &[&Layout]) -> (layout: Layout)
        requires
            children@.len() >= 1,
            children@[0]@.wf(),
            self@.wf(),
            self@.applies_to(children@[0]@),
        ensures
            layout@ == self@.infer(children@[0]@),
            layout@.wf(),
    {
        match self {
            Op::Elemwise(_) => children[0].clone(),
            Op::Reduce { dims, .. } => {
                proof {
                    assert(self@.applies_to(children@[0]@));
                    assert(self@->Reduce_dims == dims@);
                }
                children[0].reduce(dims)
            },
            Op::Movement(op) => match op {
                MovementOp::Reshape(shape) => children[0].reshape(shape.clone()),
                MovementOp::Transpose => children[0].transpose(),
                MovementOp::Squeeze => children[0].squeeze(),
            },
        }
    }
}

/// What a node is.
#[derive(Debug)]
pub enum ExprBody {
    /// An operation on earlier nodes.
    Op { op: Op, children: Vec<ExprId> },
    /// A tensor supplied when the plan runs.
    Input(Layout),
    /// A tensor whose data is part of the graph.
    Const(Tensor),
}

/// Mathematical model of an [`ExprBody`].
pub enum BodyModel {
    Op { op: OpModel, children: Seq<usize> },
    Input(LayoutModel),
    Const(TensorModel),
}

impl View for ExprBody {
    type V = BodyModel;

    open spec fn view(&self) -> BodyModel {
        match self {
            ExprBody::Op { op, children } => BodyModel::Op { op: op@, children: indices(children@) },
            ExprBody::Input(layout) => BodyModel::Input(layout@),
            ExprBody::Const(tensor) => BodyModel::Const(tensor@),
        }
    }
}

impl BodyModel {
    /// The operands of an operation; no other node has any.
    pub open spec fn children(self) -> Seq<usize> {
        match self {
            BodyModel::Op { children, .. } => children,
            _ => Seq::empty(),
        }
    }

    /// Whether the node is an operation that reads node `n`.
    pub open spec fn reads(self, n: int) -> bool {
        exists|j: int| 0 <= j < self.children().len() && #[trigger] self.children()[j] == n
    }
}

/// A node with what the graph records about it.
#[derive(Debug)]
pub struct ExprInfo {
    pub(crate) body: ExprBody,
    pub(crate) layout: Layout,
    pub(crate) last_usage: ExprId,
}

/// Mathematical model of an [`ExprInfo`].
pub struct NodeModel {
    pub body: BodyModel,
    pub layout: LayoutModel,
    pub last_usage: usize,
}

impl View for ExprInfo {
    type V = NodeModel;

    open(crate) spec fn view(&self) -> NodeModel {
        NodeModel { body: self.body@, layout: self.layout@, last_usage: self.last_usage@ }
    }
}

impl NodeModel {
    /// The same node, read last by node `id`.
    pub open spec fn used_by(self, id: usize) -> NodeModel {
        NodeModel { body: self.body, layout: self.layout, last_usage: id }
    }
}

/// Mathematical model of a [`Graph`].
pub struct GraphModel {
    /// The input nodes, in the order of their declaration.
    pub inputs: Seq<usize>,
    /// The table of nodes.
    pub nodes: Seq<NodeModel>,
    /// The declared outputs, in the order of their declaration.
    pub outputs: Seq<usize>,
}

impl GraphModel {
    pub open spec fn empty() -> GraphModel {
        GraphModel { inputs: Seq::empty(), nodes: Seq::empty(), outputs: Seq::empty() }
    }

    pub open spec fn len(self) -> nat {
        self.nodes.len()
    }

    /// The operands of node `n`.
    pub open spec fn children(self, n: int) -> Seq<usize> {
        self.nodes[n].body.children()
    }

    /// Whether `m` is an operation of the graph that has node `n` among its
    /// operands.
    pub open spec fn consumes(self, m: int, n: int) -> bool {
        0 <= m < self.len() && self.nodes[m].body.reads(n)
    }

    /// Operands are older than the operations that read them.
    pub open spec fn topological(self) -> bool {
        forall|m: int, j: int|
            0 <= m < self.len() && 0 <= j < self.children(m).len() ==> #[trigger] self.children(
                m,
            )[j] < m
    }

    /// Every node records the youngest node that reads it, or itself where no
    /// node does.
    pub open spec fn usage_tracked(self) -> bool {
        &&& forall|n: int|
            0 <= n < self.len() ==> n <= (#[trigger] self.nodes[n]).last_usage < self.len()
        &&& forall|n: int|
            0 <= n < self.len() && (#[trigger] self.nodes[n]).last_usage != n ==> self.consumes(
                self.nodes[n].last_usage as int,
                n,
            )
        &&& forall|m: int, n: int|
            0 <= n < self.len() && #[trigger] self.consumes(m, n) ==> m <= self.nodes[n].last_usage
    }

    /// The layout of the first operand of node `n`.
    pub open spec fn operand_layout(self, n: int) -> LayoutModel {
        self.nodes[self.children(n)[0] as int].layout
    }

    /// Node `n` has the layout that its body calls for, and an operation has
    /// operands it can be applied to.
    pub open spec fn node_typed(self, n: int) -> bool {
        &&& self.nodes[n].layout.wf()
        &&& match self.nodes[n].body {
            BodyModel::Input(layout) => self.nodes[n].layout == layout,
            BodyModel::Const(tensor) => tensor.wf() && self.nodes[n].layout == tensor.layout,
            BodyModel::Op { op, children } => {
                &&& op.wf()
                &&& children.len() == op.arity()
                &&& op.applies_to(self.operand_layout(n))
                &&& op.keeps_elements_of(self.operand_layout(n))
                &&& self.nodes[n].layout == op.infer(self.operand_layout(n))
            },
        }
    }

    pub open spec fn typed(self) -> bool {
        forall|n: int| 0 <= n < self.len() ==> #[trigger] self.node_typed(n)
    }

    /// The list of inputs names exactly the input nodes, oldest first.
    pub open spec fn inputs_listed(self) -> bool {
        &&& forall|i: int|
            0 <= i < self.inputs.len() ==> (#[trigger] self.inputs[i]) < self.len()
                && self.nodes[self.inputs[i] as int].body is Input
        &&& forall|i: int, j: int|
            0 <= i < j < self.inputs.len() ==> (#[trigger] self.inputs[i]) < (
            #[trigger] self.inputs[j])
        &&& forall|n: int|
            0 <= n < self.len() && (#[trigger] self.nodes[n]).body is Input
                ==> self.inputs.contains(n as usize)
    }

    /// Every declared output is a node of the graph.
    pub open spec fn outputs_exist(self) -> bool {
        forall|i: int| 0 <= i < self.outputs.len() ==> (#[trigger] self.outputs[i]) < self.len()
    }

    /// What holds of every graph that the construction functions build.
    pub open spec fn wf(self) -> bool {
        &&& self.topological()
        &&& self.usage_tracked()
        &&& self.typed()
        &&& self.inputs_listed()
        &&& self.outputs_exist()
    }

    /// The layout that a new node with the given body gets.
    pub open spec fn layout_of(self, body: BodyModel) -> LayoutModel {
        match body {
            BodyModel::Input(layout) => layout,
            BodyModel::Const(tensor) => tensor.layout,
            BodyModel::Op { op, children } => op.infer(self.nodes[children[0] as int].layout),
        }
    }

    /// The table after a node with the given body has been added: the new
    /// node comes last, and every operand of it records the new node as its
    /// last reader.
    pub open spec fn appended(self, body: BodyModel) -> Seq<NodeModel> {
        let id = self.nodes.len() as usize;
        Seq::new(
            self.nodes.len(),
            |n: int|
                if body.reads(n) {
                    self.nodes[n].used_by(id)
                } else {
                    self.nodes[n]
                },
        ).push(NodeModel { body, layout: self.layout_of(body), last_usage: id })
    }

    /// The graph with one more input of the given layout.
    pub open spec fn with_input(self, layout: LayoutModel) -> GraphModel {
        GraphModel {
            inputs: self.inputs.push(self.nodes.len() as usize),
            nodes: self.appended(BodyModel::Input(layout)),
            outputs: self.outputs,
        }
    }

    /// The graph with one more constant.
    pub open spec fn with_const(self, tensor: TensorModel) -> GraphModel {
        GraphModel {
            inputs: self.inputs,
            nodes: self.appended(BodyModel::Const(tensor)),
            outputs: self.outputs,
        }
    }

    /// The graph with one more operation.
    pub open spec fn with_op(self, op: OpModel, children: Seq<usize>) -> GraphModel {
        GraphModel {
            inputs: self.inputs,
            nodes: self.appended(BodyModel::Op { op, children }),
            outputs: self.outputs,
        }
    }

    /// The graph with node `id` declared as one more output.
    pub open spec fn with_output(self, id: usize) -> GraphModel {
        GraphModel { inputs: self.inputs, nodes: self.nodes, outputs: self.outputs.push(id) }
    }

    /// Why the operation `op` on `children` cannot be added, if it cannot:
    /// a wrong number of operands, an operand that is no node of the graph or
    /// one that the operation cannot be applied to make the graph malformed;
    /// after that, a reshape must keep the number of elements.
    pub open spec fn refusal(self, op: OpModel, children: Seq<usize>) -> Option<ErrorKind> {
        if children.len() != op.arity() || (exists|j: int|
            0 <= j < children.len() && children[j] >= self.len()) || !op.applies_to(
            self.nodes[children[0] as int].layout,
        ) {
            Some(ErrorKind::MalformedGraph)
        } else if !op.keeps_elements_of(self.nodes[children[0] as int].layout) {
            Some(ErrorKind::IncompatibleReshape)
        } else {
            None
        }
    }

    /// Whether a node with the given body may be added.
    pub open spec fn admits(self, body: BodyModel) -> bool {
        match body {
            BodyModel::Input(layout) => layout.wf(),
            BodyModel::Const(tensor) => tensor.wf(),
            BodyModel::Op { op, children } => op.wf() && self.refusal(op, children) is None,
        }
    }
}

/// The result of an operation has a well-formed layout wherever its first
/// operand has one and the operation can be applied to it.
pub proof fn lemma_infer_wf(op: OpModel, operand: LayoutModel)
    requires
        op.wf(),
        operand.wf(),
        op.applies_to(operand),
    ensures
        op.infer(operand).wf(),
{
    match op {
        OpModel::Elemwise(_) => {},
        OpModel::Reduce { .. } => {},
        OpModel::Movement(MovementModel::Reshape(_)) => {},
        OpModel::Movement(MovementModel::Transpose) => {
            crate::tensor::lemma_swap_innermost(operand.dims);
        },
        OpModel::Movement(MovementModel::Squeeze) => {
            crate::tensor::lemma_without_unit_dims(operand.dims, operand.strides);
        },
    }
}

/// Adding a node that the graph admits keeps the graph well formed. For an
/// input, `inputs` is the list with the new node at its end; for any other
/// node it is the list as it was.
pub proof fn lemma_appended_wf(graph: GraphModel, body: BodyModel, inputs: Seq<usize>)
    requires
        graph.wf(),
        graph.admits(body),
        graph.len() <= usize::MAX,
        inputs == (if body is Input {
            graph.inputs.push(graph.len() as usize)
        } else {
            graph.inputs
        }),
    ensures
        (GraphModel { inputs, nodes: graph.appended(body), outputs: graph.outputs }).wf(),
{
    let id = graph.len() as int;
    let next = GraphModel { inputs, nodes: graph.appended(body), outputs: graph.outputs };
    assert(next.len() == id + 1);
    assert forall|n: int| 0 <= n < id implies (#[trigger] next.nodes[n]).body
        == graph.nodes[n].body && next.nodes[n].layout == graph.nodes[n].layout && (
    next.nodes[n].last_usage == graph.nodes[n].last_usage || (body.reads(n)
        && next.nodes[n].last_usage == id)) by {}
    assert(next.nodes[id].body == body);
    assert forall|j: int| 0 <= j < body.children().len() implies (#[trigger] body.children()[j])
        < id by {
        match body {
            BodyModel::Op { op, children } => {
                assert(graph.refusal(op, children) is None);
                if children[j] >= graph.len() {
                    assert(exists|k: int| 0 <= k < children.len() && children[k] >= graph.len());
                }
            },
            _ => {},
        }
    }
    assert(next.topological()) by {
        assert forall|m: int, j: int|
            0 <= m < next.len() && 0 <= j < next.children(m).len() implies #[trigger] next.children(
            m,
        )[j] < m by {
            if m < id {
                assert(next.children(m) == graph.children(m));
                assert(graph.children(m)[j] < m);
            }
        }
    }
    assert(next.usage_tracked()) by {
        assert forall|n: int| 0 <= n < next.len() implies n <= (
        #[trigger] next.nodes[n]).last_usage < next.len() by {
            if n < id {
                assert(n <= graph.nodes[n].last_usage < graph.len());
            }
        }
        assert forall|n: int|
            0 <= n < next.len() && (#[trigger] next.nodes[n]).last_usage != n implies next.consumes(
            next.nodes[n].last_usage as int,
            n,
        ) by {
            if n < id {
                if next.nodes[n].last_usage == graph.nodes[n].last_usage {
                    let m = graph.nodes[n].last_usage as int;
                    assert(graph.consumes(m, n));
                    assert(next.nodes[m].body == graph.nodes[m].body);
                }
            }
        }
        assert forall|m: int, n: int|
            0 <= n < next.len() && #[trigger] next.consumes(m, n) implies m
            <= next.nodes[n].last_usage by {
            let j = choose|j: int|
                0 <= j < next.children(m).len() && #[trigger] next.nodes[m].body.children()[j]
                    == n;
            assert(next.children(m)[j] < m);
            if m < id {
                assert(next.nodes[m].body == graph.nodes[m].body);
                assert(graph.consumes(m, n));
                assert(m <= graph.nodes[n].last_usage);
                assert(graph.nodes[n].last_usage < graph.len());
            } else {
                assert(body.reads(n));
            }
        }
    }
    assert(next.typed()) by {
        assert forall|n: int| 0 <= n < next.len() implies #[trigger] next.node_typed(n) by {
            if n < id {
                assert(graph.node_typed(n));
                if graph.nodes[n].body is Op {
                    assert(graph.children(n).len() >= 1);
                    assert(graph.children(n)[0] < n);
                    assert(next.children(n) == graph.children(n));
                    let c = graph.children(n)[0] as int;
                    assert(next.nodes[c].layout == graph.nodes[c].layout);
                }
            } else {
                match body {
                    BodyModel::Op { op, children } => {
                        assert(graph.refusal(op, children) is None);
                        assert(children.len() >= 1);
                        assert(body.children()[0] < id);
                        let c = children[0] as int;
                        assert(next.nodes[c].layout == graph.nodes[c].layout);
                        assert(graph.node_typed(c));
                        lemma_infer_wf(op, graph.nodes[c].layout);
                    },
                    _ => {},
                }
            }
        }
    }
    assert(next.inputs_listed()) by {
        assert forall|i: int| 0 <= i < next.inputs.len() implies (#[trigger] next.inputs[i])
            < next.len() && next.nodes[next.inputs[i] as int].body is Input by {
            if i < graph.inputs.len() {
                assert(graph.inputs[i] < graph.len());
                assert(graph.nodes[graph.inputs[i] as int].body is Input);
            }
        }
        assert forall|i: int, j: int| 0 <= i < j < next.inputs.len() implies (
        #[trigger] next.inputs[i]) < (#[trigger] next.inputs[j]) by {
            if j < graph.inputs.len() {
                assert(graph.inputs[i] < graph.inputs[j]);
            } else {
                assert(graph.inputs[i] < graph.len());
            }
        }
        assert forall|n: int|
            0 <= n < next.len() && (#[trigger] next.nodes[n]).body is Input implies next.inputs.contains(
            n as usize,
        ) by {
            if n < id {
                assert(graph.nodes[n].body is Input);
                assert(graph.inputs.contains(n as usize));
                let i = choose|i: int| 0 <= i < graph.inputs.len() && graph.inputs[i] == n as usize;
                assert(next.inputs[i] == n as usize);
            } else {
                assert(next.inputs[graph.inputs.len() as int] == n as usize);
            }
        }
    }
    assert(next.outputs_exist()) by {
        assert forall|i: int| 0 <= i < next.outputs.len() implies (#[trigger] next.outputs[i])
            < next.len() by {
            assert(graph.outputs[i] < graph.len());
        }
    }
}

/// Declaring a node of the graph as an output keeps the graph well formed.
pub proof fn lemma_with_output_wf(graph: GraphModel, id: usize)
    requires
        graph.wf(),
        id < graph.len(),
    ensures
        graph.with_output(id).wf(),
{
    let next = graph.with_output(id);
    assert(next.topological()) by {
        assert forall|m: int, j: int|
            0 <= m < next.len() && 0 <= j < next.children(m).len() implies #[trigger] next.children(
            m,
        )[j] < m by {
            assert(graph.children(m)[j] < m);
        }
    }
    assert(next.usage_tracked()) by {
        assert forall|n: int|
            0 <= n < next.len() && (#[trigger] next.nodes[n]).last_usage != n implies next.consumes(
            next.nodes[n].last_usage as int,
            n,
        ) by {
            assert(graph.consumes(graph.nodes[n].last_usage as int, n));
        }
        assert forall|m: int, n: int|
            0 <= n < next.len() && #[trigger] next.consumes(m, n) implies m
            <= next.nodes[n].last_usage by {
            assert(graph.consumes(m, n));
        }
    }
    assert(next.typed()) by {
        assert forall|n: int| 0 <= n < next.len() implies #[trigger] next.node_typed(n) by {
            assert(graph.node_typed(n));
        }
    }
    assert(next.outputs_exist()) by {
        assert forall|i: int| 0 <= i < next.outputs.len() implies (#[trigger] next.outputs[i])
            < next.len() by {
            if i < graph.outputs.len() {
                assert(graph.outputs[i] < graph.len());
            }
        }
    }
}

/// In a well-formed graph every operand is older than the operation that
/// reads it: handles are a topological order.
pub proof fn lemma_operands_are_older(graph: GraphModel, n: int, j: int)
    requires
        graph.wf(),
        0 <= n < graph.len(),
        0 <= j < graph.children(n).len(),
    ensures
        graph.children(n)[j] < n,
{
}

/// In a well-formed graph the recorded last usage of a node is the youngest
/// node that has it among its operands, and the node itself where no node
/// has.
pub proof fn lemma_last_usage_is_youngest_reader(graph: GraphModel, n: int)
    requires
        graph.wf(),
        0 <= n < graph.len(),
    ensures
        (forall|m: int| !graph.consumes(m, n)) ==> graph.nodes[n].last_usage == n,
        (exists|m: int| graph.consumes(m, n)) ==> graph.consumes(
            graph.nodes[n].last_usage as int,
            n,
        ),
        forall|m: int| graph.consumes(m, n) ==> n < m <= graph.nodes[n].last_usage,
{
    assert forall|m: int| graph.consumes(m, n) implies n < m <= graph.nodes[n].last_usage by {
        let j = choose|j: int|
            0 <= j < graph.children(m).len() && #[trigger] graph.nodes[m].body.children()[j] == n;
        assert(graph.children(m)[j] < m);
    }
    if exists|m: int| graph.consumes(m, n) {
        let m = choose|m: int| graph.consumes(m, n);
        assert(n < m <= graph.nodes[n].last_usage);
    }
}

/// A graph of tensor expressions under construction.
#[derive(Debug)]
pub struct Graph {
    pub(crate) inputs: Vec<ExprId>,
    pub(crate) exprs: Vec<ExprInfo>,
    pub(crate) outputs: Vec<ExprId>,
}

impl View for Graph {
    type V = GraphModel;

    open(crate) spec fn view(&self) -> GraphModel {
        GraphModel {
            inputs: indices(self.inputs@),
            nodes: self.exprs@.map_values(|info: ExprInfo| info@),
            outputs: indices(self.outputs@),
        }
    }
}

impl Default for Graph {
    fn default() -> (graph: Graph)
        ensures
            graph@ == GraphModel::empty(),
            graph@.wf(),
    {
        Graph::new()
    }
}

impl Graph {
    /// The graph without nodes.
    pub fn new() -> (graph: Graph)
        ensures
            graph@ == GraphModel::empty(),
            graph@.wf(),
    {
        let graph = Graph { inputs: Vec::new(), exprs: Vec::new(), outputs: Vec::new() };
        assert(graph@.inputs =~= Seq::<usize>::empty());
        assert(graph@.nodes =~= Seq::<NodeModel>::empty());
        assert(graph@.outputs =~= Seq::<usize>::empty());
        graph
    }

    /// Number of nodes.
    pub fn len(&self) -> (len: usize)
        ensures
            len == self@.len(),
    {
        self.exprs.len()
    }

    /// The inputs in the order of their declaration.
    pub fn inputs(&self) -> (inputs: &[ExprId])
        ensures
            indices(inputs@) == self@.inputs,
    {
        self.inputs.as_slice()
    }

    /// The declared outputs in the order of their declaration.
    pub fn outputs(&self) -> (outputs: &[ExprId])
        ensures
            indices(outputs@) == self@.outputs,
    {
        self.outputs.as_slice()
    }

    /// The layout inferred for node `id`.
    pub fn layout(&self, id: ExprId) -> (layout: &Layout)
        requires
            id@ < self@.len(),
        ensures
            layout@ == self@.nodes[id@ as int].layout,
    {
        &self.exprs[id.0].layout
    }

    /// For every node, in table order, the node that reads it last.
    pub fn last_usages(&self) -> (usages: Vec<ExprId>)
        ensures
            usages@.len() == self@.len(),
            forall|n: int| 0 <= n < self@.len() ==> usages@[n]@ == self@.nodes[n].last_usage,
    {
        let mut usages: Vec<ExprId> = Vec::new();
        let mut n: usize = 0;
        while n < self.exprs.len()
            invariant
                n <= self.exprs@.len(),
                usages@.len() == n,
                forall|k: int| 0 <= k < n ==> usages@[k] == self.exprs@[k].last_usage,
            decreases self.exprs@.len() - n,
        {
            usages.push(self.exprs[n].last_usage);
            n = n + 1;
        }
        usages
    }

    /// Adds a node with the given body at the end of the table and records
    /// it as the last reader of its operands.
    fn add_expr(&mut self, body: ExprBody) -> (id: ExprId)
        requires
            old(self)@.wf(),
            old(self)@.admits(body@),
        ensures
            id@ == old(self)@.len(),
            final(self)@.nodes == old(self)@.appended(body@),
            final(self).inputs == old(self).inputs,
            final(self).outputs == old(self).outputs,
    {
        let id = ExprId(self.exprs.len());
        let ghost before = self@;
        let layout = match &body {
            ExprBody::Op { op, children } => {
                proof {
                    let operands = indices(children@);
                    assert(before.refusal(op@, operands) is None);
                    assert forall|j: int| 0 <= j < children@.len() implies children@[j]@
                        < before.len() by {
                        if operands[j] >= before.len() {
                            assert(exists|k: int|
                                0 <= k < operands.len() && operands[k] >= before.len());
                        }
                    }
                }
                let mut k: usize = 0;
                while k < children.len()
                    invariant
                        k <= children@.len(),
                        id@ == before.len(),
                        self.exprs@.len() == before.len(),
                        self.inputs == old(self).inputs,
                        self.outputs == old(self).outputs,
                        forall|j: int| 0 <= j < children@.len() ==> children@[j]@ < before.len(),
                        forall|n: int|
                            0 <= n < before.len() ==> (#[trigger] self.exprs@[n])@ == (if exists|
                                j: int,
                            |
                                0 <= j < k && children@[j]@ == n {
                                before.nodes[n].used_by(id@)
                            } else {
                                before.nodes[n]
                            }),
                    decreases children@.len() - k,
                {
                    let child: usize = children[k].0;
                    let ghost marked = self.exprs@;
                    self.exprs[child].last_usage = id;
                    proof {
                        assert forall|n: int| 0 <= n < before.len() implies (
                        #[trigger] self.exprs@[n])@ == (if exists|j: int|
                            0 <= j < k + 1 && children@[j]@ == n {
                            before.nodes[n].used_by(id@)
                        } else {
                            before.nodes[n]
                        }) by {
                            if n == child {
                                assert(children@[k as int]@ == n);
                                assert(marked[n]@.used_by(id@) == before.nodes[n].used_by(id@));
                            } else {
                                assert(self.exprs@[n] == marked[n]);
                                if exists|j: int| 0 <= j < k + 1 && children@[j]@ == n {
                                    let j = choose|j: int| 0 <= j < k + 1 && children@[j]@ == n;
                                    assert(j < k);
                                }
                            }
                        }
                    }
                    k = k + 1;
                }
                let first = &self.exprs[children[0].0].layout;
                let mut operands: Vec<&Layout> = Vec::new();
                operands.push(first);
                proof {
                    let c = children@[0]@ as int;
                    assert(before.node_typed(c));
                    assert(self.exprs@[c]@.layout == before.nodes[c].layout);
                }
                op.infer_layout(operands.as_slice())
            },
            ExprBody::Input(layout) => layout.clone(),
            ExprBody::Const(tensor) => tensor.layout().clone(),
        };
        let ghost model = body@;
        self.exprs.push(ExprInfo { body, layout, last_usage: id });
        proof {
            let after = self@.nodes;
            let wanted = before.appended(model);
            assert(after.len() == wanted.len());
            assert forall|n: int| 0 <= n < after.len() implies after[n] == wanted[n] by {
                if n < before.len() {
                    if model.reads(n) {
                        let j = choose|j: int|
                            0 <= j < model.children().len() && #[trigger] model.children()[j] == n;
                        match body {
                            ExprBody::Op { op, children } => {
                                assert(children@[j]@ == n);
                            },
                            _ => {},
                        }
                    } else {
                        match body {
                            ExprBody::Op { op, children } => {
                                if exists|j: int| 0 <= j < children@.len() && children@[j]@ == n {
                                    let j = choose|j: int|
                                        0 <= j < children@.len() && children@[j]@ == n;
                                    assert(model.children()[j] == n);
                                }
                            },
                            _ => {},
                        }
                    }
                }
            }
            assert(after =~= wanted);
        }
        id
    }

    /// Declares an input with the given layout and returns its handle.
    pub fn add_input(&mut self, layout: Layout) -> (id: ExprId)
        requires
            old(self)@.wf(),
            layout@.wf(),
        ensures
            id@ == old(self)@.len(),
            final(self)@ == old(self)@.with_input(layout@),
            final(self)@.wf(),
    {
        let ghost before = self@;
        let id = self.add_expr(ExprBody::Input(layout));
        self.inputs.push(id);
        proof {
            assert(self@.inputs =~= before.inputs.push(id@));
            lemma_appended_wf(before, BodyModel::Input(layout@), self@.inputs);
        }
        id
    }

    /// Adds a constant and returns its handle. The node has the tensor's
    /// layout.
    pub fn add_const(&mut self, tensor: Tensor) -> (id: ExprId)
        requires
            old(self)@.wf(),
            tensor@.wf(),
        ensures
            id@ == old(self)@.len(),
            final(self)@ == old(self)@.with_const(tensor@),
            final(self)@.wf(),
    {
        let ghost before = self@;
        let id = self.add_expr(ExprBody::Const(tensor));
        proof {
            lemma_appended_wf(before, BodyModel::Const(tensor@), self@.inputs);
        }
        id
    }

    /// Adds the operation `op` on the nodes `children` and returns its
    /// handle, or says why the operation cannot be added; the graph is then
    /// left as it was. The new node is recorded as the last reader of each of
    /// its operands.
    pub fn add_op(&mut self, op: Op, children: &[ExprId]) -> (result: Result<ExprId, ErrorKind>)
        requires
            old(self)@.wf(),
            op@.wf(),
        ensures
            final(self)@.wf(),
            match old(self)@.refusal(op@, indices(children@)) {
                Some(error) => result == Err::<ExprId, ErrorKind>(error) && final(self)@ == old(
                    self,
                )@,
                None => result matches Ok(id) && id@ == old(self)@.len() && final(self)@ == old(
                    self,
                )@.with_op(op@, indices(children@)),
            },
    {
        let ghost before = self@;
        let ghost wanted = indices(children@);
        if children.len() != op.arity() {
            return Err(ErrorKind::MalformedGraph);
        }
        let mut operands: Vec<ExprId> = Vec::new();
        let mut j: usize = 0;
        while j < children.len()
            invariant
                j <= children@.len(),
                self@ == before,
                before.wf(),
                wanted == indices(children@),
                operands@ == children@.take(j as int),
                forall|i: int| 0 <= i < j ==> children@[i]@ < before.len(),
            decreases children@.len() - j,
        {
            if children[j].0 >= self.exprs.len() {
                proof {
                    assert(wanted[j as int] >= before.len());
                }
                return Err(ErrorKind::MalformedGraph);
            }
            operands.push(children[j]);
            proof {
                assert(children@.take(j + 1) =~= children@.take(j as int).push(children@[j as int]));
            }
            j = j + 1;
        }
        proof {
            assert(children@.take(children@.len() as int) =~= children@);
            assert(!(exists|j: int| 0 <= j < wanted.len() && wanted[j] >= before.len()));
            assert(before.node_typed(wanted[0] as int));
        }
        let first = &self.exprs[children[0].0].layout;
        match &op {
            Op::Reduce { dims, .. } => {
                if !first.can_reduce(dims) {
                    return Err(ErrorKind::MalformedGraph);
                }
            },
            Op::Movement(MovementOp::Transpose) => {
                if first.rank() < 2 {
                    return Err(ErrorKind::MalformedGraph);
                }
            },
            Op::Movement(MovementOp::Reshape(shape)) => {
                if shape.elements() != first.elements() {
                    return Err(ErrorKind::IncompatibleReshape);
                }
            },
            _ => {},
        }
        let ghost model = op@;
        let id = self.add_expr(ExprBody::Op { op, children: operands });
        proof {
            lemma_appended_wf(before, BodyModel::Op { op: model, children: wanted }, self@.inputs);
        }
        Ok(id)
    }

    /// Declares node `expr` as an output, or refuses a handle that names no
    /// node of this graph. Layouts and recorded usages are not touched; a node
    /// may be declared more than once.
    pub fn add_output(&mut self, expr: ExprId) -> (result: Result<(), ErrorKind>)
        requires
            old(self)@.wf(),
        ensures
            final(self)@.wf(),
            expr@ < old(self)@.len() ==> result is Ok && final(self)@ == old(self)@.with_output(
                expr@,
            ),
            expr@ >= old(self)@.len() ==> result == Err::<(), ErrorKind>(ErrorKind::MalformedGraph)
                && final(self)@ == old(self)@,
    {
        if expr.0 >= self.exprs.len() {
            return Err(ErrorKind::MalformedGraph);
        }
        let ghost before = self@;
        self.outputs.push(expr);
        proof {
            assert(self@.outputs =~= before.outputs.push(expr@));
            lemma_with_output_wf(before, expr@);
        }
        Ok(())
    }
}

} // verus!
