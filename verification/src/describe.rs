//! Graphs, nodes and operations as text, for messages and logs.

use vstd::prelude::*;

use crate::graph::{
    indices, BodyModel, ElemwiseOp, ExprBody, ExprId, Graph, GraphModel, MovementModel,
    MovementOp, Op, OpModel, ReduceOp,
};
use crate::tensor::LayoutModel;
use crate::text::{decimal_text, joined, joined_text};

verus! {

/// A list of numbers in brackets, as in `[1, 2]`.
pub open spec fn list_text(items: Seq<usize>) -> Seq<char> {
    "["@ + joined_text(items, ", "@) + "]"@
}

/// A handle as it is written: `@` and the position.
pub open spec fn handle_text(id: usize) -> Seq<char> {
    "@"@ + decimal_text(id as nat)
}

/// The handles of `ids`, with a comma and a space between neighbours.
pub open spec fn handles_text(ids: Seq<usize>) -> Seq<char>
    decreases ids.len(),
{
    if ids.len() == 0 {
        Seq::empty()
    } else if ids.len() == 1 {
        handle_text(ids[0])
    } else {
        handles_text(ids.drop_last()) + ", "@ + handle_text(ids.last())
    }
}

impl LayoutModel {
    /// The dimension sizes with `x` between them and the element type, as
    /// in `2x3f32`.
    pub open spec fn text(self) -> Seq<char> {
        joined_text(self.dims, "x"@) + "f32"@
    }

    /// The shape with its fields spelled out.
    pub open spec fn fields_text(self) -> Seq<char> {
        "Shape { dims: "@ + list_text(self.dims) + ", strides: "@ + list_text(self.strides)
            + " }"@
    }
}

impl OpModel {
    /// The operation's name in lower case.
    pub open spec fn name(self) -> Seq<char> {
        match self {
            OpModel::Elemwise(ElemwiseOp::Add) => "add"@,
            OpModel::Elemwise(ElemwiseOp::Mul) => "mul"@,
            OpModel::Elemwise(ElemwiseOp::Sin) => "sin"@,
            OpModel::Reduce { op: ReduceOp::Sum, .. } => "sum"@,
            OpModel::Reduce { op: ReduceOp::Max, .. } => "max"@,
            OpModel::Movement(MovementModel::Reshape(_)) => "reshape"@,
            OpModel::Movement(MovementModel::Transpose) => "transpose"@,
            OpModel::Movement(MovementModel::Squeeze) => "squeeze"@,
        }
    }

    /// The operation's name, followed in parentheses by what else it is made
    /// of: the dimensions of a reduction, the target of a reshape.
    pub open spec fn text(self) -> Seq<char> {
        match self {
            OpModel::Reduce { dims, .. } => self.name() + "(dims="@ + list_text(dims) + ")"@,
            OpModel::Movement(MovementModel::Reshape(target)) => self.name() + "(shape="@
                + target.fields_text() + ")"@,
            _ => self.name(),
        }
    }
}

impl BodyModel {
    /// An operation applied to the handles of its operands, `?` for an
    /// input, `..` for a constant.
    pub open spec fn text(self) -> Seq<char> {
        match self {
            BodyModel::Op { op, children } => if children.len() == 0 {
                op.text()
            } else {
                op.text() + "("@ + handles_text(children) + ")"@
            },
            BodyModel::Input(_) => "?"@,
            BodyModel::Const(_) => ".."@,
        }
    }
}

impl GraphModel {
    /// The first `upto` inputs, each with its layout.
    pub open spec fn inputs_text(self, upto: int) -> Seq<char>
        decreases upto,
    {
        if upto <= 0 {
            Seq::empty()
        } else {
            let id = self.inputs[upto - 1];
            let entry = handle_text(id) + ": "@ + self.nodes[id as int].layout.text();
            if upto == 1 {
                entry
            } else {
                self.inputs_text(upto - 1) + ", "@ + entry
            }
        }
    }

    /// How many of the first `upto` nodes are no inputs.
    pub open spec fn listed(self, upto: int) -> nat
        decreases upto,
    {
        if upto <= 0 {
            0
        } else if self.nodes[upto - 1].body is Input {
            self.listed(upto - 1)
        } else {
            self.listed(upto - 1) + 1
        }
    }

    /// The line of node `n`: handle, layout and body.
    pub open spec fn node_text(self, n: int, pretty: bool) -> Seq<char> {
        (if pretty {
            "    "@
        } else {
            Seq::empty()
        }) + handle_text(n as usize) + ": "@ + self.nodes[n].layout.text() + " = "@
            + self.nodes[n].body.text() + ";"@
    }

    /// The lines of those of the first `upto` nodes that are no inputs, on
    /// lines of their own if `pretty`, else with a space between them.
    pub open spec fn nodes_text(self, upto: int, pretty: bool) -> Seq<char>
        decreases upto,
    {
        if upto <= 0 {
            Seq::empty()
        } else if self.nodes[upto - 1].body is Input {
            self.nodes_text(upto - 1, pretty)
        } else if self.listed(upto - 1) == 0 {
            self.node_text(upto - 1, pretty)
        } else {
            self.nodes_text(upto - 1, pretty) + (if pretty {
                "\n"@
            } else {
                " "@
            }) + self.node_text(upto - 1, pretty)
        }
    }

    /// The graph as text: the inputs with their layouts, the outputs, and in
    /// braces one line for every node that is no input.
    pub open spec fn text(self, pretty: bool) -> Seq<char> {
        let gap = if pretty {
            "\n"@
        } else {
            " "@
        };
        "("@ + self.inputs_text(self.inputs.len() as int) + ") -> ("@ + handles_text(
            self.outputs,
        ) + ") {"@ + gap + self.nodes_text(self.len() as int, pretty) + gap + "}"@
    }
}

/// Where no node is listed there is no line.
proof fn lemma_nothing_listed(graph: GraphModel, upto: int, pretty: bool)
    requires
        graph.listed(upto) == 0,
    ensures
        graph.nodes_text(upto, pretty) == Seq::<char>::empty(),
    decreases upto,
{
    if upto > 0 {
        lemma_nothing_listed(graph, upto - 1, pretty);
    }
}

/// A list of numbers in brackets.
fn list(items: &[usize]) -> (text: String)
    ensures
        text@ == list_text(items@),
{
    let mut text = String::from_str("[");
    let inner = joined(items, ", ");
    text.append(inner.as_str());
    text.append("]");
    text
}

/// The handles of `ids`, with a comma and a space between neighbours.
fn handles(ids: &Vec<ExprId>) -> (text: String)
    ensures
        text@ == handles_text(indices(ids@)),
{
    let ghost all = indices(ids@);
    let mut text = String::new();
    let mut i: usize = 0;
    proof {
        assert(all.take(0) =~= Seq::<usize>::empty());
    }
    while i < ids.len()
        invariant
            i <= ids@.len(),
            all == indices(ids@),
            text@ == handles_text(all.take(i as int)),
        decreases ids@.len() - i,
    {
        proof {
            let next = all.take(i + 1);
            assert(next.drop_last() =~= all.take(i as int));
            assert(next.last() == ids@[i as int]@);
            if i == 0 {
                assert(text@ + handle_text(ids@[0]@) =~= handle_text(ids@[0]@));
            }
        }
        if i > 0 {
            text.append(", ");
        }
        let handle = ids[i].to_text();
        text.append(handle.as_str());
        i = i + 1;
    }
    proof {
        assert(all.take(ids@.len() as int) =~= all);
    }
    text
}

impl Op {
    /// The operation's name in lower case.
    pub fn name(&self) -> (name: &'static str)
        ensures
            name@ == self@.name(),
    {
        match self {
            Op::Elemwise(op) => op.name(),
            Op::Reduce { op, .. } => op.name(),
            Op::Movement(op) => op.name(),
        }
    }

    /// The operation's name, followed in parentheses by what else it is made
    /// of.
    pub fn to_text(&self) -> (text: String)
        ensures
            text@ == self@.text(),
    {
        let mut text = String::from_str(self.name());
        match self {
            Op::Reduce { dims, .. } => {
                text.append("(dims=");
                let axes = list(dims.as_slice());
                text.append(axes.as_str());
                text.append(")");
            },
            Op::Movement(MovementOp::Reshape(shape)) => {
                text.append("(shape=");
                text.append("Shape { dims: ");
                let dims = list(shape.dims());
                text.append(dims.as_str());
                text.append(", strides: ");
                let strides = list(shape.strides());
                text.append(strides.as_str());
                text.append(" }");
                text.append(")");
                proof {
                    assert(text@ =~= self@.text());
                }
            },
            _ => {},
        }
        text
    }
}

impl ExprBody {
    /// An operation applied to the handles of its operands, `?` for an
    /// input, `..` for a constant.
    pub fn to_text(&self) -> (text: String)
        ensures
            text@ == self@.text(),
    {
        match self {
            ExprBody::Op { op, children } => {
                let mut text = op.to_text();
                if children.len() > 0 {
                    text.append("(");
                    let operands = handles(children);
                    text.append(operands.as_str());
                    text.append(")");
                }
                text
            },
            ExprBody::Input(_) => String::from_str("?"),
            ExprBody::Const(_) => String::from_str(".."),
        }
    }
}

impl Graph {
    /// The line of node `n`: handle, layout and body.
    fn node_line(&self, n: usize, pretty: bool) -> (text: String)
        requires
            n < self@.len(),
        ensures
            text@ == self@.node_text(n as int, pretty),
    {
        proof {
            assert(self@.nodes[n as int] == self.exprs@[n as int]@);
        }
        let mut text = String::new();
        if pretty {
            text.append("    ");
        }
        let handle = ExprId::new(n).to_text();
        text.append(handle.as_str());
        text.append(": ");
        let layout = self.exprs[n].layout.to_text();
        text.append(layout.as_str());
        text.append(" = ");
        let body = self.exprs[n].body.to_text();
        text.append(body.as_str());
        text.append(";");
        proof {
            assert(text@ =~= self@.node_text(n as int, pretty));
        }
        text
    }

    /// The graph as text: the inputs with their layouts, the outputs, and in
    /// braces every node that is no input, with its handle, layout and body.
    /// With `pretty` every node stands on an indented line of its own.
    pub fn to_text(&self, pretty: bool) -> (text: String)
        requires
            self@.wf(),
        ensures
            text@ == self@.text(pretty),
    {
        let mut text = String::from_str("(");
        let mut i: usize = 0;
        while i < self.inputs.len()
            invariant
                i <= self@.inputs.len(),
                self@.wf(),
                text@ == "("@ + self@.inputs_text(i as int),
            decreases self@.inputs.len() - i,
        {
            let id = self.inputs[i];
            proof {
                assert(self@.inputs[i as int] == id@);
                assert(id@ < self@.len());
                assert(self@.nodes[id@ as int] == self.exprs@[id@ as int]@);
            }
            if i > 0 {
                text.append(", ");
            }
            let handle = id.to_text();
            text.append(handle.as_str());
            text.append(": ");
            let layout = self.exprs[id.index()].layout.to_text();
            text.append(layout.as_str());
            proof {
                assert(text@ =~= "("@ + self@.inputs_text(i + 1));
            }
            i = i + 1;
        }
        text.append(") -> (");
        let outputs = handles(&self.outputs);
        text.append(outputs.as_str());
        text.append(") {");
        text.append(if pretty {
            "\n"
        } else {
            " "
        });
        let ghost head = text@;
        let mut any: bool = false;
        let mut n: usize = 0;
        proof {
            assert(text@ =~= head + self@.nodes_text(0, pretty));
        }
        while n < self.exprs.len()
            invariant
                n <= self@.len(),
                any == (self@.listed(n as int) > 0),
                text@ == head + self@.nodes_text(n as int, pretty),
            decreases self@.len() - n,
        {
            proof {
                assert(self@.nodes[n as int] == self.exprs@[n as int]@);
            }
            match &self.exprs[n].body {
                ExprBody::Input(_) => {},
                _ => {
                    let ghost before = text@;
                    let ghost gap = if pretty {
                        "\n"@
                    } else {
                        " "@
                    };
                    if any {
                        text.append(if pretty {
                            "\n"
                        } else {
                            " "
                        });
                    }
                    let line = self.node_line(n, pretty);
                    text.append(line.as_str());
                    proof {
                        let lines = self@.nodes_text(n as int, pretty);
                        let entry = self@.node_text(n as int, pretty);
                        assert(!(self@.nodes[n as int].body is Input));
                        if any {
                            assert(text@ == before + gap + entry);
                            assert(head + lines + gap + entry =~= head + (lines + gap + entry));
                        } else {
                            lemma_nothing_listed(self@, n as int, pretty);
                            assert(text@ == before + entry);
                        }
                        assert(text@ =~= head + self@.nodes_text(n + 1, pretty));
                    }
                    any = true;
                },
            }
            n = n + 1;
        }
        text.append(if pretty {
            "\n"
        } else {
            " "
        });
        text.append("}");
        proof {
            assert(text@ =~= self@.text(pretty));
        }
        text
    }
}

} // verus!
