//! The compiler: from a graph to a plan.

use vstd::prelude::*;

use crate::compiler::Compiler;
use crate::error::ErrorKind;
use crate::graph::{
    indices, BodyModel, ElemwiseOp, ExprBody, ExprId, ExprInfo, Graph, GraphModel, Op, OpModel,
};
use crate::tensor::Layout;
use crate::wgpu::expr::{WgpuExpr, WgpuOp};
use crate::tensor::LayoutModel;
use crate::wgpu::kernel::{
    element_name, element_name_text, elemwise, elemwise_variables, no_entries, operand_handles,
    operand_models, rendered_text, Json, KernelTemplates, ELEMWISE,
};
use crate::wgpu::plan::{step_models, StepModel, WgpuPlan, WgpuStep};
use crate::wgpu::schedule::{lemma_alias_is_older, workgroups_for};

verus! {

/// The texts of a sequence of kernels.
pub open spec fn kernel_texts(kernels: Seq<String>) -> Seq<Seq<char>> {
    kernels.map_values(|kernel: String| kernel@)
}

/// Lowers graphs to plans for a WebGPU backend.
pub struct WgpuCompiler {
    /// Number of threads in a work group, along x.
    pub workgroup_size_x: u32,
    /// The templates that kernels are rendered from.
    pub templates: KernelTemplates,
}

impl Default for WgpuCompiler {
    /// Work groups of 256 threads.
    fn default() -> (compiler: WgpuCompiler)
        ensures
            compiler.workgroup_size_x == 256,
    {
        WgpuCompiler::new(256)
    }
}

/// The entries of `ids` without repetitions, each where it first occurs.
pub open spec fn distinct(ids: Seq<usize>) -> Seq<usize>
    decreases ids.len(),
{
    if ids.len() == 0 {
        Seq::empty()
    } else {
        let rest = distinct(ids.drop_last());
        if rest.contains(ids.last()) {
            rest
        } else {
            rest.push(ids.last())
        }
    }
}

/// The expression that applies `op` to the current elements of the nodes
/// `children`, as source text.
pub open spec fn elemwise_text(op: ElemwiseOp, children: Seq<usize>) -> Seq<char> {
    match op {
        ElemwiseOp::Add => "("@ + element_name_text(children[0]) + ") "@ + "+"@ + " ("@
            + element_name_text(children[1]) + ")"@,
        ElemwiseOp::Mul => "("@ + element_name_text(children[0]) + ") "@ + "*"@ + " ("@
            + element_name_text(children[1]) + ")"@,
        ElemwiseOp::Sin => "sin"@ + "("@ + element_name_text(children[0]) + ")"@,
    }
}

impl GraphModel {
    /// Whether node `n` is an elementwise operation.
    pub open spec fn is_elemwise(self, n: int) -> bool {
        self.nodes[n].body matches BodyModel::Op { op, .. } && op is Elemwise
    }

    /// The operands that the kernel of node `n` is told of: the nodes that
    /// `n` reads, each once, where it first occurs, with its layout.
    pub open spec fn kernel_operands(self, n: int) -> Seq<(usize, LayoutModel)> {
        distinct(self.children(n)).map_values(|child: usize| (child, self.nodes[child as int].layout))
    }

    /// The variables that the kernel of node `n` is rendered with; none for
    /// a node that is no elementwise operation.
    pub open spec fn kernel_variables(self, n: int, width: u32) -> Map<Seq<char>, Json> {
        match self.nodes[n].body {
            BodyModel::Op { op: OpModel::Elemwise(op), children } => elemwise_variables(
                width,
                self.nodes[n].layout,
                self.kernel_operands(n),
                elemwise_text(op, children),
            ),
            _ => no_entries(),
        }
    }

    /// The kernel of node `n`: what the template for elementwise kernels
    /// among `templates` renders to with the node's variables, if it renders.
    pub open spec fn kernel_of(self, n: int, width: u32, templates: Map<Seq<char>, Seq<char>>) -> Option<
        Seq<char>,
    > {
        rendered_text(templates, ELEMWISE@, self.kernel_variables(n, width))
    }

    /// Whether every elementwise operation has a kernel.
    pub open spec fn has_kernels(self, width: u32, templates: Map<Seq<char>, Seq<char>>) -> bool {
        forall|n: int|
            0 <= n < self.len() && #[trigger] self.is_elemwise(n) ==> self.kernel_of(
                n,
                width,
                templates,
            ) is Some
    }

    /// For every node its kernel; the empty text for a node that has none.
    pub open spec fn kernels(self, width: u32, templates: Map<Seq<char>, Seq<char>>) -> Seq<
        Seq<char>,
    > {
        Seq::new(
            self.len(),
            |n: int|
                if self.is_elemwise(n) && self.kernel_of(n, width, templates) is Some {
                    self.kernel_of(n, width, templates)->Some_0
                } else {
                    Seq::empty()
                },
        )
    }
}

/// `distinct` holds no entry twice.
pub proof fn lemma_distinct_no_duplicates(ids: Seq<usize>)
    ensures
        distinct(ids).no_duplicates(),
    decreases ids.len(),
{
    if ids.len() > 0 {
        let rest = distinct(ids.drop_last());
        lemma_distinct_no_duplicates(ids.drop_last());
        if !rest.contains(ids.last()) {
            let all = rest.push(ids.last());
            assert forall|i: int, j: int|
                0 <= i < all.len() && 0 <= j < all.len() && i != j implies all[i] != all[j] by {
                if i < rest.len() && j < rest.len() {
                    assert(rest[i] != rest[j]);
                } else if i < rest.len() {
                    assert(rest.contains(rest[i]));
                } else {
                    assert(rest.contains(rest[j]));
                }
            }
        }
    }
}

/// The operands of a kernel: the nodes in `children`, each once, with their
/// layouts.
fn kernel_operands<'a>(graph: &'a Graph, children: &Vec<ExprId>) -> (operands: Vec<
    (ExprId, &'a Layout),
>)
    requires
        graph@.wf(),
        forall|j: int| 0 <= j < children@.len() ==> children@[j]@ < graph@.len(),
    ensures
        operand_handles(operands@) == distinct(indices(children@)),
        operand_handles(operands@).no_duplicates(),
        forall|i: int|
            0 <= i < operands@.len() ==> (#[trigger] operands@[i]).0@ < graph@.len()
                && operands@[i].1@ == graph@.nodes[operands@[i].0@ as int].layout
                && operands@[i].1@.wf(),
{
    let mut operands: Vec<(ExprId, &'a Layout)> = Vec::new();
    let mut j: usize = 0;
    proof {
        assert(indices(children@).take(0) =~= Seq::<usize>::empty());
        assert(operand_handles(operands@) =~= Seq::<
            usize,
        >::empty());
    }
    while j < children.len()
        invariant
            j <= children@.len(),
            graph@.wf(),
            forall|k: int| 0 <= k < children@.len() ==> children@[k]@ < graph@.len(),
            operand_handles(operands@) == distinct(
                indices(children@).take(j as int),
            ),
            forall|i: int|
                0 <= i < operands@.len() ==> (#[trigger] operands@[i]).0@ < graph@.len()
                    && operands@[i].1@ == graph@.nodes[operands@[i].0@ as int].layout
                    && operands@[i].1@.wf(),
        decreases children@.len() - j,
    {
        let id = children[j];
        let ghost names = operand_handles(operands@);
        let mut known: bool = false;
        let mut i: usize = 0;
        while i < operands.len()
            invariant
                i <= operands@.len(),
                names == operand_handles(operands@),
                known == exists|k: int| 0 <= k < i && names[k] == id@,
            decreases operands@.len() - i,
        {
            if operands[i].0.index() == id.index() {
                known = true;
                proof {
                    assert(names[i as int] == id@);
                }
            }
            i = i + 1;
        }
        proof {
            let seen = indices(children@).take(j + 1);
            assert(seen.drop_last() =~= indices(children@).take(j as int));
            assert(seen.last() == id@);
            assert(known == names.contains(id@));
            assert(graph@.node_typed(id@ as int));
            assert(graph@.nodes[id@ as int] == graph.exprs@[id@ as int]@);
        }
        if !known {
            operands.push((id, &graph.exprs[id.index()].layout));
            proof {
                assert(operand_handles(operands@) =~= names.push(
                    id@,
                ));
            }
        }
        j = j + 1;
    }
    proof {
        assert(indices(children@).take(children@.len() as int) =~= indices(children@));
        lemma_distinct_no_duplicates(indices(children@));
    }
    operands
}

/// The expression that applies `op` to the current elements of `children`.
fn kernel_expr(op: ElemwiseOp, children: &Vec<ExprId>) -> (expr: WgpuExpr)
    requires
        children@.len() == op.arity(),
    ensures
        expr.wf(),
        expr.op == (match op {
            ElemwiseOp::Add => WgpuOp::Add,
            ElemwiseOp::Mul => WgpuOp::Mul,
            ElemwiseOp::Sin => WgpuOp::Sin,
        }),
        expr.children@.len() == children@.len(),
        forall|j: int|
            0 <= j < children@.len() ==> (#[trigger] expr.children@[j]).text()
                == element_name_text(children@[j]@),
        expr.text() == elemwise_text(op, indices(children@)),
{
    let mut variables: Vec<WgpuExpr> = Vec::new();
    let mut j: usize = 0;
    while j < children.len()
        invariant
            j <= children@.len(),
            variables@.len() == j,
            forall|k: int| 0 <= k < j ==> (#[trigger] variables@[k]).wf(),
            forall|k: int|
                0 <= k < j ==> (#[trigger] variables@[k]).text()
                    == element_name_text(children@[k]@),
        decreases children@.len() - j,
    {
        variables.push(WgpuExpr::new_var(element_name(children[j])));
        j = j + 1;
    }
    let head = match op {
        ElemwiseOp::Add => WgpuOp::Add,
        ElemwiseOp::Mul => WgpuOp::Mul,
        ElemwiseOp::Sin => WgpuOp::Sin,
    };
    let expr = WgpuExpr::new(head, variables);
    proof {
        assert(expr.children@[0].text() == element_name_text(children@[0]@));
        if op.arity() == 2 {
            assert(expr.children@[1].text() == element_name_text(children@[1]@));
        } else {
            assert(expr.arguments(1) == expr.children@[0].text());
        }
        assert(expr.text() == elemwise_text(op, indices(children@)));
    }
    expr
}

/// For every node, the node in whose buffer it lives.
fn resolve_aliases(graph: &Graph) -> (aliases: Vec<usize>)
    requires
        graph@.wf(),
    ensures
        aliases@.len() == graph@.len(),
        forall|n: int| 0 <= n < graph@.len() ==> aliases@[n] == graph@.alias(n),
{
    let mut aliases: Vec<usize> = Vec::new();
    let mut n: usize = 0;
    while n < graph.exprs.len()
        invariant
            n <= graph@.len(),
            graph@.wf(),
            aliases@.len() == n,
            forall|m: int| 0 <= m < n ==> aliases@[m] == graph@.alias(m),
        decreases graph@.len() - n,
    {
        proof {
            assert(graph@.node_typed(n as int));
            assert(graph@.nodes[n as int] == graph.exprs@[n as int]@);
        }
        let owner: usize = match &graph.exprs[n].body {
            ExprBody::Op { op: Op::Movement(_), children } => {
                proof {
                    assert(graph@.children(n as int) == indices(children@));
                    assert(graph@.children(n as int)[0] < n);
                }
                aliases[children[0].index()]
            },
            _ => n,
        };
        aliases.push(owner);
        n = n + 1;
    }
    aliases
}

/// For every buffer, the node after whose step it is no longer needed.
fn release_points(graph: &Graph, aliases: &Vec<usize>) -> (points: Vec<usize>)
    requires
        graph@.wf(),
        aliases@.len() == graph@.len(),
        forall|n: int| 0 <= n < graph@.len() ==> aliases@[n] == graph@.alias(n),
    ensures
        points@.len() == graph@.len(),
        forall|s: int| 0 <= s < graph@.len() ==> points@[s] == graph@.release_point(s),
{
    let len: usize = graph.exprs.len();
    let mut points: Vec<usize> = Vec::new();
    let mut s: usize = 0;
    while s < len
        invariant
            s <= len,
            points@.len() == s,
            forall|t: int| 0 <= t < s ==> points@[t] == t,
        decreases len - s,
    {
        points.push(s);
        s = s + 1;
    }
    let mut n: usize = 0;
    while n < len
        invariant
            n <= len,
            len == graph@.len(),
            graph@.wf(),
            aliases@.len() == len,
            forall|m: int| 0 <= m < len ==> aliases@[m] == graph@.alias(m),
            points@.len() == len,
            forall|t: int| 0 <= t < len ==> points@[t] == graph@.last_usage_within(t, n as int),
        decreases len - n,
    {
        let owner: usize = aliases[n];
        let usage: usize = graph.exprs[n].last_usage.index();
        proof {
            lemma_alias_is_older(graph@, n as int);
            assert(graph@.nodes[n as int] == graph.exprs@[n as int]@);
        }
        if usage > points[owner] {
            points.set(owner, usage);
        }
        n = n + 1;
    }
    points
}

/// For every buffer, whether it holds a declared output.
fn retrieved_buffers(graph: &Graph, aliases: &Vec<usize>) -> (flags: Vec<bool>)
    requires
        graph@.wf(),
        aliases@.len() == graph@.len(),
        forall|n: int| 0 <= n < graph@.len() ==> aliases@[n] == graph@.alias(n),
    ensures
        flags@.len() == graph@.len(),
        forall|s: int| 0 <= s < graph@.len() ==> flags@[s] == graph@.retrieved(s),
{
    let len: usize = graph.exprs.len();
    let mut flags: Vec<bool> = Vec::new();
    let mut s: usize = 0;
    while s < len
        invariant
            s <= len,
            flags@.len() == s,
            forall|t: int| 0 <= t < s ==> !flags@[t],
        decreases len - s,
    {
        flags.push(false);
        s = s + 1;
    }
    let mut i: usize = 0;
    while i < graph.outputs.len()
        invariant
            i <= graph@.outputs.len(),
            len == graph@.len(),
            graph@.wf(),
            aliases@.len() == len,
            forall|m: int| 0 <= m < len ==> aliases@[m] == graph@.alias(m),
            flags@.len() == len,
            forall|t: int|
                0 <= t < len ==> flags@[t] == exists|k: int|
                    0 <= k < i && #[trigger] graph@.alias(graph@.outputs[k] as int) == t,
        decreases graph@.outputs.len() - i,
    {
        let output: usize = graph.outputs[i].index();
        proof {
            assert(graph@.outputs[i as int] == output);
            assert(output < len);
            lemma_alias_is_older(graph@, output as int);
        }
        let owner: usize = aliases[output];
        let ghost earlier = flags@;
        flags.set(owner, true);
        proof {
            assert forall|t: int| 0 <= t < len implies flags@[t] == exists|k: int|
                0 <= k < i + 1 && #[trigger] graph@.alias(graph@.outputs[k] as int) == t by {
                if t == owner {
                    assert(graph@.alias(graph@.outputs[i as int] as int) == t);
                } else {
                    if exists|k: int|
                        0 <= k < i + 1 && #[trigger] graph@.alias(graph@.outputs[k] as int) == t {
                        let k = choose|k: int|
                            0 <= k < i + 1 && #[trigger] graph@.alias(graph@.outputs[k] as int)
                                == t;
                        assert(k < i);
                    }
                }
            }
        }
        i = i + 1;
    }
    flags
}

/// For every node, the size of its layout in bytes.
fn byte_sizes(graph: &Graph) -> (sizes: Vec<usize>)
    requires
        graph@.wf(),
    ensures
        sizes@.len() == graph@.len(),
        forall|n: int| 0 <= n < graph@.len() ==> sizes@[n] == graph@.nodes[n].layout.size(),
{
    let mut sizes: Vec<usize> = Vec::new();
    let mut n: usize = 0;
    while n < graph.exprs.len()
        invariant
            n <= graph@.len(),
            graph@.wf(),
            sizes@.len() == n,
            forall|m: int| 0 <= m < n ==> sizes@[m] == graph@.nodes[m].layout.size(),
        decreases graph@.len() - n,
    {
        proof {
            assert(graph@.node_typed(n as int));
            assert(graph@.nodes[n as int] == graph.exprs@[n as int]@);
        }
        sizes.push(graph.exprs[n].layout.size());
        n = n + 1;
    }
    sizes
}

/// The number of work groups of `width` threads that cover `elements`
/// elements.
fn count_workgroups(elements: usize, width: u32) -> (groups: usize)
    requires
        width > 0,
    ensures
        groups == workgroups_for(elements as nat, width as nat),
{
    let width: usize = width as usize;
    let whole: usize = elements / width;
    if elements % width == 0 {
        whole
    } else {
        assert(whole < elements) by (nonlinear_arith)
            requires
                whole == elements / width,
                elements % width != 0,
                width > 0,
        ;
        whole + 1
    }
}

/// Whether one of the first `upto` operands lives in buffer `s`.
fn shares_buffer(children: &Vec<ExprId>, aliases: &Vec<usize>, upto: usize, s: usize) -> (found:
    bool)
    requires
        upto <= children@.len(),
        forall|j: int| 0 <= j < children@.len() ==> children@[j]@ < aliases@.len(),
    ensures
        found == exists|i: int| 0 <= i < upto && aliases@[children@[i]@ as int] == s,
{
    let mut i: usize = 0;
    while i < upto
        invariant
            i <= upto,
            upto <= children@.len(),
            forall|j: int| 0 <= j < children@.len() ==> children@[j]@ < aliases@.len(),
            forall|k: int| 0 <= k < i ==> aliases@[children@[k]@ as int] != s,
        decreases upto - i,
    {
        if aliases[children[i].index()] == s {
            return true;
        }
        i = i + 1;
    }
    false
}

/// Appends to `steps` the deallocations that follow the step of node `n`.
fn push_deallocations(
    steps: &mut Vec<WgpuStep>,
    Ghost(graph): Ghost<GraphModel>,
    n: usize,
    children: &Vec<ExprId>,
    aliases: &Vec<usize>,
    points: &Vec<usize>,
    flags: &Vec<bool>,
)
    requires
        graph.wf(),
        n < graph.len(),
        graph.children(n as int) == indices(children@),
        aliases@.len() == graph.len(),
        forall|m: int| 0 <= m < graph.len() ==> aliases@[m] == graph.alias(m),
        points@.len() == graph.len(),
        forall|s: int| 0 <= s < graph.len() ==> points@[s] == graph.release_point(s),
        flags@.len() == graph.len(),
        forall|s: int| 0 <= s < graph.len() ==> flags@[s] == graph.retrieved(s),
    ensures
        step_models(final(steps)@) == step_models(old(steps)@) + graph.deallocations(
            n as int,
            children@.len() as int,
        ),
{
    let ghost before = step_models(steps@);
    proof {
        assert forall|j: int| 0 <= j < children@.len() implies children@[j]@ < n by {
            assert(graph.children(n as int)[j] < n);
        }
        assert(before + graph.deallocations(n as int, 0) =~= before);
    }
    let mut j: usize = 0;
    while j < children.len()
        invariant
            j <= children@.len(),
            graph.wf(),
            n < graph.len(),
            graph.children(n as int) == indices(children@),
            forall|k: int| 0 <= k < children@.len() ==> children@[k]@ < n,
            aliases@.len() == graph.len(),
            forall|m: int| 0 <= m < graph.len() ==> aliases@[m] == graph.alias(m),
            points@.len() == graph.len(),
            forall|s: int| 0 <= s < graph.len() ==> points@[s] == graph.release_point(s),
            flags@.len() == graph.len(),
            forall|s: int| 0 <= s < graph.len() ==> flags@[s] == graph.retrieved(s),
            step_models(steps@) == before + graph.deallocations(n as int, j as int),
        decreases children@.len() - j,
    {
        let buffer: usize = aliases[children[j].index()];
        proof {
            lemma_alias_is_older(graph, children@[j as int]@ as int);
            assert(graph.operand_buffer(n as int, j as int) == buffer);
        }
        let repeated: bool = shares_buffer(children, aliases, j, buffer);
        proof {
            if repeated {
                let i = choose|i: int| 0 <= i < j && aliases@[children@[i]@ as int] == buffer;
                assert(graph.operand_buffer(n as int, i) == buffer);
            } else {
                assert forall|i: int| 0 <= i < j implies #[trigger] graph.operand_buffer(
                    n as int,
                    i,
                ) != buffer by {
                    assert(aliases@[children@[i]@ as int] != buffer);
                }
            }
            assert(repeated == !(forall|i: int|
                0 <= i < j ==> #[trigger] graph.operand_buffer(n as int, i) != buffer));
        }
        if points[buffer] == n && !flags[buffer] && !repeated {
            let ghost earlier = steps@;
            steps.push(WgpuStep::Deallocate(ExprId::new(buffer)));
            proof {
                assert(graph.releases(n as int, j as int));
                assert(step_models(steps@) =~= step_models(earlier).push(
                    StepModel::Deallocate(buffer),
                ));
                assert(step_models(steps@) =~= before + graph.deallocations(n as int, j + 1));
            }
        } else {
            proof {
                assert(!graph.releases(n as int, j as int));
            }
        }
        j = j + 1;
    }
}

/// The dispatch of node `n` with the kernel `source`.
fn execution_step(
    Ghost(graph): Ghost<GraphModel>,
    n: usize,
    layout: &Layout,
    children: &Vec<ExprId>,
    width: u32,
    source: String,
    aliases: &Vec<usize>,
    sizes: &Vec<usize>,
) -> (step: WgpuStep)
    requires
        graph.wf(),
        n < graph.len(),
        width > 0,
        graph.node_supported(n as int, width),
        graph.nodes[n as int].body is Op,
        !graph.is_view(n as int),
        graph.children(n as int) == indices(children@),
        layout@ == graph.nodes[n as int].layout,
        aliases@.len() == graph.len(),
        forall|m: int| 0 <= m < graph.len() ==> aliases@[m] == graph.alias(m),
        sizes@.len() == graph.len(),
        forall|m: int| 0 <= m < graph.len() ==> sizes@[m] == graph.nodes[m].layout.size(),
    ensures
        step@ == graph.execution(n as int, width, source@),
{
    proof {
        assert(graph.node_typed(n as int));
        assert forall|j: int| 0 <= j < children@.len() implies children@[j]@ < n by {
            assert(graph.children(n as int)[j] < n);
        }
    }
    let groups: usize = count_workgroups(layout.elements(), width);
    let workgroups: [u32; 3] = [groups as u32, 1, 1];
    let mut inputs: Vec<ExprId> = Vec::new();
    let mut inputs_layout: Vec<(usize, bool)> = Vec::new();
    inputs.push(ExprId::new(n));
    inputs_layout.push((sizes[n], false));
    let mut j: usize = 0;
    while j < children.len()
        invariant
            j <= children@.len(),
            n < graph.len(),
            graph.children(n as int) == indices(children@),
            forall|k: int| 0 <= k < children@.len() ==> children@[k]@ < n,
            aliases@.len() == graph.len(),
            forall|m: int| 0 <= m < graph.len() ==> aliases@[m] == graph.alias(m),
            sizes@.len() == graph.len(),
            forall|m: int| 0 <= m < graph.len() ==> sizes@[m] == graph.nodes[m].layout.size(),
            inputs@.len() == j + 1,
            inputs_layout@.len() == j + 1,
            inputs@[0]@ == n,
            inputs_layout@[0] == (sizes@[n as int], false),
            forall|k: int| 0 <= k < j ==> inputs@[k + 1]@ == graph.operand_buffer(n as int, k),
            forall|k: int|
                0 <= k < j ==> inputs_layout@[k + 1] == (
                    graph.nodes[graph.children(n as int)[k] as int].layout.size() as usize,
                    true,
                ),
        decreases children@.len() - j,
    {
        let child: usize = children[j].index();
        inputs.push(ExprId::new(aliases[child]));
        inputs_layout.push((sizes[child], true));
        j = j + 1;
    }
    let step = WgpuStep::Execute { output: ExprId::new(n), source, workgroups, inputs, inputs_layout };
    proof {
        let wanted = graph.execution(n as int, width, source@);
        assert(workgroups@ =~= wanted->Execute_workgroups);
        assert(indices(inputs@) =~= wanted->Execute_inputs);
        assert(inputs_layout@ =~= wanted->Execute_inputs_layout);
    }
    step
}

impl WgpuCompiler {
    /// The compiler for work groups of `workgroup_size_x` threads, with the
    /// templates of this library.
    pub fn new(workgroup_size_x: u32) -> (compiler: WgpuCompiler)
        ensures
            compiler.workgroup_size_x == workgroup_size_x,
    {
        WgpuCompiler { workgroup_size_x, templates: KernelTemplates::new() }
    }

    /// Whether every node of `graph` can be lowered: the graph holds no
    /// reduction, and no elementwise operation needs more work groups than a
    /// dispatch can name.
    pub fn supports(&self, graph: &Graph) -> (supported: bool)
        requires
            graph@.wf(),
        ensures
            supported == graph@.supported(self.workgroup_size_x),
    {
        if self.workgroup_size_x == 0 {
            return false;
        }
        let mut n: usize = 0;
        while n < graph.exprs.len()
            invariant
                n <= graph@.len(),
                graph@.wf(),
                self.workgroup_size_x > 0,
                forall|m: int| 0 <= m < n ==> #[trigger] graph@.node_supported(m, self.workgroup_size_x),
            decreases graph@.len() - n,
        {
            proof {
                assert(graph@.node_typed(n as int));
                assert(graph@.nodes[n as int] == graph.exprs@[n as int]@);
            }
            let fits: bool = match &graph.exprs[n].body {
                ExprBody::Op { op: Op::Reduce { .. }, .. } => false,
                ExprBody::Op { op: Op::Elemwise(_), .. } => {
                    let groups: usize = count_workgroups(
                        graph.exprs[n].layout.elements(),
                        self.workgroup_size_x,
                    );
                    groups <= u32::MAX as usize
                },
                _ => true,
            };
            if !fits {
                proof {
                    assert(!graph@.node_supported(n as int, self.workgroup_size_x));
                }
                return false;
            }
            n = n + 1;
        }
        true
    }

    /// The plan of `graph` with the given kernels, one per node in table
    /// order; the entries of nodes that are not executed are not looked at.
    ///
    /// A graph with a node that cannot be lowered is refused before anything
    /// else is looked at. Kernels that do not come one per node count as a
    /// failure of whoever generated them.
    pub fn lower(&self, graph: Graph, kernels: Vec<String>) -> (result: Result<WgpuPlan, ErrorKind>)
        requires
            graph@.wf(),
        ensures
            match result {
                Ok(plan) => {
                    &&& graph@.supported(self.workgroup_size_x)
                    &&& kernels@.len() == graph@.len()
                    &&& plan@ == graph@.plan(self.workgroup_size_x, kernel_texts(kernels@))
                },
                Err(error) => {
                    if !graph@.supported(self.workgroup_size_x) {
                        error == ErrorKind::UnsupportedOperation
                    } else {
                        kernels@.len() != graph@.len() && error == ErrorKind::BackendFailure
                    }
                },
            },
    {
        if !self.supports(&graph) {
            return Err(ErrorKind::UnsupportedOperation);
        }
        if kernels.len() != graph.len() {
            return Err(ErrorKind::BackendFailure);
        }
        let width: u32 = self.workgroup_size_x;
        let aliases = resolve_aliases(&graph);
        let points = release_points(&graph, &aliases);
        let flags = retrieved_buffers(&graph, &aliases);
        let sizes = byte_sizes(&graph);
        let ghost model = graph@;
        let ghost texts = kernel_texts(kernels@);

        let mut outputs: Vec<ExprId> = Vec::new();
        let mut output_layouts: Vec<Layout> = Vec::new();
        let mut i: usize = 0;
        while i < graph.outputs.len()
            invariant
                i <= model.outputs.len(),
                model == graph@,
                model.wf(),
                aliases@.len() == model.len(),
                forall|m: int| 0 <= m < model.len() ==> aliases@[m] == model.alias(m),
                outputs@.len() == i,
                output_layouts@.len() == i,
                forall|k: int| 0 <= k < i ==> outputs@[k]@ == model.alias(model.outputs[k] as int),
                forall|k: int|
                    0 <= k < i ==> output_layouts@[k]@ == model.nodes[model.outputs[k] as int].layout,
            decreases model.outputs.len() - i,
        {
            let output: usize = graph.outputs[i].index();
            proof {
                assert(model.outputs[i as int] == output);
                assert(output < model.len());
                assert(model.nodes[output as int] == graph.exprs@[output as int]@);
            }
            outputs.push(ExprId::new(aliases[output]));
            output_layouts.push(graph.exprs[output].layout.clone());
            i = i + 1;
        }

        let Graph { inputs, exprs, outputs: _ } = graph;
        let ghost all = exprs@;
        let mut steps: Vec<WgpuStep> = Vec::new();
        let mut n: usize = 0;
        proof {
            assert(step_models(steps@) =~= model.steps(0, width, texts));
        }
        for expr in it: exprs.into_iter()
            invariant
                it.seq() == all,
                n == it.index(),
                width == self.workgroup_size_x,
                width > 0,
                model.wf(),
                model.supported(width),
                model.nodes == all.map_values(|info: ExprInfo| info@),
                texts == kernel_texts(kernels@),
                kernels@.len() == model.len(),
                aliases@.len() == model.len(),
                forall|m: int| 0 <= m < model.len() ==> aliases@[m] == model.alias(m),
                points@.len() == model.len(),
                forall|s: int| 0 <= s < model.len() ==> points@[s] == model.release_point(s),
                flags@.len() == model.len(),
                forall|s: int| 0 <= s < model.len() ==> flags@[s] == model.retrieved(s),
                sizes@.len() == model.len(),
                forall|m: int| 0 <= m < model.len() ==> sizes@[m] == model.nodes[m].layout.size(),
                step_models(steps@) == model.steps(n as int, width, texts),
        {
            proof {
                assert(n < all.len());
                assert(expr == all[n as int]);
                assert(model.nodes[n as int] == expr@);
                assert(model.node_supported(n as int, width));
            }
            assert(n < kernels.len());
            let ghost earlier = step_models(steps@);
            let ghost wanted = model.node_steps(n as int, width, texts);
            let ExprInfo { body, layout, last_usage: _ } = expr;
            match body {
                ExprBody::Input(_) => {},
                ExprBody::Const(tensor) => {
                    steps.push(WgpuStep::Allocate { id: ExprId::new(n), tensor });
                },
                ExprBody::Op { op, children } => {
                    match op {
                        Op::Movement(_) => {},
                        _ => {
                            let source = kernels[n].clone();
                            let step = execution_step(
                                Ghost(model),
                                n,
                                &layout,
                                &children,
                                width,
                                source,
                                &aliases,
                                &sizes,
                            );
                            steps.push(step);
                        },
                    }
                    push_deallocations(
                        &mut steps,
                        Ghost(model),
                        n,
                        &children,
                        &aliases,
                        &points,
                        &flags,
                    );
                },
            }
            proof {
                assert(step_models(steps@) =~= earlier + wanted);
            }
            n = n + 1;
        }
        let plan = WgpuPlan { inputs, steps, outputs, output_layouts };
        proof {
            let wanted = model.plan(width, texts);
            assert(plan@.outputs =~= wanted.outputs);
            assert(plan@.output_layouts =~= wanted.output_layouts);
        }
        Ok(plan)
    }
}

impl Compiler for WgpuCompiler {
    type CompileResult = Result<WgpuPlan, ErrorKind>;

    /// The plan of `graph`, with the kernel of every elementwise operation
    /// rendered from the template of this library.
    ///
    /// A graph that cannot be lowered is refused before any kernel is
    /// rendered. After that the compilation fails exactly if the kernel of some
    /// elementwise operation does not render.
    fn compile(&self, graph: Graph) -> (result: Result<WgpuPlan, ErrorKind>)
        ensures
            match result {
                Ok(plan) => {
                    &&& graph@.supported(self.workgroup_size_x)
                    &&& graph@.has_kernels(self.workgroup_size_x, self.templates.registered())
                    &&& plan@ == graph@.plan(
                        self.workgroup_size_x,
                        graph@.kernels(self.workgroup_size_x, self.templates.registered()),
                    )
                },
                Err(error) => {
                    if !graph@.supported(self.workgroup_size_x) {
                        error == ErrorKind::UnsupportedOperation
                    } else {
                        &&& error == ErrorKind::BackendFailure
                        &&& !graph@.has_kernels(self.workgroup_size_x, self.templates.registered())
                    }
                },
            },
    {
        if !self.supports(&graph) {
            return Err(ErrorKind::UnsupportedOperation);
        }
        let width: u32 = self.workgroup_size_x;
        let ghost templates = self.templates.registered();
        let mut kernels: Vec<String> = Vec::new();
        let mut n: usize = 0;
        while n < graph.exprs.len()
            invariant
                n <= graph@.len(),
                graph@.wf(),
                graph@.supported(width),
                width == self.workgroup_size_x,
                templates == self.templates.registered(),
                kernels@.len() == n,
                forall|m: int|
                    0 <= m < n && #[trigger] graph@.is_elemwise(m) ==> graph@.kernel_of(
                        m,
                        width,
                        templates,
                    ) == Some(kernels@[m]@),
                forall|m: int|
                    0 <= m < n && !(#[trigger] graph@.is_elemwise(m)) ==> kernels@[m]@
                        == Seq::<char>::empty(),
            decreases graph@.len() - n,
        {
            proof {
                assert(graph@.node_typed(n as int));
                assert(graph@.nodes[n as int] == graph.exprs@[n as int]@);
            }
            match &graph.exprs[n].body {
                ExprBody::Op { op: Op::Elemwise(op), children } => {
                    proof {
                        assert(graph@.children(n as int) == indices(children@));
                        assert forall|j: int| 0 <= j < children@.len() implies children@[j]@
                            < graph@.len() by {
                            assert(graph@.children(n as int)[j] < n);
                        }
                    }
                    let operands = kernel_operands(&graph, children);
                    let expr = kernel_expr(*op, children);
                    proof {
                        assert(operand_models(operands@) =~= graph@.kernel_operands(n as int)) by {
                            let wanted = graph@.kernel_operands(n as int);
                            let handles = operand_handles(operands@);
                            assert(handles == distinct(graph@.children(n as int)));
                            assert forall|i: int| 0 <= i < operands@.len() implies operand_models(
                                operands@,
                            )[i] == wanted[i] by {
                                assert(handles[i] == operands@[i].0@);
                            }
                        }
                        assert(graph@.is_elemwise(n as int));
                    }
                    match elemwise(&self.templates, width, &graph.exprs[n].layout, &operands, &expr) {
                        Ok(source) => {
                            kernels.push(source);
                        },
                        Err(error) => {
                            proof {
                                assert(graph@.kernel_of(n as int, width, templates) is None);
                            }
                            return Err(error);
                        },
                    }
                },
                _ => {
                    proof {
                        assert(!graph@.is_elemwise(n as int));
                    }
                    kernels.push(String::new());
                },
            }
            n = n + 1;
        }
        let ghost texts = kernel_texts(kernels@);
        proof {
            assert(texts =~= graph@.kernels(width, templates));
        }
        let result = self.lower(graph, kernels);
        proof {
            assert(result is Ok);
            assert(result->Ok_0@ == graph@.plan(width, texts));
        }
        result
    }
}

} // verus!
