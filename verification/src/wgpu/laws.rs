//! What holds of every plan that a well-formed graph prescribes.

use vstd::prelude::*;

use crate::graph::{BodyModel, GraphModel};
use crate::wgpu::compiler::distinct;
use crate::wgpu::plan::StepModel;
use crate::wgpu::schedule::lemma_alias_is_older;

verus! {

/// How many of `steps` free buffer `s`.
pub open spec fn frees_count(steps: Seq<StepModel>, s: int) -> nat
    decreases steps.len(),
{
    if steps.len() == 0 {
        0
    } else {
        frees_count(steps.drop_last(), s) + (if steps.last().frees(s) {
            1nat
        } else {
            0nat
        })
    }
}

/// Counting over a concatenation adds up.
pub proof fn lemma_frees_count_add(a: Seq<StepModel>, b: Seq<StepModel>, s: int)
    ensures
        frees_count(a + b, s) == frees_count(a, s) + frees_count(b, s),
    decreases b.len(),
{
    if b.len() == 0 {
        assert(a + b =~= a);
    } else {
        lemma_frees_count_add(a, b.drop_last(), s);
        assert((a + b).drop_last() =~= a + b.drop_last());
        assert((a + b).last() == b.last());
    }
}

impl GraphModel {
    /// Whether the plan frees buffer `s`: `s` is a node with a buffer of its
    /// own that holds no declared output, and some node uses it or a view of
    /// it.
    pub open spec fn is_released(self, s: int) -> bool {
        &&& 0 <= s < self.len()
        &&& !self.is_view(s)
        &&& !self.retrieved(s)
        &&& self.release_point(s) != s
    }
}

/// The youngest last usage within a buffer is the last usage of one of the
/// nodes that live in it, and no such node is used later.
pub proof fn lemma_last_usage_within(graph: GraphModel, s: int, upto: int)
    requires
        graph.wf(),
        0 <= s < graph.len(),
        0 <= upto <= graph.len(),
    ensures
        s <= graph.last_usage_within(s, upto) < graph.len(),
        graph.last_usage_within(s, upto) != s ==> exists|v: int|
            0 <= v < upto && graph.alias(v) == s && #[trigger] graph.nodes[v].last_usage
                == graph.last_usage_within(s, upto),
        forall|v: int|
            0 <= v < upto && graph.alias(v) == s ==> (#[trigger] graph.nodes[v]).last_usage
                <= graph.last_usage_within(s, upto),
    decreases upto,
{
    if upto > 0 {
        lemma_last_usage_within(graph, s, upto - 1);
        let rest = graph.last_usage_within(s, upto - 1);
        let v = upto - 1;
        assert(v <= graph.nodes[v].last_usage < graph.len());
        if graph.alias(v) == s && graph.nodes[v].last_usage > rest {
            assert(graph.nodes[v].last_usage == graph.last_usage_within(s, upto));
        } else if rest != s {
            let w = choose|w: int|
                0 <= w < upto - 1 && graph.alias(w) == s && #[trigger] graph.nodes[w].last_usage
                    == rest;
            assert(graph.nodes[w].last_usage == graph.last_usage_within(s, upto));
        }
    }
}

/// A node is no younger than the release point of any buffer that one of its
/// operands lives in: no buffer is released before a node that uses it.
pub proof fn lemma_used_before_release(graph: GraphModel, n: int, j: int)
    requires
        graph.wf(),
        0 <= n < graph.len(),
        0 <= j < graph.children(n).len(),
    ensures
        0 <= graph.operand_buffer(n, j) < n,
        !graph.is_view(graph.operand_buffer(n, j)),
        n <= graph.release_point(graph.operand_buffer(n, j)),
{
    let v = graph.children(n)[j] as int;
    assert(v < n);
    lemma_alias_is_older(graph, v);
    let s = graph.alias(v);
    lemma_last_usage_within(graph, s, graph.len() as int);
    assert(graph.nodes[n].body.children()[j] == v);
    assert(graph.consumes(n, v));
    assert(n <= graph.nodes[v].last_usage);
}

/// The release point of a buffer that is used at all has an operand that
/// lives in the buffer.
pub proof fn lemma_release_point_uses(graph: GraphModel, s: int)
    requires
        graph.wf(),
        0 <= s < graph.len(),
        graph.release_point(s) != s,
    ensures
        s < graph.release_point(s) < graph.len(),
        exists|j: int|
            0 <= j < graph.children(graph.release_point(s)).len() && #[trigger] graph.operand_buffer(
                graph.release_point(s),
                j,
            ) == s,
{
    let n = graph.release_point(s);
    lemma_last_usage_within(graph, s, graph.len() as int);
    let v = choose|v: int|
        0 <= v < graph.len() && graph.alias(v) == s && #[trigger] graph.nodes[v].last_usage == n;
    if graph.nodes[v].last_usage != v {
        assert(graph.consumes(n, v));
        let j = choose|j: int|
            0 <= j < graph.children(n).len() && #[trigger] graph.nodes[n].body.children()[j] == v;
        assert(graph.operand_buffer(n, j) == s);
    } else {
        assert(graph.is_view(n));
        assert(graph.node_typed(n));
        assert(graph.children(n)[0] < n);
        assert(graph.operand_buffer(n, 0) == s);
    }
}

/// Among the deallocations that follow the step of node `n` for its first
/// `upto` operands, buffer `s` is freed once if `n` is its release point, it
/// holds no declared output and one of these operands lives in it, and not at
/// all otherwise.
pub proof fn lemma_deallocations_count(graph: GraphModel, n: int, upto: int, s: int)
    requires
        graph.wf(),
        0 <= n < graph.len(),
        0 <= upto <= graph.children(n).len(),
    ensures
        frees_count(graph.deallocations(n, upto), s) == (if graph.release_point(s) == n
            && !graph.retrieved(s) && exists|j: int|
            0 <= j < upto && #[trigger] graph.operand_buffer(n, j) == s {
            1nat
        } else {
            0nat
        }),
    decreases upto,
{
    if upto > 0 {
        lemma_deallocations_count(graph, n, upto - 1, s);
        lemma_used_before_release(graph, n, upto - 1);
        let rest = graph.deallocations(n, upto - 1);
        let b = graph.operand_buffer(n, upto - 1);
        let seen = exists|j: int| 0 <= j < upto - 1 && #[trigger] graph.operand_buffer(n, j) == s;
        if graph.releases(n, upto - 1) {
            let all = rest.push(StepModel::Deallocate(b as usize));
            assert(all.drop_last() =~= rest);
            assert(all.last().frees(s) == (b == s));
            if b == s {
                assert(!seen);
            } else if seen {
                let j = choose|j: int| 0 <= j < upto - 1 && #[trigger] graph.operand_buffer(n, j) == s;
                assert(0 <= j < upto && graph.operand_buffer(n, j) == s);
            } else {
                assert forall|j: int| 0 <= j < upto implies #[trigger] graph.operand_buffer(n, j)
                    != s by {
                    if j < upto - 1 {
                        assert(!(0 <= j < upto - 1 && graph.operand_buffer(n, j) == s));
                    }
                }
            }
        } else {
            if b == s {
                if graph.release_point(s) == n && !graph.retrieved(s) {
                    let i = choose|i: int| 0 <= i < upto - 1 && #[trigger] graph.operand_buffer(n, i) == b;
                    assert(seen);
                }
                assert(graph.operand_buffer(n, upto - 1) == s);
            } else if seen {
                let j = choose|j: int| 0 <= j < upto - 1 && #[trigger] graph.operand_buffer(n, j) == s;
                assert(0 <= j < upto && graph.operand_buffer(n, j) == s);
            } else {
                assert forall|j: int| 0 <= j < upto implies #[trigger] graph.operand_buffer(n, j)
                    != s by {
                    if j < upto - 1 {
                        assert(!(0 <= j < upto - 1 && graph.operand_buffer(n, j) == s));
                    }
                }
            }
        }
    }
}

/// The steps of node `n` free buffer `s` once if `n` is the release point of
/// `s` and the plan frees `s`, and not at all otherwise.
pub proof fn lemma_node_frees_count(
    graph: GraphModel,
    n: int,
    width: u32,
    kernels: Seq<Seq<char>>,
    s: int,
)
    requires
        graph.wf(),
        0 <= n < graph.len(),
    ensures
        frees_count(graph.node_steps(n, width, kernels), s) == (if graph.is_released(s)
            && graph.release_point(s) == n {
            1nat
        } else {
            0nat
        }),
{
    let arity = graph.children(n).len() as int;
    let frees = graph.deallocations(n, arity);
    lemma_deallocations_count(graph, n, arity, s);
    let used = exists|j: int| 0 <= j < arity && #[trigger] graph.operand_buffer(n, j) == s;
    if used {
        let j = choose|j: int| 0 <= j < arity && #[trigger] graph.operand_buffer(n, j) == s;
        lemma_used_before_release(graph, n, j);
    }
    if graph.is_released(s) && graph.release_point(s) == n {
        lemma_release_point_uses(graph, s);
        assert(used);
    }
    match graph.nodes[n].body {
        BodyModel::Input(_) => {
            assert(frees =~= Seq::<StepModel>::empty());
        },
        BodyModel::Const(tensor) => {
            let only = seq![StepModel::Allocate { id: n as usize, tensor }];
            assert(only.drop_last() =~= Seq::<StepModel>::empty());
            assert(frees_count(only.drop_last(), s) == 0);
            assert(frees =~= Seq::<StepModel>::empty());
        },
        BodyModel::Op { op, children } => {
            if !(op is Movement) {
                let head = seq![graph.execution(n, width, kernels[n])];
                assert(head.drop_last() =~= Seq::<StepModel>::empty());
                assert(frees_count(head.drop_last(), s) == 0);
                assert(frees_count(head, s) == 0);
                lemma_frees_count_add(head, frees, s);
            }
        },
    }
}

/// The steps of the first `upto` nodes free buffer `s` once if the plan frees
/// `s` and its release point is among these nodes, and not at all otherwise.
pub proof fn lemma_steps_frees_count(
    graph: GraphModel,
    upto: int,
    width: u32,
    kernels: Seq<Seq<char>>,
    s: int,
)
    requires
        graph.wf(),
        0 <= upto <= graph.len(),
    ensures
        frees_count(graph.steps(upto, width, kernels), s) == (if graph.is_released(s)
            && graph.release_point(s) < upto {
            1nat
        } else {
            0nat
        }),
    decreases upto,
{
    if upto > 0 {
        lemma_steps_frees_count(graph, upto - 1, width, kernels, s);
        lemma_node_frees_count(graph, upto - 1, width, kernels, s);
        lemma_frees_count_add(
            graph.steps(upto - 1, width, kernels),
            graph.node_steps(upto - 1, width, kernels),
            s,
        );
    }
    if graph.is_released(s) {
        lemma_last_usage_within(graph, s, graph.len() as int);
    }
}

/// Every buffer that is used and holds no declared output is freed by
/// exactly one step of the plan; a buffer that holds a declared output, and
/// one that no node uses, is freed by none.
pub proof fn lemma_freed_exactly_once(
    graph: GraphModel,
    width: u32,
    kernels: Seq<Seq<char>>,
    s: int,
)
    requires
        graph.wf(),
    ensures
        graph.is_released(s) ==> frees_count(graph.plan(width, kernels).steps, s) == 1,
        !graph.is_released(s) ==> frees_count(graph.plan(width, kernels).steps, s) == 0,
{
    lemma_steps_frees_count(graph, graph.len() as int, width, kernels, s);
    if graph.is_released(s) {
        lemma_last_usage_within(graph, s, graph.len() as int);
    }
}

/// Steps that are counted zero times are not there.
pub proof fn lemma_frees_count_zero(steps: Seq<StepModel>, s: int)
    requires
        frees_count(steps, s) == 0,
    ensures
        forall|k: int| 0 <= k < steps.len() ==> !(#[trigger] steps[k]).frees(s),
    decreases steps.len(),
{
    if steps.len() > 0 {
        lemma_frees_count_zero(steps.drop_last(), s);
        assert forall|k: int| 0 <= k < steps.len() implies !(#[trigger] steps[k]).frees(s) by {
            if k < steps.len() - 1 {
                assert(steps.drop_last()[k] == steps[k]);
            }
        }
    }
}

/// No step of a plan frees a buffer that holds a declared output: every
/// output can be read back after the last step, whatever else has used it.
pub proof fn lemma_outputs_stay_allocated(
    graph: GraphModel,
    width: u32,
    kernels: Seq<Seq<char>>,
    i: int,
    k: int,
)
    requires
        graph.wf(),
        0 <= i < graph.outputs.len(),
        0 <= k < graph.plan(width, kernels).steps.len(),
    ensures
        !graph.plan(width, kernels).steps[k].frees(graph.plan(width, kernels).outputs[i] as int),
{
    let s = graph.alias(graph.outputs[i] as int);
    lemma_alias_is_older(graph, graph.outputs[i] as int);
    assert(graph.retrieved(s));
    lemma_freed_exactly_once(graph, width, kernels, s);
    lemma_frees_count_zero(graph.plan(width, kernels).steps, s);
}

/// Every deallocation that follows the step of node `n` frees a buffer older
/// than `n` whose release point is `n`.
pub proof fn lemma_deallocations_shape(graph: GraphModel, n: int, upto: int)
    requires
        graph.wf(),
        0 <= n < graph.len(),
        0 <= upto <= graph.children(n).len(),
    ensures
        forall|k: int|
            0 <= k < graph.deallocations(n, upto).len() ==> ((#[trigger] graph.deallocations(
                n,
                upto,
            )[k]) matches StepModel::Deallocate(b) && b < n && graph.release_point(b as int)
                == n),
    decreases upto,
{
    if upto > 0 {
        lemma_deallocations_shape(graph, n, upto - 1);
        lemma_used_before_release(graph, n, upto - 1);
    }
}

/// The steps of node `n`: only the first can create or bind a buffer, and it
/// does so before the buffer's release point has passed; whatever frees a
/// buffer does so at the buffer's release point.
pub proof fn lemma_node_steps_shape(
    graph: GraphModel,
    n: int,
    width: u32,
    kernels: Seq<Seq<char>>,
    s: int,
)
    requires
        graph.wf(),
        0 <= n < graph.len(),
    ensures
        forall|k: int|
            0 <= k < graph.node_steps(n, width, kernels).len() && (#[trigger] graph.node_steps(
                n,
                width,
                kernels,
            )[k]).frees(s) ==> graph.release_point(s) == n,
        forall|k: int|
            0 <= k < graph.node_steps(n, width, kernels).len() && ((#[trigger] graph.node_steps(
                n,
                width,
                kernels,
            )[k]).binds(s) || graph.node_steps(n, width, kernels)[k].creates(s)) ==> k == 0 && n
                <= graph.release_point(s),
        forall|k: int|
            0 <= k < graph.node_steps(n, width, kernels).len() && (#[trigger] graph.node_steps(
                n,
                width,
                kernels,
            )[k]) is Execute ==> k == 0 && graph.is_executed(n),
{
    let steps = graph.node_steps(n, width, kernels);
    let arity = graph.children(n).len() as int;
    let frees = graph.deallocations(n, arity);
    lemma_deallocations_shape(graph, n, arity);
    lemma_last_usage_within(graph, n, graph.len() as int);
    match graph.nodes[n].body {
        BodyModel::Input(_) => {
            assert(frees =~= Seq::<StepModel>::empty());
        },
        BodyModel::Const(tensor) => {
            assert(frees =~= Seq::<StepModel>::empty());
        },
        BodyModel::Op { op, children } => {
            if op is Movement {
                assert(steps == frees);
            } else {
                let head = graph.execution(n, width, kernels[n]);
                assert(steps == seq![head] + frees);
                assert forall|k: int| 1 <= k < steps.len() implies #[trigger] steps[k] == frees[k - 1] by {}
                if head.binds(s) {
                    let k = choose|k: int|
                        0 <= k < head->Execute_inputs.len() && #[trigger] head->Execute_inputs[k] == s;
                    if k > 0 {
                        lemma_used_before_release(graph, n, k - 1);
                    }
                }
            }
        },
    }
}

/// Among the steps of the first `upto` nodes, a buffer is freed only once
/// its release point has been visited, and after a step that frees a buffer no
/// step binds the buffer or creates it.
pub proof fn lemma_steps_order(
    graph: GraphModel,
    upto: int,
    width: u32,
    kernels: Seq<Seq<char>>,
    s: int,
)
    requires
        graph.wf(),
        0 <= upto <= graph.len(),
    ensures
        forall|k: int|
            0 <= k < graph.steps(upto, width, kernels).len() && (#[trigger] graph.steps(
                upto,
                width,
                kernels,
            )[k]).frees(s) ==> graph.release_point(s) < upto,
        forall|p: int, q: int|
            0 <= p < q < graph.steps(upto, width, kernels).len() && (#[trigger] graph.steps(
                upto,
                width,
                kernels,
            )[p]).frees(s) ==> !(#[trigger] graph.steps(upto, width, kernels)[q]).binds(s)
                && !graph.steps(upto, width, kernels)[q].creates(s),
        forall|k: int|
            0 <= k < graph.steps(upto, width, kernels).len() && (#[trigger] graph.steps(
                upto,
                width,
                kernels,
            )[k]) is Execute ==> exists|n: int| 0 <= n < upto && graph.is_executed(n),
    decreases upto,
{
    if upto > 0 {
        let n = upto - 1;
        let old_steps = graph.steps(n, width, kernels);
        let new_steps = graph.node_steps(n, width, kernels);
        let all = graph.steps(upto, width, kernels);
        assert(all == old_steps + new_steps);
        lemma_steps_order(graph, n, width, kernels, s);
        lemma_node_steps_shape(graph, n, width, kernels, s);
        assert forall|k: int| 0 <= k < all.len() && (#[trigger] all[k]).frees(s) implies graph.release_point(s) < upto by {
            if k < old_steps.len() {
                assert(all[k] == old_steps[k]);
            } else {
                assert(all[k] == new_steps[k - old_steps.len()]);
            }
        }
        assert forall|p: int, q: int|
            0 <= p < q < all.len() && (#[trigger] all[p]).frees(s) implies !(#[trigger] all[q]).binds(s) && !all[q].creates(s) by {
            if q < old_steps.len() {
                assert(all[p] == old_steps[p]);
                assert(all[q] == old_steps[q]);
            } else if p < old_steps.len() {
                assert(all[p] == old_steps[p]);
                assert(all[q] == new_steps[q - old_steps.len()]);
            } else {
                assert(all[p] == new_steps[p - old_steps.len()]);
                assert(all[q] == new_steps[q - old_steps.len()]);
            }
        }
        assert forall|k: int| 0 <= k < all.len() && (#[trigger] all[k]) is Execute implies exists|m: int| 0 <= m < upto && graph.is_executed(m) by {
            if k < old_steps.len() {
                assert(all[k] == old_steps[k]);
                let m = choose|m: int| 0 <= m < n && graph.is_executed(m);
                assert(0 <= m < upto && graph.is_executed(m));
            } else {
                assert(all[k] == new_steps[k - old_steps.len()]);
                assert(0 <= n < upto && graph.is_executed(n));
            }
        }
    }
}

/// Once a step of a plan has freed a buffer, no later step binds the buffer
/// to a kernel or creates it: every deallocation comes after the step that
/// produced the buffer and after every kernel that uses it.
pub proof fn lemma_no_use_after_free(
    graph: GraphModel,
    width: u32,
    kernels: Seq<Seq<char>>,
    s: int,
    p: int,
    q: int,
)
    requires
        graph.wf(),
        0 <= p < q < graph.plan(width, kernels).steps.len(),
        graph.plan(width, kernels).steps[p].frees(s),
    ensures
        !graph.plan(width, kernels).steps[q].binds(s),
        !graph.plan(width, kernels).steps[q].creates(s),
{
    lemma_steps_order(graph, graph.len() as int, width, kernels, s);
}

/// A view lives in the buffer of its operand, and a graph without executed
/// nodes (inputs, constants and views only) has a plan without a single
/// kernel.
pub proof fn lemma_views_cost_nothing(graph: GraphModel, width: u32, kernels: Seq<Seq<char>>)
    requires
        graph.wf(),
    ensures
        forall|n: int|
            0 <= n < graph.len() && #[trigger] graph.is_view(n) ==> graph.alias(n) == graph.alias(
                graph.children(n)[0] as int,
            ),
        (forall|n: int| 0 <= n < graph.len() ==> !graph.is_executed(n)) ==> forall|k: int|
            0 <= k < graph.plan(width, kernels).steps.len() ==> !(
            #[trigger] graph.plan(width, kernels).steps[k] is Execute),
{
    assert forall|n: int| 0 <= n < graph.len() && #[trigger] graph.is_view(n) implies graph.alias(
        n,
    ) == graph.alias(graph.children(n)[0] as int) by {
        assert(graph.node_typed(n));
        assert(graph.children(n)[0] < n);
    }
    lemma_steps_order(graph, graph.len() as int, width, kernels, 0);
}

impl GraphModel {
    /// Whether the plan has a step that creates a buffer for node `n`: the
    /// node is a constant or is executed.
    pub open spec fn is_created(self, n: int) -> bool {
        self.nodes[n].body is Const || self.is_executed(n)
    }
}

/// Among the steps of the first `upto` nodes there is one that creates the
/// buffer of each constant and of each executed node among them.
pub proof fn lemma_created_by_its_node(
    graph: GraphModel,
    upto: int,
    width: u32,
    kernels: Seq<Seq<char>>,
    m: int,
)
    requires
        graph.wf(),
        0 <= m < upto <= graph.len(),
        graph.is_created(m),
    ensures
        exists|p: int|
            0 <= p < graph.steps(upto, width, kernels).len() && (#[trigger] graph.steps(
                upto,
                width,
                kernels,
            )[p]).creates(m),
    decreases upto,
{
    let n = upto - 1;
    let old_steps = graph.steps(n, width, kernels);
    let new_steps = graph.node_steps(n, width, kernels);
    let all = graph.steps(upto, width, kernels);
    assert(all == old_steps + new_steps);
    if m < n {
        lemma_created_by_its_node(graph, n, width, kernels, m);
        let p = choose|p: int| 0 <= p < old_steps.len() && (#[trigger] old_steps[p]).creates(m);
        assert(all[p] == old_steps[p]);
    } else {
        assert(new_steps.len() >= 1 && new_steps[0].creates(m));
        assert(all[old_steps.len() as int] == new_steps[0]);
    }
}

/// Among the steps of the first `upto` nodes, whatever a step binds or frees
/// is a buffer that the step itself or an earlier step has created, or the
/// buffer of an input.
pub proof fn lemma_steps_use_what_exists(
    graph: GraphModel,
    upto: int,
    width: u32,
    kernels: Seq<Seq<char>>,
    s: int,
)
    requires
        graph.wf(),
        0 <= upto <= graph.len(),
    ensures
        forall|q: int|
            0 <= q < graph.steps(upto, width, kernels).len() && ((#[trigger] graph.steps(
                upto,
                width,
                kernels,
            )[q]).binds(s) || graph.steps(upto, width, kernels)[q].frees(s)) ==> {
                ||| graph.steps(upto, width, kernels)[q].creates(s)
                ||| 0 <= s < graph.len() && graph.nodes[s].body is Input
                ||| exists|p: int|
                    0 <= p < q && (#[trigger] graph.steps(upto, width, kernels)[p]).creates(s)
            },
    decreases upto,
{
    if upto > 0 {
        let n = upto - 1;
        let old_steps = graph.steps(n, width, kernels);
        let new_steps = graph.node_steps(n, width, kernels);
        let all = graph.steps(upto, width, kernels);
        assert(all == old_steps + new_steps);
        lemma_steps_use_what_exists(graph, n, width, kernels, s);
        lemma_node_steps_shape(graph, n, width, kernels, s);
        assert forall|q: int|
            0 <= q < all.len() && ((#[trigger] all[q]).binds(s) || all[q].frees(s)) implies {
            ||| all[q].creates(s)
            ||| 0 <= s < graph.len() && graph.nodes[s].body is Input
            ||| exists|p: int| 0 <= p < q && (#[trigger] all[p]).creates(s)
        } by {
            if q < old_steps.len() {
                assert(all[q] == old_steps[q]);
                if !old_steps[q].creates(s) && !(0 <= s < graph.len()
                    && graph.nodes[s].body is Input) {
                    let p = choose|p: int| 0 <= p < q && (#[trigger] old_steps[p]).creates(s);
                    assert(all[p] == old_steps[p]);
                }
            } else {
                let local = q - old_steps.len();
                assert(all[q] == new_steps[local]);
                if !all[q].creates(s) {
                    lemma_node_uses_older_buffers(graph, n, width, kernels, s, local);
                    if !(graph.nodes[s].body is Input) {
                        lemma_created_by_its_node(graph, n, width, kernels, s);
                        let p = choose|p: int|
                            0 <= p < old_steps.len() && (#[trigger] old_steps[p]).creates(s);
                        assert(all[p] == old_steps[p]);
                    }
                }
            }
        }
    }
}

/// A buffer that a step of node `n` binds or frees without creating it is
/// the buffer of an older node that is no view.
pub proof fn lemma_node_uses_older_buffers(
    graph: GraphModel,
    n: int,
    width: u32,
    kernels: Seq<Seq<char>>,
    s: int,
    k: int,
)
    requires
        graph.wf(),
        0 <= n < graph.len(),
        0 <= k < graph.node_steps(n, width, kernels).len(),
        graph.node_steps(n, width, kernels)[k].binds(s) || graph.node_steps(
            n,
            width,
            kernels,
        )[k].frees(s),
        !graph.node_steps(n, width, kernels)[k].creates(s),
    ensures
        0 <= s < n,
        !graph.is_view(s),
        graph.nodes[s].body is Input || graph.is_created(s),
{
    let steps = graph.node_steps(n, width, kernels);
    let arity = graph.children(n).len() as int;
    let frees = graph.deallocations(n, arity);
    lemma_deallocations_owners(graph, n, arity);
    match graph.nodes[n].body {
        BodyModel::Input(_) => {
            assert(frees =~= Seq::<StepModel>::empty());
        },
        BodyModel::Const(tensor) => {
            assert(frees =~= Seq::<StepModel>::empty());
        },
        BodyModel::Op { op, children } => {
            if op is Movement {
                assert(steps == frees);
            } else {
                let head = graph.execution(n, width, kernels[n]);
                assert(steps == seq![head] + frees);
                if k == 0 {
                    let i = choose|i: int|
                        0 <= i < head->Execute_inputs.len() && #[trigger] head->Execute_inputs[i]
                            == s;
                    assert(i > 0);
                    lemma_used_before_release(graph, n, i - 1);
                } else {
                    assert(steps[k] == frees[k - 1]);
                }
            }
        },
    }
}

/// Every deallocation that follows the step of node `n` frees the buffer of
/// an older node that is no view.
pub proof fn lemma_deallocations_owners(graph: GraphModel, n: int, upto: int)
    requires
        graph.wf(),
        0 <= n < graph.len(),
        0 <= upto <= graph.children(n).len(),
    ensures
        forall|k: int|
            0 <= k < graph.deallocations(n, upto).len() ==> ((#[trigger] graph.deallocations(
                n,
                upto,
            )[k]) matches StepModel::Deallocate(b) && b < n && !graph.is_view(b as int)),
    decreases upto,
{
    if upto > 0 {
        lemma_deallocations_owners(graph, n, upto - 1);
        lemma_used_before_release(graph, n, upto - 1);
    }
}

/// Whatever a step of a plan binds to a kernel or frees exists at that
/// point: it is the buffer of an input, or a buffer that the step itself or an
/// earlier step has created.
pub proof fn lemma_used_buffers_exist(
    graph: GraphModel,
    width: u32,
    kernels: Seq<Seq<char>>,
    s: int,
    q: int,
)
    requires
        graph.wf(),
        0 <= q < graph.plan(width, kernels).steps.len(),
        graph.plan(width, kernels).steps[q].binds(s) || graph.plan(width, kernels).steps[q].frees(
            s,
        ),
    ensures
        ({
            ||| graph.plan(width, kernels).steps[q].creates(s)
            ||| graph.plan(width, kernels).inputs.contains(s as usize)
            ||| exists|p: int|
                0 <= p < q && (#[trigger] graph.plan(width, kernels).steps[p]).creates(s)
        }),
{
    lemma_steps_use_what_exists(graph, graph.len() as int, width, kernels, s);
}

/// In a graph without views every node lives in its own buffer.
pub proof fn lemma_alias_without_views(graph: GraphModel, n: int)
    requires
        forall|m: int| 0 <= m < graph.len() ==> !graph.is_view(m),
    ensures
        graph.alias(n) == n,
{
}

/// In a graph without views the youngest last usage within the buffer of a
/// node is the node's own.
pub proof fn lemma_last_usage_within_without_views(graph: GraphModel, s: int, upto: int)
    requires
        graph.wf(),
        0 <= s < graph.len(),
        0 <= upto <= graph.len(),
        forall|m: int| 0 <= m < graph.len() ==> !graph.is_view(m),
    ensures
        graph.last_usage_within(s, upto) == (if s < upto {
            graph.nodes[s].last_usage as int
        } else {
            s
        }),
    decreases upto,
{
    if upto > 0 {
        lemma_last_usage_within_without_views(graph, s, upto - 1);
        lemma_alias_without_views(graph, upto - 1);
        assert(s <= graph.nodes[s].last_usage);
    }
}

/// In a graph without views a buffer is released right after the step of
/// the node recorded as the last usage of the node that owns it.
pub proof fn lemma_release_point_without_views(graph: GraphModel, s: int)
    requires
        graph.wf(),
        0 <= s < graph.len(),
        forall|m: int| 0 <= m < graph.len() ==> !graph.is_view(m),
    ensures
        graph.release_point(s) == graph.nodes[s].last_usage,
{
    lemma_last_usage_within_without_views(graph, s, graph.len() as int);
}

/// The operands that the kernel of an elementwise operation is told of
/// stand in the order of the buffers that its step binds after the output:
/// the kernel's operand at position `i` lives in the buffer bound at position
/// `i + 1`.
pub proof fn lemma_kernel_bindings_agree(
    graph: GraphModel,
    n: int,
    width: u32,
    source: Seq<char>,
    i: int,
)
    requires
        graph.wf(),
        0 <= n < graph.len(),
        graph.is_elemwise(n),
        0 <= i < graph.kernel_operands(n).len(),
    ensures
        i + 1 < graph.execution(n, width, source)->Execute_inputs.len(),
        graph.execution(n, width, source)->Execute_inputs[i + 1] == graph.alias(
            graph.kernel_operands(n)[i].0 as int,
        ),
{
    let children = graph.children(n);
    assert(graph.node_typed(n));
    assert(1 <= children.len() <= 2);
    let first = children.drop_last();
    if children.len() == 1 {
        assert(first =~= Seq::<usize>::empty());
        assert(distinct(first) =~= Seq::<usize>::empty());
        assert(distinct(children) =~= seq![children[0]]);
    } else {
        assert(first.drop_last() =~= Seq::<usize>::empty());
        assert(distinct(first.drop_last()) =~= Seq::<usize>::empty());
        assert(first.last() == children[0]);
        assert(distinct(first) =~= seq![children[0]]);
        if distinct(first).contains(children[1]) {
            assert(distinct(children) =~= seq![children[0]]);
        } else {
            assert(distinct(children) =~= seq![children[0], children[1]]);
        }
    }
    assert(distinct(children)[i] == children[i]);
    assert(graph.kernel_operands(n)[i].0 == children[i]);
    assert(children[i] < n);
    lemma_alias_is_older(graph, children[i] as int);
    let inputs = graph.execution(n, width, source)->Execute_inputs;
    assert(inputs[i + 1] == graph.operand_buffer(n, i) as usize);
}

} // verus!
