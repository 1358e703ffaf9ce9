use momentum::builder;
use momentum::error::ErrorKind;
use momentum::graph::{ElemwiseOp, ExprId, Graph, MovementOp, Op, ReduceOp};
use momentum::tensor::{Layout, Shape, Tensor};

fn indices(ids: &[ExprId]) -> Vec<usize> {
    ids.iter().map(|id| id.index()).collect()
}

fn usages(graph: &Graph) -> Vec<usize> {
    indices(&graph.last_usages())
}

#[test]
fn new_graph_is_empty() {
    let graph = Graph::new();
    assert_eq!(graph.len(), 0);
    assert!(graph.inputs().is_empty());
    assert!(graph.outputs().is_empty());
    assert!(graph.last_usages().is_empty());
    assert_eq!(Graph::default().len(), 0);
}

#[test]
fn handles_count_up_from_zero() {
    let mut graph = Graph::new();
    let a = graph.add_input(Layout::scalar());
    let k = graph.add_const(Tensor::from_scalar(2.0f32.to_bits()));
    let b = graph.add_input(Layout::contiguous(vec![3]));
    let s = graph.add_op(Op::Elemwise(ElemwiseOp::Sin), &[b]).unwrap();
    assert_eq!(indices(&[a, k, b, s]), vec![0, 1, 2, 3]);
    assert_eq!(graph.len(), 4);
    assert_eq!(ExprId::new(3), s);
}

#[test]
fn inputs_are_listed_in_declaration_order() {
    let mut graph = Graph::new();
    let a = graph.add_input(Layout::scalar());
    graph.add_const(Tensor::from_scalar(0));
    let b = graph.add_input(Layout::scalar());
    graph.add_op(Op::Elemwise(ElemwiseOp::Add), &[b, a]).unwrap();
    let c = graph.add_input(Layout::scalar());
    assert_eq!(graph.inputs(), &[a, b, c]);
}

#[test]
fn a_fresh_node_is_its_own_last_usage() {
    let mut graph = Graph::new();
    graph.add_input(Layout::scalar());
    graph.add_const(Tensor::from_scalar(7));
    assert_eq!(usages(&graph), vec![0, 1]);
}

#[test]
fn last_usage_is_the_youngest_reader() {
    let mut graph = Graph::new();
    let a = graph.add_input(Layout::scalar());
    let b = graph.add_input(Layout::scalar());
    let c = graph.add_op(Op::Elemwise(ElemwiseOp::Add), &[a, b]).unwrap();
    assert_eq!(usages(&graph), vec![2, 2, 2]);
    let d = graph.add_op(Op::Elemwise(ElemwiseOp::Mul), &[a, c]).unwrap();
    assert_eq!(usages(&graph), vec![3, 2, 3, 3]);
    graph.add_op(Op::Elemwise(ElemwiseOp::Sin), &[b]).unwrap();
    assert_eq!(usages(&graph), vec![3, 4, 3, 3, 4]);
    graph.add_output(d).unwrap();
    assert_eq!(usages(&graph), vec![3, 4, 3, 3, 4]);
}

#[test]
fn an_operation_cannot_read_a_younger_node() {
    let mut other = Graph::new();
    other.add_input(Layout::scalar());
    let later = other.add_input(Layout::scalar());

    let mut graph = Graph::new();
    let a = graph.add_input(Layout::scalar());
    assert_eq!(
        graph.add_op(Op::Elemwise(ElemwiseOp::Add), &[a, later]),
        Err(ErrorKind::MalformedGraph)
    );
    assert_eq!(
        graph.add_op(Op::Elemwise(ElemwiseOp::Sin), &[later]),
        Err(ErrorKind::MalformedGraph)
    );
    let s = graph.add_op(Op::Elemwise(ElemwiseOp::Sin), &[a]).unwrap();
    assert!(a < s);
}

#[test]
fn wrong_operand_count_is_malformed() {
    let mut graph = Graph::new();
    let a = graph.add_input(Layout::contiguous(vec![2, 2]));
    let cases = vec![
        (Op::Elemwise(ElemwiseOp::Add), vec![a]),
        (Op::Elemwise(ElemwiseOp::Add), vec![a, a, a]),
        (Op::Elemwise(ElemwiseOp::Mul), vec![]),
        (Op::Elemwise(ElemwiseOp::Sin), vec![a, a]),
        (Op::Reduce { op: ReduceOp::Sum, dims: vec![0] }, vec![]),
        (Op::Reduce { op: ReduceOp::Max, dims: vec![0] }, vec![a, a]),
        (Op::Movement(MovementOp::Transpose), vec![a, a]),
        (Op::Movement(MovementOp::Squeeze), vec![]),
    ];
    for (op, children) in cases {
        assert_eq!(graph.add_op(op, &children), Err(ErrorKind::MalformedGraph));
    }
    assert_eq!(graph.len(), 1);
}

#[test]
fn a_refused_operation_leaves_the_graph_alone() {
    let mut graph = Graph::new();
    let a = graph.add_input(Layout::contiguous(vec![4]));
    let b = graph.add_input(Layout::contiguous(vec![4]));
    assert_eq!(
        graph.add_op(Op::Elemwise(ElemwiseOp::Add), &[a, b, a]),
        Err(ErrorKind::MalformedGraph)
    );
    assert_eq!(
        graph.add_op(
            Op::Movement(MovementOp::Reshape(Shape::contiguous(vec![5]))),
            &[a]
        ),
        Err(ErrorKind::IncompatibleReshape)
    );
    assert_eq!(graph.len(), 2);
    assert_eq!(usages(&graph), vec![0, 1]);
    assert_eq!(graph.inputs(), &[a, b]);
}

#[test]
fn transpose_needs_two_dimensions() {
    let mut graph = Graph::new();
    let scalar = graph.add_input(Layout::scalar());
    let vector = graph.add_input(Layout::contiguous(vec![3]));
    let matrix = graph.add_input(Layout::contiguous(vec![3, 2]));
    let transpose = || Op::Movement(MovementOp::Transpose);
    assert_eq!(graph.add_op(transpose(), &[scalar]), Err(ErrorKind::MalformedGraph));
    assert_eq!(graph.add_op(transpose(), &[vector]), Err(ErrorKind::MalformedGraph));
    let t = graph.add_op(transpose(), &[matrix]).unwrap();
    assert_eq!(graph.layout(t).dims(), &[2, 3]);
    assert_eq!(graph.layout(t).strides(), &[1, 2]);
}

#[test]
fn reduce_needs_existing_dimensions() {
    let mut graph = Graph::new();
    let a = graph.add_input(Layout::contiguous(vec![2, 3]));
    assert_eq!(
        graph.add_op(Op::Reduce { op: ReduceOp::Sum, dims: vec![0, 2] }, &[a]),
        Err(ErrorKind::MalformedGraph)
    );
    let r = graph
        .add_op(Op::Reduce { op: ReduceOp::Max, dims: vec![1] }, &[a])
        .unwrap();
    assert_eq!(graph.layout(r).dims(), &[2, 1]);
    assert_eq!(graph.layout(r).strides(), graph.layout(a).strides());
}

#[test]
fn reshape_must_keep_the_element_count() {
    let mut graph = Graph::new();
    let a = graph.add_input(Layout::contiguous(vec![2, 3]));
    let reshape = |dims: Vec<usize>| Op::Movement(MovementOp::Reshape(Shape::contiguous(dims)));
    assert_eq!(graph.add_op(reshape(vec![7]), &[a]), Err(ErrorKind::IncompatibleReshape));
    assert_eq!(graph.add_op(reshape(vec![]), &[a]), Err(ErrorKind::IncompatibleReshape));
    assert_eq!(graph.add_op(reshape(vec![6, 0]), &[a]), Err(ErrorKind::IncompatibleReshape));
    let r = graph.add_op(reshape(vec![3, 1, 2]), &[a]).unwrap();
    assert_eq!(graph.layout(r), &Layout::contiguous(vec![3, 1, 2]));
}

#[test]
fn malformed_is_reported_before_incompatible() {
    let mut graph = Graph::new();
    let a = graph.add_input(Layout::contiguous(vec![2]));
    let reshape = Op::Movement(MovementOp::Reshape(Shape::contiguous(vec![3])));
    assert_eq!(graph.add_op(reshape, &[a, a]), Err(ErrorKind::MalformedGraph));
}

#[test]
fn elementwise_result_has_the_layout_of_the_first_operand() {
    let mut graph = Graph::new();
    let a = graph.add_input(Layout::contiguous(vec![2, 3]));
    let b = graph.add_input(Layout::contiguous(vec![3, 2]));
    let t = graph.add_op(Op::Movement(MovementOp::Transpose), &[a]).unwrap();
    let sum = graph.add_op(Op::Elemwise(ElemwiseOp::Add), &[t, b]).unwrap();
    assert_eq!(graph.layout(sum), graph.layout(t));
    let other = graph.add_op(Op::Elemwise(ElemwiseOp::Mul), &[b, t]).unwrap();
    assert_eq!(graph.layout(other), graph.layout(b));
}

#[test]
fn squeeze_result_drops_unit_dimensions() {
    let mut graph = Graph::new();
    let a = graph.add_input(Layout::contiguous(vec![1, 4, 1]));
    let s = graph.add_op(Op::Movement(MovementOp::Squeeze), &[a]).unwrap();
    assert_eq!(graph.layout(s).dims(), &[4]);
    assert_eq!(graph.layout(s).strides(), &[1]);
}

#[test]
fn a_constant_has_the_layout_of_its_tensor() {
    let mut graph = Graph::new();
    let data: Vec<u32> = vec![0; 6];
    let k = graph.add_const(Tensor::from_parts(data, Layout::contiguous(vec![2, 3])));
    assert_eq!(graph.layout(k), &Layout::contiguous(vec![2, 3]));
    assert!(graph.inputs().is_empty());
}

#[test]
fn outputs_may_repeat_and_must_exist() {
    let mut graph = Graph::new();
    let a = graph.add_input(Layout::scalar());
    let s = graph.add_op(Op::Elemwise(ElemwiseOp::Sin), &[a]).unwrap();
    assert_eq!(graph.add_output(s), Ok(()));
    assert_eq!(graph.add_output(a), Ok(()));
    assert_eq!(graph.add_output(s), Ok(()));
    assert_eq!(graph.add_output(ExprId::new(2)), Err(ErrorKind::MalformedGraph));
    assert_eq!(graph.outputs(), &[s, a, s]);
    let t = graph.add_op(Op::Elemwise(ElemwiseOp::Sin), &[s]).unwrap();
    assert_eq!(usages(&graph), vec![1, 2, 2]);
    assert_eq!(t.index(), 2);
}

#[test]
fn builders_add_elementwise_operations() {
    let mut graph = Graph::new();
    let a = graph.add_input(Layout::scalar());
    let b = graph.add_input(Layout::scalar());
    let c = graph.add_input(Layout::scalar());
    let product = builder::Mul::new(a, b).build(&mut graph).unwrap();
    let sum = builder::Add::new(product, c).build(&mut graph).unwrap();
    assert_eq!(indices(&[product, sum]), vec![3, 4]);
    assert_eq!(usages(&graph), vec![3, 3, 4, 4, 4]);
    assert_eq!(
        builder::Add::new(sum, ExprId::new(9)).build(&mut graph),
        Err(ErrorKind::MalformedGraph)
    );
}

#[test]
fn operations_and_errors_have_names() {
    assert_eq!(ElemwiseOp::Add.name(), "add");
    assert_eq!(ElemwiseOp::Mul.name(), "mul");
    assert_eq!(ElemwiseOp::Sin.name(), "sin");
    assert_eq!(ReduceOp::Sum.name(), "sum");
    assert_eq!(ReduceOp::Max.name(), "max");
    assert_eq!(MovementOp::Transpose.name(), "transpose");
    assert_eq!(MovementOp::Squeeze.name(), "squeeze");
    assert_eq!(MovementOp::Reshape(Shape::contiguous(vec![1])).name(), "reshape");
    assert_eq!(Op::Elemwise(ElemwiseOp::Add).arity(), 2);
    assert_eq!(Op::Elemwise(ElemwiseOp::Sin).arity(), 1);
    assert_eq!(Op::Movement(MovementOp::Squeeze).arity(), 1);
    assert_eq!(ErrorKind::MalformedGraph.description(), "malformed graph");
    assert_eq!(ErrorKind::IncompatibleReshape.description(), "incompatible reshape");
    assert_eq!(ErrorKind::UnsupportedOperation.description(), "unsupported operation");
    assert_eq!(ErrorKind::BackendFailure.description(), "backend failure");
}

#[test]
fn a_reduction_too_large_to_hold_is_malformed() {
    let mut graph = Graph::new();
    let empty = graph.add_input(Layout::contiguous(vec![usize::MAX / 4 + 1, 0]));
    assert_eq!(
        graph.add_op(Op::Reduce { op: ReduceOp::Sum, dims: vec![1] }, &[empty]),
        Err(ErrorKind::MalformedGraph)
    );
    let outer = graph
        .add_op(Op::Reduce { op: ReduceOp::Sum, dims: vec![0] }, &[empty])
        .unwrap();
    assert_eq!(graph.layout(outer).dims(), &[1, 0]);
    assert_eq!(graph.len(), 2);
}
