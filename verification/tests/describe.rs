use momentum::builder;
use momentum::graph::{ElemwiseOp, Graph, MovementOp, Op, ReduceOp};
use momentum::tensor::{Layout, Shape, Tensor};

fn sample() -> Graph {
    let mut graph = Graph::new();
    let a = graph.add_input(Layout::scalar());
    let b = graph.add_input(Layout::scalar());
    let c = graph.add_input(Layout::scalar());
    let product = builder::Mul::new(a, b).build(&mut graph).unwrap();
    let sum = builder::Add::new(product, c).build(&mut graph).unwrap();
    graph.add_output(sum).unwrap();
    graph
}

#[test]
fn operations_are_written_with_their_parameters() {
    assert_eq!(Op::Elemwise(ElemwiseOp::Add).to_text(), "add");
    assert_eq!(Op::Elemwise(ElemwiseOp::Sin).name(), "sin");
    assert_eq!(Op::Movement(MovementOp::Transpose).to_text(), "transpose");
    assert_eq!(Op::Movement(MovementOp::Squeeze).to_text(), "squeeze");
    assert_eq!(
        Op::Reduce { op: ReduceOp::Sum, dims: vec![0, 2] }.to_text(),
        "sum(dims=[0, 2])"
    );
    assert_eq!(Op::Reduce { op: ReduceOp::Max, dims: vec![] }.to_text(), "max(dims=[])");
    let reshape = Op::Movement(MovementOp::Reshape(Shape::contiguous(vec![3, 2])));
    assert_eq!(reshape.name(), "reshape");
    assert_eq!(
        reshape.to_text(),
        "reshape(shape=Shape { dims: [3, 2], strides: [2, 1] })"
    );
}

#[test]
fn a_graph_is_written_on_one_line() {
    assert_eq!(
        sample().to_text(false),
        "(@0: f32, @1: f32, @2: f32) -> (@4) { @3: f32 = mul(@0, @1); @4: f32 = add(@3, @2); }"
    );
}

#[test]
fn a_graph_is_written_with_a_line_per_node() {
    assert_eq!(
        sample().to_text(true),
        "(@0: f32, @1: f32, @2: f32) -> (@4) {\n    @3: f32 = mul(@0, @1);\n    @4: f32 = add(@3, @2);\n}"
    );
}

#[test]
fn an_empty_graph_has_empty_braces() {
    assert_eq!(Graph::new().to_text(false), "() -> () {  }");
    assert_eq!(Graph::new().to_text(true), "() -> () {\n\n}");
}

#[test]
fn inputs_are_left_out_of_the_body() {
    let mut graph = Graph::new();
    let x = graph.add_input(Layout::contiguous(vec![2, 3]));
    graph.add_output(x).unwrap();
    graph.add_output(x).unwrap();
    assert_eq!(graph.to_text(false), "(@0: 2x3f32) -> (@0, @0) {  }");
}

#[test]
fn constants_views_and_reductions_are_written() {
    let mut graph = Graph::new();
    let k = graph.add_const(Tensor::from_parts(vec![0; 6], Layout::contiguous(vec![2, 3])));
    let x = graph.add_input(Layout::contiguous(vec![2, 3]));
    let sum = graph.add_op(Op::Elemwise(ElemwiseOp::Add), &[x, k]).unwrap();
    let reduced = graph
        .add_op(Op::Reduce { op: ReduceOp::Sum, dims: vec![1] }, &[sum])
        .unwrap();
    let target = Shape::contiguous(vec![3, 2]);
    let view = graph
        .add_op(Op::Movement(MovementOp::Reshape(target)), &[x])
        .unwrap();
    let flipped = graph.add_op(Op::Movement(MovementOp::Transpose), &[view]).unwrap();
    graph.add_output(reduced).unwrap();
    graph.add_output(flipped).unwrap();
    assert_eq!(
        graph.to_text(true),
        "(@1: 2x3f32) -> (@3, @5) {\n\
         \x20   @0: 2x3f32 = ..;\n\
         \x20   @2: 2x3f32 = add(@1, @0);\n\
         \x20   @3: 2x1f32 = sum(dims=[1])(@2);\n\
         \x20   @4: 3x2f32 = reshape(shape=Shape { dims: [3, 2], strides: [2, 1] })(@1);\n\
         \x20   @5: 2x3f32 = transpose(@4);\n\
         }"
    );
}
