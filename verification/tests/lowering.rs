use momentum::error::ErrorKind;
use momentum::graph::{ElemwiseOp, ExprId, Graph, MovementOp, Op, ReduceOp};
use momentum::tensor::{Layout, Shape, Tensor};
use momentum::wgpu::compiler::WgpuCompiler;
use momentum::wgpu::plan::{WgpuPlan, WgpuStep};

fn compiler(width: u32) -> WgpuCompiler {
    let mut compiler = WgpuCompiler::default();
    compiler.workgroup_size_x = width;
    compiler
}

fn kernels(graph: &Graph) -> Vec<String> {
    (0..graph.len()).map(|n| format!("kernel {n}")).collect()
}

fn lower(graph: Graph) -> WgpuPlan {
    let kernels = kernels(&graph);
    compiler(256).lower(graph, kernels).unwrap()
}

fn id(index: usize) -> ExprId {
    ExprId::new(index)
}

fn ids(indices: &[usize]) -> Vec<ExprId> {
    indices.iter().map(|index| id(*index)).collect()
}

fn execute(output: usize, groups: u32, inputs: &[usize], sizes: &[usize]) -> WgpuStep {
    WgpuStep::Execute {
        output: id(output),
        source: format!("kernel {output}"),
        workgroups: [groups, 1, 1],
        inputs: ids(inputs),
        inputs_layout: sizes
            .iter()
            .enumerate()
            .map(|(binding, size)| (*size, binding != 0))
            .collect(),
    }
}

fn free(buffer: usize) -> WgpuStep {
    WgpuStep::Deallocate(id(buffer))
}

fn sin(graph: &mut Graph, operand: ExprId) -> ExprId {
    graph.add_op(Op::Elemwise(ElemwiseOp::Sin), &[operand]).unwrap()
}

fn add(graph: &mut Graph, left: ExprId, right: ExprId) -> ExprId {
    graph.add_op(Op::Elemwise(ElemwiseOp::Add), &[left, right]).unwrap()
}

fn reshape(graph: &mut Graph, operand: ExprId, dims: Vec<usize>) -> ExprId {
    let op = Op::Movement(MovementOp::Reshape(Shape::contiguous(dims)));
    graph.add_op(op, &[operand]).unwrap()
}

#[test]
fn empty_graph_has_an_empty_plan() {
    let plan = lower(Graph::new());
    assert!(plan.inputs.is_empty());
    assert!(plan.steps.is_empty());
    assert!(plan.outputs.is_empty());
    assert!(plan.output_layouts.is_empty());
}

#[test]
fn inputs_emit_no_step() {
    let mut graph = Graph::new();
    let a = graph.add_input(Layout::scalar());
    let b = graph.add_input(Layout::contiguous(vec![2]));
    graph.add_output(b).unwrap();
    let plan = lower(graph);
    assert_eq!(plan.inputs, vec![a, b]);
    assert!(plan.steps.is_empty());
    assert_eq!(plan.outputs, vec![b]);
    assert_eq!(plan.output_layouts, vec![Layout::contiguous(vec![2])]);
}

#[test]
fn constants_are_allocated_with_their_data() {
    let mut graph = Graph::new();
    let tensor = Tensor::from_parts(vec![1, 2, 3], Layout::contiguous(vec![3]));
    let k = graph.add_const(tensor.clone());
    graph.add_output(k).unwrap();
    let plan = lower(graph);
    assert!(plan.inputs.is_empty());
    assert_eq!(plan.steps, vec![WgpuStep::Allocate { id: k, tensor }]);
    assert_eq!(plan.outputs, vec![k]);
}

#[test]
fn multiply_then_add_a_constant() {
    let mut graph = Graph::new();
    let a = graph.add_input(Layout::scalar());
    let b = graph.add_input(Layout::scalar());
    let two = Tensor::from_scalar(2.0f32.to_bits());
    let k = graph.add_const(two.clone());
    let product = graph.add_op(Op::Elemwise(ElemwiseOp::Mul), &[a, b]).unwrap();
    let sum = add(&mut graph, product, k);
    graph.add_output(sum).unwrap();
    let plan = lower(graph);
    assert_eq!(plan.inputs, vec![a, b]);
    assert_eq!(
        plan.steps,
        vec![
            WgpuStep::Allocate { id: k, tensor: two },
            execute(3, 1, &[3, 0, 1], &[4, 4, 4]),
            free(0),
            free(1),
            execute(4, 1, &[4, 3, 2], &[4, 4, 4]),
            free(3),
            free(2),
        ]
    );
    assert_eq!(plan.outputs, vec![sum]);
    assert_eq!(plan.output_layouts, vec![Layout::scalar()]);
}

#[test]
fn sine_then_reshape_shares_the_buffer() {
    let mut graph = Graph::new();
    let x = graph.add_input(Layout::contiguous(vec![4]));
    let s = sin(&mut graph, x);
    let r = reshape(&mut graph, s, vec![2, 2]);
    graph.add_output(r).unwrap();
    let plan = lower(graph);
    assert_eq!(plan.steps, vec![execute(1, 1, &[1, 0], &[16, 16]), free(0)]);
    assert_eq!(plan.outputs, vec![s]);
    assert_eq!(plan.output_layouts, vec![Layout::contiguous(vec![2, 2])]);
    assert_eq!(plan.output_layouts[0].strides(), &[2, 1]);
}

#[test]
fn an_output_that_is_also_an_operand_is_not_freed() {
    let mut graph = Graph::new();
    let x = graph.add_input(Layout::contiguous(vec![3]));
    let y = sin(&mut graph, x);
    graph.add_output(y).unwrap();
    let z = sin(&mut graph, y);
    graph.add_output(z).unwrap();
    graph.add_output(y).unwrap();
    let plan = lower(graph);
    assert_eq!(
        plan.steps,
        vec![
            execute(1, 1, &[1, 0], &[12, 12]),
            free(0),
            execute(2, 1, &[2, 1], &[12, 12]),
        ]
    );
    assert_eq!(plan.outputs, vec![y, z, y]);
    assert_eq!(plan.output_layouts.len(), 3);
}

#[test]
fn an_input_that_is_an_output_is_not_freed() {
    let mut graph = Graph::new();
    let x = graph.add_input(Layout::scalar());
    let y = sin(&mut graph, x);
    graph.add_output(x).unwrap();
    graph.add_output(y).unwrap();
    let plan = lower(graph);
    assert_eq!(plan.steps, vec![execute(1, 1, &[1, 0], &[4, 4])]);
    assert_eq!(plan.outputs, vec![x, y]);
}

#[test]
fn a_lone_movement_needs_no_kernel() {
    for constant in [false, true] {
        for declared in [false, true] {
            let mut graph = Graph::new();
            let tensor = Tensor::from_parts(vec![0; 6], Layout::contiguous(vec![2, 3]));
            let source = if constant {
                graph.add_const(tensor.clone())
            } else {
                graph.add_input(Layout::contiguous(vec![2, 3]))
            };
            let view = graph
                .add_op(Op::Movement(MovementOp::Transpose), &[source])
                .unwrap();
            if declared {
                graph.add_output(view).unwrap();
            }
            let plan = lower(graph);
            assert!(plan
                .steps
                .iter()
                .all(|step| !matches!(step, WgpuStep::Execute { .. })));
            let mut expected = vec![];
            if constant {
                expected.push(WgpuStep::Allocate { id: source, tensor });
            }
            if declared {
                assert_eq!(plan.outputs, vec![source]);
                assert_eq!(plan.output_layouts[0].dims(), &[3, 2]);
                assert_eq!(plan.output_layouts[0].strides(), &[1, 3]);
            } else {
                expected.push(free(0));
            }
            assert_eq!(plan.steps, expected);
        }
    }
}

#[test]
fn views_of_views_resolve_to_the_owner() {
    let mut graph = Graph::new();
    let x = graph.add_input(Layout::contiguous(vec![1, 6]));
    let a = reshape(&mut graph, x, vec![2, 3]);
    let b = graph.add_op(Op::Movement(MovementOp::Transpose), &[a]).unwrap();
    let c = sin(&mut graph, b);
    let d = graph.add_op(Op::Movement(MovementOp::Squeeze), &[c]).unwrap();
    graph.add_output(b).unwrap();
    graph.add_output(d).unwrap();
    let plan = lower(graph);
    assert_eq!(plan.steps, vec![execute(3, 1, &[3, 0], &[24, 24])]);
    assert_eq!(plan.outputs, vec![x, c]);
    assert_eq!(plan.output_layouts[0].dims(), &[3, 2]);
    assert_eq!(plan.output_layouts[1].dims(), &[3, 2]);
}

#[test]
fn a_buffer_lives_until_its_last_view_is_read() {
    let mut graph = Graph::new();
    let x = graph.add_input(Layout::contiguous(vec![4]));
    let y = reshape(&mut graph, x, vec![2, 2]);
    let z = sin(&mut graph, x);
    let w = sin(&mut graph, y);
    let sum = add(&mut graph, w, z);
    graph.add_output(sum).unwrap();
    let plan = lower(graph);
    assert_eq!(
        plan.steps,
        vec![
            execute(2, 1, &[2, 0], &[16, 16]),
            execute(3, 1, &[3, 0], &[16, 16]),
            free(0),
            execute(4, 1, &[4, 3, 2], &[16, 16, 16]),
            free(3),
            free(2),
        ]
    );
}

#[test]
fn a_view_read_before_its_source_keeps_the_buffer() {
    let mut graph = Graph::new();
    let x = graph.add_input(Layout::contiguous(vec![4]));
    let y = reshape(&mut graph, x, vec![4]);
    let z = sin(&mut graph, y);
    let w = add(&mut graph, x, z);
    graph.add_output(w).unwrap();
    let plan = lower(graph);
    assert_eq!(
        plan.steps,
        vec![
            execute(2, 1, &[2, 0], &[16, 16]),
            execute(3, 1, &[3, 0, 2], &[16, 16, 16]),
            free(0),
            free(2),
        ]
    );
}

#[test]
fn a_repeated_operand_is_freed_once() {
    let mut graph = Graph::new();
    let x = graph.add_input(Layout::scalar());
    let double = add(&mut graph, x, x);
    let y = reshape(&mut graph, double, vec![1]);
    let square = graph
        .add_op(Op::Elemwise(ElemwiseOp::Mul), &[y, double])
        .unwrap();
    graph.add_output(square).unwrap();
    let plan = lower(graph);
    assert_eq!(
        plan.steps,
        vec![
            execute(1, 1, &[1, 0, 0], &[4, 4, 4]),
            free(0),
            execute(3, 1, &[3, 1, 1], &[4, 4, 4]),
            free(1),
        ]
    );
}

#[test]
fn an_unused_node_is_never_freed() {
    let mut graph = Graph::new();
    let x = graph.add_input(Layout::scalar());
    graph.add_input(Layout::scalar());
    sin(&mut graph, x);
    graph.add_const(Tensor::from_scalar(0));
    let plan = lower(graph);
    assert_eq!(plan.steps.len(), 3);
    assert_eq!(plan.steps[0], execute(2, 1, &[2, 0], &[4, 4]));
    assert_eq!(plan.steps[1], free(0));
    assert!(matches!(plan.steps[2], WgpuStep::Allocate { .. }));
}

#[test]
fn every_freed_buffer_is_freed_once_after_its_last_use() {
    let mut graph = Graph::new();
    let a = graph.add_input(Layout::contiguous(vec![2, 2]));
    let b = graph.add_input(Layout::contiguous(vec![2, 2]));
    let k = graph.add_const(Tensor::from_parts(vec![0; 4], Layout::contiguous(vec![2, 2])));
    let t = graph.add_op(Op::Movement(MovementOp::Transpose), &[a]).unwrap();
    let s = add(&mut graph, t, b);
    let u = add(&mut graph, s, k);
    let v = reshape(&mut graph, u, vec![4]);
    let w = add(&mut graph, v, v);
    let x = sin(&mut graph, a);
    graph.add_output(w).unwrap();
    graph.add_output(x).unwrap();
    let plan = lower(graph);
    let retrieved = [w.index(), x.index()];
    for buffer in 0..9usize {
        let frees: Vec<usize> = plan
            .steps
            .iter()
            .enumerate()
            .filter(|(_, step)| **step == free(buffer))
            .map(|(position, _)| position)
            .collect();
        let uses: Vec<usize> = plan
            .steps
            .iter()
            .enumerate()
            .filter(|(_, step)| match step {
                WgpuStep::Execute { inputs, .. } => inputs.contains(&id(buffer)),
                WgpuStep::Allocate { id: made, .. } => made.index() == buffer,
                WgpuStep::Deallocate(_) => false,
            })
            .map(|(position, _)| position)
            .collect();
        let owns = ![t.index(), v.index()].contains(&buffer);
        if owns && !retrieved.contains(&buffer) {
            assert_eq!(frees.len(), 1, "buffer {buffer}");
            assert!(uses.iter().all(|position| *position < frees[0]), "buffer {buffer}");
        } else {
            assert!(frees.is_empty(), "buffer {buffer}");
        }
    }
}

#[test]
fn work_groups_cover_the_elements() {
    let cases: [(usize, u32, u32); 8] = [
        (1, 256, 1),
        (256, 256, 1),
        (257, 256, 2),
        (1000, 256, 4),
        (1024, 256, 4),
        (7, 1, 7),
        (7, 3, 3),
        (0, 64, 0),
    ];
    for (elements, width, groups) in cases {
        let mut graph = Graph::new();
        let x = graph.add_input(Layout::contiguous(vec![elements]));
        sin(&mut graph, x);
        let plan = compiler(width).lower(graph, vec![String::new(); 2]).unwrap();
        match &plan.steps[0] {
            WgpuStep::Execute { workgroups, .. } => assert_eq!(*workgroups, [groups, 1, 1]),
            other => panic!("unexpected step {other:?}"),
        }
    }
}

#[test]
fn the_given_kernels_are_used() {
    let mut graph = Graph::new();
    let x = graph.add_input(Layout::scalar());
    let k = graph.add_const(Tensor::from_scalar(1));
    add(&mut graph, x, k);
    let kernels = vec!["a".to_string(), "b".to_string(), "c".to_string()];
    let plan = WgpuCompiler::default().lower(graph, kernels).unwrap();
    match &plan.steps[1] {
        WgpuStep::Execute { source, .. } => assert_eq!(source, "c"),
        other => panic!("unexpected step {other:?}"),
    }
}

#[test]
fn reductions_are_not_supported() {
    let mut graph = Graph::new();
    let x = graph.add_input(Layout::contiguous(vec![2, 3]));
    graph
        .add_op(Op::Reduce { op: ReduceOp::Sum, dims: vec![1] }, &[x])
        .unwrap();
    assert!(!compiler(256).supports(&graph));
    let kernels = kernels(&graph);
    assert_eq!(
        compiler(256).lower(graph, kernels),
        Err(ErrorKind::UnsupportedOperation)
    );
}

#[test]
fn empty_work_groups_are_not_supported() {
    let mut graph = Graph::new();
    graph.add_input(Layout::scalar());
    assert!(compiler(1).supports(&graph));
    assert!(!compiler(0).supports(&graph));
    assert_eq!(
        compiler(0).lower(graph, vec![String::new()]),
        Err(ErrorKind::UnsupportedOperation)
    );
}

#[test]
fn too_many_work_groups_are_not_supported() {
    if usize::BITS < 64 {
        return;
    }
    let mut graph = Graph::new();
    let x = graph.add_input(Layout::contiguous(vec![1 << 20, 1 << 12]));
    sin(&mut graph, x);
    assert!(compiler(2).supports(&graph));
    assert!(!compiler(1).supports(&graph));
    assert_eq!(
        compiler(1).lower(graph, vec![String::new(); 2]),
        Err(ErrorKind::UnsupportedOperation)
    );
}

#[test]
fn kernels_must_come_one_per_node() {
    let mut graph = Graph::new();
    let x = graph.add_input(Layout::scalar());
    sin(&mut graph, x);
    assert_eq!(
        compiler(256).lower(graph, vec![String::new()]),
        Err(ErrorKind::BackendFailure)
    );
    let mut graph = Graph::new();
    graph.add_input(Layout::scalar());
    assert_eq!(
        compiler(256).lower(graph, vec![]),
        Err(ErrorKind::BackendFailure)
    );
}

#[test]
fn unsupported_is_reported_before_missing_kernels() {
    let mut graph = Graph::new();
    let x = graph.add_input(Layout::contiguous(vec![2]));
    graph
        .add_op(Op::Reduce { op: ReduceOp::Max, dims: vec![0] }, &[x])
        .unwrap();
    assert_eq!(
        compiler(256).lower(graph, vec![]),
        Err(ErrorKind::UnsupportedOperation)
    );
}

#[test]
fn default_compiler_uses_256_threads() {
    assert_eq!(WgpuCompiler::default().workgroup_size_x, 256);
}
