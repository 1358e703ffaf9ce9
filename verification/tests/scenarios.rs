use std::collections::HashMap;

use momentum::builder;
use momentum::compiler::Compiler;
use momentum::graph::{ElemwiseOp, ExprId, Graph, MovementOp, Op};
use momentum::tensor::{Layout, Shape, Tensor};
use momentum::wgpu::compiler::WgpuCompiler;
use momentum::wgpu::plan::{WgpuPlan, WgpuStep};

fn compile(graph: Graph, width: u32) -> WgpuPlan {
    WgpuCompiler::new(width).compile(graph).unwrap()
}

/// What a kernel says of itself.
struct Kernel {
    width: usize,
    elements: usize,
    dims: Vec<usize>,
    output_strides: Vec<usize>,
    operands: Vec<(String, Vec<usize>)>,
    expr: String,
}

fn between<'a>(line: &'a str, before: &str, after: &str) -> Option<&'a str> {
    line.strip_prefix(before)?.strip_suffix(after)
}

/// Reads a kernel line by line.
fn read(source: &str) -> Kernel {
    let mut kernel = Kernel {
        width: 0,
        elements: 0,
        dims: vec![],
        output_strides: vec![],
        operands: vec![],
        expr: String::new(),
    };
    for line in source.lines() {
        if let Some(width) = between(line, "@compute @workgroup_size(", ")") {
            kernel.width = width.parse().unwrap();
        } else if let Some(name) = between(line, "var<storage, read> ", ": array<f32>;") {
            kernel.operands.push((name.to_string(), vec![]));
        } else if let Some(elements) = between(line, "    if (invocation.x >= ", "u) {") {
            kernel.elements = elements.parse().unwrap();
        } else if let Some(dim) = between(line, "    block = block / ", "u;") {
            kernel.dims.push(dim.parse().unwrap());
        } else if let Some(expr) = between(line, "    output[offset_output] = ", ";") {
            kernel.expr = expr.to_string();
        } else if let Some(rest) = between(line, "    offset_", "u;") {
            if let Some((name, stride)) = rest.split_once(" + coordinate * ") {
                let stride: usize = stride.parse().unwrap();
                if name == "output = offset_output" {
                    kernel.output_strides.push(stride);
                } else {
                    let operand = kernel
                        .operands
                        .iter_mut()
                        .find(|(operand, _)| name == format!("{operand} = offset_{operand}"))
                        .unwrap();
                    operand.1.push(stride);
                }
            }
        }
    }
    kernel
}

/// The position that an invocation reaches through the given strides: its
/// number is split into one coordinate per dimension, outermost first.
fn reached(invocation: usize, elements: usize, dims: &[usize], strides: &[usize]) -> usize {
    let mut rest = invocation;
    let mut block = elements;
    let mut offset = 0;
    for (dim, stride) in dims.iter().zip(strides) {
        block /= dim;
        offset += (rest / block) * stride;
        rest %= block;
    }
    offset
}

/// The position in a buffer of the element with the given row-major number.
fn offset(mut number: usize, dims: &[usize], strides: &[usize]) -> usize {
    let mut offset = 0;
    for (dim, stride) in dims.iter().zip(strides).rev() {
        offset += (number % dim) * stride;
        number /= dim;
    }
    offset
}

fn matching_paren(text: &str) -> usize {
    let mut depth = 0;
    for (position, symbol) in text.char_indices() {
        match symbol {
            '(' => depth += 1,
            ')' => {
                depth -= 1;
                if depth == 0 {
                    return position;
                }
            }
            _ => {}
        }
    }
    panic!("unbalanced expression {text}");
}

/// The value of an expression, given the current element of every operand.
fn evaluate(text: &str, elements: &HashMap<String, f32>) -> f32 {
    if let Some(rest) = text.strip_prefix("sin(") {
        return evaluate(&rest[..rest.len() - 1], elements).sin();
    }
    if text.starts_with('(') {
        let close = matching_paren(text);
        let left = evaluate(&text[1..close], elements);
        let operator = &text[close + 1..close + 4];
        let right = evaluate(&text[close + 5..text.len() - 1], elements);
        return match operator {
            " + " => left + right,
            " * " => left * right,
            other => panic!("unknown operator {other}"),
        };
    }
    elements[text]
}

/// A backend that keeps its buffers in a map and computes on the host.
fn run(plan: &WgpuPlan, inputs: Vec<Vec<f32>>) -> Vec<(Vec<f32>, Layout)> {
    assert_eq!(plan.inputs.len(), inputs.len());
    let mut buffers: HashMap<ExprId, Vec<f32>> = HashMap::new();
    for (id, data) in plan.inputs.iter().zip(inputs) {
        assert!(buffers.insert(*id, data).is_none());
    }
    for step in &plan.steps {
        match step {
            WgpuStep::Allocate { id, tensor } => {
                let data = tensor.data().iter().map(|bits| f32::from_bits(*bits)).collect();
                assert!(buffers.insert(*id, data).is_none(), "{id:?} allocated twice");
            }
            WgpuStep::Deallocate(id) => {
                assert!(buffers.remove(id).is_some(), "{id:?} freed but not allocated");
            }
            WgpuStep::Execute { output, source, workgroups, inputs, inputs_layout } => {
                let kernel = read(source);
                let threads = workgroups[0] as usize * kernel.width;
                assert_eq!(&workgroups[1..], &[1, 1]);
                assert!(threads >= kernel.elements && threads < kernel.elements + kernel.width);
                assert_eq!(inputs[0], *output);
                assert_eq!(inputs_layout[0], (kernel.elements * 4, false));
                assert_eq!(inputs.len(), inputs_layout.len());
                let mut result = vec![0.0; kernel.elements];
                for thread in 0..threads {
                    if thread >= kernel.elements {
                        continue;
                    }
                    let mut elements = HashMap::new();
                    for (binding, (name, strides)) in kernel.operands.iter().enumerate() {
                        let buffer = buffers
                            .get(&inputs[binding + 1])
                            .unwrap_or_else(|| panic!("{name} is not allocated"));
                        assert_eq!(inputs_layout[binding + 1], (buffer.len() * 4, true));
                        let position = reached(thread, kernel.elements, &kernel.dims, strides);
                        elements.insert(format!("elem_{name}"), buffer[position]);
                    }
                    let position =
                        reached(thread, kernel.elements, &kernel.dims, &kernel.output_strides);
                    result[position] = evaluate(&kernel.expr, &elements);
                }
                assert!(buffers.insert(*output, result).is_none(), "{output:?} executed twice");
            }
        }
    }
    plan.outputs
        .iter()
        .zip(&plan.output_layouts)
        .map(|(id, layout)| (buffers[id].clone(), layout.clone()))
        .collect()
}

/// The elements of a buffer in the row-major order of its layout.
fn logical(data: &[f32], layout: &Layout) -> Vec<f32> {
    (0..layout.elements())
        .map(|number| data[offset(number, layout.dims(), layout.strides())])
        .collect()
}

fn scalar(value: f32) -> Tensor {
    Tensor::from_scalar(value.to_bits())
}

#[test]
fn product_plus_constant_is_fourteen() {
    let mut graph = Graph::new();
    let a = graph.add_input(Layout::scalar());
    let b = graph.add_input(Layout::scalar());
    let k = graph.add_const(scalar(2.0));
    let product = builder::Mul::new(a, b).build(&mut graph).unwrap();
    let sum = builder::Add::new(product, k).build(&mut graph).unwrap();
    graph.add_output(sum).unwrap();
    let plan = compile(graph, 256);
    let outputs = run(&plan, vec![vec![3.0], vec![4.0]]);
    assert_eq!(outputs.len(), 1);
    assert_eq!(outputs[0].0, vec![14.0]);
    assert_eq!(outputs[0].1, Layout::scalar());
}

#[test]
fn sum_of_three_inputs() {
    let mut graph = Graph::new();
    let a = graph.add_input(Layout::scalar());
    let b = graph.add_input(Layout::scalar());
    let c = graph.add_input(Layout::scalar());
    let product = builder::Mul::new(a, b).build(&mut graph).unwrap();
    let result = builder::Add::new(product, c).build(&mut graph).unwrap();
    graph.add_output(result).unwrap();
    let plan = compile(graph, 256);
    let outputs = run(&plan, vec![vec![2.0], vec![2.0], vec![2.0]]);
    assert_eq!(outputs[0].0, vec![6.0]);
}

#[test]
fn sine_then_reshape_keeps_the_flat_order() {
    let mut graph = Graph::new();
    let x = graph.add_input(Layout::contiguous(vec![4]));
    let s = graph.add_op(Op::Elemwise(ElemwiseOp::Sin), &[x]).unwrap();
    let target = Shape::contiguous(vec![2, 2]);
    let r = graph.add_op(Op::Movement(MovementOp::Reshape(target)), &[s]).unwrap();
    graph.add_output(r).unwrap();
    let plan = compile(graph, 256);
    let input = vec![0.0f32, 0.5, 1.0, 1.5];
    let outputs = run(&plan, vec![input.clone()]);
    let sines: Vec<f32> = input.iter().map(|x| x.sin()).collect();
    assert_eq!(outputs.len(), 1);
    assert_eq!(outputs[0].0, sines);
    assert_eq!(outputs[0].1.dims(), &[2, 2]);
    assert_eq!(outputs[0].1.strides(), &[2, 1]);
    assert_eq!(outputs[0].1, Layout::contiguous(vec![2, 2]));
}

#[test]
fn an_output_read_by_a_later_operation_is_still_there() {
    let mut graph = Graph::new();
    let x = graph.add_input(Layout::contiguous(vec![3]));
    let y = graph.add_op(Op::Elemwise(ElemwiseOp::Sin), &[x]).unwrap();
    graph.add_output(y).unwrap();
    let z = graph.add_op(Op::Elemwise(ElemwiseOp::Mul), &[y, y]).unwrap();
    let w = graph.add_op(Op::Elemwise(ElemwiseOp::Add), &[z, y]).unwrap();
    graph.add_output(w).unwrap();
    let plan = compile(graph, 2);
    let input = vec![0.25f32, 1.0, 2.0];
    let outputs = run(&plan, vec![input.clone()]);
    let first: Vec<f32> = input.iter().map(|x| x.sin()).collect();
    let second: Vec<f32> = first.iter().map(|y| y * y + y).collect();
    assert_eq!(outputs[0].0, first);
    assert_eq!(outputs[1].0, second);
}

#[test]
fn a_view_is_read_through_its_own_strides() {
    let mut graph = Graph::new();
    let a = graph.add_input(Layout::contiguous(vec![2, 3]));
    let b = graph.add_input(Layout::contiguous(vec![3, 2]));
    let t = graph.add_op(Op::Movement(MovementOp::Transpose), &[a]).unwrap();
    let sum = graph.add_op(Op::Elemwise(ElemwiseOp::Add), &[b, t]).unwrap();
    graph.add_output(sum).unwrap();
    graph.add_output(t).unwrap();
    let plan = compile(graph, 4);
    let left = vec![1.0f32, 2.0, 3.0, 4.0, 5.0, 6.0];
    let right = vec![10.0f32, 20.0, 30.0, 40.0, 50.0, 60.0];
    let outputs = run(&plan, vec![left.clone(), right]);
    assert_eq!(
        logical(&outputs[0].0, &outputs[0].1),
        vec![11.0, 24.0, 32.0, 45.0, 53.0, 66.0]
    );
    assert_eq!(outputs[1].0, left);
    assert_eq!(
        logical(&outputs[1].0, &outputs[1].1),
        vec![1.0, 4.0, 2.0, 5.0, 3.0, 6.0]
    );
}

#[test]
fn a_buffer_outlives_the_views_that_are_read_later() {
    let mut graph = Graph::new();
    let x = graph.add_input(Layout::contiguous(vec![4]));
    let target = Shape::contiguous(vec![2, 2]);
    let y = graph.add_op(Op::Movement(MovementOp::Reshape(target)), &[x]).unwrap();
    let z = graph.add_op(Op::Elemwise(ElemwiseOp::Sin), &[x]).unwrap();
    let w = graph.add_op(Op::Elemwise(ElemwiseOp::Mul), &[y, y]).unwrap();
    let flat = graph
        .add_op(Op::Movement(MovementOp::Reshape(Shape::contiguous(vec![4]))), &[w])
        .unwrap();
    let sum = graph.add_op(Op::Elemwise(ElemwiseOp::Add), &[flat, z]).unwrap();
    graph.add_output(sum).unwrap();
    let plan = compile(graph, 3);
    let input = vec![0.0f32, 1.0, 2.0, 3.0];
    let outputs = run(&plan, vec![input.clone()]);
    let expected: Vec<f32> = input.iter().map(|x| x * x + x.sin()).collect();
    assert_eq!(outputs[0].0, expected);
    let frees = plan
        .steps
        .iter()
        .filter(|step| matches!(step, WgpuStep::Deallocate(_)))
        .count();
    assert_eq!(frees, 3);
}

#[test]
fn constants_take_part_like_inputs() {
    let mut graph = Graph::new();
    let data: Vec<u32> = [1.0f32, 2.0, 3.0].iter().map(|x| x.to_bits()).collect();
    let k = graph.add_const(Tensor::from_parts(data, Layout::contiguous(vec![3])));
    let x = graph.add_input(Layout::contiguous(vec![3]));
    let product = graph.add_op(Op::Elemwise(ElemwiseOp::Mul), &[k, x]).unwrap();
    graph.add_output(product).unwrap();
    graph.add_output(k).unwrap();
    let plan = compile(graph, 1);
    let outputs = run(&plan, vec![vec![2.0, 2.0, 0.5]]);
    assert_eq!(outputs[0].0, vec![2.0, 4.0, 1.5]);
    assert_eq!(outputs[1].0, vec![1.0, 2.0, 3.0]);
}
