use momentum::tensor::{Layout, Shape, Tensor};

#[test]
fn contiguous_strides_are_row_major() {
    let shape = Shape::contiguous(vec![2, 3, 4]);
    assert_eq!(shape.dims(), &[2, 3, 4]);
    assert_eq!(shape.strides(), &[12, 4, 1]);
    assert_eq!(shape.rank(), 3);
    assert_eq!(shape.elements(), 24);
}

#[test]
fn scalar_has_no_dimensions_and_one_element() {
    let layout = Layout::scalar();
    assert_eq!(layout.rank(), 0);
    assert!(layout.dims().is_empty());
    assert!(layout.strides().is_empty());
    assert_eq!(layout.elements(), 1);
    assert_eq!(layout.size(), 4);
}

#[test]
fn size_is_four_bytes_per_element() {
    let layout = Layout::contiguous(vec![5, 7]);
    assert_eq!(layout.elements(), 35);
    assert_eq!(layout.size(), 140);
}

#[test]
fn empty_dimension_gives_no_elements() {
    let layout = Layout::contiguous(vec![3, 0, 2]);
    assert_eq!(layout.elements(), 0);
    assert_eq!(layout.size(), 0);
    assert_eq!(layout.strides(), &[0, 2, 1]);
}

#[test]
fn addressable_dims_are_told_from_too_large_ones() {
    assert!(Shape::is_addressable(&vec![]));
    assert!(Shape::is_addressable(&vec![1024, 1024]));
    assert!(Shape::is_addressable(&vec![0, 16]));
    assert!(!Shape::is_addressable(&vec![usize::MAX, 2]));
    assert!(!Shape::is_addressable(&vec![usize::MAX / 4 + 1]));
    assert!(Shape::is_addressable(&vec![usize::MAX / 4]));
    assert!(!Shape::is_addressable(&vec![0, usize::MAX, usize::MAX]));
    assert!(Shape::is_addressable(&vec![usize::MAX, 0]));
    assert!(Shape::is_addressable(&vec![usize::MAX, 0, 8]));
    assert!(Shape::is_addressable(&vec![0, usize::MAX]));
    assert!(!Shape::is_addressable(&vec![2, usize::MAX]));
}

#[test]
fn an_empty_tensor_may_have_huge_dimensions() {
    let shape = Shape::contiguous(vec![usize::MAX, 0, 8]);
    assert_eq!(shape.strides(), &[0, 8, 1]);
    assert_eq!(shape.elements(), 0);
    let layout = Layout::from(shape);
    assert_eq!(layout.size(), 0);
    assert_eq!(layout.transpose().dims(), &[usize::MAX, 8, 0]);
    assert_eq!(layout.squeeze().dims(), &[usize::MAX, 0, 8]);
    let view = Shape::from_parts(vec![0, usize::MAX, usize::MAX], vec![0, 0, 0]).unwrap();
    assert_eq!(view.elements(), 0);
}

#[test]
fn a_reduction_must_fit_after_it() {
    let layout = Layout::contiguous(vec![usize::MAX / 4 + 1, 0]);
    assert!(layout.can_reduce(&vec![0]));
    assert!(layout.can_reduce(&vec![]));
    assert!(!layout.can_reduce(&vec![1]));
    assert!(!layout.can_reduce(&vec![2]));
    let smaller = Layout::contiguous(vec![usize::MAX / 4, 0]);
    assert!(smaller.can_reduce(&vec![1]));
    assert_eq!(smaller.reduce(&vec![1]).dims(), &[usize::MAX / 4, 1]);
    assert_eq!(smaller.reduce(&vec![1]).elements(), usize::MAX / 4);
    assert_eq!(layout.reduce(&vec![0]).dims(), &[1, 0]);
}

#[test]
fn layouts_are_equal_when_dims_and_strides_are() {
    assert_eq!(Layout::contiguous(vec![2, 3]), Layout::contiguous(vec![2, 3]));
    assert_ne!(Layout::contiguous(vec![2, 3]), Layout::contiguous(vec![3, 2]));
    assert_ne!(
        Layout::contiguous(vec![2, 3]).transpose(),
        Layout::contiguous(vec![3, 2])
    );
}

#[test]
fn layout_from_shape_keeps_the_shape() {
    let layout = Layout::from(Shape::contiguous(vec![4, 2]));
    assert_eq!(layout.shape(), &Shape::contiguous(vec![4, 2]));
    assert_eq!(layout.dims(), &[4, 2]);
    assert_eq!(layout.strides(), &[2, 1]);
}

#[test]
fn transpose_swaps_innermost_dims_and_strides() {
    let layout = Layout::contiguous(vec![2, 3, 4]).transpose();
    assert_eq!(layout.dims(), &[2, 4, 3]);
    assert_eq!(layout.strides(), &[12, 1, 4]);
    assert_eq!(layout.elements(), 24);
}

#[test]
fn transpose_twice_restores_the_layout() {
    let layout = Layout::contiguous(vec![5, 2, 7]);
    assert_eq!(layout.transpose().transpose(), layout);
    let view = Layout::contiguous(vec![3, 1, 4]).squeeze();
    assert_eq!(view.transpose().transpose(), view);
}

#[test]
fn squeeze_drops_unit_dims_and_keeps_strides_paired() {
    let layout = Layout::contiguous(vec![1, 3, 1, 4, 1]).squeeze();
    assert_eq!(layout.dims(), &[3, 4]);
    assert_eq!(layout.strides(), &[4, 1]);
    let transposed = Layout::contiguous(vec![2, 1, 5]).transpose().squeeze();
    assert_eq!(transposed.dims(), &[2, 5]);
    assert_eq!(transposed.strides(), &[5, 1]);
    let inner = Layout::contiguous(vec![1, 2, 3]).transpose().squeeze();
    assert_eq!(inner.dims(), &[3, 2]);
    assert_eq!(inner.strides(), &[1, 3]);
    let scalar = Layout::contiguous(vec![1, 1]).squeeze();
    assert_eq!(scalar, Layout::scalar());
}

#[test]
fn reduce_sets_listed_dims_to_one() {
    let layout = Layout::contiguous(vec![2, 3, 4]);
    let reduced = layout.reduce(&vec![1]);
    assert_eq!(reduced.dims(), &[2, 1, 4]);
    assert_eq!(reduced.strides(), layout.strides());
    let both = layout.reduce(&vec![2, 0, 2]);
    assert_eq!(both.dims(), &[1, 3, 1]);
    let none = layout.reduce(&vec![]);
    assert_eq!(none, layout);
}

#[test]
fn reshape_replaces_the_shape() {
    let layout = Layout::contiguous(vec![4]).reshape(Shape::contiguous(vec![2, 2]));
    assert_eq!(layout, Layout::contiguous(vec![2, 2]));
    assert_eq!(layout.strides(), &[2, 1]);
}

#[test]
fn tensor_from_scalar_holds_one_element() {
    let tensor = Tensor::from_scalar(2.0f32.to_bits());
    assert_eq!(tensor.data(), &[2.0f32.to_bits()]);
    assert_eq!(tensor.layout(), &Layout::scalar());
}

#[test]
fn tensor_reshape_keeps_the_buffer() {
    let data: Vec<u32> = [1.0f32, 2.0, 3.0, 4.0].iter().map(|x| x.to_bits()).collect();
    let tensor = Tensor::from_parts(data.clone(), Layout::contiguous(vec![4]));
    let reshaped = tensor.clone().reshape(Shape::contiguous(vec![2, 2]));
    assert_eq!(reshaped.data(), data.as_slice());
    assert_eq!(reshaped.layout().dims(), &[2, 2]);
    assert_eq!(tensor.layout().dims(), &[4]);
}

#[test]
fn shape_from_parts_checks_lengths_and_size() {
    let shape = Shape::from_parts(vec![3, 2], vec![1, 3]).unwrap();
    assert_eq!(shape.dims(), &[3, 2]);
    assert_eq!(shape.strides(), &[1, 3]);
    assert_eq!(Layout::from(shape), Layout::contiguous(vec![2, 3]).transpose());
    assert_eq!(Shape::from_parts(vec![], vec![]), Some(Shape::contiguous(vec![])));
    assert_eq!(Shape::from_parts(vec![3, 2], vec![1]), None);
    assert_eq!(Shape::from_parts(vec![], vec![1]), None);
    assert_eq!(Shape::from_parts(vec![usize::MAX, 2], vec![2, 1]), None);
}

#[test]
fn shapes_differ_when_only_strides_differ() {
    let row_major = Shape::from_parts(vec![2, 2], vec![2, 1]).unwrap();
    let column_major = Shape::from_parts(vec![2, 2], vec![1, 2]).unwrap();
    assert_eq!(row_major, Shape::contiguous(vec![2, 2]));
    assert_ne!(row_major, column_major);
    assert_eq!(row_major.clone(), row_major);
}
