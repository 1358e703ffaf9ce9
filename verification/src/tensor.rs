//! Shapes, memory layouts and tensor values.
//!
//! A layout pairs the size of every dimension with the stride that steps
//! through it in a flat buffer. Layouts are plain values: every operation that
//! changes one returns a new layout and leaves the buffer alone.

use vstd::prelude::*;
use vstd::std_specs::cmp::PartialEqSpecImpl;
use vstd::std_specs::convert::FromSpecImpl;

use crate::text::{joined, joined_text};

verus! {

/// Index of a dimension, counted from the outermost one.
pub type DimId = usize;

/// Bytes taken by one tensor element (a 32-bit float).
pub const ELEMENT_SIZE: usize = 4;

/// Product of all entries of `dims`; the empty product is 1.
pub open spec fn product(dims: Seq<usize>) -> nat
    decreases dims.len(),
{
    if dims.len() == 0 {
        1
    } else {
        dims[0] as nat * product(dims.skip(1))
    }
}

/// Whether a tensor with these dimension sizes can be held on this machine:
/// its size in bytes fits in `usize`.
pub open spec fn sized(dims: Seq<usize>) -> bool {
    product(dims) * ELEMENT_SIZE <= usize::MAX
}

/// Whether a row-major shape with these dimension sizes can be built on this
/// machine: a tensor of it can be held, and every stride, the product of the
/// sizes to the right of a dimension, fits in `usize`.
pub open spec fn addressable(dims: Seq<usize>) -> bool {
    &&& sized(dims)
    &&& forall|i: int| 0 <= i <= dims.len() ==> #[trigger] product(dims.skip(i)) <= usize::MAX
}

/// Row-major strides of `dims`: each stride is the product of the sizes to its
/// right, so the innermost stride is 1.
pub open spec fn row_major(dims: Seq<usize>) -> Seq<usize> {
    Seq::new(dims.len(), |i: int| product(dims.skip(i + 1)) as usize)
}

/// The entries of `dims` that differ from 1, each with the stride at the same
/// position, in the order they stand in.
pub open spec fn without_unit_dims(dims: Seq<usize>, strides: Seq<usize>) -> (Seq<usize>, Seq<usize>)
    decreases dims.len(),
{
    if dims.len() == 0 || strides.len() == 0 {
        (Seq::empty(), Seq::empty())
    } else {
        let rest = without_unit_dims(dims.drop_last(), strides.drop_last());
        if dims.last() != 1 {
            (rest.0.push(dims.last()), rest.1.push(strides.last()))
        } else {
            rest
        }
    }
}

/// `dims` with the entry at every index listed in `axes` replaced by 1.
pub open spec fn with_unit_dims(dims: Seq<usize>, axes: Seq<usize>) -> Seq<usize> {
    Seq::new(
        dims.len(),
        |i: int|
            if exists|k: int| 0 <= k < axes.len() && axes[k] == i {
                1usize
            } else {
                dims[i]
            },
    )
}

/// `s` with its last two entries exchanged.
pub open spec fn swap_innermost(s: Seq<usize>) -> Seq<usize>
    recommends
        s.len() >= 2,
{
    s.update(s.len() - 2, s[s.len() - 1]).update(s.len() - 1, s[s.len() - 2])
}

/// Mathematical model of a shape or layout: dimension sizes and strides.
pub struct LayoutModel {
    pub dims: Seq<usize>,
    pub strides: Seq<usize>,
}

impl LayoutModel {
    /// One stride per dimension, and a size in bytes that fits in `usize`.
    pub open spec fn wf(self) -> bool {
        &&& self.dims.len() == self.strides.len()
        &&& sized(self.dims)
    }

    pub open spec fn rank(self) -> nat {
        self.dims.len()
    }

    /// Number of elements described.
    pub open spec fn elements(self) -> nat {
        product(self.dims)
    }

    /// Number of bytes of storage described.
    pub open spec fn size(self) -> nat {
        self.elements() * (ELEMENT_SIZE as nat)
    }

    /// The freshly allocated, row-major layout of `dims`.
    pub open spec fn contiguous(dims: Seq<usize>) -> LayoutModel {
        LayoutModel { dims, strides: row_major(dims) }
    }

    /// The layout of a single element: no dimensions.
    pub open spec fn scalar() -> LayoutModel {
        LayoutModel { dims: Seq::empty(), strides: Seq::empty() }
    }

    /// The two innermost dimensions exchanged, sizes and strides alike.
    pub open spec fn transposed(self) -> LayoutModel
        recommends
            self.rank() >= 2,
    {
        LayoutModel { dims: swap_innermost(self.dims), strides: swap_innermost(self.strides) }
    }

    /// Every dimension of size 1 dropped, the others kept in order with their
    /// strides.
    pub open spec fn squeezed(self) -> LayoutModel {
        let kept = without_unit_dims(self.dims, self.strides);
        LayoutModel { dims: kept.0, strides: kept.1 }
    }

    /// Every dimension listed in `axes` collapsed to size 1; all strides and
    /// the other sizes are kept.
    pub open spec fn reduced(self, axes: Seq<usize>) -> LayoutModel {
        LayoutModel { dims: with_unit_dims(self.dims, axes), strides: self.strides }
    }
}

/// A tensor with an empty dimension has no elements.
pub proof fn lemma_product_zero(dims: Seq<usize>, i: int)
    requires
        0 <= i < dims.len(),
        dims[i] == 0,
    ensures
        product(dims) == 0,
    decreases i,
{
    if i > 0 {
        assert(dims.skip(1)[i - 1] == dims[i]);
        lemma_product_zero(dims.skip(1), i - 1);
    }
    assert(dims[0] as nat * product(dims.skip(1)) == 0) by (nonlinear_arith)
        requires
            dims[0] == 0 || product(dims.skip(1)) == 0,
    ;
}

/// Without an empty dimension, the inner dimensions alone hold no more
/// elements than all of them.
pub proof fn lemma_product_suffix(dims: Seq<usize>, n: int)
    requires
        0 <= n <= dims.len(),
        forall|i: int| 0 <= i < dims.len() ==> dims[i] >= 1,
    ensures
        product(dims.skip(n)) <= product(dims),
    decreases n,
{
    if n == 0 {
        assert(dims.skip(0) =~= dims);
    } else {
        assert forall|i: int| 0 <= i < dims.skip(1).len() implies dims.skip(1)[i] >= 1 by {
            assert(dims.skip(1)[i] == dims[i + 1]);
        }
        lemma_product_suffix(dims.skip(1), n - 1);
        assert(dims.skip(1).skip(n - 1) =~= dims.skip(n));
        assert(product(dims.skip(1)) <= dims[0] as nat * product(dims.skip(1)))
            by (nonlinear_arith)
            requires
                dims[0] >= 1,
        ;
    }
}

/// Squeezing keeps one stride per dimension and does not change the element
/// count.
pub proof fn lemma_without_unit_dims(dims: Seq<usize>, strides: Seq<usize>)
    requires
        dims.len() == strides.len(),
    ensures
        without_unit_dims(dims, strides).0.len() == without_unit_dims(dims, strides).1.len(),
        without_unit_dims(dims, strides).0.len() <= dims.len(),
        product(without_unit_dims(dims, strides).0) == product(dims),
    decreases dims.len(),
{
    if dims.len() > 0 {
        let rest = without_unit_dims(dims.drop_last(), strides.drop_last());
        lemma_without_unit_dims(dims.drop_last(), strides.drop_last());
        assert(dims.drop_last().push(dims.last()) =~= dims);
        lemma_product_push(dims.drop_last(), dims.last());
        if dims.last() != 1 {
            lemma_product_push(rest.0, dims.last());
        } else {
            assert(product(dims) == product(dims.drop_last()) * 1);
        }
    }
}

/// Appending a dimension multiplies the element count by its size.
pub proof fn lemma_product_push(dims: Seq<usize>, dim: usize)
    ensures
        product(dims.push(dim)) == product(dims) * dim,
    decreases dims.len(),
{
    let all = dims.push(dim);
    if dims.len() == 0 {
        assert(all.skip(1) =~= Seq::<usize>::empty());
        assert(product(all.skip(1)) == 1);
        assert(product(dims) == 1);
        assert(product(all) == all[0] as nat * product(all.skip(1)));
    } else {
        lemma_product_push(dims.skip(1), dim);
        assert(all.skip(1) =~= dims.skip(1).push(dim));
        let first = dims[0] as nat;
        let rest = product(dims.skip(1));
        let last = dim as nat;
        assert(product(all) == all[0] as nat * product(all.skip(1)));
        assert(product(all) == first * (rest * last));
        assert(product(dims) == first * rest);
        assert(first * (rest * last) == (first * rest) * last) by (nonlinear_arith);
    }
}

/// Exchanging the two innermost dimensions does not change the element
/// count.
pub proof fn lemma_swap_innermost(dims: Seq<usize>)
    requires
        dims.len() >= 2,
    ensures
        swap_innermost(dims).len() == dims.len(),
        product(swap_innermost(dims)) == product(dims),
{
    let n = dims.len() as int;
    let head = dims.take(n - 2);
    let a = dims[n - 2];
    let b = dims[n - 1];
    assert(dims =~= head.push(a).push(b));
    assert(swap_innermost(dims) =~= head.push(b).push(a));
    lemma_product_push(head, a);
    lemma_product_push(head.push(a), b);
    lemma_product_push(head, b);
    lemma_product_push(head.push(b), a);
    assert(product(head) * a * b == product(head) * b * a) by (nonlinear_arith);
}

/// Transposing twice gives back the layout one started from, sizes and
/// strides alike.
pub proof fn lemma_transpose_involution(layout: LayoutModel)
    requires
        layout.dims.len() == layout.strides.len(),
        layout.rank() >= 2,
    ensures
        layout.transposed().transposed() == layout,
{
    assert(swap_innermost(swap_innermost(layout.dims)) =~= layout.dims);
    assert(swap_innermost(swap_innermost(layout.strides)) =~= layout.strides);
}

/// Reducing over `axes` sets exactly the listed dimensions to 1 and leaves
/// every other size, and every stride, as it was.
pub proof fn lemma_reduce_dims(layout: LayoutModel, axes: Seq<usize>)
    ensures
        layout.reduced(axes).dims.len() == layout.dims.len(),
        layout.reduced(axes).strides == layout.strides,
        forall|i: int|
            0 <= i < layout.dims.len() ==> #[trigger] layout.reduced(axes).dims[i] == (if exists|
                k: int,
            |
                0 <= k < axes.len() && axes[k] == i {
                1usize
            } else {
                layout.dims[i]
            }),
{
}

/// Whether two vectors hold the same entries in the same order.
fn same_entries(left: &Vec<usize>, right: &Vec<usize>) -> (same: bool)
    ensures
        same == (left@ == right@),
{
    if left.len() != right.len() {
        return false;
    }
    let mut i: usize = 0;
    while i < left.len()
        invariant
            i <= left@.len(),
            left@.len() == right@.len(),
            forall|k: int| 0 <= k < i ==> left@[k] == right@[k],
        decreases left@.len() - i,
    {
        if left[i] != right[i] {
            return false;
        }
        i = i + 1;
    }
    assert(left@ =~= right@);
    true
}

/// The product of `dims`, if it fits in `usize`.
fn checked_product(dims: &Vec<usize>) -> (count: Option<usize>)
    ensures
        match count {
            Some(count) => count == product(dims@),
            None => product(dims@) > usize::MAX,
        },
{
    let mut k: usize = 0;
    while k < dims.len()
        invariant
            k <= dims@.len(),
            forall|i: int| 0 <= i < k ==> dims@[i] >= 1,
        decreases dims@.len() - k,
    {
        if dims[k] == 0 {
            proof {
                lemma_product_zero(dims@, k as int);
            }
            return Some(0);
        }
        k = k + 1;
    }
    let mut count: usize = 1;
    let mut i: usize = dims.len();
    proof {
        assert(dims@.skip(i as int) =~= Seq::<usize>::empty());
    }
    while i > 0
        invariant
            i <= dims@.len(),
            forall|j: int| 0 <= j < dims@.len() ==> dims@[j] >= 1,
            count == product(dims@.skip(i as int)),
        decreases i,
    {
        i = i - 1;
        proof {
            assert(dims@.skip(i as int).skip(1) =~= dims@.skip(i + 1));
            assert(dims@.skip(i as int)[0] == dims@[i as int]);
        }
        match dims[i].checked_mul(count) {
            Some(next) => {
                count = next;
            },
            None => {
                proof {
                    lemma_product_suffix(dims@, i as int);
                }
                return None;
            },
        }
    }
    proof {
        assert(dims@.skip(0) =~= dims@);
    }
    Some(count)
}

/// Whether a tensor with these dimension sizes can be held on this machine.
fn is_sized(dims: &Vec<usize>) -> (ok: bool)
    ensures
        ok == sized(dims@),
{
    match checked_product(dims) {
        Some(count) => count.checked_mul(ELEMENT_SIZE).is_some(),
        None => false,
    }
}

/// `dims` with the entry at every index listed in `axes` replaced by 1.
fn unit_dims(dims: &Vec<usize>, axes: &Vec<DimId>) -> (reduced: Vec<usize>)
    requires
        forall|k: int| 0 <= k < axes@.len() ==> axes@[k] < dims@.len(),
    ensures
        reduced@ == with_unit_dims(dims@, axes@),
{
    let mut reduced = dims.clone();
    assert(reduced@ =~= dims@);
    let mut k: usize = 0;
    while k < axes.len()
        invariant
            k <= axes@.len(),
            forall|j: int| 0 <= j < axes@.len() ==> axes@[j] < dims@.len(),
            reduced@ == with_unit_dims(dims@, axes@.take(k as int)),
        decreases axes@.len() - k,
    {
        let axis: usize = axes[k];
        reduced.set(axis, 1);
        proof {
            let before = axes@.take(k as int);
            let after = axes@.take(k + 1);
            assert(after[k as int] == axis);
            assert forall|i: int| 0 <= i < reduced@.len() implies reduced@[i] == with_unit_dims(
                dims@,
                after,
            )[i] by {
                if exists|j: int| 0 <= j < before.len() && before[j] == i {
                    let j = choose|j: int| 0 <= j < before.len() && before[j] == i;
                    assert(after[j] == i);
                } else if i == axis {
                } else {
                    if exists|j: int| 0 <= j < after.len() && after[j] == i {
                        let j = choose|j: int| 0 <= j < after.len() && after[j] == i;
                        assert(before[j] == i);
                    }
                }
            }
            assert(reduced@ =~= with_unit_dims(dims@, after));
        }
        k = k + 1;
    }
    proof {
        assert(axes@.take(axes@.len() as int) =~= axes@);
    }
    reduced
}

/// Dimension sizes of a tensor together with the strides that address it.
#[derive(Debug, Eq)]
pub struct Shape {
    dims: Vec<usize>,
    strides: Vec<usize>,
}

impl View for Shape {
    type V = LayoutModel;

    closed spec fn view(&self) -> LayoutModel {
        LayoutModel { dims: self.dims@, strides: self.strides@ }
    }
}

impl PartialEq for Shape {
    /// Shapes are equal when their dimension sizes and their strides are.
    fn eq(&self, other: &Shape) -> (equal: bool) {
        same_entries(&self.dims, &other.dims) && same_entries(&self.strides, &other.strides)
    }
}

impl PartialEqSpecImpl for Shape {
    open spec fn obeys_eq_spec() -> bool {
        true
    }

    open spec fn eq_spec(&self, other: &Shape) -> bool {
        self@ == other@
    }
}

impl Clone for Shape {
    fn clone(&self) -> (copy: Self)
        ensures
            copy@ == self@,
    {
        let dims = self.dims.clone();
        let strides = self.strides.clone();
        assert(dims@ =~= self.dims@);
        assert(strides@ =~= self.strides@);
        Shape { dims, strides }
    }
}

impl Shape {
    /// Whether `dims` can be given to [`Shape::contiguous`]: whether the
    /// size in bytes and every row-major stride fit in `usize`.
    pub fn is_addressable(dims: &Vec<usize>) -> (ok: bool)
        ensures
            ok == addressable(dims@),
    {
        let mut running: usize = 1;
        let mut i: usize = dims.len();
        proof {
            assert(dims@.skip(i as int) =~= Seq::<usize>::empty());
        }
        while i > 0
            invariant
                i <= dims@.len(),
                running == product(dims@.skip(i as int)),
                forall|j: int| i <= j <= dims@.len() ==> #[trigger] product(dims@.skip(j))
                    <= usize::MAX,
            decreases i,
        {
            i = i - 1;
            proof {
                assert(dims@.skip(i as int).skip(1) =~= dims@.skip(i + 1));
                assert(dims@.skip(i as int)[0] == dims@[i as int]);
            }
            match dims[i].checked_mul(running) {
                Some(next) => {
                    running = next;
                },
                None => {
                    proof {
                        assert(product(dims@.skip(i as int)) > usize::MAX);
                    }
                    return false;
                },
            }
        }
        proof {
            assert(dims@.skip(0) =~= dims@);
        }
        running.checked_mul(ELEMENT_SIZE).is_some()
    }

    /// The row-major shape with the given dimension sizes. Its size in bytes
    /// and its strides must fit in `usize`; [`Shape::is_addressable`] tests
    /// that.
    pub fn contiguous(dims: Vec<usize>) -> (shape: Shape)
        requires
            addressable(dims@),
        ensures
            shape@ == LayoutModel::contiguous(dims@),
            shape@.wf(),
    {
        let n: usize = dims.len();
        let mut strides: Vec<usize> = Vec::new();
        let mut k: usize = 0;
        while k < n
            invariant
                k <= n,
                strides@.len() == k,
            decreases n - k,
        {
            strides.push(1);
            k = k + 1;
        }
        let mut running: usize = 1;
        let mut i: usize = n;
        proof {
            assert(dims@.skip(n as int) =~= Seq::<usize>::empty());
        }
        while i > 0
            invariant
                i <= n,
                n == dims@.len(),
                strides@.len() == n,
                addressable(dims@),
                running == product(dims@.skip(i as int)),
                forall|j: int| i <= j < n ==> strides@[j] == row_major(dims@)[j],
            decreases i,
        {
            i = i - 1;
            strides.set(i, running);
            proof {
                assert(dims@.skip(i as int).skip(1) =~= dims@.skip(i + 1));
                assert(dims@.skip(i as int)[0] == dims@[i as int]);
                assert(product(dims@.skip(i as int)) <= usize::MAX);
            }
            running = dims[i] * running;
        }
        assert(strides@ =~= row_major(dims@));
        Shape { dims, strides }
    }

    /// The shape with the given dimension sizes and strides, if there is one
    /// stride per dimension and the size in bytes fits in `usize`.
    pub fn from_parts(dims: Vec<usize>, strides: Vec<usize>) -> (shape: Option<Shape>)
        ensures
            match shape {
                Some(shape) => shape@ == (LayoutModel { dims: dims@, strides: strides@ })
                    && shape@.wf(),
                None => !(LayoutModel { dims: dims@, strides: strides@ }).wf(),
            },
    {
        if dims.len() == strides.len() && is_sized(&dims) {
            Some(Shape { dims, strides })
        } else {
            None
        }
    }

    /// Number of elements: the product of the dimension sizes.
    pub fn elements(&self) -> (count: usize)
        requires
            self@.wf(),
        ensures
            count == self@.elements(),
            count * ELEMENT_SIZE <= usize::MAX,
    {
        match checked_product(&self.dims) {
            Some(count) => count,
            None => {
                proof {
                    assert(false);
                }
                0
            },
        }
    }

    /// The dimension sizes, outermost first.
    pub fn dims(&self) -> (dims: &[usize])
        ensures
            dims@ == self@.dims,
    {
        self.dims.as_slice()
    }

    /// The dimension sizes with `x` between them, as in `2x3`.
    pub fn to_text(&self) -> (text: String)
        ensures
            text@ == joined_text(self@.dims, "x"@),
    {
        joined(self.dims.as_slice(), "x")
    }

    /// Number of dimensions.
    pub fn rank(&self) -> (rank: usize)
        ensures
            rank == self@.rank(),
    {
        self.dims.len()
    }

    /// The strides, one per dimension.
    pub fn strides(&self) -> (strides: &[usize])
        ensures
            strides@ == self@.strides,
    {
        self.strides.as_slice()
    }
}

/// Memory layout of a tensor of 32-bit floats.
#[derive(Debug, Eq)]
pub struct Layout {
    shape: Shape,
}

impl View for Layout {
    type V = LayoutModel;

    closed spec fn view(&self) -> LayoutModel {
        self.shape@
    }
}

impl PartialEq for Layout {
    /// Layouts are equal when their dimension sizes and their strides are.
    fn eq(&self, other: &Layout) -> (equal: bool) {
        self.shape == other.shape
    }
}

impl PartialEqSpecImpl for Layout {
    open spec fn obeys_eq_spec() -> bool {
        true
    }

    open spec fn eq_spec(&self, other: &Layout) -> bool {
        self@ == other@
    }
}

impl Clone for Layout {
    fn clone(&self) -> (copy: Self)
        ensures
            copy@ == self@,
    {
        Layout { shape: self.shape.clone() }
    }
}

impl From<Shape> for Layout {
    fn from(shape: Shape) -> (layout: Layout) {
        Layout { shape }
    }
}

impl FromSpecImpl<Shape> for Layout {
    open spec fn obeys_from_spec() -> bool {
        true
    }

    open spec fn from_spec(shape: Shape) -> Layout {
        Layout::of(shape)
    }
}

impl Layout {
    /// The layout that has `shape` as its shape.
    pub closed spec fn of(shape: Shape) -> Layout {
        Layout { shape }
    }

    /// `Layout::of(shape)` keeps the shape's model.
    pub broadcast proof fn lemma_of(shape: Shape)
        ensures
            #[trigger] Layout::of(shape)@ == shape@,
    {
    }

    /// The row-major layout with the given dimension sizes; its size in
    /// bytes and its strides must fit in `usize`, as for [`Shape::contiguous`].
    pub fn contiguous(dims: Vec<usize>) -> (layout: Layout)
        requires
            addressable(dims@),
        ensures
            layout@ == LayoutModel::contiguous(dims@),
            layout@.wf(),
    {
        Layout { shape: Shape::contiguous(dims) }
    }

    /// The layout of a single element.
    pub fn scalar() -> (layout: Layout)
        ensures
            layout@ == LayoutModel::scalar(),
            layout@.wf(),
    {
        let layout = Layout { shape: Shape { dims: Vec::new(), strides: Vec::new() } };
        assert(product(layout@.dims) == 1);
        layout
    }

    pub fn shape(&self) -> (shape: &Shape)
        ensures
            shape@ == self@,
    {
        &self.shape
    }

    /// The dimension sizes, outermost first.
    pub fn dims(&self) -> (dims: &[usize])
        ensures
            dims@ == self@.dims,
    {
        self.shape.dims()
    }

    /// Number of dimensions.
    pub fn rank(&self) -> (rank: usize)
        ensures
            rank == self@.rank(),
    {
        self.shape.rank()
    }

    /// The strides, one per dimension.
    pub fn strides(&self) -> (strides: &[usize])
        ensures
            strides@ == self@.strides,
    {
        self.shape.strides()
    }

    /// Number of elements.
    pub fn elements(&self) -> (count: usize)
        requires
            self@.wf(),
        ensures
            count == self@.elements(),
            count * ELEMENT_SIZE <= usize::MAX,
    {
        self.shape.elements()
    }

    /// The shape's text and the element type, as in `2x3f32`.
    pub fn to_text(&self) -> (text: String)
        ensures
            text@ == joined_text(self@.dims, "x"@) + "f32"@,
    {
        let mut text = self.shape.to_text();
        text.append("f32");
        text
    }

    /// Number of bytes of storage.
    pub fn size(&self) -> (bytes: usize)
        requires
            self@.wf(),
        ensures
            bytes == self@.size(),
    {
        self.elements() * ELEMENT_SIZE
    }

    /// A layout over the same storage with `shape` in place of the current
    /// shape. Nothing is checked: the caller answers for the element count.
    pub fn reshape(&self, shape: Shape) -> (layout: Layout)
        ensures
            layout@ == shape@,
    {
        Layout { shape }
    }

    /// The view with the two innermost dimensions exchanged.
    pub fn transpose(&self) -> (layout: Layout)
        requires
            self@.rank() >= 2,
            self@.wf(),
        ensures
            layout@ == self@.transposed(),
            layout@.wf(),
    {
        let rank: usize = self.shape.dims.len();
        let mut dims = self.shape.dims.clone();
        let mut strides = self.shape.strides.clone();
        assert(dims@ =~= self.shape.dims@);
        assert(strides@ =~= self.shape.strides@);
        let outer_dim: usize = dims[rank - 2];
        let inner_dim: usize = dims[rank - 1];
        dims.set(rank - 2, inner_dim);
        dims.set(rank - 1, outer_dim);
        let outer_stride: usize = strides[rank - 2];
        let inner_stride: usize = strides[rank - 1];
        strides.set(rank - 2, inner_stride);
        strides.set(rank - 1, outer_stride);
        proof {
            lemma_swap_innermost(self.shape.dims@);
        }
        Layout { shape: Shape { dims, strides } }
    }

    /// The view without the dimensions of size 1.
    pub fn squeeze(&self) -> (layout: Layout)
        requires
            self@.wf(),
        ensures
            layout@ == self@.squeezed(),
            layout@.wf(),
    {
        let n: usize = self.shape.dims.len();
        let mut dims: Vec<usize> = Vec::new();
        let mut strides: Vec<usize> = Vec::new();
        let mut i: usize = 0;
        while i < n
            invariant
                i <= n,
                n == self.shape.dims@.len(),
                n == self.shape.strides@.len(),
                (dims@, strides@) == without_unit_dims(
                    self.shape.dims@.take(i as int),
                    self.shape.strides@.take(i as int),
                ),
            decreases n - i,
        {
            proof {
                let d = self.shape.dims@.take(i + 1);
                let s = self.shape.strides@.take(i + 1);
                assert(d.drop_last() =~= self.shape.dims@.take(i as int));
                assert(s.drop_last() =~= self.shape.strides@.take(i as int));
            }
            if self.shape.dims[i] != 1 {
                dims.push(self.shape.dims[i]);
                strides.push(self.shape.strides[i]);
            }
            i = i + 1;
        }
        proof {
            assert(self.shape.dims@.take(n as int) =~= self.shape.dims@);
            assert(self.shape.strides@.take(n as int) =~= self.shape.strides@);
            lemma_without_unit_dims(self.shape.dims@, self.shape.strides@);
        }
        Layout { shape: Shape { dims, strides } }
    }

    /// Whether the layout can be reduced over `axes`: every listed dimension
    /// exists, and the size in bytes of the result fits in `usize`. The result
    /// can be larger than the layout itself, where an empty dimension is
    /// reduced.
    pub fn can_reduce(&self, axes: &Vec<DimId>) -> (ok: bool)
        ensures
            ok == ((forall|k: int| 0 <= k < axes@.len() ==> axes@[k] < self@.rank())
                && self@.reduced(axes@).wf()),
    {
        let rank: usize = self.shape.dims.len();
        let mut k: usize = 0;
        while k < axes.len()
            invariant
                k <= axes@.len(),
                rank == self.shape.dims@.len(),
                forall|i: int| 0 <= i < k ==> axes@[i] < rank,
            decreases axes@.len() - k,
        {
            if axes[k] >= rank {
                return false;
            }
            k = k + 1;
        }
        let reduced = unit_dims(&self.shape.dims, axes);
        self.shape.dims.len() == self.shape.strides.len() && is_sized(&reduced)
    }

    /// The layout of a reduction over `axes`: each listed dimension has size
    /// 1, everything else is kept. [`Layout::can_reduce`] tests what is
    /// required.
    pub fn reduce(&self, axes: &Vec<DimId>) -> (layout: Layout)
        requires
            forall|k: int| 0 <= k < axes@.len() ==> axes@[k] < self@.rank(),
            self@.reduced(axes@).wf(),
        ensures
            layout@ == self@.reduced(axes@),
            layout@.wf(),
    {
        let dims = unit_dims(&self.shape.dims, axes);
        let strides = self.shape.strides.clone();
        assert(strides@ =~= self.shape.strides@);
        Layout { shape: Shape { dims, strides } }
    }
}

/// Mathematical model of a tensor: the bit patterns of its elements in buffer
/// order, and its layout.
pub struct TensorModel {
    pub data: Seq<u32>,
    pub layout: LayoutModel,
}

impl TensorModel {
    /// The layout is well formed and the buffer holds one entry per element.
    pub open spec fn wf(self) -> bool {
        &&& self.layout.wf()
        &&& self.data.len() == self.layout.elements()
    }
}

/// A flat buffer of 32-bit float elements, held as their IEEE 754 bit
/// patterns, together with its layout.
#[derive(Debug, PartialEq, Eq)]
pub struct Tensor {
    data: Vec<u32>,
    layout: Layout,
}

impl View for Tensor {
    type V = TensorModel;

    closed spec fn view(&self) -> TensorModel {
        TensorModel { data: self.data@, layout: self.layout@ }
    }
}

impl Clone for Tensor {
    fn clone(&self) -> (copy: Self)
        ensures
            copy@ == self@,
    {
        let data = self.data.clone();
        assert(data@ =~= self.data@);
        Tensor { data, layout: self.layout.clone() }
    }
}

impl Tensor {
    /// The tensor that holds the single element `bits`.
    pub fn from_scalar(bits: u32) -> (tensor: Tensor)
        ensures
            tensor@ == (TensorModel { data: seq![bits], layout: LayoutModel::scalar() }),
            tensor@.wf(),
    {
        let mut data: Vec<u32> = Vec::new();
        data.push(bits);
        let layout = Layout::scalar();
        assert(data@ =~= seq![bits]);
        assert(product(layout@.dims) == 1);
        Tensor { data, layout }
    }

    /// The tensor with the given buffer and layout. The buffer holds one
    /// entry per element of the layout.
    pub fn from_parts(data: Vec<u32>, layout: Layout) -> (tensor: Tensor)
        requires
            layout@.wf(),
            data@.len() == layout@.elements(),
        ensures
            tensor@ == (TensorModel { data: data@, layout: layout@ }),
            tensor@.wf(),
    {
        Tensor { data, layout }
    }

    /// The same buffer under another shape with as many elements.
    pub fn reshape(self, shape: Shape) -> (tensor: Tensor)
        requires
            shape@.wf(),
            shape@.elements() == self@.data.len(),
        ensures
            tensor@ == (TensorModel { data: self@.data, layout: shape@ }),
            tensor@.wf(),
    {
        Tensor { data: self.data, layout: Layout { shape } }
    }

    /// The elements' bit patterns in buffer order.
    pub fn data(&self) -> (data: &[u32])
        ensures
            data@ == self@.data,
    {
        self.data.as_slice()
    }

    pub fn layout(&self) -> (layout: &Layout)
        ensures
            layout@ == self@.layout,
    {
        &self.layout
    }
}

} // verus!
