//! The mathematical model of a tensor.
//!
//! A tensor is a shape, an element type and its elements in row-major order.
//! An element is a [`Cell`]: a symbolic number that records where it comes
//! from. Operations that only move elements (reshape, permute, narrow, ...) are
//! described exactly, element by element. Arithmetic is recorded as the
//! operation applied to its operands, so a contract fixes which computation is
//! carried out on which elements without describing how a device rounds it.
use vstd::prelude::*;

verus! {

/// Element types of a tensor.
#[derive(Clone, Copy, PartialEq, Eq, Structural, Debug)]
pub enum Dtype {
    U8,
    U32,
    I16,
    I32,
    I64,
    BF16,
    F16,
    F32,
    F64,
    F8E4M3,
    F6E2M3,
    F6E3M2,
    F4,
    F8E8M0,
}

impl Dtype {
    /// The floating-point element types on which arithmetic is defined.
    pub open spec fn float(self) -> bool {
        self == Dtype::BF16 || self == Dtype::F16 || self == Dtype::F32 || self == Dtype::F64
    }

    /// The element types between which conversion is defined.
    pub open spec fn plain(self) -> bool {
        self.float() || self == Dtype::U8 || self == Dtype::U32 || self == Dtype::I64
    }

    /// Whether arithmetic on floating-point elements is defined for this type.
    pub fn is_float(&self) -> (r: bool)
        ensures
            r == self.float(),
    {
        matches!(self, Dtype::BF16 | Dtype::F16 | Dtype::F32 | Dtype::F64)
    }
}

/// Functions of one element.
#[derive(Clone, Copy, PartialEq, Eq, Structural, Debug)]
pub enum UnOp {
    Neg,
    Exp,
    Log,
    Sin,
    Cos,
    Tanh,
    Sqr,
    Sqrt,
    Recip,
    Gelu,
    Sigmoid,
    Relu,
}

/// Functions of two elements.
#[derive(Clone, Copy, PartialEq, Eq, Structural, Debug)]
pub enum BinOp {
    Plus,
    Minus,
    Times,
    Over,
    Maximum,
    Minimum,
}

/// Comparisons of two elements; the result is 1 or 0.
#[derive(Clone, Copy, PartialEq, Eq, Structural, Debug)]
pub enum RelOp {
    Lt,
    Gt,
    Ge,
}

/// Operations whose every output element depends on many input elements.
#[allow(inconsistent_fields)]
pub enum Kernel {
    MatMul,
    Linear,
    Conv1d { padding: nat, stride: nat, dilation: nat, groups: nat },
    Conv2d { padding: nat, stride: nat, dilation: nat, groups: nat },
    ConvTranspose1d { padding: nat, stride: nat },
    GroupNorm { groups: nat },
    Embedding,
    Softmax { dim: nat },
    SoftmaxLastDim,
    Mean { dim: nat },
    Sum { axes: Seq<int> },
    Max { dim: int },
    Min { dim: int },
}

/// A symbolic number.
pub enum Cell {
    /// The integer itself.
    Int(int),
    /// The number with this IEEE-754 binary64 bit pattern.
    Real(u64),
    /// The operand converted to another element type.
    Cast(Dtype, Box<Cell>),
    Unary(UnOp, Box<Cell>),
    Binary(BinOp, Box<Cell>, Box<Cell>),
    Relation(RelOp, Box<Cell>, Box<Cell>),
    /// `x * mul + add`, in the element type of `x`.
    Affine { x: Box<Cell>, mul: Box<Cell>, add: Box<Cell> },
    /// `x` to the power `e`.
    Powf { x: Box<Cell>, e: Box<Cell> },
    /// `on_true` where `flag` is not zero, else `on_false`.
    Select { flag: Box<Cell>, on_true: Box<Cell>, on_false: Box<Cell> },
    /// Element `index` of what a kernel computes from `args`.
    Out { kernel: Kernel, args: Seq<TensorView>, index: int },
}

/// A tensor: its shape, its element type and its elements in row-major order.
#[verifier::ext_equal]
pub struct TensorView {
    pub dims: Seq<nat>,
    pub dtype: Dtype,
    pub cells: Seq<Cell>,
}

/// Number of elements of a shape.
pub open spec fn numel(dims: Seq<nat>) -> nat
    decreases dims.len(),
{
    if dims.len() == 0 {
        1
    } else {
        numel(dims.drop_last()) * dims.last()
    }
}

/// Product of the non-zero sizes of a shape.
pub open spec fn extent(dims: Seq<nat>) -> nat
    decreases dims.len(),
{
    if dims.len() == 0 {
        1
    } else {
        extent(dims.drop_last()) * (if dims.last() == 0 { 1 } else { dims.last() })
    }
}

/// Whether a tensor of this shape can be addressed: its elements, eight bytes
/// each, fit into one allocation, and no partial product of its sizes overflows.
pub open spec fn fits(dims: Seq<nat>) -> bool {
    extent(dims) * 8 <= isize::MAX
}

/// A shape given as machine integers.
pub open spec fn nats(s: Seq<usize>) -> Seq<nat> {
    Seq::new(s.len(), |i: int| s[i] as nat)
}

/// Whether `idx` addresses an element of a tensor with shape `dims`.
pub open spec fn in_bounds(dims: Seq<nat>, idx: Seq<int>) -> bool {
    &&& idx.len() == dims.len()
    &&& forall|k: int| 0 <= k < dims.len() ==> 0 <= #[trigger] idx[k] < dims[k]
}

/// Row-major position of the element with multi-index `idx`.
pub open spec fn ravel(dims: Seq<nat>, idx: Seq<int>) -> int
    decreases dims.len(),
{
    if dims.len() == 0 {
        0
    } else {
        ravel(dims.drop_last(), idx.drop_last()) * dims.last() + idx.last()
    }
}

/// Multi-index of the element at row-major position `i`.
pub open spec fn unravel(dims: Seq<nat>, i: int) -> Seq<int>
    decreases dims.len(),
{
    if dims.len() == 0 {
        Seq::empty()
    } else {
        unravel(dims.drop_last(), i / (dims.last() as int)).push(i % (dims.last() as int))
    }
}

impl TensorView {
    /// The number of elements is the one that the shape says.
    pub open spec fn wf(self) -> bool {
        self.cells.len() == numel(self.dims)
    }

    pub open spec fn rank(self) -> nat {
        self.dims.len()
    }

    /// The element with multi-index `idx`.
    pub open spec fn at(self, idx: Seq<int>) -> Cell {
        self.cells[ravel(self.dims, idx)]
    }
}

/// The tensor of shape `dims` whose element at `idx` is the element of `v` at
/// `source(idx)`.
pub open spec fn gather(
    v: TensorView,
    dims: Seq<nat>,
    source: spec_fn(Seq<int>) -> Seq<int>,
) -> TensorView {
    TensorView {
        dims,
        dtype: v.dtype,
        cells: Seq::new(numel(dims), |i: int| v.at(source(unravel(dims, i)))),
    }
}

/// The same elements under another shape.
pub open spec fn reshape(v: TensorView, dims: Seq<nat>) -> TensorView {
    TensorView { dims, ..v }
}

/// All elements along one axis.
pub open spec fn flatten(v: TensorView) -> TensorView {
    reshape(v, seq![numel(v.dims)])
}

/// Whether `p` lists each axis of a tensor of rank `n` once.
pub open spec fn is_permutation(p: Seq<int>, n: nat) -> bool {
    &&& p.len() == n
    &&& forall|j: int| 0 <= j < n ==> 0 <= #[trigger] p[j] < n
    &&& forall|i: int, j: int| 0 <= i < j < n ==> #[trigger] p[i] != #[trigger] p[j]
}

/// Axis `j` of the result is axis `p[j]` of `v`.
#[verifier::opaque]
pub open spec fn permute(v: TensorView, p: Seq<int>) -> TensorView {
    gather(
        v,
        Seq::new(p.len(), |j: int| v.dims[p[j]]),
        |o: Seq<int>| Seq::new(p.len(), |k: int| o[p.index_of(k)]),
    )
}

/// The axes of a tensor of rank `n` with `a` and `b` exchanged.
pub open spec fn swapped(n: nat, a: int, b: int) -> Seq<int> {
    Seq::new(
        n,
        |j: int|
            if j == a {
                b
            } else if j == b {
                a
            } else {
                j
            },
    )
}

/// Axes `a` and `b` exchanged.
pub open spec fn transpose(v: TensorView, a: int, b: int) -> TensorView {
    permute(v, swapped(v.rank(), a, b))
}

/// The last two axes exchanged.
pub open spec fn matrix_transpose(v: TensorView) -> TensorView {
    transpose(v, v.rank() - 2, v.rank() - 1)
}

/// Positions `start .. start + len` of axis `dim`.
#[verifier::opaque]
pub open spec fn narrow(v: TensorView, dim: int, start: nat, len: nat) -> TensorView {
    gather(v, v.dims.update(dim, len), |o: Seq<int>| o.update(dim, o[dim] + start))
}

/// Axis `dim` dropped where its size is one.
pub open spec fn squeeze(v: TensorView, dim: int) -> TensorView {
    if v.dims[dim] == 1 {
        reshape(v, v.dims.remove(dim))
    } else {
        v
    }
}

/// A new axis of size one in front of axis `dim`.
pub open spec fn unsqueeze(v: TensorView, dim: int) -> TensorView {
    reshape(v, v.dims.insert(dim, 1))
}

/// `a` followed by `b` along axis `dim`.
#[verifier::opaque]
pub open spec fn cat2(a: TensorView, b: TensorView, dim: int) -> TensorView {
    let dims = a.dims.update(dim, a.dims[dim] + b.dims[dim]);
    TensorView {
        dims,
        dtype: a.dtype,
        cells: Seq::new(
            numel(dims),
            |i: int|
                {
                    let o = unravel(dims, i);
                    if o[dim] < a.dims[dim] {
                        a.at(o)
                    } else {
                        b.at(o.update(dim, o[dim] - a.dims[dim]))
                    }
                },
        ),
    }
}

/// The parts one after the other along axis `dim`.
pub open spec fn cat(parts: Seq<TensorView>, dim: int) -> TensorView
    decreases parts.len(),
{
    if parts.len() <= 1 {
        parts[0]
    } else {
        cat2(cat(parts.drop_last(), dim), parts.last(), dim)
    }
}

/// Whether the parts agree on every axis but `dim`.
pub open spec fn joinable(parts: Seq<TensorView>, dim: int) -> bool {
    &&& parts.len() > 0
    &&& parts.len() > 1 ==> dim < parts[0].rank()
    &&& forall|i: int|
        0 <= i < parts.len() ==> (#[trigger] parts[i]).rank() == parts[0].rank()
    &&& forall|i: int, k: int|
        0 <= i < parts.len() && 0 <= k < parts[0].rank() && k != dim ==> (
        #[trigger] parts[i].dims[k]) == parts[0].dims[k]
}

/// Sum of the sizes of the parts along axis `dim`.
pub open spec fn joined_size(parts: Seq<TensorView>, dim: int) -> nat
    decreases parts.len(),
{
    if parts.len() == 0 {
        0
    } else {
        joined_size(parts.drop_last(), dim) + parts.last().dims[dim]
    }
}

/// The shape of joined parts.
pub proof fn lemma_cat_dims(parts: Seq<TensorView>, dim: int)
    requires
        joinable(parts, dim),
        0 <= dim < parts[0].rank(),
    ensures
        cat(parts, dim).dims == parts[0].dims.update(dim, joined_size(parts, dim)),
    decreases parts.len(),
{
    reveal(cat2);
    if parts.len() == 1 {
        assert(parts.drop_last() =~= Seq::empty());
        assert(joined_size(parts.drop_last(), dim) == 0);
        assert(parts[0].dims.update(dim, parts[0].dims[dim]) =~= parts[0].dims);
    } else {
        let front = parts.drop_last();
        assert(front[0] == parts[0]);
        assert(joinable(front, dim)) by {
            assert forall|i: int| 0 <= i < front.len() implies (#[trigger] front[i]).rank() == front[0].rank() by {
                assert(front[i] == parts[i]);
            }
            assert forall|i: int, k: int| 0 <= i < front.len() && 0 <= k < front[0].rank() && k != dim implies (
            #[trigger] front[i].dims[k]) == front[0].dims[k] by {
                assert(front[i].dims[k] == parts[i].dims[k]);
            }
        }
        lemma_cat_dims(front, dim);
        assert(cat(parts, dim).dims =~= parts[0].dims.update(dim, joined_size(parts, dim)));
    }
}

/// The first parts are no longer than all parts.
pub proof fn lemma_joined_prefix(parts: Seq<TensorView>, dim: int, i: int)
    requires
        0 <= i <= parts.len(),
    ensures
        joined_size(parts.take(i), dim) <= joined_size(parts, dim),
    decreases parts.len(),
{
    if i == parts.len() {
        assert(parts.take(i) =~= parts);
    } else {
        lemma_joined_prefix(parts.drop_last(), dim, i);
        assert(parts.drop_last().take(i) =~= parts.take(i));
    }
}

/// The parts along a new axis `dim`.
pub open spec fn stack(parts: Seq<TensorView>, dim: int) -> TensorView {
    cat(parts.map_values(|p: TensorView| unsqueeze(p, dim)), dim)
}

/// `n` copies of `v`, one after the other along axis `dim`; `v` itself for `n` below two.
pub open spec fn repeat_axis(v: TensorView, dim: int, n: nat) -> TensorView {
    if n <= 1 {
        v
    } else {
        cat(Seq::new(n, |i: int| v), dim)
    }
}

/// Position `j` of axis `dim` of the result is position `ids[j]` of axis `dim` of `v`.
#[verifier::opaque]
pub open spec fn index_select(v: TensorView, ids: Seq<int>, dim: int) -> TensorView {
    gather(v, v.dims.update(dim, ids.len()), |o: Seq<int>| o.update(dim, ids[o[dim]]))
}

/// Whether `v` can be repeated to shape `dims`: aligned at the last axis, each
/// size of `v` is the target's or one.
pub open spec fn broadcastable(v: Seq<nat>, dims: Seq<nat>) -> bool {
    &&& v.len() <= dims.len()
    &&& forall|k: int|
        0 <= k < v.len() ==> #[trigger] v[k] == 1 || v[k] == dims[k + dims.len() - v.len()]
}

/// `v` repeated along its axes of size one, and along new leading axes, to shape `dims`.
#[verifier::opaque]
pub open spec fn broadcast_to(v: TensorView, dims: Seq<nat>) -> TensorView {
    let shift = dims.len() - v.dims.len();
    gather(
        v,
        dims,
        |o: Seq<int>|
            Seq::new(
                v.dims.len(),
                |k: int|
                    if v.dims[k] == dims[k + shift] {
                        o[k + shift]
                    } else {
                        0
                    },
            ),
    )
}

/// Size of axis `k`, counted from the last, with missing axes of size one.
pub open spec fn size_from_last(dims: Seq<nat>, k: int) -> nat {
    if k < dims.len() {
        dims[dims.len() - 1 - k]
    } else {
        1
    }
}

/// The common shape of two tensors that are combined element by element.
pub open spec fn common_dims(a: Seq<nat>, b: Seq<nat>) -> Seq<nat> {
    let n = if a.len() < b.len() { b.len() } else { a.len() };
    Seq::new(
        n,
        |k: int|
            {
                let l = size_from_last(a, n - 1 - k);
                let r = size_from_last(b, n - 1 - k);
                if l == 1 {
                    r
                } else {
                    l
                }
            },
    )
}

/// Whether two shapes have a common shape.
pub open spec fn have_common_dims(a: Seq<nat>, b: Seq<nat>) -> bool {
    forall|k: int|
        0 <= k < a.len() && k < b.len() ==> (#[trigger] size_from_last(a, k)) == size_from_last(
            b,
            k,
        ) || size_from_last(a, k) == 1 || size_from_last(b, k) == 1
}

/// Every element of `v` converted to `dtype`.
pub open spec fn cast(v: TensorView, dtype: Dtype) -> TensorView {
    if v.dtype == dtype {
        v
    } else {
        TensorView {
            dims: v.dims,
            dtype,
            cells: v.cells.map_values(|c: Cell| Cell::Cast(dtype, Box::new(c))),
        }
    }
}

/// `op` applied to every element.
pub open spec fn unary(op: UnOp, v: TensorView) -> TensorView {
    TensorView {
        dims: v.dims,
        dtype: v.dtype,
        cells: v.cells.map_values(|c: Cell| Cell::Unary(op, Box::new(c))),
    }
}

/// `op` applied to the elements of two tensors of one shape.
pub open spec fn zip(op: BinOp, a: TensorView, b: TensorView) -> TensorView {
    TensorView {
        dims: a.dims,
        dtype: a.dtype,
        cells: Seq::new(
            a.cells.len(),
            |i: int| Cell::Binary(op, Box::new(a.cells[i]), Box::new(b.cells[i])),
        ),
    }
}

/// `op` applied to the elements of two tensors repeated to their common shape.
#[verifier::opaque]
pub open spec fn binary(op: BinOp, a: TensorView, b: TensorView) -> TensorView {
    let dims = common_dims(a.dims, b.dims);
    zip(op, broadcast_to(a, dims), broadcast_to(b, dims))
}

/// `op` on the elements of two tensors repeated to their common shape: ones and zeros.
#[verifier::opaque]
pub open spec fn relation(op: RelOp, a: TensorView, b: TensorView) -> TensorView {
    let dims = common_dims(a.dims, b.dims);
    let l = broadcast_to(a, dims);
    let r = broadcast_to(b, dims);
    TensorView {
        dims,
        dtype: Dtype::U8,
        cells: Seq::new(
            numel(dims),
            |i: int| Cell::Relation(op, Box::new(l.cells[i]), Box::new(r.cells[i])),
        ),
    }
}

/// `x * mul + add` for every element `x`, where `mul` and `add` are single numbers.
pub open spec fn affine(v: TensorView, mul: TensorView, add: TensorView) -> TensorView {
    TensorView {
        dims: v.dims,
        dtype: v.dtype,
        cells: v.cells.map_values(
            |c: Cell|
                Cell::Affine {
                    x: Box::new(c),
                    mul: Box::new(mul.cells[0]),
                    add: Box::new(add.cells[0]),
                },
        ),
    }
}

/// Every element to the power of the single number `e`.
pub open spec fn powf(v: TensorView, e: TensorView) -> TensorView {
    TensorView {
        dims: v.dims,
        dtype: v.dtype,
        cells: v.cells.map_values(
            |c: Cell| Cell::Powf { x: Box::new(c), e: Box::new(e.cells[0]) },
        ),
    }
}

/// The elements of `a` where `flag` is not zero, those of `b` elsewhere.
pub open spec fn select(flag: TensorView, a: TensorView, b: TensorView) -> TensorView {
    TensorView {
        dims: a.dims,
        dtype: a.dtype,
        cells: Seq::new(
            a.cells.len(),
            |i: int|
                Cell::Select {
                    flag: Box::new(flag.cells[i]),
                    on_true: Box::new(a.cells[i]),
                    on_false: Box::new(b.cells[i]),
                },
        ),
    }
}

/// The single number with bit pattern `bits`.
pub open spec fn number(bits: u64) -> TensorView {
    TensorView { dims: Seq::empty(), dtype: Dtype::F64, cells: seq![Cell::Real(bits)] }
}

/// The natural number `n` as a binary64 number: converted where it fits into a signed 64-bit
/// integer, else put together from its upper and its lower 32 bits.
#[verifier::opaque]
pub open spec fn counted(n: nat) -> Cell {
    if n <= i64::MAX {
        Cell::Cast(Dtype::F64, Box::new(Cell::Int(n as int)))
    } else {
        Cell::Binary(
            BinOp::Plus,
            Box::new(
                Cell::Binary(
                    BinOp::Times,
                    Box::new(Cell::Cast(Dtype::F64, Box::new(Cell::Int(n as int / 0x1_0000_0000)))),
                    Box::new(Cell::Real(0x41F0_0000_0000_0000)),
                ),
            ),
            Box::new(Cell::Cast(Dtype::F64, Box::new(Cell::Int(n as int % 0x1_0000_0000)))),
        )
    }
}

/// The single binary64 number `n`.
pub open spec fn count(n: nat) -> TensorView {
    TensorView { dims: Seq::empty(), dtype: Dtype::F64, cells: seq![counted(n)] }
}

/// Every element raised to at least `lo` and lowered to at most `hi`.
pub open spec fn clamp(v: TensorView, lo: u64, hi: u64) -> TensorView {
    let raised = binary(BinOp::Maximum, v, cast(number(lo), v.dtype));
    binary(BinOp::Minimum, raised, cast(number(hi), v.dtype))
}

/// Integers under a shape.
pub open spec fn integers(values: Seq<i64>, dims: Seq<nat>) -> TensorView {
    TensorView {
        dims,
        dtype: Dtype::I64,
        cells: values.map_values(|n: i64| Cell::Int(n as int)),
    }
}

/// The integers `0 .. n` along one axis.
pub open spec fn range(n: nat) -> TensorView {
    TensorView {
        dims: seq![n],
        dtype: Dtype::I64,
        cells: Seq::new(n, |i: int| Cell::Int(i)),
    }
}

/// The integers that the elements of a tensor of integers are.
pub open spec fn integer_cells(v: TensorView) -> Seq<int> {
    v.cells.map_values(|c: Cell| c->Int_0)
}

/// Whether every element is an integer that is a position of an axis of this size.
pub open spec fn all_positions(v: TensorView, size: nat) -> bool {
    forall|j: int|
        0 <= j < v.cells.len() ==> (#[trigger] v.cells[j]) is Int && 0 <= v.cells[j]->Int_0 < size
}

/// The largest integer of an element type for positions; it stands for no position.
pub open spec fn largest(dtype: Dtype) -> nat {
    match dtype {
        Dtype::U8 => 0xFF,
        Dtype::U32 => 0xFFFF_FFFF,
        _ => 0x7FFF_FFFF_FFFF_FFFF,
    }
}

/// The integer `n` everywhere.
pub open spec fn full(n: int, dims: Seq<nat>, dtype: Dtype) -> TensorView {
    TensorView { dims, dtype, cells: Seq::new(numel(dims), |i: int| constant(n, dtype)) }
}

/// The integer `n` as an element: of an integer type the integer itself, else converted.
pub open spec fn constant(n: int, dtype: Dtype) -> Cell {
    match dtype {
        Dtype::U8 | Dtype::U32 | Dtype::I16 | Dtype::I32 | Dtype::I64 => Cell::Int(n),
        _ => Cell::Cast(dtype, Box::new(Cell::Int(n))),
    }
}

pub open spec fn zeros(dims: Seq<nat>, dtype: Dtype) -> TensorView {
    full(0, dims, dtype)
}

pub open spec fn ones(dims: Seq<nat>, dtype: Dtype) -> TensorView {
    full(1, dims, dtype)
}

/// What a kernel computes from `args`, with the given shape and element type.
pub open spec fn out(kernel: Kernel, args: Seq<TensorView>, dims: Seq<nat>, dtype: Dtype) -> TensorView {
    TensorView {
        dims,
        dtype,
        cells: Seq::new(numel(dims), |i: int| Cell::Out { kernel, args, index: i }),
    }
}

/// Matrix product over the last two axes.
#[verifier::opaque]
pub open spec fn matmul(a: TensorView, b: TensorView) -> TensorView {
    out(Kernel::MatMul, seq![a, b], a.dims.drop_last().push(b.dims.last()), a.dtype)
}

/// `x` times the transposed `weight`, plus `bias`.
#[verifier::opaque]
pub open spec fn linear(x: TensorView, weight: TensorView, bias: Option<TensorView>) -> TensorView {
    let args = match bias {
        Some(b) => seq![x, weight, b],
        None => seq![x, weight],
    };
    out(Kernel::Linear, args, x.dims.drop_last().push(weight.dims[0]), x.dtype)
}

/// The number of positions of a window of `k` elements, `dilation` apart, that
/// moves by `stride` over `n` elements with `padding` more on both sides.
pub open spec fn windows(n: nat, k: nat, padding: nat, stride: nat, dilation: nat) -> nat {
    ((n + 2 * padding - dilation * (k - 1) - 1) / (stride as int) + 1) as nat
}

/// Whether there is such a position.
pub open spec fn has_window(n: nat, k: nat, padding: nat, stride: nat, dilation: nat) -> bool {
    k >= 1 && stride >= 1 && dilation * (k - 1) + 1 <= n + 2 * padding
}

/// Convolution over the last two axes.
#[verifier::opaque]
pub open spec fn conv2d(
    x: TensorView,
    weight: TensorView,
    bias: Option<TensorView>,
    padding: nat,
    stride: nat,
    dilation: nat,
    groups: nat,
) -> TensorView {
    let args = match bias {
        Some(b) => seq![x, weight, b],
        None => seq![x, weight],
    };
    let h = windows(x.dims[2], weight.dims[2], padding, stride, dilation);
    let w = windows(x.dims[3], weight.dims[3], padding, stride, dilation);
    out(
        Kernel::Conv2d { padding, stride, dilation, groups },
        args,
        seq![x.dims[0], weight.dims[0], h, w],
        x.dtype,
    )
}

/// Convolution over the last axis.
#[verifier::opaque]
pub open spec fn conv1d(
    x: TensorView,
    weight: TensorView,
    bias: Option<TensorView>,
    padding: nat,
    stride: nat,
    dilation: nat,
    groups: nat,
) -> TensorView {
    let args = match bias {
        Some(b) => seq![x, weight, b],
        None => seq![x, weight],
    };
    let n = windows(x.dims[2], weight.dims[2], padding, stride, dilation);
    out(
        Kernel::Conv1d { padding, stride, dilation, groups },
        args,
        seq![x.dims[0], weight.dims[0], n],
        x.dtype,
    )
}

/// Normalisation of each of `groups` groups of channels (axis 1) to mean zero and
/// variance one, `eps` added to the variance, then times `weight` plus `bias` for each
/// channel.
#[verifier::opaque]
pub open spec fn group_norm(
    x: TensorView,
    weight: TensorView,
    bias: TensorView,
    groups: nat,
    eps: TensorView,
) -> TensorView {
    out(Kernel::GroupNorm { groups }, seq![x, weight, bias, eps], x.dims, x.dtype)
}

/// The number of elements into which a window of `k` elements that moves by `stride`
/// spreads `n` elements, without `padding` of them on both sides.
pub open spec fn spread(n: nat, k: nat, padding: nat, stride: nat) -> int {
    (n - 1) * stride - 2 * padding + k
}

/// Transposed convolution over the last axis: every element is spread over a window.
#[verifier::opaque]
pub open spec fn conv_transpose1d(
    x: TensorView,
    weight: TensorView,
    bias: Option<TensorView>,
    padding: nat,
    stride: nat,
) -> TensorView {
    let args = match bias {
        Some(b) => seq![x, weight, b],
        None => seq![x, weight],
    };
    let n = spread(x.dims[2], weight.dims[2], padding, stride) as nat;
    out(
        Kernel::ConvTranspose1d { padding, stride },
        args,
        seq![x.dims[0], weight.dims[1], n],
        x.dtype,
    )
}

/// `v` with `left` zeros in front of it and `right` zeros behind it along axis `dim`.
pub open spec fn pad_zeros(v: TensorView, dim: int, left: nat, right: nat) -> TensorView {
    let l = zeros(v.dims.update(dim, left), v.dtype);
    let r = zeros(v.dims.update(dim, right), v.dtype);
    if left == 0 && right == 0 {
        v
    } else if left == 0 {
        cat(seq![v, r], dim)
    } else if right == 0 {
        cat(seq![l, v], dim)
    } else {
        cat(seq![l, v, r], dim)
    }
}

/// Every position of axis `dim` twice.
pub open spec fn doubled(v: TensorView, dim: int) -> TensorView {
    index_select(v, Seq::new(2 * v.dims[dim], |j: int| j / 2), dim)
}

/// Softmax along axis `dim`.
#[verifier::opaque]
pub open spec fn softmax(v: TensorView, dim: int) -> TensorView {
    out(Kernel::Softmax { dim: dim as nat }, seq![v], v.dims, v.dtype)
}

/// Softmax along the last axis.
#[verifier::opaque]
pub open spec fn softmax_last_dim(v: TensorView) -> TensorView {
    out(Kernel::SoftmaxLastDim, seq![v], v.dims, v.dtype)
}

/// Mean along axis `dim`, which keeps size one.
#[verifier::opaque]
pub open spec fn mean_keepdim(v: TensorView, dim: int) -> TensorView {
    out(Kernel::Mean { dim: dim as nat }, seq![v], v.dims.update(dim, 1), v.dtype)
}

/// A shape without some of its axes, which are listed in ascending order.
pub open spec fn without(dims: Seq<nat>, axes: Seq<int>) -> Seq<nat>
    decreases axes.len(),
{
    if axes.len() == 0 {
        dims
    } else {
        without(dims.remove(axes.last()), axes.drop_last())
    }
}

/// The sum along some axes, which are dropped.
#[verifier::opaque]
pub open spec fn sum(v: TensorView, axes: Seq<int>) -> TensorView {
    out(Kernel::Sum { axes }, seq![v], without(v.dims, axes), v.dtype)
}

/// The largest element along axis `dim`, which is dropped.
#[verifier::opaque]
pub open spec fn max(v: TensorView, dim: int) -> TensorView {
    out(Kernel::Max { dim }, seq![v], v.dims.remove(dim), v.dtype)
}

/// The smallest element along axis `dim`, which is dropped.
#[verifier::opaque]
pub open spec fn min(v: TensorView, dim: int) -> TensorView {
    out(Kernel::Min { dim }, seq![v], v.dims.remove(dim), v.dtype)
}

/// Row `n` of `table` for each element `n` of `ids`. Where an element is not known to be
/// a row, which row comes is left open.
#[verifier::opaque]
pub open spec fn embedding(table: TensorView, ids: TensorView) -> TensorView {
    let dims = ids.dims.push(table.dims[1]);
    if all_positions(ids, table.dims[0]) && all_positions(ids, largest(ids.dtype)) {
        reshape(index_select(table, integer_cells(ids), 0), dims)
    } else {
        out(Kernel::Embedding, seq![table, ids], dims, table.dtype)
    }
}

/// Non-negative integers under a shape.
pub open spec fn unsigned_integers(values: Seq<u32>, dims: Seq<nat>) -> TensorView {
    TensorView {
        dims,
        dtype: Dtype::U32,
        cells: values.map_values(|n: u32| Cell::Int(n as int)),
    }
}

/// The single number `n`, converted from an integer to an element type.
pub open spec fn whole(n: nat, dtype: Dtype) -> TensorView {
    cast(
        TensorView { dims: Seq::empty(), dtype: Dtype::I64, cells: seq![Cell::Int(n as int)] },
        dtype,
    )
}

} // verus!
