//! The reading of symbolic numbers as real numbers.
//!
//! A [`Cell`] records which operations were carried out. Read over the real numbers, without
//! rounding, it has a value. The laws of the library are stated over these values: they say what
//! the operations amount to, whatever the device rounds.
use vstd::prelude::*;

use crate::lemmas;
use crate::model::{self, BinOp, Cell, Dtype, Kernel, RelOp, TensorView, UnOp};

verus! {

/// A tensor of real numbers.
#[verifier::ext_equal]
pub ghost struct RealView {
    pub dims: Seq<nat>,
    pub values: Seq<real>,
}

impl RealView {
    /// The number with multi-index `idx`.
    pub open spec fn at(self, idx: Seq<int>) -> real {
        self.values[model::ravel(self.dims, idx)]
    }
}

/// The functions of real numbers that no finite number of additions, multiplications and divisions
/// gives, and the kernels. A law holds whatever they are, or says what it needs of them.
pub ghost struct Functions {
    pub exp: spec_fn(real) -> real,
    pub log: spec_fn(real) -> real,
    pub sin: spec_fn(real) -> real,
    pub cos: spec_fn(real) -> real,
    pub tanh: spec_fn(real) -> real,
    pub sqrt: spec_fn(real) -> real,
    /// By what the Gaussian error linear unit multiplies a number.
    pub gate: spec_fn(real) -> real,
    pub power: spec_fn(real, real) -> real,
    /// The whole number to which a number is converted.
    pub whole: spec_fn(real) -> real,
    /// Element of what a kernel computes from tensors, where it is not a sum.
    pub kernel: spec_fn(Kernel, Seq<RealView>, int) -> real,
}

/// The number with this IEEE-754 binary64 bit pattern. What does not stand for a number has some
/// value.
pub open spec fn of_bits(bits: u64) -> real {
    let e = bits as int / 0x10_0000_0000_0000 % 0x800;
    let fraction = bits as int % 0x10_0000_0000_0000;
    let m = if e == 0 {
        2 * fraction
    } else {
        0x10_0000_0000_0000 + fraction
    };
    let size = if e >= 1075 {
        (m * vstd::arithmetic::power2::pow2((e - 1075) as nat)) as real
    } else {
        m as real / (vstd::arithmetic::power2::pow2((1075 - e) as nat) as int) as real
    };
    if bits >= 0x8000_0000_0000_0000 {
        -size
    } else {
        size
    }
}

pub open spec fn unary_value(op: UnOp, x: real, f: Functions) -> real {
    match op {
        UnOp::Neg => -x,
        UnOp::Exp => (f.exp)(x),
        UnOp::Log => (f.log)(x),
        UnOp::Sin => (f.sin)(x),
        UnOp::Cos => (f.cos)(x),
        UnOp::Tanh => (f.tanh)(x),
        UnOp::Sqr => x * x,
        UnOp::Sqrt => (f.sqrt)(x),
        UnOp::Recip => 1real / x,
        UnOp::Gelu => x * (f.gate)(x),
        UnOp::Sigmoid => 1real / (1real + (f.exp)(-x)),
        UnOp::Relu => if x > 0real {
            x
        } else {
            0real
        },
    }
}

pub open spec fn binary_value(op: BinOp, a: real, b: real) -> real {
    match op {
        BinOp::Plus => a + b,
        BinOp::Minus => a - b,
        BinOp::Times => a * b,
        BinOp::Over => a / b,
        BinOp::Maximum => if a >= b {
            a
        } else {
            b
        },
        BinOp::Minimum => if a <= b {
            a
        } else {
            b
        },
    }
}

pub open spec fn relation_value(op: RelOp, a: real, b: real) -> real {
    let holds = match op {
        RelOp::Lt => a < b,
        RelOp::Gt => a > b,
        RelOp::Ge => a >= b,
    };
    if holds {
        1real
    } else {
        0real
    }
}

/// The sum of the first `n` numbers of a family.
pub open spec fn sum_to(n: int, g: spec_fn(int) -> real) -> real
    decreases n,
{
    if n <= 0 {
        0real
    } else {
        sum_to(n - 1, g) + g(n - 1)
    }
}

/// The number at `idx`, zero outside the tensor.
pub open spec fn or_zero(v: RealView, idx: Seq<int>) -> real {
    if model::in_bounds(v.dims, idx) {
        v.at(idx)
    } else {
        0real
    }
}

/// The number for output channel `o` of a bias, zero without one.
pub open spec fn bias_at(args: Seq<RealView>, o: int) -> real {
    if args.len() > 2 {
        args[2].at(seq![o])
    } else {
        0real
    }
}

/// Element `index` of what a kernel computes from tensors of real numbers.
pub open spec fn kernel_value(kernel: Kernel, args: Seq<RealView>, index: int, f: Functions) -> real {
    let (x, w) = (args[0], args[1]);
    match kernel {
        Kernel::MatMul => {
            let o = model::unravel(x.dims.drop_last().push(w.dims.last()), index);
            let batch = o.drop_last().drop_last();
            sum_to(
                x.dims.last() as int,
                |k: int| x.at(o.drop_last().push(k)) * w.at(batch.push(k).push(o.last())),
            )
        },
        Kernel::Linear => {
            let o = model::unravel(x.dims.drop_last().push(w.dims[0]), index);
            sum_to(
                x.dims.last() as int,
                |k: int| x.at(o.drop_last().push(k)) * w.at(seq![o.last(), k]),
            ) + bias_at(args, o.last())
        },
        Kernel::Conv1d { padding, stride, dilation, groups } => {
            let n = model::windows(x.dims[2], w.dims[2], padding, stride, dilation);
            let o = model::unravel(seq![x.dims[0], w.dims[0], n], index);
            let first = o[1] / (w.dims[0] as int / groups as int) * w.dims[1];
            sum_to(
                w.dims[1] as int,
                |c: int|
                    sum_to(
                        w.dims[2] as int,
                        |k: int|
                            or_zero(x, seq![o[0], first + c, o[2] * stride + k * dilation - padding]) * w.at(
                                seq![o[1], c, k],
                            ),
                    ),
            ) + bias_at(args, o[1])
        },
        Kernel::Conv2d { padding, stride, dilation, groups } => {
            let h = model::windows(x.dims[2], w.dims[2], padding, stride, dilation);
            let n = model::windows(x.dims[3], w.dims[3], padding, stride, dilation);
            let o = model::unravel(seq![x.dims[0], w.dims[0], h, n], index);
            let first = o[1] / (w.dims[0] as int / groups as int) * w.dims[1];
            sum_to(
                w.dims[1] as int,
                |c: int|
                    sum_to(
                        w.dims[2] as int,
                        |j: int|
                            sum_to(
                                w.dims[3] as int,
                                |k: int|
                                    or_zero(
                                        x,
                                        seq![
                                            o[0],
                                            first + c,
                                            o[2] * stride + j * dilation - padding,
                                            o[3] * stride + k * dilation - padding,
                                        ],
                                    ) * w.at(seq![o[1], c, j, k]),
                            ),
                    ),
            ) + bias_at(args, o[1])
        },
        Kernel::ConvTranspose1d { padding, stride } => {
            let n = model::spread(x.dims[2], w.dims[2], padding, stride) as nat;
            let o = model::unravel(seq![x.dims[0], w.dims[1], n], index);
            sum_to(
                w.dims[0] as int,
                |c: int|
                    sum_to(
                        x.dims[2] as int,
                        |t: int|
                            x.at(seq![o[0], c, t]) * or_zero(
                                w,
                                seq![c, o[1], o[2] + padding - t * stride],
                            ),
                    ),
            ) + bias_at(args, o[1])
        },
        Kernel::Mean { dim } => {
            let o = model::unravel(x.dims.update(dim as int, 1), index);
            sum_to(x.dims[dim as int] as int, |k: int| x.at(o.update(dim as int, k)))
                / x.dims[dim as int] as int as real
        },
        Kernel::Softmax { dim } => {
            let o = model::unravel(x.dims, index);
            (f.exp)(x.at(o)) / sum_to(
                x.dims[dim as int] as int,
                |k: int| (f.exp)(x.at(o.update(dim as int, k))),
            )
        },
        Kernel::SoftmaxLastDim => {
            let o = model::unravel(x.dims, index);
            let dim = x.dims.len() - 1;
            (f.exp)(x.at(o)) / sum_to(x.dims[dim] as int, |k: int| (f.exp)(x.at(o.update(dim, k))))
        },
        Kernel::Sum { axes } => if axes.len() == 1 {
            let o = model::unravel(x.dims.remove(axes[0]), index);
            sum_to(x.dims[axes[0]] as int, |k: int| x.at(o.insert(axes[0], k)))
        } else {
            (f.kernel)(kernel, args, index)
        },
        _ => (f.kernel)(kernel, args, index),
    }
}

/// The value of a symbolic number.
pub open spec fn value(c: Cell, f: Functions) -> real
    decreases c,
{
    match c {
        Cell::Int(n) => n as real,
        Cell::Real(bits) => of_bits(bits),
        Cell::Cast(dtype, x) => if dtype.float() {
            value(*x, f)
        } else {
            (f.whole)(value(*x, f))
        },
        Cell::Unary(op, x) => unary_value(op, value(*x, f), f),
        Cell::Binary(op, a, b) => binary_value(op, value(*a, f), value(*b, f)),
        Cell::Relation(op, a, b) => relation_value(op, value(*a, f), value(*b, f)),
        Cell::Affine { x, mul, add } => value(*x, f) * value(*mul, f) + value(*add, f),
        Cell::Powf { x, e } => (f.power)(value(*x, f), value(*e, f)),
        Cell::Select { flag, on_true, on_false } => if value(*flag, f) != 0real {
            value(*on_true, f)
        } else {
            value(*on_false, f)
        },
        Cell::Out { kernel, args, index } => kernel_value(kernel, read_all(args, f), index, f),
    }
}

/// The values of the elements of a tensor.
pub open spec fn read(t: TensorView, f: Functions) -> RealView
    decreases t,
{
    RealView {
        dims: t.dims,
        values: Seq::new(
            t.cells.len(),
            |j: int|
                if 0 <= j < t.cells.len() {
                    value(t.cells[j], f)
                } else {
                    0real
                },
        ),
    }
}

/// The values of the elements of some tensors.
pub open spec fn read_all(args: Seq<TensorView>, f: Functions) -> Seq<RealView>
    decreases args,
{
    Seq::new(
        args.len(),
        |k: int|
            if 0 <= k < args.len() {
                read(args[k], f)
            } else {
                RealView { dims: Seq::empty(), values: Seq::empty() }
            },
    )
}

// Numbers.

/// A positive number from its exponent and its fraction.
pub proof fn lemma_bits(bits: u64, e: int, fraction: int, p: int)
    requires
        0 < e < 1075,
        0 <= fraction < 0x10_0000_0000_0000,
        bits as int == e * 0x10_0000_0000_0000 + fraction,
        p == vstd::arithmetic::power2::pow2((1075 - e) as nat),
    ensures
        of_bits(bits) == (0x10_0000_0000_0000 + fraction) as real / p as real,
{
    assert(bits as int / 0x10_0000_0000_0000 == e && bits as int % 0x10_0000_0000_0000 == fraction);
}

pub proof fn lemma_constants()
    ensures
        of_bits(0) == 0real,
        of_bits(0x3FF0_0000_0000_0000) == 1real,
        of_bits(0x4000_0000_0000_0000) == 2real,
        of_bits(0xBFF0_0000_0000_0000) == -(1real),
        of_bits(0x3FE0_0000_0000_0000) == 1real / 2real,
        of_bits(0x4090_0000_0000_0000) == 1024real,
        of_bits(0x40A8_0000_0000_0000) == 3072real,
        of_bits(0x41F0_0000_0000_0000) == 0x1_0000_0000real,
        of_bits(0x4010_0000_0000_0000) == 4real,
        of_bits(0x406F_E000_0000_0000) == 255real,
        of_bits(0x40DF_FFC0_0000_0000) == 32767real,
{
    vstd::arithmetic::power2::lemma2_to64();
    vstd::arithmetic::power2::lemma2_to64_rest();
    lemma_bits(0x3FF0_0000_0000_0000, 1023, 0, 0x10_0000_0000_0000);
    lemma_bits(0x4000_0000_0000_0000, 1024, 0, 0x8_0000_0000_0000);
    lemma_bits(0x3FE0_0000_0000_0000, 1022, 0, 0x20_0000_0000_0000);
    lemma_bits(0x4090_0000_0000_0000, 1033, 0, 0x400_0000_0000);
    lemma_bits(0x40A8_0000_0000_0000, 1034, 0x8_0000_0000_0000, 0x200_0000_0000);
    lemma_bits(0x41F0_0000_0000_0000, 1055, 0, 0x10_0000);
    lemma_bits(0x4010_0000_0000_0000, 1025, 0, 0x4_0000_0000_0000);
    lemma_bits(0x406F_E000_0000_0000, 1030, 0xF_E000_0000_0000, 0x2000_0000_0000);
    lemma_bits(0x40DF_FFC0_0000_0000, 1037, 0xF_FFC0_0000_0000, 0x40_0000_0000);
    assert(0xBFF0_0000_0000_0000u64 as int / 0x10_0000_0000_0000 % 0x800 == 1023);
    vstd::arithmetic::power2::lemma_pow2_pos(1075);
    assert(0real / (vstd::arithmetic::power2::pow2(1075) as int) as real == 0real) by (nonlinear_arith)
        requires
            (vstd::arithmetic::power2::pow2(1075) as int) as real > 0real,
    ;
}

/// Zero of either sign.
pub proof fn lemma_minus_zero()
    ensures
        of_bits(0) == 0real,
        of_bits(0x8000_0000_0000_0000) == 0real,
{
    lemma_constants();
    assert(0x8000_0000_0000_0000u64 as int / 0x10_0000_0000_0000 % 0x800 == 0);
    assert(0x8000_0000_0000_0000u64 as int % 0x10_0000_0000_0000 == 0);
    assert(0u64 as int / 0x10_0000_0000_0000 % 0x800 == 0);
}

// Values of cells.

pub broadcast proof fn value_unary(op: UnOp, x: Box<Cell>, f: Functions)
    ensures
        #[trigger] value(Cell::Unary(op, x), f) == unary_value(op, value(*x, f), f),
{
}

pub broadcast proof fn value_binary(op: BinOp, a: Box<Cell>, b: Box<Cell>, f: Functions)
    ensures
        #[trigger] value(Cell::Binary(op, a, b), f) == binary_value(op, value(*a, f), value(*b, f)),
{
}

pub broadcast proof fn value_relation(op: RelOp, a: Box<Cell>, b: Box<Cell>, f: Functions)
    ensures
        #[trigger] value(Cell::Relation(op, a, b), f) == relation_value(op, value(*a, f), value(*b, f)),
{
}

pub broadcast proof fn value_cast(dtype: Dtype, x: Box<Cell>, f: Functions)
    requires
        dtype.float(),
    ensures
        #[trigger] value(Cell::Cast(dtype, x), f) == value(*x, f),
{
}

pub broadcast proof fn value_affine(x: Box<Cell>, mul: Box<Cell>, add: Box<Cell>, f: Functions)
    ensures
        #[trigger] value(Cell::Affine { x, mul, add }, f) == value(*x, f) * value(*mul, f) + value(*add, f),
{
}

pub broadcast proof fn value_real(bits: u64, f: Functions)
    ensures
        #[trigger] value(Cell::Real(bits), f) == of_bits(bits),
{
}

pub broadcast proof fn value_int(n: int, f: Functions)
    ensures
        #[trigger] value(Cell::Int(n), f) == n as real,
{
}

pub broadcast proof fn value_select(flag: Box<Cell>, on_true: Box<Cell>, on_false: Box<Cell>, f: Functions)
    ensures
        #[trigger] value(Cell::Select { flag, on_true, on_false }, f) == (if value(*flag, f) != 0real {
            value(*on_true, f)
        } else {
            value(*on_false, f)
        }),
{
}

/// What a kernel computes is read from what its arguments are read as.
pub proof fn lemma_out(kernel: Kernel, args: Seq<TensorView>, index: int, f: Functions)
    ensures
        value(Cell::Out { kernel, args, index }, f) == kernel_value(kernel, read_all(args, f), index, f),
        read_all(args, f).len() == args.len(),
        forall|k: int| 0 <= k < args.len() ==> #[trigger] read_all(args, f)[k] == read(args[k], f),
{
}

/// The value at `idx`.
pub broadcast proof fn read_at(t: TensorView, idx: Seq<int>, f: Functions)
    requires
        t.wf(),
        model::in_bounds(t.dims, idx),
    ensures
        #[trigger] read(t, f).at(idx) == value(t.at(idx), f),
{
    lemmas::lemma_ravel(t.dims, idx);
}

// Values of tensors, element by element.

pub broadcast proof fn read_cast(t: TensorView, dtype: Dtype, i: int, f: Functions)
    requires
        dtype.float(),
        0 <= i < t.cells.len(),
    ensures
        #[trigger] value(model::cast(t, dtype).cells[i], f) == value(t.cells[i], f),
{
}

pub broadcast proof fn read_unary(op: UnOp, t: TensorView, i: int, f: Functions)
    requires
        0 <= i < t.cells.len(),
    ensures
        #[trigger] value(model::unary(op, t).cells[i], f) == unary_value(op, value(t.cells[i], f), f),
{
}

pub broadcast proof fn read_affine(t: TensorView, mul: TensorView, add: TensorView, i: int, f: Functions)
    requires
        0 <= i < t.cells.len(),
    ensures
        #[trigger] value(model::affine(t, mul, add).cells[i], f) == value(t.cells[i], f) * value(mul.cells[0], f)
            + value(add.cells[0], f),
{
}

pub broadcast proof fn read_number(bits: u64, f: Functions)
    ensures
        #[trigger] value(model::number(bits).cells[0], f) == of_bits(bits),
{
}

/// The shape of a combined tensor.
pub broadcast proof fn binary_shape(op: BinOp, a: TensorView, b: TensorView)
    ensures
        (#[trigger] model::binary(op, a, b)).dims == model::common_dims(a.dims, b.dims),
        model::binary(op, a, b).wf(),
        model::binary(op, a, b).dtype == a.dtype,
{
    reveal(model::binary);
    reveal(model::broadcast_to);
}

/// A shape has itself in common with itself.
pub broadcast proof fn same_shape(d: Seq<nat>)
    ensures
        #[trigger] model::common_dims(d, d) == d,
{
    assert forall|k: int| 0 <= k < d.len() implies #[trigger] model::common_dims(d, d)[k] == d[k] by {
        assert(model::size_from_last(d, d.len() - 1 - k) == d[k]);
    }
    assert(model::common_dims(d, d) =~= d);
}

/// A shape has itself in common with that of a single number.
pub broadcast proof fn number_shape(d: Seq<nat>, e: Seq<nat>)
    requires
        e.len() == 0,
    ensures
        #[trigger] model::common_dims(d, e) == d,
{
    assert forall|k: int| 0 <= k < d.len() implies #[trigger] model::common_dims(d, e)[k] == d[k] by {
        assert(model::size_from_last(d, d.len() - 1 - k) == d[k]);
    }
    assert(model::common_dims(d, e) =~= d);
}

pub broadcast proof fn number_shape_first(d: Seq<nat>, e: Seq<nat>)
    requires
        e.len() == 0,
    ensures
        #[trigger] model::common_dims(e, d) == d,
{
    assert forall|k: int| 0 <= k < d.len() implies #[trigger] model::common_dims(e, d)[k] == d[k] by {
        assert(model::size_from_last(d, d.len() - 1 - k) == d[k]);
    }
    assert(model::common_dims(e, d) =~= d);
}

/// An element of two tensors that are combined.
pub proof fn lemma_binary_at(op: BinOp, a: TensorView, b: TensorView, idx: Seq<int>, f: Functions)
    requires
        model::in_bounds(model::common_dims(a.dims, b.dims), idx),
    ensures
        value(model::binary(op, a, b).at(idx), f) == binary_value(
            op,
            value(a.at(lemmas::repeated(a.dims, model::common_dims(a.dims, b.dims), idx)), f),
            value(b.at(lemmas::repeated(b.dims, model::common_dims(a.dims, b.dims), idx)), f),
        ),
{
    broadcast use value_binary;
    reveal(model::binary);
    reveal(model::broadcast_to);
    let d = model::common_dims(a.dims, b.dims);
    lemmas::lemma_ravel(d, idx);
    let i = model::ravel(d, idx);
    let (l, r) = (model::broadcast_to(a, d), model::broadcast_to(b, d));
    assert(l.cells[i] == a.at(lemmas::repeated(a.dims, d, model::unravel(d, i))));
    assert(r.cells[i] == b.at(lemmas::repeated(b.dims, d, model::unravel(d, i))));
}

/// An element of two tensors of one shape that are combined.
pub broadcast proof fn read_pair(op: BinOp, a: TensorView, b: TensorView, i: int, f: Functions)
    requires
        a.dims == b.dims,
        a.wf(),
        0 <= i < a.cells.len(),
    ensures
        #[trigger] value(model::binary(op, a, b).cells[i], f) == binary_value(
            op,
            value(a.cells[i], f),
            value(b.cells[i], f),
        ),
{
    broadcast use same_shape, value_binary, binary_shape;
    let d = a.dims;
    lemmas::lemma_unravel(d, i);
    let o = model::unravel(d, i);
    lemma_binary_at(op, a, b, o, f);
    assert(lemmas::repeated(d, d, o) =~= o);
}

/// An element of a tensor that is combined with a single number.
pub broadcast proof fn read_with_number(op: BinOp, a: TensorView, b: TensorView, i: int, f: Functions)
    requires
        b.rank() == 0,
        a.wf(),
        0 <= i < a.cells.len(),
    ensures
        #[trigger] value(model::binary(op, a, b).cells[i], f) == binary_value(
            op,
            value(a.cells[i], f),
            value(b.cells[0], f),
        ),
{
    broadcast use number_shape, value_binary, binary_shape;
    let d = a.dims;
    lemmas::lemma_unravel(d, i);
    let o = model::unravel(d, i);
    lemma_binary_at(op, a, b, o, f);
    assert(lemmas::repeated(d, d, o) =~= o);
    assert(model::ravel(b.dims, lemmas::repeated(b.dims, d, o)) == 0);
}

/// The number `n`.
pub broadcast proof fn read_count(n: nat, f: Functions)
    ensures
        #[trigger] value(model::count(n).cells[0], f) == n as int as real,
{
    broadcast use value_binary, value_cast, value_real, value_int;
    reveal(model::counted);
    lemma_constants();
    if n > i64::MAX {
        vstd::arithmetic::div_mod::lemma_fundamental_div_mod(n as int, 0x1_0000_0000);
    }
}

// Sums.

pub proof fn lemma_sum_ext(n: int, g: spec_fn(int) -> real, h: spec_fn(int) -> real)
    requires
        forall|k: int| 0 <= k < n ==> #[trigger] g(k) == h(k),
    ensures
        sum_to(n, g) == sum_to(n, h),
    decreases n,
{
    if n > 0 {
        lemma_sum_ext(n - 1, g, h);
        assert(g(n - 1) == h(n - 1));
    }
}

pub proof fn lemma_sum_zero(n: int, g: spec_fn(int) -> real)
    requires
        forall|k: int| 0 <= k < n ==> #[trigger] g(k) == 0real,
    ensures
        sum_to(n, g) == 0real,
    decreases n,
{
    if n > 0 {
        lemma_sum_zero(n - 1, g);
        assert(g(n - 1) == 0real);
    }
}

pub proof fn lemma_sum_scale(n: int, g: spec_fn(int) -> real, h: spec_fn(int) -> real, c: real)
    requires
        forall|k: int| 0 <= k < n ==> #[trigger] h(k) == c * g(k),
    ensures
        sum_to(n, h) == c * sum_to(n, g),
    decreases n,
{
    if n > 0 {
        lemma_sum_scale(n - 1, g, h, c);
        assert(h(n - 1) == c * g(n - 1));
        let (a, b) = (sum_to(n - 1, g), g(n - 1));
        assert(c * a + c * b == c * (a + b)) by (nonlinear_arith);
    } else {
        assert(c * 0real == 0real) by (nonlinear_arith);
    }
}

pub proof fn lemma_sum_plus(n: int, g: spec_fn(int) -> real, h: spec_fn(int) -> real, m: spec_fn(int) -> real)
    requires
        forall|k: int| 0 <= k < n ==> #[trigger] m(k) == g(k) + h(k),
    ensures
        sum_to(n, m) == sum_to(n, g) + sum_to(n, h),
    decreases n,
{
    if n > 0 {
        lemma_sum_plus(n - 1, g, h, m);
        assert(m(n - 1) == g(n - 1) + h(n - 1));
    }
}

// Dense layers.

/// A row of `x` times a row of `weight`.
pub open spec fn dot(x: TensorView, weight: TensorView, idx: Seq<int>, f: Functions) -> real {
    sum_to(
        x.dims.last() as int,
        |k: int| value(x.at(idx.drop_last().push(k)), f) * value(weight.at(seq![idx.last(), k]), f),
    )
}

/// What a bias adds to output `o`.
pub open spec fn bias_value(bias: Option<TensorView>, o: int, f: Functions) -> real {
    match bias {
        Some(b) => value(b.at(seq![o]), f),
        None => 0real,
    }
}

/// Whether a dense layer can be applied to the rows of `x`.
pub open spec fn dense(x: TensorView, weight: TensorView, bias: Option<TensorView>) -> bool {
    &&& x.wf() && weight.wf() && x.rank() >= 1
    &&& weight.dims == seq![weight.dims[0], x.dims.last()]
    &&& bias matches Some(b) ==> b.wf() && b.dims == seq![weight.dims[0]]
}

/// An output of a dense layer.
pub proof fn lemma_linear_at(x: TensorView, weight: TensorView, bias: Option<TensorView>, idx: Seq<int>, f: Functions)
    requires
        dense(x, weight, bias),
        model::in_bounds(x.dims.drop_last().push(weight.dims[0]), idx),
    ensures
        model::linear(x, weight, bias).dims == x.dims.drop_last().push(weight.dims[0]),
        model::linear(x, weight, bias).wf(),
        model::linear(x, weight, bias).dtype == x.dtype,
        value(model::linear(x, weight, bias).at(idx), f) == dot(x, weight, idx, f) + bias_value(
            bias,
            idx.last(),
            f,
        ),
{
    reveal(model::linear);
    let d = x.dims.drop_last().push(weight.dims[0]);
    let args = match bias {
        Some(b) => seq![x, weight, b],
        None => seq![x, weight],
    };
    let i = model::ravel(d, idx);
    lemmas::lemma_ravel(d, idx);
    lemma_out(Kernel::Linear, args, i, f);
    let r = read_all(args, f);
    assert(r[0] == read(args[0], f) && r[1] == read(args[1], f));
    let g = |k: int| r[0].at(idx.drop_last().push(k)) * r[1].at(seq![idx.last(), k]);
    let h = |k: int| value(x.at(idx.drop_last().push(k)), f) * value(weight.at(seq![idx.last(), k]), f);
    let o = model::unravel(d, i);
    assert(o == idx);
    let kept = |k: int| r[0].at(o.drop_last().push(k)) * r[1].at(seq![o.last(), k]);
    assert(d[d.len() - 1] == weight.dims[0] && 0 <= idx[d.len() - 1] < d[d.len() - 1]);
    assert forall|k: int| 0 <= k < x.dims.last() implies #[trigger] g(k) == h(k) by {
        let p = idx.drop_last().push(k);
        assert forall|j: int| 0 <= j < x.dims.len() implies 0 <= #[trigger] p[j] < x.dims[j] by {
            if j < x.dims.len() - 1 {
                assert(d[j] == x.dims[j] && p[j] == idx[j]);
            }
        }
        read_at(x, p, f);
        let q = seq![idx.last(), k];
        assert(model::in_bounds(weight.dims, q));
        read_at(weight, q, f);
    }
    lemma_sum_ext(x.dims.last() as int, g, h);
    lemma_sum_ext(x.dims.last() as int, kept, g);
    assert(dot(x, weight, idx, f) == sum_to(x.dims.last() as int, h)) by {
        lemma_sum_ext(
            x.dims.last() as int,
            |k: int| value(x.at(idx.drop_last().push(k)), f) * value(weight.at(seq![idx.last(), k]), f),
            h,
        );
    }
    if bias is Some {
        let b = bias->0;
        assert(r[2] == read(args[2], f));
        let q = seq![idx.last()];
        assert(model::in_bounds(b.dims, q));
        read_at(b, q, f);
    }
}

// Axes of size one.

pub proof fn lemma_unit_axis(dims: Seq<nat>, idx: Seq<int>, k: int)
    requires
        idx.len() == dims.len(),
        0 <= k <= dims.len(),
    ensures
        model::ravel(dims.insert(k, 1), idx.insert(k, 0)) == model::ravel(dims, idx),
        model::numel(dims.insert(k, 1)) == model::numel(dims),
    decreases dims.len(),
{
    let (d, o) = (dims.insert(k, 1), idx.insert(k, 0));
    if k == dims.len() {
        assert(d.drop_last() =~= dims && o.drop_last() =~= idx);
        assert(d.last() == 1 && o.last() == 0);
        let (x, y, one) = (model::ravel(dims, idx), model::numel(dims), d.last());
        assert(x * one == x && y * one == y) by (nonlinear_arith)
            requires
                one == 1,
        ;
    } else {
        assert(d.drop_last() =~= dims.drop_last().insert(k, 1));
        assert(o.drop_last() =~= idx.drop_last().insert(k, 0));
        assert(d.last() == dims.last() && o.last() == idx.last());
        lemma_unit_axis(dims.drop_last(), idx.drop_last(), k);
    }
}

/// An element behind a new axis.
pub proof fn lemma_unsqueeze_at(v: TensorView, k: int, idx: Seq<int>)
    requires
        idx.len() == v.dims.len(),
        0 <= k <= v.dims.len(),
    ensures
        model::unsqueeze(v, k).at(idx.insert(k, 0)) == v.at(idx),
        v.wf() ==> model::unsqueeze(v, k).wf(),
{
    lemma_unit_axis(v.dims, idx, k);
}

/// An element without an axis.
pub proof fn lemma_squeeze_at(v: TensorView, k: int, idx: Seq<int>)
    requires
        0 <= k < v.dims.len(),
        v.dims[k] == 1,
        idx.len() == v.dims.len() - 1,
    ensures
        model::squeeze(v, k).at(idx) == v.at(idx.insert(k, 0)),
        v.wf() ==> model::squeeze(v, k).wf(),
{
    let d = v.dims.remove(k);
    assert(d.insert(k, 1) =~= v.dims);
    lemma_unit_axis(d, idx, k);
}

// Sums along an axis.

/// The mean along an axis.
pub proof fn lemma_mean_at(v: TensorView, dim: int, idx: Seq<int>, f: Functions)
    requires
        v.wf(),
        0 <= dim < v.rank(),
        model::in_bounds(v.dims.update(dim, 1), idx),
    ensures
        model::mean_keepdim(v, dim).dims == v.dims.update(dim, 1),
        model::mean_keepdim(v, dim).wf(),
        model::mean_keepdim(v, dim).dtype == v.dtype,
        value(model::mean_keepdim(v, dim).at(idx), f) == sum_to(
            v.dims[dim] as int,
            |k: int| value(v.at(idx.update(dim, k)), f),
        ) / v.dims[dim] as int as real,
{
    reveal(model::mean_keepdim);
    let d = v.dims.update(dim, 1);
    let i = model::ravel(d, idx);
    lemmas::lemma_ravel(d, idx);
    let args = seq![v];
    lemma_out(Kernel::Mean { dim: dim as nat }, args, i, f);
    let r = read_all(args, f);
    assert(r[0] == read(args[0], f));
    let o = model::unravel(d, i);
    let g = |k: int| r[0].at(o.update(dim as nat as int, k));
    let h = |k: int| value(v.at(idx.update(dim, k)), f);
    assert forall|k: int| 0 <= k < v.dims[dim] implies #[trigger] g(k) == h(k) by {
        let p = idx.update(dim, k);
        assert forall|j: int| 0 <= j < v.dims.len() implies 0 <= #[trigger] p[j] < v.dims[j] by {
            assert(0 <= idx[j] < d[j]);
        }
        read_at(v, p, f);
    }
    lemma_sum_ext(v.dims[dim] as int, g, h);
}

/// A product of matrices.
pub proof fn lemma_matmul_at(a: TensorView, b: TensorView, batch: Seq<int>, i: int, j: int, f: Functions)
    requires
        a.wf() && b.wf(),
        a.rank() >= 2 && b.rank() == a.rank(),
        a.dims.drop_last().drop_last() == b.dims.drop_last().drop_last(),
        a.dims.last() == b.dims[b.rank() - 2],
        model::in_bounds(a.dims.drop_last().drop_last(), batch),
        0 <= i < a.dims[a.rank() - 2],
        0 <= j < b.dims.last(),
    ensures
        model::matmul(a, b).dims == a.dims.drop_last().push(b.dims.last()),
        model::matmul(a, b).wf(),
        model::matmul(a, b).dtype == a.dtype,
        value(model::matmul(a, b).at(batch.push(i).push(j)), f) == sum_to(
            a.dims.last() as int,
            |k: int| value(a.at(batch.push(i).push(k)), f) * value(b.at(batch.push(k).push(j)), f),
        ),
{
    reveal(model::matmul);
    let d = a.dims.drop_last().push(b.dims.last());
    let idx = batch.push(i).push(j);
    let n = a.rank();
    assert forall|k: int| 0 <= k < d.len() implies 0 <= #[trigger] idx[k] < d[k] by {
        if k < n - 2 {
            assert(idx[k] == batch[k] && d[k] == a.dims.drop_last().drop_last()[k]);
        }
    }
    let at = model::ravel(d, idx);
    lemmas::lemma_ravel(d, idx);
    let args = seq![a, b];
    lemma_out(Kernel::MatMul, args, at, f);
    let r = read_all(args, f);
    assert(r[0] == read(args[0], f) && r[1] == read(args[1], f));
    let o = model::unravel(d, at);
    assert(o.drop_last() =~= batch.push(i) && o.drop_last().drop_last() =~= batch && o.last() == j);
    let g = |k: int| r[0].at(o.drop_last().push(k)) * r[1].at(o.drop_last().drop_last().push(k).push(o.last()));
    let h = |k: int| value(a.at(batch.push(i).push(k)), f) * value(b.at(batch.push(k).push(j)), f);
    assert forall|k: int| 0 <= k < a.dims.last() implies #[trigger] g(k) == h(k) by {
        let (p, q) = (batch.push(i).push(k), batch.push(k).push(j));
        assert forall|m: int| 0 <= m < n implies 0 <= #[trigger] p[m] < a.dims[m] by {
            if m < n - 2 {
                assert(p[m] == batch[m] && a.dims[m] == a.dims.drop_last().drop_last()[m]);
            }
        }
        assert forall|m: int| 0 <= m < n implies 0 <= #[trigger] q[m] < b.dims[m] by {
            if m < n - 2 {
                assert(q[m] == batch[m] && b.dims[m] == b.dims.drop_last().drop_last()[m]);
            }
        }
        read_at(a, p, f);
        read_at(b, q, f);
    }
    lemma_sum_ext(a.dims.last() as int, g, h);
}

/// The softmax along the last axis.
pub proof fn lemma_softmax_at(v: TensorView, idx: Seq<int>, f: Functions)
    requires
        v.wf(),
        v.rank() >= 1,
        model::in_bounds(v.dims, idx),
    ensures
        model::softmax_last_dim(v).dims == v.dims,
        model::softmax_last_dim(v).wf(),
        value(model::softmax_last_dim(v).at(idx), f) == (f.exp)(value(v.at(idx), f)) / sum_to(
            v.dims.last() as int,
            |k: int| (f.exp)(value(v.at(idx.update(v.dims.len() - 1, k)), f)),
        ),
{
    reveal(model::softmax_last_dim);
    let at = model::ravel(v.dims, idx);
    lemmas::lemma_ravel(v.dims, idx);
    let args = seq![v];
    lemma_out(Kernel::SoftmaxLastDim, args, at, f);
    let r = read_all(args, f);
    assert(r[0] == read(args[0], f));
    let dim = v.dims.len() - 1;
    let o = model::unravel(v.dims, at);
    read_at(v, idx, f);
    let g = |k: int| (f.exp)(r[0].at(o.update(dim, k)));
    let h = |k: int| (f.exp)(value(v.at(idx.update(v.dims.len() - 1, k)), f));
    assert forall|k: int| 0 <= k < v.dims[dim] implies #[trigger] g(k) == h(k) by {
        let p = idx.update(dim, k);
        assert forall|j: int| 0 <= j < v.dims.len() implies 0 <= #[trigger] p[j] < v.dims[j] by {
            assert(0 <= idx[j] < v.dims[j]);
        }
        read_at(v, p, f);
    }
    lemma_sum_ext(v.dims[dim] as int, g, h);
}

// Zeros.

/// Whether every element is zero.
pub open spec fn all_zero(t: TensorView, f: Functions) -> bool {
    forall|j: int| 0 <= j < t.cells.len() ==> value(#[trigger] t.cells[j], f) == 0real
}

/// Exchanged axes keep zeros.
pub proof fn lemma_zero_permute(v: TensorView, p: Seq<int>, f: Functions)
    requires
        v.wf(),
        model::is_permutation(p, v.rank()),
        all_zero(v, f),
    ensures
        all_zero(model::permute(v, p), f),
        model::permute(v, p).wf(),
{
    reveal(model::permute);
    let w = model::permute(v, p);
    let n = v.rank();
    assert forall|j: int| 0 <= j < w.cells.len() implies value(#[trigger] w.cells[j], f) == 0real by {
        lemmas::lemma_unravel(w.dims, j);
        let o = model::unravel(w.dims, j);
        let source = Seq::new(p.len(), |k: int| o[p.index_of(k)]);
        lemmas::lemma_permutation_onto(p, n);
        assert forall|k: int| 0 <= k < n implies 0 <= #[trigger] source[k] < v.dims[k] by {
            assert(p.contains(k));
            let q = p.index_of(k);
            assert(p[q] == k);
            assert(0 <= o[q] < w.dims[q]);
        }
        lemmas::lemma_ravel(v.dims, source);
    }
}

/// A part of zeros is zero.
pub proof fn lemma_zero_narrow(v: TensorView, dim: int, start: nat, len: nat, f: Functions)
    requires
        v.wf(),
        0 <= dim < v.rank(),
        start + len <= v.dims[dim],
        all_zero(v, f),
    ensures
        all_zero(model::narrow(v, dim, start, len), f),
        model::narrow(v, dim, start, len).wf(),
{
    reveal(model::narrow);
    let w = model::narrow(v, dim, start, len);
    assert forall|j: int| 0 <= j < w.cells.len() implies value(#[trigger] w.cells[j], f) == 0real by {
        lemmas::lemma_unravel(w.dims, j);
        let o = model::unravel(w.dims, j);
        let source = o.update(dim, o[dim] + start);
        assert forall|k: int| 0 <= k < v.dims.len() implies 0 <= #[trigger] source[k] < v.dims[k] by {
            assert(0 <= o[k] < w.dims[k]);
        }
        lemmas::lemma_ravel(v.dims, source);
    }
}

/// A convolution with a kernel of zeros and without bias gives zeros.
pub proof fn lemma_zero_conv2d(
    x: TensorView,
    w: TensorView,
    padding: nat,
    stride: nat,
    dilation: nat,
    groups: nat,
    f: Functions,
)
    requires
        w.wf(),
        w.rank() == 4,
        all_zero(w, f),
    ensures
        all_zero(model::conv2d(x, w, None, padding, stride, dilation, groups), f),
        model::conv2d(x, w, None, padding, stride, dilation, groups).wf(),
{
    reveal(model::conv2d);
    let t = model::conv2d(x, w, None, padding, stride, dilation, groups);
    let kernel = Kernel::Conv2d { padding, stride, dilation, groups };
    let args = seq![x, w];
    let h = model::windows(x.dims[2], w.dims[2], padding, stride, dilation);
    let n = model::windows(x.dims[3], w.dims[3], padding, stride, dilation);
    let d: Seq<nat> = seq![x.dims[0], w.dims[0], h, n];
    assert forall|i: int| 0 <= i < t.cells.len() implies value(#[trigger] t.cells[i], f) == 0real by {
        lemma_out(kernel, args, i, f);
        let r = read_all(args, f);
        assert(r[0] == read(args[0], f) && r[1] == read(args[1], f));
        let o = model::unravel(d, i);
        lemmas::lemma_unravel(d, i);
        assert(0 <= o[1] < d[1]);
        let first = o[1] / (w.dims[0] as int / groups as int) * w.dims[1];
        let at = |c: int, j: int, k: int|
            or_zero(
                r[0],
                seq![
                    o[0],
                    first + c,
                    o[2] * stride + j * dilation - padding,
                    o[3] * stride + k * dilation - padding,
                ],
            );
        let g = |c: int|
            sum_to(
                w.dims[2] as int,
                |j: int|
                    sum_to(
                        w.dims[3] as int,
                        |k: int|
                            or_zero(
                                r[0],
                                seq![
                                    o[0],
                                    first + c,
                                    o[2] * stride + j * dilation - padding,
                                    o[3] * stride + k * dilation - padding,
                                ],
                            ) * r[1].at(seq![o[1], c, j, k]),
                    ),
            );
        assert forall|c: int| 0 <= c < w.dims[1] implies #[trigger] g(c) == 0real by {
            let line = |j: int|
                sum_to(
                    w.dims[3] as int,
                    |k: int|
                        or_zero(
                            r[0],
                            seq![
                                o[0],
                                first + c,
                                o[2] * stride + j * dilation - padding,
                                o[3] * stride + k * dilation - padding,
                            ],
                        ) * r[1].at(seq![o[1], c, j, k]),
                );
            assert forall|j: int| 0 <= j < w.dims[2] implies #[trigger] line(j) == 0real by {
                let one = |k: int|
                    or_zero(
                        r[0],
                        seq![
                            o[0],
                            first + c,
                            o[2] * stride + j * dilation - padding,
                            o[3] * stride + k * dilation - padding,
                        ],
                    ) * r[1].at(seq![o[1], c, j, k]);
                assert forall|k: int| 0 <= k < w.dims[3] implies #[trigger] one(k) == 0real by {
                    let p = seq![o[1], c, j, k];
                    assert(model::in_bounds(w.dims, p));
                    lemmas::lemma_ravel(w.dims, p);
                    read_at(w, p, f);
                    let y = at(c, j, k);
                    assert(y * 0real == 0real) by (nonlinear_arith);
                }
                lemma_sum_zero(w.dims[3] as int, one);
            }
            lemma_sum_zero(w.dims[2] as int, line);
        }
        lemma_sum_zero(w.dims[1] as int, g);
        assert(kernel_value(kernel, r, i, f) == sum_to(w.dims[1] as int, g) + bias_at(r, o[1]));
    }
}

// Multiples.

/// Whether every element of `u` is `c` times that of `t`.
pub open spec fn multiple(t: TensorView, u: TensorView, c: real, f: Functions) -> bool {
    &&& t.wf() && u.wf() && t.dims == u.dims && t.dtype == u.dtype
    &&& forall|j: int| 0 <= j < t.cells.len() ==> value(#[trigger] u.cells[j], f) == c * value(t.cells[j], f)
}

/// An element of a multiple.
pub proof fn lemma_multiple_at(t: TensorView, u: TensorView, c: real, idx: Seq<int>, f: Functions)
    requires
        multiple(t, u, c, f),
        model::in_bounds(t.dims, idx),
    ensures
        value(u.at(idx), f) == c * value(t.at(idx), f),
{
    lemmas::lemma_ravel(t.dims, idx);
}

pub proof fn lemma_multiple_narrow(t: TensorView, u: TensorView, c: real, dim: int, start: nat, len: nat, f: Functions)
    requires
        multiple(t, u, c, f),
        0 <= dim < t.rank(),
        start + len <= t.dims[dim],
    ensures
        multiple(model::narrow(t, dim, start, len), model::narrow(u, dim, start, len), c, f),
{
    reveal(model::narrow);
    let (v, w) = (model::narrow(t, dim, start, len), model::narrow(u, dim, start, len));
    assert forall|j: int| 0 <= j < v.cells.len() implies value(#[trigger] w.cells[j], f) == c * value(v.cells[j], f) by {
        lemmas::lemma_unravel(w.dims, j);
        let o = model::unravel(w.dims, j);
        let source = o.update(dim, o[dim] + start);
        assert forall|k: int| 0 <= k < t.dims.len() implies 0 <= #[trigger] source[k] < t.dims[k] by {
            assert(0 <= o[k] < w.dims[k]);
        }
        lemma_multiple_at(t, u, c, source, f);
    }
}

pub proof fn lemma_multiple_cat2(
    a: TensorView,
    b: TensorView,
    p: TensorView,
    q: TensorView,
    dim: int,
    c: real,
    f: Functions,
)
    requires
        multiple(a, p, c, f) && multiple(b, q, c, f),
        0 <= dim < a.rank(),
        b.dims == a.dims.update(dim, b.dims[dim]),
    ensures
        multiple(model::cat2(a, b, dim), model::cat2(p, q, dim), c, f),
{
    reveal(model::cat2);
    let (v, w) = (model::cat2(a, b, dim), model::cat2(p, q, dim));
    assert forall|j: int| 0 <= j < v.cells.len() implies value(#[trigger] w.cells[j], f) == c * value(v.cells[j], f) by {
        lemmas::lemma_unravel(w.dims, j);
        let o = model::unravel(w.dims, j);
        if o[dim] < a.dims[dim] {
            assert forall|k: int| 0 <= k < a.dims.len() implies 0 <= #[trigger] o[k] < a.dims[k] by {
                assert(0 <= o[k] < w.dims[k]);
            }
            lemma_multiple_at(a, p, c, o, f);
        } else {
            let source = o.update(dim, o[dim] - a.dims[dim]);
            assert forall|k: int| 0 <= k < b.dims.len() implies 0 <= #[trigger] source[k] < b.dims[k] by {
                assert(0 <= o[k] < w.dims[k]);
            }
            lemma_multiple_at(b, q, c, source, f);
        }
    }
}

pub proof fn lemma_multiple_cat(ps: Seq<TensorView>, qs: Seq<TensorView>, dim: int, c: real, f: Functions)
    requires
        ps.len() == qs.len() && ps.len() > 0,
        0 <= dim < ps[0].rank(),
        forall|i: int| 0 <= i < ps.len() ==> multiple(#[trigger] ps[i], qs[i], c, f),
        forall|i: int|
            0 <= i < ps.len() ==> (#[trigger] ps[i]).dims == ps[0].dims.update(dim, ps[i].dims[dim]),
    ensures
        multiple(model::cat(ps, dim), model::cat(qs, dim), c, f),
        model::cat(ps, dim).dims == ps[0].dims.update(dim, model::cat(ps, dim).dims[dim]),
    decreases ps.len(),
{
    assert(multiple(ps[0], qs[0], c, f));
    if ps.len() > 1 {
        let (a, b) = (ps.drop_last(), qs.drop_last());
        assert forall|i: int| 0 <= i < a.len() implies multiple(#[trigger] a[i], b[i], c, f) && a[i].dims == a[0].dims.update(
            dim,
            a[i].dims[dim],
        ) by {
            assert(multiple(ps[i], qs[i], c, f));
            assert(ps[i].dims == ps[0].dims.update(dim, ps[i].dims[dim]));
        }
        lemma_multiple_cat(a, b, dim, c, f);
        let n = ps.len() - 1;
        assert(multiple(ps[n], qs[n], c, f));
        assert(ps[n].dims == ps[0].dims.update(dim, ps[n].dims[dim]));
        assert(ps[n].dims =~= model::cat(a, dim).dims.update(dim, ps[n].dims[dim]));
        lemma_multiple_cat2(model::cat(a, dim), ps[n], model::cat(b, dim), qs[n], dim, c, f);
        reveal(model::cat2);
        assert(model::cat(ps, dim).dims =~= ps[0].dims.update(dim, model::cat(ps, dim).dims[dim]));
    } else {
        assert(ps[0].dims.update(dim, ps[0].dims[dim]) =~= ps[0].dims);
    }
}

/// A transposed convolution without bias is linear in what it is computed from.
pub proof fn lemma_multiple_conv_transpose1d(
    x: TensorView,
    y: TensorView,
    w: TensorView,
    padding: nat,
    stride: nat,
    c: real,
    f: Functions,
)
    requires
        multiple(x, y, c, f),
        x.rank() == 3 && w.rank() == 3 && w.wf(),
        x.dims[1] == w.dims[0],
    ensures
        multiple(
            model::conv_transpose1d(x, w, None, padding, stride),
            model::conv_transpose1d(y, w, None, padding, stride),
            c,
            f,
        ),
{
    reveal(model::conv_transpose1d);
    let (t, u) = (
        model::conv_transpose1d(x, w, None, padding, stride),
        model::conv_transpose1d(y, w, None, padding, stride),
    );
    let kernel = Kernel::ConvTranspose1d { padding, stride };
    let (ax, ay) = (seq![x, w], seq![y, w]);
    let n = model::spread(x.dims[2], w.dims[2], padding, stride) as nat;
    let d: Seq<nat> = seq![x.dims[0], w.dims[1], n];
    assert forall|i: int| 0 <= i < t.cells.len() implies value(#[trigger] u.cells[i], f) == c * value(t.cells[i], f) by {
        lemma_out(kernel, ax, i, f);
        lemma_out(kernel, ay, i, f);
        let (r, q) = (read_all(ax, f), read_all(ay, f));
        assert(r[0] == read(ax[0], f) && r[1] == read(ax[1], f));
        assert(q[0] == read(ay[0], f) && q[1] == read(ay[1], f));
        let o = model::unravel(d, i);
        lemmas::lemma_unravel(d, i);
        assert(0 <= o[0] < d[0]);
        let g = |ch: int|
            sum_to(
                x.dims[2] as int,
                |s: int| r[0].at(seq![o[0], ch, s]) * or_zero(r[1], seq![ch, o[1], o[2] + padding - s * stride]),
            );
        let h = |ch: int|
            sum_to(
                x.dims[2] as int,
                |s: int| q[0].at(seq![o[0], ch, s]) * or_zero(q[1], seq![ch, o[1], o[2] + padding - s * stride]),
            );
        assert forall|ch: int| 0 <= ch < w.dims[0] implies #[trigger] h(ch) == c * g(ch) by {
            let g1 = |s: int| r[0].at(seq![o[0], ch, s]) * or_zero(r[1], seq![ch, o[1], o[2] + padding - s * stride]);
            let h1 = |s: int| q[0].at(seq![o[0], ch, s]) * or_zero(q[1], seq![ch, o[1], o[2] + padding - s * stride]);
            assert forall|s: int| 0 <= s < x.dims[2] implies #[trigger] h1(s) == c * g1(s) by {
                let p = seq![o[0], ch, s];
                assert(model::in_bounds(x.dims, p));
                read_at(x, p, f);
                read_at(y, p, f);
                lemma_multiple_at(x, y, c, p, f);
                let (v, k) = (value(x.at(p), f), or_zero(r[1], seq![ch, o[1], o[2] + padding - s * stride]));
                assert((c * v) * k == c * (v * k)) by (nonlinear_arith);
            }
            lemma_sum_scale(x.dims[2] as int, g1, h1, c);
        }
        lemma_sum_scale(w.dims[0] as int, g, h, c);
        assert(kernel_value(kernel, r, i, f) == sum_to(w.dims[0] as int, g) + bias_at(r, o[1]));
        assert(kernel_value(kernel, q, i, f) == sum_to(w.dims[0] as int, h) + bias_at(q, o[1]));
    }
}

/// The sum of a list.
pub proof fn lemma_sum_at(v: TensorView, f: Functions)
    requires
        v.wf(),
        v.rank() == 1,
    ensures
        model::sum(v, seq![0int]).dims == Seq::<nat>::empty(),
        model::sum(v, seq![0int]).wf(),
        model::sum(v, seq![0int]).dtype == v.dtype,
        value(model::sum(v, seq![0int]).cells[0], f) == sum_to(v.dims[0] as int, |k: int| value(v.cells[k], f)),
{
    reveal(model::sum);
    let axes = seq![0int];
    assert(axes.drop_last() =~= Seq::<int>::empty());
    assert(model::without(v.dims.remove(0), axes.drop_last()) == v.dims.remove(0));
    assert(v.dims.remove(0) =~= Seq::<nat>::empty());
    let args = seq![v];
    lemma_out(Kernel::Sum { axes }, args, 0, f);
    let r = read_all(args, f);
    assert(r[0] == read(args[0], f));
    let o = model::unravel(v.dims.remove(0), 0);
    assert(o =~= Seq::<int>::empty());
    let g = |k: int| r[0].at(o.insert(axes[0], k));
    let h = |k: int| value(v.cells[k], f);
    let n = v.dims[0];
    assert(v.dims =~= seq![n]);
    lemmas::lemma_numel1(n);
    assert forall|k: int| 0 <= k < n implies #[trigger] g(k) == h(k) by {
        let p = o.insert(0, k);
        assert(p =~= seq![k]);
        assert(model::in_bounds(v.dims, p));
        read_at(v, p, f);
        lemma_ravel1(n, k);
    }
    lemma_sum_ext(n as int, g, h);
}

pub proof fn lemma_ravel1(n: nat, k: int)
    ensures
        model::ravel(seq![n], seq![k]) == k,
{
    assert(seq![n].drop_last() =~= Seq::<nat>::empty());
    assert(model::ravel(Seq::<nat>::empty(), seq![k].drop_last()) == 0);
    assert(seq![n].last() == n && seq![k].last() == k);
}

pub broadcast group group_reading {
    value_unary,
    value_binary,
    value_relation,
    value_cast,
    value_affine,
    value_real,
    value_int,
    value_select,
    read_cast,
    read_unary,
    read_affine,
    read_number,
    read_count,
    binary_shape,
    same_shape,
    number_shape,
    number_shape_first,
    read_pair,
    read_with_number,
}

} // verus!
