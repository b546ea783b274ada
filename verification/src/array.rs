//! Tensors of candle behind contracts over their [`TensorView`].
use vstd::prelude::*;

use crate::error::Failure;
use crate::model::{self, Dtype, TensorView};
use crate::scalar::Scalar;

pub use arith::{common_shape, same_sizes};
pub use kernels::window_count;

mod arith;
pub mod kernels;
mod make;

verus! {

#[verifier::external_type_specification]
#[verifier::external_body]
pub struct ExCandleTensor(candle_core::Tensor);

#[verifier::external_type_specification]
#[verifier::external_body]
pub struct ExCandleDevice(candle_core::Device);

#[verifier::external_type_specification]
#[verifier::external_body]
pub struct ExCandleDtype(candle_core::DType);

/// What a candle tensor holds.
pub uninterp spec fn contents(t: candle_core::Tensor) -> TensorView;

/// Whether a candle tensor is stored in main memory.
pub uninterp spec fn in_main_memory(t: candle_core::Tensor) -> bool;

/// Whether the strides of a candle tensor (`Tensor::stride`) are those of its shape in
/// row-major order.
pub uninterp spec fn in_row_major_order(t: candle_core::Tensor) -> bool;

/// Whether a candle device is main memory.
pub uninterp spec fn is_main_memory(d: candle_core::Device) -> bool;

/// The integers that this tensor holds along its axis.
pub uninterp spec fn integers_in(t: candle_core::Tensor) -> Seq<i64>;

/// The bytes that this tensor holds along its axis.
pub uninterp spec fn bytes_in(t: candle_core::Tensor) -> Seq<u8>;

/// The eight bytes of the single binary64 number that this tensor holds, the lowest first.
pub uninterp spec fn number_in(t: candle_core::Tensor) -> Seq<u8>;

/// `Tensor::clone` of candle shares the storage: the clone holds what the
/// tensor holds, in the same place.
pub assume_specification[ <candle_core::Tensor as std::clone::Clone>::clone ](
    t: &candle_core::Tensor,
) -> (r: candle_core::Tensor)
    ensures
        contents(r) == contents(*t),
        in_main_memory(r) == in_main_memory(*t),
;

/// `Tensor::to_vec1` of candle on integers along one axis, which does not fail in main
/// memory. What is read is what the tensor holds, which the name stands for. An element that is
/// known to be an integer is read as it.
#[verifier::external_body]
fn tensor_integers(t: &candle_core::Tensor) -> (r: Result<Vec<i64>, Failure>)
    ensures
        r matches Err(e) ==> e.basic(),
        r matches Ok(v) ==> v@ == integers_in(*t),
        r matches Ok(v) ==> contents(*t).rank() == 1 && v@.len() == contents(*t).dims[0],
        r matches Ok(v) ==> forall|i: int|
            0 <= i < v@.len() && contents(*t).cells[i] is Int ==> #[trigger] v@[i] == contents(*t).cells[i]->Int_0,
        in_main_memory(*t) && contents(*t).rank() == 1 && contents(*t).dtype == Dtype::I64 ==> r is Ok,
{
    t.to_vec1().map_err(Failure::Candle)
}

/// `Tensor::to_vec1` of candle on bytes along one axis, which does not fail in main memory.
/// What is read is what the tensor holds, which the name stands for.
#[verifier::external_body]
fn tensor_bytes(t: &candle_core::Tensor) -> (r: Result<Vec<u8>, Failure>)
    ensures
        r matches Err(e) ==> e.basic(),
        r matches Ok(v) ==> v@ == bytes_in(*t),
        r matches Ok(v) ==> contents(*t).rank() == 1 && v@.len() == contents(*t).dims[0],
        in_main_memory(*t) && contents(*t).rank() == 1 && contents(*t).dtype == Dtype::U8 ==> r is Ok,
{
    t.to_vec1().map_err(Failure::Candle)
}

/// `Tensor::write_bytes` of candle on a single binary64 number: its eight bytes, the lowest first.
/// What is written is what the tensor holds, which the name stands for. In main memory it does not
/// fail.
#[verifier::external_body]
fn tensor_number(t: &candle_core::Tensor) -> (r: Result<Vec<u8>, Failure>)
    requires
        contents(*t).rank() == 0,
        contents(*t).dtype == Dtype::F64,
    ensures
        r matches Err(e) ==> e.basic(),
        r matches Ok(v) ==> v@ == number_in(*t) && v@.len() == 8,
        in_main_memory(*t) ==> r is Ok,
{
    let mut bytes: Vec<u8> = Vec::new();
    t.write_bytes(&mut bytes).map_err(Failure::Candle)?;
    Ok(bytes)
}

/// `Tensor::dims` of candle: the size of each axis. The tensor has one element
/// for each position of that shape.
#[verifier::external_body]
fn tensor_dims(t: &candle_core::Tensor) -> (r: Vec<usize>)
    ensures
        model::nats(r@) == contents(*t).dims,
        model::numel(model::nats(r@)) == contents(*t).cells.len(),
{
    t.dims().to_vec()
}

/// `Tensor::dtype` of candle: the element type.
#[verifier::external_body]
fn tensor_dtype(t: &candle_core::Tensor) -> (r: Dtype)
    ensures
        r == contents(*t).dtype,
{
    match t.dtype() {
        candle_core::DType::U8 => Dtype::U8, candle_core::DType::U32 => Dtype::U32,
        candle_core::DType::I16 => Dtype::I16, candle_core::DType::I32 => Dtype::I32,
        candle_core::DType::I64 => Dtype::I64, candle_core::DType::BF16 => Dtype::BF16,
        candle_core::DType::F16 => Dtype::F16, candle_core::DType::F32 => Dtype::F32,
        candle_core::DType::F64 => Dtype::F64, candle_core::DType::F8E4M3 => Dtype::F8E4M3,
        candle_core::DType::F6E2M3 => Dtype::F6E2M3, candle_core::DType::F6E3M2 => Dtype::F6E3M2,
        candle_core::DType::F4 => Dtype::F4, candle_core::DType::F8E8M0 => Dtype::F8E8M0,
    }
}

/// `Device::is_cpu` of candle on the device of a tensor.
#[verifier::external_body]
fn tensor_is_cpu(t: &candle_core::Tensor) -> (r: bool)
    ensures
        r == in_main_memory(*t),
{
    t.device().is_cpu()
}

/// Candle's `DType` of the same name.
#[verifier::external_body]
pub(crate) fn candle_dtype(d: Dtype) -> candle_core::DType {
    match d {
        Dtype::U8 => candle_core::DType::U8, Dtype::U32 => candle_core::DType::U32,
        Dtype::I16 => candle_core::DType::I16, Dtype::I32 => candle_core::DType::I32,
        Dtype::I64 => candle_core::DType::I64, Dtype::BF16 => candle_core::DType::BF16,
        Dtype::F16 => candle_core::DType::F16, Dtype::F32 => candle_core::DType::F32,
        Dtype::F64 => candle_core::DType::F64, Dtype::F8E4M3 => candle_core::DType::F8E4M3,
        Dtype::F6E2M3 => candle_core::DType::F6E2M3, Dtype::F6E3M2 => candle_core::DType::F6E3M2,
        Dtype::F4 => candle_core::DType::F4, Dtype::F8E8M0 => candle_core::DType::F8E8M0,
    }
}

/// `Device::Cpu` of candle: main memory.
#[verifier::external_body]
pub(crate) fn main_memory() -> (r: candle_core::Device)
    ensures
        is_main_memory(r),
{
    candle_core::Device::Cpu
}

/// A candle tensor whose shape can be addressed.
pub struct Array {
    inner: candle_core::Tensor,
}

impl View for Array {
    type V = TensorView;

    closed spec fn view(&self) -> TensorView {
        contents(self.inner)
    }
}

impl Clone for Array {
    fn clone(&self) -> (r: Self)
        ensures
            r@ == self@,
            r.on_cpu() == self.on_cpu(),
    {
        proof {
            use_type_invariant(self);
        }
        Array { inner: self.inner.clone() }
    }
}

/// The contents of several arrays.
pub open spec fn views(arrays: Seq<Array>) -> Seq<TensorView> {
    arrays.map_values(|a: Array| a@)
}

/// The contents of an optional array.
pub open spec fn opt_view(a: Option<Array>) -> Option<TensorView> {
    match a {
        Some(a) => Some(a@),
        None => None,
    }
}

/// An optional array, borrowed.
pub open spec fn lent(a: &Option<Array>) -> Option<&Array> {
    match a {
        Some(a) => Some(a),
        None => None,
    }
}

/// The contents of an optional borrowed array.
pub open spec fn opt_ref_view(a: Option<&Array>) -> Option<TensorView> {
    match a {
        Some(a) => Some(a@),
        None => None,
    }
}

proof fn lemma_extent_positive(s: Seq<nat>)
    ensures
        model::extent(s) >= 1,
    decreases s.len(),
{
    if s.len() > 0 {
        lemma_extent_positive(s.drop_last());
        let e = model::extent(s.drop_last());
        let l: nat = if s.last() == 0 { 1 } else { s.last() };
        assert(e * l >= 1) by (nonlinear_arith)
            requires
                e >= 1,
                l >= 1,
        ;
    }
}

proof fn lemma_extent_prefix(s: Seq<nat>, i: int)
    requires
        0 <= i <= s.len(),
    ensures
        model::extent(s.take(i)) <= model::extent(s),
    decreases s.len(),
{
    if i == s.len() {
        assert(s.take(i) =~= s);
    } else {
        lemma_extent_prefix(s.drop_last(), i);
        assert(s.drop_last().take(i) =~= s.take(i));
        let e = model::extent(s.drop_last());
        let l: nat = if s.last() == 0 { 1 } else { s.last() };
        assert(e * l >= e) by (nonlinear_arith)
            requires
                l >= 1,
        ;
    }
}

proof fn lemma_numel_extent(s: Seq<nat>)
    ensures
        model::numel(s) <= model::extent(s),
    decreases s.len(),
{
    if s.len() > 0 {
        lemma_numel_extent(s.drop_last());
        let a = model::numel(s.drop_last());
        let b = model::extent(s.drop_last());
        let l: nat = if s.last() == 0 { 1 } else { s.last() };
        assert(a * s.last() <= b * l) by (nonlinear_arith)
            requires
                a <= b,
                s.last() <= l,
        ;
    }
}

/// No axis is longer than the whole shape.
pub(crate) proof fn lemma_axis_extent(s: Seq<nat>, i: int)
    requires
        0 <= i < s.len(),
    ensures
        s[i] <= model::extent(s),
{
    lemma_extent_prefix(s, i + 1);
    let head = s.take(i + 1);
    lemma_extent_positive(head.drop_last());
    let e = model::extent(head.drop_last());
    let l: nat = if s[i] == 0 { 1 } else { s[i] };
    assert(e * l >= l) by (nonlinear_arith)
        requires
            e >= 1,
    ;
}

/// All elements of a shape that can be addressed can be addressed along one axis.
pub(crate) proof fn lemma_flat_fits(s: Seq<nat>)
    requires
        model::fits(s),
    ensures
        model::fits(seq![model::numel(s)]),
{
    lemma_numel_extent(s);
    lemma_extent_positive(s);
    crate::lemmas::lemma_extent1(model::numel(s));
}

/// Whether a tensor of this shape can be addressed.
pub fn addressable(dims: &Vec<usize>) -> (r: bool)
    ensures
        r == model::fits(model::nats(dims@)),
{
    let limit: usize = (isize::MAX as usize) / 8;
    let ghost s = model::nats(dims@);
    let mut acc: usize = 1;
    let mut i: usize = 0;
    assert(s.take(0) =~= Seq::<nat>::empty());
    while i < dims.len()
        invariant
            i <= dims.len(),
            s == model::nats(dims@),
            limit == isize::MAX / 8,
            acc == model::extent(s.take(i as int)),
            acc <= limit || i == 0,
            1 <= acc,
        decreases dims.len() - i,
    {
        let d: usize = if dims[i] == 0 { 1 } else { dims[i] };
        proof {
            assert(s.take(i + 1).drop_last() =~= s.take(i as int));
            assert(s.take(i + 1).last() == dims[i as int] as nat);
            lemma_extent_prefix(s, i + 1);
            assert(model::extent(s.take(i + 1)) == acc * d);
        }
        match acc.checked_mul(d) {
            Some(p) => {
                if p > limit {
                    return false;
                }
                proof {
                    lemma_extent_positive(s.take(i + 1));
                }
                acc = p;
            },
            None => {
                return false;
            },
        }
        i = i + 1;
    }
    assert(s.take(i as int) =~= s);
    true
}

/// The number of elements of a tensor of this shape.
pub(crate) fn element_count(dims: &Vec<usize>) -> (r: usize)
    requires
        model::fits(model::nats(dims@)),
    ensures
        r == model::numel(model::nats(dims@)),
{
    let ghost s = model::nats(dims@);
    let mut n: usize = 1;
    let mut i: usize = 0;
    assert(s.take(0) =~= Seq::<nat>::empty());
    while i < dims.len()
        invariant
            i <= dims.len(),
            s == model::nats(dims@),
            model::fits(s),
            n == model::numel(s.take(i as int)),
        decreases dims.len() - i,
    {
        proof {
            assert(s.take(i + 1).drop_last() =~= s.take(i as int));
            lemma_numel_extent(s.take(i + 1));
            lemma_extent_prefix(s, i + 1);
        }
        n = n * dims[i];
        i = i + 1;
    }
    assert(s.take(i as int) =~= s);
    n
}

impl Array {
    #[verifier::type_invariant]
    spec fn inv(self) -> bool {
        &&& model::fits(contents(self.inner).dims)
        &&& contents(self.inner).wf()
    }

    /// Reads the integers along the axis.
    pub fn to_integers(&self) -> (r: Result<Vec<i64>, Failure>)
        ensures
            r matches Err(e) ==> e.basic(),
            r matches Ok(v) ==> v@ == self.held_integers(),
            r matches Ok(v) ==> self@.rank() == 1 && v@.len() == self@.dims[0],
            r matches Ok(v) ==> forall|i: int|
                0 <= i < v@.len() && self@.cells[i] is Int ==> #[trigger] v@[i] == self@.cells[i]->Int_0,
            self.on_cpu() && self@.rank() == 1 && self@.dtype == Dtype::I64 ==> r is Ok,
    {
        tensor_integers(&self.inner)
    }

    /// Reads the bytes along the axis.
    pub fn to_bytes(&self) -> (r: Result<Vec<u8>, Failure>)
        ensures
            r matches Err(e) ==> e.basic(),
            r matches Ok(v) ==> v@ == self.held_bytes(),
            r matches Ok(v) ==> self@.rank() == 1 && v@.len() == self@.dims[0],
            self.on_cpu() && self@.rank() == 1 && self@.dtype == Dtype::U8 ==> r is Ok,
    {
        tensor_bytes(&self.inner)
    }

    /// Reads a single binary64 number.
    pub fn to_number(&self) -> (r: Result<Scalar, Failure>)
        ensures
            r matches Err(e) ==> e.basic(),
            r matches Ok(m) ==> m == self.held_number() && can_read(self@, m),
            self.single() ==> r is Ok,
    {
        if self.rank() != 0 {
            return Err(Failure::Shape);
        }
        if !matches!(self.dtype(), Dtype::F64) {
            return Err(Failure::Dtype);
        }
        let b = tensor_number(&self.inner)?;
        let low: u64 = b[0] as u64 + b[1] as u64 * 0x100 + b[2] as u64 * 0x1_0000 + b[3] as u64 * 0x100_0000;
        let high: u64 = b[4] as u64 + b[5] as u64 * 0x100 + b[6] as u64 * 0x1_0000 + b[7] as u64 * 0x100_0000;
        let number: Scalar = low + high * 0x1_0000_0000;
        assert(number == little_endian(b@));
        assert(self.held_number() == number);
        Ok(number)
    }

    /// The single binary64 number that this holds.
    pub closed spec fn held_number(&self) -> Scalar {
        little_endian(number_in(self.inner)) as u64
    }

    /// The integers that this holds along its axis.
    pub closed spec fn held_integers(&self) -> Seq<i64> {
        integers_in(self.inner)
    }

    /// The bytes that this holds along its axis.
    pub closed spec fn held_bytes(&self) -> Seq<u8> {
        bytes_in(self.inner)
    }

    /// Whether the array is stored in main memory.
    pub closed spec fn on_cpu(&self) -> bool {
        in_main_memory(self.inner)
    }

    /// Whether the elements are stored in row-major order.
    pub closed spec fn in_order(&self) -> bool {
        in_row_major_order(self.inner)
    }

    /// Takes a candle tensor; fails where its shape is too large to be addressed.
    pub fn new(inner: candle_core::Tensor) -> (r: Result<Array, Failure>)
        ensures
            r matches Err(e) ==> e.basic(),
            model::fits(contents(inner).dims) ==> (r matches Ok(a) && a@ == contents(inner) && a.on_cpu()
                == in_main_memory(inner)),
            !model::fits(contents(inner).dims) ==> r == Err::<Array, Failure>(Failure::Overflow),
    {
        let dims = tensor_dims(&inner);
        if addressable(&dims) {
            Ok(Array { inner })
        } else {
            Err(Failure::Overflow)
        }
    }

    /// The candle tensor.
    pub fn tensor(&self) -> (r: &candle_core::Tensor)
        ensures
            contents(*r) == self@,
    {
        &self.inner
    }

    /// Every array has one element for each position of its shape.
    pub fn dims(&self) -> (r: Vec<usize>)
        ensures
            model::nats(r@) == self@.dims,
            r.len() == self@.rank(),
            self@.wf(),
            model::fits(self@.dims),
    {
        proof {
            use_type_invariant(self);
        }
        let r = tensor_dims(&self.inner);
        assert(model::nats(r@).len() == r.len());
        r
    }

    pub fn dtype(&self) -> (r: Dtype)
        ensures
            r == self@.dtype,
    {
        tensor_dtype(&self.inner)
    }

    pub fn is_cpu(&self) -> (r: bool)
        ensures
            r == self.on_cpu(),
    {
        tensor_is_cpu(&self.inner)
    }

    /// `Tensor::device` of candle: where the tensor is stored.
    #[verifier::external_body]
    pub(crate) fn device(&self) -> (r: candle_core::Device)
        ensures
            is_main_memory(r) == self.on_cpu(),
    {
        self.inner.device().clone()
    }

    pub fn rank(&self) -> (r: usize)
        ensures
            r == self@.rank(),
    {
        self.dims().len()
    }

    /// The number of elements.
    pub fn elem_count(&self) -> (r: usize)
        ensures
            r == model::numel(self@.dims),
    {
        element_count(&self.dims())
    }

    /// The size of axis `i`.
    pub fn dim(&self, i: usize) -> (r: Result<usize, Failure>)
        ensures
            r matches Err(e) ==> e.basic(),
            i < self@.rank() ==> (r matches Ok(d) && d == self@.dims[i as int] && d <= isize::MAX),
            i >= self@.rank() ==> r == Err::<usize, Failure>(Failure::Shape),
    {
        let d = self.dims();
        if i < d.len() {
            assert(model::nats(d@)[i as int] == d[i as int]);
            proof {
                lemma_axis_extent(self@.dims, i as int);
            }
            Ok(d[i])
        } else {
            Err(Failure::Shape)
        }
    }

    /// The sizes of an array with two axes.
    pub fn dims2(&self) -> (r: Result<(usize, usize), Failure>)
        ensures
            r matches Err(e) ==> e.basic(),
            self@.rank() == 2 ==> (r matches Ok(d) && self@.dims == seq![d.0 as nat, d.1 as nat]),
            self@.rank() != 2 ==> (r matches Err(e) && e == (Failure::Rank {
                expected: 2,
                got: self@.rank() as usize,
            })),
            model::fits(self@.dims),
            self@.wf(),
    {
        let d = self.dims();
        if d.len() == 2 {
            let r: (usize, usize) = (d[0], d[1]);
            assert(self@.dims =~= seq![r.0 as nat, r.1 as nat]);
            Ok(r)
        } else {
            Err(Failure::Rank { expected: 2, got: d.len() })
        }
    }

    /// The sizes of an array with three axes.
    pub fn dims3(&self) -> (r: Result<(usize, usize, usize), Failure>)
        ensures
            r matches Err(e) ==> e.basic(),
            self@.rank() == 3 ==> (r matches Ok(d) && self@.dims == seq![d.0 as nat, d.1 as nat, d.2 as nat]),
            self@.rank() != 3 ==> (r matches Err(e) && e == (Failure::Rank {
                expected: 3,
                got: self@.rank() as usize,
            })),
            model::fits(self@.dims),
            self@.wf(),
    {
        let d = self.dims();
        if d.len() == 3 {
            let r: (usize, usize, usize) = (d[0], d[1], d[2]);
            assert(self@.dims =~= seq![r.0 as nat, r.1 as nat, r.2 as nat]);
            Ok(r)
        } else {
            Err(Failure::Rank { expected: 3, got: d.len() })
        }
    }

    /// The sizes of an array with four axes.
    pub fn dims4(&self) -> (r: Result<(usize, usize, usize, usize), Failure>)
        ensures
            r matches Err(e) ==> e.basic(),
            self@.rank() == 4 ==> (r matches Ok(d) && self@.dims == seq![d.0 as nat, d.1 as nat, d.2 as nat, d.3 as nat]),
            self@.rank() != 4 ==> (r matches Err(e) && e == (Failure::Rank {
                expected: 4,
                got: self@.rank() as usize,
            })),
            model::fits(self@.dims),
            self@.wf(),
    {
        let d = self.dims();
        if d.len() == 4 {
            let r: (usize, usize, usize, usize) = (d[0], d[1], d[2], d[3]);
            assert(self@.dims =~= seq![r.0 as nat, r.1 as nat, r.2 as nat, r.3 as nat]);
            Ok(r)
        } else {
            Err(Failure::Rank { expected: 4, got: d.len() })
        }
    }

    /// The sizes of an array with five axes.
    pub fn dims5(&self) -> (r: Result<(usize, usize, usize, usize, usize), Failure>)
        ensures
            r matches Err(e) ==> e.basic(),
            self@.rank() == 5 ==> (r matches Ok(d) && self@.dims == seq![d.0 as nat, d.1 as nat, d.2 as nat, d.3 as nat, d.4 as nat]),
            self@.rank() != 5 ==> (r matches Err(e) && e == (Failure::Rank {
                expected: 5,
                got: self@.rank() as usize,
            })),
            model::fits(self@.dims),
            self@.wf(),
    {
        let d = self.dims();
        if d.len() == 5 {
            let r: (usize, usize, usize, usize, usize) = (d[0], d[1], d[2], d[3], d[4]);
            assert(self@.dims =~= seq![r.0 as nat, r.1 as nat, r.2 as nat, r.3 as nat, r.4 as nat]);
            Ok(r)
        } else {
            Err(Failure::Rank { expected: 5, got: d.len() })
        }
    }

    // Shape and placement.

    /// `Tensor::reshape` of candle: the same elements under another shape with
    /// as many elements, with the strides of that shape in row-major order. In main memory it
    /// does not fail.
    #[verifier::external_body]
    fn raw_reshape(&self, dims: &Vec<usize>) -> (r: Result<Array, Failure>)
        requires
            model::fits(model::nats(dims@)),
        ensures
            r matches Err(e) ==> e.basic(),
            r matches Ok(t) ==> t@ == model::reshape(self@, model::nats(dims@)) && t.on_cpu() == self.on_cpu(),
            r matches Ok(t) ==> in_row_major_order(t.inner),
            r is Ok ==> model::numel(model::nats(dims@)) == model::numel(self@.dims),
            self.on_cpu() && self@.dtype.plain() && model::numel(model::nats(dims@)) == model::numel(self@.dims)
                ==> r is Ok,
    {
        Ok(Array { inner: self.inner.reshape(dims.as_slice()).map_err(Failure::Candle)? })
    }

    /// The same elements under another shape.
    pub fn reshape(&self, dims: &Vec<usize>) -> (r: Result<Array, Failure>)
        ensures
            r matches Err(e) ==> e.basic(),
            r matches Ok(t) ==> t@ == model::reshape(self@, model::nats(dims@)) && t.on_cpu() == self.on_cpu(),
            r matches Ok(t) ==> t.in_order(),
            r is Ok ==> model::numel(model::nats(dims@)) == model::numel(self@.dims),
            self.on_cpu() && self@.dtype.plain() && model::fits(model::nats(dims@)) && model::numel(
                model::nats(dims@),
            ) == model::numel(self@.dims) ==> r is Ok,
    {
        if !addressable(dims) {
            return Err(Failure::Overflow);
        }
        self.raw_reshape(dims)
    }

    /// The same array, stored in row-major order.
    pub fn packed(&self) -> (r: Result<Array, Failure>)
        ensures
            r matches Err(e) ==> e.basic(),
            r matches Ok(t) ==> t@ == self@ && t.on_cpu() == self.on_cpu() && t.in_order(),
            self.on_cpu() && self@.dtype.plain() ==> r is Ok,
    {
        proof {
            use_type_invariant(self);
        }
        let dims = self.dims();
        self.reshape(&dims)
    }

    /// The same elements under a shape with one axis.
    pub fn reshape1(&self, d0: usize) -> (r: Result<Array, Failure>)
        ensures
            r matches Err(e) ==> e.basic(),
            r matches Ok(t) ==> t@ == model::reshape(self@, seq![d0 as nat]) && t.on_cpu() == self.on_cpu(),
            r is Ok ==> model::numel(seq![d0 as nat]) == model::numel(self@.dims),
            self.on_cpu() && self@.dtype.plain() && model::fits(seq![d0 as nat]) && model::numel(
                seq![d0 as nat],
            ) == model::numel(self@.dims) ==> r is Ok,
    {
        let v: Vec<usize> = vec![d0];
        assert(model::nats(v@) =~= seq![d0 as nat]);
        self.reshape(&v)
    }

    /// The same elements under a shape with two axes.
    pub fn reshape2(&self, d0: usize, d1: usize) -> (r: Result<Array, Failure>)
        ensures
            r matches Err(e) ==> e.basic(),
            r matches Ok(t) ==> t@ == model::reshape(self@, seq![d0 as nat, d1 as nat]) && t.on_cpu() == self.on_cpu(),
            r is Ok ==> model::numel(seq![d0 as nat, d1 as nat]) == model::numel(self@.dims),
            self.on_cpu() && self@.dtype.plain() && model::fits(seq![d0 as nat, d1 as nat]) && model::numel(
                seq![d0 as nat, d1 as nat],
            ) == model::numel(self@.dims) ==> r is Ok,
    {
        let v: Vec<usize> = vec![d0, d1];
        assert(model::nats(v@) =~= seq![d0 as nat, d1 as nat]);
        self.reshape(&v)
    }

    /// The same elements under a shape with three axes.
    pub fn reshape3(&self, d0: usize, d1: usize, d2: usize) -> (r: Result<Array, Failure>)
        ensures
            r matches Err(e) ==> e.basic(),
            r matches Ok(t) ==> t@ == model::reshape(self@, seq![d0 as nat, d1 as nat, d2 as nat]) && t.on_cpu() == self.on_cpu(),
            r is Ok ==> model::numel(seq![d0 as nat, d1 as nat, d2 as nat]) == model::numel(self@.dims),
            self.on_cpu() && self@.dtype.plain() && model::fits(seq![d0 as nat, d1 as nat, d2 as nat]) && model::numel(
                seq![d0 as nat, d1 as nat, d2 as nat],
            ) == model::numel(self@.dims) ==> r is Ok,
    {
        let v: Vec<usize> = vec![d0, d1, d2];
        assert(model::nats(v@) =~= seq![d0 as nat, d1 as nat, d2 as nat]);
        self.reshape(&v)
    }

    /// The same elements under a shape with four axes.
    pub fn reshape4(&self, d0: usize, d1: usize, d2: usize, d3: usize) -> (r: Result<Array, Failure>)
        ensures
            r matches Err(e) ==> e.basic(),
            r matches Ok(t) ==> t@ == model::reshape(self@, seq![d0 as nat, d1 as nat, d2 as nat, d3 as nat]) && t.on_cpu() == self.on_cpu(),
            r is Ok ==> model::numel(seq![d0 as nat, d1 as nat, d2 as nat, d3 as nat]) == model::numel(self@.dims),
            self.on_cpu() && self@.dtype.plain() && model::fits(seq![d0 as nat, d1 as nat, d2 as nat, d3 as nat]) && model::numel(
                seq![d0 as nat, d1 as nat, d2 as nat, d3 as nat],
            ) == model::numel(self@.dims) ==> r is Ok,
    {
        let v: Vec<usize> = vec![d0, d1, d2, d3];
        assert(model::nats(v@) =~= seq![d0 as nat, d1 as nat, d2 as nat, d3 as nat]);
        self.reshape(&v)
    }

    /// The same elements under a shape with five axes.
    pub fn reshape5(&self, d0: usize, d1: usize, d2: usize, d3: usize, d4: usize) -> (r: Result<Array, Failure>)
        ensures
            r matches Err(e) ==> e.basic(),
            r matches Ok(t) ==> t@ == model::reshape(self@, seq![d0 as nat, d1 as nat, d2 as nat, d3 as nat, d4 as nat]) && t.on_cpu() == self.on_cpu(),
            r is Ok ==> model::numel(seq![d0 as nat, d1 as nat, d2 as nat, d3 as nat, d4 as nat]) == model::numel(self@.dims),
            self.on_cpu() && self@.dtype.plain() && model::fits(seq![d0 as nat, d1 as nat, d2 as nat, d3 as nat, d4 as nat]) && model::numel(
                seq![d0 as nat, d1 as nat, d2 as nat, d3 as nat, d4 as nat],
            ) == model::numel(self@.dims) ==> r is Ok,
    {
        let v: Vec<usize> = vec![d0, d1, d2, d3, d4];
        assert(model::nats(v@) =~= seq![d0 as nat, d1 as nat, d2 as nat, d3 as nat, d4 as nat]);
        self.reshape(&v)
    }

    /// `Tensor::permute` of candle: axis `j` of the result is axis `p[j]`. Fails
    /// where `p` does not list each axis once, and on nothing else.
    #[verifier::external_body]
    pub(crate) fn permute(&self, p: &Vec<usize>) -> (r: Result<Array, Failure>)
        ensures
            r matches Err(e) ==> e.basic(),
            r matches Ok(t) ==> t@ == model::permute(self@, axes(p@)) && t.on_cpu() == self.on_cpu(),
            r is Ok <==> model::is_permutation(axes(p@), self@.rank()),
    {
        Ok(Array { inner: self.inner.permute(p.as_slice()).map_err(Failure::Candle)? })
    }

    /// Axis `j` of the result is axis `pj`, of three axes.
    pub fn permute3(&self, p0: usize, p1: usize, p2: usize) -> (r: Result<Array, Failure>)
        ensures
            r matches Err(e) ==> e.basic(),
            r matches Ok(t) ==> t@ == model::permute(self@, seq![p0 as int, p1 as int, p2 as int]) && t.on_cpu() == self.on_cpu(),
            r is Ok <==> model::is_permutation(seq![p0 as int, p1 as int, p2 as int], self@.rank()),
    {
        let p: Vec<usize> = vec![p0, p1, p2];
        assert(axes(p@) =~= seq![p0 as int, p1 as int, p2 as int]);
        self.permute(&p)
    }

    /// Axis `j` of the result is axis `pj`, of four axes.
    pub fn permute4(&self, p0: usize, p1: usize, p2: usize, p3: usize) -> (r: Result<Array, Failure>)
        ensures
            r matches Err(e) ==> e.basic(),
            r matches Ok(t) ==> t@ == model::permute(self@, seq![p0 as int, p1 as int, p2 as int, p3 as int]) && t.on_cpu() == self.on_cpu(),
            r is Ok <==> model::is_permutation(seq![p0 as int, p1 as int, p2 as int, p3 as int], self@.rank()),
    {
        let p: Vec<usize> = vec![p0, p1, p2, p3];
        assert(axes(p@) =~= seq![p0 as int, p1 as int, p2 as int, p3 as int]);
        self.permute(&p)
    }

    /// Axis `j` of the result is axis `pj`, of five axes.
    pub fn permute5(&self, p0: usize, p1: usize, p2: usize, p3: usize, p4: usize) -> (r: Result<Array, Failure>)
        ensures
            r matches Err(e) ==> e.basic(),
            r matches Ok(t) ==> t@ == model::permute(self@, seq![p0 as int, p1 as int, p2 as int, p3 as int, p4 as int]) && t.on_cpu() == self.on_cpu(),
            r is Ok <==> model::is_permutation(seq![p0 as int, p1 as int, p2 as int, p3 as int, p4 as int], self@.rank()),
    {
        let p: Vec<usize> = vec![p0, p1, p2, p3, p4];
        assert(axes(p@) =~= seq![p0 as int, p1 as int, p2 as int, p3 as int, p4 as int]);
        self.permute(&p)
    }

    /// `Tensor::transpose` of candle: axes `a` and `b` exchanged. Fails where
    /// there is no such axis, and on nothing else.
    #[verifier::external_body]
    pub(crate) fn transpose(&self, a: usize, b: usize) -> (r: Result<Array, Failure>)
        ensures
            r matches Err(e) ==> e.basic(),
            r matches Ok(t) ==> t@ == model::transpose(self@, a as int, b as int) && t.on_cpu() == self.on_cpu(),
            r is Ok <==> (self@.rank() > a && self@.rank() > b),
    {
        Ok(Array { inner: self.inner.transpose(a, b).map_err(Failure::Candle)? })
    }

    /// `Tensor::t` of candle: the last two axes exchanged. Fails where there are
    /// fewer than two axes, and on nothing else.
    #[verifier::external_body]
    pub(crate) fn t(&self) -> (r: Result<Array, Failure>)
        ensures
            r matches Err(e) ==> e.basic(),
            r matches Ok(t) ==> t@ == model::matrix_transpose(self@) && t.on_cpu() == self.on_cpu(),
            r is Ok <==> self@.rank() >= 2,
    {
        Ok(Array { inner: self.inner.t().map_err(Failure::Candle)? })
    }

    /// `Tensor::contiguous` of candle: the same tensor, stored in row-major order. In main
    /// memory it does not fail.
    #[verifier::external_body]
    pub(crate) fn contiguous(&self) -> (r: Result<Array, Failure>)
        ensures
            r matches Err(e) ==> e.basic(),
            r matches Ok(t) ==> t@ == self@ && t.on_cpu() == self.on_cpu(),
            self.on_cpu() && self@.dtype.plain() ==> r is Ok,
    {
        Ok(Array { inner: self.inner.contiguous().map_err(Failure::Candle)? })
    }

    /// `Tensor::to_device` of candle: the same tensor, stored elsewhere. From main memory to
    /// main memory it does not fail.
    #[verifier::external_body]
    pub(crate) fn to_device(&self, device: &candle_core::Device) -> (r: Result<Array, Failure>)
        ensures
            r matches Err(e) ==> e.basic(),
            r matches Ok(t) ==> t@ == self@ && t.on_cpu() == is_main_memory(*device),
            self.on_cpu() && is_main_memory(*device) ==> r is Ok,
    {
        Ok(Array { inner: self.inner.to_device(device).map_err(Failure::Candle)? })
    }

    /// `Tensor::to_dtype` of candle: every element converted. In main memory it does not
    /// fail between plain types.
    #[verifier::external_body]
    pub(crate) fn to_dtype(&self, dtype: Dtype) -> (r: Result<Array, Failure>)
        ensures
            r matches Err(e) ==> e.basic(),
            r matches Ok(t) ==> t@ == model::cast(self@, dtype) && t.on_cpu() == self.on_cpu(),
            self.on_cpu() && self@.dtype.plain() && dtype.plain() ==> r is Ok,
    {
        Ok(Array { inner: self.inner.to_dtype(candle_dtype(dtype)).map_err(Failure::Candle)? })
    }

    /// `Tensor::narrow` of candle: positions `start .. start + len` of axis
    /// `dim`. Fails where the tensor has no such axis or positions, and on
    /// nothing else.
    #[verifier::external_body]
    pub(crate) fn narrow(&self, dim: usize, start: usize, len: usize) -> (r: Result<Array, Failure>)
        ensures
            r matches Err(e) ==> e.basic(),
            r matches Ok(t) ==> t@ == model::narrow(self@, dim as int, start as nat, len as nat) && t.on_cpu() == self.on_cpu(),
            r is Ok <==> (self@.rank() > dim && self@.dims[dim as int] >= start + len),
    {
        Ok(Array { inner: self.inner.narrow(dim, start, len).map_err(Failure::Candle)? })
    }

    /// `Tensor::squeeze` of candle: axis `dim` dropped where its size is one.
    /// Fails where there is no such axis, and on nothing else.
    #[verifier::external_body]
    pub(crate) fn squeeze(&self, dim: usize) -> (r: Result<Array, Failure>)
        ensures
            r matches Err(e) ==> e.basic(),
            r matches Ok(t) ==> t@ == model::squeeze(self@, dim as int) && t.on_cpu() == self.on_cpu(),
            r is Ok <==> self@.rank() > dim,
    {
        Ok(Array { inner: self.inner.squeeze(dim).map_err(Failure::Candle)? })
    }

    /// `Tensor::unsqueeze` of candle: a new axis of size one in front of axis
    /// `dim`. Fails where `dim` is beyond the last axis, and on nothing else.
    #[verifier::external_body]
    pub(crate) fn unsqueeze(&self, dim: usize) -> (r: Result<Array, Failure>)
        ensures
            r matches Err(e) ==> e.basic(),
            r matches Ok(t) ==> t@ == model::unsqueeze(self@, dim as int) && t.on_cpu() == self.on_cpu(),
            r is Ok <==> self@.rank() >= dim,
    {
        Ok(Array { inner: self.inner.unsqueeze(dim).map_err(Failure::Candle)? })
    }
}

/// Axis numbers as integers.
pub open spec fn axes(p: Seq<usize>) -> Seq<int> {
    Seq::new(p.len(), |j: int| p[j] as int)
}

/// Integers as positions along an axis.
pub open spec fn positions(ids: Seq<i64>) -> Seq<int> {
    ids.map_values(|i: i64| i as int)
}

/// Whether every integer is a position of an axis of this size.
pub open spec fn index_list(ids: Seq<i64>, size: nat) -> bool {
    forall|j: int| 0 <= j < ids.len() ==> 0 <= #[trigger] ids[j] < size
}

/// Whether an array with this symbolic contents can hold these integers.
pub open spec fn can_hold(t: TensorView, values: Seq<i64>) -> bool {
    exists|x: Array| x@ == t && #[trigger] x.held_integers() == values
}

/// Whether an array with this symbolic contents can hold these bytes.
pub open spec fn can_hold_bytes(t: TensorView, values: Seq<u8>) -> bool {
    exists|x: Array| x@ == t && #[trigger] x.held_bytes() == values
}

/// Whether an array with this symbolic contents can hold this binary64 number.
pub open spec fn can_read(t: TensorView, number: Scalar) -> bool {
    exists|x: Array| x@ == t && #[trigger] x.held_number() == number
}

/// The number that eight bytes make up, the lowest first.
pub open spec fn little_endian(b: Seq<u8>) -> int {
    b[0] + b[1] * 0x100 + b[2] * 0x1_0000 + b[3] * 0x100_0000 + (b[4] + b[5] * 0x100 + b[6] * 0x1_0000 + b[7]
        * 0x100_0000) * 0x1_0000_0000
}

} // verus!
