//! Arithmetic on arrays, element by element.
use vstd::prelude::*;

use crate::array::{self, addressable, Array};
use crate::error::Failure;
use crate::lemmas;
use crate::model::{self, BinOp, Dtype, RelOp, UnOp};
use crate::scalar::{Scalar, ONE, ZERO};

verus! {

/// The common shape of two shapes; `None` where there is none.
pub fn common_shape(a: &Vec<usize>, b: &Vec<usize>) -> (r: Option<Vec<usize>>)
    ensures
        r is Some <==> model::have_common_dims(model::nats(a@), model::nats(b@)),
        r matches Some(v) ==> model::nats(v@) == model::common_dims(model::nats(a@), model::nats(b@)),
{
    let n: usize = if a.len() < b.len() {
        b.len()
    } else {
        a.len()
    };
    let ghost sa = model::nats(a@);
    let ghost sb = model::nats(b@);
    let mut v: Vec<usize> = Vec::new();
    let mut i: usize = 0;
    while i < n
        invariant
            i <= n,
            n == (if a.len() < b.len() { b.len() } else { a.len() }),
            sa == model::nats(a@),
            sb == model::nats(b@),
            v.len() == i,
            forall|k: int|
                0 <= k < i ==> #[trigger] v[k] as nat == model::common_dims(sa, sb)[k],
            forall|k: int|
                n - i <= k < sa.len() && k < sb.len() ==> (#[trigger] model::size_from_last(sa, k))
                    == model::size_from_last(sb, k) || model::size_from_last(sa, k) == 1
                    || model::size_from_last(sb, k) == 1,
        decreases n - i,
    {
        let k: usize = n - 1 - i;
        let l: usize = if k < a.len() {
            a[a.len() - 1 - k]
        } else {
            1
        };
        let r: usize = if k < b.len() {
            b[b.len() - 1 - k]
        } else {
            1
        };
        assert(l as nat == model::size_from_last(sa, k as int));
        assert(r as nat == model::size_from_last(sb, k as int));
        if l != r && l != 1 && r != 1 {
            assert(k < sa.len() && k < sb.len());
            return None;
        }
        let d: usize = if l == 1 {
            r
        } else {
            l
        };
        v.push(d);
        i = i + 1;
    }
    assert(model::nats(v@) =~= model::common_dims(sa, sb));
    Some(v)
}

impl Array {
    /// `Tensor::neg` of candle: every element negated.
    /// In main memory it does not fail.
    #[verifier::external_body]
    fn raw_neg(&self) -> (r: Result<Array, Failure>)
        requires
            self@.dtype.float(),
        ensures
            r matches Err(e) ==> e.basic(),
            r matches Ok(t) ==> t@ == model::unary(UnOp::Neg, self@),
            r matches Ok(t) ==> t.on_cpu() == self.on_cpu(),
            self.on_cpu() ==> r is Ok,
    {
        Ok(Array { inner: self.inner.neg().map_err(Failure::Candle)? })
    }

    /// `Tensor::exp` of candle: the exponential of every element.
    /// In main memory it does not fail.
    #[verifier::external_body]
    fn raw_exp(&self) -> (r: Result<Array, Failure>)
        requires
            self@.dtype.float(),
        ensures
            r matches Err(e) ==> e.basic(),
            r matches Ok(t) ==> t@ == model::unary(UnOp::Exp, self@),
            r matches Ok(t) ==> t.on_cpu() == self.on_cpu(),
            self.on_cpu() ==> r is Ok,
    {
        Ok(Array { inner: self.inner.exp().map_err(Failure::Candle)? })
    }

    /// `Tensor::log` of candle: the natural logarithm of every element.
    /// In main memory it does not fail.
    #[verifier::external_body]
    fn raw_log(&self) -> (r: Result<Array, Failure>)
        requires
            self@.dtype.float(),
        ensures
            r matches Err(e) ==> e.basic(),
            r matches Ok(t) ==> t@ == model::unary(UnOp::Log, self@),
            r matches Ok(t) ==> t.on_cpu() == self.on_cpu(),
            self.on_cpu() ==> r is Ok,
    {
        Ok(Array { inner: self.inner.log().map_err(Failure::Candle)? })
    }

    /// `Tensor::sin` of candle: the sine of every element.
    /// In main memory it does not fail.
    #[verifier::external_body]
    fn raw_sin(&self) -> (r: Result<Array, Failure>)
        requires
            self@.dtype.float(),
        ensures
            r matches Err(e) ==> e.basic(),
            r matches Ok(t) ==> t@ == model::unary(UnOp::Sin, self@),
            r matches Ok(t) ==> t.on_cpu() == self.on_cpu(),
            self.on_cpu() ==> r is Ok,
    {
        Ok(Array { inner: self.inner.sin().map_err(Failure::Candle)? })
    }

    /// `Tensor::cos` of candle: the cosine of every element.
    /// In main memory it does not fail.
    #[verifier::external_body]
    fn raw_cos(&self) -> (r: Result<Array, Failure>)
        requires
            self@.dtype.float(),
        ensures
            r matches Err(e) ==> e.basic(),
            r matches Ok(t) ==> t@ == model::unary(UnOp::Cos, self@),
            r matches Ok(t) ==> t.on_cpu() == self.on_cpu(),
            self.on_cpu() ==> r is Ok,
    {
        Ok(Array { inner: self.inner.cos().map_err(Failure::Candle)? })
    }

    /// `Tensor::tanh` of candle: the hyperbolic tangent of every element.
    /// In main memory it does not fail.
    #[verifier::external_body]
    fn raw_tanh(&self) -> (r: Result<Array, Failure>)
        requires
            self@.dtype.float(),
        ensures
            r matches Err(e) ==> e.basic(),
            r matches Ok(t) ==> t@ == model::unary(UnOp::Tanh, self@),
            r matches Ok(t) ==> t.on_cpu() == self.on_cpu(),
            self.on_cpu() ==> r is Ok,
    {
        Ok(Array { inner: self.inner.tanh().map_err(Failure::Candle)? })
    }

    /// `Tensor::sqr` of candle: the square of every element.
    /// In main memory it does not fail.
    #[verifier::external_body]
    fn raw_sqr(&self) -> (r: Result<Array, Failure>)
        requires
            self@.dtype.float(),
        ensures
            r matches Err(e) ==> e.basic(),
            r matches Ok(t) ==> t@ == model::unary(UnOp::Sqr, self@),
            r matches Ok(t) ==> t.on_cpu() == self.on_cpu(),
            self.on_cpu() ==> r is Ok,
    {
        Ok(Array { inner: self.inner.sqr().map_err(Failure::Candle)? })
    }

    /// `Tensor::sqrt` of candle: the square root of every element.
    /// In main memory it does not fail.
    #[verifier::external_body]
    fn raw_sqrt(&self) -> (r: Result<Array, Failure>)
        requires
            self@.dtype.float(),
        ensures
            r matches Err(e) ==> e.basic(),
            r matches Ok(t) ==> t@ == model::unary(UnOp::Sqrt, self@),
            r matches Ok(t) ==> t.on_cpu() == self.on_cpu(),
            self.on_cpu() ==> r is Ok,
    {
        Ok(Array { inner: self.inner.sqrt().map_err(Failure::Candle)? })
    }

    /// `Tensor::recip` of candle: the reciprocal of every element.
    /// In main memory it does not fail.
    #[verifier::external_body]
    fn raw_recip(&self) -> (r: Result<Array, Failure>)
        requires
            self@.dtype.float(),
        ensures
            r matches Err(e) ==> e.basic(),
            r matches Ok(t) ==> t@ == model::unary(UnOp::Recip, self@),
            r matches Ok(t) ==> t.on_cpu() == self.on_cpu(),
            self.on_cpu() ==> r is Ok,
    {
        Ok(Array { inner: self.inner.recip().map_err(Failure::Candle)? })
    }

    /// `Tensor::gelu` of candle: GELU in its tanh approximation of every element.
    /// In main memory it does not fail.
    #[verifier::external_body]
    fn raw_gelu(&self) -> (r: Result<Array, Failure>)
        requires
            self@.dtype.float(),
        ensures
            r matches Err(e) ==> e.basic(),
            r matches Ok(t) ==> t@ == model::unary(UnOp::Gelu, self@),
            r matches Ok(t) ==> t.on_cpu() == self.on_cpu(),
            self.on_cpu() ==> r is Ok,
    {
        Ok(Array { inner: self.inner.gelu().map_err(Failure::Candle)? })
    }

    /// `ops::sigmoid` of candle-nn: the logistic function of every element.
    #[verifier::external_body]
    fn raw_sigmoid(&self) -> (r: Result<Array, Failure>)
        requires
            self@.dtype.float(),
        ensures
            r matches Err(e) ==> e.basic(),
            r matches Ok(t) ==> t@ == model::unary(UnOp::Sigmoid, self@),
            r matches Ok(t) ==> t.on_cpu() == self.on_cpu(),
            self.on_cpu() ==> r is Ok,
    {
        Ok(Array { inner: candle_nn::ops::sigmoid(&self.inner).map_err(Failure::Candle)? })
    }

    /// `Tensor::relu` of candle: every element raised to at least zero.
    /// In main memory it does not fail.
    #[verifier::external_body]
    fn raw_relu(&self) -> (r: Result<Array, Failure>)
        requires
            self@.dtype.float(),
        ensures
            r matches Err(e) ==> e.basic(),
            r matches Ok(t) ==> t@ == model::unary(UnOp::Relu, self@),
            r matches Ok(t) ==> t.on_cpu() == self.on_cpu(),
            self.on_cpu() ==> r is Ok,
    {
        Ok(Array { inner: self.inner.relu().map_err(Failure::Candle)? })
    }

    /// `op` of every element; fails on an element type without such functions.
    pub fn unary(&self, op: UnOp) -> (r: Result<Array, Failure>)
        ensures
            r matches Err(e) ==> e.basic(),
            r matches Ok(t) ==> t@ == model::unary(op, self@) && self@.dtype.float(),
            r matches Ok(t) ==> t.on_cpu() == self.on_cpu(),
            self.on_cpu() && self@.dtype.float() ==> r is Ok,
            !self@.dtype.float() ==> r == Err::<Array, Failure>(Failure::Dtype),
    {
        if !self.dtype().is_float() {
            return Err(Failure::Dtype);
        }
        match op {
            UnOp::Neg => self.raw_neg(),
            UnOp::Exp => self.raw_exp(),
            UnOp::Log => self.raw_log(),
            UnOp::Sin => self.raw_sin(),
            UnOp::Cos => self.raw_cos(),
            UnOp::Tanh => self.raw_tanh(),
            UnOp::Sqr => self.raw_sqr(),
            UnOp::Sqrt => self.raw_sqrt(),
            UnOp::Recip => self.raw_recip(),
            UnOp::Gelu => self.raw_gelu(),
            UnOp::Sigmoid => self.raw_sigmoid(),
            UnOp::Relu => self.raw_relu(),
        }
    }

    /// Whether `op` can be carried out on two arrays of these shapes and types.
    pub open spec fn combinable(&self, rhs: &Array) -> bool {
        &&& self@.dtype.float()
        &&& model::have_common_dims(self@.dims, rhs@.dims)
        &&& model::fits(model::common_dims(self@.dims, rhs@.dims))
    }

    /// `Tensor::broadcast_add` of candle: sums of elements. In
    /// main memory it does not fail on elements of one type.
    #[verifier::external_body]
    fn raw_add(&self, rhs: &Array) -> (r: Result<Array, Failure>)
        requires
            self.combinable(rhs),
        ensures
            r matches Err(e) ==> e.basic(),
            r matches Ok(t) ==> t@ == model::binary(BinOp::Plus, self@, rhs@),
            r matches Ok(t) ==> t.on_cpu() == self.on_cpu(),
            self.on_cpu() && rhs.on_cpu() && self@.dtype == rhs@.dtype ==> r is Ok,
    {
        Ok(Array { inner: self.inner.broadcast_add(&rhs.inner).map_err(Failure::Candle)? })
    }

    /// `Tensor::broadcast_sub` of candle: differences of elements. In
    /// main memory it does not fail on elements of one type.
    #[verifier::external_body]
    fn raw_sub(&self, rhs: &Array) -> (r: Result<Array, Failure>)
        requires
            self.combinable(rhs),
        ensures
            r matches Err(e) ==> e.basic(),
            r matches Ok(t) ==> t@ == model::binary(BinOp::Minus, self@, rhs@),
            r matches Ok(t) ==> t.on_cpu() == self.on_cpu(),
            self.on_cpu() && rhs.on_cpu() && self@.dtype == rhs@.dtype ==> r is Ok,
    {
        Ok(Array { inner: self.inner.broadcast_sub(&rhs.inner).map_err(Failure::Candle)? })
    }

    /// `Tensor::broadcast_mul` of candle: products of elements. In
    /// main memory it does not fail on elements of one type.
    #[verifier::external_body]
    fn raw_mul(&self, rhs: &Array) -> (r: Result<Array, Failure>)
        requires
            self.combinable(rhs),
        ensures
            r matches Err(e) ==> e.basic(),
            r matches Ok(t) ==> t@ == model::binary(BinOp::Times, self@, rhs@),
            r matches Ok(t) ==> t.on_cpu() == self.on_cpu(),
            self.on_cpu() && rhs.on_cpu() && self@.dtype == rhs@.dtype ==> r is Ok,
    {
        Ok(Array { inner: self.inner.broadcast_mul(&rhs.inner).map_err(Failure::Candle)? })
    }

    /// `Tensor::broadcast_div` of candle: quotients of elements. In
    /// main memory it does not fail on elements of one type.
    #[verifier::external_body]
    fn raw_div(&self, rhs: &Array) -> (r: Result<Array, Failure>)
        requires
            self.combinable(rhs),
        ensures
            r matches Err(e) ==> e.basic(),
            r matches Ok(t) ==> t@ == model::binary(BinOp::Over, self@, rhs@),
            r matches Ok(t) ==> t.on_cpu() == self.on_cpu(),
            self.on_cpu() && rhs.on_cpu() && self@.dtype == rhs@.dtype ==> r is Ok,
    {
        Ok(Array { inner: self.inner.broadcast_div(&rhs.inner).map_err(Failure::Candle)? })
    }

    /// `Tensor::broadcast_maximum` of candle: the larger of two elements. In
    /// main memory it does not fail on elements of one type.
    #[verifier::external_body]
    fn raw_maximum(&self, rhs: &Array) -> (r: Result<Array, Failure>)
        requires
            self.combinable(rhs),
        ensures
            r matches Err(e) ==> e.basic(),
            r matches Ok(t) ==> t@ == model::binary(BinOp::Maximum, self@, rhs@),
            r matches Ok(t) ==> t.on_cpu() == self.on_cpu(),
            self.on_cpu() && rhs.on_cpu() && self@.dtype == rhs@.dtype ==> r is Ok,
    {
        Ok(Array { inner: self.inner.broadcast_maximum(&rhs.inner).map_err(Failure::Candle)? })
    }

    /// `Tensor::broadcast_minimum` of candle: the smaller of two elements. In
    /// main memory it does not fail on elements of one type.
    #[verifier::external_body]
    fn raw_minimum(&self, rhs: &Array) -> (r: Result<Array, Failure>)
        requires
            self.combinable(rhs),
        ensures
            r matches Err(e) ==> e.basic(),
            r matches Ok(t) ==> t@ == model::binary(BinOp::Minimum, self@, rhs@),
            r matches Ok(t) ==> t.on_cpu() == self.on_cpu(),
            self.on_cpu() && rhs.on_cpu() && self@.dtype == rhs@.dtype ==> r is Ok,
    {
        Ok(Array { inner: self.inner.broadcast_minimum(&rhs.inner).map_err(Failure::Candle)? })
    }

    /// Whether two arrays can be combined element by element.
    fn check_combinable(&self, rhs: &Array) -> (r: Result<(), Failure>)
        ensures
            r matches Err(e) ==> e.basic(),
            r is Ok <==> self.combinable(rhs),
            !self@.dtype.float() ==> r == Err::<(), Failure>(Failure::Dtype),
            self@.dtype.float() && !model::have_common_dims(self@.dims, rhs@.dims) ==> r == Err::<(), Failure>(
                Failure::Shape,
            ),
            self@.dtype.float() && model::have_common_dims(self@.dims, rhs@.dims) && !self.combinable(rhs) ==> r
                == Err::<(), Failure>(Failure::Overflow),
    {
        if !self.dtype().is_float() {
            return Err(Failure::Dtype);
        }
        let a = self.dims();
        let b = rhs.dims();
        match common_shape(&a, &b) {
            None => Err(Failure::Shape),
            Some(dims) => {
                if addressable(&dims) {
                    Ok(())
                } else {
                    Err(Failure::Overflow)
                }
            },
        }
    }

    /// `op` of the elements of two arrays, each repeated to the common shape.
    pub fn broadcast(&self, op: BinOp, rhs: &Array) -> (r: Result<Array, Failure>)
        ensures
            r matches Err(e) ==> e.basic(),
            r matches Ok(t) ==> t@ == model::binary(op, self@, rhs@),
            r is Ok ==> self.combinable(rhs),
            r matches Ok(t) ==> t.on_cpu() == self.on_cpu(),
            r matches Ok(t) ==> t@.dims == model::common_dims(self@.dims, rhs@.dims) && t@.dtype == self@.dtype,
            r matches Ok(t) ==> self.single() && rhs.single() ==> t.single(),
            self.on_cpu() && rhs.on_cpu() && self@.dtype == rhs@.dtype && self.combinable(rhs) ==> r is Ok,
            self.takes(rhs) ==> r is Ok,
            self.single() && rhs.single() ==> r is Ok,
    {
        proof {
            use_type_invariant(self);
            use_type_invariant(rhs);
            lemmas::lemma_single();
            reveal(model::binary);
            reveal(model::broadcast_to);
            if self@.rank() == 0 && rhs@.rank() == 0 {
                assert(model::common_dims(self@.dims, rhs@.dims) =~= Seq::<nat>::empty());
            }
        }
        self.check_combinable(rhs)?;
        match op {
            BinOp::Plus => self.raw_add(rhs),
            BinOp::Minus => self.raw_sub(rhs),
            BinOp::Times => self.raw_mul(rhs),
            BinOp::Over => self.raw_div(rhs),
            BinOp::Maximum => self.raw_maximum(rhs),
            BinOp::Minimum => self.raw_minimum(rhs),
        }
    }

    /// `op` of the elements of two arrays of one shape.
    pub fn pairwise(&self, op: BinOp, rhs: &Array) -> (r: Result<Array, Failure>)
        ensures
            r matches Err(e) ==> e.basic(),
            r matches Ok(t) ==> t@ == model::binary(op, self@, rhs@),
            r is Ok ==> self@.dims == rhs@.dims && self.combinable(rhs),
            r matches Ok(t) ==> t@.dims == self@.dims && t@.dtype == self@.dtype,
            r matches Ok(t) ==> t.on_cpu() == self.on_cpu(),
            self.on_cpu() && rhs.on_cpu() && self@.dtype == rhs@.dtype && self@.dtype.float() && self@.dims
                == rhs@.dims ==> r is Ok,
            self.single() && rhs.single() ==> (r matches Ok(t) && t.single()),
            self@.dims != rhs@.dims ==> r == Err::<Array, Failure>(Failure::Shape),
    {
        proof {
            if self@.rank() == 0 && rhs@.rank() == 0 {
                assert(self@.dims =~= rhs@.dims);
            }
        }
        let a = self.dims();
        let b = rhs.dims();
        if !same_sizes(&a, &b) {
            return Err(Failure::Shape);
        }
        proof {
            use_type_invariant(self);
            lemmas::lemma_binary_dims(op, self@, rhs@);
            lemmas::lemma_common_dims(self@.dims);
        }
        self.broadcast(op, rhs)
    }

    /// `Tensor::broadcast_lt` of candle: one where the first element is smaller. In
    /// main memory it does not fail on elements of one type.
    #[verifier::external_body]
    fn raw_lt(&self, rhs: &Array) -> (r: Result<Array, Failure>)
        requires
            self.combinable(rhs),
        ensures
            r matches Err(e) ==> e.basic(),
            r matches Ok(t) ==> t@ == model::relation(RelOp::Lt, self@, rhs@),
            r matches Ok(t) ==> t.on_cpu() == self.on_cpu(),
            self.on_cpu() && rhs.on_cpu() && self@.dtype == rhs@.dtype ==> r is Ok,
    {
        Ok(Array { inner: self.inner.broadcast_lt(&rhs.inner).map_err(Failure::Candle)? })
    }

    /// `Tensor::broadcast_gt` of candle: one where the first element is larger. In
    /// main memory it does not fail on elements of one type.
    #[verifier::external_body]
    fn raw_gt(&self, rhs: &Array) -> (r: Result<Array, Failure>)
        requires
            self.combinable(rhs),
        ensures
            r matches Err(e) ==> e.basic(),
            r matches Ok(t) ==> t@ == model::relation(RelOp::Gt, self@, rhs@),
            r matches Ok(t) ==> t.on_cpu() == self.on_cpu(),
            self.on_cpu() && rhs.on_cpu() && self@.dtype == rhs@.dtype ==> r is Ok,
    {
        Ok(Array { inner: self.inner.broadcast_gt(&rhs.inner).map_err(Failure::Candle)? })
    }

    /// `Tensor::broadcast_ge` of candle: one where the first element is not smaller. In
    /// main memory it does not fail on elements of one type.
    #[verifier::external_body]
    fn raw_ge(&self, rhs: &Array) -> (r: Result<Array, Failure>)
        requires
            self.combinable(rhs),
        ensures
            r matches Err(e) ==> e.basic(),
            r matches Ok(t) ==> t@ == model::relation(RelOp::Ge, self@, rhs@),
            r matches Ok(t) ==> t.on_cpu() == self.on_cpu(),
            self.on_cpu() && rhs.on_cpu() && self@.dtype == rhs@.dtype ==> r is Ok,
    {
        Ok(Array { inner: self.inner.broadcast_ge(&rhs.inner).map_err(Failure::Candle)? })
    }

    /// Ones and zeros: where `op` holds of the elements of two arrays.
    pub fn relate(&self, op: RelOp, rhs: &Array) -> (r: Result<Array, Failure>)
        ensures
            r matches Err(e) ==> e.basic(),
            r matches Ok(t) ==> t@ == model::relation(op, self@, rhs@),
            r is Ok ==> self.combinable(rhs),
            r matches Ok(t) ==> t.on_cpu() == self.on_cpu(),
            r matches Ok(t) ==> t@.dims == model::common_dims(self@.dims, rhs@.dims) && t@.dtype == Dtype::U8,
            self.takes(rhs) ==> r is Ok,
            self.on_cpu() && rhs.on_cpu() && self@.dtype == rhs@.dtype && self.combinable(rhs) ==> r is Ok,
    {
        proof {
            use_type_invariant(self);
            use_type_invariant(rhs);
            reveal(model::relation);
        }
        self.check_combinable(rhs)?;
        match op {
            RelOp::Lt => self.raw_lt(rhs),
            RelOp::Gt => self.raw_gt(rhs),
            RelOp::Ge => self.raw_ge(rhs),
        }
    }

    /// Whether both are in main memory, hold floating-point elements of one type, and one of
    /// them can be repeated to the shape of the other.
    pub open spec fn takes(&self, rhs: &Array) -> bool {
        &&& self.on_cpu() && rhs.on_cpu()
        &&& self@.dtype == rhs@.dtype && self@.dtype.float()
        &&& model::have_common_dims(self@.dims, rhs@.dims)
        &&& model::common_dims(self@.dims, rhs@.dims) == self@.dims || model::common_dims(self@.dims, rhs@.dims)
            == rhs@.dims
    }

    /// Whether this is in main memory and holds elements of a plain type.
    pub open spec fn usable(&self) -> bool {
        self.on_cpu() && self@.dtype.plain()
    }

    /// Whether this is a single binary64 number in main memory.
    pub open spec fn single(&self) -> bool {
        self.on_cpu() && self@.rank() == 0 && self@.dtype == Dtype::F64
    }

    /// `Tensor::affine` of candle: `x * mul + add` for every element. `mul` and
    /// `add` are single binary64 numbers. In main memory it does not fail.
    #[verifier::external_body]
    fn raw_affine(&self, mul: &Array, add: &Array) -> (r: Result<Array, Failure>)
        requires
            self@.dtype.float(),
        ensures
            r matches Err(e) ==> e.basic(),
            r matches Ok(t) ==> t@ == model::affine(self@, mul@, add@),
            r is Ok ==> mul@.rank() == 0 && add@.rank() == 0,
            r matches Ok(t) ==> t.on_cpu() == self.on_cpu(),
            self.on_cpu() && mul.single() && add.single() ==> r is Ok,
    {
        let m = mul.inner.to_scalar().map_err(Failure::Candle)?;
        let a = add.inner.to_scalar().map_err(Failure::Candle)?;
        Ok(Array { inner: self.inner.affine(m, a).map_err(Failure::Candle)? })
    }

    /// `x * mul + add` for every element `x`. Integers are refused: candle's products of integers
    /// can overflow.
    pub fn affine(&self, mul: &Array, add: &Array) -> (r: Result<Array, Failure>)
        ensures
            r matches Err(e) ==> e.basic(),
            r matches Ok(t) ==> t@ == model::affine(self@, mul@, add@) && self@.dtype.float(),
            r matches Ok(t) ==> t.on_cpu() == self.on_cpu(),
            self.on_cpu() && self@.dtype.float() && mul.single() && add.single() ==> r is Ok,
            !self@.dtype.float() ==> r == Err::<Array, Failure>(Failure::Dtype),
    {
        if !self.dtype().is_float() {
            return Err(Failure::Dtype);
        }
        self.raw_affine(mul, add)
    }

    /// Every element times `factor`.
    pub fn scale(&self, factor: Scalar) -> (r: Result<Array, Failure>)
        ensures
            r matches Err(e) ==> e.basic(),
            r matches Ok(t) ==> t@ == model::affine(
                self@,
                model::number(factor),
                model::number(ZERO),
            ) && self@.dtype.float(),
            r matches Ok(t) ==> t.on_cpu() == self.on_cpu(),
            self.on_cpu() && self@.dtype.float() ==> r is Ok,
            !self@.dtype.float() ==> r is Err,
    {
        let m = Array::number(factor)?;
        let a = Array::number(ZERO)?;
        self.affine(&m, &a)
    }

    /// Every element times the single number `factor`.
    pub fn scale_by(&self, factor: &Array) -> (r: Result<Array, Failure>)
        ensures
            r matches Err(e) ==> e.basic(),
            r matches Ok(t) ==> t@ == model::affine(self@, factor@, model::number(ZERO))
                && self@.dtype.float(),
            r matches Ok(t) ==> t.on_cpu() == self.on_cpu(),
            self.on_cpu() && self@.dtype.float() && factor.single() ==> r is Ok,
            !self@.dtype.float() ==> r is Err,
    {
        let a = Array::number(ZERO)?;
        self.affine(factor, &a)
    }

    /// Every element plus `term`.
    pub fn shift(&self, term: Scalar) -> (r: Result<Array, Failure>)
        ensures
            r matches Err(e) ==> e.basic(),
            r matches Ok(t) ==> t@ == model::affine(
                self@,
                model::number(ONE),
                model::number(term),
            ) && self@.dtype.float(),
            r matches Ok(t) ==> t.on_cpu() == self.on_cpu(),
            self.on_cpu() && self@.dtype.float() ==> r is Ok,
            !self@.dtype.float() ==> r is Err,
    {
        let m = Array::number(ONE)?;
        let a = Array::number(term)?;
        self.affine(&m, &a)
    }

    /// Every element plus the single number `term`.
    pub fn shift_by(&self, term: &Array) -> (r: Result<Array, Failure>)
        ensures
            r matches Err(e) ==> e.basic(),
            r matches Ok(t) ==> t@ == model::affine(self@, model::number(ONE), term@)
                && self@.dtype.float(),
            r matches Ok(t) ==> t.on_cpu() == self.on_cpu(),
            self.on_cpu() && self@.dtype.float() && term.single() ==> r is Ok,
            !self@.dtype.float() ==> r is Err,
    {
        let m = Array::number(ONE)?;
        self.affine(&m, term)
    }

    /// `Tensor::powf` of candle: every element to the power of a single binary64
    /// number. In main memory it does not fail.
    #[verifier::external_body]
    fn raw_powf(&self, e: &Array) -> (r: Result<Array, Failure>)
        requires
            self@.dtype.float(),
        ensures
            r matches Err(e) ==> e.basic(),
            r matches Ok(t) ==> t@ == model::powf(self@, e@),
            r matches Ok(t) ==> t.on_cpu() == self.on_cpu(),
            self.on_cpu() && e.single() ==> r is Ok,
    {
        let e = e.inner.to_scalar().map_err(Failure::Candle)?;
        Ok(Array { inner: self.inner.powf(e).map_err(Failure::Candle)? })
    }

    /// Every element to the power of the single number `e`.
    pub fn powf(&self, e: &Array) -> (r: Result<Array, Failure>)
        ensures
            r matches Err(e) ==> e.basic(),
            r matches Ok(t) ==> t@ == model::powf(self@, e@) && self@.dtype.float(),
            r matches Ok(t) ==> t.on_cpu() == self.on_cpu(),
            self.on_cpu() && self@.dtype.float() && e.single() ==> r is Ok,
            !self@.dtype.float() ==> r == Err::<Array, Failure>(Failure::Dtype),
    {
        if !self.dtype().is_float() {
            return Err(Failure::Dtype);
        }
        self.raw_powf(e)
    }

    /// Every element raised to at least `lo` and lowered to at most `hi`.
    pub fn clamp(&self, lo: Scalar, hi: Scalar) -> (r: Result<Array, Failure>)
        ensures
            r matches Err(e) ==> e.basic(),
            r matches Ok(t) ==> t@ == model::clamp(self@, lo, hi) && t@.dims == self@.dims && t@.dtype == self@.dtype,
            r matches Ok(t) ==> t.on_cpu() == self.on_cpu(),
            self.on_cpu() && self@.dtype.float() ==> r is Ok,
    {
        let device = self.device();
        let dtype = self.dtype();
        let lo = Array::number(lo)?.to_dtype(dtype)?.to_device(&device)?;
        let hi = Array::number(hi)?.to_dtype(dtype)?.to_device(&device)?;
        proof {
            use_type_invariant(self);
            let raised = model::binary(BinOp::Maximum, self@, lo@);
            lemmas::lemma_with_single(BinOp::Maximum, self@, lo@);
            lemmas::lemma_with_single(BinOp::Minimum, raised, hi@);
        }
        self.broadcast(BinOp::Maximum, &lo)?.broadcast(BinOp::Minimum, &hi)
    }
}

/// Whether two shapes are equal.
pub fn same_sizes(a: &Vec<usize>, b: &Vec<usize>) -> (r: bool)
    ensures
        r == (model::nats(a@) == model::nats(b@)),
{
    if a.len() != b.len() {
        assert(model::nats(a@).len() != model::nats(b@).len());
        return false;
    }
    let mut i: usize = 0;
    while i < a.len()
        invariant
            i <= a.len(),
            a.len() == b.len(),
            forall|k: int| 0 <= k < i ==> a[k] == b[k],
        decreases a.len() - i,
    {
        if a[i] != b[i] {
            assert(model::nats(a@)[i as int] != model::nats(b@)[i as int]);
            return false;
        }
        i = i + 1;
    }
    assert(model::nats(a@) =~= model::nats(b@));
    true
}

} // verus!
