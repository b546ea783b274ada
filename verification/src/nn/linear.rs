//! Dense layers.
use vstd::prelude::*;

use crate::array::{self, addressable, same_sizes, Array};
use crate::error::Failure;
use crate::lemmas;
use crate::model::{self, Dtype, TensorView};

verus! {

/// A dense layer: `x` times the transposed weight, plus the bias.
pub struct Linear {
    pub weight: Array,
    pub bias: Option<Array>,
}

/// The mathematical model of a [`Linear`].
#[verifier::ext_equal]
pub struct LinearView {
    pub weight: TensorView,
    pub bias: Option<TensorView>,
}

impl LinearView {
    /// What the layer computes from `x`.
    pub open spec fn apply(self, x: TensorView) -> TensorView {
        model::linear(x, self.weight, self.bias)
    }
}

impl View for Linear {
    type V = LinearView;

    open spec fn view(&self) -> LinearView {
        LinearView { weight: self.weight@, bias: array::opt_view(self.bias) }
    }
}

/// Whether these are rows of `width` numbers in main memory, at least one, under one to three
/// leading axes.
pub open spec fn are_rows(x: &Array, width: nat) -> bool {
    &&& x.usable()
    &&& 2 <= x@.rank() <= 4
    &&& x@.dims.last() == width
    &&& model::numel(x@.dims) > 0
}

/// A shape with another size of its last axis.
pub open spec fn with_width(dims: Seq<nat>, width: nat) -> Seq<nat> {
    dims.drop_last().push(width)
}

/// Rows under one leading axis.
pub proof fn lemma_rows(n: nat, width: nat, other: nat)
    ensures
        with_width(seq![n, width], other) == seq![n, other],
        n > 0 && width > 0 ==> model::numel(seq![n, width]) > 0,
{
    assert(with_width(seq![n, width], other) =~= seq![n, other]);
    lemmas::lemma_numel1(n);
    lemmas::lemma_numel_push(seq![n], width);
    assert(seq![n].push(width) =~= seq![n, width]);
    assert(n > 0 && width > 0 ==> n * width > 0) by (nonlinear_arith);
}

impl Linear {
    /// Whether this layer maps rows of `n_in` numbers to rows of `n_out`, in main memory and in
    /// single precision.
    pub open spec fn maps(&self, n_in: nat, n_out: nat) -> bool {
        &&& self.weight.on_cpu() && self.weight@.dtype == Dtype::F32
        &&& self.weight@.dims == seq![n_out, n_in] && n_in > 0 && n_out > 0
        &&& self.bias matches Some(b) ==> b.on_cpu() && b@.dtype == Dtype::F32 && b@.dims == seq![n_out]
    }

    pub fn new(weight: Array, bias: Option<Array>) -> (r: Linear)
        ensures
            r == (Linear { weight, bias }),
    {
        Linear { weight, bias }
    }

    /// Applies the layer to the last axis of `x`.
    pub fn forward(&self, x: &Array) -> (r: Result<Array, Failure>)
        ensures
            r matches Ok(t) ==> t@ == self@.apply(x@),
            r is Ok ==> x@.rank() >= 1 && x@.dtype.float(),
            r matches Ok(t) ==> t.on_cpu() == x.on_cpu() && t@.dtype == x@.dtype && t@.dims == with_width(
                x@.dims,
                self.weight@.dims[0],
            ),
            self.maps(self.weight@.dims[1], self.weight@.dims[0]) && x@.dtype == Dtype::F32 && are_rows(
                x,
                self.weight@.dims[1],
            ) && model::fits(with_width(x@.dims, self.weight@.dims[0])) ==> (r matches Ok(t) && are_rows(
                &t,
                self.weight@.dims[0],
            )),
    {
        proof {
            reveal(model::linear);
            if are_rows(x, self.weight@.dims[1]) && self.maps(self.weight@.dims[1], self.weight@.dims[0]) {
                lemmas::lemma_width(x@.dims, self.weight@.dims[0]);
                lemmas::lemma_numel_push(seq![self.weight@.dims[0]], self.weight@.dims[1]);
                lemmas::lemma_numel1(self.weight@.dims[0]);
                assert(self.weight@.dims =~= seq![self.weight@.dims[0]].push(self.weight@.dims[1]));
                assert(self.weight@.dims[0] * self.weight@.dims[1] > 0) by (nonlinear_arith)
                    requires
                        self.weight@.dims[0] > 0,
                        self.weight@.dims[1] > 0,
                ;
            }
        }
        let (rows, _columns) = self.weight.dims2()?;
        let mut dims = x.dims();
        if dims.len() == 0 {
            return Err(Failure::Shape);
        }
        if !x.dtype().is_float() {
            return Err(Failure::Dtype);
        }
        if let Some(bias) = &self.bias {
            let expected: Vec<usize> = vec![rows];
            let got = bias.dims();
            assert(model::nats(expected@) =~= seq![self.weight@.dims[0]]);
            if !same_sizes(&expected, &got) {
                return Err(Failure::Shape);
            }
        }
        let last: usize = dims.len() - 1;
        dims.set(last, rows);
        assert(model::nats(dims@) =~= x@.dims.drop_last().push(self.weight@.dims[0]));
        if !addressable(&dims) {
            return Err(Failure::Overflow);
        }
        x.linear(&self.weight, &self.bias)
    }
}

} // verus!
