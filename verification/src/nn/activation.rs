//! Activation functions.
use vstd::prelude::*;

use crate::array::Array;
use crate::error::Failure;
use crate::model::{self, BinOp, Dtype, TensorView, UnOp};
use crate::nn::linear::{self, Linear, LinearView};
use crate::nn::lora::{self, sub_lora, LoraConfig, LoraView};
use crate::weights::{Weights, WeightsView};

verus! {

/// A dense layer followed by GELU in its tanh approximation.
pub struct GELUApprox {
    pub proj: Linear,
}

impl GELUApprox {
    /// Whether this is the layer that a checkpoint and an adapter hold.
    pub open spec fn loaded(&self, vb: WeightsView, lora: Option<LoraView>) -> bool {
        self.proj@ == lora::linear_of(vb.pp("proj"@), lora::lora_pp(lora, "proj"@))
    }

    /// What the layer computes from `x`.
    pub open spec fn apply(&self, x: TensorView) -> TensorView {
        model::unary(UnOp::Gelu, self.proj@.apply(x))
    }

    pub fn new(dim_in: usize, dim_out: usize, vb: &Weights) -> (r: Result<GELUApprox, Failure>)
        ensures
            r matches Ok(l) ==> l.loaded(vb@, None),
            r is Ok ==> lora::has_linear(vb@.pp("proj"@), None, dim_in as nat, dim_out as nat, true),
            vb@.sound() && lora::has_linear(vb@.pp("proj"@), None, dim_in as nat, dim_out as nat, true) ==> r is Ok,
    {
        GELUApprox::new_with_lora(dim_in, dim_out, vb, None)
    }

    pub fn new_with_lora(
        dim_in: usize,
        dim_out: usize,
        vb: &Weights,
        lora: Option<&LoraConfig>,
    ) -> (r: Result<GELUApprox, Failure>)
        ensures
            r matches Ok(l) ==> l.loaded(vb@, lora::lora_view(lora)),
            r matches Ok(l) ==> vb@.in_memory && vb@.dtype == Dtype::F32 && dim_in > 0 && dim_out > 0 ==> l.proj.maps(
                dim_in as nat,
                dim_out as nat,
            ),
            r is Ok ==> lora::has_linear(
                vb@.pp("proj"@),
                lora::lora_pp(lora::lora_view(lora), "proj"@),
                dim_in as nat,
                dim_out as nat,
                true,
            ),
            vb@.sound() && lora::adapter_sound(lora::lora_view(lora)) && lora::has_linear(
                vb@.pp("proj"@),
                lora::lora_pp(lora::lora_view(lora), "proj"@),
                dim_in as nat,
                dim_out as nat,
                true,
            ) ==> r is Ok,
    {
        let proj_lora = sub_lora(lora, "proj");
        let proj = lora::linear(dim_in, dim_out, &vb.pp("proj"), proj_lora.as_ref())?;
        Ok(GELUApprox { proj })
    }

    pub fn forward(&self, x: &Array) -> (r: Result<Array, Failure>)
        ensures
            r matches Ok(t) ==> t@ == self.apply(x@),
            r matches Ok(t) ==> t.on_cpu() == x.on_cpu() && t@.dtype == x@.dtype && t@.dims == linear::with_width(
                x@.dims,
                self.proj.weight@.dims[0],
            ),
            self.proj.maps(self.proj.weight@.dims[1], self.proj.weight@.dims[0]) && x@.dtype == Dtype::F32
                && linear::are_rows(x, self.proj.weight@.dims[1]) && model::fits(
                linear::with_width(x@.dims, self.proj.weight@.dims[0]),
            ) ==> (r matches Ok(t) && linear::are_rows(&t, self.proj.weight@.dims[0])),
    {
        self.proj.forward(x)?.unary(UnOp::Gelu)
    }
}

/// `x * sigmoid(x)`.
pub open spec fn silu_of(x: TensorView) -> TensorView {
    model::binary(BinOp::Times, x, model::unary(UnOp::Sigmoid, x))
}

/// SiLU: `x * sigmoid(x)`.
pub fn silu(x: &Array) -> (r: Result<Array, Failure>)
    ensures
        r matches Ok(t) ==> t@ == silu_of(x@),
        !x@.dtype.float() ==> r == Err::<Array, Failure>(Failure::Dtype),
        x.on_cpu() && x@.dtype.float() ==> (r matches Ok(t) && t.on_cpu() && t@.dims == x@.dims && t@.dtype
            == x@.dtype),
{
    let sigmoid = x.unary(UnOp::Sigmoid)?;
    x.pairwise(BinOp::Times, &sigmoid)
}

} // verus!
