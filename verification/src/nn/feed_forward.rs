//! Feed-forward network.
use vstd::prelude::*;

use crate::array::Array;
use crate::error::Failure;
use crate::model::{self, Dtype, TensorView};
use crate::nn::activation::GELUApprox;
use crate::nn::linear::{self, Linear};
use crate::nn::lora::{self, sub_lora, LoraConfig, LoraView};
use crate::weights::{self, Weights, WeightsView};

verus! {

/// A dense layer with GELU to `dim * mult` features, then a dense layer.
pub struct FeedForward {
    pub gelu_proj: GELUApprox,
    pub out_proj: Linear,
}

impl FeedForward {
    /// Whether this is the network that a checkpoint and an adapter hold.
    pub open spec fn loaded(&self, vb: WeightsView, lora: Option<LoraView>) -> bool {
        &&& self.gelu_proj.loaded(vb.pp("net.0"@), lora::lora_pp(lora, "net.0"@))
        &&& self.out_proj@ == lora::linear_of(vb.pp("net.2"@), lora::lora_pp(lora, "net.2"@))
    }

    /// Whether a checkpoint and an adapter hold a network of these sizes.
    pub open spec fn present(vb: WeightsView, lora: Option<LoraView>, dim: nat, dim_out: nat, mult: nat) -> bool {
        &&& lora::has_linear(
            vb.pp("net.0"@).pp("proj"@),
            lora::lora_pp(lora::lora_pp(lora, "net.0"@), "proj"@),
            dim,
            dim * mult,
            true,
        )
        &&& lora::has_linear(vb.pp("net.2"@), lora::lora_pp(lora, "net.2"@), dim * mult, dim_out, true)
    }

    /// What the network computes from `x`.
    pub open spec fn apply(&self, x: TensorView) -> TensorView {
        self.out_proj@.apply(self.gelu_proj.apply(x))
    }

    pub fn new(dim: usize, dim_out: usize, mult: usize, vb: &Weights) -> (r: Result<FeedForward, Failure>)
        ensures
            r matches Ok(l) ==> l.loaded(vb@, None),
            r matches Ok(l) ==> vb@.in_memory && vb@.dtype == Dtype::F32 && dim > 0 && dim_out > 0 && mult > 0
                ==> l.maps(dim as nat, dim as nat * mult as nat, dim_out as nat),
            r is Ok ==> FeedForward::present(vb@, None, dim as nat, dim_out as nat, mult as nat),
            vb@.sound() && FeedForward::present(vb@, None, dim as nat, dim_out as nat, mult as nat) ==> r is Ok,
            dim * mult > usize::MAX ==> r == Err::<FeedForward, Failure>(Failure::Overflow),
    {
        FeedForward::new_with_lora(dim, dim_out, mult, vb, None)
    }

    pub fn new_with_lora(
        dim: usize,
        dim_out: usize,
        mult: usize,
        vb: &Weights,
        lora: Option<&LoraConfig>,
    ) -> (r: Result<FeedForward, Failure>)
        ensures
            r matches Ok(l) ==> l.loaded(vb@, lora::lora_view(lora)),
            r matches Ok(l) ==> vb@.in_memory && vb@.dtype == Dtype::F32 && dim > 0 && dim_out > 0 && mult > 0
                ==> l.maps(dim as nat, dim as nat * mult as nat, dim_out as nat),
            r is Ok ==> FeedForward::present(
                vb@,
                lora::lora_view(lora),
                dim as nat,
                dim_out as nat,
                mult as nat,
            ),
            vb@.sound() && lora::adapter_sound(lora::lora_view(lora)) && FeedForward::present(
                vb@,
                lora::lora_view(lora),
                dim as nat,
                dim_out as nat,
                mult as nat,
            ) ==> r is Ok,
            dim * mult > usize::MAX ==> r == Err::<FeedForward, Failure>(Failure::Overflow),
    {
        proof {
            let proj = vb@.pp("net.0"@).pp("proj"@);
            let dims: Seq<nat> = seq![dim as nat * mult as nat, dim as nat];
            if vb@.sound() && proj.holds("weight"@, dims) {
                weights::lemma_axis_counts(proj, "weight"@, dims, 0);
            }
        }
        let inner_dim: usize = match dim.checked_mul(mult) {
            Some(d) => d,
            None => {
                return Err(Failure::Overflow);
            },
        };
        let gelu_lora = sub_lora(lora, "net.0");
        let out_lora = sub_lora(lora, "net.2");
        let gelu_proj = GELUApprox::new_with_lora(dim, inner_dim, &vb.pp("net.0"), gelu_lora.as_ref())?;
        let out_proj = lora::linear(inner_dim, dim_out, &vb.pp("net.2"), out_lora.as_ref())?;
        assert(dim > 0 && mult > 0 ==> inner_dim > 0) by (nonlinear_arith)
            requires
                inner_dim == dim * mult,
        ;
        Ok(FeedForward { gelu_proj, out_proj })
    }

    /// Whether this network maps rows of `n_in` numbers through rows of `hidden` to rows of
    /// `n_out`, in main memory and in single precision.
    pub open spec fn maps(&self, n_in: nat, hidden: nat, n_out: nat) -> bool {
        &&& self.gelu_proj.proj.maps(n_in, hidden)
        &&& self.out_proj.maps(hidden, n_out)
    }

    pub fn forward(&self, x: &Array) -> (r: Result<Array, Failure>)
        ensures
            r matches Ok(t) ==> t@ == self.apply(x@),
            r matches Ok(t) ==> t.on_cpu() == x.on_cpu() && t@.dtype == x@.dtype && t@.dims == linear::with_width(
                x@.dims,
                self.out_proj.weight@.dims[0],
            ),
            forall|n_in: nat, hidden: nat, n_out: nat| #[trigger]
                self.maps(n_in, hidden, n_out) && x@.dtype == Dtype::F32 && linear::are_rows(x, n_in) && model::fits(
                    linear::with_width(x@.dims, hidden),
                ) && model::fits(linear::with_width(x@.dims, n_out)) ==> (r matches Ok(t) && linear::are_rows(&t, n_out)),
    {
        assert(linear::with_width(linear::with_width(x@.dims, self.gelu_proj.proj.weight@.dims[0]), self.out_proj.weight@.dims[0])
            =~= linear::with_width(x@.dims, self.out_proj.weight@.dims[0]));
        let x = self.gelu_proj.forward(x)?;
        self.out_proj.forward(&x)
    }
}

} // verus!
