//! Projection of caption embeddings.
use vstd::prelude::*;

use crate::array::Array;
use crate::error::Failure;
use crate::model::{self, Dtype, TensorView, UnOp};
use crate::nn::activation::{self, silu};
use crate::nn::linear::{self, Linear};
use crate::nn::lora::{self, sub_lora, LoraConfig, LoraView};
use crate::text::same;
use crate::weights::{Weights, WeightsView};

verus! {

/// A dense layer, an activation and a dense layer.
pub struct PixArtAlphaTextProjection {
    pub linear_1: Linear,
    pub linear_2: Linear,
    pub use_silu: bool,
}

impl PixArtAlphaTextProjection {
    /// Whether this is the projection that a checkpoint and an adapter hold.
    pub open spec fn loaded(&self, act_fn: Seq<char>, vb: WeightsView, lora: Option<LoraView>) -> bool {
        &&& self.linear_1@ == lora::linear_of(vb.pp("linear_1"@), lora::lora_pp(lora, "linear_1"@))
        &&& self.linear_2@ == lora::linear_of(vb.pp("linear_2"@), lora::lora_pp(lora, "linear_2"@))
        &&& self.use_silu == (act_fn == "silu"@)
    }

    /// Whether a checkpoint and an adapter hold a projection of these sizes.
    pub open spec fn present(
        vb: WeightsView,
        lora: Option<LoraView>,
        in_features: nat,
        hidden_size: nat,
        out_features: nat,
    ) -> bool {
        &&& lora::has_linear(
            vb.pp("linear_1"@),
            lora::lora_pp(lora, "linear_1"@),
            in_features,
            hidden_size,
            true,
        )
        &&& lora::has_linear(
            vb.pp("linear_2"@),
            lora::lora_pp(lora, "linear_2"@),
            hidden_size,
            out_features,
            true,
        )
    }

    /// What the projection computes from `x`.
    pub open spec fn apply(&self, x: TensorView) -> TensorView {
        let hidden = self.linear_1@.apply(x);
        let active = if self.use_silu {
            activation::silu_of(hidden)
        } else {
            model::unary(UnOp::Gelu, hidden)
        };
        self.linear_2@.apply(active)
    }

    pub fn new(
        in_features: usize,
        hidden_size: usize,
        out_features: Option<usize>,
        act_fn: &str,
        vb: &Weights,
    ) -> (r: Result<PixArtAlphaTextProjection, Failure>)
        ensures
            r matches Ok(l) ==> l.loaded(act_fn@, vb@, None),
            r is Ok ==> PixArtAlphaTextProjection::present(
                vb@,
                None,
                in_features as nat,
                hidden_size as nat,
                (if out_features is Some { out_features->0 } else { hidden_size }) as nat,
            ),
            vb@.sound() && PixArtAlphaTextProjection::present(
                vb@,
                None,
                in_features as nat,
                hidden_size as nat,
                (if out_features is Some { out_features->0 } else { hidden_size }) as nat,
            ) ==> r is Ok,
    {
        PixArtAlphaTextProjection::new_with_lora(in_features, hidden_size, out_features, act_fn, vb, None)
    }

    pub fn new_with_lora(
        in_features: usize,
        hidden_size: usize,
        out_features: Option<usize>,
        act_fn: &str,
        vb: &Weights,
        lora: Option<&LoraConfig>,
    ) -> (r: Result<PixArtAlphaTextProjection, Failure>)
        ensures
            r matches Ok(l) ==> l.loaded(act_fn@, vb@, lora::lora_view(lora)),
            r matches Ok(l) ==> vb@.in_memory && vb@.dtype == Dtype::F32 && in_features > 0 && hidden_size > 0 && (
            out_features matches Some(n) ==> n > 0) ==> l.maps(
                in_features as nat,
                hidden_size as nat,
                (if out_features is Some { out_features->0 } else { hidden_size }) as nat,
            ),
            r is Ok ==> PixArtAlphaTextProjection::present(
                vb@,
                lora::lora_view(lora),
                in_features as nat,
                hidden_size as nat,
                (if out_features is Some { out_features->0 } else { hidden_size }) as nat,
            ),
            vb@.sound() && lora::adapter_sound(lora::lora_view(lora)) && PixArtAlphaTextProjection::present(
                vb@,
                lora::lora_view(lora),
                in_features as nat,
                hidden_size as nat,
                (if out_features is Some { out_features->0 } else { hidden_size }) as nat,
            ) ==> r is Ok,
    {
        let out_features: usize = match out_features {
            Some(n) => n,
            None => hidden_size,
        };
        let linear_1_lora = sub_lora(lora, "linear_1");
        let linear_2_lora = sub_lora(lora, "linear_2");
        let linear_1 = lora::linear(in_features, hidden_size, &vb.pp("linear_1"), linear_1_lora.as_ref())?;
        let linear_2 = lora::linear(hidden_size, out_features, &vb.pp("linear_2"), linear_2_lora.as_ref())?;
        let use_silu = same(act_fn, "silu");
        Ok(PixArtAlphaTextProjection { linear_1, linear_2, use_silu })
    }

    /// Whether this projection maps rows of `n_in` numbers through rows of `hidden` to rows of
    /// `n_out`, in main memory and in single precision.
    pub open spec fn maps(&self, n_in: nat, hidden: nat, n_out: nat) -> bool {
        self.linear_1.maps(n_in, hidden) && self.linear_2.maps(hidden, n_out)
    }

    pub fn forward(&self, x: &Array) -> (r: Result<Array, Failure>)
        ensures
            r matches Ok(t) ==> t@ == self.apply(x@),
            forall|n_in: nat, hidden: nat, n_out: nat| #[trigger]
                self.maps(n_in, hidden, n_out) && x@.dtype == Dtype::F32 && linear::are_rows(x, n_in) && model::fits(
                    linear::with_width(x@.dims, hidden),
                ) && model::fits(linear::with_width(x@.dims, n_out)) ==> (r matches Ok(t) && linear::are_rows(&t, n_out)
                    && t@.dtype == Dtype::F32 && t@.dims == linear::with_width(x@.dims, n_out)),
    {
        assert(linear::with_width(
            linear::with_width(x@.dims, self.linear_1.weight@.dims[0]),
            self.linear_2.weight@.dims[0],
        ) =~= linear::with_width(x@.dims, self.linear_2.weight@.dims[0]));
        let x = self.linear_1.forward(x)?;
        let x = if self.use_silu {
            silu(&x)?
        } else {
            x.unary(UnOp::Gelu)?
        };
        self.linear_2.forward(&x)
    }
}

} // verus!
