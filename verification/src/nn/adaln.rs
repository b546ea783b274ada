//! Adaptive layer norm with one shared modulation network.
use vstd::prelude::*;

use crate::array::Array;
use crate::error::Failure;
use crate::lemmas;
use crate::model::{self, Dtype, TensorView};
use crate::nn::activation::{self, silu};
use crate::nn::linear::{self, Linear};
use crate::nn::lora::{self, sub_lora, LoraConfig, LoraView};
use crate::nn::timestep_embedding::{self, PixArtAlphaCombinedTimestepSizeEmbeddings};
use crate::weights::{self, Weights, WeightsView};

verus! {

/// Maps timesteps to `embedding_coefficient * embedding_dim` scale, shift and gate
/// parameters.
pub struct AdaLayerNormSingle {
    pub emb: PixArtAlphaCombinedTimestepSizeEmbeddings,
    pub linear: Linear,
}

impl AdaLayerNormSingle {
    /// Whether this is the network that a checkpoint and an adapter hold.
    pub open spec fn loaded(&self, vb: WeightsView, lora: Option<LoraView>) -> bool {
        &&& self.emb.loaded(vb.pp("emb"@), lora::lora_pp(lora, "emb"@))
        &&& self.linear@ == lora::linear_of(vb.pp("linear"@), lora::lora_pp(lora, "linear"@))
    }

    /// Whether a checkpoint and an adapter hold a network of these sizes.
    pub open spec fn present(
        vb: WeightsView,
        lora: Option<LoraView>,
        embedding_dim: nat,
        embedding_coefficient: nat,
    ) -> bool {
        &&& PixArtAlphaCombinedTimestepSizeEmbeddings::present(
            vb.pp("emb"@),
            lora::lora_pp(lora, "emb"@),
            embedding_dim,
        )
        &&& lora::has_linear(
            vb.pp("linear"@),
            lora::lora_pp(lora, "linear"@),
            embedding_dim,
            embedding_coefficient * embedding_dim,
            true,
        )
    }

    /// The embedded timestep.
    pub open spec fn embedded(&self, timestep: TensorView) -> TensorView {
        self.emb.apply(timestep)
    }

    /// The modulation parameters.
    pub open spec fn modulation(&self, timestep: TensorView, hidden_dtype: Dtype) -> TensorView {
        self.linear@.apply(model::cast(activation::silu_of(self.embedded(timestep)), hidden_dtype))
    }

    pub fn new(embedding_dim: usize, embedding_coefficient: usize, vb: &Weights) -> (r: Result<
        AdaLayerNormSingle,
        Failure,
    >)
        ensures
            r matches Ok(l) ==> l.loaded(vb@, None),
            r is Ok ==> AdaLayerNormSingle::present(
                vb@,
                None,
                embedding_dim as nat,
                embedding_coefficient as nat,
            ),
            vb@.sound() && AdaLayerNormSingle::present(
                vb@,
                None,
                embedding_dim as nat,
                embedding_coefficient as nat,
            ) ==> r is Ok,
            embedding_coefficient * embedding_dim > usize::MAX ==> r is Err,
    {
        AdaLayerNormSingle::new_with_lora(embedding_dim, embedding_coefficient, vb, None)
    }

    pub fn new_with_lora(
        embedding_dim: usize,
        embedding_coefficient: usize,
        vb: &Weights,
        lora: Option<&LoraConfig>,
    ) -> (r: Result<AdaLayerNormSingle, Failure>)
        ensures
            r matches Ok(l) ==> l.loaded(vb@, lora::lora_view(lora)),
            r matches Ok(l) ==> vb@.in_memory && vb@.dtype == Dtype::F32 && embedding_dim > 0 && embedding_coefficient
                > 0 ==> l.maps(embedding_dim as nat, embedding_coefficient as nat * embedding_dim as nat),
            r is Ok ==> AdaLayerNormSingle::present(
                vb@,
                lora::lora_view(lora),
                embedding_dim as nat,
                embedding_coefficient as nat,
            ),
            vb@.sound() && lora::adapter_sound(lora::lora_view(lora)) && AdaLayerNormSingle::present(
                vb@,
                lora::lora_view(lora),
                embedding_dim as nat,
                embedding_coefficient as nat,
            ) ==> r is Ok,
            embedding_coefficient * embedding_dim > usize::MAX ==> r is Err,
    {
        proof {
            let linear_vb = vb@.pp("linear"@);
            let width = embedding_coefficient as nat * embedding_dim as nat;
            if vb@.sound() && linear_vb.holds("weight"@, seq![width, embedding_dim as nat]) {
                weights::lemma_axis_counts(linear_vb, "weight"@, seq![width, embedding_dim as nat], 0);
            }
        }
        let emb_lora = sub_lora(lora, "emb");
        let linear_lora = sub_lora(lora, "linear");
        let emb = PixArtAlphaCombinedTimestepSizeEmbeddings::new_with_lora(
            embedding_dim,
            &vb.pp("emb"),
            emb_lora.as_ref(),
        )?;
        let width: usize = match embedding_coefficient.checked_mul(embedding_dim) {
            Some(w) => w,
            None => {
                return Err(Failure::Overflow);
            },
        };
        assert(embedding_coefficient > 0 && embedding_dim > 0 ==> width > 0) by (nonlinear_arith)
            requires
                width == embedding_coefficient * embedding_dim,
        ;
        let linear = lora::linear(embedding_dim, width, &vb.pp("linear"), linear_lora.as_ref())?;
        Ok(AdaLayerNormSingle { emb, linear })
    }

    /// Whether this network embeds a timestep with `dim` numbers and gives `width` parameters
    /// for it, in main memory and in single precision.
    pub open spec fn maps(&self, dim: nat, width: nat) -> bool {
        &&& self.emb.time_proj.num_channels == 256
        &&& self.emb.timestep_embedder.maps(256, dim, dim)
        &&& self.linear.maps(dim, width)
    }

    /// The modulation parameters and the embedded timestep.
    pub fn forward_with_embedded(&self, timestep: &Array, hidden_dtype: Dtype) -> (r: Result<
        (Array, Array),
        Failure,
    >)
        ensures
            r matches Ok(t) ==> t.0@ == self.modulation(timestep@, hidden_dtype) && t.1@ == self.embedded(
                timestep@,
            ),
            forall|dim: nat, width: nat| #[trigger]
                self.maps(dim, width) && hidden_dtype == Dtype::F32 && timestep_embedding::embeds(timestep, 256)
                    && model::fits(seq![timestep@.dims[0], dim]) && model::fits(seq![timestep@.dims[0], width]) ==> (
                r matches Ok(t) && t.0@.dims == seq![timestep@.dims[0], width] && t.1@.dims == seq![
                    timestep@.dims[0],
                    dim,
                ] && t.0.on_cpu() && t.1.on_cpu() && t.0@.dtype == Dtype::F32 && t.1@.dtype == Dtype::F32),
    {
        let ghost n = timestep@.dims[0];
        proof {
            let dim = self.linear.weight@.dims[1];
            linear::lemma_rows(n, dim, self.linear.weight@.dims[0]);
            if self.maps(dim, self.linear.weight@.dims[0]) {
                assert(self.emb.timestep_embedder.maps(self.emb.time_proj.num_channels as nat, dim, dim));
            }
        }
        let embedded = self.emb.forward(timestep)?;
        let activated = silu(&embedded)?;
        let out = self.linear.forward(&activated.to_dtype(hidden_dtype)?)?;
        Ok((out, embedded))
    }
}

} // verus!
