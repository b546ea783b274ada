//! Embeddings of diffusion timesteps.
use vstd::prelude::*;

use crate::array::Array;
use crate::error::Failure;
use crate::lemmas;
use crate::model::{self, BinOp, Dtype, TensorView, UnOp};
use crate::nn::activation::{self, silu};
use crate::nn::linear::{self, Linear};
use crate::nn::lora::{self, sub_lora, LoraConfig, LoraView};
use crate::scalar::{Scalar, ONE, ZERO};
use crate::weights::{Weights, WeightsView};

verus! {

/// `-ln(max_period) / (half - shift)`.
pub open spec fn log_step_of(half: nat, shift: Scalar, max_period: nat) -> TensorView {
    let log_max = model::unary(UnOp::Neg, model::unary(UnOp::Log, model::count(max_period)));
    let span = model::binary(BinOp::Minus, model::count(half), model::number(shift));
    model::binary(BinOp::Over, log_max, span)
}

/// The `half` frequencies `exp(i * log_step)`.
pub open spec fn frequencies_of(half: nat, shift: Scalar, max_period: nat) -> TensorView {
    let exponent = model::affine(
        model::cast(model::range(half), Dtype::F32),
        log_step_of(half, shift, max_period),
        model::number(ZERO),
    );
    model::unary(UnOp::Exp, exponent)
}

/// The angle of every timestep at every frequency.
pub open spec fn angles_of(
    timesteps: TensorView,
    half: nat,
    shift: Scalar,
    scale: Scalar,
    max_period: nat,
) -> TensorView {
    let ts = model::unsqueeze(model::cast(timesteps, Dtype::F32), 1);
    let emb = model::unsqueeze(frequencies_of(half, shift, max_period), 0);
    let angles = model::binary(BinOp::Times, ts, emb);
    if scale != ONE {
        model::affine(angles, model::number(scale), model::number(ZERO))
    } else {
        angles
    }
}

/// Sines and cosines of the angles, and a zero for an odd dimension.
pub open spec fn timestep_embedding_of(
    timesteps: TensorView,
    embedding_dim: nat,
    flip_sin_to_cos: bool,
    shift: Scalar,
    scale: Scalar,
    max_period: nat,
) -> TensorView {
    let angles = angles_of(timesteps, embedding_dim / 2, shift, scale, max_period);
    let sin = model::unary(UnOp::Sin, angles);
    let cos = model::unary(UnOp::Cos, angles);
    let both = if flip_sin_to_cos {
        model::cat(seq![cos, sin], angles.rank() - 1)
    } else {
        model::cat(seq![sin, cos], angles.rank() - 1)
    };
    if embedding_dim % 2 == 1 {
        model::cat(seq![both, model::zeros(seq![both.dims[0], 1], Dtype::F32)], both.rank() - 1)
    } else {
        both
    }
}

/// Whether a list of timesteps in main memory can be embedded with `width` numbers each.
pub open spec fn embeds(timesteps: &Array, width: nat) -> bool {
    &&& timesteps.usable()
    &&& timesteps@.rank() == 1 && timesteps@.dims[0] > 0
    &&& width >= 2
    &&& model::fits(seq![timesteps@.dims[0], width])
}

/// Where the embedding can be addressed, so can its parts.
proof fn lemma_embedded_sizes(n: nat, width: nat)
    requires
        n > 0,
        width >= 2,
        model::fits(seq![n, width]),
    ensures
        model::fits(seq![n, width / 2]),
        model::fits(seq![n, width / 2 + width / 2]),
        model::fits(seq![n, 1]),
        model::fits(seq![width / 2]),
        width <= i64::MAX,
{
    let (half, whole) = (width / 2, width / 2 + width / 2);
    lemmas::lemma_numel1(n);
    lemmas::lemma_numel1(half);
    lemmas::lemma_numel_push(seq![n], width);
    lemmas::lemma_numel_push(seq![n], half);
    lemmas::lemma_numel_push(seq![n], whole);
    lemmas::lemma_numel_push(seq![n], 1);
    assert(seq![n].push(width) =~= seq![n, width]);
    assert(seq![n].push(half) =~= seq![n, half]);
    assert(seq![n].push(whole) =~= seq![n, whole]);
    assert(seq![n].push(1) =~= seq![n, 1]);
    assert(0 < n * half <= n * width && 0 < n * whole <= n * width && n * 1 <= n * width && width <= n * width)
        by (nonlinear_arith)
        requires
            n > 0,
            0 < half <= whole <= width,
    ;
    assert(half <= n * width);
    lemmas::lemma_extent_is_numel(seq![n, width]);
    lemmas::lemma_room(seq![n, half], seq![n, width]);
    lemmas::lemma_room(seq![n, whole], seq![n, width]);
    lemmas::lemma_room(seq![n, 1], seq![n, width]);
    lemmas::lemma_room(seq![half], seq![n, width]);
}

/// Sinusoidal embedding: `embedding_dim` numbers for each timestep.
pub fn get_timestep_embedding(
    timesteps: &Array,
    embedding_dim: usize,
    flip_sin_to_cos: bool,
    downscale_freq_shift: Scalar,
    scale: Scalar,
    max_period: usize,
) -> (r: Result<Array, Failure>)
    ensures
        r matches Err(e) ==> e.basic(),
        r matches Ok(t) ==> t@ == timestep_embedding_of(
            timesteps@,
            embedding_dim as nat,
            flip_sin_to_cos,
            downscale_freq_shift,
            scale,
            max_period as nat,
        ),
        embeds(timesteps, embedding_dim as nat) ==> (r matches Ok(t) && t.on_cpu()
            && t@.dtype == Dtype::F32 && t@.dims == seq![timesteps@.dims[0], embedding_dim as nat]),
{
    let ghost (n, half) = (timesteps@.dims[0], embedding_dim as nat / 2);
    let ghost fine = embeds(timesteps, embedding_dim as nat);
    proof {
        if fine {
            lemmas::lemma_table(n, half);
            lemma_embedded_sizes(n, embedding_dim as nat);
        }
    }
    let half_dim: usize = embedding_dim / 2;
    let device = timesteps.device();
    let log_max = Array::count(max_period)?.unary(UnOp::Log)?.unary(UnOp::Neg)?;
    let span = Array::count(half_dim)?.broadcast(BinOp::Minus, &Array::number(downscale_freq_shift)?)?;
    let step = log_max.broadcast(BinOp::Over, &span)?;
    let exponent = Array::range(half_dim, &device)?.to_dtype(Dtype::F32)?.scale_by(&step)?;
    let emb = exponent.unary(UnOp::Exp)?;
    let ts = timesteps.to_dtype(Dtype::F32)?.unsqueeze(1)?;
    let emb = emb.unsqueeze(0)?;
    assert(fine ==> ts@.dims =~= seq![n, 1] && emb@.dims =~= seq![1, half]);
    let emb = ts.broadcast(BinOp::Times, &emb)?;
    let emb = if scale != ONE {
        emb.scale(scale)?
    } else {
        emb
    };
    let last: usize = match emb.rank().checked_sub(1) {
        Some(l) => l,
        None => {
            return Err(Failure::Shape);
        },
    };
    let sin_emb = emb.unary(UnOp::Sin)?;
    let cos_emb = emb.unary(UnOp::Cos)?;
    proof {
        if fine {
            assert(seq![n, half].update(1, half) =~= seq![n, half]);
            assert(seq![n, half].update(1, half + half) =~= seq![n, half + half]);
            lemmas::lemma_join2(cos_emb@, sin_emb@, 1);
            lemmas::lemma_join2(sin_emb@, cos_emb@, 1);
        }
    }
    let emb = if flip_sin_to_cos {
        Array::join(cos_emb, sin_emb, last)?
    } else {
        Array::join(sin_emb, cos_emb, last)?
    };
    if embedding_dim % 2 == 1 {
        let (n, _d) = emb.dims2()?;
        let dims: Vec<usize> = vec![n, 1];
        assert(model::nats(dims@) =~= seq![n as nat, 1nat]);
        let pad = Array::zeros(&dims, Dtype::F32, &device)?;
        proof {
            if fine {
                assert(emb@.dims.update(1, 1) =~= pad@.dims);
                assert(emb@.dims.update(1, half + half + 1) =~= seq![timesteps@.dims[0], embedding_dim as nat]);
                lemmas::lemma_join2(emb@, pad@, 1);
            }
        }
        Array::join(emb, pad, 1)
    } else {
        Ok(emb)
    }
}

/// [`get_timestep_embedding`] with fixed parameters.
#[derive(Clone, Copy, Debug)]
pub struct Timesteps {
    pub num_channels: usize,
    pub flip_sin_to_cos: bool,
    pub downscale_freq_shift: Scalar,
    pub scale: Scalar,
}

impl Timesteps {
    /// What the embedding is of `timesteps`.
    pub open spec fn apply(&self, timesteps: TensorView) -> TensorView {
        timestep_embedding_of(
            timesteps,
            self.num_channels as nat,
            self.flip_sin_to_cos,
            self.downscale_freq_shift,
            self.scale,
            10000,
        )
    }

    pub fn new(num_channels: usize, flip_sin_to_cos: bool, downscale_freq_shift: Scalar, scale: Scalar) -> (r:
        Timesteps)
        ensures
            r == (Timesteps { num_channels, flip_sin_to_cos, downscale_freq_shift, scale }),
    {
        Timesteps { num_channels, flip_sin_to_cos, downscale_freq_shift, scale }
    }

    pub fn forward(&self, timesteps: &Array) -> (r: Result<Array, Failure>)
        ensures
            r matches Err(e) ==> e.basic(),
            r matches Ok(t) ==> t@ == self.apply(timesteps@),
            embeds(timesteps, self.num_channels as nat) ==> (r matches Ok(t) && t.on_cpu() && t@.dtype == Dtype::F32
                && t@.dims == seq![timesteps@.dims[0], self.num_channels as nat]),
    {
        get_timestep_embedding(
            timesteps,
            self.num_channels,
            self.flip_sin_to_cos,
            self.downscale_freq_shift,
            self.scale,
            10000,
        )
    }
}

/// A dense layer, SiLU and a dense layer.
pub struct TimestepEmbedding {
    pub linear_1: Linear,
    pub linear_2: Linear,
}

impl TimestepEmbedding {
    /// Whether this is the network that a checkpoint and an adapter hold.
    pub open spec fn loaded(&self, vb: WeightsView, lora: Option<LoraView>) -> bool {
        &&& self.linear_1@ == lora::linear_of(vb.pp("linear_1"@), lora::lora_pp(lora, "linear_1"@))
        &&& self.linear_2@ == lora::linear_of(vb.pp("linear_2"@), lora::lora_pp(lora, "linear_2"@))
    }

    /// Whether a checkpoint and an adapter hold a network of these sizes.
    pub open spec fn present(
        vb: WeightsView,
        lora: Option<LoraView>,
        in_channels: nat,
        time_embed_dim: nat,
        out_dim: nat,
    ) -> bool {
        &&& lora::has_linear(
            vb.pp("linear_1"@),
            lora::lora_pp(lora, "linear_1"@),
            in_channels,
            time_embed_dim,
            true,
        )
        &&& lora::has_linear(
            vb.pp("linear_2"@),
            lora::lora_pp(lora, "linear_2"@),
            time_embed_dim,
            out_dim,
            true,
        )
    }

    /// What the network computes from `x`, in the element type of its weights.
    pub open spec fn apply(&self, x: TensorView) -> TensorView {
        let x = model::cast(x, self.linear_1@.weight.dtype);
        self.linear_2@.apply(activation::silu_of(self.linear_1@.apply(x)))
    }

    pub fn new(in_channels: usize, time_embed_dim: usize, out_dim: Option<usize>, vb: &Weights) -> (r: Result<
        TimestepEmbedding,
        Failure,
    >)
        ensures
            r matches Ok(l) ==> l.loaded(vb@, None),
            r is Ok ==> TimestepEmbedding::present(
                vb@,
                None,
                in_channels as nat,
                time_embed_dim as nat,
                (if out_dim is Some { out_dim->0 } else { time_embed_dim }) as nat,
            ),
            vb@.sound() && TimestepEmbedding::present(
                vb@,
                None,
                in_channels as nat,
                time_embed_dim as nat,
                (if out_dim is Some { out_dim->0 } else { time_embed_dim }) as nat,
            ) ==> r is Ok,
    {
        TimestepEmbedding::new_with_lora(in_channels, time_embed_dim, out_dim, vb, None)
    }

    pub fn new_with_lora(
        in_channels: usize,
        time_embed_dim: usize,
        out_dim: Option<usize>,
        vb: &Weights,
        lora: Option<&LoraConfig>,
    ) -> (r: Result<TimestepEmbedding, Failure>)
        ensures
            r matches Ok(l) ==> l.loaded(vb@, lora::lora_view(lora)),
            r matches Ok(l) ==> vb@.in_memory && vb@.dtype == Dtype::F32 && in_channels > 0 && time_embed_dim > 0 && (
            out_dim matches Some(n) ==> n > 0) ==> l.maps(
                in_channels as nat,
                time_embed_dim as nat,
                (if out_dim is Some { out_dim->0 } else { time_embed_dim }) as nat,
            ),
            r is Ok ==> TimestepEmbedding::present(
                vb@,
                lora::lora_view(lora),
                in_channels as nat,
                time_embed_dim as nat,
                (if out_dim is Some { out_dim->0 } else { time_embed_dim }) as nat,
            ),
            vb@.sound() && lora::adapter_sound(lora::lora_view(lora)) && TimestepEmbedding::present(
                vb@,
                lora::lora_view(lora),
                in_channels as nat,
                time_embed_dim as nat,
                (if out_dim is Some { out_dim->0 } else { time_embed_dim }) as nat,
            ) ==> r is Ok,
    {
        let out_dim: usize = match out_dim {
            Some(n) => n,
            None => time_embed_dim,
        };
        let linear_1_lora = sub_lora(lora, "linear_1");
        let linear_2_lora = sub_lora(lora, "linear_2");
        let linear_1 = lora::linear(in_channels, time_embed_dim, &vb.pp("linear_1"), linear_1_lora.as_ref())?;
        let linear_2 = lora::linear(time_embed_dim, out_dim, &vb.pp("linear_2"), linear_2_lora.as_ref())?;
        Ok(TimestepEmbedding { linear_1, linear_2 })
    }

    /// Whether this network maps rows of `n_in` numbers through rows of `hidden` to rows of
    /// `n_out`, in main memory and in single precision.
    pub open spec fn maps(&self, n_in: nat, hidden: nat, n_out: nat) -> bool {
        self.linear_1.maps(n_in, hidden) && self.linear_2.maps(hidden, n_out)
    }

    pub fn forward(&self, x: &Array) -> (r: Result<Array, Failure>)
        ensures
            r matches Ok(t) ==> t@ == self.apply(x@),
            forall|n_in: nat, hidden: nat, n_out: nat| #[trigger]
                self.maps(n_in, hidden, n_out) && linear::are_rows(x, n_in) && model::fits(
                    linear::with_width(x@.dims, hidden),
                ) && model::fits(linear::with_width(x@.dims, n_out)) ==> (r matches Ok(t) && linear::are_rows(&t, n_out)
                    && t@.dtype == Dtype::F32 && t@.dims == linear::with_width(x@.dims, n_out)),
    {
        assert(linear::with_width(
            linear::with_width(x@.dims, self.linear_1.weight@.dims[0]),
            self.linear_2.weight@.dims[0],
        ) =~= linear::with_width(x@.dims, self.linear_2.weight@.dims[0]));
        let x = x.to_dtype(self.linear_1.weight.dtype())?;
        let x = self.linear_1.forward(&x)?;
        let x = silu(&x)?;
        self.linear_2.forward(&x)
    }
}

/// Sinusoidal embedding with 256 channels, then [`TimestepEmbedding`].
pub struct PixArtAlphaCombinedTimestepSizeEmbeddings {
    pub time_proj: Timesteps,
    pub timestep_embedder: TimestepEmbedding,
}

impl PixArtAlphaCombinedTimestepSizeEmbeddings {
    /// Whether this is the network that a checkpoint and an adapter hold.
    pub open spec fn loaded(&self, vb: WeightsView, lora: Option<LoraView>) -> bool {
        &&& self.time_proj == (Timesteps {
            num_channels: 256,
            flip_sin_to_cos: true,
            downscale_freq_shift: ZERO,
            scale: ONE,
        })
        &&& self.timestep_embedder.loaded(
            vb.pp("timestep_embedder"@),
            lora::lora_pp(lora, "timestep_embedder"@),
        )
    }

    /// Whether a checkpoint and an adapter hold a network of this size.
    pub open spec fn present(vb: WeightsView, lora: Option<LoraView>, embedding_dim: nat) -> bool {
        TimestepEmbedding::present(
            vb.pp("timestep_embedder"@),
            lora::lora_pp(lora, "timestep_embedder"@),
            256,
            embedding_dim,
            embedding_dim,
        )
    }

    /// What the network computes from `timestep`.
    pub open spec fn apply(&self, timestep: TensorView) -> TensorView {
        self.timestep_embedder.apply(self.time_proj.apply(timestep))
    }

    pub fn new(embedding_dim: usize, vb: &Weights) -> (r: Result<
        PixArtAlphaCombinedTimestepSizeEmbeddings,
        Failure,
    >)
        ensures
            r matches Ok(l) ==> l.loaded(vb@, None),
            r is Ok ==> PixArtAlphaCombinedTimestepSizeEmbeddings::present(vb@, None, embedding_dim as nat),
            vb@.sound() && PixArtAlphaCombinedTimestepSizeEmbeddings::present(vb@, None, embedding_dim as nat) ==> r is Ok,
    {
        PixArtAlphaCombinedTimestepSizeEmbeddings::new_with_lora(embedding_dim, vb, None)
    }

    pub fn new_with_lora(embedding_dim: usize, vb: &Weights, lora: Option<&LoraConfig>) -> (r: Result<
        PixArtAlphaCombinedTimestepSizeEmbeddings,
        Failure,
    >)
        ensures
            r matches Ok(l) ==> l.loaded(vb@, lora::lora_view(lora)),
            r matches Ok(l) ==> vb@.in_memory && vb@.dtype == Dtype::F32 && embedding_dim > 0
                ==> l.timestep_embedder.maps(256, embedding_dim as nat, embedding_dim as nat),
            r is Ok ==> PixArtAlphaCombinedTimestepSizeEmbeddings::present(
                vb@,
                lora::lora_view(lora),
                embedding_dim as nat,
            ),
            vb@.sound() && lora::adapter_sound(lora::lora_view(lora)) && PixArtAlphaCombinedTimestepSizeEmbeddings::present(
                vb@,
                lora::lora_view(lora),
                embedding_dim as nat,
            ) ==> r is Ok,
    {
        let time_proj = Timesteps::new(256, true, ZERO, ONE);
        let embedder_lora = sub_lora(lora, "timestep_embedder");
        let timestep_embedder = TimestepEmbedding::new_with_lora(
            256,
            embedding_dim,
            None,
            &vb.pp("timestep_embedder"),
            embedder_lora.as_ref(),
        )?;
        Ok(PixArtAlphaCombinedTimestepSizeEmbeddings { time_proj, timestep_embedder })
    }

    pub fn forward(&self, timestep: &Array) -> (r: Result<Array, Failure>)
        ensures
            r matches Ok(t) ==> t@ == self.apply(timestep@),
            forall|hidden: nat, n_out: nat| #[trigger]
                self.timestep_embedder.maps(self.time_proj.num_channels as nat, hidden, n_out) && embeds(
                    timestep,
                    self.time_proj.num_channels as nat,
                ) && model::fits(seq![timestep@.dims[0], hidden]) && model::fits(seq![timestep@.dims[0], n_out]) ==> (
                r matches Ok(t) && t.on_cpu() && t@.dtype == Dtype::F32 && t@.dims == seq![timestep@.dims[0], n_out]),
    {
        let ghost (n, width) = (timestep@.dims[0], self.time_proj.num_channels as nat);
        proof {
            linear::lemma_rows(n, width, self.timestep_embedder.linear_1.weight@.dims[0]);
            linear::lemma_rows(n, width, self.timestep_embedder.linear_2.weight@.dims[0]);
        }
        let proj = self.time_proj.forward(timestep)?;
        self.timestep_embedder.forward(&proj)
    }
}

} // verus!
