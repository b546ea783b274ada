//! From the inputs of a stream to what the blocks need of it.
use vstd::prelude::*;

use crate::array::{self, Array};
use crate::base::config::TEN_THOUSAND;
use crate::error::Failure;
use crate::lemmas;
use crate::model::{self, BinOp, Dtype, TensorView};
use crate::nn::adaln::AdaLayerNormSingle;
use crate::nn::linear::{self, Linear};
use crate::nn::rope::{self, precompute_freqs_cis, LTXRopeType};
use crate::nn::text_projection::PixArtAlphaTextProjection;
use crate::scalar::{Scalar, MINUS_ONE, ONE, ZERO};
use crate::transformer::modality::{self, ArgsView, Modality, ModalityView, TransformerArgs};

verus! {

/// Prepares the inputs of one stream.
pub struct TransformerArgsPreprocessor {
    pub patchify_proj: Linear,
    pub adaln: AdaLayerNormSingle,
    pub caption_projection: Option<PixArtAlphaTextProjection>,
    pub prompt_adaln: Option<AdaLayerNormSingle>,
    pub inner_dim: usize,
    pub max_pos: Vec<usize>,
    pub num_attention_heads: usize,
    pub use_middle_indices_grid: bool,
    pub timestep_scale_multiplier: usize,
    pub positional_embedding_theta: Scalar,
    pub rope_type: LTXRopeType,
}

/// The number of tokens of each sample, when the last axis of `x` holds one token.
pub open spec fn tokens_of(x: TensorView, batch: nat) -> nat {
    model::numel(x.dims) / (batch * x.dims.last())
}

/// `x` with its tokens shared out to `batch` samples.
pub open spec fn by_sample_of(x: TensorView, batch: nat) -> TensorView {
    model::reshape(x, seq![batch, tokens_of(x, batch), x.dims.last()])
}

/// Timesteps times a single number, along one axis.
pub open spec fn scaled_steps_of(timestep: TensorView, scale: TensorView) -> TensorView {
    model::flatten(model::affine(timestep, scale, model::number(ZERO)))
}

/// The modulation of each token.
pub open spec fn modulation_of(
    timestep: TensorView,
    batch: nat,
    dtype: Dtype,
    adaln: AdaLayerNormSingle,
    scale: TensorView,
) -> TensorView {
    by_sample_of(adaln.modulation(scaled_steps_of(timestep, scale), dtype), batch)
}

/// The embedded timestep of each token.
pub open spec fn embedded_of(
    timestep: TensorView,
    batch: nat,
    dtype: Dtype,
    adaln: AdaLayerNormSingle,
    scale: TensorView,
) -> TensorView {
    let steps = scaled_steps_of(timestep, scale);
    let embedded = adaln.embedded(steps);
    model::reshape(
        embedded,
        seq![batch, tokens_of(adaln.modulation(steps, dtype), batch), embedded.dims.last()],
    )
}

/// Whether the modulation of timesteps in main memory can be computed, in single precision, and
/// shared out to `batch` samples.
pub open spec fn modulates_steps(adaln: AdaLayerNormSingle, timestep: TensorView, batch: nat) -> bool {
    let n = model::numel(timestep.dims);
    let dim = adaln.emb.timestep_embedder.linear_2.weight@.dims[0];
    let width = adaln.linear.weight@.dims[0];
    &&& adaln.maps(dim, width)
    &&& timestep.dtype.float()
    &&& batch > 0 && n > 0 && n % batch == 0
    &&& model::fits(seq![n, 256]) && model::fits(seq![n, dim]) && model::fits(seq![n, width])
}

/// Rows that are shared out to samples are as many as before.
proof fn lemma_shared(n: nat, batch: nat, width: nat)
    requires
        batch > 0 && n > 0 && width > 0,
        n % batch == 0,
        model::fits(seq![n, width]),
    ensures
        model::numel(seq![n, width]) == n * width,
        n * width / (batch * width) == n / batch,
        0 < batch * width <= usize::MAX,
        model::fits(seq![batch, n / batch, width]),
        model::numel(seq![batch, n / batch, width]) == n * width,
{
    let q = n / batch;
    vstd::arithmetic::div_mod::lemma_fundamental_div_mod(n as int, batch as int);
    assert(n == batch * q);
    assert(q > 0) by (nonlinear_arith)
        requires
            n == batch * q,
            n > 0,
    ;
    lemmas::lemma_numel2(n, width);
    lemmas::lemma_numel3(batch, q, width);
    let per = batch * width;
    assert(per > 0) by (nonlinear_arith)
        requires
            per == batch * width,
            batch > 0,
            width > 0,
    ;
    assert(n * width == per * q && n * width > 0 && per <= per * q && n * width == batch * q * width) by (nonlinear_arith)
        requires
            n == batch * q,
            per == batch * width,
            per > 0,
            q > 0,
    ;
    vstd::arithmetic::div_mod::lemma_div_multiples_vanish(q as int, per as int);
    lemmas::lemma_extent_is_numel(seq![n, width]);
    lemmas::lemma_room(seq![batch, q, width], seq![n, width]);
}

/// The number of tokens of each sample.
fn token_count(x: &Array, batch_size: usize) -> (r: Result<(usize, usize), Failure>)
    ensures
        r matches Ok(n) ==> n.0 == tokens_of(x@, batch_size as nat) && x@.rank() > 0 && n.1 == x@.dims.last(),
        r matches Err(e) ==> e.basic(),
        x@.rank() > 0 && 0 < batch_size * x@.dims.last() <= usize::MAX ==> r is Ok,
{
    let dims = x.dims();
    if dims.len() == 0 {
        return Err(Failure::Shape);
    }
    let last: usize = dims[dims.len() - 1];
    assert(x@.dims.last() == last);
    let per_token: usize = match batch_size.checked_mul(last) {
        Some(p) => p,
        None => {
            return Err(Failure::Overflow);
        },
    };
    if per_token == 0 {
        return Err(Failure::Shape);
    }
    Ok((x.elem_count() / per_token, last))
}

impl TransformerArgsPreprocessor {
    pub fn new(
        patchify_proj: Linear,
        adaln: AdaLayerNormSingle,
        caption_projection: Option<PixArtAlphaTextProjection>,
        prompt_adaln: Option<AdaLayerNormSingle>,
        inner_dim: usize,
        max_pos: Vec<usize>,
        num_attention_heads: usize,
        use_middle_indices_grid: bool,
        timestep_scale_multiplier: usize,
        positional_embedding_theta: Scalar,
        rope_type: LTXRopeType,
    ) -> (r: TransformerArgsPreprocessor)
        ensures
            r == (TransformerArgsPreprocessor {
                patchify_proj,
                adaln,
                caption_projection,
                prompt_adaln,
                inner_dim,
                max_pos,
                num_attention_heads,
                use_middle_indices_grid,
                timestep_scale_multiplier,
                positional_embedding_theta,
                rope_type,
            }),
    {
        TransformerArgsPreprocessor {
            patchify_proj,
            adaln,
            caption_projection,
            prompt_adaln,
            inner_dim,
            max_pos,
            num_attention_heads,
            use_middle_indices_grid,
            timestep_scale_multiplier,
            positional_embedding_theta,
            rope_type,
        }
    }

    /// The modulation and the embedded timestep of each token.
    fn prepare_timestep(&self, timestep: &Array, batch_size: usize, hidden_dtype: Dtype) -> (r: Result<
        (Array, Array),
        Failure,
    >)
        ensures
            r matches Ok(t) ==> t.0@ == modulation_of(
                timestep@,
                batch_size as nat,
                hidden_dtype,
                self.adaln,
                model::count(self.timestep_scale_multiplier as nat),
            ) && t.1@ == embedded_of(
                timestep@,
                batch_size as nat,
                hidden_dtype,
                self.adaln,
                model::count(self.timestep_scale_multiplier as nat),
            ),
            timestep.on_cpu() && hidden_dtype == Dtype::F32
                && modulates_steps(self.adaln, timestep@, batch_size as nat) ==> (r matches Ok(t) && t.0.on_cpu()
                && t.1.on_cpu()),
    {
        let scale = Array::count(self.timestep_scale_multiplier)?;
        prepare_timestep_with_adaln(timestep, batch_size, hidden_dtype, &self.adaln, &scale)
    }

    /// The text projected to the width of `x`.
    pub open spec fn context_of(&self, context: TensorView, x: TensorView) -> TensorView {
        let projected = match self.caption_projection {
            Some(p) => p.apply(context),
            None => context,
        };
        let seq_len = model::numel(projected.dims) / (x.dims[0] * x.dims.last());
        model::reshape(projected, seq![x.dims[0], seq_len, x.dims.last()])
    }

    /// Whether a text `(B, S, D)` in main memory can be projected to `width`, in single precision.
    pub open spec fn projects(&self, context: TensorView, batch: nat, width: nat) -> bool {
        let d = context.dims;
        &&& context.dtype == Dtype::F32 && d.len() == 3 && d[0] == batch && model::numel(d) > 0 && width > 0
        &&& model::fits(seq![d[0], d[1], width])
        &&& match self.caption_projection {
            Some(p) => {
                let hidden = p.linear_1.weight@.dims[0];
                p.maps(d[2], hidden, width) && model::fits(seq![d[0], d[1], hidden])
            },
            None => d[2] == width,
        }
    }

    /// Projects the text.
    fn prepare_context(&self, context: &Array, x: &Array) -> (r: Result<Array, Failure>)
        ensures
            r matches Ok(t) ==> t@ == self.context_of(context@, x@),
            context.on_cpu() && x@.rank() > 0 && self.projects(context@, x@.dims[0], x@.dims.last()) ==> (
            r matches Ok(t) && t.on_cpu()),
    {
        let ghost fine = context.on_cpu() && x@.rank() > 0 && self.projects(context@, x@.dims[0], x@.dims.last());
        let ghost d = context@.dims;
        proof {
            if fine {
                assert(d =~= seq![d[0], d[1], d[2]]);
                let width = x@.dims.last();
                assert(linear::with_width(d, width) =~= seq![d[0], d[1], width]);
                lemmas::lemma_numel3(d[0], d[1], d[2]);
                lemmas::lemma_factors(d[0], d[1], d[2]);
                lemma_text(d[0], d[1], width);
                if self.caption_projection is Some {
                    let p = self.caption_projection->0;
                    let hidden = p.linear_1.weight@.dims[0];
                    assert(linear::with_width(d, hidden) =~= seq![d[0], d[1], hidden]);
                    assert(p.maps(d[2], hidden, width));
                }
            }
        }
        let dims = x.dims();
        if dims.len() == 0 {
            return Err(Failure::Shape);
        }
        let batch_size: usize = dims[0];
        let x_dim: usize = dims[dims.len() - 1];
        assert(x@.dims[0] == batch_size && x@.dims.last() == x_dim);
        let projected = match &self.caption_projection {
            Some(proj) => proj.forward(context)?,
            None => context.clone(),
        };
        let per_token: usize = match batch_size.checked_mul(x_dim) {
            Some(p) => p,
            None => {
                return Err(Failure::Overflow);
            },
        };
        if per_token == 0 {
            return Err(Failure::Shape);
        }
        let seq_len: usize = projected.elem_count() / per_token;
        projected.reshape3(batch_size, seq_len, x_dim)
    }

    /// The rotation for given positions.
    pub open spec fn rotation_of(
        &self,
        positions: TensorView,
        inner_dim: nat,
        max_pos: Seq<usize>,
        middle: bool,
        heads: nat,
        dtype: Dtype,
    ) -> (TensorView, TensorView) {
        rope::freqs_cis_of(
            positions,
            inner_dim,
            dtype,
            self.positional_embedding_theta,
            max_pos,
            middle,
            heads,
            self.rope_type,
        )
    }

    /// The rotation for given positions.
    pub fn prepare_positional_embeddings(
        &self,
        positions: &Array,
        inner_dim: usize,
        max_pos: &Vec<usize>,
        use_middle_indices_grid: bool,
        num_attention_heads: usize,
        x_dtype: Dtype,
    ) -> (r: Result<(Array, Array), Failure>)
        ensures
            r matches Ok(p) ==> (p.0@, p.1@) == self.rotation_of(
                positions@,
                inner_dim as nat,
                max_pos@,
                use_middle_indices_grid,
                num_attention_heads as nat,
                x_dtype,
            ),
            positions.on_cpu() && x_dtype == Dtype::F32 && self.rotates(
                positions@,
                inner_dim as nat,
                max_pos@,
                num_attention_heads as nat,
            ) ==> (r matches Ok(p) && p.0.on_cpu() && p.1.on_cpu()),
    {
        precompute_freqs_cis(
            positions,
            inner_dim,
            x_dtype,
            self.positional_embedding_theta,
            max_pos,
            use_middle_indices_grid,
            num_attention_heads,
            self.rope_type,
            &positions.device(),
        )
    }

    /// Whether the rotation for positions in main memory can be computed.
    pub open spec fn rotates(
        &self,
        positions: TensorView,
        inner_dim: nat,
        max_pos: Seq<usize>,
        heads: nat,
    ) -> bool {
        let d = positions.dims;
        &&& positions.dtype.float() && d.len() == 4 && d[3] == 2 && d[1] == max_pos.len() && d[0] > 0 && d[2] > 0
        &&& 0 < max_pos.len() && 2 * max_pos.len() <= inner_dim
        &&& model::fits(seq![d[0], d[2], inner_dim])
        &&& self.rope_type == LTXRopeType::Split ==> heads != 0 && (inner_dim / 2) % heads == 0
    }

    /// Whether inputs in main memory can be prepared, in single precision.
    pub open spec fn prepares(&self, m: ModalityView) -> bool {
        let d = m.latent.dims;
        let width = self.patchify_proj.weight@.dims[0];
        &&& m.latent.dtype == Dtype::F32 && d.len() == 3 && model::numel(d) > 0
        &&& self.patchify_proj.maps(d[2], width) && model::fits(seq![d[0], d[1], width])
        &&& modulates_steps(self.adaln, m.timesteps, d[0])
        &&& self.prompt_adaln is Some && m.sigma is Some ==> modulates_steps(self.prompt_adaln->0, m.sigma->0, d[0])
        &&& self.projects(m.context, d[0], width)
        &&& m.context_mask matches Some(mask) ==> is_mask(mask)
        &&& self.rotates(m.positions, self.inner_dim as nat, self.max_pos@, self.num_attention_heads as nat)
    }

    /// What the blocks get of a modality.
    pub open spec fn prepared(&self, m: ModalityView) -> ArgsView {
        let x = self.patchify_proj@.apply(m.latent);
        let batch = x.dims[0];
        let dtype = m.latent.dtype;
        let scale = model::count(self.timestep_scale_multiplier as nat);
        ArgsView {
            x,
            context: self.context_of(m.context, x),
            context_mask: attention_mask_of(m.context_mask, dtype),
            timesteps: modulation_of(m.timesteps, batch, dtype, self.adaln, scale),
            embedded_timestep: embedded_of(m.timesteps, batch, dtype, self.adaln, scale),
            positional_embeddings: self.rotation_of(
                m.positions,
                self.inner_dim as nat,
                self.max_pos@,
                self.use_middle_indices_grid,
                self.num_attention_heads as nat,
                dtype,
            ),
            cross_positional_embeddings: None,
            cross_scale_shift_timestep: None,
            cross_gate_timestep: None,
            prompt_timestep: if self.prompt_adaln is Some && m.sigma is Some {
                Some(modulation_of(m.sigma->0, batch, dtype, self.prompt_adaln->0, scale))
            } else {
                None
            },
            enabled: m.enabled,
        }
    }

    /// Prepares the inputs of one stream.
    pub fn prepare(&self, modality: &Modality) -> (r: Result<TransformerArgs, Failure>)
        ensures
            r matches Ok(a) ==> a@ == self.prepared(modality@),
            r matches Ok(a) ==> a.x@.dims == linear::with_width(
                modality.latent@.dims,
                self.patchify_proj.weight@.dims[0],
            ),
            modality.in_memory() && self.prepares(modality@) ==> (r matches Ok(a) && a.in_memory()),
    {
        let ghost fine = modality.in_memory() && self.prepares(modality@);
        proof {
            if fine {
                let d = modality.latent@.dims;
                let width = self.patchify_proj.weight@.dims[0];
                assert(linear::with_width(d, width) =~= seq![d[0], d[1], width]);
            }
        }
        let x = self.patchify_proj.forward(&modality.latent)?;
        let batch_size: usize = x.dim(0)?;
        let hidden_dtype = modality.latent.dtype();
        let (timesteps, embedded_timestep) = self.prepare_timestep(
            &modality.timesteps,
            batch_size,
            hidden_dtype,
        )?;
        let prompt_timestep = match (&self.prompt_adaln, &modality.sigma) {
            (Some(prompt_adaln), Some(sigma)) => {
                let scale = Array::count(self.timestep_scale_multiplier)?;
                let (modulation, _embedded) = prepare_timestep_with_adaln(
                    sigma,
                    batch_size,
                    hidden_dtype,
                    prompt_adaln,
                    &scale,
                )?;
                Some(modulation)
            },
            _ => None,
        };
        let context = self.prepare_context(&modality.context, &x)?;
        let context_mask = prepare_attention_mask(modality.context_mask.as_ref(), hidden_dtype)?;
        let positional_embeddings = self.prepare_positional_embeddings(
            &modality.positions,
            self.inner_dim,
            &self.max_pos,
            self.use_middle_indices_grid,
            self.num_attention_heads,
            hidden_dtype,
        )?;
        Ok(
            TransformerArgs {
                x,
                context,
                context_mask,
                timesteps,
                embedded_timestep,
                positional_embeddings,
                cross_positional_embeddings: None,
                cross_scale_shift_timestep: None,
                cross_gate_timestep: None,
                prompt_timestep,
                enabled: modality.enabled,
            },
        )
    }
}

/// A text of so many positions takes as much room as is counted.
proof fn lemma_text(b: nat, s: nat, width: nat)
    requires
        b > 0 && s > 0 && width > 0,
        model::fits(seq![b, s, width]),
    ensures
        model::numel(seq![b, s, width]) == b * s * width,
        0 < b * width <= usize::MAX,
        b * s * width / (b * width) == s,
        b * s * width > 0,
{
    lemmas::lemma_numel3(b, s, width);
    let per = b * width;
    assert(per > 0 && b * s * width == per * s && per <= per * s) by (nonlinear_arith)
        requires
            per == b * width,
            b > 0,
            s > 0,
            width > 0,
    ;
    vstd::arithmetic::div_mod::lemma_div_multiples_vanish(s as int, per as int);
    assert(per * s > 0) by (nonlinear_arith)
        requires
            per > 0,
            s > 0,
    ;
    lemmas::lemma_extent_is_numel(seq![b, s, width]);
}

/// The modulation and the embedded timestep of each token. Timesteps are floating-point numbers.
pub fn prepare_timestep_with_adaln(
    timestep: &Array,
    batch_size: usize,
    hidden_dtype: Dtype,
    adaln: &AdaLayerNormSingle,
    scale: &Array,
) -> (r: Result<(Array, Array), Failure>)
    ensures
        r matches Ok(t) ==> t.0@ == modulation_of(
            timestep@,
            batch_size as nat,
            hidden_dtype,
            *adaln,
            scale@,
        ) && t.1@ == embedded_of(timestep@, batch_size as nat, hidden_dtype, *adaln, scale@),
        timestep.on_cpu() && scale.single() && hidden_dtype == Dtype::F32 && modulates_steps(
            *adaln,
            timestep@,
            batch_size as nat,
        ) ==> (r matches Ok(t) && t.0.on_cpu() && t.1.on_cpu()),
{
    let ghost n = model::numel(timestep@.dims);
    let ghost dim = adaln.emb.timestep_embedder.linear_2.weight@.dims[0];
    let ghost width = adaln.linear.weight@.dims[0];
    proof {
        if modulates_steps(*adaln, timestep@, batch_size as nat) {
            assert(adaln.maps(dim, width));
            lemma_shared(n, batch_size as nat, dim);
            lemma_shared(n, batch_size as nat, width);
        }
    }
    let flat = timestep.scale_by(scale)?.flatten_all()?;
    let (ts_out, embedded) = adaln.forward_with_embedded(&flat, hidden_dtype)?;
    let (n_tokens, ts_dim) = token_count(&ts_out, batch_size)?;
    let emb_dims = embedded.dims();
    if emb_dims.len() == 0 {
        return Err(Failure::Shape);
    }
    let emb_dim: usize = emb_dims[emb_dims.len() - 1];
    assert(embedded@.dims.last() == emb_dim);
    let ts_out = ts_out.reshape3(batch_size, n_tokens, ts_dim)?;
    let embedded = embedded.reshape3(batch_size, n_tokens, emb_dim)?;
    Ok((ts_out, embedded))
}

/// Prepares the inputs of one of two streams that attend to each other.
pub struct MultiModalTransformerArgsPreprocessor {
    pub simple: TransformerArgsPreprocessor,
    pub cross_scale_shift_adaln: AdaLayerNormSingle,
    pub cross_gate_adaln: AdaLayerNormSingle,
    pub cross_pe_max_pos: usize,
    pub audio_cross_attention_dim: usize,
    pub av_ca_timestep_scale_multiplier: Scalar,
}

impl MultiModalTransformerArgsPreprocessor {
    pub fn new(
        simple: TransformerArgsPreprocessor,
        cross_scale_shift_adaln: AdaLayerNormSingle,
        cross_gate_adaln: AdaLayerNormSingle,
        cross_pe_max_pos: usize,
        audio_cross_attention_dim: usize,
        av_ca_timestep_scale_multiplier: Scalar,
    ) -> (r: MultiModalTransformerArgsPreprocessor)
        ensures
            r == (MultiModalTransformerArgsPreprocessor {
                simple,
                cross_scale_shift_adaln,
                cross_gate_adaln,
                cross_pe_max_pos,
                audio_cross_attention_dim,
                av_ca_timestep_scale_multiplier,
            }),
    {
        MultiModalTransformerArgsPreprocessor {
            simple,
            cross_scale_shift_adaln,
            cross_gate_adaln,
            cross_pe_max_pos,
            audio_cross_attention_dim,
            av_ca_timestep_scale_multiplier,
        }
    }

    /// Timesteps on the scale of the stream.
    pub open spec fn steps_of(&self, timestep: TensorView) -> TensorView {
        scaled_steps_of(timestep, model::count(self.simple.timestep_scale_multiplier as nat))
    }

    /// Modulation for attention between the streams.
    pub open spec fn cross_modulation_of(&self, timestep: TensorView, batch: nat, dtype: Dtype) -> TensorView {
        by_sample_of(self.cross_scale_shift_adaln.modulation(self.steps_of(timestep), dtype), batch)
    }

    /// Gates for attention between the streams.
    pub open spec fn cross_gates_of(&self, timestep: TensorView, batch: nat, dtype: Dtype) -> TensorView {
        let factor = model::binary(
            BinOp::Over,
            model::number(self.av_ca_timestep_scale_multiplier),
            model::count(self.simple.timestep_scale_multiplier as nat),
        );
        let steps = model::affine(self.steps_of(timestep), factor, model::number(ZERO));
        by_sample_of(self.cross_gate_adaln.modulation(steps, dtype), batch)
    }

    /// Whether modulation and gates for attention between the streams can be computed from
    /// timesteps in main memory, in single precision.
    pub open spec fn modulates_cross(&self, timestep: TensorView, batch: nat) -> bool {
        &&& modulates_steps(self.cross_scale_shift_adaln, timestep, batch)
        &&& modulates_steps(self.cross_gate_adaln, timestep, batch)
    }

    /// Modulation and gates for attention between the streams.
    fn prepare_cross_attention_timestep(&self, timestep: &Array, batch_size: usize, hidden_dtype: Dtype) -> (r:
        Result<(Array, Array), Failure>)
        ensures
            r matches Ok(t) ==> t.0@ == self.cross_modulation_of(
                timestep@,
                batch_size as nat,
                hidden_dtype,
            ) && t.1@ == self.cross_gates_of(timestep@, batch_size as nat, hidden_dtype),
            timestep.on_cpu() && hidden_dtype == Dtype::F32 && self.modulates_cross(timestep@, batch_size as nat) ==> (
            r matches Ok(t) && t.0.on_cpu() && t.1.on_cpu()),
    {
        proof {
            if self.modulates_cross(timestep@, batch_size as nat) {
                let n = model::numel(timestep@.dims);
                let (ss, gate) = (self.cross_scale_shift_adaln, self.cross_gate_adaln);
                let ss_width = ss.linear.weight@.dims[0];
                let gate_width = gate.linear.weight@.dims[0];
                assert(ss.maps(ss.emb.timestep_embedder.linear_2.weight@.dims[0], ss_width));
                assert(gate.maps(gate.emb.timestep_embedder.linear_2.weight@.dims[0], gate_width));
                lemma_shared(n, batch_size as nat, ss_width);
                lemma_shared(n, batch_size as nat, gate_width);
            }
        }
        let ts_scale = Array::count(self.simple.timestep_scale_multiplier)?;
        let scaled = timestep.scale_by(&ts_scale)?.flatten_all()?;
        let factor = Array::number(self.av_ca_timestep_scale_multiplier)?.broadcast(BinOp::Over, &ts_scale)?;
        let (ss_ts, _ss_embedded) = self.cross_scale_shift_adaln.forward_with_embedded(&scaled, hidden_dtype)?;
        let (n_tok, ss_dim) = token_count(&ss_ts, batch_size)?;
        let ss_ts = ss_ts.reshape3(batch_size, n_tok, ss_dim)?;
        let gate_input = scaled.scale_by(&factor)?;
        let (gate_ts, _gate_embedded) = self.cross_gate_adaln.forward_with_embedded(&gate_input, hidden_dtype)?;
        let (n_tok2, gate_dim) = token_count(&gate_ts, batch_size)?;
        let gate_ts = gate_ts.reshape3(batch_size, n_tok2, gate_dim)?;
        Ok((ss_ts, gate_ts))
    }

    pub fn prepare(&self, modality: &Modality) -> (r: Result<TransformerArgs, Failure>)
        ensures
            r matches Ok(a) ==> a@ == self.prepared(modality@, None),
            modality.in_memory() && self.prepares(modality@, None) ==> (r matches Ok(a) && a.in_memory()),
    {
        self.prepare_with_cross_modality(modality, None)
    }

    /// Whether the noise level of the other stream can be given to each token of this one.
    pub open spec fn spreads_sigma(sigma: TensorView, timesteps: Seq<nat>, batch: nat) -> bool {
        &&& sigma.dtype.plain()
        &&& if sigma.rank() == 1 {
            &&& sigma.dims[0] == batch && batch > 0
            &&& model::broadcastable(seq![batch, 1], timesteps)
        } else {
            model::broadcastable(sigma.dims, timesteps)
        }
    }

    /// Whether inputs in main memory can be prepared beside another stream, in single precision.
    pub open spec fn prepares(&self, m: ModalityView, other: Option<ModalityView>) -> bool {
        let batch = m.latent.dims[0];
        &&& self.simple.prepares(m)
        &&& self.simple.rotates(
            model::narrow(m.positions, 1, 0, 1),
            self.audio_cross_attention_dim as nat,
            seq![self.cross_pe_max_pos],
            self.simple.num_attention_heads as nat,
        )
        &&& other matches Some(o) ==> o.sigma matches Some(sigma)
            ==> MultiModalTransformerArgsPreprocessor::spreads_sigma(sigma, m.timesteps.dims, batch)
        &&& self.modulates_cross(self.cross_steps_of(m, other, batch), batch)
    }

    /// The timesteps for attention between the streams: the noise level of the other
    /// stream where it is known.
    pub open spec fn cross_steps_of(&self, m: ModalityView, other: Option<ModalityView>, batch: nat) -> TensorView {
        if other is Some && other->0.sigma is Some {
            let sigma = other->0.sigma->0;
            let column = if sigma.rank() == 1 {
                model::reshape(sigma, seq![batch, 1])
            } else {
                sigma
            };
            model::broadcast_to(column, m.timesteps.dims)
        } else {
            m.timesteps
        }
    }

    /// What the blocks get of a modality beside another.
    pub open spec fn prepared(&self, m: ModalityView, other: Option<ModalityView>) -> ArgsView {
        let args = self.simple.prepared(m);
        let batch = args.x.dims[0];
        let dtype = m.latent.dtype;
        let steps = self.cross_steps_of(m, other, batch);
        ArgsView {
            cross_positional_embeddings: Some(
                self.simple.rotation_of(
                    model::narrow(m.positions, 1, 0, 1),
                    self.audio_cross_attention_dim as nat,
                    seq![self.cross_pe_max_pos],
                    true,
                    self.simple.num_attention_heads as nat,
                    dtype,
                ),
            ),
            cross_scale_shift_timestep: Some(self.cross_modulation_of(steps, batch, dtype)),
            cross_gate_timestep: Some(self.cross_gates_of(steps, batch, dtype)),
            ..args
        }
    }

    /// Prepares the inputs of one stream beside another.
    pub fn prepare_with_cross_modality(&self, modality: &Modality, cross_modality: Option<&Modality>) -> (r: Result<
        TransformerArgs,
        Failure,
    >)
        ensures
            r matches Ok(a) ==> a@ == self.prepared(modality@, modality::modality_view(cross_modality)),
            modality.in_memory() && modality::opt_in_memory(cross_modality) && self.prepares(
                modality@,
                modality::modality_view(cross_modality),
            ) ==> (r matches Ok(a) && a.in_memory()),
    {
        let ghost fine = modality.in_memory() && modality::opt_in_memory(cross_modality) && self.prepares(
            modality@,
            modality::modality_view(cross_modality),
        );
        let args = self.simple.prepare(modality)?;
        let batch_size: usize = args.x.dim(0)?;
        proof {
            if fine {
                let d = modality.latent@.dims;
                let width = self.simple.patchify_proj.weight@.dims[0];
                assert(linear::with_width(d, width) =~= seq![d[0], d[1], width]);
                assert(batch_size == d[0]);
                lemmas::lemma_numel2(batch_size as nat, 1);
                assert(batch_size as nat * 1 == batch_size) by (nonlinear_arith);
                lemmas::lemma_numel1(batch_size as nat);
            }
        }
        let hidden_dtype = modality.latent.dtype();
        let temporal_positions = modality.positions.narrow(1, 0, 1)?;
        let max_pos: Vec<usize> = vec![self.cross_pe_max_pos];
        assert(max_pos@ =~= seq![self.cross_pe_max_pos]);
        let cross_pe = self.simple.prepare_positional_embeddings(
            &temporal_positions,
            self.audio_cross_attention_dim,
            &max_pos,
            true,
            self.simple.num_attention_heads,
            hidden_dtype,
        )?;
        let sigma = match cross_modality {
            Some(m) => m.sigma.as_ref(),
            None => None,
        };
        let cross_timestep = match sigma {
            Some(sigma) => {
                proof {
                    if fine && sigma@.rank() == 1 {
                        assert(sigma@.dims =~= seq![batch_size as nat]);
                        let (d, width) = (modality.latent@.dims, self.simple.patchify_proj.weight@.dims[0]);
                        assert(d =~= seq![d[0], d[1], d[2]]);
                        lemmas::lemma_numel3(d[0], d[1], d[2]);
                        lemmas::lemma_factors(d[0], d[1], d[2]);
                        lemma_text(d[0], d[1], width);
                        lemmas::lemma_factors(d[0], d[1], width);
                        lemmas::lemma_room(seq![batch_size as nat, 1], seq![d[0], d[1], width]);
                    }
                }
                let column = if sigma.rank() == 1 {
                    sigma.reshape2(batch_size, 1)?
                } else {
                    sigma.clone()
                };
                column.expand(&modality.timesteps.dims())?
            },
            None => modality.timesteps.clone(),
        };
        let (cross_ss, cross_gate) = self.prepare_cross_attention_timestep(
            &cross_timestep,
            batch_size,
            hidden_dtype,
        )?;
        Ok(
            TransformerArgs {
                x: args.x,
                context: args.context,
                context_mask: args.context_mask,
                timesteps: args.timesteps,
                embedded_timestep: args.embedded_timestep,
                positional_embeddings: args.positional_embeddings,
                cross_positional_embeddings: Some(cross_pe),
                cross_scale_shift_timestep: Some(cross_ss),
                cross_gate_timestep: Some(cross_gate),
                prompt_timestep: args.prompt_timestep,
                enabled: args.enabled,
            },
        )
    }
}

/// Prepares the inputs of a stream, alone or beside another.
pub enum ArgsPreprocessor {
    Simple(TransformerArgsPreprocessor),
    MultiModal(MultiModalTransformerArgsPreprocessor),
}

impl ArgsPreprocessor {
    /// What the blocks get of a modality.
    pub open spec fn prepared(&self, m: ModalityView, other: Option<ModalityView>) -> ArgsView {
        match self {
            ArgsPreprocessor::Simple(p) => p.prepared(m),
            ArgsPreprocessor::MultiModal(p) => p.prepared(m, other),
        }
    }

    pub fn prepare(&self, modality: &Modality) -> (r: Result<TransformerArgs, Failure>)
        ensures
            r matches Ok(a) ==> a@ == self.prepared(modality@, None),
            modality.in_memory() && self.prepares(modality@, None) ==> (r matches Ok(a) && a.in_memory()),
    {
        self.prepare_with_cross_modality(modality, None)
    }

    /// Whether inputs in main memory can be prepared, in single precision.
    pub open spec fn prepares(&self, m: ModalityView, other: Option<ModalityView>) -> bool {
        match self {
            ArgsPreprocessor::Simple(p) => p.prepares(m),
            ArgsPreprocessor::MultiModal(p) => p.prepares(m, other),
        }
    }

    pub fn prepare_with_cross_modality(&self, modality: &Modality, cross_modality: Option<&Modality>) -> (r: Result<
        TransformerArgs,
        Failure,
    >)
        ensures
            r matches Ok(a) ==> a@ == self.prepared(modality@, modality::modality_view(cross_modality)),
            modality.in_memory() && modality::opt_in_memory(cross_modality) && self.prepares(
                modality@,
                modality::modality_view(cross_modality),
            ) ==> (r matches Ok(a) && a.in_memory()),
    {
        match self {
            ArgsPreprocessor::Simple(p) => p.prepare(modality),
            ArgsPreprocessor::MultiModal(p) => p.prepare_with_cross_modality(modality, cross_modality),
        }
    }
}

/// A mask of ones and zeros as numbers to add to scores: zero where it is one,
/// -10000 where it is zero. A mask that is already of that kind stays as it is.
pub open spec fn attention_mask_of(mask: Option<TensorView>, dtype: Dtype) -> Option<TensorView> {
    match mask {
        None => None,
        Some(m) => if m.dtype.float() && m.rank() != 2 {
            Some(m)
        } else {
            let shifted = model::affine(
                model::cast(m, Dtype::F32),
                model::number(ONE),
                model::number(MINUS_ONE),
            );
            let scaled = model::affine(shifted, model::number(TEN_THOUSAND), model::number(ZERO));
            Some(model::reshape(model::cast(scaled, dtype), seq![m.dims[0], 1, 1, m.dims.last()]))
        },
    }
}

/// Whether this is a mask `(B, S)` of ones and zeros or one that is already of that kind.
pub open spec fn is_mask(mask: TensorView) -> bool {
    &&& mask.dtype.plain()
    &&& (mask.dtype.float() && mask.rank() != 2) || (mask.rank() == 2 && model::numel(mask.dims) > 0)
}

/// Makes a mask of ones and zeros into numbers to add to scores.
pub fn prepare_attention_mask(mask: Option<&Array>, dtype: Dtype) -> (r: Result<Option<Array>, Failure>)
    ensures
        r matches Ok(m) ==> array::opt_view(m) == attention_mask_of(array::opt_ref_view(mask), dtype),
        r matches Err(e) ==> e.basic(),
        mask is None ==> r is Ok,
        mask matches Some(m) && m@.dtype.float() && m@.rank() != 2 ==> r is Ok,
        mask matches Some(m) ==> m.on_cpu() && is_mask(m@) && dtype.plain() ==> r is Ok,
        r matches Ok(Some(t)) ==> t.on_cpu() == mask->0.on_cpu(),
{
    proof {
        if mask is Some && is_mask(mask->0@) {
            let d = mask->0@.dims;
            if d.len() == 2 {
                assert(d =~= seq![d[0], d[1]]);
                lemmas::lemma_numel2(d[0], d[1]);
                lemmas::lemma_numel4(d[0], 1, 1, d[1]);
                assert(d[0] * 1 * 1 * d[1] == d[0] * d[1]) by (nonlinear_arith);
            }
        }
    }
    let mask = match mask {
        None => {
            return Ok(None);
        },
        Some(m) => m,
    };
    let dims = mask.dims();
    if mask.dtype().is_float() && dims.len() != 2 {
        return Ok(Some(mask.clone()));
    }
    if dims.len() == 0 {
        return Err(Failure::Shape);
    }
    let b: usize = dims[0];
    let seq_len: usize = dims[dims.len() - 1];
    assert(mask@.dims[0] == b && mask@.dims.last() == seq_len);
    proof {
        if is_mask(mask@) {
            lemmas::lemma_room(seq![b as nat, 1, 1, seq_len as nat], mask@.dims);
        }
    }
    let float_mask = mask.to_dtype(Dtype::F32)?.shift(MINUS_ONE)?;
    let result = float_mask.scale(TEN_THOUSAND)?.to_dtype(dtype)?;
    Ok(Some(result.reshape4(b, 1, 1, seq_len)?))
}

} // verus!
