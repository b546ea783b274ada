//! The transformer as a whole.
use vstd::prelude::*;

use crate::array::Array;
use crate::base::config::{LtxModelType, TransformerConfig};
use crate::error::Failure;
use crate::lemmas;
use crate::model::{self, BinOp, Dtype, TensorView, UnOp};
use crate::nn::adaln::AdaLayerNormSingle;
use crate::nn::linear::{self, Linear, LinearView};
use crate::nn::lora::{self, nth_lora, sub_lora, LoraConfig, LoraView};
use crate::nn::rope::LTXRopeType;
use crate::nn::text_projection::PixArtAlphaTextProjection;
use crate::reals::{self, Functions};
use crate::scalar::{Scalar, ONE};
use crate::text::same;
use crate::transformer::block::{self, BasicAVTransformerBlock, BlockConfig};
use crate::transformer::modality::{self, ArgsView, Modality, ModalityView, TransformerArgs};
use crate::transformer::preprocessor::{
    ArgsPreprocessor, MultiModalTransformerArgsPreprocessor, TransformerArgsPreprocessor,
};
use crate::weights::{Weights, WeightsView};

verus! {

/// The transformer: preprocessing, blocks, and a modulated projection of each stream.
pub struct LTXModel {
    pub video_preprocessor: Option<ArgsPreprocessor>,
    pub audio_preprocessor: Option<ArgsPreprocessor>,
    pub blocks: Vec<BasicAVTransformerBlock>,
    pub video_head: Option<OutputHead>,
    pub audio_head: Option<OutputHead>,
    pub norm_eps: Scalar,
}

/// The last layers of a stream.
pub struct OutputHead {
    pub scale_shift_table: Array,
    pub proj_out: Linear,
}

/// The kind of rotation that a configuration names.
pub open spec fn rope_type_of(config: TransformerConfig) -> LTXRopeType {
    if config.rope_type@ == "split"@ {
        LTXRopeType::Split
    } else {
        LTXRopeType::Interleaved
    }
}

/// What a stream is made of: its sizes and the names of its layers.
pub struct StreamPlan<'a> {
    pub in_channels: usize,
    pub out_channels: usize,
    pub inner_dim: usize,
    pub heads: usize,
    pub patchify: (&'a str, &'a str),
    pub time_embed: (&'a str, &'a str),
    pub caption: &'a str,
    pub prompt: &'a str,
    pub table: &'a str,
    pub proj_out: &'a str,
    pub cross_scale_shift: (&'a str, &'a str),
    pub cross_gate: (&'a str, &'a str),
}

/// The mathematical model of a [`StreamPlan`].
pub struct PlanView {
    pub in_channels: nat,
    pub out_channels: nat,
    pub inner_dim: nat,
    pub heads: nat,
    pub patchify: (Seq<char>, Seq<char>),
    pub time_embed: (Seq<char>, Seq<char>),
    pub caption: Seq<char>,
    pub prompt: Seq<char>,
    pub table: Seq<char>,
    pub proj_out: Seq<char>,
    pub cross_scale_shift: (Seq<char>, Seq<char>),
    pub cross_gate: (Seq<char>, Seq<char>),
}

impl<'a> View for StreamPlan<'a> {
    type V = PlanView;

    open spec fn view(&self) -> PlanView {
        PlanView {
            in_channels: self.in_channels as nat,
            out_channels: self.out_channels as nat,
            inner_dim: self.inner_dim as nat,
            heads: self.heads as nat,
            patchify: (self.patchify.0@, self.patchify.1@),
            time_embed: (self.time_embed.0@, self.time_embed.1@),
            caption: self.caption@,
            prompt: self.prompt@,
            table: self.table@,
            proj_out: self.proj_out@,
            cross_scale_shift: (self.cross_scale_shift.0@, self.cross_scale_shift.1@),
            cross_gate: (self.cross_gate.0@, self.cross_gate.1@),
        }
    }
}

/// The video stream of a configuration.
pub open spec fn video_plan_of(config: TransformerConfig) -> PlanView {
    PlanView {
        in_channels: config.in_channels as nat,
        out_channels: config.out_channels as nat,
        inner_dim: config.num_attention_heads as nat * config.attention_head_dim as nat,
        heads: config.num_attention_heads as nat,
        patchify: ("proj_in"@, "patchify_proj"@),
        time_embed: ("time_embed"@, "adaln_single"@),
        caption: "caption_projection"@,
        prompt: "prompt_adaln_single"@,
        table: "scale_shift_table"@,
        proj_out: "proj_out"@,
        cross_scale_shift: (
            "av_cross_attn_video_scale_shift"@,
            "av_ca_video_scale_shift_adaln_single"@,
        ),
        cross_gate: ("av_cross_attn_video_a2v_gate"@, "av_ca_a2v_gate_adaln_single"@),
    }
}

/// The audio stream of a configuration.
pub open spec fn audio_plan_of(config: TransformerConfig) -> PlanView {
    PlanView {
        in_channels: config.audio_in_channels as nat,
        out_channels: config.audio_out_channels as nat,
        inner_dim: config.audio_num_attention_heads as nat * config.audio_attention_head_dim as nat,
        heads: config.audio_num_attention_heads as nat,
        patchify: ("audio_proj_in"@, "audio_patchify_proj"@),
        time_embed: ("audio_time_embed"@, "audio_adaln_single"@),
        caption: "audio_caption_projection"@,
        prompt: "audio_prompt_adaln_single"@,
        table: "audio_scale_shift_table"@,
        proj_out: "audio_proj_out"@,
        cross_scale_shift: (
            "av_cross_attn_audio_scale_shift"@,
            "av_ca_audio_scale_shift_adaln_single"@,
        ),
        cross_gate: ("av_cross_attn_audio_v2a_gate"@, "av_ca_v2a_gate_adaln_single"@),
    }
}

/// The first of two names where the checkpoint has a layer of that name, else the second.
pub open spec fn layer_name_of(vb: WeightsView, names: (Seq<char>, Seq<char>)) -> Seq<char> {
    if vb.pp(names.0).has("weight"@) {
        names.0
    } else {
        names.1
    }
}

/// The same for a modulation network, which is known by its last layer.
pub open spec fn adaln_name_of(vb: WeightsView, names: (Seq<char>, Seq<char>)) -> Seq<char> {
    if vb.pp(names.0).pp("linear"@).has("weight"@) {
        names.0
    } else {
        names.1
    }
}

fn adaln_name<'a>(vb: &Weights, names: (&'a str, &'a str)) -> (r: &'a str)
    ensures
        r@ == adaln_name_of(vb@, (names.0@, names.1@)),
{
    if vb.pp(names.0).pp("linear").contains_tensor("weight") {
        names.0
    } else {
        names.1
    }
}

/// Whether this is the modulation network under the first of two names that the
/// checkpoint has.
pub open spec fn adaln_loaded(
    adaln: AdaLayerNormSingle,
    names: (Seq<char>, Seq<char>),
    vb: WeightsView,
    lora: Option<LoraView>,
) -> bool {
    let name = adaln_name_of(vb, names);
    adaln.loaded(vb.pp(name), lora::lora_pp(lora, name))
}

/// Whether the checkpoint holds that network with these sizes.
pub open spec fn adaln_present(
    names: (Seq<char>, Seq<char>),
    vb: WeightsView,
    lora: Option<LoraView>,
    dim: nat,
    coefficient: nat,
) -> bool {
    let name = adaln_name_of(vb, names);
    AdaLayerNormSingle::present(vb.pp(name), lora::lora_pp(lora, name), dim, coefficient)
}

/// Loads the modulation network under the first of two names that the checkpoint has.
fn load_adaln(
    dim: usize,
    coefficient: usize,
    names: (&str, &str),
    vb: &Weights,
    lora: Option<&LoraConfig>,
) -> (r: Result<AdaLayerNormSingle, Failure>)
    ensures
        r matches Ok(a) ==> adaln_loaded(a, (names.0@, names.1@), vb@, lora::lora_view(lora)),
        r is Ok ==> adaln_present(
            (names.0@, names.1@),
            vb@,
            lora::lora_view(lora),
            dim as nat,
            coefficient as nat,
        ),
        vb@.sound() && lora::adapter_sound(lora::lora_view(lora)) && adaln_present(
            (names.0@, names.1@),
            vb@,
            lora::lora_view(lora),
            dim as nat,
            coefficient as nat,
        ) ==> r is Ok,
{
    let name = adaln_name(vb, names);
    let adaln_lora = sub_lora(lora, name);
    AdaLayerNormSingle::new_with_lora(dim, coefficient, &vb.pp(name), adaln_lora.as_ref())
}

/// Rows of the modulation table of a block.
pub open spec fn coefficient_of(config: TransformerConfig) -> nat {
    if config.cross_attention_adaln {
        9
    } else {
        6
    }
}

/// Whether a preprocessor is the one that a checkpoint and an adapter hold for a stream.
#[verifier::opaque]
pub open spec fn simple_loaded(
    p: TransformerArgsPreprocessor,
    config: TransformerConfig,
    plan: PlanView,
    max_pos: Seq<usize>,
    vb: WeightsView,
    lora: Option<LoraView>,
) -> bool {
    let patchify = layer_name_of(vb, plan.patchify);
    &&& p.patchify_proj@ == lora::linear_of(vb.pp(patchify), lora::lora_pp(lora, patchify))
    &&& adaln_loaded(p.adaln, plan.time_embed, vb, lora)
    &&& config.caption_proj_before_connector == p.caption_projection is None
    &&& p.caption_projection matches Some(c) ==> c.loaded(
        "gelu"@,
        vb.pp(plan.caption),
        lora::lora_pp(lora, plan.caption),
    )
    &&& config.cross_attention_adaln == p.prompt_adaln is Some
    &&& p.prompt_adaln matches Some(a) ==> a.loaded(vb.pp(plan.prompt), lora::lora_pp(lora, plan.prompt))
    &&& p.inner_dim == plan.inner_dim
    &&& p.max_pos@ == max_pos
    &&& p.num_attention_heads == plan.heads
    &&& p.use_middle_indices_grid == config.use_middle_indices_grid
    &&& p.timestep_scale_multiplier == config.timestep_scale_multiplier
    &&& p.positional_embedding_theta == config.positional_embedding_theta
    &&& p.rope_type == rope_type_of(config)
}

/// Whether a checkpoint and an adapter hold the layers of a stream's preprocessor.
#[verifier::opaque]
pub open spec fn simple_present(
    config: TransformerConfig,
    plan: PlanView,
    vb: WeightsView,
    lora: Option<LoraView>,
) -> bool {
    let patchify = layer_name_of(vb, plan.patchify);
    &&& lora::has_linear(
        vb.pp(patchify),
        lora::lora_pp(lora, patchify),
        plan.in_channels,
        plan.inner_dim,
        true,
    )
    &&& adaln_present(plan.time_embed, vb, lora, plan.inner_dim, coefficient_of(config))
    &&& !config.caption_proj_before_connector ==> PixArtAlphaTextProjection::present(
        vb.pp(plan.caption),
        lora::lora_pp(lora, plan.caption),
        config.caption_channels as nat,
        plan.inner_dim,
        plan.inner_dim,
    )
    &&& config.cross_attention_adaln ==> AdaLayerNormSingle::present(
        vb.pp(plan.prompt),
        lora::lora_pp(lora, plan.prompt),
        plan.inner_dim,
        2,
    )
}

fn load_simple(
    config: &TransformerConfig,
    plan: &StreamPlan,
    max_pos: &Vec<usize>,
    rope_type: LTXRopeType,
    vb: &Weights,
    lora: Option<&LoraConfig>,
) -> (r: Result<TransformerArgsPreprocessor, Failure>)
    requires
        rope_type == rope_type_of(*config),
    ensures
        r matches Ok(p) ==> simple_loaded(p, *config, plan@, max_pos@, vb@, lora::lora_view(lora)),
        r is Ok ==> simple_present(*config, plan@, vb@, lora::lora_view(lora)),
        vb@.sound() && lora::adapter_sound(lora::lora_view(lora)) && simple_present(*config, plan@, vb@, lora::lora_view(lora)) ==> r is Ok,
{
    proof {
        reveal(simple_loaded);
        reveal(simple_present);
    }
    let patchify = if vb.pp(plan.patchify.0).contains_tensor("weight") {
        plan.patchify.0
    } else {
        plan.patchify.1
    };
    let coefficient: usize = if config.cross_attention_adaln {
        9
    } else {
        6
    };
    let caption_projection = if config.caption_proj_before_connector {
        None
    } else {
        let caption_lora = sub_lora(lora, plan.caption);
        Some(
            PixArtAlphaTextProjection::new_with_lora(
                config.caption_channels,
                plan.inner_dim,
                None,
                "gelu",
                &vb.pp(plan.caption),
                caption_lora.as_ref(),
            )?,
        )
    };
    let prompt_adaln = if config.cross_attention_adaln {
        let prompt_lora = sub_lora(lora, plan.prompt);
        Some(
            AdaLayerNormSingle::new_with_lora(
                plan.inner_dim,
                2,
                &vb.pp(plan.prompt),
                prompt_lora.as_ref(),
            )?,
        )
    } else {
        None
    };
    let patchify_lora = sub_lora(lora, patchify);
    let patchify_proj = lora::linear(
        plan.in_channels,
        plan.inner_dim,
        &vb.pp(patchify),
        patchify_lora.as_ref(),
    )?;
    let adaln = load_adaln(plan.inner_dim, coefficient, plan.time_embed, vb, lora)?;
    Ok(
        TransformerArgsPreprocessor::new(
            patchify_proj,
            adaln,
            caption_projection,
            prompt_adaln,
            plan.inner_dim,
            copy_sizes(max_pos),
            plan.heads,
            config.use_middle_indices_grid,
            config.timestep_scale_multiplier,
            config.positional_embedding_theta,
            rope_type,
        ),
    )
}

/// A copy of a list of sizes.
pub fn copy_sizes(v: &Vec<usize>) -> (r: Vec<usize>)
    ensures
        r@ == v@,
{
    let mut r: Vec<usize> = Vec::new();
    let mut i: usize = 0;
    while i < v.len()
        invariant
            i <= v.len(),
            r@ == v@.take(i as int),
        decreases v.len() - i,
    {
        r.push(v[i]);
        assert(v@.take(i + 1) =~= v@.take(i as int).push(v[i as int]));
        i = i + 1;
    }
    assert(v@.take(i as int) =~= v@);
    r
}

/// The largest position for attention between the streams.
pub open spec fn cross_max_pos_of(config: TransformerConfig) -> nat {
    let v = if config.positional_embedding_max_pos@.len() > 0 {
        config.positional_embedding_max_pos@[0] as nat
    } else {
        20
    };
    let a = if config.audio_positional_embedding_max_pos@.len() > 0 {
        config.audio_positional_embedding_max_pos@[0] as nat
    } else {
        20
    };
    if v < a {
        a
    } else {
        v
    }
}

/// Whether a preprocessor is the one of a stream, alone or beside another.
pub open spec fn preprocessor_loaded(
    p: ArgsPreprocessor,
    multimodal: bool,
    config: TransformerConfig,
    plan: PlanView,
    max_pos: Seq<usize>,
    vb: WeightsView,
    lora: Option<LoraView>,
) -> bool {
    match p {
        ArgsPreprocessor::Simple(s) => !multimodal && simple_loaded(s, config, plan, max_pos, vb, lora),
        ArgsPreprocessor::MultiModal(m) => {
            &&& multimodal
            &&& simple_loaded(m.simple, config, plan, max_pos, vb, lora)
            &&& adaln_loaded(m.cross_scale_shift_adaln, plan.cross_scale_shift, vb, lora)
            &&& adaln_loaded(m.cross_gate_adaln, plan.cross_gate, vb, lora)
            &&& m.cross_pe_max_pos == cross_max_pos_of(config)
            &&& m.audio_cross_attention_dim == config.audio_cross_attention_dim
            &&& m.av_ca_timestep_scale_multiplier == config.av_ca_timestep_scale_multiplier
        },
    }
}

/// Whether a checkpoint and an adapter hold the layers of that preprocessor.
pub open spec fn preprocessor_present(
    multimodal: bool,
    config: TransformerConfig,
    plan: PlanView,
    vb: WeightsView,
    lora: Option<LoraView>,
) -> bool {
    &&& simple_present(config, plan, vb, lora)
    &&& multimodal ==> adaln_present(plan.cross_scale_shift, vb, lora, plan.inner_dim, 4)
    &&& multimodal ==> adaln_present(plan.cross_gate, vb, lora, plan.inner_dim, 1)
}

fn load_preprocessor(
    multimodal: bool,
    config: &TransformerConfig,
    plan: &StreamPlan,
    max_pos: &Vec<usize>,
    cross_pe_max_pos: usize,
    rope_type: LTXRopeType,
    vb: &Weights,
    lora: Option<&LoraConfig>,
) -> (r: Result<ArgsPreprocessor, Failure>)
    requires
        rope_type == rope_type_of(*config),
        cross_pe_max_pos == cross_max_pos_of(*config),
    ensures
        r matches Ok(p) ==> preprocessor_loaded(
            p,
            multimodal,
            *config,
            plan@,
            max_pos@,
            vb@,
            lora::lora_view(lora),
        ),
        r is Ok ==> preprocessor_present(multimodal, *config, plan@, vb@, lora::lora_view(lora)),
        vb@.sound() && lora::adapter_sound(lora::lora_view(lora)) && preprocessor_present(multimodal, *config, plan@, vb@, lora::lora_view(lora)) ==> r is Ok,
{
    let simple = load_simple(config, plan, max_pos, rope_type, vb, lora)?;
    if multimodal {
        let cross_scale_shift_adaln = load_adaln(plan.inner_dim, 4, plan.cross_scale_shift, vb, lora)?;
        let cross_gate_adaln = load_adaln(plan.inner_dim, 1, plan.cross_gate, vb, lora)?;
        Ok(
            ArgsPreprocessor::MultiModal(
                MultiModalTransformerArgsPreprocessor::new(
                    simple,
                    cross_scale_shift_adaln,
                    cross_gate_adaln,
                    cross_pe_max_pos,
                    config.audio_cross_attention_dim,
                    config.av_ca_timestep_scale_multiplier,
                ),
            ),
        )
    } else {
        Ok(ArgsPreprocessor::Simple(simple))
    }
}

impl OutputHead {
    /// Whether these are the last layers that a checkpoint and an adapter hold for a stream.
    pub open spec fn loaded(&self, plan: PlanView, vb: WeightsView, lora: Option<LoraView>) -> bool {
        &&& self.scale_shift_table@ == vb.get(plan.table)
        &&& self.proj_out@ == lora::linear_of(vb.pp(plan.proj_out), lora::lora_pp(lora, plan.proj_out))
    }

    /// Whether a checkpoint and an adapter hold last layers of these sizes.
    pub open spec fn present(plan: PlanView, vb: WeightsView, lora: Option<LoraView>) -> bool {
        &&& vb.holds(plan.table, seq![2, plan.inner_dim])
        &&& lora::has_linear(
            vb.pp(plan.proj_out),
            lora::lora_pp(lora, plan.proj_out),
            plan.inner_dim,
            plan.out_channels,
            true,
        )
    }

    fn load(plan: &StreamPlan, vb: &Weights, lora: Option<&LoraConfig>) -> (r: Result<OutputHead, Failure>)
        ensures
            r matches Ok(h) ==> h.loaded(plan@, vb@, lora::lora_view(lora)),
            r is Ok ==> OutputHead::present(plan@, vb@, lora::lora_view(lora)),
            vb@.sound() && lora::adapter_sound(lora::lora_view(lora)) && OutputHead::present(plan@, vb@, lora::lora_view(lora)) ==> r is Ok,
    {
        let scale_shift_table = vb.get2(2, plan.inner_dim, plan.table)?;
        let proj_lora = sub_lora(lora, plan.proj_out);
        let proj_out = lora::linear(
            plan.inner_dim,
            plan.out_channels,
            &vb.pp(plan.proj_out),
            proj_lora.as_ref(),
        )?;
        Ok(OutputHead { scale_shift_table, proj_out })
    }

    /// Row `i` of the table plus the embedded timestep.
    pub open spec fn row_of(&self, embedded: TensorView, i: nat) -> TensorView {
        let table = model::cast(
            model::unsqueeze(model::unsqueeze(self.scale_shift_table@, 0), 0),
            Dtype::F32,
        );
        let emb = model::unsqueeze(model::cast(embedded, Dtype::F32), 2);
        model::squeeze(model::narrow(model::binary(BinOp::Plus, table, emb), 2, i, 1), 2)
    }

    /// The velocity of each token: the layer-normalised state, scaled, shifted and projected.
    pub open spec fn apply(&self, x: TensorView, embedded: TensorView, norm_eps: Scalar) -> TensorView {
        let normed = layer_norm_of(x, norm_eps);
        let factor = model::affine(self.row_of(embedded, 1), model::number(ONE), model::number(ONE));
        let scaled = model::binary(BinOp::Times, normed, factor);
        let shifted = model::binary(BinOp::Plus, scaled, self.row_of(embedded, 0));
        self.proj_out@.apply(model::cast(shifted, x.dtype))
    }

    /// Whether the velocities of `(B, T, D)` tokens can be computed, in main memory and in single
    /// precision.
    pub open spec fn projects(&self, x: &Array, embedded: &Array) -> bool {
        let d = x@.dims;
        let width = self.proj_out.weight@.dims[0];
        &&& x.on_cpu() && x@.dtype == Dtype::F32 && d.len() == 3 && model::numel(d) > 0
        &&& embedded.usable() && embedded@.dims == d
        &&& self.scale_shift_table.usable() && self.scale_shift_table@.dims == seq![2, d[2]]
        &&& self.proj_out.maps(d[2], width)
        &&& model::fits(seq![d[0], d[1], 2, d[2]]) && model::fits(seq![d[0], d[1], width])
    }

    /// Computes the velocity of each token.
    pub fn process_output(&self, x: &Array, embedded_timestep: &Array, norm_eps: Scalar) -> (r: Result<
        Array,
        Failure,
    >)
        ensures
            r matches Ok(t) ==> t@ == self.apply(x@, embedded_timestep@, norm_eps),
            r is Ok ==> x@.rank() > 0,
            self.projects(x, embedded_timestep) ==> (r matches Ok(t) && t.on_cpu() && t@.dtype == Dtype::F32 && t@.dims
                == seq![x@.dims[0], x@.dims[1], self.proj_out.weight@.dims[0]]),
    {
        let ghost fine = self.projects(x, embedded_timestep);
        let ghost d = x@.dims;
        let out_dtype = x.dtype();
        let rank: usize = x.rank();
        if rank == 0 {
            return Err(Failure::Shape);
        }
        let table = self.scale_shift_table.unsqueeze(0)?.unsqueeze(0)?.to_dtype(Dtype::F32)?;
        let emb = embedded_timestep.to_dtype(Dtype::F32)?.unsqueeze(2)?;
        proof {
            if fine {
                assert(d =~= seq![d[0], d[1], d[2]]);
                assert(table@.dims =~= seq![1, 1, 2, d[2]]);
                assert(emb@.dims =~= seq![d[0], d[1], 1, d[2]]);
                assert(model::common_dims(table@.dims, emb@.dims) =~= seq![d[0], d[1], 2, d[2]]);
            }
        }
        let combined = table.broadcast(BinOp::Plus, &emb)?;
        proof {
            lemmas::lemma_narrow_dims(combined@, 2, 0, 1);
            lemmas::lemma_narrow_dims(combined@, 2, 1, 1);
            if fine {
                assert(combined@.dims.update(2, 1).remove(2) =~= d);
            }
        }
        let shift = combined.narrow(2, 0, 1)?.squeeze(2)?;
        let scale = combined.narrow(2, 1, 1)?.squeeze(2)?;
        proof {
            reveal(model::mean_keepdim);
            if fine {
                lemmas::lemma_spread_common(d.update(2, 1), d);
                lemmas::lemma_common_dims(d);
                assert(linear::with_width(d, self.proj_out.weight@.dims[0]) =~= seq![
                    d[0],
                    d[1],
                    self.proj_out.weight@.dims[0],
                ]);
            }
        }
        let xf = x.to_dtype(Dtype::F32)?;
        let mean = xf.mean_keepdim(rank - 1)?;
        let diff = xf.broadcast(BinOp::Minus, &mean)?;
        let var = diff.unary(UnOp::Sqr)?.mean_keepdim(rank - 1)?;
        let std = var.shift(norm_eps)?.unary(UnOp::Sqrt)?;
        let normed = diff.broadcast(BinOp::Over, &std)?;
        let y = normed.broadcast(BinOp::Times, &scale.shift(ONE)?)?.pairwise(BinOp::Plus, &shift)?;
        self.proj_out.forward(&y.to_dtype(out_dtype)?)
    }
}

/// Layer normalisation without weights, in single precision.
pub open spec fn layer_norm_of(x: TensorView, eps: Scalar) -> TensorView {
    let last = x.rank() - 1;
    let xf = model::cast(x, Dtype::F32);
    let diff = model::binary(BinOp::Minus, xf, model::mean_keepdim(xf, last));
    let var = model::mean_keepdim(model::unary(UnOp::Sqr, diff), last);
    let std = model::unary(UnOp::Sqrt, model::affine(var, model::number(ONE), model::number(eps)));
    model::binary(BinOp::Over, diff, std)
}

/// Whether the last layer fits `(B, T, D)` tokens, each with an embedded timestep.
pub open spec fn output_fits(h: OutputHead, x: TensorView, embedded: TensorView) -> bool {
    let d = x.dims;
    &&& x.wf() && embedded.wf() && h.scale_shift_table@.wf() && d.len() == 3 && d[2] > 0
    &&& x.dtype.float() && embedded.dims == d && h.scale_shift_table@.dims == seq![2, d[2]]
    &&& h.proj_out@.weight.wf() && h.proj_out@.weight.dims == seq![h.proj_out@.weight.dims[0], d[2]]
    &&& h.proj_out@.bias matches Some(b) ==> b.wf() && b.dims == seq![h.proj_out@.weight.dims[0]]
}

/// Number `j` of row `i` of the table of a last layer.
pub open spec fn table_value(h: OutputHead, i: int, j: int, f: Functions) -> real {
    reals::value(h.scale_shift_table@.at(seq![i, j]), f)
}

/// Number `j` for token `t` of sample `b`.
pub open spec fn token_value(x: TensorView, b: int, t: int, j: int, f: Functions) -> real {
    reals::value(x.at(seq![b, t, j]), f)
}

proof fn lemma_row(h: OutputHead, x: TensorView, embedded: TensorView, i: nat, b: int, t: int, j: int, f: Functions)
    requires
        output_fits(h, x, embedded),
        i < 2,
        0 <= b < x.dims[0] && 0 <= t < x.dims[1] && 0 <= j < x.dims[2],
    ensures
        h.row_of(embedded, i).dims == x.dims,
        h.row_of(embedded, i).wf(),
        token_value(h.row_of(embedded, i), b, t, j, f) == table_value(h, i as int, j, f) + token_value(
            embedded,
            b,
            t,
            j,
            f,
        ),
{
    broadcast use reals::group_reading;
    let d = x.dims;
    let table = h.scale_shift_table@;
    let t1 = model::unsqueeze(table, 0);
    let t2 = model::unsqueeze(t1, 0);
    reals::lemma_unsqueeze_at(table, 0, seq![i as int, j]);
    assert(seq![i as int, j].insert(0, 0) =~= seq![0, i as int, j]);
    reals::lemma_unsqueeze_at(t1, 0, seq![0, i as int, j]);
    let p = seq![0, 0, i as int, j];
    assert(seq![0, i as int, j].insert(0, 0) =~= p);
    assert(t2.dims =~= seq![1, 1, 2, d[2]]);
    let wide = model::cast(t2, Dtype::F32);
    assert(model::in_bounds(wide.dims, p));
    lemmas::lemma_ravel(wide.dims, p);
    assert(reals::value(wide.at(p), f) == table_value(h, i as int, j, f));
    let e = model::cast(embedded, Dtype::F32);
    let emb = model::unsqueeze(e, 2);
    reals::lemma_unsqueeze_at(e, 2, seq![b, t, j]);
    let q = seq![b, t, 0, j];
    assert(seq![b, t, j].insert(2, 0) =~= q);
    assert(emb.dims =~= seq![d[0], d[1], 1, d[2]]);
    assert(model::in_bounds(d, seq![b, t, j]));
    lemmas::lemma_ravel(d, seq![b, t, j]);
    assert(reals::value(emb.at(q), f) == token_value(embedded, b, t, j, f));
    let all: Seq<nat> = seq![d[0], d[1], 2, d[2]];
    assert(model::common_dims(wide.dims, emb.dims) =~= all);
    let sum = model::binary(BinOp::Plus, wide, emb);
    let o = seq![b, t, i as int, j];
    assert(model::in_bounds(all, o));
    reals::lemma_binary_at(BinOp::Plus, wide, emb, o, f);
    assert(lemmas::repeated(wide.dims, all, o) =~= p);
    assert(lemmas::repeated(emb.dims, all, o) =~= q);
    let part = model::narrow(sum, 2, i, 1);
    lemmas::lemma_narrow_dims(sum, 2, i, 1);
    assert(all.update(2, 1) =~= seq![d[0], d[1], 1, d[2]]);
    assert(model::in_bounds(all.update(2, 1), q));
    lemmas::lemma_narrow_at(sum, 2, i, 1, q);
    assert(q.update(2, q[2] + i) =~= o);
    assert(part.wf()) by {
        reveal(model::narrow);
    }
    reals::lemma_squeeze_at(part, 2, seq![b, t, j]);
    assert(part.dims.remove(2) =~= d);
}

/// Number `j` of what the last layer projects for a token.
spec fn projected(h: OutputHead, x: TensorView, embedded: TensorView, eps: Scalar, b: int, t: int, j: int, f: Functions) -> real {
    let e = token_value(embedded, b, t, j, f);
    token_value(layer_norm_of(x, eps), b, t, j, f) * (table_value(h, 1, j, f) + e + 1real) + (table_value(h, 0, j, f) + e)
}

proof fn lemma_output(
    h: OutputHead,
    x: TensorView,
    embedded: TensorView,
    eps: Scalar,
    b: int,
    t: int,
    o: int,
    f: Functions,
)
    requires
        output_fits(h, x, embedded),
        0 <= b < x.dims[0] && 0 <= t < x.dims[1] && 0 <= o < h.proj_out@.weight.dims[0],
    ensures
        token_value(h.apply(x, embedded, eps), b, t, o, f) == reals::sum_to(
            x.dims[2] as int,
            |j: int|
                projected(h, x, embedded, eps, b, t, j, f) * reals::value(h.proj_out@.weight.at(seq![o, j]), f),
        ) + reals::bias_value(h.proj_out@.bias, o, f),
{
    broadcast use reals::group_reading;
    let d = x.dims;
    let normed = layer_norm_of(x, eps);
    lemma_layer_norm_shape(x, eps);
    lemma_row(h, x, embedded, 0, b, t, 0, f);
    lemma_row(h, x, embedded, 1, b, t, 0, f);
    let (shift, scale) = (h.row_of(embedded, 0), h.row_of(embedded, 1));
    let factor = model::affine(scale, model::number(ONE), model::number(ONE));
    let scaled = model::binary(BinOp::Times, normed, factor);
    let shifted = model::binary(BinOp::Plus, scaled, shift);
    let given = model::cast(shifted, x.dtype);
    let idx = seq![b, t, o];
    assert(d.drop_last().push(h.proj_out@.weight.dims[0]) =~= seq![d[0], d[1], h.proj_out@.weight.dims[0]]);
    reals::lemma_linear_at(given, h.proj_out@.weight, h.proj_out@.bias, idx, f);
    let g = |j: int|
        reals::value(given.at(idx.drop_last().push(j)), f) * reals::value(h.proj_out@.weight.at(seq![idx.last(), j]), f);
    let k = |j: int|
        projected(h, x, embedded, eps, b, t, j, f) * reals::value(h.proj_out@.weight.at(seq![o, j]), f);
    reals::lemma_constants();
    assert forall|j: int| 0 <= j < d[2] implies #[trigger] g(j) == k(j) by {
        let p = seq![b, t, j];
        assert(idx.drop_last().push(j) =~= p);
        assert(model::in_bounds(d, p));
        lemmas::lemma_ravel(d, p);
        lemma_row(h, x, embedded, 0, b, t, j, f);
        lemma_row(h, x, embedded, 1, b, t, j, f);
        let r = token_value(scale, b, t, j, f);
        assert(r * 1real == r) by (nonlinear_arith);
        assert(token_value(factor, b, t, j, f) == r + 1real);
        assert(token_value(scaled, b, t, j, f) == token_value(normed, b, t, j, f) * (r + 1real));
        assert(token_value(shifted, b, t, j, f) == token_value(scaled, b, t, j, f) + token_value(shift, b, t, j, f));
    }
    reals::lemma_sum_ext(d[2] as int, g, k);
}

proof fn lemma_layer_norm_shape(x: TensorView, eps: Scalar)
    requires
        x.rank() > 0,
    ensures
        layer_norm_of(x, eps).dims == x.dims,
        layer_norm_of(x, eps).wf(),
{
    broadcast use reals::group_reading;
    reveal(model::mean_keepdim);
    let d = x.dims;
    lemmas::lemma_spread_common(d.update(d.len() - 1, 1), d);
}

/// Adding `delta` to the first row of the table adds its projection to the velocity of every token,
/// whatever its state: the first row is the shift.
pub proof fn law_first_row_shifts(
    g: OutputHead,
    h: OutputHead,
    x: TensorView,
    embedded: TensorView,
    eps: Scalar,
    delta: spec_fn(int) -> real,
    b: int,
    t: int,
    o: int,
    f: Functions,
)
    requires
        output_fits(g, x, embedded) && output_fits(h, x, embedded),
        h.proj_out@ == g.proj_out@,
        forall|j: int|
            0 <= j < x.dims[2] ==> #[trigger] table_value(h, 0, j, f) == table_value(g, 0, j, f) + delta(j),
        forall|j: int| 0 <= j < x.dims[2] ==> #[trigger] table_value(h, 1, j, f) == table_value(g, 1, j, f),
        0 <= b < x.dims[0] && 0 <= t < x.dims[1] && 0 <= o < g.proj_out@.weight.dims[0],
    ensures
        token_value(h.apply(x, embedded, eps), b, t, o, f) == token_value(g.apply(x, embedded, eps), b, t, o, f)
            + reals::sum_to(
            x.dims[2] as int,
            |j: int| delta(j) * reals::value(g.proj_out@.weight.at(seq![o, j]), f),
        ),
{
    lemma_output(g, x, embedded, eps, b, t, o, f);
    lemma_output(h, x, embedded, eps, b, t, o, f);
    let w = |j: int| reals::value(g.proj_out@.weight.at(seq![o, j]), f);
    let before = |j: int| projected(g, x, embedded, eps, b, t, j, f) * reals::value(g.proj_out@.weight.at(seq![o, j]), f);
    let after = |j: int| projected(h, x, embedded, eps, b, t, j, f) * reals::value(h.proj_out@.weight.at(seq![o, j]), f);
    let more = |j: int| delta(j) * reals::value(g.proj_out@.weight.at(seq![o, j]), f);
    assert forall|j: int| 0 <= j < x.dims[2] implies #[trigger] after(j) == before(j) + more(j) by {
        let (p, q, y) = (projected(g, x, embedded, eps, b, t, j, f), delta(j), w(j));
        assert(table_value(h, 0, j, f) == table_value(g, 0, j, f) + q && table_value(h, 1, j, f) == table_value(g, 1, j, f));
        assert((p + q) * y == p * y + q * y) by (nonlinear_arith);
    }
    reals::lemma_sum_plus(x.dims[2] as int, before, more, after);
    reals::lemma_sum_ext(x.dims[2] as int, |j: int| projected(g, x, embedded, eps, b, t, j, f) * reals::value(g.proj_out@.weight.at(seq![o, j]), f), before);
    reals::lemma_sum_ext(x.dims[2] as int, |j: int| projected(h, x, embedded, eps, b, t, j, f) * reals::value(h.proj_out@.weight.at(seq![o, j]), f), after);
    reals::lemma_sum_ext(x.dims[2] as int, |j: int| delta(j) * reals::value(g.proj_out@.weight.at(seq![o, j]), f), more);
}

/// Adding `delta` to the second row adds the projection of `delta` times the normalised state: the
/// second row is the scale.
pub proof fn law_second_row_scales(
    g: OutputHead,
    h: OutputHead,
    x: TensorView,
    embedded: TensorView,
    eps: Scalar,
    delta: spec_fn(int) -> real,
    b: int,
    t: int,
    o: int,
    f: Functions,
)
    requires
        output_fits(g, x, embedded) && output_fits(h, x, embedded),
        h.proj_out@ == g.proj_out@,
        forall|j: int| 0 <= j < x.dims[2] ==> #[trigger] table_value(h, 0, j, f) == table_value(g, 0, j, f),
        forall|j: int|
            0 <= j < x.dims[2] ==> #[trigger] table_value(h, 1, j, f) == table_value(g, 1, j, f) + delta(j),
        0 <= b < x.dims[0] && 0 <= t < x.dims[1] && 0 <= o < g.proj_out@.weight.dims[0],
    ensures
        token_value(h.apply(x, embedded, eps), b, t, o, f) == token_value(g.apply(x, embedded, eps), b, t, o, f)
            + reals::sum_to(
            x.dims[2] as int,
            |j: int|
                delta(j) * token_value(layer_norm_of(x, eps), b, t, j, f) * reals::value(
                    g.proj_out@.weight.at(seq![o, j]),
                    f,
                ),
        ),
{
    lemma_output(g, x, embedded, eps, b, t, o, f);
    lemma_output(h, x, embedded, eps, b, t, o, f);
    let w = |j: int| reals::value(g.proj_out@.weight.at(seq![o, j]), f);
    let before = |j: int| projected(g, x, embedded, eps, b, t, j, f) * reals::value(g.proj_out@.weight.at(seq![o, j]), f);
    let after = |j: int| projected(h, x, embedded, eps, b, t, j, f) * reals::value(h.proj_out@.weight.at(seq![o, j]), f);
    let more = |j: int|
        delta(j) * token_value(layer_norm_of(x, eps), b, t, j, f) * reals::value(g.proj_out@.weight.at(seq![o, j]), f);
    assert forall|j: int| 0 <= j < x.dims[2] implies #[trigger] after(j) == before(j) + more(j) by {
        let (n, e) = (token_value(layer_norm_of(x, eps), b, t, j, f), token_value(embedded, b, t, j, f));
        let (s, r, q, y) = (table_value(g, 0, j, f), table_value(g, 1, j, f), delta(j), w(j));
        assert(table_value(h, 0, j, f) == s && table_value(h, 1, j, f) == r + q);
        assert((n * (r + q + e + 1real) + (s + e)) * y == (n * (r + e + 1real) + (s + e)) * y + q * n * y)
            by (nonlinear_arith);
    }
    reals::lemma_sum_plus(x.dims[2] as int, before, more, after);
    reals::lemma_sum_ext(x.dims[2] as int, |j: int| projected(g, x, embedded, eps, b, t, j, f) * reals::value(g.proj_out@.weight.at(seq![o, j]), f), before);
    reals::lemma_sum_ext(x.dims[2] as int, |j: int| projected(h, x, embedded, eps, b, t, j, f) * reals::value(h.proj_out@.weight.at(seq![o, j]), f), after);
    reals::lemma_sum_ext(
        x.dims[2] as int,
        |j: int|
            delta(j) * token_value(layer_norm_of(x, eps), b, t, j, f) * reals::value(g.proj_out@.weight.at(seq![o, j]), f),
        more,
    );
}

/// Where the second row plus the embedded timestep is zero, what is projected is the normalised
/// state plus the first row plus the embedded timestep.
pub proof fn law_output_without_scale(
    h: OutputHead,
    x: TensorView,
    embedded: TensorView,
    eps: Scalar,
    b: int,
    t: int,
    o: int,
    f: Functions,
)
    requires
        output_fits(h, x, embedded),
        forall|j: int|
            0 <= j < x.dims[2] ==> #[trigger] table_value(h, 1, j, f) + token_value(embedded, b, t, j, f) == 0real,
        0 <= b < x.dims[0] && 0 <= t < x.dims[1] && 0 <= o < h.proj_out@.weight.dims[0],
    ensures
        token_value(h.apply(x, embedded, eps), b, t, o, f) == reals::sum_to(
            x.dims[2] as int,
            |j: int|
                (token_value(layer_norm_of(x, eps), b, t, j, f) + table_value(h, 0, j, f) + token_value(
                    embedded,
                    b,
                    t,
                    j,
                    f,
                )) * reals::value(h.proj_out@.weight.at(seq![o, j]), f),
        ) + reals::bias_value(h.proj_out@.bias, o, f),
{
    lemma_output(h, x, embedded, eps, b, t, o, f);
    let g = |j: int| projected(h, x, embedded, eps, b, t, j, f) * reals::value(h.proj_out@.weight.at(seq![o, j]), f);
    let k = |j: int|
        (token_value(layer_norm_of(x, eps), b, t, j, f) + table_value(h, 0, j, f) + token_value(embedded, b, t, j, f))
            * reals::value(h.proj_out@.weight.at(seq![o, j]), f);
    assert forall|j: int| 0 <= j < x.dims[2] implies #[trigger] g(j) == k(j) by {
        let n = token_value(layer_norm_of(x, eps), b, t, j, f);
        assert(table_value(h, 1, j, f) + token_value(embedded, b, t, j, f) == 0real);
        assert(n * (0real + 1real) == n) by (nonlinear_arith);
    }
    reals::lemma_sum_ext(x.dims[2] as int, g, k);
    reals::lemma_sum_ext(x.dims[2] as int, |j: int| projected(h, x, embedded, eps, b, t, j, f) * reals::value(h.proj_out@.weight.at(seq![o, j]), f), g);
}

/// The sizes of the video stream of each block.
pub open spec fn video_block_of(config: TransformerConfig) -> BlockConfig {
    BlockConfig {
        dim: (config.num_attention_heads * config.attention_head_dim) as usize,
        heads: config.num_attention_heads,
        d_head: config.attention_head_dim,
        context_dim: config.cross_attention_dim,
        apply_gated_attention: config.apply_gated_attention,
        cross_attention_adaln: config.cross_attention_adaln,
    }
}

/// The sizes of the audio stream of each block.
pub open spec fn audio_block_of(config: TransformerConfig) -> BlockConfig {
    BlockConfig {
        dim: (config.audio_num_attention_heads * config.audio_attention_head_dim) as usize,
        heads: config.audio_num_attention_heads,
        d_head: config.audio_attention_head_dim,
        context_dim: config.audio_cross_attention_dim,
        apply_gated_attention: config.apply_gated_attention,
        cross_attention_adaln: config.cross_attention_adaln,
    }
}

/// The video stream of each block, where there is one.
pub open spec fn opt_video_block_of(config: TransformerConfig, t: LtxModelType) -> Option<BlockConfig> {
    if t.has_video() {
        Some(video_block_of(config))
    } else {
        None
    }
}

/// The audio stream of each block, where there is one.
pub open spec fn opt_audio_block_of(config: TransformerConfig, t: LtxModelType) -> Option<BlockConfig> {
    if t.has_audio() {
        Some(audio_block_of(config))
    } else {
        None
    }
}

/// Block `i` of a checkpoint.
pub open spec fn block_weights(vb: WeightsView, i: nat) -> WeightsView {
    vb.pp("transformer_blocks"@).at(i)
}

/// Block `i` of an adapter.
pub open spec fn block_lora(lora: Option<LoraView>, i: nat) -> Option<LoraView> {
    lora::lora_at(lora::lora_pp(lora, "transformer_blocks"@), i)
}

/// Whether block `i` is the one that a checkpoint and an adapter hold.
pub open spec fn block_loaded(
    b: BasicAVTransformerBlock,
    i: int,
    config: TransformerConfig,
    t: LtxModelType,
    vb: WeightsView,
    lora: Option<LoraView>,
) -> bool {
    b.loaded(
        i as usize,
        opt_video_block_of(config, t),
        opt_audio_block_of(config, t),
        rope_type_of(config),
        config.norm_eps,
        block_weights(vb, i as nat),
        block_lora(lora, i as nat),
    )
}

impl LTXModel {
    /// Whether this is the transformer that a checkpoint and an adapter hold.
    pub open spec fn loaded(
        &self,
        config: TransformerConfig,
        t: LtxModelType,
        vb: WeightsView,
        lora: Option<LoraView>,
    ) -> bool {
        let multimodal = t.has_video() && t.has_audio();
        &&& self.norm_eps == config.norm_eps
        &&& self.video_preprocessor is Some == t.has_video()
        &&& self.audio_preprocessor is Some == t.has_audio()
        &&& self.video_head is Some == t.has_video()
        &&& self.audio_head is Some == t.has_audio()
        &&& self.video_preprocessor matches Some(p) ==> preprocessor_loaded(
            p,
            multimodal,
            config,
            video_plan_of(config),
            config.positional_embedding_max_pos@,
            vb,
            lora,
        )
        &&& self.audio_preprocessor matches Some(p) ==> preprocessor_loaded(
            p,
            multimodal,
            config,
            audio_plan_of(config),
            config.audio_positional_embedding_max_pos@,
            vb,
            lora,
        )
        &&& self.video_head matches Some(h) ==> h.loaded(video_plan_of(config), vb, lora)
        &&& self.audio_head matches Some(h) ==> h.loaded(audio_plan_of(config), vb, lora)
        &&& self.blocks@.len() == config.num_layers
        &&& forall|i: int|
            0 <= i < config.num_layers ==> block_loaded(
                #[trigger] self.blocks@[i],
                i,
                config,
                t,
                vb,
                lora,
            )
    }

    /// Whether a checkpoint and an adapter hold a transformer of this configuration.
    pub open spec fn present(
        config: TransformerConfig,
        t: LtxModelType,
        vb: WeightsView,
        lora: Option<LoraView>,
    ) -> bool {
        let multimodal = t.has_video() && t.has_audio();
        &&& t.has_video() ==> preprocessor_present(multimodal, config, video_plan_of(config), vb, lora)
        &&& t.has_audio() ==> preprocessor_present(multimodal, config, audio_plan_of(config), vb, lora)
        &&& t.has_video() ==> OutputHead::present(video_plan_of(config), vb, lora)
        &&& t.has_audio() ==> OutputHead::present(audio_plan_of(config), vb, lora)
        &&& forall|i: int|
            0 <= i < config.num_layers ==> BasicAVTransformerBlock::present(
                opt_video_block_of(config, t),
                opt_audio_block_of(config, t),
                #[trigger] block_weights(vb, i as nat),
                block_lora(lora, i as nat),
            )
    }

    pub fn new(config: &TransformerConfig, model_type: LtxModelType, vb: &Weights) -> (r: Result<
        LTXModel,
        Failure,
    >)
        ensures
            r matches Ok(m) ==> m.loaded(*config, model_type, vb@, None),
            r is Ok ==> LTXModel::present(*config, model_type, vb@, None),
            vb@.sound() && countable(*config) && LTXModel::present(*config, model_type, vb@, None) ==> r is Ok,
            config.num_attention_heads * config.attention_head_dim > usize::MAX
                || config.audio_num_attention_heads * config.audio_attention_head_dim > usize::MAX ==> r == Err::<
                LTXModel,
                Failure,
            >(Failure::Overflow),
    {
        LTXModel::new_with_lora(config, model_type, vb, None)
    }

    pub fn new_with_lora(
        config: &TransformerConfig,
        model_type: LtxModelType,
        vb: &Weights,
        lora: Option<&LoraConfig>,
    ) -> (r: Result<LTXModel, Failure>)
        ensures
            r matches Ok(m) ==> m.loaded(*config, model_type, vb@, lora::lora_view(lora)),
            r is Ok ==> LTXModel::present(*config, model_type, vb@, lora::lora_view(lora)),
            vb@.sound() && lora::adapter_sound(lora::lora_view(lora)) && countable(*config) && LTXModel::present(
                *config,
                model_type,
                vb@,
                lora::lora_view(lora),
            ) ==> r is Ok,
            config.num_attention_heads * config.attention_head_dim > usize::MAX
                || config.audio_num_attention_heads * config.audio_attention_head_dim > usize::MAX ==> r == Err::<
                LTXModel,
                Failure,
            >(Failure::Overflow),
    {
        let rope_type = if same(config.rope_type.as_str(), "split") {
            LTXRopeType::Split
        } else {
            LTXRopeType::Interleaved
        };
        let video_inner_dim: usize = match config.num_attention_heads.checked_mul(config.attention_head_dim) {
            Some(d) => d,
            None => {
                return Err(Failure::Overflow);
            },
        };
        let audio_inner_dim: usize = match config.audio_num_attention_heads.checked_mul(
            config.audio_attention_head_dim,
        ) {
            Some(d) => d,
            None => {
                return Err(Failure::Overflow);
            },
        };
        let has_video = model_type.is_video_enabled();
        let has_audio = model_type.is_audio_enabled();
        let multimodal = has_video && has_audio;
        let video_plan = StreamPlan {
            in_channels: config.in_channels,
            out_channels: config.out_channels,
            inner_dim: video_inner_dim,
            heads: config.num_attention_heads,
            patchify: ("proj_in", "patchify_proj"),
            time_embed: ("time_embed", "adaln_single"),
            caption: "caption_projection",
            prompt: "prompt_adaln_single",
            table: "scale_shift_table",
            proj_out: "proj_out",
            cross_scale_shift: ("av_cross_attn_video_scale_shift", "av_ca_video_scale_shift_adaln_single"),
            cross_gate: ("av_cross_attn_video_a2v_gate", "av_ca_a2v_gate_adaln_single"),
        };
        assert(video_plan@ == video_plan_of(*config));
        let audio_plan = StreamPlan {
            in_channels: config.audio_in_channels,
            out_channels: config.audio_out_channels,
            inner_dim: audio_inner_dim,
            heads: config.audio_num_attention_heads,
            patchify: ("audio_proj_in", "audio_patchify_proj"),
            time_embed: ("audio_time_embed", "audio_adaln_single"),
            caption: "audio_caption_projection",
            prompt: "audio_prompt_adaln_single",
            table: "audio_scale_shift_table",
            proj_out: "audio_proj_out",
            cross_scale_shift: ("av_cross_attn_audio_scale_shift", "av_ca_audio_scale_shift_adaln_single"),
            cross_gate: ("av_cross_attn_audio_v2a_gate", "av_ca_v2a_gate_adaln_single"),
        };
        assert(audio_plan@ == audio_plan_of(*config));
        let video_max: usize = if config.positional_embedding_max_pos.len() > 0 {
            config.positional_embedding_max_pos[0]
        } else {
            20
        };
        let audio_max: usize = if config.audio_positional_embedding_max_pos.len() > 0 {
            config.audio_positional_embedding_max_pos[0]
        } else {
            20
        };
        let cross_pe_max_pos: usize = if video_max < audio_max {
            audio_max
        } else {
            video_max
        };
        let video_preprocessor = if has_video {
            Some(
                load_preprocessor(
                    multimodal,
                    config,
                    &video_plan,
                    &config.positional_embedding_max_pos,
                    cross_pe_max_pos,
                    rope_type,
                    vb,
                    lora,
                )?,
            )
        } else {
            None
        };
        let video_head = if has_video {
            Some(OutputHead::load(&video_plan, vb, lora)?)
        } else {
            None
        };
        let audio_preprocessor = if has_audio {
            Some(
                load_preprocessor(
                    multimodal,
                    config,
                    &audio_plan,
                    &config.audio_positional_embedding_max_pos,
                    cross_pe_max_pos,
                    rope_type,
                    vb,
                    lora,
                )?,
            )
        } else {
            None
        };
        let audio_head = if has_audio {
            Some(OutputHead::load(&audio_plan, vb, lora)?)
        } else {
            None
        };
        let blocks = load_blocks(config, model_type, video_inner_dim, audio_inner_dim, rope_type, vb, lora)?;
        Ok(
            LTXModel {
                video_preprocessor,
                audio_preprocessor,
                blocks,
                video_head,
                audio_head,
                norm_eps: config.norm_eps,
            },
        )
    }

    /// What the blocks get of the video stream.
    pub open spec fn video_input(&self, video: Option<ModalityView>, audio: Option<ModalityView>) -> Option<ArgsView> {
        if video is Some && self.video_preprocessor is Some {
            Some(self.video_preprocessor->0.prepared(video->0, audio))
        } else {
            None
        }
    }

    /// What the blocks get of the audio stream.
    pub open spec fn audio_input(&self, video: Option<ModalityView>, audio: Option<ModalityView>) -> Option<ArgsView> {
        if audio is Some && self.audio_preprocessor is Some {
            Some(self.audio_preprocessor->0.prepared(audio->0, video))
        } else {
            None
        }
    }

    /// The streams after the first `n` blocks. In the blocks that `skip` lists for a
    /// stream, its self-attention is left out.
    pub open spec fn after_blocks(
        &self,
        input: (Option<ArgsView>, Option<ArgsView>),
        skip_video: Seq<usize>,
        skip_audio: Seq<usize>,
        n: nat,
    ) -> (Option<ArgsView>, Option<ArgsView>)
        decreases n,
    {
        if n == 0 {
            input
        } else {
            let before = self.after_blocks(input, skip_video, skip_audio, (n - 1) as nat);
            let b = self.blocks@[n - 1];
            b.apply(before.0, before.1, skip_video.contains(b.idx), skip_audio.contains(b.idx))
        }
    }

    /// The velocity of a stream.
    pub open spec fn output(&self, args: Option<ArgsView>, head: Option<OutputHead>) -> Option<TensorView> {
        if args is Some && head is Some {
            Some(head->0.apply(args->0.x, args->0.embedded_timestep, self.norm_eps))
        } else {
            None
        }
    }

    /// The velocities of the two streams.
    pub open spec fn apply(
        &self,
        video: Option<ModalityView>,
        audio: Option<ModalityView>,
        skip_video: Seq<usize>,
        skip_audio: Seq<usize>,
    ) -> (Option<TensorView>, Option<TensorView>) {
        let input = (self.video_input(video, audio), self.audio_input(video, audio));
        let last = self.after_blocks(input, skip_video, skip_audio, self.blocks@.len());
        (self.output(last.0, self.video_head), self.output(last.1, self.audio_head))
    }

    /// Whether all blocks can be run on the two streams, with rows of so many numbers in their
    /// feed-forward networks, and the velocities be computed, in main memory and in single
    /// precision.
    pub open spec fn runs_on(
        &self,
        video: Option<TransformerArgs>,
        audio: Option<TransformerArgs>,
        skip_video: Seq<usize>,
        skip_audio: Seq<usize>,
        hidden: (nat, nat),
    ) -> bool {
        &&& forall|i: int|
            0 <= i < self.blocks@.len() ==> (#[trigger] self.blocks@[i]).takes(
                modality::lent(&video),
                modality::lent(&audio),
                skip_video.contains(self.blocks@[i].idx),
                skip_audio.contains(self.blocks@[i].idx),
                hidden.0,
                hidden.1,
            )
        &&& video is Some && self.video_head is Some ==> self.video_head->0.projects(
            &video->0.x,
            &video->0.embedded_timestep,
        )
        &&& audio is Some && self.audio_head is Some ==> self.audio_head->0.projects(
            &audio->0.x,
            &audio->0.embedded_timestep,
        )
    }

    /// Whether the velocities of inputs in main memory can be computed, in single precision: both
    /// streams can be prepared, and what is then in main memory goes through all blocks.
    #[verifier::opaque]
    pub open spec fn accepts(
        &self,
        video: Option<ModalityView>,
        audio: Option<ModalityView>,
        skip_video: Seq<usize>,
        skip_audio: Seq<usize>,
        hidden: (nat, nat),
    ) -> bool {
        &&& video is Some && self.video_preprocessor is Some ==> self.video_preprocessor->0.prepares(video->0, audio)
        &&& audio is Some && self.audio_preprocessor is Some ==> self.audio_preprocessor->0.prepares(audio->0, video)
        &&& forall|v: Option<TransformerArgs>, a: Option<TransformerArgs>|
            modality::args_in_memory(v) && modality::args_in_memory(a) && modality::owned_args_view(v)
                == self.video_input(video, audio) && modality::owned_args_view(a) == self.audio_input(video, audio)
                ==> #[trigger] self.runs_on(v, a, skip_video, skip_audio, hidden)
    }

    /// The velocities of the two streams.
    pub fn forward(&self, video: Option<&Modality>, audio: Option<&Modality>) -> (r: Result<
        (Option<Array>, Option<Array>),
        Failure,
    >)
        ensures
            r matches Ok(o) ==> (crate::array::opt_view(o.0), crate::array::opt_view(o.1)) == self.apply(
                modality::modality_view(video),
                modality::modality_view(audio),
                Seq::empty(),
                Seq::empty(),
            ),
            forall|hidden: (nat, nat)|
                modality::opt_in_memory(video) && modality::opt_in_memory(audio) && #[trigger] self.accepts(
                    modality::modality_view(video),
                    modality::modality_view(audio),
                    Seq::empty(),
                    Seq::empty(),
                    hidden,
                ) ==> (r matches Ok(o) && modality::opt_on_cpu(o.0) && modality::opt_on_cpu(o.1)),
    {
        let none: Vec<usize> = Vec::new();
        assert(none@ =~= Seq::<usize>::empty());
        self.forward_perturbed(video, audio, &none, &none)
    }

    /// The velocities of the two streams, where the listed blocks leave out the
    /// self-attention of a stream.
    pub fn forward_perturbed(
        &self,
        video: Option<&Modality>,
        audio: Option<&Modality>,
        skip_video_self_attn_blocks: &Vec<usize>,
        skip_audio_self_attn_blocks: &Vec<usize>,
    ) -> (r: Result<(Option<Array>, Option<Array>), Failure>)
        ensures
            r matches Ok(o) ==> (crate::array::opt_view(o.0), crate::array::opt_view(o.1)) == self.apply(
                modality::modality_view(video),
                modality::modality_view(audio),
                skip_video_self_attn_blocks@,
                skip_audio_self_attn_blocks@,
            ),
            forall|hidden: (nat, nat)|
                modality::opt_in_memory(video) && modality::opt_in_memory(audio) && #[trigger] self.accepts(
                    modality::modality_view(video),
                    modality::modality_view(audio),
                    skip_video_self_attn_blocks@,
                    skip_audio_self_attn_blocks@,
                    hidden,
                ) ==> (r matches Ok(o) && modality::opt_on_cpu(o.0) && modality::opt_on_cpu(o.1)),
    {
        proof {
            reveal(LTXModel::accepts);
        }
        let va = LTXModel::prepare(&self.video_preprocessor, video, audio)?;
        let aa = LTXModel::prepare(&self.audio_preprocessor, audio, video)?;
        proof {
            assert forall|hidden: (nat, nat)|
                modality::opt_in_memory(video) && modality::opt_in_memory(audio) && #[trigger] self.accepts(
                    modality::modality_view(video),
                    modality::modality_view(audio),
                    skip_video_self_attn_blocks@,
                    skip_audio_self_attn_blocks@,
                    hidden,
                ) implies self.runs_on(va, aa, skip_video_self_attn_blocks@, skip_audio_self_attn_blocks@, hidden) by {}
        }
        let (va, aa) = self.run_blocks(va, aa, skip_video_self_attn_blocks, skip_audio_self_attn_blocks)?;
        let vx = self.finish(&va, &self.video_head)?;
        let ax = self.finish(&aa, &self.audio_head)?;
        Ok((vx, ax))
    }

    /// What the blocks get of a stream.
    fn prepare(
        preprocessor: &Option<ArgsPreprocessor>,
        own: Option<&Modality>,
        other: Option<&Modality>,
    ) -> (r: Result<Option<TransformerArgs>, Failure>)
        ensures
            r matches Ok(a) ==> modality::owned_args_view(a) == (if own is Some && preprocessor is Some {
                Some(preprocessor->0.prepared(own->0@, modality::modality_view(other)))
            } else {
                None
            }),
            modality::opt_in_memory(own) && modality::opt_in_memory(other) && (own is Some && preprocessor is Some
                ==> preprocessor->0.prepares(own->0@, modality::modality_view(other))) ==> (r matches Ok(a)
                && modality::args_in_memory(a)),
    {
        match (own, preprocessor) {
            (Some(m), Some(p)) => Ok(Some(p.prepare_with_cross_modality(m, other)?)),
            _ => Ok(None),
        }
    }

    /// Runs the blocks one after another.
    fn run_blocks(
        &self,
        video: Option<TransformerArgs>,
        audio: Option<TransformerArgs>,
        skip_video: &Vec<usize>,
        skip_audio: &Vec<usize>,
    ) -> (r: Result<(Option<TransformerArgs>, Option<TransformerArgs>), Failure>)
        ensures
            r matches Ok(o) ==> (modality::owned_args_view(o.0), modality::owned_args_view(o.1))
                == self.after_blocks(
                (modality::owned_args_view(video), modality::owned_args_view(audio)),
                skip_video@,
                skip_audio@,
                self.blocks@.len(),
            ),
            forall|hidden: (nat, nat)| #[trigger]
                self.runs_on(video, audio, skip_video@, skip_audio@, hidden) ==> (r matches Ok(o) && self.runs_on(
                    o.0,
                    o.1,
                    skip_video@,
                    skip_audio@,
                    hidden,
                )),
    {
        let ghost (v0, a0) = (video, audio);
        let ghost fine = exists|hidden: (nat, nat)| #[trigger]
            self.runs_on(v0, a0, skip_video@, skip_audio@, hidden);
        let ghost input = (modality::owned_args_view(video), modality::owned_args_view(audio));
        let mut va = video;
        let mut aa = audio;
        let mut i: usize = 0;
        while i < self.blocks.len()
            invariant
                i <= self.blocks.len(),
                v0 == video && a0 == audio,
                fine == (exists|hidden: (nat, nat)| #[trigger]
                    self.runs_on(v0, a0, skip_video@, skip_audio@, hidden)),
                fine ==> modality::args_alike(va, modality::lent(&v0)) && modality::args_alike(aa, modality::lent(&a0)),
                (modality::owned_args_view(va), modality::owned_args_view(aa)) == self.after_blocks(
                    input,
                    skip_video@,
                    skip_audio@,
                    i as nat,
                ),
            decreases self.blocks.len() - i,
        {
            let block = &self.blocks[i];
            let sv = contains(skip_video, block.idx);
            let sa = contains(skip_audio, block.idx);
            let ghost (v1, a1) = (va, aa);
            proof {
                if fine {
                    let hidden = choose|hidden: (nat, nat)| #[trigger]
                        self.runs_on(v0, a0, skip_video@, skip_audio@, hidden);
                    assert(self.blocks@[i as int].takes(
                        modality::lent(&v0),
                        modality::lent(&a0),
                        sv,
                        sa,
                        hidden.0,
                        hidden.1,
                    ));
                    block.lemma_takes_alike(
                        modality::lent(&v0),
                        modality::lent(&a0),
                        va,
                        aa,
                        sv,
                        sa,
                        hidden.0,
                        hidden.1,
                    );
                }
            }
            let (v_out, a_out) = block.forward(va.as_ref(), aa.as_ref(), sv, sa)?;
            va = v_out;
            aa = a_out;
            proof {
                if fine {
                    modality::lemma_alike(va, v1, v0);
                    modality::lemma_alike(aa, a1, a0);
                }
            }
            i = i + 1;
        }
        proof {
            assert forall|hidden: (nat, nat)| #[trigger]
                self.runs_on(v0, a0, skip_video@, skip_audio@, hidden) implies self.runs_on(
                va,
                aa,
                skip_video@,
                skip_audio@,
                hidden,
            ) by {
                assert(fine);
                self.lemma_runs_alike(v0, a0, va, aa, skip_video@, skip_audio@, hidden);
            }
        }
        Ok((va, aa))
    }

    /// What the transformer can be run on, it can be run on where it is alike, too.
    proof fn lemma_runs_alike(
        &self,
        video: Option<TransformerArgs>,
        audio: Option<TransformerArgs>,
        new_video: Option<TransformerArgs>,
        new_audio: Option<TransformerArgs>,
        skip_video: Seq<usize>,
        skip_audio: Seq<usize>,
        hidden: (nat, nat),
    )
        requires
            self.runs_on(video, audio, skip_video, skip_audio, hidden),
            modality::args_alike(new_video, modality::lent(&video)),
            modality::args_alike(new_audio, modality::lent(&audio)),
        ensures
            self.runs_on(new_video, new_audio, skip_video, skip_audio, hidden),
    {
        assert forall|i: int| 0 <= i < self.blocks@.len() implies (#[trigger] self.blocks@[i]).takes(
            modality::lent(&new_video),
            modality::lent(&new_audio),
            skip_video.contains(self.blocks@[i].idx),
            skip_audio.contains(self.blocks@[i].idx),
            hidden.0,
            hidden.1,
        ) by {
            let b = self.blocks@[i];
            b.lemma_takes_alike(
                modality::lent(&video),
                modality::lent(&audio),
                new_video,
                new_audio,
                skip_video.contains(b.idx),
                skip_audio.contains(b.idx),
                hidden.0,
                hidden.1,
            );
        }
    }

    /// Computes the velocity of a stream.
    fn finish(&self, args: &Option<TransformerArgs>, head: &Option<OutputHead>) -> (r: Result<
        Option<Array>,
        Failure,
    >)
        ensures
            r matches Ok(o) ==> crate::array::opt_view(o) == self.output(
                modality::owned_args_view(*args),
                *head,
            ),
            (args is Some && head is Some ==> head->0.projects(&args->0.x, &args->0.embedded_timestep)) ==> (
            r matches Ok(o) && modality::opt_on_cpu(o)),
    {
        match (args, head) {
            (Some(a), Some(h)) => Ok(Some(h.process_output(&a.x, &a.embedded_timestep, self.norm_eps)?)),
            _ => Ok(None),
        }
    }
}

/// Whether the widths of both streams can be counted.
pub open spec fn countable(config: TransformerConfig) -> bool {
    &&& config.num_attention_heads * config.attention_head_dim <= usize::MAX
    &&& config.audio_num_attention_heads * config.audio_attention_head_dim <= usize::MAX
}

/// Loads the blocks.
fn load_blocks(
    config: &TransformerConfig,
    model_type: LtxModelType,
    video_inner_dim: usize,
    audio_inner_dim: usize,
    rope_type: LTXRopeType,
    vb: &Weights,
    lora: Option<&LoraConfig>,
) -> (r: Result<Vec<BasicAVTransformerBlock>, Failure>)
    requires
        rope_type == rope_type_of(*config),
        video_inner_dim == config.num_attention_heads * config.attention_head_dim,
        audio_inner_dim == config.audio_num_attention_heads * config.audio_attention_head_dim,
    ensures
        r matches Ok(blocks) ==> blocks@.len() == config.num_layers && forall|i: int|
            0 <= i < config.num_layers ==> block_loaded(
                #[trigger] blocks@[i],
                i,
                *config,
                model_type,
                vb@,
                lora::lora_view(lora),
            ),
        r is Ok ==> forall|i: int|
            0 <= i < config.num_layers ==> BasicAVTransformerBlock::present(
                opt_video_block_of(*config, model_type),
                opt_audio_block_of(*config, model_type),
                #[trigger] block_weights(vb@, i as nat),
                block_lora(lora::lora_view(lora), i as nat),
            ),
        vb@.sound() && lora::adapter_sound(lora::lora_view(lora)) && (forall|i: int|
            0 <= i < config.num_layers ==> BasicAVTransformerBlock::present(
                opt_video_block_of(*config, model_type),
                opt_audio_block_of(*config, model_type),
                #[trigger] block_weights(vb@, i as nat),
                block_lora(lora::lora_view(lora), i as nat),
            )) ==> r is Ok,
{
    let video_block_config = if model_type.is_video_enabled() {
        Some(
            BlockConfig {
                dim: video_inner_dim,
                heads: config.num_attention_heads,
                d_head: config.attention_head_dim,
                context_dim: config.cross_attention_dim,
                apply_gated_attention: config.apply_gated_attention,
                cross_attention_adaln: config.cross_attention_adaln,
            },
        )
    } else {
        None
    };
    let audio_block_config = if model_type.is_audio_enabled() {
        Some(
            BlockConfig {
                dim: audio_inner_dim,
                heads: config.audio_num_attention_heads,
                d_head: config.audio_attention_head_dim,
                context_dim: config.audio_cross_attention_dim,
                apply_gated_attention: config.apply_gated_attention,
                cross_attention_adaln: config.cross_attention_adaln,
            },
        )
    } else {
        None
    };
    let blocks_vb = vb.pp("transformer_blocks");
    let blocks_lora = sub_lora(lora, "transformer_blocks");
    let mut blocks: Vec<BasicAVTransformerBlock> = Vec::new();
    let mut idx: usize = 0;
    while idx < config.num_layers
        invariant
            idx <= config.num_layers,
            rope_type == rope_type_of(*config),
            video_block_config == opt_video_block_of(*config, model_type),
            audio_block_config == opt_audio_block_of(*config, model_type),
            blocks_vb@ == vb@.pp("transformer_blocks"@),
            lora::owned_lora_view(blocks_lora) == lora::lora_pp(
                lora::lora_view(lora),
                "transformer_blocks"@,
            ),
            blocks@.len() == idx,
            forall|i: int|
                0 <= i < idx ==> block_loaded(
                    #[trigger] blocks@[i],
                    i,
                    *config,
                    model_type,
                    vb@,
                    lora::lora_view(lora),
                ),
            forall|i: int|
                0 <= i < idx ==> BasicAVTransformerBlock::present(
                    opt_video_block_of(*config, model_type),
                    opt_audio_block_of(*config, model_type),
                    #[trigger] block_weights(vb@, i as nat),
                    block_lora(lora::lora_view(lora), i as nat),
                ),
        decreases config.num_layers - idx,
    {
        let nth = nth_lora(blocks_lora.as_ref(), idx);
        let one_lora = nth.as_ref();
        proof {
            assert(block_weights(vb@, idx as int as nat) == blocks_vb@.at(idx as nat));
            let own = block_lora(lora::lora_view(lora), idx as nat);
            assert(lora::lora_view(one_lora) == own);
            if vb@.sound() && lora::adapter_sound(lora::lora_view(lora)) {
                assert(blocks_vb@.at(idx as nat).sound());
                assert(lora::adapter_sound(own));
                if forall|i: int|
                    0 <= i < config.num_layers ==> BasicAVTransformerBlock::present(
                        opt_video_block_of(*config, model_type),
                        opt_audio_block_of(*config, model_type),
                        #[trigger] block_weights(vb@, i as nat),
                        block_lora(lora::lora_view(lora), i as nat),
                    ) {
                    let i = idx as int;
                    assert(BasicAVTransformerBlock::present(
                        opt_video_block_of(*config, model_type),
                        opt_audio_block_of(*config, model_type),
                        block_weights(vb@, i as nat),
                        block_lora(lora::lora_view(lora), i as nat),
                    ));
                }
            }
        }
        let b = BasicAVTransformerBlock::new_with_lora(
            idx,
            video_block_config.as_ref(),
            audio_block_config.as_ref(),
            rope_type,
            config.norm_eps,
            &blocks_vb.at(idx),
            one_lora,
        )?;
        blocks.push(b);
        idx = idx + 1;
    }
    Ok(blocks)
}

/// Whether a list holds a number.
pub fn contains(list: &Vec<usize>, n: usize) -> (r: bool)
    ensures
        r == list@.contains(n),
{
    let mut i: usize = 0;
    while i < list.len()
        invariant
            i <= list.len(),
            forall|k: int| 0 <= k < i ==> list[k] != n,
        decreases list.len() - i,
    {
        if list[i] == n {
            assert(list@[i as int] == n);
            return true;
        }
        i = i + 1;
    }
    false
}

/// Which blocks are perturbed is all that the lists say: two pairs of lists that hold the same of
/// the blocks that the transformer has give the same.
pub proof fn law_lists_tell_blocks(
    m: LTXModel,
    input: (Option<ArgsView>, Option<ArgsView>),
    skip: (Seq<usize>, Seq<usize>),
    other: (Seq<usize>, Seq<usize>),
    n: nat,
)
    requires
        n <= m.blocks@.len(),
        forall|i: int|
            0 <= i < m.blocks@.len() ==> {
                let idx = (#[trigger] m.blocks@[i]).idx;
                skip.0.contains(idx) == other.0.contains(idx) && skip.1.contains(idx) == other.1.contains(idx)
            },
    ensures
        m.after_blocks(input, skip.0, skip.1, n) == m.after_blocks(input, other.0, other.1, n),
    decreases n,
{
    if n > 0 {
        law_lists_tell_blocks(m, input, skip, other, (n - 1) as nat);
        let idx = m.blocks@[n - 1].idx;
        assert(skip.0.contains(idx) == other.0.contains(idx) && skip.1.contains(idx) == other.1.contains(idx));
    }
}

/// Blocks that the transformer does not have cannot be perturbed: listing only such
/// blocks, for either stream, changes nothing.
pub proof fn law_unknown_blocks_are_ignored(
    m: LTXModel,
    input: (Option<ArgsView>, Option<ArgsView>),
    skip: Seq<usize>,
    skip_audio: Seq<usize>,
    n: nat,
)
    requires
        n <= m.blocks@.len(),
        forall|i: int|
            0 <= i < m.blocks@.len() ==> !skip.contains((#[trigger] m.blocks@[i]).idx) && !skip_audio.contains(
                m.blocks@[i].idx,
            ),
    ensures
        m.after_blocks(input, skip, skip_audio, n) == m.after_blocks(
            input,
            Seq::empty(),
            Seq::empty(),
            n,
        ),
{
    law_lists_tell_blocks(m, input, (skip, skip_audio), (Seq::empty(), Seq::empty()), n);
}

} // verus!
