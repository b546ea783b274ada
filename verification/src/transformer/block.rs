//! One block of the transformer.
use vstd::prelude::*;

use crate::array::{self, Array};
use crate::base::ops::{self, missing_err, rms_norm};
use crate::error::Failure;
use crate::lemmas;
use crate::model::{self, BinOp, Dtype, TensorView};
use crate::nn::attention::{self, Attention};
use crate::nn::feed_forward::FeedForward;
use crate::nn::linear;
use crate::nn::lora::{self, sub_lora, LoraConfig, LoraView};
use crate::nn::rope::{self, LTXRopeType};
use crate::scalar::{Scalar, ONE};
use crate::transformer::modality::{self, ArgsView, TransformerArgs};
use crate::weights::{Weights, WeightsView};

verus! {

/// Sizes of one stream of a block.
#[derive(Clone, Copy, PartialEq, Eq, Structural, Debug)]
pub struct BlockConfig {
    pub dim: usize,
    pub heads: usize,
    pub d_head: usize,
    pub context_dim: usize,
    pub apply_gated_attention: bool,
    pub cross_attention_adaln: bool,
}

/// Self-attention, attention to the text, attention between the streams and a
/// feed-forward network, for video and audio.
pub struct BasicAVTransformerBlock {
    pub idx: usize,
    pub video: Option<StreamLayers>,
    pub audio: Option<StreamLayers>,
    pub cross: Option<CrossLayers>,
    pub norm_eps: Scalar,
}

/// The layers of one stream.
pub struct StreamLayers {
    pub attn1: Attention,
    pub attn2: Attention,
    pub ff: FeedForward,
    pub scale_shift_table: Array,
    pub prompt_scale_shift_table: Option<Array>,
}

/// The layers between the streams.
pub struct CrossLayers {
    pub audio_to_video_attn: Attention,
    pub video_to_audio_attn: Attention,
    pub scale_shift_table_a2v_ca_audio: Array,
    pub scale_shift_table_a2v_ca_video: Array,
}

/// The value of an optional component; fails where it is not there.
pub fn need<'a, T>(component: Option<&'a T>, what: &str) -> (r: Result<&'a T, Failure>)
    ensures
        component matches Some(c) ==> r == Ok::<&T, Failure>(c),
        component is None ==> (r matches Err(Failure::Missing { what: w }) && w@ == what@),
{
    match component {
        Some(c) => Ok(c),
        None => Err(missing_err(what)),
    }
}

/// The names of the layers of one stream.
pub struct StreamNames<'a> {
    pub attn1: &'a str,
    pub attn2: &'a str,
    pub ff: &'a str,
    pub table: &'a str,
    pub prompt_table: &'a str,
}

/// Whether two attentions have the same settings apart from their weights.
pub open spec fn attention_settings(
    a: Attention,
    heads: usize,
    dim_head: usize,
    norm_eps: Scalar,
    rope_type: LTXRopeType,
) -> bool {
    a.heads == heads && a.dim_head == dim_head && a.norm_eps == norm_eps && a.rope_type == rope_type
}

impl StreamLayers {
    /// Whether these are the layers that a checkpoint and an adapter hold under the
    /// given names.
    pub open spec fn loaded(
        &self,
        cfg: BlockConfig,
        attn1: Seq<char>,
        attn2: Seq<char>,
        ff: Seq<char>,
        table: Seq<char>,
        prompt_table: Seq<char>,
        rope_type: LTXRopeType,
        norm_eps: Scalar,
        vb: WeightsView,
        lora: Option<LoraView>,
    ) -> bool {
        &&& self.attn1.loaded(vb.pp(attn1), lora::lora_pp(lora, attn1), cfg.apply_gated_attention)
        &&& self.attn2.loaded(vb.pp(attn2), lora::lora_pp(lora, attn2), cfg.apply_gated_attention)
        &&& attention_settings(self.attn1, cfg.heads, cfg.d_head, norm_eps, rope_type)
        &&& attention_settings(self.attn2, cfg.heads, cfg.d_head, norm_eps, rope_type)
        &&& self.ff.loaded(vb.pp(ff), lora::lora_pp(lora, ff))
        &&& self.scale_shift_table@ == vb.get(table)
        &&& cfg.cross_attention_adaln == self.prompt_scale_shift_table is Some
        &&& self.prompt_scale_shift_table matches Some(t) ==> t@ == vb.get(prompt_table)
    }

    /// Whether a checkpoint and an adapter hold layers of these sizes.
    pub open spec fn present(
        cfg: BlockConfig,
        attn1: Seq<char>,
        attn2: Seq<char>,
        ff: Seq<char>,
        table: Seq<char>,
        prompt_table: Seq<char>,
        vb: WeightsView,
        lora: Option<LoraView>,
    ) -> bool {
        let dim = cfg.dim as nat;
        &&& Attention::present(
            vb.pp(attn1),
            lora::lora_pp(lora, attn1),
            dim,
            dim,
            cfg.heads as nat,
            cfg.d_head as nat,
            cfg.apply_gated_attention,
        )
        &&& Attention::present(
            vb.pp(attn2),
            lora::lora_pp(lora, attn2),
            dim,
            cfg.context_dim as nat,
            cfg.heads as nat,
            cfg.d_head as nat,
            cfg.apply_gated_attention,
        )
        &&& FeedForward::present(vb.pp(ff), lora::lora_pp(lora, ff), dim, dim, 4)
        &&& vb.holds(table, seq![if cfg.cross_attention_adaln { 9 } else { 6 }, dim])
        &&& cfg.cross_attention_adaln ==> vb.holds(prompt_table, seq![2, dim])
    }

    /// Loads the layers of one stream.
    fn load(
        cfg: &BlockConfig,
        names: &StreamNames,
        rope_type: LTXRopeType,
        norm_eps: Scalar,
        vb: &Weights,
        lora: Option<&LoraConfig>,
    ) -> (r: Result<StreamLayers, Failure>)
        ensures
            r matches Ok(s) ==> s.loaded(
                *cfg,
                names.attn1@,
                names.attn2@,
                names.ff@,
                names.table@,
                names.prompt_table@,
                rope_type,
                norm_eps,
                vb@,
                lora::lora_view(lora),
            ),
            r is Ok ==> StreamLayers::present(
                *cfg,
                names.attn1@,
                names.attn2@,
                names.ff@,
                names.table@,
                names.prompt_table@,
                vb@,
                lora::lora_view(lora),
            ),
            vb@.sound() && lora::adapter_sound(lora::lora_view(lora)) && StreamLayers::present(
                *cfg,
                names.attn1@,
                names.attn2@,
                names.ff@,
                names.table@,
                names.prompt_table@,
                vb@,
                lora::lora_view(lora),
            ) ==> r is Ok,
    {
        let attn1_lora = sub_lora(lora, names.attn1);
        let attn2_lora = sub_lora(lora, names.attn2);
        let ff_lora = sub_lora(lora, names.ff);
        let attn1 = Attention::new_with_lora(
            cfg.dim,
            None,
            cfg.heads,
            cfg.d_head,
            norm_eps,
            rope_type,
            cfg.apply_gated_attention,
            &vb.pp(names.attn1),
            attn1_lora.as_ref(),
        )?;
        let attn2 = Attention::new_with_lora(
            cfg.dim,
            Some(cfg.context_dim),
            cfg.heads,
            cfg.d_head,
            norm_eps,
            rope_type,
            cfg.apply_gated_attention,
            &vb.pp(names.attn2),
            attn2_lora.as_ref(),
        )?;
        let ff = FeedForward::new_with_lora(cfg.dim, cfg.dim, 4, &vb.pp(names.ff), ff_lora.as_ref())?;
        let rows: usize = if cfg.cross_attention_adaln {
            9
        } else {
            6
        };
        let scale_shift_table = vb.get2(rows, cfg.dim, names.table)?;
        let prompt_scale_shift_table = if cfg.cross_attention_adaln {
            Some(vb.get2(2, cfg.dim, names.prompt_table)?)
        } else {
            None
        };
        Ok(StreamLayers { attn1, attn2, ff, scale_shift_table, prompt_scale_shift_table })
    }
}

/// The table under the first of two names that a checkpoint uses.
pub open spec fn table_of(vb: WeightsView, first: Seq<char>, second: Seq<char>) -> TensorView {
    if vb.has(first) {
        vb.get(first)
    } else {
        vb.get(second)
    }
}

/// Whether that table has five rows of the right size.
pub open spec fn has_table(vb: WeightsView, first: Seq<char>, second: Seq<char>, dim: nat) -> bool {
    if vb.has(first) {
        vb.holds(first, seq![5, dim])
    } else {
        vb.holds(second, seq![5, dim])
    }
}

impl CrossLayers {
    /// Whether these are the layers that a checkpoint and an adapter hold.
    pub open spec fn loaded(
        &self,
        v: BlockConfig,
        a: BlockConfig,
        rope_type: LTXRopeType,
        norm_eps: Scalar,
        vb: WeightsView,
        lora: Option<LoraView>,
    ) -> bool {
        &&& self.audio_to_video_attn.loaded(
            vb.pp("audio_to_video_attn"@),
            lora::lora_pp(lora, "audio_to_video_attn"@),
            v.apply_gated_attention,
        )
        &&& self.video_to_audio_attn.loaded(
            vb.pp("video_to_audio_attn"@),
            lora::lora_pp(lora, "video_to_audio_attn"@),
            a.apply_gated_attention,
        )
        &&& attention_settings(self.audio_to_video_attn, a.heads, a.d_head, norm_eps, rope_type)
        &&& attention_settings(self.video_to_audio_attn, a.heads, a.d_head, norm_eps, rope_type)
        &&& self.scale_shift_table_a2v_ca_audio@ == table_of(
            vb,
            "audio_a2v_cross_attn_scale_shift_table"@,
            "scale_shift_table_a2v_ca_audio"@,
        )
        &&& self.scale_shift_table_a2v_ca_video@ == table_of(
            vb,
            "video_a2v_cross_attn_scale_shift_table"@,
            "scale_shift_table_a2v_ca_video"@,
        )
    }

    /// Whether a checkpoint and an adapter hold layers of these sizes.
    pub open spec fn present(v: BlockConfig, a: BlockConfig, vb: WeightsView, lora: Option<LoraView>) -> bool {
        &&& Attention::present(
            vb.pp("audio_to_video_attn"@),
            lora::lora_pp(lora, "audio_to_video_attn"@),
            v.dim as nat,
            a.dim as nat,
            a.heads as nat,
            a.d_head as nat,
            v.apply_gated_attention,
        )
        &&& Attention::present(
            vb.pp("video_to_audio_attn"@),
            lora::lora_pp(lora, "video_to_audio_attn"@),
            a.dim as nat,
            v.dim as nat,
            a.heads as nat,
            a.d_head as nat,
            a.apply_gated_attention,
        )
        &&& has_table(
            vb,
            "audio_a2v_cross_attn_scale_shift_table"@,
            "scale_shift_table_a2v_ca_audio"@,
            a.dim as nat,
        )
        &&& has_table(
            vb,
            "video_a2v_cross_attn_scale_shift_table"@,
            "scale_shift_table_a2v_ca_video"@,
            v.dim as nat,
        )
    }

    /// Loads the layers between the streams.
    fn load(
        v: &BlockConfig,
        a: &BlockConfig,
        rope_type: LTXRopeType,
        norm_eps: Scalar,
        vb: &Weights,
        lora: Option<&LoraConfig>,
    ) -> (r: Result<CrossLayers, Failure>)
        ensures
            r matches Ok(c) ==> c.loaded(*v, *a, rope_type, norm_eps, vb@, lora::lora_view(lora)),
            r is Ok ==> CrossLayers::present(*v, *a, vb@, lora::lora_view(lora)),
            vb@.sound() && lora::adapter_sound(lora::lora_view(lora)) && CrossLayers::present(*v, *a, vb@, lora::lora_view(lora)) ==> r is Ok,
    {
        let a2v_lora = sub_lora(lora, "audio_to_video_attn");
        let v2a_lora = sub_lora(lora, "video_to_audio_attn");
        let audio_to_video_attn = Attention::new_with_lora(
            v.dim,
            Some(a.dim),
            a.heads,
            a.d_head,
            norm_eps,
            rope_type,
            v.apply_gated_attention,
            &vb.pp("audio_to_video_attn"),
            a2v_lora.as_ref(),
        )?;
        let video_to_audio_attn = Attention::new_with_lora(
            a.dim,
            Some(v.dim),
            a.heads,
            a.d_head,
            norm_eps,
            rope_type,
            a.apply_gated_attention,
            &vb.pp("video_to_audio_attn"),
            v2a_lora.as_ref(),
        )?;
        let scale_shift_table_a2v_ca_audio = if vb.contains_tensor("audio_a2v_cross_attn_scale_shift_table") {
            vb.get2(5, a.dim, "audio_a2v_cross_attn_scale_shift_table")?
        } else {
            vb.get2(5, a.dim, "scale_shift_table_a2v_ca_audio")?
        };
        let scale_shift_table_a2v_ca_video = if vb.contains_tensor("video_a2v_cross_attn_scale_shift_table") {
            vb.get2(5, v.dim, "video_a2v_cross_attn_scale_shift_table")?
        } else {
            vb.get2(5, v.dim, "scale_shift_table_a2v_ca_video")?
        };
        Ok(
            CrossLayers {
                audio_to_video_attn,
                video_to_audio_attn,
                scale_shift_table_a2v_ca_audio,
                scale_shift_table_a2v_ca_video,
            },
        )
    }
}

impl BasicAVTransformerBlock {
    /// Whether this is the block that a checkpoint and an adapter hold.
    pub open spec fn loaded(
        &self,
        idx: usize,
        video: Option<BlockConfig>,
        audio: Option<BlockConfig>,
        rope_type: LTXRopeType,
        norm_eps: Scalar,
        vb: WeightsView,
        lora: Option<LoraView>,
    ) -> bool {
        &&& self.idx == idx
        &&& self.norm_eps == norm_eps
        &&& video is Some == self.video is Some
        &&& audio is Some == self.audio is Some
        &&& self.cross is Some == (video is Some && audio is Some)
        &&& self.video matches Some(s) ==> s.loaded(
            video->0,
            "attn1"@,
            "attn2"@,
            "ff"@,
            "scale_shift_table"@,
            "prompt_scale_shift_table"@,
            rope_type,
            norm_eps,
            vb,
            lora,
        )
        &&& self.audio matches Some(s) ==> s.loaded(
            audio->0,
            "audio_attn1"@,
            "audio_attn2"@,
            "audio_ff"@,
            "audio_scale_shift_table"@,
            "audio_prompt_scale_shift_table"@,
            rope_type,
            norm_eps,
            vb,
            lora,
        )
        &&& self.cross matches Some(c) ==> c.loaded(video->0, audio->0, rope_type, norm_eps, vb, lora)
    }

    /// Whether a checkpoint and an adapter hold a block of these sizes.
    pub open spec fn present(
        video: Option<BlockConfig>,
        audio: Option<BlockConfig>,
        vb: WeightsView,
        lora: Option<LoraView>,
    ) -> bool {
        &&& video matches Some(v) ==> StreamLayers::present(
            v,
            "attn1"@,
            "attn2"@,
            "ff"@,
            "scale_shift_table"@,
            "prompt_scale_shift_table"@,
            vb,
            lora,
        )
        &&& audio matches Some(a) ==> StreamLayers::present(
            a,
            "audio_attn1"@,
            "audio_attn2"@,
            "audio_ff"@,
            "audio_scale_shift_table"@,
            "audio_prompt_scale_shift_table"@,
            vb,
            lora,
        )
        &&& video is Some && audio is Some ==> CrossLayers::present(video->0, audio->0, vb, lora)
    }

    pub fn new(
        idx: usize,
        video: Option<&BlockConfig>,
        audio: Option<&BlockConfig>,
        rope_type: LTXRopeType,
        norm_eps: Scalar,
        vb: &Weights,
    ) -> (r: Result<BasicAVTransformerBlock, Failure>)
        ensures
            r matches Ok(b) ==> b.loaded(
                idx,
                config_of(video),
                config_of(audio),
                rope_type,
                norm_eps,
                vb@,
                None,
            ),
            r is Ok ==> BasicAVTransformerBlock::present(config_of(video), config_of(audio), vb@, None),
            vb@.sound() && BasicAVTransformerBlock::present(config_of(video), config_of(audio), vb@, None) ==> r is Ok,
            video is None && audio is None ==> r is Ok,
    {
        BasicAVTransformerBlock::new_with_lora(idx, video, audio, rope_type, norm_eps, vb, None)
    }

    pub fn new_with_lora(
        idx: usize,
        video: Option<&BlockConfig>,
        audio: Option<&BlockConfig>,
        rope_type: LTXRopeType,
        norm_eps: Scalar,
        vb: &Weights,
        lora: Option<&LoraConfig>,
    ) -> (r: Result<BasicAVTransformerBlock, Failure>)
        ensures
            r matches Ok(b) ==> b.loaded(
                idx,
                config_of(video),
                config_of(audio),
                rope_type,
                norm_eps,
                vb@,
                lora::lora_view(lora),
            ),
            r is Ok ==> BasicAVTransformerBlock::present(
                config_of(video),
                config_of(audio),
                vb@,
                lora::lora_view(lora),
            ),
            vb@.sound() && lora::adapter_sound(lora::lora_view(lora)) && BasicAVTransformerBlock::present(
                config_of(video),
                config_of(audio),
                vb@,
                lora::lora_view(lora),
            ) ==> r is Ok,
            video is None && audio is None ==> r is Ok,
    {
        let video_layers = match video {
            Some(v) => Some(
                StreamLayers::load(
                    v,
                    &StreamNames {
                        attn1: "attn1",
                        attn2: "attn2",
                        ff: "ff",
                        table: "scale_shift_table",
                        prompt_table: "prompt_scale_shift_table",
                    },
                    rope_type,
                    norm_eps,
                    vb,
                    lora,
                )?,
            ),
            None => None,
        };
        let audio_layers = match audio {
            Some(a) => Some(
                StreamLayers::load(
                    a,
                    &StreamNames {
                        attn1: "audio_attn1",
                        attn2: "audio_attn2",
                        ff: "audio_ff",
                        table: "audio_scale_shift_table",
                        prompt_table: "audio_prompt_scale_shift_table",
                    },
                    rope_type,
                    norm_eps,
                    vb,
                    lora,
                )?,
            ),
            None => None,
        };
        let cross = match (video, audio) {
            (Some(v), Some(a)) => Some(CrossLayers::load(v, a, rope_type, norm_eps, vb, lora)?),
            _ => None,
        };
        Ok(BasicAVTransformerBlock { idx, video: video_layers, audio: audio_layers, cross, norm_eps })
    }

    /// Whether a stream is computed.
    pub open spec fn runs(args: Option<ArgsView>) -> bool {
        args matches Some(a) && a.enabled && model::numel(a.x.dims) > 0
    }

    /// Whether a stream can be attended to.
    pub open spec fn visible(args: Option<ArgsView>) -> bool {
        args matches Some(a) && model::numel(a.x.dims) > 0
    }

    /// The number of samples.
    pub open spec fn batch(video: Option<ArgsView>, audio: Option<ArgsView>) -> nat {
        if video is Some {
            video->0.x.dims[0]
        } else {
            audio->0.x.dims[0]
        }
    }

    /// A stream after self-attention and attention to the text.
    #[verifier::opaque]
    pub open spec fn attended(
        &self,
        layers: Option<StreamLayers>,
        args: Option<ArgsView>,
        batch: nat,
        skip: bool,
    ) -> TensorView {
        if BasicAVTransformerBlock::runs(args) {
            self_and_text_attention_of(layers->0, args->0.x, args->0, batch, self.norm_eps, skip)
        } else {
            args->0.x
        }
    }

    /// The video stream after attention to the audio stream, from the states `vx` and `ax`.
    #[verifier::opaque]
    pub open spec fn video_crossed(
        &self,
        video: Option<ArgsView>,
        audio: Option<ArgsView>,
        vx: TensorView,
        ax: TensorView,
        batch: nat,
    ) -> TensorView {
        if BasicAVTransformerBlock::runs(video) && BasicAVTransformerBlock::visible(audio) {
            let c = self.cross->0;
            let v = video->0;
            let a = audio->0;
            let v_ada = av_ada_of(
                c.scale_shift_table_a2v_ca_video@,
                batch,
                v.cross_scale_shift_timestep->0,
                v.cross_gate_timestep->0,
            );
            let a_ada = av_ada_of(
                c.scale_shift_table_a2v_ca_audio@,
                batch,
                a.cross_scale_shift_timestep->0,
                a.cross_gate_timestep->0,
            );
            let q = modulated_of(ops::rms_norm_of(vx, None, self.norm_eps), v_ada.shift_a2v, v_ada.scale_a2v);
            let k = modulated_of(ops::rms_norm_of(ax, None, self.norm_eps), a_ada.shift_a2v, a_ada.scale_a2v);
            let out = c.audio_to_video_attn.apply(
                q,
                Some(k),
                None,
                v.cross_positional_embeddings,
                a.cross_positional_embeddings,
            );
            model::binary(BinOp::Plus, vx, model::binary(BinOp::Times, out, v_ada.gate))
        } else {
            vx
        }
    }

    /// The audio stream after attention to the video stream, from the states `vx` and `ax`.
    #[verifier::opaque]
    pub open spec fn audio_crossed(
        &self,
        video: Option<ArgsView>,
        audio: Option<ArgsView>,
        vx: TensorView,
        ax: TensorView,
        batch: nat,
    ) -> TensorView {
        if BasicAVTransformerBlock::runs(audio) && BasicAVTransformerBlock::visible(video) {
            let c = self.cross->0;
            let v = video->0;
            let a = audio->0;
            let v_ada = av_ada_of(
                c.scale_shift_table_a2v_ca_video@,
                batch,
                v.cross_scale_shift_timestep->0,
                v.cross_gate_timestep->0,
            );
            let a_ada = av_ada_of(
                c.scale_shift_table_a2v_ca_audio@,
                batch,
                a.cross_scale_shift_timestep->0,
                a.cross_gate_timestep->0,
            );
            let q = modulated_of(ops::rms_norm_of(ax, None, self.norm_eps), a_ada.shift_v2a, a_ada.scale_v2a);
            let k = modulated_of(ops::rms_norm_of(vx, None, self.norm_eps), v_ada.shift_v2a, v_ada.scale_v2a);
            let out = c.video_to_audio_attn.apply(
                q,
                Some(k),
                None,
                a.cross_positional_embeddings,
                v.cross_positional_embeddings,
            );
            model::binary(BinOp::Plus, ax, model::binary(BinOp::Times, out, a_ada.gate))
        } else {
            ax
        }
    }

    /// A stream after its feed-forward network.
    #[verifier::opaque]
    pub open spec fn fed_forward(
        &self,
        layers: Option<StreamLayers>,
        args: Option<ArgsView>,
        x: TensorView,
        batch: nat,
    ) -> TensorView {
        if BasicAVTransformerBlock::runs(args) {
            ffn_of(layers->0, x, args->0, batch, self.norm_eps)
        } else {
            x
        }
    }

    /// What the block makes of the two streams.
    pub open spec fn apply(
        &self,
        video: Option<ArgsView>,
        audio: Option<ArgsView>,
        skip_video: bool,
        skip_audio: bool,
    ) -> (Option<ArgsView>, Option<ArgsView>) {
        let batch = BasicAVTransformerBlock::batch(video, audio);
        let vx = self.attended(self.video, video, batch, skip_video);
        let ax = self.attended(self.audio, audio, batch, skip_audio);
        let vx2 = self.video_crossed(video, audio, vx, ax, batch);
        let ax2 = self.audio_crossed(video, audio, vx, ax, batch);
        let vx3 = self.fed_forward(self.video, video, vx2, batch);
        let ax3 = self.fed_forward(self.audio, audio, ax2, batch);
        (
            match video {
                Some(v) => Some(ArgsView { x: vx3, ..v }),
                None => None,
            },
            match audio {
                Some(a) => Some(ArgsView { x: ax3, ..a }),
                None => None,
            },
        )
    }

    /// Whether the block has the layers that the two streams need, and the streams
    /// have what attention between them needs.
    pub open spec fn equipped(&self, video: Option<ArgsView>, audio: Option<ArgsView>) -> bool {
        let run_v = BasicAVTransformerBlock::runs(video);
        let run_a = BasicAVTransformerBlock::runs(audio);
        let cross = (run_v && BasicAVTransformerBlock::visible(audio)) || (run_a
            && BasicAVTransformerBlock::visible(video));
        &&& run_v ==> self.video is Some
        &&& run_a ==> self.audio is Some
        &&& cross ==> self.cross is Some
        &&& cross ==> video->0.cross_scale_shift_timestep is Some && video->0.cross_gate_timestep is Some
        &&& cross ==> audio->0.cross_scale_shift_timestep is Some && audio->0.cross_gate_timestep is Some
    }

    /// Whether a stream can be computed, in main memory and in single precision, with rows of
    /// `hidden` numbers in its feed-forward network. One that is not computed always can.
    pub open spec fn takes_stream(
        layers: Option<StreamLayers>,
        args: Option<&TransformerArgs>,
        batch: nat,
        skip: bool,
        hidden: nat,
    ) -> bool {
        args matches Some(a) ==> BasicAVTransformerBlock::runs(Some(a@)) ==> (layers matches Some(l) && (skip
            || l.attends_itself(&a.x, a, batch)) && l.attends_text(&a.x, a, batch) && l.feeds(
            hidden,
            &a.x,
            a,
            batch,
        ))
    }

    /// Whether the block can be run on the two streams, in main memory and in single precision.
    pub open spec fn takes(
        &self,
        video: Option<&TransformerArgs>,
        audio: Option<&TransformerArgs>,
        skip_video: bool,
        skip_audio: bool,
        v_hidden: nat,
        a_hidden: nat,
    ) -> bool {
        let (v, a) = (modality::args_view(video), modality::args_view(audio));
        let batch = BasicAVTransformerBlock::batch(v, a);
        &&& video is Some || audio is Some
        &&& (if video is Some { video->0.x@.rank() } else { audio->0.x@.rank() }) > 0
        &&& BasicAVTransformerBlock::takes_stream(self.video, video, batch, skip_video, v_hidden)
        &&& BasicAVTransformerBlock::takes_stream(self.audio, audio, batch, skip_audio, a_hidden)
        &&& (BasicAVTransformerBlock::runs(v) && BasicAVTransformerBlock::visible(a)) || (
        BasicAVTransformerBlock::runs(a) && BasicAVTransformerBlock::visible(v)) ==> (self.cross matches Some(c)
            && c.crosses(video->0, audio->0, &video->0.x, &audio->0.x, batch))
    }

    /// Runs the block on the two streams. A skipped self-attention leaves its stream
    /// as it is.
    pub fn forward(
        &self,
        video: Option<&TransformerArgs>,
        audio: Option<&TransformerArgs>,
        skip_video_self_attn: bool,
        skip_audio_self_attn: bool,
    ) -> (r: Result<(Option<TransformerArgs>, Option<TransformerArgs>), Failure>)
        ensures
            r matches Ok(o) ==> (modality::owned_args_view(o.0), modality::owned_args_view(o.1)) == self.apply(
                modality::args_view(video),
                modality::args_view(audio),
                skip_video_self_attn,
                skip_audio_self_attn,
            ),
            r is Ok ==> (video is Some || audio is Some) && self.equipped(
                modality::args_view(video),
                modality::args_view(audio),
            ),
            video is None && audio is None ==> (r matches Err(Failure::Missing { what }) && what@
                == "at least one modality required"@),
            forall|v_hidden: nat, a_hidden: nat| #[trigger]
                self.takes(video, audio, skip_video_self_attn, skip_audio_self_attn, v_hidden, a_hidden) ==> (
                r matches Ok(o) && modality::args_alike(o.0, video) && modality::args_alike(o.1, audio)),
    {
        let first = match video {
            Some(v) => v,
            None => match audio {
                Some(a) => a,
                None => {
                    return Err(missing_err("at least one modality required"));
                },
            },
        };
        let batch_size: usize = first.x.dim(0)?;
        let run_vx = match video {
            Some(v) => v.enabled && v.x.elem_count() > 0,
            None => false,
        };
        let run_ax = match audio {
            Some(a) => a.enabled && a.x.elem_count() > 0,
            None => false,
        };
        let see_v = match video {
            Some(v) => v.x.elem_count() > 0,
            None => false,
        };
        let see_a = match audio {
            Some(a) => a.x.elem_count() > 0,
            None => false,
        };
        let run_a2v = run_vx && see_a;
        let run_v2a = run_ax && see_v;
        let vx = self.attend_stream(&self.video, video, run_vx, batch_size, skip_video_self_attn)?;
        let ax = self.attend_stream(&self.audio, audio, run_ax, batch_size, skip_audio_self_attn)?;
        let (vx, ax) = match (video, audio, vx, ax) {
            (Some(video), Some(audio), Some(vx), Some(ax)) => {
                let (v, a) = self.cross_attend(video, audio, vx, ax, batch_size, run_a2v, run_v2a)?;
                (Some(v), Some(a))
            },
            (_, _, vx, ax) => {
                proof {
                    reveal(BasicAVTransformerBlock::video_crossed);
                    reveal(BasicAVTransformerBlock::audio_crossed);
                }
                (vx, ax)
            },
        };
        proof {
            assert forall|v_hidden: nat, a_hidden: nat| #[trigger]
                self.takes(
                    video,
                    audio,
                    skip_video_self_attn,
                    skip_audio_self_attn,
                    v_hidden,
                    a_hidden,
                ) implies (run_vx ==> self.video->0.feeds(v_hidden, &vx->0, video->0, batch_size as nat)) && (run_ax
                ==> self.audio->0.feeds(a_hidden, &ax->0, audio->0, batch_size as nat)) by {
                if run_vx {
                    assert(self.video->0.feeds(v_hidden, &video->0.x, video->0, batch_size as nat));
                    assert(modality::alike(&vx->0, &video->0.x));
                }
                if run_ax {
                    assert(self.audio->0.feeds(a_hidden, &audio->0.x, audio->0, batch_size as nat));
                    assert(modality::alike(&ax->0, &audio->0.x));
                }
            }
        }
        let ghost (gv, ga) = (vx, ax);
        let video_out = self.feed_stream(&self.video, video, vx, run_vx, batch_size)?;
        let audio_out = self.feed_stream(&self.audio, audio, ax, run_ax, batch_size)?;
        proof {
            assert forall|v_hidden: nat, a_hidden: nat| #[trigger]
                self.takes(
                    video,
                    audio,
                    skip_video_self_attn,
                    skip_audio_self_attn,
                    v_hidden,
                    a_hidden,
                ) implies modality::args_alike(video_out, video) && modality::args_alike(audio_out, audio) by {
                if video is Some {
                    assert(modality::alike(&gv->0, &video->0.x));
                    if run_vx {
                        assert(self.video->0.feeds(v_hidden, &gv->0, video->0, batch_size as nat));
                    }
                }
                if audio is Some {
                    assert(modality::alike(&ga->0, &audio->0.x));
                    if run_ax {
                        assert(self.audio->0.feeds(a_hidden, &ga->0, audio->0, batch_size as nat));
                    }
                }
            }
        }
        Ok((video_out, audio_out))
    }

    /// What a block takes, it takes of arguments that are alike, too.
    pub proof fn lemma_takes_alike(
        &self,
        video: Option<&TransformerArgs>,
        audio: Option<&TransformerArgs>,
        new_video: Option<TransformerArgs>,
        new_audio: Option<TransformerArgs>,
        skip_video: bool,
        skip_audio: bool,
        v_hidden: nat,
        a_hidden: nat,
    )
        requires
            self.takes(video, audio, skip_video, skip_audio, v_hidden, a_hidden),
            modality::args_alike(new_video, video),
            modality::args_alike(new_audio, audio),
        ensures
            self.takes(
                modality::lent(&new_video),
                modality::lent(&new_audio),
                skip_video,
                skip_audio,
                v_hidden,
                a_hidden,
            ),
    {
        let (v2, a2) = (modality::lent(&new_video), modality::lent(&new_audio));
        let batch = BasicAVTransformerBlock::batch(modality::args_view(video), modality::args_view(audio));
        assert(batch == BasicAVTransformerBlock::batch(modality::args_view(v2), modality::args_view(a2)));
        lemma_stream_alike(self.video, video, v2, batch, skip_video, v_hidden);
        lemma_stream_alike(self.audio, audio, a2, batch, skip_audio, a_hidden);
        if video is Some && audio is Some && self.cross is Some {
            let c = self.cross->0;
            if c.crosses(video->0, audio->0, &video->0.x, &audio->0.x, batch) {
                c.lemma_crosses_alike(video->0, audio->0, v2->0, a2->0, batch);
            }
        }
    }

    /// Self-attention and attention to the text of a stream that is computed.
    fn attend_stream(
        &self,
        layers: &Option<StreamLayers>,
        args: Option<&TransformerArgs>,
        run: bool,
        batch_size: usize,
        skip: bool,
    ) -> (r: Result<Option<Array>, Failure>)
        requires
            run == BasicAVTransformerBlock::runs(modality::args_view(args)),
        ensures
            r matches Ok(x) ==> x is Some == args is Some,
            r matches Ok(Some(x)) ==> x@ == self.attended(
                *layers,
                modality::args_view(args),
                batch_size as nat,
                skip,
            ),
            r is Ok && run ==> layers is Some,
            !run ==> r is Ok,
            r matches Ok(Some(x)) ==> !run ==> modality::alike(&x, &args->0.x),
            args matches Some(a) ==> layers matches Some(l) ==> (skip || l.attends_itself(&a.x, a, batch_size as nat))
                && l.attends_text(&a.x, a, batch_size as nat) ==> (r matches Ok(Some(x)) && modality::alike(&x, &a.x)),
    {
        proof {
            reveal(BasicAVTransformerBlock::attended);
        }
        match args {
            Some(a) => {
                if run {
                    let layers = need(layers.as_ref(), "layers of the stream")?;
                    let x = apply_self_attn_and_cross_attn(&a.x, layers, a, batch_size, self.norm_eps, skip)?;
                    Ok(Some(x))
                } else {
                    Ok(Some(a.x.clone()))
                }
            },
            None => Ok(None),
        }
    }

    /// The feed-forward network of a stream that is computed.
    fn feed_stream(
        &self,
        layers: &Option<StreamLayers>,
        args: Option<&TransformerArgs>,
        x: Option<Array>,
        run: bool,
        batch_size: usize,
    ) -> (r: Result<Option<TransformerArgs>, Failure>)
        requires
            run == BasicAVTransformerBlock::runs(modality::args_view(args)),
            x is Some == args is Some,
        ensures
            r matches Ok(o) ==> o is Some == args is Some,
            r matches Ok(Some(o)) ==> o@ == (ArgsView {
                x: self.fed_forward(*layers, modality::args_view(args), x->0@, batch_size as nat),
                ..args->0@
            }),
            !run ==> r is Ok,
            !run && args is Some && modality::alike(&x->0, &args->0.x) ==> (r matches Ok(Some(o)) && o.alike(args->0)),
            forall|hidden: nat|
                args is Some && layers is Some && #[trigger] layers->0.feeds(
                    hidden,
                    &x->0,
                    args->0,
                    batch_size as nat,
                ) ==> (r matches Ok(Some(o)) && (modality::alike(&x->0, &args->0.x) ==> o.alike(args->0))),
    {
        proof {
            reveal(BasicAVTransformerBlock::fed_forward);
        }
        match (args, x) {
            (Some(a), Some(x)) => {
                if run {
                    let layers = need(layers.as_ref(), "layers of the stream")?;
                    let y = apply_ffn(&x, layers, a, batch_size, self.norm_eps)?;
                    Ok(Some(a.with_x(y)))
                } else {
                    Ok(Some(a.with_x(x)))
                }
            },
            _ => Ok(None),
        }
    }

    /// Attention between the streams.
    fn cross_attend(
        &self,
        video: &TransformerArgs,
        audio: &TransformerArgs,
        vx: Array,
        ax: Array,
        batch_size: usize,
        run_a2v: bool,
        run_v2a: bool,
    ) -> (r: Result<(Array, Array), Failure>)
        requires
            run_a2v == (BasicAVTransformerBlock::runs(Some(video@)) && BasicAVTransformerBlock::visible(
                Some(audio@),
            )),
            run_v2a == (BasicAVTransformerBlock::runs(Some(audio@)) && BasicAVTransformerBlock::visible(
                Some(video@),
            )),
        ensures
            r matches Ok(o) ==> o.0@ == self.video_crossed(
                Some(video@),
                Some(audio@),
                vx@,
                ax@,
                batch_size as nat,
            ) && o.1@ == self.audio_crossed(Some(video@), Some(audio@), vx@, ax@, batch_size as nat),
            r is Ok && (run_a2v || run_v2a) ==> self.cross is Some && video@.cross_scale_shift_timestep is Some
                && video@.cross_gate_timestep is Some && audio@.cross_scale_shift_timestep is Some
                && audio@.cross_gate_timestep is Some,
            !run_a2v && !run_v2a ==> r is Ok && r->Ok_0 == (vx, ax),
            self.cross matches Some(c) ==> c.crosses(video, audio, &vx, &ax, batch_size as nat) ==> (r matches Ok(o)
                && modality::alike(&o.0, &vx) && modality::alike(&o.1, &ax)),
    {
        proof {
            lemmas::lemma_common_dims(vx@.dims);
            lemmas::lemma_common_dims(ax@.dims);
        }
        let ghost fine = self.cross is Some && self.cross->0.crosses(video, audio, &vx, &ax, batch_size as nat);

        proof {
            reveal(BasicAVTransformerBlock::video_crossed);
            reveal(BasicAVTransformerBlock::audio_crossed);
        }
        if !run_a2v && !run_v2a {
            return Ok((vx, ax));
        }
        let cross = need(self.cross.as_ref(), "layers between video and audio")?;
        let vx_norm = rms_norm(&vx, None, self.norm_eps)?;
        let ax_norm = rms_norm(&ax, None, self.norm_eps)?;
        let audio_ss = need(audio.cross_scale_shift_timestep.as_ref(), "audio cross_scale_shift_timestep")?;
        let audio_gate = need(audio.cross_gate_timestep.as_ref(), "audio cross_gate_timestep")?;
        let audio_ada = get_av_ca_ada_values(
            &cross.scale_shift_table_a2v_ca_audio,
            batch_size,
            audio_ss,
            audio_gate,
        )?;
        let video_ss = need(video.cross_scale_shift_timestep.as_ref(), "video cross_scale_shift_timestep")?;
        let video_gate = need(video.cross_gate_timestep.as_ref(), "video cross_gate_timestep")?;
        let video_ada = get_av_ca_ada_values(
            &cross.scale_shift_table_a2v_ca_video,
            batch_size,
            video_ss,
            video_gate,
        )?;
        let v_pe = borrow_pair(&video.cross_positional_embeddings);
        let a_pe = borrow_pair(&audio.cross_positional_embeddings);
        let new_vx = if run_a2v {
            let q = modulate_normed(&vx_norm, &video_ada.shift_a2v, &video_ada.scale_a2v)?;
            let k = modulate_normed(&ax_norm, &audio_ada.shift_a2v, &audio_ada.scale_a2v)?;
            let out = cross.audio_to_video_attn.forward(&q, Some(&k), None, v_pe, a_pe)?;
            proof {
                if fine {
                    lemmas::lemma_spread_common(video_ada.gate@.dims, out@.dims);
                }
            }
            vx.pairwise(BinOp::Plus, &out.broadcast(BinOp::Times, &video_ada.gate)?)?
        } else {
            vx.clone()
        };
        let new_ax = if run_v2a {
            let q = modulate_normed(&ax_norm, &audio_ada.shift_v2a, &audio_ada.scale_v2a)?;
            let k = modulate_normed(&vx_norm, &video_ada.shift_v2a, &video_ada.scale_v2a)?;
            let out = cross.video_to_audio_attn.forward(&q, Some(&k), None, a_pe, v_pe)?;
            proof {
                if fine {
                    lemmas::lemma_spread_common(audio_ada.gate@.dims, out@.dims);
                }
            }
            ax.pairwise(BinOp::Plus, &out.broadcast(BinOp::Times, &audio_ada.gate)?)?
        } else {
            ax.clone()
        };
        Ok((new_vx, new_ax))
    }
}

/// The configuration behind an optional reference.
pub open spec fn config_of(c: Option<&BlockConfig>) -> Option<BlockConfig> {
    match c {
        Some(c) => Some(*c),
        None => None,
    }
}

/// An optional pair, borrowed.
pub open spec fn lent_pair(p: &Option<(Array, Array)>) -> Option<(&Array, &Array)> {
    match p {
        Some(p) => Some((&p.0, &p.1)),
        None => None,
    }
}

impl CrossLayers {
    /// Whether one stream can be modulated for attention between the streams.
    pub open spec fn prepares(table: &Array, args: &TransformerArgs, x: &Array, batch: nat) -> bool {
        &&& x.on_cpu() && x@.dtype == Dtype::F32 && x@.rank() == 3
        &&& model::numel(x@.dims) > 0 && model::fits(x@.dims)
        &&& args.cross_scale_shift_timestep matches Some(ss) && args.cross_gate_timestep matches Some(gate)
            && cross_modulates(table, batch, &ss, &gate) && x@.dims == seq![batch, ss@.dims[1], table@.dims[1]] && (
        gate@.dims[1] == 1 || gate@.dims[1] == ss@.dims[1])
    }

    /// Whether one stream can attend to the other.
    pub open spec fn reaches(
        attn: &Attention,
        q: &Array,
        k: &Array,
        q_pe: Option<(&Array, &Array)>,
        k_pe: Option<(&Array, &Array)>,
    ) -> bool {
        let inner = attn.heads as nat * attn.dim_head as nat;
        &&& attn.attends(q, k, None)
        &&& q_pe matches Some(p) ==> attn.turns(p, seq![q@.dims[0], q@.dims[1], inner]) && attn.turns(
            if k_pe is Some { k_pe->0 } else { p },
            seq![q@.dims[0], k@.dims[1], inner],
        )
    }

    /// Whether both streams can attend to each other, in main memory and in single precision.
    pub open spec fn crosses(
        &self,
        video: &TransformerArgs,
        audio: &TransformerArgs,
        vx: &Array,
        ax: &Array,
        batch: nat,
    ) -> bool {
        let v_pe = lent_pair(&video.cross_positional_embeddings);
        let a_pe = lent_pair(&audio.cross_positional_embeddings);
        &&& CrossLayers::prepares(&self.scale_shift_table_a2v_ca_video, video, vx, batch)
        &&& CrossLayers::prepares(&self.scale_shift_table_a2v_ca_audio, audio, ax, batch)
        &&& CrossLayers::reaches(&self.audio_to_video_attn, vx, ax, v_pe, a_pe)
        &&& CrossLayers::reaches(&self.video_to_audio_attn, ax, vx, a_pe, v_pe)
    }
}

/// What rotates an array, rotates it where it is stored and shaped alike, too.
proof fn lemma_turns_alike(attn: &Attention, p: (&Array, &Array), q: (&Array, &Array), dims: Seq<nat>)
    requires
        attn.turns(p, dims),
        modality::alike(p.0, q.0),
        modality::alike(p.1, q.1),
    ensures
        attn.turns(q, dims),
{
    assert forall|a: Array| a.on_cpu() && a@.dtype == Dtype::F32 && a@.dims == dims implies #[trigger] rope::rotates(
        &a,
        q.0,
        q.1,
        attn.rope_type,
    ) by {
        assert(rope::rotates(&a, p.0, p.1, attn.rope_type));
    }
}

/// A stream that can be computed can be computed of arguments that are alike, too.
proof fn lemma_stream_alike(
    layers: Option<StreamLayers>,
    args: Option<&TransformerArgs>,
    other: Option<&TransformerArgs>,
    batch: nat,
    skip: bool,
    hidden: nat,
)
    requires
        BasicAVTransformerBlock::takes_stream(layers, args, batch, skip, hidden),
        args is Some == other is Some,
        other matches Some(o) ==> o.alike(args->0),
    ensures
        BasicAVTransformerBlock::takes_stream(layers, other, batch, skip, hidden),
{
    if BasicAVTransformerBlock::runs(modality::args_view(other)) {
        let (l, a, b) = (layers->0, args->0, other->0);
        assert(BasicAVTransformerBlock::runs(Some(a@)));
        if !skip {
            let inner = l.attn1.heads as nat * l.attn1.dim_head as nat;
            lemma_turns_alike(
                &l.attn1,
                (&a.positional_embeddings.0, &a.positional_embeddings.1),
                (&b.positional_embeddings.0, &b.positional_embeddings.1),
                seq![a.x@.dims[0], a.x@.dims[1], inner],
            );
            assert(l.attends_itself(&b.x, b, batch));
        }
        assert(l.attends_text(&b.x, b, batch));
        assert(l.feeds(hidden, &b.x, b, batch));
    }
}

/// One stream that can attend to the other can do so where both are alike, too.
proof fn lemma_reaches_alike(
    attn: &Attention,
    q: &Array,
    k: &Array,
    q_pe: Option<(&Array, &Array)>,
    k_pe: Option<(&Array, &Array)>,
    q2: &Array,
    k2: &Array,
    q_pe2: Option<(&Array, &Array)>,
    k_pe2: Option<(&Array, &Array)>,
)
    requires
        CrossLayers::reaches(attn, q, k, q_pe, k_pe),
        modality::alike(q, q2),
        modality::alike(k, k2),
        q_pe is Some == q_pe2 is Some,
        k_pe is Some == k_pe2 is Some,
        q_pe matches Some(p) ==> modality::alike(p.0, (q_pe2->0).0) && modality::alike(p.1, (q_pe2->0).1),
        k_pe matches Some(p) ==> modality::alike(p.0, (k_pe2->0).0) && modality::alike(p.1, (k_pe2->0).1),
    ensures
        CrossLayers::reaches(attn, q2, k2, q_pe2, k_pe2),
{
    let inner = attn.heads as nat * attn.dim_head as nat;
    if q_pe is Some {
        lemma_turns_alike(attn, q_pe->0, q_pe2->0, seq![q@.dims[0], q@.dims[1], inner]);
        lemma_turns_alike(
            attn,
            if k_pe is Some {
                k_pe->0
            } else {
                q_pe->0
            },
            if k_pe2 is Some {
                k_pe2->0
            } else {
                q_pe2->0
            },
            seq![q@.dims[0], k@.dims[1], inner],
        );
    }
}

impl CrossLayers {
    /// Streams that can attend to each other can do so where both are alike, too.
    proof fn lemma_crosses_alike(
        &self,
        video: &TransformerArgs,
        audio: &TransformerArgs,
        new_video: &TransformerArgs,
        new_audio: &TransformerArgs,
        batch: nat,
    )
        requires
            self.crosses(video, audio, &video.x, &audio.x, batch),
            new_video.alike(video),
            new_audio.alike(audio),
        ensures
            self.crosses(new_video, new_audio, &new_video.x, &new_audio.x, batch),
    {
        let (v_pe, a_pe) = (
            lent_pair(&video.cross_positional_embeddings),
            lent_pair(&audio.cross_positional_embeddings),
        );
        let (v_pe2, a_pe2) = (
            lent_pair(&new_video.cross_positional_embeddings),
            lent_pair(&new_audio.cross_positional_embeddings),
        );
        lemma_reaches_alike(
            &self.audio_to_video_attn,
            &video.x,
            &audio.x,
            v_pe,
            a_pe,
            &new_video.x,
            &new_audio.x,
            v_pe2,
            a_pe2,
        );
        lemma_reaches_alike(
            &self.video_to_audio_attn,
            &audio.x,
            &video.x,
            a_pe,
            v_pe,
            &new_audio.x,
            &new_video.x,
            a_pe2,
            v_pe2,
        );
        assert(CrossLayers::prepares(&self.scale_shift_table_a2v_ca_video, new_video, &new_video.x, batch));
        assert(CrossLayers::prepares(&self.scale_shift_table_a2v_ca_audio, new_audio, &new_audio.x, batch));
    }
}

/// References to an optional pair.
fn borrow_pair(p: &Option<(Array, Array)>) -> (r: Option<(&Array, &Array)>)
    ensures
        attention::pe_view(r) == modality::pair_view(*p),
        r == lent_pair(p),
{
    match p {
        Some(p) => Some((&p.0, &p.1)),
        None => None,
    }
}

/// `x` after self-attention.
pub open spec fn self_attention_of(
    layers: StreamLayers,
    x: TensorView,
    args: ArgsView,
    batch: nat,
    norm_eps: Scalar,
    skip: bool,
) -> TensorView {
    if skip {
        x
    } else {
        let table = layers.scale_shift_table@;
        let input = modulated_of(
            ops::rms_norm_of(x, None, norm_eps),
            ada_of(table, batch, args.timesteps, 0, 0),
            ada_of(table, batch, args.timesteps, 0, 1),
        );
        let out = layers.attn1.apply(input, None, None, Some(args.positional_embeddings), None);
        model::binary(
            BinOp::Plus,
            x,
            model::binary(BinOp::Times, out, ada_of(table, batch, args.timesteps, 0, 2)),
        )
    }
}

/// What attention to the text adds to `x`.
pub open spec fn text_attention_of(
    layers: StreamLayers,
    x: TensorView,
    args: ArgsView,
    batch: nat,
    norm_eps: Scalar,
) -> TensorView {
    let table = layers.scale_shift_table@;
    let normed = ops::rms_norm_of(x, None, norm_eps);
    if table.dims[0] >= 9 {
        let input = modulated_of(
            normed,
            ada_of(table, batch, args.timesteps, 6, 0),
            ada_of(table, batch, args.timesteps, 6, 1),
        );
        let context = if layers.prompt_scale_shift_table is Some && args.prompt_timestep is Some {
            prompt_context_of(
                args.context,
                layers.prompt_scale_shift_table->0@,
                args.prompt_timestep->0,
                batch,
            )
        } else {
            args.context
        };
        let out = layers.attn2.apply(input, Some(context), args.context_mask, None, None);
        model::binary(BinOp::Times, out, ada_of(table, batch, args.timesteps, 6, 2))
    } else {
        layers.attn2.apply(normed, Some(args.context), args.context_mask, None, None)
    }
}

/// `x` after self-attention and attention to the text.
pub open spec fn self_and_text_attention_of(
    layers: StreamLayers,
    x: TensorView,
    args: ArgsView,
    batch: nat,
    norm_eps: Scalar,
    skip: bool,
) -> TensorView {
    let y = self_attention_of(layers, x, args, batch, norm_eps, skip);
    model::binary(BinOp::Plus, y, text_attention_of(layers, y, args, batch, norm_eps))
}

/// A skipped self-attention leaves its stream as it is.
pub proof fn law_skipped_self_attention_is_identity(
    layers: StreamLayers,
    x: TensorView,
    args: ArgsView,
    batch: nat,
    norm_eps: Scalar,
)
    ensures
        self_attention_of(layers, x, args, batch, norm_eps, true) == x,
{
}

/// Where no stream is computed, a block passes both on as they are.
pub proof fn law_idle_block_is_identity(
    block: BasicAVTransformerBlock,
    video: Option<ArgsView>,
    audio: Option<ArgsView>,
    skip_video: bool,
    skip_audio: bool,
)
    requires
        !BasicAVTransformerBlock::runs(video),
        !BasicAVTransformerBlock::runs(audio),
    ensures
        block.apply(video, audio, skip_video, skip_audio) == (video, audio),
{
    reveal(BasicAVTransformerBlock::attended);
    reveal(BasicAVTransformerBlock::video_crossed);
    reveal(BasicAVTransformerBlock::audio_crossed);
    reveal(BasicAVTransformerBlock::fed_forward);
}

/// A block changes nothing of a stream but its hidden state.
pub proof fn law_block_changes_hidden_state_only(
    block: BasicAVTransformerBlock,
    video: Option<ArgsView>,
    audio: Option<ArgsView>,
    skip_video: bool,
    skip_audio: bool,
)
    ensures
        ({
            let out = block.apply(video, audio, skip_video, skip_audio);
            &&& out.0 is Some == video is Some
            &&& out.1 is Some == audio is Some
            &&& video matches Some(v) ==> (ArgsView { x: v.x, ..out.0->0 }) == v
            &&& audio matches Some(a) ==> (ArgsView { x: a.x, ..out.1->0 }) == a
        }),
{
}

/// Self-attention and attention to the text of one stream.
pub fn apply_self_attn_and_cross_attn(
    x: &Array,
    layers: &StreamLayers,
    args: &TransformerArgs,
    batch_size: usize,
    norm_eps: Scalar,
    skip_self_attn: bool,
) -> (r: Result<Array, Failure>)
    ensures
        r matches Ok(t) ==> t@ == self_and_text_attention_of(
            *layers,
            x@,
            args@,
            batch_size as nat,
            norm_eps,
            skip_self_attn,
        ),
        (skip_self_attn || layers.attends_itself(x, args, batch_size as nat)) && layers.attends_text(
            x,
            args,
            batch_size as nat,
        ) ==> (r matches Ok(t) && t.on_cpu() && t@.dims == x@.dims && t@.dtype == Dtype::F32),
{
    proof {
        lemmas::lemma_common_dims(x@.dims);
    }
    let table = &layers.scale_shift_table;
    let x = if skip_self_attn {
        x.clone()
    } else {
        let (shift_msa, scale_msa, gate_msa) = get_ada_values_3(table, batch_size, &args.timesteps, 0)?;
        let norm_x = rms_norm(x, None, norm_eps)?;
        let norm_x = modulate_normed(&norm_x, &shift_msa, &scale_msa)?;
        let sa_out = layers.attn1.forward(
            &norm_x,
            None,
            None,
            Some((&args.positional_embeddings.0, &args.positional_embeddings.1)),
            None,
        )?;
        x.pairwise(BinOp::Plus, &sa_out.broadcast(BinOp::Times, &gate_msa)?)?
    };
    let ca_out = if table.dim(0)? >= 9 {
        let (shift_q, scale_q, gate_q) = get_ada_values_3(table, batch_size, &args.timesteps, 6)?;
        let norm_x = rms_norm(&x, None, norm_eps)?;
        let attn_input = modulate_normed(&norm_x, &shift_q, &scale_q)?;
        let context = match (&layers.prompt_scale_shift_table, &args.prompt_timestep) {
            (Some(prompt_table), Some(prompt_timestep)) => modulate_prompt_context(
                &args.context,
                prompt_table,
                prompt_timestep,
                batch_size,
            )?,
            _ => args.context.clone(),
        };
        let ca_out = layers.attn2.forward(
            &attn_input,
            Some(&context),
            args.context_mask.as_ref(),
            None,
            None,
        )?;
        ca_out.broadcast(BinOp::Times, &gate_q)?
    } else {
        let norm_x = rms_norm(&x, None, norm_eps)?;
        layers.attn2.forward(&norm_x, Some(&args.context), args.context_mask.as_ref(), None, None)?
    };
    x.pairwise(BinOp::Plus, &ca_out)
}

/// `x` after the feed-forward network.
pub open spec fn ffn_of(layers: StreamLayers, x: TensorView, args: ArgsView, batch: nat, norm_eps: Scalar) -> TensorView {
    let table = layers.scale_shift_table@;
    let input = modulated_of(
        ops::rms_norm_of(x, None, norm_eps),
        ada_of(table, batch, args.timesteps, 3, 0),
        ada_of(table, batch, args.timesteps, 3, 1),
    );
    model::binary(
        BinOp::Plus,
        x,
        model::binary(
            BinOp::Times,
            layers.ff.apply(input),
            ada_of(table, batch, args.timesteps, 3, 2),
        ),
    )
}

impl StreamLayers {
    /// Whether a hidden state and the modulation of its tokens go together, in main memory and
    /// in single precision.
    pub open spec fn streams(&self, x: &Array, args: &TransformerArgs, batch: nat) -> bool {
        &&& x.on_cpu() && x@.dtype == Dtype::F32 && x@.rank() == 3
        &&& model::numel(x@.dims) > 0 && model::fits(x@.dims)
        &&& modulates(&self.scale_shift_table, batch, &args.timesteps)
        &&& args.timesteps@.dtype == Dtype::F32
        &&& self.scale_shift_table@.dims[0] >= 6
        &&& x@.dims == seq![batch, args.timesteps@.dims[1], self.scale_shift_table@.dims[1]]
    }

    /// Whether the feed-forward network can be applied, through rows of `hidden` numbers.
    pub open spec fn feeds(&self, hidden: nat, x: &Array, args: &TransformerArgs, batch: nat) -> bool {
        &&& self.streams(x, args, batch)
        &&& self.ff.maps(x@.dims[2], hidden, x@.dims[2])
        &&& model::fits(linear::with_width(x@.dims, hidden))
    }

    /// Whether self-attention can be applied.
    pub open spec fn attends_itself(&self, x: &Array, args: &TransformerArgs, batch: nat) -> bool {
        let pe = (&args.positional_embeddings.0, &args.positional_embeddings.1);
        let inner = self.attn1.heads as nat * self.attn1.dim_head as nat;
        &&& self.streams(x, args, batch)
        &&& self.attn1.attends(x, x, None)
        &&& self.attn1.turns(pe, seq![x@.dims[0], x@.dims[1], inner])
    }

    /// Whether attention to the text can be applied. Where the text is modulated, it is for each
    /// sample as a whole.
    pub open spec fn attends_text(&self, x: &Array, args: &TransformerArgs, batch: nat) -> bool {
        &&& self.streams(x, args, batch)
        &&& self.attn2.attends(x, &args.context, array::lent(&args.context_mask))
        &&& model::fits(args.context@.dims)
        &&& (self.prompt_scale_shift_table matches Some(table) ==> args.prompt_timestep matches Some(ts)
            ==> modulates_text(&args.context, &table, &ts, batch))
    }
}

/// Whether a text `(B, S, D)` can be scaled and shifted, sample by sample, in main memory.
pub open spec fn modulates_text(context: &Array, table: &Array, timestep: &Array, batch: nat) -> bool {
    let dim = context@.dims[2];
    &&& context.usable() && context@.rank() == 3 && context@.dims[0] == batch
    &&& model::numel(context@.dims) > 0 && model::fits(context@.dims)
    &&& table.usable() && table@.dims == seq![2, dim]
    &&& timestep.usable() && model::numel(timestep@.dims) == batch * 2 * dim
    &&& model::fits(seq![batch, 1, 2, dim])
}

/// The feed-forward network of one stream.
pub fn apply_ffn(
    x: &Array,
    layers: &StreamLayers,
    args: &TransformerArgs,
    batch_size: usize,
    norm_eps: Scalar,
) -> (r: Result<Array, Failure>)
    ensures
        r matches Ok(t) ==> t@ == ffn_of(*layers, x@, args@, batch_size as nat, norm_eps),
        forall|hidden: nat| #[trigger]
            layers.feeds(hidden, x, args, batch_size as nat) ==> (r matches Ok(t) && t.on_cpu() && t@.dims == x@.dims
                && t@.dtype == Dtype::F32),
{
    proof {
        lemmas::lemma_common_dims(x@.dims);
        if x@.rank() == 3 {
            assert(linear::with_width(x@.dims, x@.dims[2]) =~= x@.dims);
        }
    }
    let (shift_mlp, scale_mlp, gate_mlp) = get_ada_values_3(
        &layers.scale_shift_table,
        batch_size,
        &args.timesteps,
        3,
    )?;
    let norm_x = rms_norm(x, None, norm_eps)?;
    let x_scaled = modulate_normed(&norm_x, &shift_mlp, &scale_mlp)?;
    let ff_out = layers.ff.forward(&x_scaled)?;
    x.pairwise(BinOp::Plus, &ff_out.broadcast(BinOp::Times, &gate_mlp)?)
}

/// `normed * (scale + 1) + shift`, computed in single precision.
pub open spec fn modulated_of(normed: TensorView, shift: TensorView, scale: TensorView) -> TensorView {
    let factor = model::affine(model::cast(scale, Dtype::F32), model::number(ONE), model::number(ONE));
    let scaled = model::binary(BinOp::Times, model::cast(normed, Dtype::F32), factor);
    model::cast(
        model::binary(BinOp::Plus, scaled, model::cast(shift, Dtype::F32)),
        normed.dtype,
    )
}

/// Scales and shifts a normalised state.
pub fn modulate_normed(normed: &Array, shift: &Array, scale: &Array) -> (r: Result<Array, Failure>)
    ensures
        r matches Ok(t) ==> t@ == modulated_of(normed@, shift@, scale@),
        r matches Err(e) ==> e.basic(),
        normed.usable() && shift.usable() && scale.usable() && shift@.dims == normed@.dims
            && model::have_common_dims(normed@.dims, scale@.dims) && model::common_dims(normed@.dims, scale@.dims)
            == normed@.dims ==> (r matches Ok(t) && t.on_cpu() && t@.dims == normed@.dims && t@.dtype == normed@.dtype),
{
    let dtype = normed.dtype();
    let normed = normed.to_dtype(Dtype::F32)?;
    let shift = shift.to_dtype(Dtype::F32)?;
    let scale = scale.to_dtype(Dtype::F32)?;
    let out = normed.broadcast(BinOp::Times, &scale.shift(ONE)?)?.pairwise(BinOp::Plus, &shift)?;
    out.to_dtype(dtype)
}

/// Row `i` of the modulation of the text.
pub open spec fn prompt_row_of(prompt_table: TensorView, prompt_timestep: TensorView, batch: nat, i: nat) -> TensorView {
    let dim = prompt_table.dims[1];
    let n = model::numel(prompt_timestep.dims) / (batch * 2 * dim);
    let table = model::cast(
        model::unsqueeze(model::unsqueeze(prompt_table, 0), 0),
        Dtype::F32,
    );
    let ts = model::cast(model::reshape(prompt_timestep, seq![batch, n, 2, dim]), Dtype::F32);
    model::squeeze(model::narrow(model::binary(BinOp::Plus, ts, table), 2, i, 1), 2)
}

/// The text scaled and shifted according to the noise level.
pub open spec fn prompt_context_of(
    context: TensorView,
    prompt_table: TensorView,
    prompt_timestep: TensorView,
    batch: nat,
) -> TensorView {
    let shift = prompt_row_of(prompt_table, prompt_timestep, batch, 0);
    let scale = prompt_row_of(prompt_table, prompt_timestep, batch, 1);
    let factor = model::affine(scale, model::number(ONE), model::number(ONE));
    let scaled = model::binary(BinOp::Times, model::cast(context, Dtype::F32), factor);
    model::cast(model::binary(BinOp::Plus, scaled, shift), context.dtype)
}

/// Scales and shifts the text according to the noise level.
pub fn modulate_prompt_context(
    context: &Array,
    prompt_table: &Array,
    prompt_timestep: &Array,
    batch_size: usize,
) -> (r: Result<Array, Failure>)
    ensures
        r matches Ok(t) ==> t@ == prompt_context_of(
            context@,
            prompt_table@,
            prompt_timestep@,
            batch_size as nat,
        ),
        r matches Err(e) ==> e.basic(),
        modulates_text(context, prompt_table, prompt_timestep, batch_size as nat) ==> (r matches Ok(t) && t.on_cpu()
            && t@.dims == context@.dims && t@.dtype == context@.dtype),
{
    let ghost fine = modulates_text(context, prompt_table, prompt_timestep, batch_size as nat);
    let ghost (nb, ns, nd) = (batch_size as nat, context@.dims[1], context@.dims[2]);
    proof {
        if fine {
            assert(context@.dims =~= seq![nb, ns, nd]);
            lemmas::lemma_numel3(nb, ns, nd);
            lemmas::lemma_factors(nb, ns, nd);
            lemmas::lemma_numel4(nb, 1, 2, nd);
            assert(nb * 1 * 2 * nd == nb * 2 * nd && nb * 2 * nd > 0) by (nonlinear_arith)
                requires
                    nb > 0,
                    nd > 0,
            ;
            let per = nb * 2 * nd;
            vstd::arithmetic::div_mod::lemma_div_by_self(per as int);
            lemmas::lemma_extent_is_numel(seq![nb, 1, 2, nd]);
            lemmas::lemma_factors(nb, 2, nd);
        }
    }
    let dtype = context.dtype();
    let dim: usize = prompt_table.dim(1)?;
    let per_token: usize = crate::base::patchify::product3(batch_size, 2, dim)?;
    if per_token == 0 {
        return Err(Failure::Shape);
    }
    let n: usize = prompt_timestep.elem_count() / per_token;
    let table = prompt_table.unsqueeze(0)?.unsqueeze(0)?.to_dtype(Dtype::F32)?;
    let ts = prompt_timestep.reshape4(batch_size, n, 2, dim)?.to_dtype(Dtype::F32)?;
    proof {
        if fine {
            assert(table@.dims =~= seq![1, 1, 2, nd]);
            assert(ts@.dims =~= seq![nb, 1, 2, nd]);
            lemmas::lemma_spread_common(table@.dims, ts@.dims);
        }
    }
    let combined = ts.broadcast(BinOp::Plus, &table)?;
    proof {
        lemmas::lemma_narrow_dims(combined@, 2, 0, 1);
        lemmas::lemma_narrow_dims(combined@, 2, 1, 1);
        if fine {
            assert(combined@.dims.update(2, 1).remove(2) =~= seq![nb, 1, nd]);
            lemmas::lemma_spread_common(seq![nb, 1, nd], context@.dims);
        }
    }
    let shift = combined.narrow(2, 0, 1)?.squeeze(2)?;
    let scale = combined.narrow(2, 1, 1)?.squeeze(2)?;
    let out = context.to_dtype(Dtype::F32)?.broadcast(BinOp::Times, &scale.shift(ONE)?)?.broadcast(
        BinOp::Plus,
        &shift,
    )?;
    out.to_dtype(dtype)
}

/// Value `i` of the three from row `offset` on of a modulation table, for each token.
pub open spec fn ada_of(table: TensorView, batch: nat, timestep: TensorView, offset: nat, i: nat) -> TensorView {
    let rows = model::cast(
        model::unsqueeze(model::unsqueeze(model::narrow(table, 0, offset, 3), 0), 0),
        timestep.dtype,
    );
    let ts = model::reshape(
        timestep,
        seq![batch, timestep.dims[1], table.dims[0], table.dims[1]],
    );
    let combined = model::binary(BinOp::Plus, model::narrow(ts, 2, offset, 3), rows);
    model::squeeze(model::narrow(combined, 2, i, 1), 2)
}

/// Whether the values of each token, `(B, T, P * D)`, go with a modulation table `(P, D)`, in
/// main memory.
pub open spec fn modulates(table: &Array, batch: nat, timestep: &Array) -> bool {
    &&& table.usable() && table@.rank() == 2
    &&& timestep.on_cpu() && timestep@.dtype.float() && timestep@.rank() == 3
    &&& timestep@.dims == seq![batch, timestep@.dims[1], table@.dims[0] * table@.dims[1]]
    &&& model::numel(timestep@.dims) > 0 && model::fits(timestep@.dims)
}

/// Whether this has one row of a modulation table for each token, in main memory.
pub open spec fn is_row(v: &Array, table: &Array, timestep: &Array) -> bool {
    &&& v.on_cpu() && v@.dtype == timestep@.dtype
    &&& v@.dims == seq![timestep@.dims[0], timestep@.dims[1], table@.dims[1]]
}

/// Splitting the values of each token by the rows of a table keeps their number.
proof fn lemma_modulation_sizes(b: nat, t: nat, p: nat, d: nat, k: nat)
    requires
        model::numel(seq![b, t, p * d]) > 0,
        model::fits(seq![b, t, p * d]),
        0 < k <= p,
    ensures
        b > 0 && t > 0 && p > 0 && d > 0,
        model::numel(seq![b, t, p, d]) == model::numel(seq![b, t, p * d]),
        model::fits(seq![b, t, p, d]),
        model::fits(seq![b, t, k, d]),
{
    let joined: Seq<nat> = seq![b, t, p * d];
    lemmas::lemma_numel3(b, t, p * d);
    lemmas::lemma_numel4(b, t, p, d);
    lemmas::lemma_numel4(b, t, k, d);
    let bt = b * t;
    assert(bt * (p * d) == bt * p * d) by (nonlinear_arith);
    lemmas::lemma_factors(b, t, p * d);
    lemmas::lemma_factors(bt, p, d);
    assert(0 < bt * k <= bt * p) by (nonlinear_arith)
        requires
            bt > 0,
            0 < k <= p,
    ;
    let (few, all) = (bt * k, bt * p);
    assert(0 < few * d <= all * d) by (nonlinear_arith)
        requires
            0 < few <= all,
            d > 0,
    ;
    lemmas::lemma_room(seq![b, t, p, d], joined);
    lemmas::lemma_room(seq![b, t, k, d], joined);
}

/// Shift, scale and gate from row `offset` on of a modulation table.
pub fn get_ada_values_3(table: &Array, batch_size: usize, timestep: &Array, offset: usize) -> (r: Result<
    (Array, Array, Array),
    Failure,
>)
    ensures
        r matches Ok(v) ==> v.0@ == ada_of(table@, batch_size as nat, timestep@, offset as nat, 0) && v.1@
            == ada_of(table@, batch_size as nat, timestep@, offset as nat, 1) && v.2@ == ada_of(
            table@,
            batch_size as nat,
            timestep@,
            offset as nat,
            2,
        ),
        r matches Err(e) ==> e.basic(),
        modulates(table, batch_size as nat, timestep) && offset + 3 <= table@.dims[0] ==> (r matches Ok(v) && is_row(
            &v.0,
            table,
            timestep,
        ) && is_row(&v.1, table, timestep) && is_row(&v.2, table, timestep)),
{
    let ghost (nb, nt, np, nd) = (batch_size as nat, timestep@.dims[1], table@.dims[0], table@.dims[1]);
    let ghost fine = modulates(table, nb, timestep) && offset + 3 <= np;
    proof {
        if fine {
            lemma_modulation_sizes(nb, nt, np, nd, 3);
        }
        lemmas::lemma_narrow_dims(table@, 0, offset as nat, 3);
    }
    let num_params: usize = table.dim(0)?;
    let dim: usize = table.dim(1)?;
    let n_tokens: usize = timestep.dim(1)?;
    let sub_table = table.narrow(0, offset, 3)?.unsqueeze(0)?.unsqueeze(0)?.to_dtype(timestep.dtype())?;
    let ts_4d = timestep.reshape4(batch_size, n_tokens, num_params, dim)?;
    let ts_slice = ts_4d.narrow(2, offset, 3)?;
    proof {
        lemmas::lemma_narrow_dims(ts_4d@, 2, offset as nat, 3);
        if fine {
            assert(sub_table@.dims =~= seq![1, 1, 3, nd]);
            assert(ts_slice@.dims =~= seq![nb, nt, 3, nd]);
            lemmas::lemma_spread_common(sub_table@.dims, ts_slice@.dims);
        }
    }
    let combined = ts_slice.broadcast(BinOp::Plus, &sub_table)?;
    proof {
        lemmas::lemma_narrow_dims(combined@, 2, 0, 1);
        lemmas::lemma_narrow_dims(combined@, 2, 1, 1);
        lemmas::lemma_narrow_dims(combined@, 2, 2, 1);
        if fine {
            assert(combined@.dims.update(2, 1).remove(2) =~= seq![nb, nt, nd]);
        }
    }
    let v0 = combined.narrow(2, 0, 1)?.squeeze(2)?;
    let v1 = combined.narrow(2, 1, 1)?.squeeze(2)?;
    let v2 = combined.narrow(2, 2, 1)?.squeeze(2)?;
    Ok((v0, v1, v2))
}

/// Modulation for attention between the streams.
pub struct AvCaAdaValues {
    pub scale_a2v: Array,
    pub shift_a2v: Array,
    pub scale_v2a: Array,
    pub shift_v2a: Array,
    pub gate: Array,
}

/// The mathematical model of [`AvCaAdaValues`].
pub struct AvAdaView {
    pub scale_a2v: TensorView,
    pub shift_a2v: TensorView,
    pub scale_v2a: TensorView,
    pub shift_v2a: TensorView,
    pub gate: TensorView,
}

/// Rows `start .. start + n` of a table plus the values of each token.
pub open spec fn av_rows_of(table: TensorView, batch: nat, timestep: TensorView, start: nat, n: nat) -> TensorView {
    let rows = model::cast(
        model::unsqueeze(model::unsqueeze(model::narrow(table, 0, start, n), 0), 0),
        timestep.dtype,
    );
    let ts = model::reshape(timestep, seq![batch, timestep.dims[1], n, table.dims[1]]);
    model::binary(BinOp::Plus, ts, rows)
}

/// Modulation from a table of four scales and shifts and a gate.
pub open spec fn av_ada_of(table: TensorView, batch: nat, scale_shift: TensorView, gate: TensorView) -> AvAdaView {
    let ss = av_rows_of(table, batch, scale_shift, 0, 4);
    let g = av_rows_of(table, batch, gate, 4, 1);
    AvAdaView {
        scale_a2v: model::squeeze(model::narrow(ss, 2, 0, 1), 2),
        shift_a2v: model::squeeze(model::narrow(ss, 2, 1, 1), 2),
        scale_v2a: model::squeeze(model::narrow(ss, 2, 2, 1), 2),
        shift_v2a: model::squeeze(model::narrow(ss, 2, 3, 1), 2),
        gate: model::squeeze(model::narrow(g, 2, 0, 1), 2),
    }
}

impl View for AvCaAdaValues {
    type V = AvAdaView;

    open spec fn view(&self) -> AvAdaView {
        AvAdaView {
            scale_a2v: self.scale_a2v@,
            shift_a2v: self.shift_a2v@,
            scale_v2a: self.scale_v2a@,
            shift_v2a: self.shift_v2a@,
            gate: self.gate@,
        }
    }
}

/// Whether the scales and shifts of each token, `(B, T, 4 * D)`, and the gates, `(B, G, D)`, go
/// with a table of five rows, in main memory and in single precision.
pub open spec fn cross_modulates(table: &Array, batch: nat, scale_shift: &Array, gate: &Array) -> bool {
    let dim = table@.dims[1];
    &&& table.usable() && table@.rank() == 2 && table@.dims[0] >= 5
    &&& scale_shift.on_cpu() && scale_shift@.dtype == Dtype::F32 && scale_shift@.rank() == 3
    &&& scale_shift@.dims == seq![batch, scale_shift@.dims[1], 4 * dim]
    &&& model::numel(scale_shift@.dims) > 0 && model::fits(scale_shift@.dims)
    &&& gate.on_cpu() && gate@.dtype == Dtype::F32 && gate@.rank() == 3
    &&& gate@.dims == seq![batch, gate@.dims[1], 1 * dim]
    &&& model::numel(gate@.dims) > 0 && model::fits(gate@.dims)
}

impl AvCaAdaValues {
    /// Whether these are values for each token, in main memory and in single precision.
    pub open spec fn is_for(&self, table: &Array, scale_shift: &Array, gate: &Array) -> bool {
        &&& is_row(&self.scale_a2v, table, scale_shift) && is_row(&self.shift_a2v, table, scale_shift)
        &&& is_row(&self.scale_v2a, table, scale_shift) && is_row(&self.shift_v2a, table, scale_shift)
        &&& is_row(&self.gate, table, gate)
    }
}

/// Modulation for attention between the streams.
pub fn get_av_ca_ada_values(
    table: &Array,
    batch_size: usize,
    scale_shift_timestep: &Array,
    gate_timestep: &Array,
) -> (r: Result<AvCaAdaValues, Failure>)
    ensures
        r matches Ok(v) ==> v@ == av_ada_of(
            table@,
            batch_size as nat,
            scale_shift_timestep@,
            gate_timestep@,
        ),
        r matches Err(e) ==> e.basic(),
        cross_modulates(table, batch_size as nat, scale_shift_timestep, gate_timestep) ==> (r matches Ok(v)
            && v.is_for(table, scale_shift_timestep, gate_timestep)),
{
    let ghost (nb, nt, ng, nd) = (
        batch_size as nat,
        scale_shift_timestep@.dims[1],
        gate_timestep@.dims[1],
        table@.dims[1],
    );
    let ghost fine = cross_modulates(table, nb, scale_shift_timestep, gate_timestep);
    proof {
        if fine {
            lemma_modulation_sizes(nb, nt, 4, nd, 4);
            lemma_modulation_sizes(nb, ng, 1, nd, 1);
        }
        lemmas::lemma_narrow_dims(table@, 0, 0, 4);
        lemmas::lemma_narrow_dims(table@, 0, 4, 1);
    }
    let dim: usize = table.dim(1)?;
    let ss_table = table.narrow(0, 0, 4)?;
    let ss_n_tokens: usize = scale_shift_timestep.dim(1)?;
    let ss_sub = ss_table.unsqueeze(0)?.unsqueeze(0)?.to_dtype(scale_shift_timestep.dtype())?;
    let ss_ts = scale_shift_timestep.reshape4(batch_size, ss_n_tokens, 4, dim)?;
    proof {
        if fine {
            assert(ss_sub@.dims =~= seq![1, 1, 4, nd]);
            lemmas::lemma_spread_common(ss_sub@.dims, ss_ts@.dims);
        }
    }
    let ss_combined = ss_ts.broadcast(BinOp::Plus, &ss_sub)?;
    proof {
        lemmas::lemma_narrow_dims(ss_combined@, 2, 0, 1);
        lemmas::lemma_narrow_dims(ss_combined@, 2, 1, 1);
        lemmas::lemma_narrow_dims(ss_combined@, 2, 2, 1);
        lemmas::lemma_narrow_dims(ss_combined@, 2, 3, 1);
        if fine {
            assert(ss_combined@.dims.update(2, 1).remove(2) =~= seq![nb, nt, nd]);
        }
    }
    let scale_a2v = ss_combined.narrow(2, 0, 1)?.squeeze(2)?;
    let shift_a2v = ss_combined.narrow(2, 1, 1)?.squeeze(2)?;
    let scale_v2a = ss_combined.narrow(2, 2, 1)?.squeeze(2)?;
    let shift_v2a = ss_combined.narrow(2, 3, 1)?.squeeze(2)?;
    let gate_table = table.narrow(0, 4, 1)?;
    let gate_n_tokens: usize = gate_timestep.dim(1)?;
    let gate_sub = gate_table.unsqueeze(0)?.unsqueeze(0)?.to_dtype(gate_timestep.dtype())?;
    let gate_ts = gate_timestep.reshape4(batch_size, gate_n_tokens, 1, dim)?;
    proof {
        if fine {
            assert(gate_sub@.dims =~= seq![1, 1, 1, nd]);
            lemmas::lemma_spread_common(gate_sub@.dims, gate_ts@.dims);
        }
    }
    let gate_combined = gate_ts.broadcast(BinOp::Plus, &gate_sub)?;
    proof {
        lemmas::lemma_narrow_dims(gate_combined@, 2, 0, 1);
        if fine {
            assert(gate_combined@.dims.update(2, 1).remove(2) =~= seq![nb, ng, nd]);
        }
    }
    let gate = gate_combined.narrow(2, 0, 1)?.squeeze(2)?;
    Ok(AvCaAdaValues { scale_a2v, shift_a2v, scale_v2a, shift_v2a, gate })
}

} // verus!
