//! The text encoder: from a prompt to the context of both streams.
use vstd::prelude::*;

use crate::array::{self, kernels, Array};
use crate::base::config::{TransformerConfig, NORM_EPS};
use crate::error::Failure;
use crate::lemmas;
use crate::model::{self, BinOp, Dtype, RelOp, TensorView};
use crate::nn::lora;
use crate::text_encoder::connector::{self, Embeddings1DConnector};
use crate::text_encoder::feature_extractor::GemmaFeatureExtractor;
use crate::text_encoder::gemma3::{self, Gemma3Config, Gemma3TextModel};
use crate::text_encoder::tokenizer::{self, GemmaTokenizer};
use crate::weights::{Weights, WeightsView};

verus! {

/// The number of tokens of a prompt.
pub const PROMPT_LENGTH: usize = 1024;

/// The context that the text encoder gives.
pub struct AVGemmaEncoderOutput {
    /// Context of the video stream: `(B, T, D)`.
    pub video_encoding: Array,
    /// Context of the audio stream: `(B, T, D)`.
    pub audio_encoding: Array,
    /// One for each position that counts: `(B, T)`.
    pub attention_mask: Array,
}

/// What the text encoder computes on its way.
pub struct AVGemmaEncoderTrace {
    pub input_ids: Array,
    pub tokenizer_attention_mask: Array,
    pub embedding_hidden_state: Array,
    pub final_hidden_state: Array,
    pub video_projected: Array,
    pub audio_projected: Array,
    pub video_after_registers: Array,
    pub audio_after_registers: Array,
    pub video_block_outputs: Vec<Array>,
    pub audio_block_outputs: Vec<Array>,
    pub video_connector_output: Array,
    pub audio_connector_output: Array,
    pub video_connector_mask: Array,
    pub output: AVGemmaEncoderOutput,
}

/// Tokenizer, language model, feature extractor and a connector for each stream.
pub struct AVGemmaTextEncoder {
    pub gemma: Gemma3TextModel,
    pub feature_extractor: GemmaFeatureExtractor,
    pub video_connector: Embeddings1DConnector,
    pub audio_connector: Embeddings1DConnector,
    pub tokenizer: GemmaTokenizer,
}

/// One where an additive mask does not mask, `(B, T)`, in single precision.
pub open spec fn open_positions(mask: TensorView) -> TensorView {
    let flat = model::squeeze(model::squeeze(mask, 1), 1);
    model::cast(
        model::relation(RelOp::Lt, flat, model::cast(model::number(NORM_EPS), mask.dtype)),
        Dtype::F32,
    )
}

/// `x` with zeros where `mask` is zero.
pub open spec fn masked(x: TensorView, mask: TensorView, dtype: Dtype) -> TensorView {
    model::binary(BinOp::Times, x, model::cast(model::unsqueeze(mask, 2), dtype))
}

impl AVGemmaTextEncoder {
    /// Whether this is the encoder that a description of a tokenizer and four checkpoints
    /// give.
    pub open spec fn loaded(
        &self,
        tokenizer_json: Seq<u8>,
        cfg: TransformerConfig,
        gemma: WeightsView,
        feature: WeightsView,
        video: WeightsView,
        audio: WeightsView,
    ) -> bool {
        &&& self.tokenizer.reads(tokenizer_json, PROMPT_LENGTH)
        &&& self.gemma.loaded(gemma3::default_config(), PROMPT_LENGTH as nat, gemma)
        &&& if cfg.caption_proj_before_connector {
            &&& self.feature_extractor.loaded_dual(
                3840,
                49,
                cfg.num_attention_heads as nat * cfg.attention_head_dim as nat,
                cfg.audio_num_attention_heads as nat * cfg.audio_attention_head_dim as nat,
                feature,
            )
            &&& self.video_connector.loaded(connector::video_plan(cfg), video)
            &&& self.audio_connector.loaded(connector::audio_plan(cfg), audio)
        } else {
            &&& self.feature_extractor.loaded_single(3840, 49, feature)
            &&& self.video_connector.loaded(connector::default_plan(), video)
            &&& self.audio_connector.loaded(connector::default_plan(), audio)
        }
    }

    /// Whether a description of a tokenizer and four checkpoints give an encoder.
    pub open spec fn present(
        tokenizer_json: Seq<u8>,
        cfg: TransformerConfig,
        gemma: WeightsView,
        feature: WeightsView,
        video: WeightsView,
        audio: WeightsView,
    ) -> bool {
        let video_dim = cfg.num_attention_heads as nat * cfg.attention_head_dim as nat;
        let audio_dim = cfg.audio_num_attention_heads as nat * cfg.audio_attention_head_dim as nat;
        &&& tokenizer::described(tokenizer_json) matches Some(d) && d.0 <= PROMPT_LENGTH
        &&& Gemma3TextModel::present(gemma3::default_config(), gemma)
        &&& if cfg.caption_proj_before_connector {
            let (v, a) = (connector::video_plan(cfg), connector::audio_plan(cfg));
            &&& video_dim <= usize::MAX && audio_dim <= usize::MAX
            &&& lora::has_linear(feature.pp("video_aggregate_embed"@), None, 3840 * 49, video_dim, true)
            &&& lora::has_linear(feature.pp("audio_aggregate_embed"@), None, 3840 * 49, audio_dim, true)
            &&& v.heads * v.head_dim <= usize::MAX && Embeddings1DConnector::present(v, video)
            &&& a.heads * a.head_dim <= usize::MAX && Embeddings1DConnector::present(a, audio)
        } else {
            &&& lora::has_linear(feature.pp("aggregate_embed"@), None, 3840 * 49, 3840, false)
            &&& Embeddings1DConnector::present(connector::default_plan(), video)
            &&& Embeddings1DConnector::present(connector::default_plan(), audio)
        }
    }

    /// Loads the encoder for the configuration that holds where nothing else is said.
    pub fn new(
        tokenizer_json: &[u8],
        gemma_vb: &Weights,
        feature_vb: &Weights,
        video_conn_vb: &Weights,
        audio_conn_vb: &Weights,
    ) -> (r: Result<AVGemmaTextEncoder, Failure>)
        ensures
            r matches Ok(e) ==> exists|cfg: TransformerConfig| #[trigger]
                cfg.is_default() && e.loaded(
                    tokenizer_json@,
                    cfg,
                    gemma_vb@,
                    feature_vb@,
                    video_conn_vb@,
                    audio_conn_vb@,
                ) && AVGemmaTextEncoder::present(
                    tokenizer_json@,
                    cfg,
                    gemma_vb@,
                    feature_vb@,
                    video_conn_vb@,
                    audio_conn_vb@,
                ),
            gemma_vb@.sound() && feature_vb@.sound() && video_conn_vb@.sound() && audio_conn_vb@.sound() && (forall|
                cfg: TransformerConfig,
            | #[trigger]
                cfg.is_default() ==> AVGemmaTextEncoder::present(
                    tokenizer_json@,
                    cfg,
                    gemma_vb@,
                    feature_vb@,
                    video_conn_vb@,
                    audio_conn_vb@,
                )) ==> r is Ok,
    {
        let cfg = TransformerConfig::default();
        AVGemmaTextEncoder::new_with_transformer_config(
            tokenizer_json,
            &cfg,
            gemma_vb,
            feature_vb,
            video_conn_vb,
            audio_conn_vb,
        )
    }

    /// Loads the encoder for a configuration of the transformer.
    pub fn new_with_transformer_config(
        tokenizer_json: &[u8],
        transformer_cfg: &TransformerConfig,
        gemma_vb: &Weights,
        feature_vb: &Weights,
        video_conn_vb: &Weights,
        audio_conn_vb: &Weights,
    ) -> (r: Result<AVGemmaTextEncoder, Failure>)
        ensures
            r matches Ok(e) ==> e.loaded(
                tokenizer_json@,
                *transformer_cfg,
                gemma_vb@,
                feature_vb@,
                video_conn_vb@,
                audio_conn_vb@,
            ),
            r is Ok ==> AVGemmaTextEncoder::present(
                tokenizer_json@,
                *transformer_cfg,
                gemma_vb@,
                feature_vb@,
                video_conn_vb@,
                audio_conn_vb@,
            ),
            gemma_vb@.sound() && feature_vb@.sound() && video_conn_vb@.sound() && audio_conn_vb@.sound()
                && AVGemmaTextEncoder::present(
                tokenizer_json@,
                *transformer_cfg,
                gemma_vb@,
                feature_vb@,
                video_conn_vb@,
                audio_conn_vb@,
            ) ==> r is Ok,
    {
        proof {
            lemmas::lemma_extent1(128);
            lemmas::lemma_extent1(1024);
            lemmas::lemma_numel2(1024, 128);
            lemmas::lemma_extent_is_numel(seq![1024nat, 128]);
        }
        let cfg = Gemma3Config::default();
        let tokenizer = GemmaTokenizer::from_bytes(tokenizer_json, PROMPT_LENGTH)?;
        let gemma = Gemma3TextModel::new(&cfg, PROMPT_LENGTH, gemma_vb)?;
        let states: usize = cfg.num_hidden_layers + 1;
        if transformer_cfg.caption_proj_before_connector {
            let video_dim: usize = match transformer_cfg.num_attention_heads.checked_mul(
                transformer_cfg.attention_head_dim,
            ) {
                Some(d) => d,
                None => {
                    return Err(Failure::Overflow);
                },
            };
            let audio_dim: usize = match transformer_cfg.audio_num_attention_heads.checked_mul(
                transformer_cfg.audio_attention_head_dim,
            ) {
                Some(d) => d,
                None => {
                    return Err(Failure::Overflow);
                },
            };
            let feature_extractor = GemmaFeatureExtractor::new_dual(
                cfg.hidden_size,
                states,
                video_dim,
                audio_dim,
                feature_vb,
            )?;
            let video_connector = Embeddings1DConnector::new_video_from_config(transformer_cfg, video_conn_vb)?;
            let audio_connector = Embeddings1DConnector::new_audio_from_config(transformer_cfg, audio_conn_vb)?;
            Ok(AVGemmaTextEncoder { gemma, feature_extractor, video_connector, audio_connector, tokenizer })
        } else {
            let feature_extractor = GemmaFeatureExtractor::new_single(cfg.hidden_size, states, feature_vb)?;
            let video_connector = Embeddings1DConnector::new_default(video_conn_vb)?;
            let audio_connector = Embeddings1DConnector::new_default(audio_conn_vb)?;
            Ok(AVGemmaTextEncoder { gemma, feature_extractor, video_connector, audio_connector, tokenizer })
        }
    }

    /// The features of both modalities that tokens lead to.
    pub open spec fn features(&self, ids: TensorView, mask: TensorView) -> (TensorView, TensorView) {
        self.feature_extractor.apply(self.gemma.apply(ids, mask), mask, true)
    }

    /// The context of the video stream, that of the audio stream, and the positions that
    /// count.
    pub open spec fn apply(&self, ids: TensorView, mask: TensorView, flags: (Seq<Seq<i64>>, Seq<Seq<i64>>)) -> (
        TensorView,
        TensorView,
        TensorView,
    ) {
        let (video, audio) = self.features(ids, mask);
        let (context, connector_mask) = self.video_connector.apply(video, mask, flags.0);
        let counting = open_positions(connector_mask);
        (masked(context, counting, video.dtype), self.audio_connector.apply(audio, mask, flags.1).0, counting)
    }

    /// Whether `flags` tell both connectors, for each sample, which positions the mask marks as
    /// tokens.
    pub open spec fn told(
        &self,
        ids: TensorView,
        mask: TensorView,
        flags: (Seq<Seq<i64>>, Seq<Seq<i64>>),
    ) -> bool {
        let (video, audio) = self.features(ids, mask);
        &&& self.video_connector.told(video, mask, flags.0)
        &&& self.audio_connector.told(audio, mask, flags.1)
    }

    /// Whether tokens `(B, T)` and their mask can be encoded in main memory, with rows of so many
    /// numbers in the feed-forward networks of the connectors.
    pub open spec fn serves(&self, ids: &Array, mask: &Array, hidden: (nat, nat)) -> bool {
        let d = seq![ids@.dims[0], ids@.dims[1], self.gemma.embed_tokens@.dims[1]];
        let (video, audio) = self.features(ids@, mask@);
        &&& ids@.rank() == 2 && kernels::names_rows(ids, self.gemma.embed_tokens@.dims[0])
        &&& self.gemma.reads(d[0], d[1], mask)
        &&& forall|states: Seq<Array>|
            gemma3::are_states(states, d) && states.len() == self.gemma.layers@.len() + 1
                ==> #[trigger] self.feature_extractor.extracts(states, mask, d)
        &&& forall|x: Array|
            x.on_cpu() && x@ == video && x@.dtype == Dtype::F32 ==> #[trigger] self.video_connector.connects(
                &x,
                mask,
                hidden.0,
            )
        &&& forall|x: Array|
            x.on_cpu() && x@ == audio && x@.dtype == Dtype::F32 ==> #[trigger] self.audio_connector.connects(
                &x,
                mask,
                hidden.1,
            )
    }

    /// Whether a text can be encoded in main memory.
    pub open spec fn answers(&self, text: Seq<char>, hidden: (nat, nat)) -> bool {
        let t = self.tokenizer;
        let tokens = tokenizer::encoded(t.inner(), tokenizer::trimmed(text), true)->0;
        &&& !tokenizer::is_random(t.inner()) && self.gemma.norm.on_cpu()
        &&& model::fits(seq![1, t.length() as nat]) && t.splits(text)
        &&& forall|ids: Array, mask: Array|
            ids.on_cpu() && mask.on_cpu() && ids@ == t.row(tokens.0) && mask@ == t.row(tokens.1)
                ==> #[trigger] self.serves(&ids, &mask, hidden)
    }

    /// Whether `trace` is what the encoder computes from tokens.
    pub open spec fn traced(
        &self,
        ids: TensorView,
        mask: TensorView,
        flags: (Seq<Seq<i64>>, Seq<Seq<i64>>),
        trace: AVGemmaEncoderTrace,
    ) -> bool {
        let states = self.gemma.apply(ids, mask);
        let (video, audio) = self.features(ids, mask);
        let (video_context, video_mask) = self.video_connector.apply(video, mask, flags.0);
        &&& trace.input_ids@ == ids
        &&& trace.tokenizer_attention_mask@ == mask
        &&& trace.embedding_hidden_state@ == states[0]
        &&& trace.final_hidden_state@ == states.last()
        &&& trace.video_projected@ == video
        &&& trace.audio_projected@ == audio
        &&& trace.video_after_registers@ == self.video_connector.with_registers(video, mask, flags.0).0
        &&& trace.audio_after_registers@ == self.audio_connector.with_registers(audio, mask, flags.1).0
        &&& array::views(trace.video_block_outputs@) == self.video_connector.outputs(video, mask, flags.0)
        &&& array::views(trace.audio_block_outputs@) == self.audio_connector.outputs(audio, mask, flags.1)
        &&& trace.video_connector_output@ == video_context
        &&& trace.audio_connector_output@ == self.audio_connector.apply(audio, mask, flags.1).0
        &&& trace.video_connector_mask@ == video_mask
        &&& trace.output.holds(self.apply(ids, mask, flags))
    }

    /// Whether this is an encoding of a text.
    pub open spec fn encodes(&self, text: Seq<char>, out: AVGemmaEncoderOutput) -> bool {
        exists|ids: Seq<u32>, mask: Seq<u32>, flags: (Seq<Seq<i64>>, Seq<Seq<i64>>)|
            self.tokenizer.gives(text, ids, mask) && #[trigger] self.told(
                self.tokenizer.row(ids),
                self.tokenizer.row(mask),
                flags,
            ) && out.holds(self.apply(self.tokenizer.row(ids), self.tokenizer.row(mask), flags))
    }

    /// Encodes a prompt.
    pub fn forward(&self, text: &str) -> (r: Result<AVGemmaEncoderOutput, Failure>)
        ensures
            r matches Ok(o) ==> self.encodes(text@, o),
            forall|hidden: (nat, nat)| #[trigger] self.answers(text@, hidden) ==> r is Ok,
    {
        let trace = self.forward_trace(text)?;
        Ok(trace.output)
    }

    /// Encodes a prompt and keeps what is computed on the way.
    pub fn forward_trace(&self, text: &str) -> (r: Result<AVGemmaEncoderTrace, Failure>)
        ensures
            r matches Ok(t) ==> exists|ids: Seq<u32>, mask: Seq<u32>, flags: (Seq<Seq<i64>>, Seq<Seq<i64>>)|
                self.tokenizer.gives(text@, ids, mask) && #[trigger] self.told(
                    self.tokenizer.row(ids),
                    self.tokenizer.row(mask),
                    flags,
                ) && self.traced(self.tokenizer.row(ids), self.tokenizer.row(mask), flags, t),
            forall|hidden: (nat, nat)| #[trigger] self.answers(text@, hidden) ==> r is Ok,
    {
        let (input_ids, attention_mask) = self.tokenizer.encode(text, &self.gemma.device())?;
        let ghost (ids, mask) = (input_ids, attention_mask);
        proof {
            assert forall|hidden: (nat, nat)| #[trigger] self.answers(text@, hidden) implies self.serves(
                &ids,
                &mask,
                hidden,
            ) by {}
        }
        self.encode_tokens(input_ids, attention_mask)
    }

    /// Encodes tokens and keeps what is computed on the way.
    ///
    /// `input_ids` and `attention_mask` have shape `(B, T)`, with padding on the left.
    pub fn encode_tokens(&self, input_ids: Array, attention_mask: Array) -> (r: Result<AVGemmaEncoderTrace, Failure>)
        ensures
            r matches Ok(t) ==> exists|flags: (Seq<Seq<i64>>, Seq<Seq<i64>>)| #[trigger]
                self.told(input_ids@, attention_mask@, flags) && self.traced(
                    input_ids@,
                    attention_mask@,
                    flags,
                    t,
                ),
            forall|hidden: (nat, nat)| #[trigger]
                self.serves(&input_ids, &attention_mask, hidden) ==> (r matches Ok(t)
                    && t.output.video_encoding.on_cpu() && t.output.audio_encoding.on_cpu()
                    && t.output.attention_mask.on_cpu()),
            input_ids@.rank() != 2 ==> r == Err::<AVGemmaEncoderTrace, Failure>(
                Failure::Rank { expected: 2, got: input_ids@.rank() as usize },
            ),
    {
        let ghost (ids, mask) = (input_ids@, attention_mask@);
        let ghost fine = exists|hidden: (nat, nat)| #[trigger] self.serves(&input_ids, &attention_mask, hidden);
        let ghost hidden = choose|hidden: (nat, nat)| #[trigger] self.serves(&input_ids, &attention_mask, hidden);
        let states = self.gemma.forward(&input_ids, &attention_mask)?;
        let embedding_hidden_state = states[0].clone();
        let final_hidden_state = states[states.len() - 1].clone();
        assert(array::views(states@)[0] == states@[0]@);
        assert(array::views(states@).last() == states@.last()@);
        proof {
            if fine {
                let d = seq![ids.dims[0], ids.dims[1], self.gemma.embed_tokens@.dims[1]];
                assert(self.feature_extractor.extracts(states@, &attention_mask, d));
            }
        }
        let (video_projected, audio_projected) = self.feature_extractor.forward_av(
            &states,
            &attention_mask,
            "left",
        )?;
        proof {
            if fine {
                assert(self.video_connector.connects(&video_projected, &attention_mask, hidden.0));
                assert(self.audio_connector.connects(&audio_projected, &attention_mask, hidden.1));
            }
        }
        let video_trace = self.video_connector.forward_trace(&video_projected, &attention_mask)?;
        proof {
            let d = video_projected@.dims;
            if fine {
                assert(video_trace.mask@.dims.remove(1) =~= seq![d[0], 1, d[1]]);
                assert(seq![d[0], 1, d[1]].remove(1) =~= seq![d[0], d[1]]);
                assert(seq![d[0], d[1]].insert(2, 1) =~= seq![d[0], d[1], 1]);
                assert(d =~= seq![d[0], d[1], d[2]]);
                lemmas::lemma_number_spreads(seq![d[0], d[1]]);
                lemmas::lemma_spread_common(seq![d[0], d[1], 1], d);
            }
        }
        let flat = video_trace.mask.squeeze(1)?.squeeze(1)?;
        let bound = Array::number(NORM_EPS)?.to_dtype(flat.dtype())?.to_device(&flat.device())?;
        let counting = flat.relate(RelOp::Lt, &bound)?.to_dtype(Dtype::F32)?;
        let mask_3d = counting.unsqueeze(2)?.to_dtype(video_projected.dtype())?;
        let video_encoding = video_trace.output.broadcast(BinOp::Times, &mask_3d)?;
        let audio_trace = self.audio_connector.forward_trace(&audio_projected, &attention_mask)?;
        let audio_encoding = audio_trace.output.clone();
        let ghost flags = (
            choose|flags: Seq<Seq<i64>>| #[trigger]
                self.video_connector.told(video_projected@, mask, flags)
                    && self.video_connector.traced(video_projected@, mask, flags, video_trace),
            choose|flags: Seq<Seq<i64>>| #[trigger]
                self.audio_connector.told(audio_projected@, mask, flags)
                    && self.audio_connector.traced(audio_projected@, mask, flags, audio_trace),
        );
        assert(self.told(ids, mask, flags));
        let output = AVGemmaEncoderOutput { video_encoding, audio_encoding, attention_mask: counting };
        Ok(
            AVGemmaEncoderTrace {
                input_ids,
                tokenizer_attention_mask: attention_mask,
                embedding_hidden_state,
                final_hidden_state,
                video_projected,
                audio_projected,
                video_after_registers: video_trace.after_registers,
                audio_after_registers: audio_trace.after_registers,
                video_block_outputs: video_trace.block_outputs,
                audio_block_outputs: audio_trace.block_outputs,
                video_connector_output: video_trace.output,
                audio_connector_output: audio_trace.output,
                video_connector_mask: video_trace.mask,
                output,
            },
        )
    }
}

impl AVGemmaEncoderOutput {
    /// Whether this is the given context of both streams, with the positions that count.
    pub open spec fn holds(&self, parts: (TensorView, TensorView, TensorView)) -> bool {
        &&& self.video_encoding@ == parts.0
        &&& self.audio_encoding@ == parts.1
        &&& self.attention_mask@ == parts.2
    }
}

} // verus!
