//! The loop that takes the noise out of latents.
use vstd::prelude::*;

use crate::array::{self, Array};
use crate::base::ops::{self, missing_err, to_denoised};
use crate::error::Failure;
use crate::lemmas;
use crate::model::{self, BinOp, Dtype, TensorView};
use crate::pipeline::options::{SamplerKind, StgMode};
use crate::scalar::{self, is_zero, Scalar, ONE, ZERO};
use crate::scheduler::diffusion_step::{self, euler_step, res2s_advance, res2s_midpoint, Res2sWeights};
use crate::scheduler::guiders::{self, multi_modal_guide, GuidanceScales};
use crate::text_encoder::encoder::AVGemmaEncoderOutput;
use crate::transformer::ltx::LTXModel;
use crate::transformer::modality::{self, copy_opt, Modality, ModalityView};

verus! {

/// How predictions are guided.
pub struct Guidance {
    pub cfg_scale: Scalar,
    pub video_rescale_scale: Scalar,
    pub stg_scale: Scalar,
    /// The blocks that leave out their self-attention in the perturbed prediction.
    pub stg_blocks: Vec<usize>,
    pub stg_mode: StgMode,
}

/// Where the tokens of both streams lie and which of them are denoised.
pub struct Scene {
    pub video_positions: Array,
    pub video_denoise_mask: Array,
    pub audio_positions: Option<Array>,
    pub audio_denoise_mask: Option<Array>,
    /// The element type of the noise level that the transformer gets.
    pub dtype: Dtype,
}

/// A prediction of both streams without noise, and the predictions that it was made of.
pub struct Prediction {
    pub video: Array,
    pub audio: Option<Array>,
    /// How often the transformer ran.
    pub passes: usize,
    pub video_cond: Array,
    pub video_uncond: Option<Array>,
    pub video_perturbed: Option<Array>,
    pub audio_cond: Option<Array>,
    pub audio_uncond: Option<Array>,
    pub audio_perturbed: Option<Array>,
}

/// The latents of both streams.
pub ghost struct Latents {
    pub video: TensorView,
    pub audio: Option<TensorView>,
}

/// The noise level of the samples as the transformer gets it.
pub open spec fn sample_sigma(sigma: TensorView, dtype: Dtype) -> TensorView {
    model::cast(model::reshape(sigma, seq![1]), dtype)
}

/// The noise level of each token: zero where it is not denoised.
pub open spec fn token_sigmas(mask: TensorView, sigma: TensorView) -> TensorView {
    model::affine(mask, diffusion_step::wide(sigma), model::number(ZERO))
}

/// Whether both streams have the same shapes in two states of a run.
pub open spec fn same_sizes(a: Latents, b: Latents) -> bool {
    &&& a.video.dims == b.video.dims
    &&& (a.audio is Some) == (b.audio is Some)
    &&& a.audio matches Some(x) ==> x.dims == b.audio->0.dims
}

/// The text context of both streams.
pub ghost struct Context {
    pub video: TensorView,
    pub audio: TensorView,
    pub mask: TensorView,
}

/// The context that the text encoder gave.
pub open spec fn context_of(text: AVGemmaEncoderOutput) -> Context {
    Context { video: text.video_encoding@, audio: text.audio_encoding@, mask: text.attention_mask@ }
}

/// The context of an optional encoding.
pub open spec fn opt_context(text: Option<&AVGemmaEncoderOutput>) -> Option<Context> {
    match text {
        Some(t) => Some(context_of(*t)),
        None => None,
    }
}

impl Scene {
    /// The video stream's input to the transformer.
    pub open spec fn video_input(&self, latents: Latents, context: Context, sigma: TensorView) -> ModalityView {
        ModalityView {
            latent: latents.video,
            timesteps: token_sigmas(self.video_denoise_mask@, sigma),
            positions: self.video_positions@,
            context: context.video,
            enabled: true,
            context_mask: Some(context.mask),
            sigma: Some(sample_sigma(sigma, self.dtype)),
        }
    }

    /// The audio stream's input to the transformer, if there is all that it needs.
    pub open spec fn audio_input(&self, latents: Latents, context: Context, sigma: TensorView) -> Option<ModalityView> {
        match (latents.audio, self.audio_positions, self.audio_denoise_mask) {
            (Some(latent), Some(positions), Some(mask)) => Some(
                ModalityView {
                    latent,
                    timesteps: token_sigmas(mask@, sigma),
                    positions: positions@,
                    context: context.audio,
                    enabled: true,
                    context_mask: Some(context.mask),
                    sigma: Some(sample_sigma(sigma, self.dtype)),
                },
            ),
            _ => None,
        }
    }

    /// The velocities that the transformer gives.
    #[verifier::opaque]
    pub open spec fn velocities(
        &self,
        model: LTXModel,
        latents: Latents,
        context: Context,
        sigma: TensorView,
        skip: (Seq<usize>, Seq<usize>),
    ) -> (Option<TensorView>, Option<TensorView>) {
        model.apply(
            Some(self.video_input(latents, context, sigma)),
            self.audio_input(latents, context, sigma),
            skip.0,
            skip.1,
        )
    }

    /// The video latent without the noise that the velocity stands for.
    pub open spec fn denoised_video(
        &self,
        model: LTXModel,
        latents: Latents,
        context: Context,
        sigma: TensorView,
        skip: (Seq<usize>, Seq<usize>),
    ) -> TensorView {
        ops::denoised_of(
            latents.video,
            self.velocities(model, latents, context, sigma, skip).0->0,
            sample_sigma(sigma, self.dtype),
        )
    }

    /// The audio latent without the noise that the velocity stands for.
    pub open spec fn denoised_audio(
        &self,
        model: LTXModel,
        latents: Latents,
        context: Context,
        sigma: TensorView,
        skip: (Seq<usize>, Seq<usize>),
    ) -> Option<TensorView> {
        match latents.audio {
            Some(latent) => Some(
                ops::denoised_of(
                    latent,
                    self.velocities(model, latents, context, sigma, skip).1->0,
                    sample_sigma(sigma, self.dtype),
                ),
            ),
            None => None,
        }
    }
}

impl Guidance {
    /// Whether the video stream is predicted with perturbation.
    pub open spec fn perturbs_video(&self) -> bool {
        !scalar::zero(self.stg_scale) && self.stg_mode != StgMode::Audio
    }

    /// Whether the audio stream is predicted with perturbation.
    pub open spec fn perturbs_audio(&self, has_audio: bool) -> bool {
        !scalar::zero(self.stg_scale) && has_audio && self.stg_mode != StgMode::Video
    }

    /// The blocks that leave out the self-attention of the video and of the audio stream.
    pub open spec fn skipped(&self, has_audio: bool) -> (Seq<usize>, Seq<usize>) {
        (
            if self.perturbs_video() {
                self.stg_blocks@
            } else {
                Seq::empty()
            },
            if self.perturbs_audio(has_audio) {
                self.stg_blocks@
            } else {
                Seq::empty()
            },
        )
    }

    /// How often the transformer runs for one prediction.
    pub open spec fn passes(&self, has_audio: bool, has_negative: bool) -> nat {
        1 + (if self.perturbs_video() || self.perturbs_audio(has_audio) {
            1nat
        } else {
            0
        }) + (if has_negative {
            1nat
        } else {
            0
        })
    }
}

/// A prediction under guidance. Without a negative prompt and without perturbation it is the
/// conditioned one as it stands.
pub open spec fn guided(
    cond: TensorView,
    uncond: Option<TensorView>,
    perturbed: Option<TensorView>,
    cfg: Scalar,
    stg: Scalar,
    rescale: Scalar,
) -> TensorView {
    if uncond is None && perturbed is None {
        cond
    } else {
        let cfg = if uncond is None {
            ONE
        } else {
            cfg
        };
        guiders::guided_of(
            cond,
            uncond,
            perturbed,
            None,
            GuidanceScales { cfg, stg, modality: ONE, rescale },
        )
    }
}

/// The three predictions of a stream: conditioned, for the negative prompt and perturbed.
pub ghost struct Parts {
    pub cond: TensorView,
    pub uncond: Option<TensorView>,
    pub perturbed: Option<TensorView>,
}

impl Scene {
    /// The predictions of the video stream.
    pub open spec fn video_parts(
        &self,
        model: LTXModel,
        latents: Latents,
        pos: Context,
        neg: Option<Context>,
        sigma: TensorView,
        guidance: Guidance,
    ) -> Parts {
        let none = (Seq::<usize>::empty(), Seq::<usize>::empty());
        Parts {
            cond: self.denoised_video(model, latents, pos, sigma, none),
            uncond: match neg {
                Some(n) => Some(self.denoised_video(model, latents, n, sigma, none)),
                None => None,
            },
            perturbed: if guidance.perturbs_video() {
                Some(
                    self.denoised_video(model, latents, pos, sigma, guidance.skipped(latents.audio is Some)),
                )
            } else {
                None
            },
        }
    }

    /// The predictions of the audio stream.
    pub open spec fn audio_parts(
        &self,
        model: LTXModel,
        latents: Latents,
        pos: Context,
        neg: Option<Context>,
        sigma: TensorView,
        guidance: Guidance,
    ) -> Option<Parts> {
        let none = (Seq::<usize>::empty(), Seq::<usize>::empty());
        match self.denoised_audio(model, latents, pos, sigma, none) {
            Some(cond) => Some(
                Parts {
                    cond,
                    uncond: match neg {
                        Some(n) => self.denoised_audio(model, latents, n, sigma, none),
                        None => None,
                    },
                    perturbed: if guidance.perturbs_audio(true) {
                        self.denoised_audio(model, latents, pos, sigma, guidance.skipped(true))
                    } else {
                        None
                    },
                },
            ),
            None => None,
        }
    }

    /// The latents without noise, under guidance.
    pub open spec fn predicted(
        &self,
        model: LTXModel,
        latents: Latents,
        pos: Context,
        neg: Option<Context>,
        sigma: TensorView,
        guidance: Guidance,
    ) -> Latents {
        let v = self.video_parts(model, latents, pos, neg, sigma, guidance);
        let a = self.audio_parts(model, latents, pos, neg, sigma, guidance);
        Latents {
            video: guided(
                v.cond,
                v.uncond,
                v.perturbed,
                guidance.cfg_scale,
                guidance.stg_scale,
                guidance.video_rescale_scale,
            ),
            audio: match a {
                Some(p) => Some(
                    guided(p.cond, p.uncond, p.perturbed, guidance.cfg_scale, guidance.stg_scale, ZERO),
                ),
                None => None,
            },
        }
    }
}

/// Whether these are the parts of a prediction.
pub open spec fn parts_are(p: Parts, cond: TensorView, uncond: Option<Array>, perturbed: Option<Array>) -> bool {
    cond == p.cond && array::opt_view(uncond) == p.uncond && array::opt_view(perturbed) == p.perturbed
}

/// How often the transformer runs for one prediction: once, once more for perturbation and
/// once more for a negative prompt.
pub proof fn law_passes(guidance: Guidance, has_audio: bool, has_negative: bool)
    ensures
        1 <= guidance.passes(has_audio, has_negative) <= 3,
        guidance.passes(has_audio, true) == guidance.passes(has_audio, false) + 1,
        scalar::zero(guidance.stg_scale) ==> guidance.passes(has_audio, false) == 1,
{
}

/// Perturbation that is turned off, or turned on only for a stream that is not there, leaves
/// out nothing.
pub proof fn law_no_perturbation(guidance: Guidance, has_audio: bool)
    requires
        scalar::zero(guidance.stg_scale) || (!has_audio && guidance.stg_mode == StgMode::Audio),
    ensures
        guidance.skipped(has_audio) == (Seq::<usize>::empty(), Seq::<usize>::empty()),
        guidance.passes(has_audio, false) == 1,
{
}

fn guide(
    cond: &Array,
    uncond: Option<&Array>,
    perturbed: Option<&Array>,
    cfg_scale: Scalar,
    stg_scale: Scalar,
    rescale_scale: Scalar,
) -> (r: Result<Array, Failure>)
    ensures
        r matches Ok(t) ==> t@ == guided(
            cond@,
            array::opt_ref_view(uncond),
            array::opt_ref_view(perturbed),
            cfg_scale,
            stg_scale,
            rescale_scale,
        ),
        r matches Ok(t) ==> t@.dims == cond@.dims && t@.dtype == cond@.dtype && t.on_cpu() == cond.on_cpu(),
        cond.usable() && guiders::follows(uncond, cond) && guiders::follows(perturbed, cond) ==> r is Ok,
{
    if uncond.is_none() {
        if perturbed.is_none() {
            return Ok(cond.clone());
        }
        return multi_modal_guide(cond, None, perturbed, None, ONE, stg_scale, ONE, rescale_scale);
    }
    multi_modal_guide(cond, uncond, perturbed, None, cfg_scale, stg_scale, ONE, rescale_scale)
}

/// Whether an optional borrowed array, where there is one, is in main memory.
pub open spec fn lent_on_cpu(a: Option<&Array>) -> bool {
    a matches Some(a) ==> a.on_cpu()
}

/// An optional modality, borrowed.
pub open spec fn lent_modality(m: &Option<Modality>) -> Option<&Modality> {
    match m {
        Some(m) => Some(m),
        None => None,
    }
}

/// Whether an encoded text is in main memory.
pub open spec fn text_in_memory(text: &AVGemmaEncoderOutput) -> bool {
    text.video_encoding.on_cpu() && text.audio_encoding.on_cpu() && text.attention_mask.on_cpu()
}

impl Scene {
    /// Whether all that stays the same from step to step is in main memory.
    pub open spec fn in_memory(&self) -> bool {
        &&& self.video_positions.on_cpu() && self.video_denoise_mask.on_cpu()
        &&& modality::opt_on_cpu(self.audio_positions) && modality::opt_on_cpu(self.audio_denoise_mask)
    }

    /// Whether the noise of latents in main memory can be predicted under a text, with rows of so
    /// many numbers in the feed-forward networks of the transformer.
    pub open spec fn serves(
        &self,
        model: LTXModel,
        latents: Latents,
        context: Context,
        sigma: TensorView,
        skip: (Seq<usize>, Seq<usize>),
        hidden: (nat, nat),
    ) -> bool {
        let velocities = self.velocities(model, latents, context, sigma, skip);
        &&& sigma.rank() == 0 && sigma.dtype.plain() && self.dtype.float()
        &&& self.video_denoise_mask@.dtype.float()
        &&& self.audio_denoise_mask matches Some(m) ==> m@.dtype.float()
        &&& latents.video.dtype.plain() && latents.video.rank() > 0
        &&& latents.audio matches Some(a) ==> a.dtype.plain() && a.rank() > 0
        &&& model.accepts(
            Some(self.video_input(latents, context, sigma)),
            self.audio_input(latents, context, sigma),
            skip.0,
            skip.1,
            hidden,
        )
        &&& velocities.0 matches Some(v) ==> v.dtype.plain() && v.dims == latents.video.dims
        &&& latents.audio matches Some(a) ==> velocities.1 matches Some(v) ==> v.dtype.plain() && v.dims == a.dims
    }

    fn modalities(
        &self,
        video: &Array,
        audio: Option<&Array>,
        text: &AVGemmaEncoderOutput,
        sigma: &Array,
    ) -> (r: Result<(Modality, Option<Modality>), Failure>)
        ensures
            r matches Ok(m) ==> {
                let latents = Latents { video: video@, audio: array::opt_ref_view(audio) };
                &&& m.0@ == self.video_input(latents, context_of(*text), sigma@)
                &&& (match m.1 {
                    Some(a) => Some(a@),
                    None => None,
                }) == self.audio_input(latents, context_of(*text), sigma@)
            },
            self.in_memory() && text_in_memory(text) && video.on_cpu() && lent_on_cpu(audio) && diffusion_step::is_level(
                *sigma,
            ) && self.dtype.float() && self.video_denoise_mask@.dtype.float() && (self.audio_denoise_mask matches Some(
                m,
            ) ==> m@.dtype.float()) ==> (r matches Ok(m) && m.0.in_memory() && (m.1 matches Some(a)
                ==> a.in_memory())),
    {
        proof {
            lemmas::lemma_single();
        }
        let level = sigma.to_dtype(Dtype::F64)?;
        let sigma_t = sigma.reshape1(1)?.to_device(&video.device())?.to_dtype(self.dtype)?;
        let v = Modality {
            latent: video.clone(),
            timesteps: self.video_denoise_mask.scale_by(&level)?,
            positions: self.video_positions.clone(),
            context: text.video_encoding.clone(),
            enabled: true,
            context_mask: Some(text.attention_mask.clone()),
            sigma: Some(sigma_t.clone()),
        };
        let a = match (audio, &self.audio_positions, &self.audio_denoise_mask) {
            (Some(latent), Some(positions), Some(mask)) => Some(
                Modality {
                    latent: latent.clone(),
                    timesteps: mask.scale_by(&level)?,
                    positions: positions.clone(),
                    context: text.audio_encoding.clone(),
                    enabled: true,
                    context_mask: Some(text.attention_mask.clone()),
                    sigma: Some(sigma_t),
                },
            ),
            _ => None,
        };
        Ok((v, a))
    }

    /// The velocities that the transformer gives.
    fn run_model(
        &self,
        model: &LTXModel,
        video: &Array,
        audio: Option<&Array>,
        text: &AVGemmaEncoderOutput,
        sigma: &Array,
        skip_video: &Vec<usize>,
        skip_audio: &Vec<usize>,
    ) -> (r: Result<(Option<Array>, Option<Array>), Failure>)
        ensures
            r matches Ok(v) ==> (array::opt_view(v.0), array::opt_view(v.1)) == self.velocities(
                *model,
                (Latents { video: video@, audio: array::opt_ref_view(audio) }),
                context_of(*text),
                sigma@,
                (skip_video@, skip_audio@),
            ),
            forall|hidden: (nat, nat)|
                self.in_memory() && text_in_memory(text) && video.on_cpu() && lent_on_cpu(audio) && sigma.on_cpu()
                    && #[trigger] self.serves(
                    *model,
                    (Latents { video: video@, audio: array::opt_ref_view(audio) }),
                    context_of(*text),
                    sigma@,
                    (skip_video@, skip_audio@),
                    hidden,
                ) ==> (r matches Ok(v) && modality::opt_on_cpu(v.0) && modality::opt_on_cpu(v.1)),
    {
        proof {
            reveal(Scene::velocities);
        }
        let (v_modality, a_modality) = self.modalities(video, audio, text, sigma)?;
        proof {
            let latents = Latents { video: video@, audio: array::opt_ref_view(audio) };
            assert forall|hidden: (nat, nat)| #[trigger]
                self.serves(*model, latents, context_of(*text), sigma@, (skip_video@, skip_audio@), hidden) implies model.accepts(
                Some(v_modality@),
                modality::modality_view(lent_modality(&a_modality)),
                skip_video@,
                skip_audio@,
                hidden,
            ) by {}
        }
        model.forward_perturbed(Some(&v_modality), a_modality.as_ref(), skip_video, skip_audio)
    }

    /// The latents without noise, under a text.
    fn denoise(
        &self,
        model: &LTXModel,
        video: &Array,
        audio: Option<&Array>,
        text: &AVGemmaEncoderOutput,
        sigma: &Array,
        skip_video: &Vec<usize>,
        skip_audio: &Vec<usize>,
    ) -> (r: Result<(Option<Array>, Option<Array>), Failure>)
        ensures
            r matches Ok(d) ==> {
                let latents = Latents { video: video@, audio: array::opt_ref_view(audio) };
                let skip = (skip_video@, skip_audio@);
                &&& d.0 matches Some(v) ==> v@ == self.denoised_video(
                    *model,
                    latents,
                    context_of(*text),
                    sigma@,
                    skip,
                )
                &&& d.1 is Some ==> array::opt_view(d.1) == self.denoised_audio(
                    *model,
                    latents,
                    context_of(*text),
                    sigma@,
                    skip,
                )
                &&& d.1 is Some ==> audio is Some
                &&& d.0 matches Some(v) ==> v@.dims == video@.dims
                &&& d.1 matches Some(a) ==> a@.dims == audio->0@.dims
                &&& (d.0 is Some) == (self.velocities(*model, latents, context_of(*text), sigma@, skip).0 is Some)
                &&& (d.1 is Some) == (audio is Some && self.velocities(
                    *model,
                    latents,
                    context_of(*text),
                    sigma@,
                    skip,
                ).1 is Some)
                &&& d.0 matches Some(v) ==> v@.dtype == video@.dtype && v.on_cpu() == video.on_cpu()
                &&& d.1 matches Some(a) ==> a@.dtype == audio->0@.dtype && a.on_cpu() == audio->0.on_cpu()
            },
            forall|hidden: (nat, nat)|
                self.in_memory() && text_in_memory(text) && video.on_cpu() && lent_on_cpu(audio) && sigma.on_cpu()
                    && #[trigger] self.serves(
                    *model,
                    (Latents { video: video@, audio: array::opt_ref_view(audio) }),
                    context_of(*text),
                    sigma@,
                    (skip_video@, skip_audio@),
                    hidden,
                ) ==> r is Ok,
    {
        proof {
            lemmas::lemma_single();
            if video@.rank() > 0 {
                lemmas::lemma_last_spreads(video@.dims, 1);
            }
            if audio is Some && audio->0@.rank() > 0 {
                lemmas::lemma_last_spreads(audio->0@.dims, 1);
            }
        }
        let (v, a) = self.run_model(model, video, audio, text, sigma, skip_video, skip_audio)?;
        let sigma_t = sigma.reshape1(1)?.to_device(&video.device())?.to_dtype(self.dtype)?;
        let v = match v {
            Some(velocity) => Some(to_denoised(video, &velocity, &sigma_t)?),
            None => None,
        };
        let a = match (audio, a) {
            (Some(latent), Some(velocity)) => Some(to_denoised(latent, &velocity, &sigma_t)?),
            _ => None,
        };
        Ok((v, a))
    }
}

/// What is missing where the transformer gives no velocity for a stream.
fn required(stream: Option<Array>, what: &str) -> (r: Result<Array, Failure>)
    ensures
        stream matches Some(t) ==> r == Ok::<Array, Failure>(t),
        stream is None ==> (r matches Err(Failure::Missing { what: w }) && w@ == what@),
{
    match stream {
        Some(t) => Ok(t),
        None => Err(missing_err(what)),
    }
}

/// Whether the transformer gives a velocity for each stream that has a latent.
pub open spec fn answers(velocities: (Option<TensorView>, Option<TensorView>), latents: Latents) -> bool {
    velocities.0 is Some && (latents.audio is Some ==> velocities.1 is Some)
}

impl Scene {
    /// Whether the noise of each stream that has a latent can be predicted under a text, without
    /// perturbation.
    pub open spec fn answers_all(
        &self,
        model: LTXModel,
        latents: Latents,
        context: Context,
        sigma: TensorView,
        hidden: (nat, nat),
    ) -> bool {
        let none = (Seq::<usize>::empty(), Seq::<usize>::empty());
        &&& self.serves(model, latents, context, sigma, none, hidden)
        &&& answers(self.velocities(model, latents, context, sigma, none), latents)
    }

    /// Whether the noise of each stream that is perturbed can be predicted with perturbation.
    pub open spec fn answers_perturbed(
        &self,
        model: LTXModel,
        latents: Latents,
        context: Context,
        sigma: TensorView,
        guidance: Guidance,
        hidden: (nat, nat),
    ) -> bool {
        let sound = latents.audio is Some;
        let skip = guidance.skipped(sound);
        let velocities = self.velocities(model, latents, context, sigma, skip);
        guidance.perturbs_video() || guidance.perturbs_audio(sound) ==> {
            &&& self.serves(model, latents, context, sigma, skip, hidden)
            &&& guidance.perturbs_video() ==> velocities.0 is Some
            &&& guidance.perturbs_audio(sound) ==> velocities.1 is Some
        }
    }

    /// Whether both streams can be predicted under guidance.
    pub open spec fn predicts(
        &self,
        model: LTXModel,
        latents: Latents,
        pos: Context,
        neg: Option<Context>,
        sigma: TensorView,
        guidance: Guidance,
        hidden: (nat, nat),
    ) -> bool {
        &&& self.answers_all(model, latents, pos, sigma, hidden)
        &&& self.answers_perturbed(model, latents, pos, sigma, guidance, hidden)
        &&& neg matches Some(n) ==> self.answers_all(model, latents, n, sigma, hidden)
    }

    /// The latents without noise, each stream that has a latent included.
    fn denoise_all(
        &self,
        model: &LTXModel,
        video: &Array,
        audio: Option<&Array>,
        text: &AVGemmaEncoderOutput,
        sigma: &Array,
        missing_video: &str,
        missing_audio: &str,
    ) -> (r: Result<(Array, Option<Array>), Failure>)
        ensures
            r matches Ok(d) ==> {
                let latents = Latents { video: video@, audio: array::opt_ref_view(audio) };
                let none = (Seq::<usize>::empty(), Seq::<usize>::empty());
                &&& d.0@ == self.denoised_video(*model, latents, context_of(*text), sigma@, none)
                &&& array::opt_view(d.1) == self.denoised_audio(*model, latents, context_of(*text), sigma@, none)
                &&& answers(self.velocities(*model, latents, context_of(*text), sigma@, none), latents)
                &&& d.0@.dims == video@.dims
                &&& d.1 matches Some(a) ==> audio is Some && a@.dims == audio->0@.dims
                &&& d.0@.dtype == video@.dtype && d.0.on_cpu() == video.on_cpu()
                &&& d.1 matches Some(a) ==> a@.dtype == audio->0@.dtype && a.on_cpu() == audio->0.on_cpu()
            },
            forall|hidden: (nat, nat)|
                self.in_memory() && text_in_memory(text) && video.on_cpu() && lent_on_cpu(audio) && sigma.on_cpu()
                    && #[trigger] self.answers_all(
                    *model,
                    (Latents { video: video@, audio: array::opt_ref_view(audio) }),
                    context_of(*text),
                    sigma@,
                    hidden,
                ) ==> r is Ok,
    {
        proof {
            assert forall|hidden: (nat, nat)| #[trigger]
                self.answers_all(
                    *model,
                    (Latents { video: video@, audio: array::opt_ref_view(audio) }),
                    context_of(*text),
                    sigma@,
                    hidden,
                ) implies self.serves(
                *model,
                (Latents { video: video@, audio: array::opt_ref_view(audio) }),
                context_of(*text),
                sigma@,
                (Seq::<usize>::empty(), Seq::<usize>::empty()),
                hidden,
            ) by {}
        }
        let none: Vec<usize> = Vec::new();
        let (v, a) = self.denoise(model, video, audio, text, sigma, &none, &none)?;
        assert(none@ =~= Seq::<usize>::empty());
        let v = required(v, missing_video)?;
        if audio.is_some() && a.is_none() {
            return Err(missing_err(missing_audio));
        }
        Ok((v, a))
    }

    /// The latents without noise, with perturbation, of the streams that are perturbed.
    fn denoise_perturbed(
        &self,
        model: &LTXModel,
        video: &Array,
        audio: Option<&Array>,
        text: &AVGemmaEncoderOutput,
        sigma: &Array,
        guidance: &Guidance,
    ) -> (r: Result<(Option<Array>, Option<Array>, usize), Failure>)
        ensures
            r matches Ok(d) ==> {
                let latents = Latents { video: video@, audio: array::opt_ref_view(audio) };
                let skip = guidance.skipped(audio is Some);
                &&& array::opt_view(d.0) == (if guidance.perturbs_video() {
                    Some(self.denoised_video(*model, latents, context_of(*text), sigma@, skip))
                } else {
                    None
                })
                &&& array::opt_view(d.1) == (if guidance.perturbs_audio(audio is Some) {
                    self.denoised_audio(*model, latents, context_of(*text), sigma@, skip)
                } else {
                    None
                })
                &&& 1 + d.2 == guidance.passes(audio is Some, false)
                &&& d.0 matches Some(v) ==> v@.dims == video@.dims && v@.dtype == video@.dtype && v.on_cpu()
                    == video.on_cpu()
                &&& d.1 matches Some(a) ==> audio is Some && a@.dims == audio->0@.dims && a@.dtype == audio->0@.dtype
                    && a.on_cpu() == audio->0.on_cpu()
            },
            forall|hidden: (nat, nat)|
                self.in_memory() && text_in_memory(text) && video.on_cpu() && lent_on_cpu(audio) && sigma.on_cpu()
                    && #[trigger] self.answers_perturbed(
                    *model,
                    (Latents { video: video@, audio: array::opt_ref_view(audio) }),
                    context_of(*text),
                    sigma@,
                    *guidance,
                    hidden,
                ) ==> r is Ok,
    {
        let scaled: bool = !is_zero(guidance.stg_scale);
        let video_active: bool = scaled && !matches!(guidance.stg_mode, StgMode::Audio);
        let audio_active: bool = scaled && audio.is_some() && !matches!(guidance.stg_mode, StgMode::Video);
        if !video_active && !audio_active {
            return Ok((None, None, 0));
        }
        let none: Vec<usize> = Vec::new();
        assert(none@ =~= Seq::<usize>::empty());
        let skip_video = if video_active {
            &guidance.stg_blocks
        } else {
            &none
        };
        let skip_audio = if audio_active {
            &guidance.stg_blocks
        } else {
            &none
        };
        assert((skip_video@, skip_audio@) == guidance.skipped(audio is Some));
        proof {
            let latents = Latents { video: video@, audio: array::opt_ref_view(audio) };
            assert forall|hidden: (nat, nat)| #[trigger]
                self.answers_perturbed(
                    *model,
                    latents,
                    context_of(*text),
                    sigma@,
                    *guidance,
                    hidden,
                ) implies self.serves(
                *model,
                latents,
                context_of(*text),
                sigma@,
                (skip_video@, skip_audio@),
                hidden,
            ) by {}
        }
        let (v, a) = self.denoise(model, video, audio, text, sigma, skip_video, skip_audio)?;
        let v = if video_active {
            Some(required(v, "perturbed video velocity")?)
        } else {
            None
        };
        let a = if audio_active {
            Some(required(a, "perturbed audio velocity")?)
        } else {
            None
        };
        Ok((v, a, 1))
    }
}

/// Predicts both streams without noise, under guidance.
pub fn predict_denoised(
    model: &LTXModel,
    pos: &AVGemmaEncoderOutput,
    neg: Option<&AVGemmaEncoderOutput>,
    video_latent: &Array,
    audio_latent: Option<&Array>,
    scene: &Scene,
    sigma: &Array,
    guidance: &Guidance,
) -> (r: Result<Prediction, Failure>)
    ensures
        r matches Ok(p) ==> {
            let latents = Latents { video: video_latent@, audio: array::opt_ref_view(audio_latent) };
            let pos = context_of(*pos);
            let neg = opt_context(neg);
            let predicted = scene.predicted(*model, latents, pos, neg, sigma@, *guidance);
            let audio_parts = scene.audio_parts(*model, latents, pos, neg, sigma@, *guidance);
            &&& p.video@ == predicted.video
            &&& array::opt_view(p.audio) == predicted.audio
            &&& p.passes == guidance.passes(audio_latent is Some, neg is Some)
            &&& parts_are(
                scene.video_parts(*model, latents, pos, neg, sigma@, *guidance),
                p.video_cond@,
                p.video_uncond,
                p.video_perturbed,
            )
            &&& (p.audio_cond is Some) == (audio_latent is Some)
            &&& p.audio_cond matches Some(c) ==> parts_are(audio_parts->0, c@, p.audio_uncond, p.audio_perturbed)
            &&& same_sizes(latents, predicted)
        },
        r is Ok ==> answers(
            scene.velocities(
                *model,
                (Latents { video: video_latent@, audio: array::opt_ref_view(audio_latent) }),
                context_of(*pos),
                sigma@,
                (Seq::<usize>::empty(), Seq::<usize>::empty()),
            ),
            (Latents { video: video_latent@, audio: array::opt_ref_view(audio_latent) }),
        ),
        r matches Ok(p) ==> p.video@.dtype == video_latent@.dtype && p.video.on_cpu() == video_latent.on_cpu(),
        r matches Ok(p) ==> (p.audio matches Some(a) ==> a@.dtype == audio_latent->0@.dtype && a.on_cpu()
            == audio_latent->0.on_cpu()),
        forall|hidden: (nat, nat)|
            scene.in_memory() && text_in_memory(pos) && (neg matches Some(n) ==> text_in_memory(n))
                && video_latent.on_cpu() && lent_on_cpu(audio_latent) && sigma.on_cpu() && #[trigger] scene.predicts(
                *model,
                (Latents { video: video_latent@, audio: array::opt_ref_view(audio_latent) }),
                context_of(*pos),
                opt_context(neg),
                sigma@,
                *guidance,
                hidden,
            ) ==> r is Ok,
{
    proof {
        let latents = Latents { video: video_latent@, audio: array::opt_ref_view(audio_latent) };
        assert forall|hidden: (nat, nat)| #[trigger]
            scene.predicts(
                *model,
                latents,
                context_of(*pos),
                opt_context(neg),
                sigma@,
                *guidance,
                hidden,
            ) implies scene.answers_all(*model, latents, context_of(*pos), sigma@, hidden)
            && scene.answers_perturbed(*model, latents, context_of(*pos), sigma@, *guidance, hidden) && (
        neg matches Some(n) ==> scene.answers_all(*model, latents, context_of(*n), sigma@, hidden)) by {}
    }
    let (video_cond, audio_cond) = scene.denoise_all(
        model,
        video_latent,
        audio_latent,
        pos,
        sigma,
        "conditioned video velocity",
        "conditioned audio velocity",
    )?;
    let (video_perturbed, audio_perturbed, extra) = scene.denoise_perturbed(
        model,
        video_latent,
        audio_latent,
        pos,
        sigma,
        guidance,
    )?;
    let (video_uncond, audio_uncond) = match neg {
        Some(n) => {
            let (v, a) = scene.denoise_all(
                model,
                video_latent,
                audio_latent,
                n,
                sigma,
                "unconditioned video velocity",
                "unconditioned audio velocity",
            )?;
            (Some(v), a)
        },
        None => (None, None),
    };
    let passes: usize = if neg.is_some() {
        extra + 2
    } else {
        extra + 1
    };
    let video = guide(
        &video_cond,
        video_uncond.as_ref(),
        video_perturbed.as_ref(),
        guidance.cfg_scale,
        guidance.stg_scale,
        guidance.video_rescale_scale,
    )?;
    let audio = match &audio_cond {
        Some(cond) => Some(
            guide(
                cond,
                audio_uncond.as_ref(),
                audio_perturbed.as_ref(),
                guidance.cfg_scale,
                guidance.stg_scale,
                ZERO,
            )?,
        ),
        None => None,
    };
    Ok(
        Prediction {
            video,
            audio,
            passes,
            video_cond,
            video_uncond,
            video_perturbed,
            audio_cond,
            audio_uncond,
            audio_perturbed,
        },
    )
}

// Steps.

/// Everything that stays the same from step to step.
pub ghost struct Setting {
    pub model: LTXModel,
    pub pos: Context,
    pub neg: Option<Context>,
    pub scene: Scene,
    pub guidance: Guidance,
    pub sampler: SamplerKind,
    pub sigmas: Seq<TensorView>,
    pub weights: Seq<Res2sWeights>,
}

impl Setting {
    /// The latents without noise at a noise level.
    pub open spec fn predicted(self, latents: Latents, sigma: TensorView) -> Latents {
        self.scene.predicted(self.model, latents, self.pos, self.neg, sigma, self.guidance)
    }

    /// Whether the noise level behind step `i` can be told to be zero or below, or not. Only the
    /// two-stage sampler asks.
    pub open spec fn tells(self, i: int, quiet: bool) -> bool {
        self.sampler == SamplerKind::Res2s ==> diffusion_step::told_noiseless(self.sigmas[i + 1], quiet)
    }

    /// Whether this can be told of the noise levels behind the first `n` steps.
    pub open spec fn tells_all(self, n: nat, quiet: Seq<bool>) -> bool {
        &&& quiet.len() == n
        &&& forall|i: int| 0 <= i < n ==> self.tells(i, #[trigger] quiet[i])
    }

    /// The latents after step `i`, to a noise level that is told to be zero or not.
    pub open spec fn stepped(self, latents: Latents, i: int, quiet: bool) -> Latents {
        let sigma = self.sigmas[i];
        let next = self.sigmas[i + 1];
        let p = self.predicted(latents, sigma);
        match self.sampler {
            SamplerKind::Euler => Latents {
                video: diffusion_step::euler_of(latents.video, p.video, sigma, next),
                audio: match (latents.audio, p.audio) {
                    (Some(latent), Some(denoised)) => Some(
                        diffusion_step::euler_of(latent, denoised, sigma, next),
                    ),
                    _ => latents.audio,
                },
            },
            SamplerKind::Res2s => if quiet {
                Latents { video: p.video, audio: latents.audio }
            } else {
                let w = self.weights[i];
                let half = Latents {
                    video: diffusion_step::midpoint_of(latents.video, p.video, sigma, next, w.phi1_mid),
                    audio: None,
                };
                let q = self.predicted(half, diffusion_step::midpoint_sigma_of(sigma, next));
                Latents {
                    video: diffusion_step::res2s_moved(latents.video, p.video, q.video, sigma, next, w),
                    audio: latents.audio,
                }
            },
        }
    }

    /// Whether step `i` can be taken from latents in main memory, with rows of so many numbers in
    /// the feed-forward networks of the transformer.
    #[verifier::opaque]
    pub open spec fn takes_step(self, latents: Latents, i: int, hidden: (nat, nat)) -> bool {
        let (sigma, next) = (self.sigmas[i], self.sigmas[i + 1]);
        let p = self.predicted(latents, sigma);
        let half = Latents {
            video: diffusion_step::midpoint_of(latents.video, p.video, sigma, next, self.weights[i].phi1_mid),
            audio: None,
        };
        &&& self.predicts(latents, sigma, hidden)
        &&& next.rank() == 0 && next.dtype.plain()
        &&& self.sampler == SamplerKind::Res2s && self.tells(i, false) ==> self.predicts(
            half,
            diffusion_step::midpoint_sigma_of(sigma, next),
            hidden,
        )
    }

    /// Whether both streams can be predicted at a noise level.
    pub open spec fn predicts(self, latents: Latents, sigma: TensorView, hidden: (nat, nat)) -> bool {
        self.scene.predicts(self.model, latents, self.pos, self.neg, sigma, self.guidance, hidden)
    }

    /// The latents after the first `n` steps, to noise levels that are told to be zero or not.
    pub open spec fn after(self, latents: Latents, n: nat, quiet: Seq<bool>) -> Latents
        decreases n,
    {
        if n == 0 {
            latents
        } else {
            self.stepped(self.after(latents, (n - 1) as nat, quiet), n - 1, quiet[n - 1])
        }
    }

    /// Whether the first `n` steps can be taken one after another, whatever is told of the noise
    /// levels.
    pub open spec fn takes_steps(self, latents: Latents, n: nat, hidden: (nat, nat)) -> bool {
        forall|i: int, quiet: Seq<bool>|
            0 <= i < n && self.tells_all(i as nat, quiet) ==> #[trigger] self.reaches_step(
                latents,
                i,
                quiet,
                hidden,
            )
    }

    /// Whether step `i` can be taken behind the steps before it.
    pub open spec fn reaches_step(self, latents: Latents, i: int, quiet: Seq<bool>, hidden: (nat, nat)) -> bool {
        self.takes_step(self.after(latents, i as nat, quiet), i, hidden)
    }

    /// How often the transformer runs in step `i`, to a noise level that is told to be zero or not.
    pub open spec fn passes(self, latents: Latents, i: int, quiet: bool) -> nat {
        let first = self.guidance.passes(latents.audio is Some, self.neg is Some);
        if self.sampler == SamplerKind::Res2s && !quiet {
            first + self.guidance.passes(false, self.neg is Some)
        } else {
            first
        }
    }
}

/// A run has the audio latent of its start, or none, at every step.
pub proof fn law_streams_stay(setting: Setting, latents: Latents, n: nat, quiet: Seq<bool>)
    ensures
        (setting.after(latents, n, quiet).audio is Some) == (latents.audio is Some),
        setting.sampler == SamplerKind::Res2s ==> setting.after(latents, n, quiet).audio == latents.audio,
    decreases n,
{
    if n > 0 {
        law_streams_stay(setting, latents, (n - 1) as nat, quiet);
    }
}

/// Euler's method goes the same way whatever is told of the noise levels, and the two-stage
/// sampler asks of those behind the steps it has taken alone.
pub proof fn law_steps_ask_of_their_levels(
    setting: Setting,
    latents: Latents,
    n: nat,
    quiet: Seq<bool>,
    other: Seq<bool>,
)
    requires
        setting.sampler == SamplerKind::Euler || forall|i: int| 0 <= i < n ==> quiet[i] == #[trigger] other[i],
    ensures
        setting.after(latents, n, quiet) == setting.after(latents, n, other),
    decreases n,
{
    if n > 0 {
        law_steps_ask_of_their_levels(setting, latents, (n - 1) as nat, quiet, other);
    }
}

/// Where the last noise level is told to be zero, the two-stage sampler ends in the last
/// prediction.
pub proof fn law_res2s_ends_in_prediction(setting: Setting, latents: Latents, n: nat, quiet: Seq<bool>)
    requires
        n >= 1,
        setting.sampler == SamplerKind::Res2s,
        quiet[n - 1],
    ensures
        setting.after(latents, n, quiet).video == setting.predicted(
            setting.after(latents, (n - 1) as nat, quiet),
            setting.sigmas[n - 1],
        ).video,
{
}

/// What a step gives.
pub struct DenoiseStep {
    pub video_latent: Array,
    pub audio_latent: Option<Array>,
    /// How often the transformer ran.
    pub passes: usize,
    /// The prediction at the noise level of the step.
    pub prediction: Prediction,
}

/// What stays the same from step to step, put together.
pub open spec fn setting_of(
    model: LTXModel,
    pos: AVGemmaEncoderOutput,
    neg: Option<&AVGemmaEncoderOutput>,
    scene: Scene,
    sigmas: Seq<Array>,
    weights: Seq<Res2sWeights>,
    sampler: SamplerKind,
    guidance: Guidance,
) -> Setting {
    Setting {
        model,
        pos: context_of(pos),
        neg: opt_context(neg),
        scene,
        guidance,
        sampler,
        sigmas: array::views(sigmas),
        weights,
    }
}

/// Whether all that stays the same from step to step is in main memory.
pub open spec fn in_main_memory(
    pos: &AVGemmaEncoderOutput,
    neg: Option<&AVGemmaEncoderOutput>,
    scene: &Scene,
    sigmas: Seq<Array>,
) -> bool {
    &&& text_in_memory(pos) && scene.in_memory()
    &&& neg matches Some(n) ==> text_in_memory(n)
    &&& forall|i: int| 0 <= i < sigmas.len() ==> (#[trigger] sigmas[i]).on_cpu()
}

/// Whether this is what step `i` gives, to a noise level that is told to be zero or not.
pub open spec fn taken(setting: Setting, latents: Latents, i: int, quiet: bool, step: DenoiseStep) -> bool {
    let next = setting.stepped(latents, i, quiet);
    &&& step.video_latent@ == next.video
    &&& array::opt_view(step.audio_latent) == next.audio
    &&& step.passes == setting.passes(latents, i, quiet)
    &&& same_sizes(latents, next)
}

/// Takes both streams from noise level `step_idx` to the next.
pub fn denoise_step(
    model: &LTXModel,
    pos: &AVGemmaEncoderOutput,
    neg: Option<&AVGemmaEncoderOutput>,
    video_latent: &Array,
    audio_latent: &Option<Array>,
    scene: &Scene,
    sigmas: &Vec<Array>,
    weights: &Vec<Res2sWeights>,
    step_idx: usize,
    sampler: SamplerKind,
    guidance: &Guidance,
) -> (r: Result<DenoiseStep, Failure>)
    requires
        step_idx + 1 < sigmas.len(),
        sampler == SamplerKind::Res2s ==> step_idx < weights.len(),
    ensures
        r matches Ok(s) ==> {
            let setting = setting_of(*model, *pos, neg, *scene, sigmas@, weights@, sampler, *guidance);
            let latents = Latents { video: video_latent@, audio: array::opt_view(*audio_latent) };
            let p = setting.predicted(latents, sigmas@[step_idx as int]@);
            &&& s.prediction.video@ == p.video
            &&& array::opt_view(s.prediction.audio) == p.audio
            &&& sampler == SamplerKind::Res2s ==> array::opt_view(s.audio_latent) == latents.audio
        },
        r matches Ok(s) ==> {
            let setting = setting_of(*model, *pos, neg, *scene, sigmas@, weights@, sampler, *guidance);
            let latents = Latents { video: video_latent@, audio: array::opt_view(*audio_latent) };
            exists|quiet: bool| #[trigger]
                setting.tells(step_idx as int, quiet) && taken(setting, latents, step_idx as int, quiet, s)
        },
        forall|hidden: (nat, nat)|
            in_main_memory(pos, neg, scene, sigmas@) && video_latent.on_cpu() && modality::opt_on_cpu(*audio_latent)
                && #[trigger] setting_of(
                *model,
                *pos,
                neg,
                *scene,
                sigmas@,
                weights@,
                sampler,
                *guidance,
            ).takes_step(
                (Latents { video: video_latent@, audio: array::opt_view(*audio_latent) }),
                step_idx as int,
                hidden,
            ) ==> (r matches Ok(s) && s.video_latent.on_cpu() && modality::opt_on_cpu(s.audio_latent)),
{
    let ghost setting = setting_of(*model, *pos, neg, *scene, sigmas@, weights@, sampler, *guidance);
    let ghost latents = Latents { video: video_latent@, audio: array::opt_view(*audio_latent) };
    proof {
        reveal(Setting::takes_step);
        assert forall|hidden: (nat, nat)| #[trigger]
            setting.takes_step(latents, step_idx as int, hidden) implies scene.predicts(
            *model,
            latents,
            context_of(*pos),
            opt_context(neg),
            sigmas@[step_idx as int]@,
            *guidance,
            hidden,
        ) by {}
    }
    let sigma = &sigmas[step_idx];
    let next = &sigmas[step_idx + 1];
    assert(array::views(sigmas@)[step_idx as int] == sigma@);
    assert(array::views(sigmas@)[step_idx + 1] == next@);
    let prediction = predict_denoised(
        model,
        pos,
        neg,
        video_latent,
        audio_latent.as_ref(),
        scene,
        sigma,
        guidance,
    )?;
    match sampler {
        SamplerKind::Euler => {
            let video = euler_step(video_latent, &prediction.video, sigmas, step_idx)?;
            let audio = match (audio_latent, &prediction.audio) {
                (Some(latent), Some(denoised)) => Some(euler_step(latent, denoised, sigmas, step_idx)?),
                _ => copy_opt(audio_latent),
            };
            let passes: usize = prediction.passes;
            assert(setting.tells(step_idx as int, false));
            Ok(DenoiseStep { video_latent: video, audio_latent: audio, passes, prediction })
        },
        SamplerKind::Res2s => {
            let w = weights[step_idx];
            let half = res2s_midpoint(video_latent, &prediction.video, sigma, next, w.phi1_mid)?;
            assert(setting.tells(step_idx as int, half is None));
            let (video, passes): (Array, usize) = match half {
                Some((latent, level)) => {
                    proof {
                        assert forall|hidden: (nat, nat)| #[trigger]
                            setting.takes_step(latents, step_idx as int, hidden) implies scene.predicts(
                            *model,
                            (Latents { video: latent@, audio: None }),
                            context_of(*pos),
                            opt_context(neg),
                            level@,
                            *guidance,
                            hidden,
                        ) by {}
                    }
                    let second = predict_denoised(model, pos, neg, &latent, None, scene, &level, guidance)?;
                    proof {
                        law_passes(*guidance, audio_latent is Some, neg is Some);
                        law_passes(*guidance, false, neg is Some);
                    }
                    let video = res2s_advance(
                        video_latent,
                        &prediction.video,
                        &second.video,
                        sigma,
                        next,
                        &w,
                    )?;
                    (video, prediction.passes + second.passes)
                },
                None => (prediction.video.clone(), prediction.passes),
            };
            Ok(DenoiseStep { video_latent: video, audio_latent: copy_opt(audio_latent), passes, prediction })
        },
    }
}

/// Whether a run can start: it has a step, and the two-stage sampler has no audio to do.
pub fn check_run(sigmas: usize, sampler: SamplerKind, has_audio: bool) -> (r: Result<(), Failure>)
    ensures
        r is Ok <==> (sigmas >= 2 && !(sampler == SamplerKind::Res2s && has_audio)),
        sigmas < 2 ==> r == Err::<(), Failure>(Failure::TooFewSigmas { got: sigmas }),
        sigmas >= 2 && sampler == SamplerKind::Res2s && has_audio ==> r == Err::<(), Failure>(
            Failure::SamplerAudio,
        ),
{
    if sigmas < 2 {
        return Err(Failure::TooFewSigmas { got: sigmas });
    }
    if matches!(sampler, SamplerKind::Res2s) && has_audio {
        return Err(Failure::SamplerAudio);
    }
    Ok(())
}

/// Whether a run ends in these latents, with the transformer run so often in each step, where this
/// is told of the noise levels.
pub open spec fn ran(
    setting: Setting,
    start: Latents,
    quiet: Seq<bool>,
    video: Array,
    audio: Option<Array>,
    passes: Seq<usize>,
) -> bool {
    let end = setting.after(start, quiet.len(), quiet);
    &&& video@ == end.video
    &&& array::opt_view(audio) == end.audio
    &&& passes.len() == quiet.len()
    &&& forall|i: int|
        0 <= i < passes.len() ==> #[trigger] passes[i] == setting.passes(
            setting.after(start, i as nat, quiet),
            i,
            quiet[i],
        )
    &&& same_sizes(start, end)
}

/// Takes both streams through all noise levels. Gives the latents and, for each step, how
/// often the transformer ran.
#[verifier::spinoff_prover]
#[verifier::rlimit(40)]
pub fn run_denoise_loop(
    model: &LTXModel,
    pos: &AVGemmaEncoderOutput,
    neg: Option<&AVGemmaEncoderOutput>,
    video_latent: Array,
    audio_latent: Option<Array>,
    scene: &Scene,
    sigmas: &Vec<Array>,
    weights: &Vec<Res2sWeights>,
    sampler: SamplerKind,
    guidance: &Guidance,
) -> (r: Result<(Array, Option<Array>, Vec<usize>), Failure>)
    requires
        sampler == SamplerKind::Res2s && audio_latent is None ==> sigmas.len() <= weights.len() + 1,
    ensures
        r matches Ok(o) ==> sigmas.len() >= 2 && o.2@.len() == sigmas.len() - 1,
        r matches Ok(o) ==> {
            let setting = setting_of(*model, *pos, neg, *scene, sigmas@, weights@, sampler, *guidance);
            let start = Latents { video: video_latent@, audio: array::opt_view(audio_latent) };
            exists|quiet: Seq<bool>| #[trigger]
                setting.tells_all((sigmas.len() - 1) as nat, quiet) && ran(setting, start, quiet, o.0, o.1, o.2@)
        },
        sigmas.len() < 2 ==> r == Err::<(Array, Option<Array>, Vec<usize>), Failure>(
            Failure::TooFewSigmas { got: sigmas.len() },
        ),
        sigmas.len() >= 2 && sampler == SamplerKind::Res2s && audio_latent is Some ==> r == Err::<
            (Array, Option<Array>, Vec<usize>),
            Failure,
        >(Failure::SamplerAudio),
        forall|hidden: (nat, nat)|
            in_main_memory(pos, neg, scene, sigmas@) && video_latent.on_cpu() && modality::opt_on_cpu(audio_latent)
                && sigmas.len() >= 2 && !(sampler == SamplerKind::Res2s && audio_latent is Some)
                && #[trigger] setting_of(
                *model,
                *pos,
                neg,
                *scene,
                sigmas@,
                weights@,
                sampler,
                *guidance,
            ).takes_steps(
                (Latents { video: video_latent@, audio: array::opt_view(audio_latent) }),
                (sigmas.len() - 1) as nat,
                hidden,
            ) ==> r is Ok,
{
    check_run(sigmas.len(), sampler, audio_latent.is_some())?;
    let ghost setting = setting_of(*model, *pos, neg, *scene, sigmas@, weights@, sampler, *guidance);
    let ghost start = Latents { video: video_latent@, audio: array::opt_view(audio_latent) };
    let total: usize = sigmas.len() - 1;
    let ghost stored = in_main_memory(pos, neg, scene, sigmas@) && video_latent.on_cpu()
        && modality::opt_on_cpu(audio_latent);
    let mut video = video_latent;
    let mut audio = audio_latent;
    let mut passes: Vec<usize> = Vec::new();
    let ghost mut quiet: Seq<bool> = Seq::empty();
    let mut i: usize = 0;
    while i < total
        invariant
            i <= total == sigmas.len() - 1,
            sigmas.len() >= 2,
            !(sampler == SamplerKind::Res2s && audio_latent is Some),
            sampler == SamplerKind::Res2s ==> sigmas.len() <= weights.len() + 1,
            setting == setting_of(*model, *pos, neg, *scene, sigmas@, weights@, sampler, *guidance),
            setting.tells_all(i as nat, quiet),
            ran(setting, start, quiet, video, audio, passes@),
            start == (Latents { video: video_latent@, audio: array::opt_view(audio_latent) }),
            stored == (in_main_memory(pos, neg, scene, sigmas@) && video_latent.on_cpu()
                && modality::opt_on_cpu(audio_latent)),
            stored && (exists|hidden: (nat, nat)| #[trigger] setting.takes_steps(start, total as nat, hidden))
                ==> video.on_cpu() && modality::opt_on_cpu(audio),
        decreases total - i,
    {
        let ghost now = setting.after(start, i as nat, quiet);
        let ghost before = passes@;
        proof {
            assert(now == (Latents { video: video@, audio: array::opt_view(audio) }));
            assert forall|hidden: (nat, nat)| #[trigger]
                setting.takes_steps(start, total as nat, hidden) implies setting.takes_step(now, i as int, hidden) by {
                assert(setting.reaches_step(start, i as int, quiet, hidden));
            }
        }
        let step = denoise_step(
            model,
            pos,
            neg,
            &video,
            &audio,
            scene,
            sigmas,
            weights,
            i,
            sampler,
            guidance,
        )?;
        proof {
            let flag = choose|flag: bool| #[trigger]
                setting.tells(i as int, flag) && taken(setting, now, i as int, flag, step);
            let longer = quiet.push(flag);
            assert forall|k: nat| k <= i implies setting.after(start, k, longer) == #[trigger] setting.after(
                start,
                k,
                quiet,
            ) by {
                law_steps_ask_of_their_levels(setting, start, k, longer, quiet);
            }
            assert(setting.after(start, (i + 1) as nat, longer) == setting.stepped(now, i as int, flag));
            assert forall|k: int| 0 <= k < i + 1 implies setting.tells(k, #[trigger] longer[k]) by {
                if k < i {
                    assert(setting.tells(k, quiet[k]));
                }
            }
            quiet = longer;
        }
        video = step.video_latent;
        audio = step.audio_latent;
        passes.push(step.passes);
        proof {
            assert forall|k: int| 0 <= k < passes@.len() implies #[trigger] passes@[k] == setting.passes(
                setting.after(start, k as nat, quiet),
                k,
                quiet[k],
            ) by {
                if k < i {
                    assert(before[k] == passes@[k]);
                }
            }
        }
        i = i + 1;
    }
    assert(setting.tells_all((sigmas.len() - 1) as nat, quiet));
    assert(ran(setting, start, quiet, video, audio, passes@));
    Ok((video, audio, passes))
}

/// `clean * (1 - sigma) + noise * sigma`.
pub open spec fn noised_of(clean: TensorView, noise: TensorView, sigma: TensorView) -> TensorView {
    let level = diffusion_step::wide(sigma);
    model::binary(
        BinOp::Plus,
        model::affine(
            clean,
            model::binary(BinOp::Minus, model::number(ONE), level),
            model::number(ZERO),
        ),
        model::affine(noise, level, model::number(ZERO)),
    )
}

/// Puts noise on a latent.
pub fn add_noise_at_sigma(clean: &Array, noise: &Array, sigma: &Array) -> (r: Result<Array, Failure>)
    ensures
        r matches Ok(t) ==> t@ == noised_of(clean@, noise@, sigma@) && t@.dims == clean@.dims,
        clean@.dims != noise@.dims ==> r is Err,
        guiders::matching(clean, noise) && diffusion_step::is_level(*sigma) ==> r is Ok,
{
    let level = sigma.to_dtype(Dtype::F64)?;
    let rest = Array::number(ONE)?.to_device(&level.device())?.pairwise(BinOp::Minus, &level)?;
    clean.scale_by(&rest)?.pairwise(BinOp::Plus, &noise.scale_by(&level)?)
}

} // verus!
