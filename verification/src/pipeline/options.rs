//! What a run is asked for, and what follows from it.
use vstd::prelude::*;

use crate::array::{self, Array};
use crate::base::config::{SchedulerConfig, TransformerConfig, VaeConfig};
use crate::base::types::{SpatioTemporalScaleFactors, VideoLatentShape};
use crate::error::Failure;
use crate::model::{self, Dtype, TensorView};
use crate::scalar::{self, exceeds, Scalar, ONE, ZERO};
use crate::scheduler::schedule::{self, maor_schedule};

verus! {

/// What is generated.
#[derive(Clone, Copy, PartialEq, Eq, Structural, Debug)]
pub enum GenerationMode {
    Video,
    Av,
}

/// How latents get from one noise level to the next.
#[derive(Clone, Copy, PartialEq, Eq, Structural, Debug)]
pub enum SamplerKind {
    Euler,
    Res2s,
}

/// Which streams are perturbed for guidance.
#[derive(Clone, Copy, PartialEq, Eq, Structural, Debug)]
pub enum StgMode {
    Video,
    Audio,
    Both,
}

/// The channels of a video latent.
pub const LATENT_CHANNELS: usize = 128;

/// The steps of the two stages with a distilled adapter.
pub const DISTILLED_STEPS: usize = 8;

/// The most steps of the second stage.
pub const MAX_STAGE2_STEPS: usize = 3;

/// The options that decide what is computed.
#[derive(Clone, Copy, PartialEq, Eq, Structural, Debug)]
pub struct Options {
    pub mode: GenerationMode,
    pub sampler: SamplerKind,
    pub width: usize,
    pub height: usize,
    pub frames: usize,
    pub steps: usize,
    pub stg_scale: Scalar,
    pub stg_block: usize,
    pub two_stage: bool,
    /// Whether a checkpoint of the upscaler is given.
    pub has_upscaler: bool,
    pub stage2_steps: usize,
    /// Whether a checkpoint of a distilled adapter is given.
    pub has_distilled_lora: bool,
}

/// Why options are not accepted.
#[derive(Clone, Copy, PartialEq, Eq, Structural, Debug)]
pub enum Refusal {
    /// Width or height is not a multiple of 32.
    Size,
    /// The number of frames is not one more than a multiple of eight.
    Frames,
    /// There is no step.
    Steps,
    /// Two stages without an upscaler.
    Upscaler,
    /// Two stages whose width or height is not a multiple of 64.
    TwoStageSize,
    /// The second stage has no step, or more than three.
    Stage2Steps,
    /// A distilled adapter with another number of steps than it was made for.
    DistilledSteps,
    /// A distilled adapter with another number of steps of the second stage.
    DistilledStage2Steps,
}

impl Refusal {
    /// What to tell the user.
    pub fn message(&self) -> (r: &'static str)
        ensures
            r@ == (match *self {
                Refusal::Size => "width and height must be divisible by 32"@,
                Refusal::Frames => "frames must be 1 + 8*k"@,
                Refusal::Steps => "steps must be >= 1"@,
                Refusal::Upscaler => "--spatial-upscaler is required with --two-stage"@,
                Refusal::TwoStageSize => "two-stage output width and height must be divisible by 64"@,
                Refusal::Stage2Steps => "--stage2-steps must be in 1..=3"@,
                Refusal::DistilledSteps => "distilled two-stage inference requires --steps 8"@,
                Refusal::DistilledStage2Steps => "distilled two-stage inference requires --stage2-steps 3"@,
            }),
    {
        match self {
            Refusal::Size => "width and height must be divisible by 32",
            Refusal::Frames => "frames must be 1 + 8*k",
            Refusal::Steps => "steps must be >= 1",
            Refusal::Upscaler => "--spatial-upscaler is required with --two-stage",
            Refusal::TwoStageSize => "two-stage output width and height must be divisible by 64",
            Refusal::Stage2Steps => "--stage2-steps must be in 1..=3",
            Refusal::DistilledSteps => "distilled two-stage inference requires --steps 8",
            Refusal::DistilledStage2Steps => "distilled two-stage inference requires --stage2-steps 3",
        }
    }

    /// Whether options break this rule.
    pub open spec fn broken_by(self, o: Options) -> bool {
        match self {
            Refusal::Size => o.width % 32 != 0 || o.height % 32 != 0,
            Refusal::Frames => o.frames % 8 != 1,
            Refusal::Steps => o.steps == 0,
            Refusal::Upscaler => o.two_stage && !o.has_upscaler,
            Refusal::TwoStageSize => o.two_stage && (o.width % 64 != 0 || o.height % 64 != 0),
            Refusal::Stage2Steps => o.two_stage && (o.stage2_steps == 0 || o.stage2_steps > MAX_STAGE2_STEPS),
            Refusal::DistilledSteps => o.two_stage && o.has_distilled_lora && o.steps != DISTILLED_STEPS,
            Refusal::DistilledStage2Steps => o.two_stage && o.has_distilled_lora && o.stage2_steps
                != MAX_STAGE2_STEPS,
        }
    }

    /// The place of this rule in the order in which they are looked at.
    pub open spec fn rank(self) -> int {
        match self {
            Refusal::Size => 0,
            Refusal::Frames => 1,
            Refusal::Steps => 2,
            Refusal::Upscaler => 3,
            Refusal::TwoStageSize => 4,
            Refusal::Stage2Steps => 5,
            Refusal::DistilledSteps => 6,
            Refusal::DistilledStage2Steps => 7,
        }
    }
}

impl Options {
    /// Whether options break no rule.
    pub open spec fn acceptable(self) -> bool {
        forall|rule: Refusal| !#[trigger] rule.broken_by(self)
    }

    /// Accepts options, or tells the first rule that they break.
    pub fn validate(&self) -> (r: Result<(), Refusal>)
        ensures
            r is Ok <==> self.acceptable(),
            r matches Err(e) ==> e.broken_by(*self) && forall|rule: Refusal|
                rule.rank() < e.rank() ==> !#[trigger] rule.broken_by(*self),
    {
        if self.width % 32 != 0 || self.height % 32 != 0 {
            assert(Refusal::Size.broken_by(*self));
            return Err(Refusal::Size);
        }
        if self.frames % 8 != 1 {
            assert(Refusal::Frames.broken_by(*self));
            return Err(Refusal::Frames);
        }
        if self.steps == 0 {
            assert(Refusal::Steps.broken_by(*self));
            return Err(Refusal::Steps);
        }
        if self.two_stage {
            if !self.has_upscaler {
                assert(Refusal::Upscaler.broken_by(*self));
                return Err(Refusal::Upscaler);
            }
            if self.width % 64 != 0 || self.height % 64 != 0 {
                assert(Refusal::TwoStageSize.broken_by(*self));
                return Err(Refusal::TwoStageSize);
            }
            if self.stage2_steps == 0 || self.stage2_steps > MAX_STAGE2_STEPS {
                assert(Refusal::Stage2Steps.broken_by(*self));
                return Err(Refusal::Stage2Steps);
            }
            if self.has_distilled_lora {
                if self.steps != DISTILLED_STEPS {
                    assert(Refusal::DistilledSteps.broken_by(*self));
                    return Err(Refusal::DistilledSteps);
                }
                if self.stage2_steps != MAX_STAGE2_STEPS {
                    assert(Refusal::DistilledStage2Steps.broken_by(*self));
                    return Err(Refusal::DistilledStage2Steps);
                }
            }
        }
        Ok(())
    }

    /// Whether sound is generated.
    pub open spec fn with_audio(self) -> bool {
        self.mode == GenerationMode::Av
    }

    /// Whether sound is generated.
    pub fn use_audio(&self) -> (r: bool)
        ensures
            r == self.with_audio(),
    {
        matches!(self.mode, GenerationMode::Av)
    }

    /// The sampler that is used: with sound there is no two-stage sampler.
    pub fn effective_sampler(&self) -> (r: SamplerKind)
        ensures
            r == (if self.with_audio() { SamplerKind::Euler } else { self.sampler }),
    {
        if matches!(self.sampler, SamplerKind::Res2s) && self.use_audio() {
            SamplerKind::Euler
        } else {
            self.sampler
        }
    }

    /// The blocks that perturbation leaves out.
    pub fn stg_blocks(&self) -> (r: Vec<usize>)
        ensures
            r@ == (if scalar::above(self.stg_scale, ZERO) { seq![self.stg_block] } else { Seq::empty() }),
    {
        let mut blocks: Vec<usize> = Vec::new();
        if exceeds(self.stg_scale, ZERO) {
            blocks.push(self.stg_block);
        }
        assert(blocks@ =~= (if scalar::above(self.stg_scale, ZERO) {
            seq![self.stg_block]
        } else {
            Seq::empty()
        }));
        blocks
    }

    /// Width and height of the first stage: half of the video's with two stages.
    pub open spec fn stage_size_of(self) -> (usize, usize) {
        if self.two_stage {
            ((self.width / 2) as usize, (self.height / 2) as usize)
        } else {
            (self.width, self.height)
        }
    }

    /// The latent shape of a video of this size.
    pub open spec fn latent_shape(self, width: usize, height: usize) -> VideoLatentShape {
        VideoLatentShape {
            batch: 1,
            channels: LATENT_CHANNELS,
            frames: ((self.frames - 1) / 8 + 1) as usize,
            height: (height / 32) as usize,
            width: (width / 32) as usize,
        }
    }

    /// The latent shapes of the first stage and of the video.
    pub fn latent_shapes(&self) -> (r: (VideoLatentShape, VideoLatentShape))
        requires
            self.frames >= 1,
        ensures
            r.0 == self.latent_shape(self.stage_size_of().0, self.stage_size_of().1),
            r.1 == self.latent_shape(self.width, self.height),
    {
        let factors = SpatioTemporalScaleFactors { time: 8, width: 32, height: 32 };
        let (width, height): (usize, usize) = if self.two_stage {
            (self.width / 2, self.height / 2)
        } else {
            (self.width, self.height)
        };
        let stage = VideoLatentShape::from_pixel_shape(
            1,
            self.frames,
            height,
            width,
            LATENT_CHANNELS,
            &factors,
        );
        let last = VideoLatentShape::from_pixel_shape(
            1,
            self.frames,
            self.height,
            self.width,
            LATENT_CHANNELS,
            &factors,
        );
        (stage, last)
    }

    /// Whether these can be the noise levels of the first stage.
    pub open spec fn is_stage1_levels(
        self,
        levels: Seq<TensorView>,
        tokens: nat,
        cfg: SchedulerConfig,
    ) -> bool {
        if self.two_stage && self.has_distilled_lora {
            levels == levels_of(distilled_sigmas())
        } else {
            schedule::is_schedule(
                levels,
                self.steps as nat,
                tokens,
                cfg.max_shift,
                cfg.base_shift,
                cfg.stretch,
                cfg.terminal,
            )
        }
    }

    /// The noise levels of the first stage for a number of tokens.
    pub fn stage1_sigmas(&self, tokens: usize, cfg: &SchedulerConfig) -> (r: Result<Vec<Array>, Failure>)
        ensures
            r matches Ok(v) && self.is_stage1_levels(array::views(v@), tokens as nat, *cfg),
            r matches Ok(v) ==> self.acceptable() ==> v@.len() == self.steps + 1,
    {
        proof {
            if self.acceptable() {
                assert(!Refusal::DistilledSteps.broken_by(*self));
            }
        }
        if self.two_stage && self.has_distilled_lora {
            let v = levels(&distilled_table())?;
            assert(array::views(v@).len() == v@.len());
            Ok(v)
        } else {
            maor_schedule(
                self.steps,
                Some(tokens),
                cfg.max_shift,
                cfg.base_shift,
                cfg.stretch,
                cfg.terminal,
            )
        }
    }

    /// The noise levels of the second stage.
    pub open spec fn stage2_levels(self) -> Seq<TensorView> {
        if self.has_distilled_lora {
            levels_of(distilled_sigmas().subrange(5, 9))
        } else {
            levels_of(stage2_table_of().subrange(0, self.stage2_steps + 1))
        }
    }

    /// The noise levels of the second stage.
    pub fn stage2_sigmas(&self) -> (r: Result<Vec<Array>, Failure>)
        requires
            self.stage2_steps <= MAX_STAGE2_STEPS,
        ensures
            r matches Ok(v) ==> array::views(v@) == self.stage2_levels(),
            r matches Ok(v) ==> self.acceptable() && self.two_stage ==> v@.len() == self.stage2_steps + 1,
            r is Ok,
    {
        proof {
            if self.acceptable() && self.two_stage {
                assert(!Refusal::DistilledStage2Steps.broken_by(*self));
            }
        }
        let v = if self.has_distilled_lora {
            levels(&slice(&distilled_table(), 5, 9))?
        } else {
            levels(&slice(&stage2_table(), 0, self.stage2_steps + 1))?
        };
        assert(array::views(v@).len() == v@.len());
        Ok(v)
    }
}

/// 0.909375, 0.725, 0.421875 and 0 in single precision.
pub open spec fn stage2_table_of() -> Seq<Scalar> {
    seq![0x3FED_1999_A000_0000u64, 0x3FE7_3333_4000_0000, 0x3FDB_0000_0000_0000, 0]
}

/// 1, 0.99375, 0.9875, 0.98125, 0.975, 0.909375, 0.725, 0.421875 and 0 in single precision.
pub open spec fn distilled_sigmas() -> Seq<Scalar> {
    seq![
        0x3FF0_0000_0000_0000u64,
        0x3FEF_CCCC_C000_0000,
        0x3FEF_9999_A000_0000,
        0x3FEF_6666_6000_0000,
        0x3FEF_3333_4000_0000,
        0x3FED_1999_A000_0000,
        0x3FE7_3333_4000_0000,
        0x3FDB_0000_0000_0000,
        0,
    ]
}

fn stage2_table() -> (r: Vec<Scalar>)
    ensures
        r@ == stage2_table_of(),
{
    let r: Vec<Scalar> = vec![
        0x3FED_1999_A000_0000,
        0x3FE7_3333_4000_0000,
        0x3FDB_0000_0000_0000,
        0,
    ];
    assert(r@ =~= stage2_table_of());
    r
}

fn distilled_table() -> (r: Vec<Scalar>)
    ensures
        r@ == distilled_sigmas(),
{
    let r: Vec<Scalar> = vec![
        0x3FF0_0000_0000_0000,
        0x3FEF_CCCC_C000_0000,
        0x3FEF_9999_A000_0000,
        0x3FEF_6666_6000_0000,
        0x3FEF_3333_4000_0000,
        0x3FED_1999_A000_0000,
        0x3FE7_3333_4000_0000,
        0x3FDB_0000_0000_0000,
        0,
    ];
    assert(r@ =~= distilled_sigmas());
    r
}

/// A number as a noise level.
pub open spec fn level_of(s: Scalar) -> TensorView {
    model::cast(model::number(s), Dtype::F32)
}

/// Numbers as noise levels.
pub open spec fn levels_of(table: Seq<Scalar>) -> Seq<TensorView> {
    table.map_values(|s: Scalar| level_of(s))
}

fn levels(table: &Vec<Scalar>) -> (r: Result<Vec<Array>, Failure>)
    ensures
        r matches Ok(v) ==> array::views(v@) == levels_of(table@),
        r is Ok,
{
    let mut out: Vec<Array> = Vec::new();
    let mut i: usize = 0;
    while i < table.len()
        invariant
            i <= table.len(),
            out@.len() == i,
            forall|k: int| 0 <= k < i ==> (#[trigger] out@[k])@ == level_of(table@[k]),
        decreases table.len() - i,
    {
        out.push(Array::number(table[i])?.to_dtype(Dtype::F32)?);
        i = i + 1;
    }
    assert(array::views(out@) =~= levels_of(table@));
    Ok(out)
}

fn slice(table: &Vec<Scalar>, from: usize, to: usize) -> (r: Vec<Scalar>)
    requires
        from <= to <= table.len(),
    ensures
        r@ == table@.subrange(from as int, to as int),
{
    let mut out: Vec<Scalar> = Vec::new();
    let mut i: usize = from;
    while i < to
        invariant
            from <= i <= to <= table.len(),
            out@ == table@.subrange(from as int, i as int),
        decreases to - i,
    {
        out.push(table[i]);
        i = i + 1;
        assert(out@ =~= table@.subrange(from as int, i as int));
    }
    out
}

/// The noise level at which the second stage starts.
pub open spec fn stage2_start() -> TensorView {
    level_of(0x3FED_1999_A000_0000)
}

/// The noise level at which the second stage starts.
pub fn stage2_start_sigma() -> (r: Result<Array, Failure>)
    ensures
        r matches Ok(t) ==> t@ == stage2_start(),
        r is Ok,
{
    Array::number(0x3FED_1999_A000_0000)?.to_dtype(Dtype::F32)
}

/// The second stage starts at the noise level that is put on its latents, and there is a
/// level for each of its steps and one more. With all steps it ends without noise.
pub proof fn law_stage2_levels(o: Options)
    requires
        o.acceptable(),
        o.two_stage,
    ensures
        o.stage2_levels()[0] == stage2_start(),
        o.stage2_levels().len() == o.stage2_steps + 1,
        o.stage2_steps == MAX_STAGE2_STEPS ==> o.stage2_levels().last() == level_of(ZERO),
{
    assert(!Refusal::Stage2Steps.broken_by(o));
    assert(!Refusal::DistilledStage2Steps.broken_by(o));
}

/// The levels of the second stage with a distilled adapter are those without.
pub proof fn law_distilled_tail()
    ensures
        distilled_sigmas().subrange(5, 9) == stage2_table_of(),
{
    assert(distilled_sigmas().subrange(5, 9) =~= stage2_table_of());
}

/// The latents of acceptable options stand for a video of exactly the size that was asked
/// for, and those of a first stage for half of it.
pub proof fn law_accepted_size(o: Options)
    requires
        o.acceptable(),
    ensures
        o.latent_shape(o.width, o.height).upscaled(
            (SpatioTemporalScaleFactors { time: 8, width: 32, height: 32 }),
        ) == (o.frames as int, o.height as int, o.width as int),
        o.two_stage ==> {
            let (width, height) = o.stage_size_of();
            let stage = o.latent_shape(width, height);
            let last = o.latent_shape(o.width, o.height);
            &&& 2 * stage.width == last.width
            &&& 2 * stage.height == last.height
            &&& stage.frames == last.frames
        },
{
    assert(!Refusal::Size.broken_by(o));
    assert(!Refusal::Frames.broken_by(o));
    assert(!Refusal::TwoStageSize.broken_by(o));
}

/// With sound the sampler that is used can do sound.
pub proof fn law_sampler_does_sound(o: Options, sampler: SamplerKind)
    requires
        sampler == (if o.with_audio() {
            SamplerKind::Euler
        } else {
            o.sampler
        }),
    ensures
        !(sampler == SamplerKind::Res2s && o.with_audio()),
{
}

/// The prompt for what is not wanted: none unless guidance is above one; else the one that
/// was given, else nothing or a standard one.
pub fn negative_prompt<'a>(
    cfg_scale: Scalar,
    given: Option<&'a str>,
    no_default: bool,
    default: &'a str,
) -> (r: Option<&'a str>)
    ensures
        r is Some <==> scalar::above(cfg_scale, ONE),
        r matches Some(p) ==> p@ == (match given {
            Some(g) => g@,
            None => if no_default {
                ""@
            } else {
                default@
            },
        }),
{
    if !exceeds(cfg_scale, ONE) {
        return None;
    }
    match given {
        Some(g) => Some(g),
        None => if no_default {
            Some("")
        } else {
            Some(default)
        },
    }
}

/// Why a checkpoint cannot be used.
#[derive(Clone, Copy, PartialEq, Eq, Structural, Debug)]
pub enum Unsupported {
    /// The transformer is of another kind.
    Transformer,
    /// The video decoder has no blocks.
    Decoder,
}

/// Whether a checkpoint with these configurations can be used.
pub fn check_configs(transformer: &TransformerConfig, vae: &VaeConfig) -> (r: Result<(), Unsupported>)
    ensures
        r is Ok <==> transformer.cross_attention_adaln && transformer.caption_proj_before_connector
            && vae.decoder_blocks.len() > 0,
        r == Err::<(), Unsupported>(Unsupported::Transformer) <==> !(transformer.cross_attention_adaln
            && transformer.caption_proj_before_connector),
{
    if !transformer.cross_attention_adaln || !transformer.caption_proj_before_connector {
        return Err(Unsupported::Transformer);
    }
    if vae.decoder_blocks.len() == 0 {
        return Err(Unsupported::Decoder);
    }
    Ok(())
}

/// Whether an adapter is merged: one is given, and its scale is not zero.
pub fn merges_lora(has_lora: bool, scale: Scalar) -> (r: bool)
    ensures
        r == (has_lora && !scalar::zero(scale)),
{
    has_lora && !scalar::is_zero(scale)
}

/// Whether a video is decoded in tiles: it has more latent frames than a tile.
pub fn decodes_in_tiles(no_tiling: bool, latent_frames: usize, tile: usize) -> (r: bool)
    ensures
        r == (!no_tiling && latent_frames > tile),
{
    !no_tiling && latent_frames > tile
}

} // verus!
