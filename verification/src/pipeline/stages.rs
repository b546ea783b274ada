//! What happens before, between and behind the loops that take the noise out.
use vstd::prelude::*;

use crate::array::{self, Array};
use crate::base::config::BlockSettings;
use crate::base::patchify::{self, get_pixel_coords, VideoLatentPatchifier};
use crate::base::statistics::PerChannelStatistics;
use crate::base::types::{SpatioTemporalScaleFactors, VideoLatentShape};
use crate::error::Failure;
use crate::lemmas;
use crate::model::{self, Dtype, TensorView, UnOp};
use crate::pipeline::denoise::{self, add_noise_at_sigma};
use crate::pipeline::options::{self, decodes_in_tiles, Options, LATENT_CHANNELS};
use crate::scalar::{Scalar, ZERO};
use crate::scheduler::{diffusion_step, guiders};
use crate::text_encoder::encoder::{AVGemmaEncoderOutput, AVGemmaTextEncoder};
use crate::video_vae::decoder::{BlockStyle, VideoDecoder};
use crate::video_vae::sizes;
use crate::video_vae::upsampler::LatentUpsampler;
use crate::weights::WeightsView;

verus! {

/// Positions with their frames in seconds: times `1 / fps`.
pub open spec fn seconds_of(positions: TensorView, fps: Scalar) -> TensorView {
    let time = model::affine(
        model::narrow(positions, 1, 0, 1),
        model::unary(UnOp::Recip, model::number(fps)),
        model::number(ZERO),
    );
    model::cat(seq![time, model::narrow(positions, 1, 1, 2)], 1)
}

/// Turns the frames of positions `(B, 3, T, 2)` into seconds.
pub fn video_positions_in_seconds(positions: &Array, fps: Scalar) -> (r: Result<Array, Failure>)
    ensures
        r matches Ok(t) ==> t@ == seconds_of(positions@, fps),
        positions.on_cpu() && positions@.dtype.float() && positions@.rank() > 1 && positions@.dims[1] == 3
            && model::fits(positions@.dims) ==> r is Ok,
{
    proof {
        lemmas::lemma_narrow_dims(positions@, 1, 0, 1);
        lemmas::lemma_narrow_dims(positions@, 1, 1, 2);
    }
    let time = positions.narrow(1, 0, 1)?.scale_by(&Array::number(fps)?.unary(UnOp::Recip)?)?;
    let spatial = positions.narrow(1, 1, 2)?;
    proof {
        lemmas::lemma_rejoined(positions@.dims, time@, spatial@);
    }
    Array::join(time, spatial, 1)
}

/// Where the tokens of a video latent lie, in seconds and pixels.
pub open spec fn video_positions_of(patch: nat, shape: VideoLatentShape, fps: Scalar) -> TensorView {
    seconds_of(
        patchify::pixel_coords_of(
            patchify::video_bounds_of(patch, shape),
            SpatioTemporalScaleFactors { time: 8, width: 32, height: 32 },
            true,
        ),
        fps,
    )
}

/// Where the tokens of a video latent lie, in seconds and pixels.
pub fn make_video_positions(
    patchifier: &VideoLatentPatchifier,
    shape: &VideoLatentShape,
    fps: Scalar,
    device: &candle_core::Device,
) -> (r: Result<Array, Failure>)
    requires
        patchifier.patch_size > 0,
    ensures
        r matches Ok(t) ==> t@ == video_positions_of(patchifier.patch_size as nat, *shape, fps),
        array::is_main_memory(*device) && patchifier.has_grid(*shape) ==> r is Ok,
{
    let bounds = patchifier.get_patch_grid_bounds(shape, device)?;
    let factors = SpatioTemporalScaleFactors { time: 8, width: 32, height: 32 };
    video_positions_in_seconds(&get_pixel_coords(&bounds, &factors, true)?, fps)
}

/// The encodings of what is wanted and of what is not.
pub fn encode_prompts(encoder: &AVGemmaTextEncoder, prompt: &str, negative: Option<&str>) -> (r: Result<
    (AVGemmaEncoderOutput, Option<AVGemmaEncoderOutput>),
    Failure,
>)
    ensures
        r matches Ok(e) ==> encoder.encodes(prompt@, e.0),
        r matches Ok(e) ==> (e.1 is Some) == (negative is Some),
        r matches Ok(e) ==> (e.1 matches Some(n) ==> encoder.encodes(negative->0@, n)),
        forall|hidden: (nat, nat)| #[trigger]
            encoder.answers(prompt@, hidden) && (negative matches Some(n) ==> encoder.answers(n@, hidden)) ==> r is Ok,
{
    let pos = encoder.forward(prompt)?;
    let neg = match negative {
        Some(text) => Some(encoder.forward(text)?),
        None => None,
    };
    Ok((pos, neg))
}

/// A latent between the two stages.
pub struct Upscaled {
    /// The latent of the first stage: `(B, C, F, H, W)`.
    pub stage_latent: Array,
    /// The latent of twice the height and width.
    pub upsampled: Array,
    /// Its tokens.
    pub tokens: Array,
}

/// The latent of a first stage with twice the height and width. The upsampler gets it with
/// its statistics undone.
pub open spec fn upsampled_of(stats: PerChannelStatistics, upsampler: LatentUpsampler, latent: TensorView) -> TensorView {
    stats.normalized(upsampler.apply(stats.denormalized(latent)))
}

/// Makes the latent of the second stage from the tokens of the first.
pub fn upscale_latent(
    patchifier: &VideoLatentPatchifier,
    tokens: &Array,
    shape: &VideoLatentShape,
    stats: &PerChannelStatistics,
    upsampler: &LatentUpsampler,
    dtype: Dtype,
) -> (r: Result<Upscaled, Failure>)
    requires
        patchifier.patch_size > 0,
    ensures
        r matches Ok(u) ==> {
            let p = patchifier.patch_size as nat;
            let latent = model::cast(patchify::unpatchify_of(tokens@, p, *shape), dtype);
            &&& u.stage_latent@ == latent
            &&& u.upsampled@ == upsampled_of(*stats, *upsampler, latent)
            &&& u.tokens@ == patchify::patchify_of(u.upsampled@, p)
        },
        tokens@.rank() != 3 ==> r == Err::<Upscaled, Failure>(
            Failure::Rank { expected: 3, got: tokens@.rank() as usize },
        ),
        ({
            let p = patchifier.patch_size as nat;
            let small = patchify::unpatchify_of(tokens@, p, *shape).dims;
            let large = upsampler.dims_out(small);
            tokens.usable() && patchifier.are_tokens(tokens@, *shape) && dtype == Dtype::F32 && stats.covers_shape(small)
                && upsampler.accepts_shape(small) && stats.covers_shape(large) && model::numel(large) > 0 && large[3] % p
                == 0 && large[4] % p == 0
        }) ==> r is Ok,
{
    let stage_latent = patchifier.unpatchify(tokens, shape)?.to_dtype(dtype)?;
    let upsampled = stats.normalize(&upsampler.forward(&stats.denormalize(&stage_latent)?)?)?;
    let tokens = patchifier.patchify(&upsampled)?;
    Ok(Upscaled { stage_latent, upsampled, tokens })
}

/// Puts noise on the latents of both streams before the second stage. A stream without a
/// latent, or for which there is no noise, stays.
pub fn renoise(video: &Array, video_noise: &Array, audio: Option<Array>, audio_noise: Option<&Array>, sigma: &Array) -> (r:
    Result<(Array, Option<Array>), Failure>)
    ensures
        r matches Ok(l) ==> l.0@ == denoise::noised_of(video@, video_noise@, sigma@),
        r matches Ok(l) ==> array::opt_view(l.1) == (match (audio, audio_noise) {
            (Some(a), Some(n)) => Some(denoise::noised_of(a@, n@, sigma@)),
            (a, _) => array::opt_view(a),
        }),
        diffusion_step::is_level(*sigma) && guiders::matching(video, video_noise) && (audio matches Some(a)
            ==> audio_noise matches Some(n) ==> guiders::matching(&a, n)) ==> r is Ok,
{
    let v = add_noise_at_sigma(video, video_noise, sigma)?;
    let a = match (audio, audio_noise) {
        (Some(latent), Some(noise)) => Some(add_noise_at_sigma(&latent, noise, sigma)?),
        (a, _) => a,
    };
    Ok((v, a))
}

/// Decodes a video latent, in tiles where it is longer than a tile.
pub fn decode_video(decoder: &VideoDecoder, latent: &Array, no_tiling: bool, tile: usize, overlap: usize) -> (r: Result<
    Array,
    Failure,
>)
    ensures
        r matches Ok(t) ==> latent@.rank() > 2,
        r matches Ok(t) ==> if !no_tiling && latent@.dims[2] > tile {
            exists|noises: Seq<TensorView>| #[trigger]
                decoder.fit_as_noises(noises, latent@, tile as nat, overlap as nat) && t@ == decoder.tiled(
                    latent@,
                    None,
                    tile as nat,
                    overlap as nat,
                    noises,
                )
        } else {
            exists|noise: TensorView| #[trigger]
                decoder.fits_as_noise(noise, latent@) && t@ == decoder.apply(latent@, None, noise)
        },
        latent@.rank() <= 2 ==> r == Err::<Array, Failure>(Failure::Shape),
        latent@.rank() == 5 && !no_tiling && latent@.dims[2] > tile && tile < 2 ==> r == Err::<Array, Failure>(
            Failure::TileLength { frames: tile },
        ),
        latent@.rank() == 5 && !no_tiling && latent@.dims[2] > tile && tile >= 2 && (overlap == 0 || overlap
            >= tile) ==> r == Err::<Array, Failure>(Failure::TileOverlap { overlap }),
        latent@.rank() == 5 && (if !no_tiling && latent@.dims[2] > tile {
            decoder.decodes_tiled(latent, None, tile as nat, overlap as nat)
        } else {
            decoder.decodes_at(latent, None)
        }) ==> r is Ok,
{
    let frames: usize = latent.dim(2)?;
    if decodes_in_tiles(no_tiling, frames, tile) {
        decoder.forward_temporal_tiled(latent, None, tile, overlap)
    } else {
        decoder.forward(latent, None)
    }
}

/// Between the stages latents get the size that the second stage and the video need.
pub proof fn law_upscaled_size(
    o: Options,
    stats: PerChannelStatistics,
    upsampler: LatentUpsampler,
    latent: TensorView,
    mid_channels: nat,
    blocks: nat,
    vb: WeightsView,
)
    requires
        o.acceptable(),
        o.two_stage,
        stats.mean@.dims == seq![1, LATENT_CHANNELS as nat, 1, 1, 1],
        stats.std@.dims == seq![1, LATENT_CHANNELS as nat, 1, 1, 1],
        upsampler.loaded(mid_channels, blocks, vb),
        LatentUpsampler::present(LATENT_CHANNELS as nat, mid_channels, blocks, vb),
        latent.dims == o.latent_shape(o.stage_size_of().0, o.stage_size_of().1).dims(),
    ensures
        upsampled_of(stats, upsampler, latent).dims == o.latent_shape(o.width, o.height).dims(),
{
    options::law_accepted_size(o);
    sizes::lemma_statistics_dims(stats, latent, LATENT_CHANNELS as nat);
    sizes::law_upsampled_size(
        upsampler,
        stats.denormalized(latent),
        LATENT_CHANNELS as nat,
        mid_channels,
        blocks,
        vb,
    );
    sizes::lemma_statistics_dims(stats, upsampler.apply(stats.denormalized(latent)), LATENT_CHANNELS as nat);
    assert(upsampled_of(stats, upsampler, latent).dims =~= o.latent_shape(o.width, o.height).dims());
}

/// The video has exactly the number of frames, the height and the width that were asked
/// for, decoded at once or in tiles, where the decoder makes eight frames of a latent frame
/// and 32 pixels of a latent pixel.
pub proof fn law_video_has_asked_size(
    o: Options,
    d: VideoDecoder,
    latent: TensorView,
    noise: TensorView,
    tile: nat,
    overlap: nat,
    noises: Seq<TensorView>,
    out_channels: nat,
    blocks: Seq<(String, BlockSettings)>,
    style: BlockStyle,
    stats_vb: WeightsView,
    vb: WeightsView,
)
    requires
        o.acceptable(),
        d.loaded(LATENT_CHANNELS as nat, blocks, d.patch_size, d.causal, style, stats_vb, vb),
        VideoDecoder::present(
            LATENT_CHANNELS as nat,
            out_channels,
            blocks,
            d.patch_size as nat,
            style,
            stats_vb,
            vb,
        ),
        sizes::time_scale(blocks, blocks.len()) == 8,
        sizes::space_scale(blocks, blocks.len()) * d.patch_size == 32,
        latent.dims == o.latent_shape(o.width, o.height).dims(),
        d.fits_as_noise(noise, latent),
        latent.dims[2] > tile ==> 0 < overlap < tile,
        d.fit_as_noises(noises, latent, tile, overlap),
    ensures
        d.apply(latent, None, noise).dims == seq![
            1,
            out_channels,
            o.frames as nat,
            o.height as nat,
            o.width as nat,
        ],
        d.tiled(latent, None, tile, overlap, noises).dims == seq![
            1,
            out_channels,
            o.frames as nat,
            o.height as nat,
            o.width as nat,
        ],
{
    options::law_accepted_size(o);
    let s = sizes::space_scale(blocks, blocks.len());
    let p = d.patch_size as nat;
    assert(p > 0) by (nonlinear_arith)
        requires
            s * p == 32,
    ;
    assert(s * latent.dims[3] * p == 32 * latent.dims[3] && s * latent.dims[4] * p == 32 * latent.dims[4])
        by (nonlinear_arith)
        requires
            s * p == 32,
    ;
    let c = LATENT_CHANNELS as nat;
    sizes::law_decoded_size(d, latent, None, noise, c, out_channels, blocks, style, stats_vb, vb);
    sizes::law_tiled_size(d, latent, None, tile, overlap, noises, c, out_channels, blocks, style, stats_vb, vb);
}

} // verus!
