//! Shapes of latents and of the videos and sounds that they stand for.
use vstd::prelude::*;

use crate::array::{self, Array};
use crate::error::Failure;
use crate::model::{self, BinOp, TensorView};
use crate::scalar::{self, to_count, Scalar};

verus! {

/// How many frames, columns and rows of a video one latent position stands for.
#[derive(Clone, Copy, PartialEq, Eq, Structural, Debug)]
pub struct SpatioTemporalScaleFactors {
    pub time: usize,
    pub width: usize,
    pub height: usize,
}

impl Default for SpatioTemporalScaleFactors {
    fn default() -> (r: SpatioTemporalScaleFactors)
        ensures
            r == (SpatioTemporalScaleFactors { time: 8, width: 32, height: 32 }),
    {
        SpatioTemporalScaleFactors { time: 8, width: 32, height: 32 }
    }
}

/// The scale factors of the video decoder.
pub fn video_scale_factors() -> (r: SpatioTemporalScaleFactors)
    ensures
        r == (SpatioTemporalScaleFactors { time: 8, width: 32, height: 32 }),
{
    SpatioTemporalScaleFactors { time: 8, width: 32, height: 32 }
}

/// Shape of a video latent.
#[derive(Clone, Copy, PartialEq, Eq, Structural, Debug)]
pub struct VideoLatentShape {
    pub batch: usize,
    pub channels: usize,
    pub frames: usize,
    pub height: usize,
    pub width: usize,
}

impl VideoLatentShape {
    /// The sizes in the order of the axes.
    pub open spec fn dims(&self) -> Seq<nat> {
        seq![
            self.batch as nat,
            self.channels as nat,
            self.frames as nat,
            self.height as nat,
            self.width as nat,
        ]
    }

    /// Takes the sizes of five axes.
    pub fn from_dims(dims: &Vec<usize>) -> (r: Result<VideoLatentShape, Failure>)
        ensures
            dims.len() == 5 ==> (r matches Ok(s) && s.batch == dims[0] && s.channels == dims[1] && s.frames
                == dims[2] && s.height == dims[3] && s.width == dims[4]),
            dims.len() != 5 ==> r == Err::<VideoLatentShape, Failure>(
                Failure::Rank { expected: 5, got: dims.len() },
            ),
    {
        if dims.len() != 5 {
            return Err(Failure::Rank { expected: 5, got: dims.len() });
        }
        Ok(
            VideoLatentShape {
                batch: dims[0],
                channels: dims[1],
                frames: dims[2],
                height: dims[3],
                width: dims[4],
            },
        )
    }

    /// The sizes in the order of the axes.
    pub fn to_vec(&self) -> (r: Vec<usize>)
        ensures
            r@ == seq![self.batch, self.channels, self.frames, self.height, self.width],
            crate::model::nats(r@) == self.dims(),
    {
        let r: Vec<usize> = vec![self.batch, self.channels, self.frames, self.height, self.width];
        assert(crate::model::nats(r@) =~= self.dims());
        r
    }

    /// The shape of a mask: one channel.
    pub fn mask_shape(&self) -> (r: VideoLatentShape)
        ensures
            r == (VideoLatentShape { channels: 1, ..*self }),
    {
        VideoLatentShape {
            batch: self.batch,
            channels: 1,
            frames: self.frames,
            height: self.height,
            width: self.width,
        }
    }

    /// The latent shape of a video. The first frame has a latent frame of its own.
    pub fn from_pixel_shape(
        batch: usize,
        frames: usize,
        height: usize,
        width: usize,
        latent_channels: usize,
        scale_factors: &SpatioTemporalScaleFactors,
    ) -> (r: VideoLatentShape)
        requires
            frames >= 1,
            scale_factors.time > 0,
            scale_factors.height > 0,
            scale_factors.width > 0,
        ensures
            r.batch == batch,
            r.channels == latent_channels,
            r.frames == (frames - 1) / scale_factors.time as int + 1,
            r.height == height / scale_factors.height,
            r.width == width / scale_factors.width,
    {
        proof {
            vstd::arithmetic::div_mod::lemma_div_is_ordered_by_denominator(
                frames - 1,
                1,
                scale_factors.time as int,
            );
            vstd::arithmetic::div_mod::lemma_div_basics(frames - 1);
        }
        VideoLatentShape {
            batch,
            channels: latent_channels,
            frames: (frames - 1) / scale_factors.time + 1,
            height: height / scale_factors.height,
            width: width / scale_factors.width,
        }
    }

    /// Frames, height and width of the video.
    pub open spec fn upscaled(&self, scale_factors: SpatioTemporalScaleFactors) -> (int, int, int) {
        (
            (self.frames - 1) * scale_factors.time + 1,
            self.height * scale_factors.height,
            self.width * scale_factors.width,
        )
    }

    /// Frames, height and width of the video that a latent stands for.
    pub fn upscale(&self, scale_factors: &SpatioTemporalScaleFactors) -> (r: (usize, usize, usize))
        requires
            self.frames >= 1,
            self.upscaled(*scale_factors).0 <= usize::MAX,
            self.upscaled(*scale_factors).1 <= usize::MAX,
            self.upscaled(*scale_factors).2 <= usize::MAX,
        ensures
            (r.0 as int, r.1 as int, r.2 as int) == self.upscaled(*scale_factors),
    {
        let frames: usize = (self.frames - 1) * scale_factors.time + 1;
        let height: usize = self.height * scale_factors.height;
        let width: usize = self.width * scale_factors.width;
        (frames, height, width)
    }

    /// The number of positions in time and space.
    pub fn spatial_temporal_numel(&self) -> (r: usize)
        requires
            self.frames * self.height <= usize::MAX,
            self.frames * self.height * self.width <= usize::MAX,
        ensures
            r == self.frames * self.height * self.width,
    {
        self.frames * self.height * self.width
    }
}

/// A video whose frames number one more than a multiple of the time factor, and
/// whose height and width are multiples of theirs, has the same size after it was
/// scaled down to its latent shape and up again.
pub proof fn law_upscale_undoes_downscale(
    shape: VideoLatentShape,
    factors: SpatioTemporalScaleFactors,
    frames: usize,
    height: usize,
    width: usize,
)
    requires
        factors.time > 0,
        factors.height > 0,
        factors.width > 0,
        frames >= 1,
        (frames - 1) % (factors.time as int) == 0,
        height % factors.height == 0,
        width % factors.width == 0,
        shape.frames == (frames - 1) / factors.time as int + 1,
        shape.height == height / factors.height,
        shape.width == width / factors.width,
    ensures
        shape.upscaled(factors) == (frames as int, height as int, width as int),
{
    vstd::arithmetic::div_mod::lemma_fundamental_div_mod(frames - 1, factors.time as int);
    vstd::arithmetic::div_mod::lemma_fundamental_div_mod(height as int, factors.height as int);
    vstd::arithmetic::div_mod::lemma_fundamental_div_mod(width as int, factors.width as int);
    vstd::arithmetic::mul::lemma_mul_is_commutative(factors.time as int, (frames - 1) / factors.time as int);
    vstd::arithmetic::mul::lemma_mul_is_commutative(
        factors.height as int,
        height as int / factors.height as int,
    );
    vstd::arithmetic::mul::lemma_mul_is_commutative(
        factors.width as int,
        width as int / factors.width as int,
    );
}

/// A latent shape comes back when the video that it stands for is scaled down.
pub proof fn law_downscale_undoes_upscale(shape: VideoLatentShape, factors: SpatioTemporalScaleFactors)
    requires
        factors.time > 0,
        factors.height > 0,
        factors.width > 0,
        shape.frames >= 1,
    ensures
        (shape.upscaled(factors).0 - 1) / factors.time as int + 1 == shape.frames,
        shape.upscaled(factors).1 / factors.height as int == shape.height,
        shape.upscaled(factors).2 / factors.width as int == shape.width,
{
    vstd::arithmetic::div_mod::lemma_div_multiples_vanish(shape.frames - 1, factors.time as int);
    vstd::arithmetic::div_mod::lemma_div_multiples_vanish(shape.height as int, factors.height as int);
    vstd::arithmetic::div_mod::lemma_div_multiples_vanish(shape.width as int, factors.width as int);
    vstd::arithmetic::mul::lemma_mul_is_commutative(factors.time as int, shape.frames - 1);
    vstd::arithmetic::mul::lemma_mul_is_commutative(factors.height as int, shape.height as int);
    vstd::arithmetic::mul::lemma_mul_is_commutative(factors.width as int, shape.width as int);
}

/// Shape of an audio latent.
#[derive(Clone, Copy, PartialEq, Eq, Structural, Debug)]
pub struct AudioLatentShape {
    pub batch: usize,
    pub channels: usize,
    pub frames: usize,
    pub mel_bins: usize,
}

impl AudioLatentShape {
    /// The sizes in the order of the axes.
    pub open spec fn dims(&self) -> Seq<nat> {
        seq![self.batch as nat, self.channels as nat, self.frames as nat, self.mel_bins as nat]
    }

    /// Takes the sizes of four axes.
    pub fn from_dims(dims: &Vec<usize>) -> (r: Result<AudioLatentShape, Failure>)
        ensures
            dims.len() == 4 ==> (r matches Ok(s) && s.batch == dims[0] && s.channels == dims[1] && s.frames
                == dims[2] && s.mel_bins == dims[3]),
            dims.len() != 4 ==> r == Err::<AudioLatentShape, Failure>(
                Failure::Rank { expected: 4, got: dims.len() },
            ),
    {
        if dims.len() != 4 {
            return Err(Failure::Rank { expected: 4, got: dims.len() });
        }
        Ok(AudioLatentShape { batch: dims[0], channels: dims[1], frames: dims[2], mel_bins: dims[3] })
    }

    /// The sizes in the order of the axes.
    pub fn to_vec(&self) -> (r: Vec<usize>)
        ensures
            r@ == seq![self.batch, self.channels, self.frames, self.mel_bins],
            crate::model::nats(r@) == self.dims(),
    {
        let r: Vec<usize> = vec![self.batch, self.channels, self.frames, self.mel_bins];
        assert(crate::model::nats(r@) =~= self.dims());
        r
    }

    /// The shape of a mask: one channel and one frequency bin.
    pub fn mask_shape(&self) -> (r: AudioLatentShape)
        ensures
            r == (AudioLatentShape { channels: 1, mel_bins: 1, ..*self }),
    {
        AudioLatentShape { batch: self.batch, channels: 1, frames: self.frames, mel_bins: 1 }
    }

    /// The latent shape of a sound of so many samples: the whole ones count, and none of a number
    /// below zero.
    pub fn from_samples(
        batch: usize,
        samples: Scalar,
        channels: usize,
        mel_bins: usize,
        hop_length: usize,
        audio_latent_downsample_factor: usize,
    ) -> (r: AudioLatentShape)
        requires
            hop_length > 0,
            audio_latent_downsample_factor > 0,
        ensures
            r == audio_shape_of(
                batch,
                scalar::count_of(samples),
                channels,
                mel_bins,
                hop_length,
                audio_latent_downsample_factor,
            ),
    {
        AudioLatentShape {
            batch,
            channels,
            frames: to_count(samples) / hop_length / audio_latent_downsample_factor,
            mel_bins,
        }
    }

    /// The latent shape of a sound that lasts `duration_secs` seconds.
    pub fn from_duration(
        batch: usize,
        duration_secs: Scalar,
        channels: usize,
        mel_bins: usize,
        sample_rate: usize,
        hop_length: usize,
        audio_latent_downsample_factor: usize,
    ) -> (r: Result<AudioLatentShape, Failure>)
        requires
            hop_length > 0,
            audio_latent_downsample_factor > 0,
        ensures
            r matches Ok(s) && exists|samples: Scalar| #[trigger]
                array::can_read(samples_of(
                    model::number(duration_secs),
                    sample_rate as nat,
                ), samples) && s == audio_shape_of(
                    batch,
                    scalar::count_of(samples),
                    channels,
                    mel_bins,
                    hop_length,
                    audio_latent_downsample_factor,
                ),
    {
        let duration = Array::number(duration_secs)?;
        let samples: Scalar = duration.broadcast(BinOp::Times, &Array::count(sample_rate)?)?.to_number()?;
        Ok(
            AudioLatentShape::from_samples(
                batch,
                samples,
                channels,
                mel_bins,
                hop_length,
                audio_latent_downsample_factor,
            ),
        )
    }

    /// The latent shape of a sound that lasts as long as a video.
    pub fn from_video_frames(
        batch: usize,
        video_frames: usize,
        fps: Scalar,
        channels: usize,
        mel_bins: usize,
        sample_rate: usize,
        hop_length: usize,
        audio_latent_downsample_factor: usize,
    ) -> (r: Result<AudioLatentShape, Failure>)
        requires
            hop_length > 0,
            audio_latent_downsample_factor > 0,
        ensures
            r matches Ok(s) && exists|samples: Scalar| #[trigger]
                array::can_read(samples_of(
                    model::binary(BinOp::Over, model::count(video_frames as nat), model::number(fps)),
                    sample_rate as nat,
                ), samples) && s == audio_shape_of(
                    batch,
                    scalar::count_of(samples),
                    channels,
                    mel_bins,
                    hop_length,
                    audio_latent_downsample_factor,
                ),
    {
        let duration = Array::count(video_frames)?.pairwise(BinOp::Over, &Array::number(fps)?)?;
        let samples: Scalar = duration.broadcast(BinOp::Times, &Array::count(sample_rate)?)?.to_number()?;
        Ok(
            AudioLatentShape::from_samples(
                batch,
                samples,
                channels,
                mel_bins,
                hop_length,
                audio_latent_downsample_factor,
            ),
        )
    }
}

/// How many samples there are in `duration` seconds.
pub open spec fn samples_of(duration: TensorView, sample_rate: nat) -> TensorView {
    model::binary(BinOp::Times, duration, model::count(sample_rate))
}

/// The latent shape of a sound of `samples` samples.
pub open spec fn audio_shape_of(
    batch: usize,
    samples: int,
    channels: usize,
    mel_bins: usize,
    hop_length: usize,
    factor: usize,
) -> AudioLatentShape {
    AudioLatentShape {
        batch,
        channels,
        frames: (samples / hop_length as int / factor as int) as usize,
        mel_bins,
    }
}

/// Shape of a video.
#[derive(Clone, Copy, PartialEq, Eq, Structural, Debug)]
pub struct VideoPixelShape {
    pub batch: usize,
    pub frames: usize,
    pub height: usize,
    pub width: usize,
    /// Frames per second.
    pub fps: Scalar,
}

} // verus!
