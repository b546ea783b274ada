//! The sound decoder.
use vstd::prelude::*;

use crate::array::Array;
use crate::audio_vae::attention::AttnBlock;
use crate::audio_vae::causal_conv2d::{CausalConv2d, CausalityAxis};
use crate::audio_vae::resnet::ResnetBlock2d;
use crate::audio_vae::upsample::Upsample2d;
use crate::base::config::NORM_EPS;
use crate::error::Failure;
use crate::lemmas;
use crate::model::{self, BinOp, Dtype, TensorView};
use crate::nn::activation::{self, silu};
use crate::nn::pixel_norm::PixelNorm;
use crate::weights::{self, Weights, WeightsView};

verus! {

/// How many frames of a spectrogram one frame of latents stands for.
pub const LATENT_DOWNSAMPLE_FACTOR: usize = 4;

/// Mean and standard deviation of each channel at each frequency.
pub struct AudioPerChannelStatistics {
    pub mean: Array,
    pub std: Array,
}

impl AudioPerChannelStatistics {
    /// Whether these are the statistics that a checkpoint holds.
    pub open spec fn loaded(&self, vb: WeightsView) -> bool {
        self.mean@ == vb.get("mean-of-means"@) && self.std@ == vb.get("std-of-means"@)
    }

    /// Whether a checkpoint holds so many statistics.
    pub open spec fn present(latent_channels: nat, vb: WeightsView) -> bool {
        vb.holds("mean-of-means"@, seq![latent_channels]) && vb.holds("std-of-means"@, seq![latent_channels])
    }

    pub fn from_vb(latent_channels: usize, vb: &Weights) -> (r: Result<AudioPerChannelStatistics, Failure>)
        ensures
            r matches Ok(s) ==> s.loaded(vb@),
            r is Ok ==> AudioPerChannelStatistics::present(latent_channels as nat, vb@),
            vb@.sound() && AudioPerChannelStatistics::present(latent_channels as nat, vb@) ==> r is Ok,
    {
        let mean = vb.get1(latent_channels, "mean-of-means")?;
        let std = vb.get1(latent_channels, "std-of-means")?;
        Ok(AudioPerChannelStatistics { mean, std })
    }

    /// `x * std + mean` for each channel and frequency.
    pub open spec fn denormalized(&self, x: TensorView) -> TensorView {
        let (b, c, t, f) = (x.dims[0], x.dims[1], x.dims[2], x.dims[3]);
        let tokens = model::reshape(model::permute(x, seq![0, 2, 1, 3]), seq![b, t, c * f]);
        let scaled = model::binary(BinOp::Times, tokens, model::cast(self.std@, x.dtype));
        let shifted = model::binary(BinOp::Plus, scaled, model::cast(self.mean@, x.dtype));
        model::permute(model::reshape(shifted, seq![b, t, c, f]), seq![0, 2, 1, 3])
    }

    /// Whether latents in main memory, with floating-point elements, have as many channels and
    /// frequencies as there are statistics of.
    pub open spec fn covers(&self, x: &Array) -> bool {
        &&& x.on_cpu() && x@.dtype.float() && x@.rank() == 4
        &&& model::numel(x@.dims) > 0 && model::fits(x@.dims)
        &&& self.mean.usable() && self.mean@.dims == seq![x@.dims[1] * x@.dims[3]]
        &&& self.std.usable() && self.std@.dims == seq![x@.dims[1] * x@.dims[3]]
    }

    /// Undoes the normalisation of latents `(B, C, T, F)`.
    pub fn denormalize(&self, x: &Array) -> (r: Result<Array, Failure>)
        ensures
            r matches Ok(t) ==> t@ == self.denormalized(x@),
            r is Ok ==> x@.rank() == 4,
            x@.rank() != 4 ==> r == Err::<Array, Failure>(
                Failure::Rank { expected: 4, got: x@.rank() as usize },
            ),
            self.covers(x) ==> (r matches Ok(t) && t.on_cpu() && t@.dims == x@.dims && t@.dtype == x@.dtype),
    {
        let ghost fine = self.covers(x);
        let ghost (nb, nc, nt, nf) = (x@.dims[0], x@.dims[1], x@.dims[2], x@.dims[3]);
        proof {
            lemmas::lemma_permute_dims(x@, seq![0, 2, 1, 3]);
            if fine {
                let w = nc * nf;
                assert(x@.dims =~= seq![nb, nc, nt, nf]);
                lemmas::lemma_numel4(nb, nc, nt, nf);
                lemmas::lemma_numel4(nb, nt, nc, nf);
                lemmas::lemma_numel3(nb, nt, w);
                assert(nb * nc * nt * nf == nb * nt * nc * nf && nb * nt * nc * nf == nb * nt * (nc * nf))
                    by (nonlinear_arith);
                lemmas::lemma_room(seq![nb, nt, w], x@.dims);
                lemmas::lemma_room(seq![nb, nt, nc, nf], x@.dims);
                lemmas::lemma_extent_is_numel(x@.dims);
                lemmas::lemma_factors(nb, nt, w);
                lemmas::lemma_last_spreads(seq![nb, nt, w], w);
            }
        }
        let (b, c, t, f) = x.dims4()?;
        let width: usize = match c.checked_mul(f) {
            Some(n) => n,
            None => {
                return Err(Failure::Overflow);
            },
        };
        let patched = x.permute4(0, 2, 1, 3)?.contiguous()?;
        assert(fine ==> patched@.dims =~= seq![nb, nt, nc, nf]);
        assert(patched@.dtype == x@.dtype) by {
            reveal(model::permute);
        }
        let patched = patched.reshape3(b, t, width)?;
        let std = self.std.to_dtype(patched.dtype())?;
        let mean = self.mean.to_dtype(patched.dtype())?;
        let denormed = patched.broadcast(BinOp::Times, &std)?.broadcast(BinOp::Plus, &mean)?;
        let tokens = denormed.reshape4(b, t, c, f)?;
        proof {
            lemmas::lemma_permute_dims(tokens@, seq![0, 2, 1, 3]);
            if fine {
                assert(model::permute(tokens@, seq![0, 2, 1, 3]).dims =~= x@.dims);
            }
        }
        tokens.permute4(0, 2, 1, 3)?.contiguous()
    }
}

/// The residual blocks of one resolution, and the doubling behind them.
pub struct UpLevel {
    pub blocks: Vec<ResnetBlock2d>,
    pub upsample: Option<Upsample2d>,
}

impl UpLevel {
    /// Whether this is the level that a checkpoint holds: `count` blocks, the first of
    /// which changes the number of channels.
    pub open spec fn loaded(
        &self,
        level: nat,
        block_in: nat,
        block_out: nat,
        count: nat,
        axis: CausalityAxis,
        vb: WeightsView,
    ) -> bool {
        &&& self.blocks@.len() == count
        &&& forall|i: int|
            0 <= i < count ==> (#[trigger] self.blocks@[i]).loaded(
                if i == 0 {
                    block_in
                } else {
                    block_out
                },
                block_out,
                axis,
                vb.pp("block"@).at(i as nat),
            )
        &&& (level != 0) == self.upsample is Some
        &&& self.upsample matches Some(u) ==> u.loaded(axis, vb.pp("upsample"@))
    }

    /// Whether a checkpoint holds a level of these sizes.
    pub open spec fn present(level: nat, block_in: nat, block_out: nat, count: nat, vb: WeightsView) -> bool {
        &&& forall|i: nat|
            i < count ==> ResnetBlock2d::present(
                if i == 0 {
                    block_in
                } else {
                    block_out
                },
                block_out,
                #[trigger] vb.pp("block"@).at(i),
            )
        &&& level != 0 ==> CausalConv2d::present(block_out, block_out, 3, 1, vb.pp("upsample"@).pp("conv"@))
    }

    /// `x` after the first `n` blocks.
    pub open spec fn after_blocks(&self, x: TensorView, n: nat) -> TensorView
        decreases n,
    {
        if n == 0 {
            x
        } else {
            self.blocks@[n - 1].apply(self.after_blocks(x, (n - 1) as nat))
        }
    }

    /// What the level computes from `x`.
    pub open spec fn apply(&self, x: TensorView) -> TensorView {
        let h = self.after_blocks(x, self.blocks@.len());
        match self.upsample {
            Some(u) => u.apply(h),
            None => h,
        }
    }

    fn load(
        level: usize,
        block_in: usize,
        block_out: usize,
        count: usize,
        axis: CausalityAxis,
        vb: &Weights,
    ) -> (r: Result<UpLevel, Failure>)
        requires
            count > 0,
        ensures
            r matches Ok(l) ==> l.loaded(
                level as nat,
                block_in as nat,
                block_out as nat,
                count as nat,
                axis,
                vb@,
            ),
            r is Ok ==> UpLevel::present(
                level as nat,
                block_in as nat,
                block_out as nat,
                count as nat,
                vb@,
            ),
            vb@.sound() && UpLevel::present(
                level as nat,
                block_in as nat,
                block_out as nat,
                count as nat,
                vb@,
            ) ==> r is Ok,
    {
        let mut blocks: Vec<ResnetBlock2d> = Vec::new();
        let blocks_vb = vb.pp("block");
        let mut width: usize = block_in;
        let mut i: usize = 0;
        while i < count
            invariant
                i <= count,
                blocks_vb@ == vb@.pp("block"@),
                width == (if i == 0 { block_in } else { block_out }),
                blocks@.len() == i,
                forall|k: int|
                    0 <= k < i ==> (#[trigger] blocks@[k]).loaded(
                        if k == 0 {
                            block_in as nat
                        } else {
                            block_out as nat
                        },
                        block_out as nat,
                        axis,
                        vb@.pp("block"@).at(k as nat),
                    ),
                forall|k: nat|
                    k < i ==> ResnetBlock2d::present(
                        if k == 0 {
                            block_in as nat
                        } else {
                            block_out as nat
                        },
                        block_out as nat,
                        #[trigger] vb@.pp("block"@).at(k),
                    ),
            decreases count - i,
        {
            blocks.push(ResnetBlock2d::new(width, block_out, axis, &blocks_vb.at(i))?);
            width = block_out;
            i = i + 1;
        }
        let upsample = if level != 0 {
            Some(Upsample2d::new(width, axis, &vb.pp("upsample"))?)
        } else {
            None
        };
        Ok(UpLevel { blocks, upsample })
    }

    /// The shape of what stands behind the first `n` blocks.
    pub open spec fn dims_after(&self, d: Seq<nat>, n: nat) -> Seq<nat>
        decreases n,
    {
        if n == 0 {
            d
        } else {
            self.blocks@[n - 1].dims_out(self.dims_after(d, (n - 1) as nat))
        }
    }

    /// The shape of what the level computes.
    pub open spec fn dims_out(&self, d: Seq<nat>) -> Seq<nat> {
        let last = self.dims_after(d, self.blocks@.len());
        match self.upsample {
            Some(u) => u.dims_out(last),
            None => last,
        }
    }

    /// Whether the level can be computed from an array of this shape, in main memory and in
    /// single precision.
    pub open spec fn accepts_shape(&self, d: Seq<nat>) -> bool {
        &&& forall|i: int|
            0 <= i < self.blocks@.len() ==> (#[trigger] self.blocks@[i]).accepts_shape(self.dims_after(d, i as nat))
        &&& self.upsample matches Some(u) ==> u.accepts_shape(self.dims_after(d, self.blocks@.len()))
    }

    pub fn forward(&self, x: &Array) -> (r: Result<Array, Failure>)
        ensures
            r matches Ok(t) ==> t@ == self.apply(x@),
            x.on_cpu() && x@.dtype == Dtype::F32 && self.accepts_shape(x@.dims) ==> (r matches Ok(t) && t.on_cpu()
                && t@.dtype == Dtype::F32 && t@.dims == self.dims_out(x@.dims)),
    {
        let ghost fine = x.on_cpu() && x@.dtype == Dtype::F32 && self.accepts_shape(x@.dims);
        let mut h = x.clone();
        let mut i: usize = 0;
        while i < self.blocks.len()
            invariant
                i <= self.blocks.len(),
                h@ == self.after_blocks(x@, i as nat),
                fine == (x.on_cpu() && x@.dtype == Dtype::F32 && self.accepts_shape(x@.dims)),
                fine ==> h.on_cpu() && h@.dtype == Dtype::F32 && h@.dims == self.dims_after(x@.dims, i as nat),
            decreases self.blocks.len() - i,
        {
            assert(fine ==> self.blocks@[i as int].accepts_shape(self.dims_after(x@.dims, i as nat)));
            h = self.blocks[i].forward(&h)?;
            i = i + 1;
        }
        match &self.upsample {
            Some(u) => u.forward(&h),
            None => Ok(h),
        }
    }
}

/// The blocks between the first convolution and the levels.
pub struct MidBlock {
    pub block_1: ResnetBlock2d,
    pub attn_1: Option<AttnBlock>,
    pub block_2: ResnetBlock2d,
}

impl MidBlock {
    /// Whether these are the blocks that a checkpoint holds. There is attention where the
    /// checkpoint has its weights.
    pub open spec fn loaded(&self, channels: nat, axis: CausalityAxis, vb: WeightsView) -> bool {
        &&& self.block_1.loaded(channels, channels, axis, vb.pp("block_1"@))
        &&& self.block_2.loaded(channels, channels, axis, vb.pp("block_2"@))
        &&& self.attn_1 is Some == vb.pp("attn_1"@).pp("q"@).has("weight"@)
        &&& self.attn_1 matches Some(a) ==> a.loaded(vb.pp("attn_1"@))
    }

    /// Whether a checkpoint holds blocks of this size.
    pub open spec fn present(channels: nat, vb: WeightsView) -> bool {
        &&& ResnetBlock2d::present(channels, channels, vb.pp("block_1"@))
        &&& ResnetBlock2d::present(channels, channels, vb.pp("block_2"@))
        &&& vb.pp("attn_1"@).pp("q"@).has("weight"@) ==> AttnBlock::present(channels, vb.pp("attn_1"@))
    }

    fn load(channels: usize, axis: CausalityAxis, vb: &Weights) -> (r: Result<MidBlock, Failure>)
        ensures
            r matches Ok(m) ==> m.loaded(channels as nat, axis, vb@),
            r is Ok ==> MidBlock::present(channels as nat, vb@),
            vb@.sound() && MidBlock::present(channels as nat, vb@) ==> r is Ok,
    {
        let block_1 = ResnetBlock2d::new(channels, channels, axis, &vb.pp("block_1"))?;
        let attn_1 = if vb.pp("attn_1").pp("q").contains_tensor("weight") {
            Some(AttnBlock::new(channels, &vb.pp("attn_1"))?)
        } else {
            None
        };
        let block_2 = ResnetBlock2d::new(channels, channels, axis, &vb.pp("block_2"))?;
        Ok(MidBlock { block_1, attn_1, block_2 })
    }

    /// What the blocks compute from `x`.
    pub open spec fn apply(&self, x: TensorView) -> TensorView {
        let h = self.block_1.apply(x);
        let h = match self.attn_1 {
            Some(a) => a.apply(h),
            None => h,
        };
        self.block_2.apply(h)
    }

    /// The shape of what the blocks compute.
    pub open spec fn dims_out(&self, d: Seq<nat>) -> Seq<nat> {
        self.block_2.dims_out(self.block_1.dims_out(d))
    }

    /// Whether the blocks can be computed from an array of this shape, in main memory and in
    /// single precision.
    pub open spec fn accepts_shape(&self, d: Seq<nat>) -> bool {
        &&& self.block_1.accepts_shape(d)
        &&& self.attn_1 matches Some(a) ==> a.keeps_shape(self.block_1.dims_out(d))
        &&& self.block_2.accepts_shape(self.block_1.dims_out(d))
    }

    pub fn forward(&self, x: &Array) -> (r: Result<Array, Failure>)
        ensures
            r matches Ok(t) ==> t@ == self.apply(x@),
            x.on_cpu() && x@.dtype == Dtype::F32 && self.accepts_shape(x@.dims) ==> (r matches Ok(t) && t.on_cpu()
                && t@.dtype == Dtype::F32 && t@.dims == self.dims_out(x@.dims)),
    {
        let h = self.block_1.forward(x)?;
        let h = match &self.attn_1 {
            Some(attn) => attn.forward(&h)?,
            None => h,
        };
        self.block_2.forward(&h)
    }
}

/// Decodes sound latents `(B, C, T, F)` into a spectrogram.
pub struct AudioDecoder {
    pub per_channel_statistics: AudioPerChannelStatistics,
    pub conv_in: CausalConv2d,
    pub mid: MidBlock,
    /// From the coarsest level to the finest.
    pub up_levels: Vec<UpLevel>,
    pub norm_out: PixelNorm,
    pub conv_out: CausalConv2d,
    pub out_ch: usize,
    pub causality_axis: CausalityAxis,
    pub mel_bins: Option<usize>,
}

/// The number of channels of a level.
pub open spec fn level_width(ch: nat, ch_mult: Seq<usize>, level: int) -> nat {
    ch * ch_mult[level] as nat
}

/// The number of channels in front of a level: that of the level above, and for the
/// coarsest level its own.
pub open spec fn width_before(ch: nat, ch_mult: Seq<usize>, level: int) -> nat {
    if level + 1 < ch_mult.len() {
        level_width(ch, ch_mult, level + 1)
    } else {
        level_width(ch, ch_mult, level)
    }
}

/// Whether level `k` of the path, counted from the coarsest, is the one that a checkpoint
/// holds.
pub open spec fn level_loaded(
    l: UpLevel,
    k: int,
    ch: nat,
    ch_mult: Seq<usize>,
    num_res_blocks: nat,
    axis: CausalityAxis,
    vb: WeightsView,
) -> bool {
    let level = ch_mult.len() - 1 - k;
    l.loaded(
        level as nat,
        width_before(ch, ch_mult, level),
        level_width(ch, ch_mult, level),
        num_res_blocks + 1,
        axis,
        vb.at(level as nat),
    )
}

/// Whether a checkpoint holds level `k` of the path, counted from the coarsest.
pub open spec fn level_present(k: int, ch: nat, ch_mult: Seq<usize>, num_res_blocks: nat, vb: WeightsView) -> bool {
    let level = ch_mult.len() - 1 - k;
    UpLevel::present(
        level as nat,
        width_before(ch, ch_mult, level),
        level_width(ch, ch_mult, level),
        num_res_blocks + 1,
        vb.at(level as nat),
    )
}

impl AudioDecoder {
    /// Whether a checkpoint holds a decoder of these sizes: the statistics below one of its
    /// paths, everything else below another.
    pub open spec fn present(
        ch: nat,
        out_ch: nat,
        ch_mult: Seq<usize>,
        num_res_blocks: nat,
        z_channels: nat,
        stats_vb: WeightsView,
        vb: WeightsView,
    ) -> bool {
        let widest = level_width(ch, ch_mult, ch_mult.len() - 1);
        &&& ch_mult.len() > 0
        &&& AudioPerChannelStatistics::present(ch, stats_vb)
        &&& CausalConv2d::present(z_channels, widest, 3, 1, vb.pp("conv_in"@))
        &&& MidBlock::present(widest, vb.pp("mid"@))
        &&& forall|k: int|
            0 <= k < ch_mult.len() ==> #[trigger] level_present(k, ch, ch_mult, num_res_blocks, vb.pp("up"@))
        &&& CausalConv2d::present(level_width(ch, ch_mult, 0), out_ch, 3, 1, vb.pp("conv_out"@))
    }

    /// Whether this is the decoder that a checkpoint holds: the statistics below one of
    /// its paths, everything else below another.
    pub open spec fn loaded(
        &self,
        ch: nat,
        out_ch: nat,
        ch_mult: Seq<usize>,
        num_res_blocks: nat,
        axis: CausalityAxis,
        mel_bins: Option<usize>,
        stats_vb: WeightsView,
        vb: WeightsView,
    ) -> bool {
        &&& self.per_channel_statistics.loaded(stats_vb)
        &&& self.conv_in.loaded(3, 1, 1, 1, axis, vb.pp("conv_in"@))
        &&& self.mid.loaded(level_width(ch, ch_mult, ch_mult.len() - 1), axis, vb.pp("mid"@))
        &&& self.up_levels@.len() == ch_mult.len()
        &&& forall|k: int|
            0 <= k < ch_mult.len() ==> level_loaded(
                #[trigger] self.up_levels@[k],
                k,
                ch,
                ch_mult,
                num_res_blocks,
                axis,
                vb.pp("up"@),
            )
        &&& self.norm_out == (PixelNorm { dim: 1, eps: NORM_EPS })
        &&& self.conv_out.loaded(3, 1, 1, 1, axis, vb.pp("conv_out"@))
        &&& self.out_ch == out_ch
        &&& self.causality_axis == axis
        &&& self.mel_bins == mel_bins
    }

    /// Loads a decoder whose statistics stand below `per_channel_statistics`.
    pub fn new(
        ch: usize,
        out_ch: usize,
        ch_mult: &Vec<usize>,
        num_res_blocks: usize,
        z_channels: usize,
        causality_axis: CausalityAxis,
        mel_bins: Option<usize>,
        vb: &Weights,
    ) -> (r: Result<AudioDecoder, Failure>)
        ensures
            r matches Ok(d) ==> d.loaded(
                ch as nat,
                out_ch as nat,
                ch_mult@,
                num_res_blocks as nat,
                causality_axis,
                mel_bins,
                vb@.pp("per_channel_statistics"@),
                vb@,
            ),
            r is Ok ==> AudioDecoder::present(
                ch as nat,
                out_ch as nat,
                ch_mult@,
                num_res_blocks as nat,
                z_channels as nat,
                vb@.pp("per_channel_statistics"@),
                vb@,
            ),
            vb@.sound() && num_res_blocks < usize::MAX && AudioDecoder::present(
                ch as nat,
                out_ch as nat,
                ch_mult@,
                num_res_blocks as nat,
                z_channels as nat,
                vb@.pp("per_channel_statistics"@),
                vb@,
            ) ==> r is Ok,
    {
        AudioDecoder::new_with_roots(
            ch,
            out_ch,
            ch_mult,
            num_res_blocks,
            z_channels,
            causality_axis,
            mel_bins,
            &vb.pp("per_channel_statistics"),
            vb,
        )
    }

    /// Loads a decoder whose statistics stand below another path than its layers.
    pub fn new_with_roots(
        ch: usize,
        out_ch: usize,
        ch_mult: &Vec<usize>,
        num_res_blocks: usize,
        z_channels: usize,
        causality_axis: CausalityAxis,
        mel_bins: Option<usize>,
        stats_vb: &Weights,
        decoder_vb: &Weights,
    ) -> (r: Result<AudioDecoder, Failure>)
        ensures
            r matches Ok(d) ==> d.loaded(
                ch as nat,
                out_ch as nat,
                ch_mult@,
                num_res_blocks as nat,
                causality_axis,
                mel_bins,
                stats_vb@,
                decoder_vb@,
            ),
            r is Ok ==> AudioDecoder::present(
                ch as nat,
                out_ch as nat,
                ch_mult@,
                num_res_blocks as nat,
                z_channels as nat,
                stats_vb@,
                decoder_vb@,
            ),
            stats_vb@.sound() && decoder_vb@.sound() && num_res_blocks < usize::MAX && AudioDecoder::present(
                ch as nat,
                out_ch as nat,
                ch_mult@,
                num_res_blocks as nat,
                z_channels as nat,
                stats_vb@,
                decoder_vb@,
            ) ==> r is Ok,
            ch_mult@.len() == 0 ==> r == Err::<AudioDecoder, Failure>(Failure::Shape),
    {
        let levels: usize = ch_mult.len();
        if levels == 0 {
            return Err(Failure::Shape);
        }
        let ghost fine = stats_vb@.sound() && decoder_vb@.sound() && num_res_blocks < usize::MAX
            && AudioDecoder::present(
            ch as nat,
            out_ch as nat,
            ch_mult@,
            num_res_blocks as nat,
            z_channels as nat,
            stats_vb@,
            decoder_vb@,
        );
        proof {
            let conv = decoder_vb@.pp("conv_in"@).pp("conv"@);
            let widest = level_width(ch as nat, ch_mult@, levels - 1);
            if fine {
                weights::lemma_axis_counts(conv, "weight"@, seq![widest, z_channels as nat, 3, 3], 0);
            }
        }
        let base_block_channels: usize = match ch.checked_mul(ch_mult[levels - 1]) {
            Some(n) => n,
            None => {
                return Err(Failure::Overflow);
            },
        };
        let per_channel_statistics = AudioPerChannelStatistics::from_vb(ch, stats_vb)?;
        let conv_in = CausalConv2d::new(
            z_channels,
            base_block_channels,
            3,
            1,
            1,
            1,
            causality_axis,
            &decoder_vb.pp("conv_in"),
        )?;
        let mid = MidBlock::load(base_block_channels, causality_axis, &decoder_vb.pp("mid"))?;
        let count: usize = match num_res_blocks.checked_add(1) {
            Some(n) => n,
            None => {
                return Err(Failure::Overflow);
            },
        };
        let up_vb = decoder_vb.pp("up");
        let mut up_levels: Vec<UpLevel> = Vec::new();
        let mut block_in: usize = base_block_channels;
        let mut k: usize = 0;
        while k < levels
            invariant
                k <= levels,
                levels == ch_mult.len(),
                levels > 0,
                count == num_res_blocks + 1,
                up_vb@ == decoder_vb@.pp("up"@),
                block_in == (if k == 0 {
                    level_width(ch as nat, ch_mult@, levels - 1)
                } else {
                    level_width(ch as nat, ch_mult@, levels - k)
                }),
                up_levels@.len() == k,
                fine == (stats_vb@.sound() && decoder_vb@.sound() && num_res_blocks < usize::MAX
                    && AudioDecoder::present(
                    ch as nat,
                    out_ch as nat,
                    ch_mult@,
                    num_res_blocks as nat,
                    z_channels as nat,
                    stats_vb@,
                    decoder_vb@,
                )),
                forall|i: int|
                    0 <= i < k ==> #[trigger] level_present(
                        i,
                        ch as nat,
                        ch_mult@,
                        num_res_blocks as nat,
                        up_vb@,
                    ),
                forall|i: int|
                    0 <= i < k ==> level_loaded(
                        #[trigger] up_levels@[i],
                        i,
                        ch as nat,
                        ch_mult@,
                        num_res_blocks as nat,
                        causality_axis,
                        up_vb@,
                    ),
            decreases levels - k,
        {
            let level: usize = levels - 1 - k;
            proof {
                let width = level_width(ch as nat, ch_mult@, level as int);
                if fine {
                    assert(level_present(k as int, ch as nat, ch_mult@, num_res_blocks as nat, up_vb@));
                    let first = up_vb@.at(level as nat).pp("block"@).at(0);
                    assert(ResnetBlock2d::present(block_in as nat, width, first));
                    weights::lemma_axis_counts(
                        first.pp("conv1"@).pp("conv"@),
                        "weight"@,
                        seq![width, block_in as nat, 3, 3],
                        0,
                    );
                }
            }
            let block_out: usize = match ch.checked_mul(ch_mult[level]) {
                Some(n) => n,
                None => {
                    return Err(Failure::Overflow);
                },
            };
            up_levels.push(
                UpLevel::load(level, block_in, block_out, count, causality_axis, &up_vb.at(level))?,
            );
            block_in = block_out;
            k = k + 1;
        }
        let norm_out = PixelNorm::new(1, NORM_EPS);
        let conv_out = CausalConv2d::new(
            block_in,
            out_ch,
            3,
            1,
            1,
            1,
            causality_axis,
            &decoder_vb.pp("conv_out"),
        )?;
        Ok(
            AudioDecoder {
                per_channel_statistics,
                conv_in,
                mid,
                up_levels,
                norm_out,
                conv_out,
                out_ch,
                causality_axis,
                mel_bins,
            },
        )
    }

    /// The number of frames of the spectrogram of `frames` frames of latents.
    pub open spec fn target_frames(&self, frames: nat) -> nat {
        if self.causality_axis == CausalityAxis::Neither {
            frames * 4
        } else if frames == 0 {
            1
        } else {
            (frames * 4 - 3) as nat
        }
    }

    /// The number of frequencies of the spectrogram.
    pub open spec fn target_mel(&self, mel: nat) -> nat {
        match self.mel_bins {
            Some(n) => n as nat,
            None => mel,
        }
    }

    /// `x` after the first `n` levels.
    pub open spec fn after_levels(&self, x: TensorView, n: nat) -> TensorView
        decreases n,
    {
        if n == 0 {
            x
        } else {
            self.up_levels@[n - 1].apply(self.after_levels(x, (n - 1) as nat))
        }
    }

    /// The spectrogram of latents that are not normalised, before it is cut to size.
    pub open spec fn unfolded(&self, x: TensorView) -> TensorView {
        let h = self.after_levels(self.mid.apply(self.conv_in.apply(x)), self.up_levels@.len());
        self.conv_out.apply(activation::silu_of(self.norm_out.apply(h)))
    }

    /// The spectrogram before it is cut to size.
    pub open spec fn spectrogram(&self, sample: TensorView) -> TensorView {
        self.unfolded(self.per_channel_statistics.denormalized(sample))
    }

    /// The spectrogram that is decoded from latents.
    pub open spec fn apply(&self, sample: TensorView) -> TensorView {
        adjusted(
            self.spectrogram(sample),
            self.out_ch as nat,
            self.target_frames(sample.dims[2]),
            self.target_mel(sample.dims[3]),
        )
    }

    /// The shape of what stands behind the first `n` levels.
    pub open spec fn dims_after(&self, d: Seq<nat>, n: nat) -> Seq<nat>
        decreases n,
    {
        if n == 0 {
            d
        } else {
            self.up_levels@[n - 1].dims_out(self.dims_after(d, (n - 1) as nat))
        }
    }

    /// Whether the levels can be computed one after another from an array of this shape, in main
    /// memory and in single precision.
    pub open spec fn runs_levels(&self, d: Seq<nat>) -> bool {
        forall|i: int|
            0 <= i < self.up_levels@.len() ==> (#[trigger] self.up_levels@[i]).accepts_shape(
                self.dims_after(d, i as nat),
            )
    }

    /// Whether latents can be decoded, in main memory and in single precision.
    pub open spec fn decodes(&self, sample: &Array) -> bool {
        let d = sample@.dims;
        let out = self.unfolded_dims(d);
        let (frames, mel) = (self.target_frames(d[2]), self.target_mel(d[3]));
        let channels = smaller(out[1], self.out_ch as nat);
        &&& sample@.dtype == Dtype::F32 && self.per_channel_statistics.covers(sample)
        &&& d[2] * 4 <= usize::MAX
        &&& self.unfolds(d)
        &&& model::fits(seq![out[0], self.out_ch as nat, frames, mel])
        &&& model::fits(seq![out[0], channels, frames, mel])
        &&& model::fits(seq![out[0], channels, smaller(out[2], frames), mel])
    }

    fn run_levels(&self, x: Array) -> (r: Result<Array, Failure>)
        ensures
            r matches Ok(t) ==> t@ == self.after_levels(x@, self.up_levels@.len()),
            x.on_cpu() && x@.dtype == Dtype::F32 && self.runs_levels(x@.dims) ==> (r matches Ok(t) && t.on_cpu()
                && t@.dtype == Dtype::F32 && t@.dims == self.dims_after(x@.dims, self.up_levels@.len())),
    {
        let ghost start = x@;
        let ghost fine = x.on_cpu() && x@.dtype == Dtype::F32 && self.runs_levels(x@.dims);
        let mut h = x;
        let mut i: usize = 0;
        while i < self.up_levels.len()
            invariant
                i <= self.up_levels.len(),
                h@ == self.after_levels(start, i as nat),
                start == x@,
                fine == (x.on_cpu() && x@.dtype == Dtype::F32 && self.runs_levels(x@.dims)),
                fine ==> h.on_cpu() && h@.dtype == Dtype::F32 && h@.dims == self.dims_after(start.dims, i as nat),
            decreases self.up_levels.len() - i,
        {
            assert(fine ==> self.up_levels@[i as int].accepts_shape(self.dims_after(start.dims, i as nat)));
            h = self.up_levels[i].forward(&h)?;
            i = i + 1;
        }
        Ok(h)
    }

    /// The shape of the spectrogram before it is cut to size.
    pub open spec fn unfolded_dims(&self, d: Seq<nat>) -> Seq<nat> {
        let start = self.mid.dims_out(self.conv_in.dims_out(d));
        self.conv_out.dims_out(self.dims_after(start, self.up_levels@.len()))
    }

    /// Whether the spectrogram can be computed from latents of this shape, in main memory and in
    /// single precision.
    #[verifier::opaque]
    pub open spec fn unfolds(&self, d: Seq<nat>) -> bool {
        let mid = self.conv_in.dims_out(d);
        let last = self.dims_after(self.mid.dims_out(mid), self.up_levels@.len());
        &&& self.conv_in.accepts_shape(d) && self.mid.accepts_shape(mid)
        &&& self.runs_levels(self.mid.dims_out(mid))
        &&& self.norm_out.dim < last.len() && self.conv_out.accepts_shape(last)
    }

    /// Computes the spectrogram before it is cut to size.
    fn unfold(&self, x: &Array) -> (r: Result<Array, Failure>)
        ensures
            r matches Ok(t) ==> t@ == self.unfolded(x@),
            x.on_cpu() && x@.dtype == Dtype::F32 && self.unfolds(x@.dims) ==> (r matches Ok(t) && t.on_cpu()
                && t@.dtype == Dtype::F32 && t@.dims == self.unfolded_dims(x@.dims) && t@.rank() == 4),
    {
        proof {
            reveal(AudioDecoder::unfolds);
        }
        let h = self.conv_in.forward(x)?;
        let h = self.mid.forward(&h)?;
        let h = self.run_levels(h)?;
        let h = self.norm_out.forward(&h)?;
        let h = silu(&h)?;
        self.conv_out.forward(&h)
    }

    /// Decodes latents into a spectrogram `(B, channels, time, frequency)`.
    pub fn forward(&self, sample: &Array) -> (r: Result<Array, Failure>)
        ensures
            r matches Ok(t) ==> t@ == self.apply(sample@),
            r matches Ok(t) ==> t@.rank() == 4 && t@.dims[1] == self.out_ch && t@.dims[2] == self.target_frames(
                sample@.dims[2],
            ) && t@.dims[3] == self.target_mel(sample@.dims[3]),
            r is Ok ==> sample@.rank() == 4,
            sample@.rank() != 4 ==> r == Err::<Array, Failure>(
                Failure::Rank { expected: 4, got: sample@.rank() as usize },
            ),
            self.decodes(sample) ==> r is Ok,
    {
        let (_b, _c, in_frames, in_mel) = sample.dims4()?;
        let sample = self.per_channel_statistics.denormalize(sample)?;
        let quadruple: usize = match in_frames.checked_mul(LATENT_DOWNSAMPLE_FACTOR) {
            Some(n) => n,
            None => {
                return Err(Failure::Overflow);
            },
        };
        let target_frames: usize = match self.causality_axis {
            CausalityAxis::Neither => quadruple,
            _ => if quadruple > 3 {
                quadruple - 3
            } else {
                1
            },
        };
        let target_mel: usize = match self.mel_bins {
            Some(n) => n,
            None => in_mel,
        };
        let h = self.unfold(&sample)?;
        adjust_output_shape(&h, self.out_ch, target_frames, target_mel)
    }
}

/// The smaller of two sizes.
pub open spec fn smaller(a: nat, b: nat) -> nat {
    if a < b {
        a
    } else {
        b
    }
}

/// `x` cut, or extended by zeros, to so many channels, frames and frequencies.
pub open spec fn adjusted(x: TensorView, ch: nat, time: nat, freq: nat) -> TensorView {
    let c = smaller(x.dims[1], ch);
    let t = smaller(x.dims[2], time);
    let f = smaller(x.dims[3], freq);
    let cut = model::narrow(model::narrow(model::narrow(x, 1, 0, c), 2, 0, t), 3, 0, f);
    let long = model::pad_zeros(model::pad_zeros(cut, 3, 0, (freq - f) as nat), 2, 0, (time - t) as nat);
    model::pad_zeros(long, 1, 0, (ch - c) as nat)
}

/// The adjusted spectrogram has the size that was asked for.
pub proof fn law_adjusted_size(x: TensorView, ch: nat, time: nat, freq: nat)
    requires
        x.rank() == 4,
    ensures
        adjusted(x, ch, time, freq).dims == seq![x.dims[0], ch, time, freq],
{
    reveal(model::narrow);
    let c = smaller(x.dims[1], ch);
    let t = smaller(x.dims[2], time);
    let f = smaller(x.dims[3], freq);
    let cut = model::narrow(model::narrow(model::narrow(x, 1, 0, c), 2, 0, t), 3, 0, f);
    assert(cut.dims =~= seq![x.dims[0], c, t, f]);
    lemmas::lemma_pad(cut, 3, 0, (freq - f) as nat);
    let wide = model::pad_zeros(cut, 3, 0, (freq - f) as nat);
    lemmas::lemma_pad(wide, 2, 0, (time - t) as nat);
    let long = model::pad_zeros(wide, 2, 0, (time - t) as nat);
    lemmas::lemma_pad(long, 1, 0, (ch - c) as nat);
    assert(adjusted(x, ch, time, freq).dims =~= seq![x.dims[0], ch, time, freq]);
}

/// Every element of the adjusted spectrogram is the one at its place, where there is one, else
/// zero.
pub proof fn law_adjusted_elements(x: TensorView, ch: nat, time: nat, freq: nat, idx: Seq<int>)
    requires
        x.rank() == 4,
        model::in_bounds(seq![x.dims[0], ch, time, freq], idx),
    ensures
        adjusted(x, ch, time, freq).at(idx) == (if idx[1] < x.dims[1] && idx[2] < x.dims[2] && idx[3] < x.dims[3] {
            x.at(idx)
        } else {
            model::constant(0, x.dtype)
        }),
{
    let (c, t, f) = (smaller(x.dims[1], ch), smaller(x.dims[2], time), smaller(x.dims[3], freq));
    let b = x.dims[0];
    let cut1 = model::narrow(x, 1, 0, c);
    let cut2 = model::narrow(cut1, 2, 0, t);
    let cut = model::narrow(cut2, 3, 0, f);
    lemmas::lemma_narrow_dims(x, 1, 0, c);
    lemmas::lemma_narrow_dims(cut1, 2, 0, t);
    lemmas::lemma_narrow_dims(cut2, 3, 0, f);
    assert(cut.dims =~= seq![b, c, t, f]);
    let wide = model::pad_zeros(cut, 3, 0, (freq - f) as nat);
    lemmas::lemma_pad(cut, 3, 0, (freq - f) as nat);
    assert(wide.dims =~= seq![b, c, t, freq]);
    let long = model::pad_zeros(wide, 2, 0, (time - t) as nat);
    lemmas::lemma_pad(wide, 2, 0, (time - t) as nat);
    assert(long.dims =~= seq![b, c, time, freq]);
    assert(long.dims.update(1, c + (ch - c) as nat) =~= seq![b, ch, time, freq]);
    lemmas::lemma_pad_behind_at(long, 1, (ch - c) as nat, idx);
    if idx[1] < c {
        assert(wide.dims.update(2, t + (time - t) as nat) =~= long.dims);
        assert(model::in_bounds(long.dims, idx));
        lemmas::lemma_pad_behind_at(wide, 2, (time - t) as nat, idx);
        if idx[2] < t {
            assert(cut.dims.update(3, f + (freq - f) as nat) =~= wide.dims);
            assert(model::in_bounds(wide.dims, idx));
            lemmas::lemma_pad_behind_at(cut, 3, (freq - f) as nat, idx);
            if idx[3] < f {
                assert(model::in_bounds(cut2.dims.update(3, f), idx));
                lemmas::lemma_narrow_at(cut2, 3, 0, f, idx);
                assert(idx.update(3, idx[3] + 0) =~= idx);
                assert(model::in_bounds(cut1.dims.update(2, t), idx));
                lemmas::lemma_narrow_at(cut1, 2, 0, t, idx);
                assert(idx.update(2, idx[2] + 0) =~= idx);
                assert(model::in_bounds(x.dims.update(1, c), idx));
                lemmas::lemma_narrow_at(x, 1, 0, c, idx);
                assert(idx.update(1, idx[1] + 0) =~= idx);
            }
        }
    }
}

/// Cuts a spectrogram, or extends it by zeros, to so many channels, frames and frequencies.
pub fn adjust_output_shape(x: &Array, target_ch: usize, target_time: usize, target_freq: usize) -> (r: Result<
    Array,
    Failure,
>)
    ensures
        r matches Ok(t) ==> t@ == adjusted(
            x@,
            target_ch as nat,
            target_time as nat,
            target_freq as nat,
        ),
        r matches Ok(t) ==> x@.rank() == 4 && t@.dims == seq![
            x@.dims[0],
            target_ch as nat,
            target_time as nat,
            target_freq as nat,
        ],
        x@.rank() != 4 ==> r == Err::<Array, Failure>(
            Failure::Rank { expected: 4, got: x@.rank() as usize },
        ),
        r matches Ok(t) ==> t.on_cpu() == x.on_cpu() && t@.dtype == x@.dtype,
        x.usable() && x@.rank() == 4 && model::fits(
            seq![x@.dims[0], target_ch as nat, target_time as nat, target_freq as nat],
        ) && model::fits(
            seq![x@.dims[0], smaller(x@.dims[1], target_ch as nat), target_time as nat, target_freq as nat],
        ) && model::fits(
            seq![
                x@.dims[0],
                smaller(x@.dims[1], target_ch as nat),
                smaller(x@.dims[2], target_time as nat),
                target_freq as nat,
            ],
        ) ==> r is Ok,
{
    let (_b, c, t, f) = x.dims4()?;
    proof {
        law_adjusted_size(x@, target_ch as nat, target_time as nat, target_freq as nat);
    }
    let c_out: usize = if c < target_ch {
        c
    } else {
        target_ch
    };
    let t_out: usize = if t < target_time {
        t
    } else {
        target_time
    };
    let f_out: usize = if f < target_freq {
        f
    } else {
        target_freq
    };
    proof {
        let d = x@.dims;
        lemmas::lemma_narrow_dims(x@, 1, 0, c_out as nat);
        let fewer = model::narrow(x@, 1, 0, c_out as nat);
        lemmas::lemma_narrow_dims(fewer, 2, 0, t_out as nat);
        let shorter = model::narrow(fewer, 2, 0, t_out as nat);
        lemmas::lemma_narrow_dims(shorter, 3, 0, f_out as nat);
        let cut = model::narrow(shorter, 3, 0, f_out as nat);
        assert(cut.dims =~= seq![d[0], c_out as nat, t_out as nat, f_out as nat]);
        lemmas::lemma_pad(cut, 3, 0, (target_freq - f_out) as nat);
        let wide = model::pad_zeros(cut, 3, 0, (target_freq - f_out) as nat);
        assert(wide.dims =~= seq![d[0], c_out as nat, t_out as nat, target_freq as nat]);
        lemmas::lemma_pad(wide, 2, 0, (target_time - t_out) as nat);
        assert(wide.dims.update(2, target_time as nat) =~= seq![
            d[0],
            c_out as nat,
            target_time as nat,
            target_freq as nat,
        ]);
        let long = model::pad_zeros(wide, 2, 0, (target_time - t_out) as nat);
        lemmas::lemma_pad(long, 1, 0, (target_ch - c_out) as nat);
        assert(long.dims.update(1, target_ch as nat) =~= seq![
            d[0],
            target_ch as nat,
            target_time as nat,
            target_freq as nat,
        ]);
    }
    let out = x.narrow(1, 0, c_out)?.narrow(2, 0, t_out)?.narrow(3, 0, f_out)?;
    let time_pad: usize = target_time - t_out;
    let freq_pad: usize = target_freq - f_out;
    let ch_pad: usize = target_ch - c_out;
    out.pad_with_zeros(3, 0, freq_pad)?.pad_with_zeros(2, 0, time_pad)?.pad_with_zeros(1, 0, ch_pad)
}

} // verus!
