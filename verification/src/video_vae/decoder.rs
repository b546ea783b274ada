//! The video decoder.
use vstd::prelude::*;

use crate::array::{self, Array};
use crate::base::config::{BlockSettings, NORM_EPS};
use crate::base::patchify::product3;
use crate::base::statistics::PerChannelStatistics;
use crate::error::Failure;
use crate::lemmas;
use crate::model::{self, BinOp, Dtype, TensorView};
use crate::nn::activation::{self, silu};
use crate::nn::conv3d::{CausalConv3d, Conv3d, SpatialPaddingMode};
use crate::nn::group_norm::GroupNorm;
use crate::nn::timestep_embedding::PixArtAlphaCombinedTimestepSizeEmbeddings;
use crate::scalar::{Scalar, ONE, ZERO};
use crate::text::{decimal_text, joined, same};
use crate::video_vae::resnet::{
    self, ada_values, modulate, time_embedding, NormLayer, ResnetBlock3D, UNetMidBlock3D,
};
use crate::video_vae::upsample::DepthToSpaceUpsample;
use crate::weights::{self, Weights, WeightsView};

verus! {

/// 0.025: how much noise is mixed into latents.
pub const DECODE_NOISE_SCALE: Scalar = 0x3F99_9999_9999_999A;

/// 0.05: the timestep that the decoder is conditioned on.
pub const DECODE_TIMESTEP: Scalar = 0x3FA9_9999_9999_999A;

/// What the blocks of a decoder have in common.
#[derive(Clone, Copy, PartialEq, Eq, Structural, Debug)]
pub struct BlockStyle {
    pub use_pixel_norm: bool,
    pub timestep_conditioning: bool,
    pub norm_num_groups: usize,
    pub spatial_padding_mode: SpatialPaddingMode,
}

/// A block of the decoder.
pub enum DecoderBlock {
    ResX(UNetMidBlock3D),
    ResXY(ResnetBlock3D),
    CompressTime(DepthToSpaceUpsample),
    CompressSpace(DepthToSpaceUpsample),
    CompressAll(DepthToSpaceUpsample),
}

/// Whether a block of this kind changes the number of channels.
pub open spec fn reduces_channels(name: Seq<char>) -> bool {
    name == "res_x_y"@ || name == "compress_time"@ || name == "compress_space"@ || name == "compress_all"@
}

/// The factor that the settings of a block give.
pub open spec fn channel_multiplier_of(name: Seq<char>, config: BlockSettings) -> usize {
    match config.multiplier {
        Some(m) => m as usize,
        None => if name == "res_x_y"@ {
            2
        } else {
            1
        },
    }
}

/// By what factor a block reduces the number of channels.
pub open spec fn inverse_multiplier_of(name: Seq<char>, config: BlockSettings) -> usize {
    if reduces_channels(name) {
        channel_multiplier_of(name, config)
    } else {
        1
    }
}

/// The number of layers that the settings of a block give.
pub open spec fn num_layers_of(config: BlockSettings) -> usize {
    match config.num_layers {
        Some(n) => n as usize,
        None => 1,
    }
}

/// The number of channels behind the first `k` blocks of the encoder, which is the number
/// in front of the same blocks of the decoder.
pub open spec fn width_of(blocks: Seq<(String, BlockSettings)>, latent_channels: nat, k: nat) -> nat
    decreases k,
{
    if k == 0 {
        latent_channels
    } else {
        width_of(blocks, latent_channels, (k - 1) as nat) * inverse_multiplier_of(
            blocks[k - 1].0@,
            blocks[k - 1].1,
        ) as nat
    }
}

/// A block of the decoder leaves as many channels as the same block of the encoder got.
pub proof fn law_decoder_undoes_widths(blocks: Seq<(String, BlockSettings)>, latent_channels: nat, k: nat)
    requires
        k < blocks.len(),
        inverse_multiplier_of(blocks[k as int].0@, blocks[k as int].1) > 0,
    ensures
        width_of(blocks, latent_channels, k + 1) / (inverse_multiplier_of(
            blocks[k as int].0@,
            blocks[k as int].1,
        ) as nat) == width_of(blocks, latent_channels, k),
{
    let m = inverse_multiplier_of(blocks[k as int].0@, blocks[k as int].1) as int;
    let w = width_of(blocks, latent_channels, k) as int;
    vstd::arithmetic::div_mod::lemma_div_multiples_vanish(w, m);
    assert(m * w == w * m) by (nonlinear_arith);
}

impl DecoderBlock {
    /// Whether this is the block of a kind that a checkpoint holds.
    #[verifier::opaque]
    pub open spec fn loaded(
        &self,
        name: Seq<char>,
        config: BlockSettings,
        in_channels: nat,
        style: BlockStyle,
        vb: WeightsView,
    ) -> bool {
        let m = channel_multiplier_of(name, config) as nat;
        let mode = style.spatial_padding_mode;
        if name == "res_x"@ || name == "attn_res_x"@ {
            self matches DecoderBlock::ResX(b) && b.loaded(
                in_channels,
                num_layers_of(config) as nat,
                style.use_pixel_norm,
                style.timestep_conditioning,
                style.norm_num_groups as nat,
                NORM_EPS,
                mode,
                vb,
            )
        } else if name == "res_x_y"@ {
            &&& m > 0
            &&& self matches DecoderBlock::ResXY(b)
            &&& b.loaded(
                in_channels,
                in_channels / m,
                style.use_pixel_norm,
                false,
                style.norm_num_groups as nat,
                NORM_EPS,
                mode,
                vb,
            )
        } else if name == "compress_time"@ {
            self matches DecoderBlock::CompressTime(b) && b.loaded((2, 1, 1), mode, vb)
        } else if name == "compress_space"@ {
            self matches DecoderBlock::CompressSpace(b) && b.loaded((1, 2, 2), mode, vb)
        } else if name == "compress_all"@ {
            self matches DecoderBlock::CompressAll(b) && b.loaded((2, 2, 2), mode, vb)
        } else {
            false
        }
    }

    /// Whether a checkpoint holds a block of this kind and size.
    #[verifier::opaque]
    pub open spec fn present(
        name: Seq<char>,
        config: BlockSettings,
        in_channels: nat,
        style: BlockStyle,
        vb: WeightsView,
    ) -> bool {
        let m = channel_multiplier_of(name, config) as nat;
        if name == "res_x"@ || name == "attn_res_x"@ {
            UNetMidBlock3D::present(
                in_channels,
                num_layers_of(config) as nat,
                style.use_pixel_norm,
                style.timestep_conditioning,
                style.norm_num_groups as nat,
                vb,
            )
        } else if name == "res_x_y"@ {
            m > 0 && ResnetBlock3D::present(
                in_channels,
                in_channels / m,
                style.use_pixel_norm,
                false,
                style.norm_num_groups as nat,
                vb,
            )
        } else if name == "compress_time"@ {
            DepthToSpaceUpsample::present(in_channels, (2, 1, 1), m, vb)
        } else if name == "compress_space"@ {
            DepthToSpaceUpsample::present(in_channels, (1, 2, 2), m, vb)
        } else if name == "compress_all"@ {
            DepthToSpaceUpsample::present(in_channels, (2, 2, 2), m, vb)
        } else {
            false
        }
    }

    /// What the block computes from `x`.
    #[verifier::opaque]
    pub open spec fn apply(&self, x: TensorView, causal: bool, timestep: Option<TensorView>) -> TensorView {
        match self {
            DecoderBlock::ResX(b) => b.apply(x, causal, timestep),
            DecoderBlock::ResXY(b) => b.apply(x, causal, None),
            DecoderBlock::CompressTime(b) => b.apply(x, causal),
            DecoderBlock::CompressSpace(b) => b.apply(x, causal),
            DecoderBlock::CompressAll(b) => b.apply(x, causal),
        }
    }

    /// The shape of what the block computes.
    pub open spec fn dims_out(&self, d: Seq<nat>, causal: bool) -> Seq<nat> {
        match self {
            DecoderBlock::ResX(_) => d,
            DecoderBlock::ResXY(b) => b.dims_out(d, causal),
            DecoderBlock::CompressTime(b) => b.dims_out(d, causal),
            DecoderBlock::CompressSpace(b) => b.dims_out(d, causal),
            DecoderBlock::CompressAll(b) => b.dims_out(d, causal),
        }
    }

    /// Whether the block can be computed from an array of this shape, in main memory and in
    /// single precision.
    pub open spec fn accepts_shape(&self, d: Seq<nat>, causal: bool) -> bool {
        match self {
            DecoderBlock::ResX(b) => b.accepts_shape(d, causal),
            DecoderBlock::ResXY(b) => b.accepts_shape(d, causal),
            DecoderBlock::CompressTime(b) => b.accepts_shape(d, causal),
            DecoderBlock::CompressSpace(b) => b.accepts_shape(d, causal),
            DecoderBlock::CompressAll(b) => b.accepts_shape(d, causal),
        }
    }

    /// Whether the block can use a raw timestep for each sample.
    pub open spec fn accepts_time(&self, d: Seq<nat>, causal: bool, timestep: Option<&Array>) -> bool {
        match self {
            DecoderBlock::ResX(b) => b.accepts_time(d, causal, timestep),
            _ => true,
        }
    }

    pub fn forward(&self, x: &Array, causal: bool, timestep: Option<&Array>) -> (r: Result<Array, Failure>)
        ensures
            r matches Ok(t) ==> t@ == self.apply(x@, causal, array::opt_ref_view(timestep)),
            self.accepts_time(x@.dims, causal, timestep) && x.on_cpu() && x@.dtype == Dtype::F32 && self.accepts_shape(
                x@.dims,
                causal,
            ) ==> (r matches Ok(t) && t.on_cpu() && t@.dtype == Dtype::F32 && t@.dims == self.dims_out(
                x@.dims,
                causal,
            )),
    {
        proof {
            reveal(DecoderBlock::apply);
        }
        match self {
            DecoderBlock::ResX(b) => b.forward(x, causal, timestep),
            DecoderBlock::ResXY(b) => b.forward(x, causal, None),
            DecoderBlock::CompressTime(b) => b.forward(x, causal),
            DecoderBlock::CompressSpace(b) => b.forward(x, causal),
            DecoderBlock::CompressAll(b) => b.forward(x, causal),
        }
    }

    /// The number of channels behind a block.
    pub fn out_channels(block_name: &str, in_channels: usize, config: &BlockSettings) -> (r: usize)
        requires
            inverse_multiplier_of(block_name@, *config) > 0,
        ensures
            r == in_channels as nat / inverse_multiplier_of(block_name@, *config) as nat,
    {
        in_channels / DecoderBlock::inverse_channel_multiplier(block_name, config)
    }

    /// By what factor a block reduces the number of channels.
    pub fn inverse_channel_multiplier(block_name: &str, config: &BlockSettings) -> (r: usize)
        ensures
            r == inverse_multiplier_of(block_name@, *config),
    {
        if same(block_name, "res_x_y") || same(block_name, "compress_time") || same(block_name, "compress_space")
            || same(block_name, "compress_all") {
            DecoderBlock::channel_multiplier(block_name, config)
        } else {
            1
        }
    }

    fn channel_multiplier(block_name: &str, config: &BlockSettings) -> (r: usize)
        ensures
            r == channel_multiplier_of(block_name@, *config),
    {
        match config.multiplier {
            Some(m) => m as usize,
            None => if same(block_name, "res_x_y") {
                2
            } else {
                1
            },
        }
    }
}

/// Loads a block of a kind.
fn make_decoder_block(
    block_name: &str,
    config: &BlockSettings,
    in_channels: usize,
    style: BlockStyle,
    vb: &Weights,
) -> (r: Result<DecoderBlock, Failure>)
    ensures
        r matches Ok(b) ==> b.loaded(block_name@, *config, in_channels as nat, style, vb@),
        r is Ok ==> DecoderBlock::present(block_name@, *config, in_channels as nat, style, vb@),
        vb@.sound() && DecoderBlock::present(block_name@, *config, in_channels as nat, style, vb@) ==> r is Ok,
        !reduces_channels(block_name@) && block_name@ != "res_x"@ && block_name@ != "attn_res_x"@ ==> (r matches Err(
            Failure::Unknown { what },
        ) && what@ == block_name@),
{
    proof {
        reveal(DecoderBlock::loaded);
        reveal(DecoderBlock::present);
    }
    let mult: usize = DecoderBlock::channel_multiplier(block_name, config);
    let mode = style.spatial_padding_mode;
    if same(block_name, "res_x") || same(block_name, "attn_res_x") {
        let num_layers: usize = match config.num_layers {
            Some(n) => n as usize,
            None => 1,
        };
        Ok(
            DecoderBlock::ResX(
                UNetMidBlock3D::new(
                    in_channels,
                    num_layers,
                    style.use_pixel_norm,
                    style.timestep_conditioning,
                    style.norm_num_groups,
                    NORM_EPS,
                    mode,
                    vb,
                )?,
            ),
        )
    } else if same(block_name, "res_x_y") {
        if mult == 0 {
            return Err(Failure::Shape);
        }
        Ok(
            DecoderBlock::ResXY(
                ResnetBlock3D::new(
                    in_channels,
                    in_channels / mult,
                    style.use_pixel_norm,
                    false,
                    style.norm_num_groups,
                    NORM_EPS,
                    mode,
                    vb,
                )?,
            ),
        )
    } else if same(block_name, "compress_time") {
        Ok(DecoderBlock::CompressTime(DepthToSpaceUpsample::new(in_channels, (2, 1, 1), mult, mode, vb)?))
    } else if same(block_name, "compress_space") {
        Ok(DecoderBlock::CompressSpace(DepthToSpaceUpsample::new(in_channels, (1, 2, 2), mult, mode, vb)?))
    } else if same(block_name, "compress_all") {
        Ok(DecoderBlock::CompressAll(DepthToSpaceUpsample::new(in_channels, (2, 2, 2), mult, mode, vb)?))
    } else {
        Err(Failure::Unknown { what: block_name.to_owned() })
    }
}

/// Decodes video latents `(B, C, F', H', W')` into frames `(B, 3, F, H, W)`.
pub struct VideoDecoder {
    pub per_channel_statistics: PerChannelStatistics,
    pub conv_in: CausalConv3d,
    pub up_blocks: Vec<DecoderBlock>,
    pub conv_norm_out: NormLayer,
    pub conv_out: CausalConv3d,
    pub causal: bool,
    pub patch_size: usize,
    pub timestep_conditioning: bool,
    pub timestep_scale_multiplier: Option<Array>,
    pub last_time_embedder: Option<PixArtAlphaCombinedTimestepSizeEmbeddings>,
    pub last_scale_shift_table: Option<Array>,
    pub decode_noise_scale: Scalar,
    pub decode_timestep: Scalar,
}

/// Whether block `i` of the decoder, which is block `n - 1 - i` of the encoder, is the one
/// that a checkpoint holds.
pub open spec fn up_block_loaded(
    b: DecoderBlock,
    i: nat,
    blocks: Seq<(String, BlockSettings)>,
    latent_channels: nat,
    style: BlockStyle,
    vb: WeightsView,
) -> bool {
    let k = blocks.len() - 1 - i;
    b.loaded(
        blocks[k].0@,
        blocks[k].1,
        width_of(blocks, latent_channels, (k + 1) as nat),
        style,
        vb.at(i),
    )
}

/// Whether a checkpoint holds block `i` of the decoder.
pub open spec fn up_block_present(
    i: nat,
    blocks: Seq<(String, BlockSettings)>,
    latent_channels: nat,
    style: BlockStyle,
    vb: WeightsView,
) -> bool {
    let k = blocks.len() - 1 - i;
    DecoderBlock::present(
        blocks[k].0@,
        blocks[k].1,
        width_of(blocks, latent_channels, (k + 1) as nat),
        style,
        vb.at(i),
    )
}

/// Loads the blocks of the decoder, the last of the encoder first.
fn load_up_blocks(
    blocks: &Vec<(String, BlockSettings)>,
    latent_channels: usize,
    width: usize,
    style: BlockStyle,
    vb: &Weights,
) -> (r: Result<Vec<DecoderBlock>, Failure>)
    requires
        width == width_of(blocks@, latent_channels as nat, blocks@.len()),
        forall|k: int|
            0 <= k < blocks@.len() ==> inverse_multiplier_of(#[trigger] blocks@[k].0@, blocks@[k].1) > 0,
    ensures
        r matches Ok(v) ==> v@.len() == blocks@.len() && forall|i: nat|
            i < blocks@.len() ==> up_block_loaded(
                #[trigger] v@[i as int],
                i,
                blocks@,
                latent_channels as nat,
                style,
                vb@,
            ),
        r is Ok ==> forall|i: nat|
            i < blocks@.len() ==> #[trigger] up_block_present(i, blocks@, latent_channels as nat, style, vb@),
        vb@.sound() && (forall|i: nat|
            i < blocks@.len() ==> #[trigger] up_block_present(i, blocks@, latent_channels as nat, style, vb@))
            ==> r is Ok,
{
    let n: usize = blocks.len();
    let mut up_blocks: Vec<DecoderBlock> = Vec::new();
    let mut width: usize = width;
    let mut idx: usize = 0;
    while idx < n
        invariant
            idx <= n,
            n == blocks.len(),
            width == width_of(blocks@, latent_channels as nat, (n - idx) as nat),
            forall|k: int|
                0 <= k < blocks@.len() ==> inverse_multiplier_of(#[trigger] blocks@[k].0@, blocks@[k].1)
                    > 0,
            up_blocks@.len() == idx,
            forall|i: nat|
                i < idx ==> up_block_loaded(
                    #[trigger] up_blocks@[i as int],
                    i,
                    blocks@,
                    latent_channels as nat,
                    style,
                    vb@,
                ),
            forall|i: nat|
                i < idx ==> #[trigger] up_block_present(i, blocks@, latent_channels as nat, style, vb@),
        decreases n - idx,
    {
        let k: usize = n - 1 - idx;
        let name = blocks[k].0.as_str();
        let config = &blocks[k].1;
        assert(inverse_multiplier_of(blocks@[k as int].0@, blocks@[k as int].1) > 0);
        assert(up_block_present(idx as nat, blocks@, latent_channels as nat, style, vb@) == DecoderBlock::present(
            name@,
            *config,
            width as nat,
            style,
            vb@.at(idx as nat),
        ));
        let b = make_decoder_block(name, config, width, style, &vb.at(idx))?;
        proof {
            law_decoder_undoes_widths(blocks@, latent_channels as nat, k as nat);
        }
        width = DecoderBlock::out_channels(name, width, config);
        up_blocks.push(b);
        idx = idx + 1;
    }
    Ok(up_blocks)
}

/// Behind no block of the encoder are there more channels than behind the last.
proof fn lemma_widths_grow(blocks: Seq<(String, BlockSettings)>, latent_channels: nat, k: nat)
    requires
        k <= blocks.len(),
        forall|j: int| 0 <= j < blocks.len() ==> inverse_multiplier_of(#[trigger] blocks[j].0@, blocks[j].1) > 0,
    ensures
        width_of(blocks, latent_channels, k) <= width_of(blocks, latent_channels, blocks.len()),
    decreases blocks.len() - k,
{
    if k < blocks.len() {
        lemma_widths_grow(blocks, latent_channels, k + 1);
        let w = width_of(blocks, latent_channels, k);
        let m = inverse_multiplier_of(blocks[k as int].0@, blocks[k as int].1) as nat;
        assert(w <= w * m) by (nonlinear_arith)
            requires
                m > 0,
        ;
    }
}

/// The sizes of a decoder that a sound checkpoint holds can be counted.
proof fn lemma_present_counts(
    latent_channels: nat,
    out_channels: nat,
    blocks: Seq<(String, BlockSettings)>,
    patch_size: nat,
    style: BlockStyle,
    stats_vb: WeightsView,
    vb: WeightsView,
)
    requires
        vb.sound(),
        VideoDecoder::present(latent_channels, out_channels, blocks, patch_size, style, stats_vb, vb),
    ensures
        width_of(blocks, latent_channels, blocks.len()) <= usize::MAX,
        out_channels * patch_size <= usize::MAX,
        out_channels * patch_size * patch_size <= usize::MAX,
        latent_channels * 2 <= usize::MAX,
{
    let width = width_of(blocks, latent_channels, blocks.len());
    let first = vb.pp("conv_in"@).pp("conv"@);
    let last = vb.pp("conv_out"@).pp("conv"@);
    let (o, p) = (out_channels, patch_size);
    let wide = o * p * p;
    weights::lemma_axis_counts(first, "weight"@, seq![width, latent_channels, 3, 3, 3], 0);
    weights::lemma_axis_counts(first, "weight"@, seq![width, latent_channels, 3, 3, 3], 1);
    weights::lemma_axis_counts(last, "weight"@, seq![wide, latent_channels, 3, 3, 3], 0);
    assert(o * p <= o * p * p) by (nonlinear_arith);
}

/// The number of channels behind the last block of the encoder.
fn inner_width(blocks: &Vec<(String, BlockSettings)>, latent_channels: usize) -> (r: Result<usize, Failure>)
    ensures
        r matches Ok(w) ==> w == width_of(blocks@, latent_channels as nat, blocks@.len()),
        r is Ok ==> forall|k: int|
            0 <= k < blocks@.len() ==> inverse_multiplier_of(#[trigger] blocks@[k].0@, blocks@[k].1) > 0,
        r matches Err(e) ==> e == Failure::Shape || e == Failure::Overflow,
        width_of(blocks@, latent_channels as nat, blocks@.len()) <= usize::MAX && (forall|k: int|
            0 <= k < blocks@.len() ==> inverse_multiplier_of(#[trigger] blocks@[k].0@, blocks@[k].1) > 0) ==> r is Ok,
{
    let mut width: usize = latent_channels;
    let mut k: usize = 0;
    while k < blocks.len()
        invariant
            k <= blocks.len(),
            width == width_of(blocks@, latent_channels as nat, k as nat),
            forall|j: int|
                0 <= j < k ==> inverse_multiplier_of(#[trigger] blocks@[j].0@, blocks@[j].1) > 0,
        decreases blocks.len() - k,
    {
        let m: usize = DecoderBlock::inverse_channel_multiplier(blocks[k].0.as_str(), &blocks[k].1);
        if m == 0 {
            return Err(Failure::Shape);
        }
        proof {
            if forall|j: int|
                0 <= j < blocks@.len() ==> inverse_multiplier_of(#[trigger] blocks@[j].0@, blocks@[j].1) > 0 {
                lemma_widths_grow(blocks@, latent_channels as nat, (k + 1) as nat);
            }
        }
        width = match width.checked_mul(m) {
            Some(w) => w,
            None => {
                return Err(Failure::Overflow);
            },
        };
        k = k + 1;
    }
    Ok(width)
}

impl VideoDecoder {
    /// Whether this is the decoder that a checkpoint holds: the statistics below one of
    /// its paths, everything else below another.
    pub open spec fn loaded(
        &self,
        latent_channels: nat,
        blocks: Seq<(String, BlockSettings)>,
        patch_size: usize,
        causal: bool,
        style: BlockStyle,
        stats_vb: WeightsView,
        vb: WeightsView,
    ) -> bool {
        let mode = style.spatial_padding_mode;
        &&& self.per_channel_statistics.mean@ == model::reshape(
            stats_vb.get("mean-of-means"@),
            seq![1, latent_channels, 1, 1, 1],
        )
        &&& self.per_channel_statistics.std@ == model::reshape(
            stats_vb.get("std-of-means"@),
            seq![1, latent_channels, 1, 1, 1],
        )
        &&& self.conv_in.loaded(vb.pp("conv_in"@), 3, (1, 1, 1), 1, true, mode)
        &&& self.up_blocks@.len() == blocks.len()
        &&& forall|i: nat|
            i < blocks.len() ==> up_block_loaded(
                #[trigger] self.up_blocks@[i as int],
                i,
                blocks,
                latent_channels,
                style,
                vb.pp("up_blocks"@),
            )
        &&& self.conv_norm_out.loaded(
            style.use_pixel_norm,
            style.norm_num_groups as nat,
            latent_channels,
            NORM_EPS,
            vb.pp("conv_norm_out"@),
        )
        &&& self.conv_out.loaded(vb.pp("conv_out"@), 3, (1, 1, 1), 1, true, mode)
        &&& self.causal == causal
        &&& self.patch_size == patch_size
        &&& self.timestep_conditioning == style.timestep_conditioning
        &&& self.timestep_scale_multiplier is Some == style.timestep_conditioning
        &&& self.last_time_embedder is Some == style.timestep_conditioning
        &&& self.last_scale_shift_table is Some == style.timestep_conditioning
        &&& self.timestep_scale_multiplier matches Some(t) ==> t@ == vb.get("timestep_scale_multiplier"@)
        &&& self.last_time_embedder matches Some(e) ==> e.loaded(vb.pp("last_time_embedder"@), None)
        &&& self.last_scale_shift_table matches Some(t) ==> t@ == vb.get("last_scale_shift_table"@)
        &&& self.decode_noise_scale == DECODE_NOISE_SCALE
        &&& self.decode_timestep == DECODE_TIMESTEP
    }

    /// Whether a checkpoint holds a decoder of these sizes.
    pub open spec fn present(
        latent_channels: nat,
        out_channels: nat,
        blocks: Seq<(String, BlockSettings)>,
        patch_size: nat,
        style: BlockStyle,
        stats_vb: WeightsView,
        vb: WeightsView,
    ) -> bool {
        &&& forall|k: int|
            0 <= k < blocks.len() ==> inverse_multiplier_of(#[trigger] blocks[k].0@, blocks[k].1) > 0
        &&& stats_vb.holds("mean-of-means"@, seq![latent_channels])
        &&& stats_vb.holds("std-of-means"@, seq![latent_channels])
        &&& Conv3d::present(
            vb.pp("conv_in"@).pp("conv"@),
            latent_channels,
            width_of(blocks, latent_channels, blocks.len()),
            3,
            1,
            true,
        )
        &&& forall|i: nat|
            i < blocks.len() ==> #[trigger] up_block_present(
                i,
                blocks,
                latent_channels,
                style,
                vb.pp("up_blocks"@),
            )
        &&& !style.use_pixel_norm ==> GroupNorm::present(
            vb.pp("conv_norm_out"@),
            style.norm_num_groups as nat,
            latent_channels,
        )
        &&& Conv3d::present(
            vb.pp("conv_out"@).pp("conv"@),
            latent_channels,
            out_channels * patch_size * patch_size,
            3,
            1,
            true,
        )
        &&& style.timestep_conditioning ==> vb.holds("timestep_scale_multiplier"@, seq![1])
        &&& style.timestep_conditioning ==> PixArtAlphaCombinedTimestepSizeEmbeddings::present(
            vb.pp("last_time_embedder"@),
            None,
            latent_channels * 2,
        )
        &&& style.timestep_conditioning ==> vb.holds("last_scale_shift_table"@, seq![2, latent_channels])
    }

    /// Loads a decoder whose statistics stand below `per_channel_statistics`.
    pub fn new(
        in_channels: usize,
        out_channels: usize,
        decoder_blocks: &Vec<(String, BlockSettings)>,
        patch_size: usize,
        use_pixel_norm: bool,
        causal: bool,
        timestep_conditioning: bool,
        norm_num_groups: usize,
        spatial_padding_mode: SpatialPaddingMode,
        vb: &Weights,
    ) -> (r: Result<VideoDecoder, Failure>)
        ensures
            r matches Ok(d) ==> d.loaded(
                in_channels as nat,
                decoder_blocks@,
                patch_size,
                causal,
                (BlockStyle { use_pixel_norm, timestep_conditioning, norm_num_groups, spatial_padding_mode }),
                vb@.pp("per_channel_statistics"@),
                vb@,
            ),
            r is Ok ==> VideoDecoder::present(
                in_channels as nat,
                out_channels as nat,
                decoder_blocks@,
                patch_size as nat,
                (BlockStyle { use_pixel_norm, timestep_conditioning, norm_num_groups, spatial_padding_mode }),
                vb@.pp("per_channel_statistics"@),
                vb@,
            ),
            vb@.sound() && VideoDecoder::present(
                in_channels as nat,
                out_channels as nat,
                decoder_blocks@,
                patch_size as nat,
                (BlockStyle { use_pixel_norm, timestep_conditioning, norm_num_groups, spatial_padding_mode }),
                vb@.pp("per_channel_statistics"@),
                vb@,
            ) ==> r is Ok,
    {
        VideoDecoder::new_with_roots(
            in_channels,
            out_channels,
            decoder_blocks,
            patch_size,
            use_pixel_norm,
            causal,
            timestep_conditioning,
            norm_num_groups,
            spatial_padding_mode,
            &vb.pp("per_channel_statistics"),
            vb,
        )
    }

    /// Loads a decoder whose statistics stand below another path than its layers. The
    /// blocks are listed in the order of the encoder.
    pub fn new_with_roots(
        in_channels: usize,
        out_channels: usize,
        decoder_blocks: &Vec<(String, BlockSettings)>,
        patch_size: usize,
        use_pixel_norm: bool,
        causal: bool,
        timestep_conditioning: bool,
        norm_num_groups: usize,
        spatial_padding_mode: SpatialPaddingMode,
        stats_vb: &Weights,
        decoder_vb: &Weights,
    ) -> (r: Result<VideoDecoder, Failure>)
        ensures
            r matches Ok(d) ==> d.loaded(
                in_channels as nat,
                decoder_blocks@,
                patch_size,
                causal,
                (BlockStyle { use_pixel_norm, timestep_conditioning, norm_num_groups, spatial_padding_mode }),
                stats_vb@,
                decoder_vb@,
            ),
            r is Ok ==> VideoDecoder::present(
                in_channels as nat,
                out_channels as nat,
                decoder_blocks@,
                patch_size as nat,
                (BlockStyle { use_pixel_norm, timestep_conditioning, norm_num_groups, spatial_padding_mode }),
                stats_vb@,
                decoder_vb@,
            ),
            stats_vb@.sound() && decoder_vb@.sound() && VideoDecoder::present(
                in_channels as nat,
                out_channels as nat,
                decoder_blocks@,
                patch_size as nat,
                (BlockStyle { use_pixel_norm, timestep_conditioning, norm_num_groups, spatial_padding_mode }),
                stats_vb@,
                decoder_vb@,
            ) ==> r is Ok,
    {
        let style = BlockStyle { use_pixel_norm, timestep_conditioning, norm_num_groups, spatial_padding_mode };
        let per_channel_statistics = PerChannelStatistics::from_vb(in_channels, stats_vb)?;
        proof {
            if stats_vb@.sound() && decoder_vb@.sound() && VideoDecoder::present(
                in_channels as nat,
                out_channels as nat,
                decoder_blocks@,
                patch_size as nat,
                style,
                stats_vb@,
                decoder_vb@,
            ) {
                lemma_present_counts(
                    in_channels as nat,
                    out_channels as nat,
                    decoder_blocks@,
                    patch_size as nat,
                    style,
                    stats_vb@,
                    decoder_vb@,
                );
            }
        }
        let effective_out_channels: usize = product3(out_channels, patch_size, patch_size)?;
        let width: usize = inner_width(decoder_blocks, in_channels)?;
        let conv_in = CausalConv3d::new_with_padding_mode(
            in_channels,
            width,
            3,
            (1, 1, 1),
            1,
            true,
            spatial_padding_mode,
            &decoder_vb.pp("conv_in"),
        )?;
        let up_blocks = load_up_blocks(decoder_blocks, in_channels, width, style, &decoder_vb.pp("up_blocks"))?;
        let conv_norm_out = NormLayer::choose_norm(
            use_pixel_norm,
            norm_num_groups,
            in_channels,
            NORM_EPS,
            &decoder_vb.pp("conv_norm_out"),
        )?;
        let conv_out = CausalConv3d::new_with_padding_mode(
            in_channels,
            effective_out_channels,
            3,
            (1, 1, 1),
            1,
            true,
            spatial_padding_mode,
            &decoder_vb.pp("conv_out"),
        )?;
        let (timestep_scale_multiplier, last_time_embedder, last_scale_shift_table) = if timestep_conditioning {
            let scale = decoder_vb.get1(1, "timestep_scale_multiplier")?;
            let double: usize = match in_channels.checked_mul(2) {
                Some(n) => n,
                None => {
                    return Err(Failure::Overflow);
                },
            };
            let embedder = PixArtAlphaCombinedTimestepSizeEmbeddings::new(
                double,
                &decoder_vb.pp("last_time_embedder"),
            )?;
            let table = decoder_vb.get2(2, in_channels, "last_scale_shift_table")?;
            (Some(scale), Some(embedder), Some(table))
        } else {
            (None, None, None)
        };
        Ok(
            VideoDecoder {
                per_channel_statistics,
                conv_in,
                up_blocks,
                conv_norm_out,
                conv_out,
                causal,
                patch_size,
                timestep_conditioning,
                timestep_scale_multiplier,
                last_time_embedder,
                last_scale_shift_table,
                decode_noise_scale: DECODE_NOISE_SCALE,
                decode_timestep: DECODE_TIMESTEP,
            },
        )
    }

    /// Latents with a little noise mixed in, where the decoder is conditioned on a timestep.
    pub open spec fn noised(&self, sample: TensorView, noise: TensorView) -> TensorView {
        if self.timestep_conditioning {
            let rest = model::binary(
                BinOp::Minus,
                model::number(ONE),
                model::number(self.decode_noise_scale),
            );
            model::binary(
                BinOp::Plus,
                model::affine(noise, model::number(self.decode_noise_scale), model::number(ZERO)),
                model::affine(sample, rest, model::number(ZERO)),
            )
        } else {
            sample
        }
    }

    /// Latents as the first convolution gets them.
    pub open spec fn denormalized(&self, sample: TensorView, noise: TensorView) -> TensorView {
        self.per_channel_statistics.denormalized(self.noised(sample, noise))
    }

    /// The timestep that is used: the one that is given, else the one of the decoder.
    pub open spec fn chosen_timestep(&self, timestep: Option<TensorView>, batch: nat) -> Option<TensorView> {
        if timestep is None && self.timestep_conditioning {
            Some(
                model::broadcast_to(
                    model::cast(model::number(self.decode_timestep), Dtype::F32),
                    seq![batch],
                ),
            )
        } else {
            timestep
        }
    }

    /// The scaled timestep that the blocks get.
    pub open spec fn scaled_timestep(&self, timestep: Option<TensorView>, batch: nat) -> Option<TensorView> {
        let ts = self.chosen_timestep(timestep, batch);
        if self.timestep_conditioning && ts is Some && self.timestep_scale_multiplier is Some {
            Some(
                model::binary(
                    BinOp::Times,
                    ts->0,
                    model::cast(self.timestep_scale_multiplier->0@, ts->0.dtype),
                ),
            )
        } else {
            None
        }
    }

    /// `x` after the first `n` blocks.
    pub open spec fn after_blocks(&self, x: TensorView, timestep: Option<TensorView>, n: nat) -> TensorView
        decreases n,
    {
        if n == 0 {
            x
        } else {
            self.up_blocks@[n - 1].apply(
                self.after_blocks(x, timestep, (n - 1) as nat),
                self.causal,
                timestep,
            )
        }
    }

    /// What was normalised, scaled and shifted by the timestep.
    pub open spec fn conditioned(&self, x: TensorView, timestep: Option<TensorView>, batch: nat) -> TensorView {
        if self.timestep_conditioning && self.last_time_embedder is Some && self.last_scale_shift_table is Some
            && timestep is Some {
            let emb = resnet::time_embedding_of(self.last_time_embedder->0, timestep->0, batch);
            let values = resnet::ada_values_of(
                self.last_scale_shift_table->0@,
                emb,
                2,
                batch,
                x.dtype,
            );
            resnet::modulated(x, resnet::ada_row(values, 0), resnet::ada_row(values, 1))
        } else {
            x
        }
    }

    /// What stands in front of the blocks.
    pub open spec fn entered(&self, sample: TensorView, noise: TensorView) -> TensorView {
        self.conv_in.apply(self.denormalized(sample, noise), self.causal)
    }

    /// The stages behind the blocks, by name.
    #[verifier::opaque]
    pub open spec fn last_stages(&self, x: TensorView, timestep: Option<TensorView>, batch: nat) -> Seq<
        (Seq<char>, TensorView),
    > {
        let normed = self.conv_norm_out.apply(x);
        let active = activation::silu_of(self.conditioned(normed, timestep, batch));
        let flat = self.conv_out.apply(active, self.causal);
        seq![
            ("conv_norm_out"@, normed),
            ("conv_act"@, active),
            ("conv_out"@, flat),
            ("decoded"@, unpatchify_spatial_of(flat, self.patch_size as nat)),
        ]
    }

    /// What the blocks add to a trace.
    pub open spec fn block_stages(&self, x: TensorView, timestep: Option<TensorView>, n: nat) -> Seq<
        (Seq<char>, TensorView),
    > {
        Seq::new(
            n,
            |i: int| ("up_blocks."@ + weights::decimal(i as nat), self.after_blocks(x, timestep, (i + 1) as nat)),
        )
    }

    /// The stages of decoding by name: what stands behind each of them.
    pub open spec fn stages(
        &self,
        sample: TensorView,
        timestep: Option<TensorView>,
        noise: TensorView,
    ) -> Seq<(Seq<char>, TensorView)> {
        let batch = sample.dims[0];
        let ts = self.scaled_timestep(timestep, batch);
        let first = self.entered(sample, noise);
        let n = self.up_blocks@.len();
        seq![("denormalized"@, self.denormalized(sample, noise)), ("conv_in"@, first)]
            + self.block_stages(first, ts, n) + self.last_stages(
            self.after_blocks(first, ts, n),
            ts,
            batch,
        )
    }

    /// The frames that are decoded from latents with this noise mixed in: what stands
    /// behind the last stage.
    #[verifier::opaque]
    pub open spec fn apply(&self, sample: TensorView, timestep: Option<TensorView>, noise: TensorView) -> TensorView {
        let batch = sample.dims[0];
        let ts = self.scaled_timestep(timestep, batch);
        let last = self.after_blocks(self.entered(sample, noise), ts, self.up_blocks@.len());
        self.last_stages(last, ts, batch)[3].1
    }

    /// Whether this can be the noise for latents.
    pub open spec fn fits_as_noise(&self, noise: TensorView, sample: TensorView) -> bool {
        noise.dims == sample.dims && noise.dtype == sample.dtype
    }

    /// Decodes latents into frames.
    pub fn forward(&self, sample: &Array, timestep: Option<&Array>) -> (r: Result<Array, Failure>)
        ensures
            r matches Ok(t) ==> exists|noise: TensorView| #[trigger]
                self.fits_as_noise(noise, sample@) && t@ == self.apply(
                    sample@,
                    array::opt_ref_view(timestep),
                    noise,
                ),
            self.decodes_at(sample, timestep) ==> (r matches Ok(t) && t.on_cpu() && t@.dtype == Dtype::F32 && t@.dims
                == self.decoded_dims(sample@.dims)),
    {
        let noise = self.draw_noise(sample)?;
        let (decoded, _trace) = self.forward_impl(sample, timestep, &noise, false)?;
        assert(self.fits_as_noise(noise@, sample@));
        Ok(decoded)
    }

    /// Decodes latents into frames, with this noise mixed in.
    pub fn forward_with_noise(&self, sample: &Array, timestep: Option<&Array>, noise: &Array) -> (r: Result<
        Array,
        Failure,
    >)
        ensures
            r matches Ok(t) ==> t@ == self.apply(sample@, array::opt_ref_view(timestep), noise@),
            self.decodes_at(sample, timestep) && (self.timestep_conditioning ==> noise.on_cpu() && self.fits_as_noise(
                noise@,
                sample@,
            )) ==> (r matches Ok(t) && t.on_cpu() && t@.dtype == Dtype::F32 && t@.dims == self.decoded_dims(
                sample@.dims,
            )),
    {
        let (decoded, _trace) = self.forward_impl(sample, timestep, noise, false)?;
        Ok(decoded)
    }

    /// Decodes latents into frames and lists what stands behind each stage.
    pub fn forward_with_trace(&self, sample: &Array, timestep: Option<&Array>) -> (r: Result<
        (Array, Vec<(String, Array)>),
        Failure,
    >)
        ensures
            r matches Ok(o) ==> exists|noise: TensorView| #[trigger]
                self.fits_as_noise(noise, sample@) && trace_view(o.1@) == self.stages(
                    sample@,
                    array::opt_ref_view(timestep),
                    noise,
                ) && o.0@ == self.apply(sample@, array::opt_ref_view(timestep), noise),
            self.decodes_at(sample, timestep) ==> r is Ok,
    {
        let noise = self.draw_noise(sample)?;
        let (decoded, trace) = self.forward_impl(sample, timestep, &noise, true)?;
        assert(self.fits_as_noise(noise@, sample@));
        Ok((decoded, trace))
    }

    /// The shape of what stands behind the first `n` blocks.
    pub open spec fn dims_after(&self, d: Seq<nat>, n: nat) -> Seq<nat>
        decreases n,
    {
        if n == 0 {
            d
        } else {
            self.up_blocks@[n - 1].dims_out(self.dims_after(d, (n - 1) as nat), self.causal)
        }
    }

    /// The shape of the frames that are decoded from latents of this shape.
    pub open spec fn decoded_dims(&self, d: Seq<nat>) -> Seq<nat> {
        let last = self.dims_after(self.conv_in.dims_out(d, self.causal), self.up_blocks@.len());
        unpatched_dims(self.conv_out.dims_out(last, self.causal), self.patch_size as nat)
    }

    /// Whether the blocks can be computed one after another from an array of this shape, in main
    /// memory and in single precision.
    pub open spec fn runs_blocks(&self, d: Seq<nat>) -> bool {
        forall|i: int|
            0 <= i < self.up_blocks@.len() ==> (#[trigger] self.up_blocks@[i]).accepts_shape(
                self.dims_after(d, i as nat),
                self.causal,
            )
    }

    /// Whether the stages behind the blocks can be computed from an array of this shape, in main
    /// memory and in single precision.
    pub open spec fn finishes(&self, d: Seq<nat>) -> bool {
        let out = self.conv_out.dims_out(d, self.causal);
        &&& self.conv_norm_out.accepts_shape(d)
        &&& self.conv_out.accepts_shape(d, self.causal)
        &&& self.patch_size > 0 && out[1] % (self.patch_size * self.patch_size) as nat == 0
        &&& model::numel(out) > 0 && model::fits(out)
    }

    /// Whether latents can be decoded, in main memory and in single precision.
    pub open spec fn decodes(&self, sample: &Array) -> bool {
        let first = self.conv_in.dims_out(sample@.dims, self.causal);
        &&& sample@.dtype == Dtype::F32 && self.per_channel_statistics.covers(sample)
        &&& self.conv_in.accepts_shape(sample@.dims, self.causal)
        &&& self.runs_blocks(first)
        &&& self.finishes(self.dims_after(first, self.up_blocks@.len()))
    }

    /// Whether the blocks and the last stage can use this scaled timestep behind a first convolution
    /// of this shape.
    pub open spec fn uses_time(&self, first: Seq<nat>, ts: Option<&Array>, batch: nat) -> bool {
        &&& self.blocks_use_time(first, ts)
        &&& self.finishes_at(self.dims_after(first, self.up_blocks@.len()), ts, batch)
    }

    /// Whether the blocks can use this scaled timestep.
    pub open spec fn blocks_use_time(&self, first: Seq<nat>, ts: Option<&Array>) -> bool {
        forall|i: int|
            0 <= i < self.up_blocks@.len() ==> (#[trigger] self.up_blocks@[i]).accepts_time(
                self.dims_after(first, i as nat),
                self.causal,
                ts,
            )
    }

    /// Whether this scaled timestep can scale and shift what is normalised behind the blocks, where
    /// that is asked for.
    pub open spec fn finishes_at(&self, d: Seq<nat>, ts: Option<&Array>, batch: nat) -> bool {
        (self.timestep_conditioning && self.last_time_embedder is Some && self.last_scale_shift_table is Some
            && ts is Some) ==> {
            let table = self.last_scale_shift_table->0;
            &&& d.len() == 5 && d[0] == batch && d[1] > 0 && table.usable() && table@.dims == seq![2, d[1]]
            &&& exists|hidden: nat| #[trigger]
                resnet::embeds_time(&self.last_time_embedder->0, ts->0, batch, hidden, 2 * d[1])
        }
    }

    /// Whether a timestep, or that of the decoder, can be scaled for `batch` samples, in main memory.
    pub open spec fn scales_time(&self, timestep: Option<&Array>, batch: nat) -> bool {
        let d = match timestep {
            Some(t) => t@.dims,
            None => seq![batch],
        };
        &&& timestep is None ==> model::fits(seq![batch])
        &&& self.timestep_scale_multiplier matches Some(s) ==> {
            &&& timestep matches Some(t) ==> t.on_cpu() && t@.dtype.float()
            &&& s.usable() && model::have_common_dims(d, s@.dims) && model::common_dims(d, s@.dims) == d
        }
    }

    /// Whether latents can be decoded at a timestep, in main memory and in single precision.
    pub open spec fn decodes_at(&self, sample: &Array, timestep: Option<&Array>) -> bool {
        let batch = sample@.dims[0];
        let scaled = self.scaled_timestep(array::opt_ref_view(timestep), batch);
        &&& self.decodes(sample)
        &&& self.timestep_conditioning ==> self.scales_time(timestep, batch) && forall|ts: Array|
            ts.on_cpu() && scaled == Some(ts@) ==> #[trigger] self.uses_time(
                self.conv_in.dims_out(sample@.dims, self.causal),
                Some(&ts),
                batch,
            )
    }

    /// Noise to mix into latents.
    fn draw_noise(&self, sample: &Array) -> (r: Result<Array, Failure>)
        ensures
            r matches Ok(n) ==> self.fits_as_noise(n@, sample@),
            sample.on_cpu() && sample@.dtype.float() ==> (r matches Ok(n) && n.on_cpu()),
            !self.timestep_conditioning ==> r is Ok,
    {
        if self.timestep_conditioning {
            sample.randn_like()
        } else {
            Ok(sample.clone())
        }
    }

    /// Computes the latents as the first convolution gets them.
    fn prepare(&self, sample: &Array, noise: &Array) -> (r: Result<Array, Failure>)
        ensures
            r matches Ok(t) ==> t@ == self.denormalized(sample@, noise@),
            self.per_channel_statistics.covers(sample) && (self.timestep_conditioning ==> noise.on_cpu()
                && self.fits_as_noise(noise@, sample@)) ==> (r matches Ok(t) && t.on_cpu() && t@.dims == sample@.dims && t@.dtype == sample@.dtype),
    {
        let sample = if self.timestep_conditioning {
            let rest = Array::number(ONE)?.broadcast(BinOp::Minus, &Array::number(self.decode_noise_scale)?)?;
            let noise = noise.scale(self.decode_noise_scale)?;
            noise.pairwise(BinOp::Plus, &sample.scale_by(&rest)?)?
        } else {
            sample.clone()
        };
        self.per_channel_statistics.denormalize(&sample)
    }

    /// Computes the scaled timestep that the blocks get.
    fn scale_timestep(&self, timestep: Option<&Array>, batch: usize, device: &candle_core::Device) -> (r: Result<
        Option<Array>,
        Failure,
    >)
        ensures
            r matches Ok(t) ==> array::opt_view(t) == self.scaled_timestep(
                array::opt_ref_view(timestep),
                batch as nat,
            ),
            !self.timestep_conditioning ==> r == Ok::<Option<Array>, Failure>(None),
            array::is_main_memory(*device) && self.scales_time(timestep, batch as nat) ==> (r matches Ok(t) && (
            t matches Some(a) ==> a.on_cpu())),
    {
        proof {
            lemmas::lemma_number_spreads(seq![batch as nat]);
            reveal(model::broadcast_to);
        }
        if !self.timestep_conditioning {
            return Ok(None);
        }
        let ts = match timestep {
            Some(t) => t.clone(),
            None => {
                let dims: Vec<usize> = vec![batch];
                assert(model::nats(dims@) =~= seq![batch as nat]);
                Array::number(self.decode_timestep)?.to_dtype(Dtype::F32)?.expand(&dims)?.contiguous()?.to_device(
                    device,
                )?
            },
        };
        match &self.timestep_scale_multiplier {
            Some(scale) => {
                let scale = scale.to_dtype(ts.dtype())?;
                Ok(Some(ts.broadcast(BinOp::Times, &scale)?))
            },
            None => Ok(None),
        }
    }

    /// Scales and shifts what was normalised by the timestep.
    fn condition(&self, x: Array, timestep: &Option<Array>, batch: usize) -> (r: Result<Array, Failure>)
        ensures
            r matches Ok(t) ==> t@ == self.conditioned(x@, array::opt_view(*timestep), batch as nat),
            !self.timestep_conditioning ==> r == Ok::<Array, Failure>(x),
            x.on_cpu() && x@.dtype == Dtype::F32 && self.finishes_at(x@.dims, lent(timestep), batch as nat) ==> (
            r matches Ok(t) && t.on_cpu() && t@.dtype == Dtype::F32 && t@.dims == x@.dims),
    {
        proof {
            let d = x@.dims;
            if d.len() == 5 {
                let row: Seq<nat> = seq![d[0], d[1], 1, 1, 1];
                assert(seq![d[0], 2, d[1], 1, 1, 1].update(1, 1).remove(1) =~= row);
                lemmas::lemma_spread_common(row, d);
            }
        }
        if !self.timestep_conditioning {
            return Ok(x);
        }
        match (&self.last_time_embedder, &self.last_scale_shift_table, timestep) {
            (Some(embedder), Some(table), Some(ts)) => {
                let emb = time_embedding(embedder, ts, batch)?;
                proof {
                    if self.finishes_at(x@.dims, Some(ts), batch as nat) {
                        assert(resnet::ada_fits(table, &emb, 2, batch as nat, x@.dims[1]));
                    }
                }
                let values = ada_values(table, &emb, 2, batch, x.dtype())?;
                modulate(&x, &values, 0, 1)
            },
            _ => Ok(x),
        }
    }

    /// Decodes latents; where `trace_enabled`, what stands behind each stage is listed.
    fn forward_impl(&self, sample: &Array, timestep: Option<&Array>, noise: &Array, trace_enabled: bool) -> (r:
        Result<(Array, Vec<(String, Array)>), Failure>)
        ensures
            r matches Ok(o) ==> o.0@ == self.apply(sample@, array::opt_ref_view(timestep), noise@),
            r matches Ok(o) ==> trace_enabled ==> trace_view(o.1@) == self.stages(
                sample@,
                array::opt_ref_view(timestep),
                noise@,
            ),
            self.decodes_at(sample, timestep) && (self.timestep_conditioning ==> noise.on_cpu() && self.fits_as_noise(
                noise@,
                sample@,
            )) ==> (r matches Ok(o) && o.0.on_cpu() && o.0@.dtype == Dtype::F32 && o.0@.dims == self.decoded_dims(
                sample@.dims,
            )),
    {
        proof {
            reveal(VideoDecoder::apply);
        }
        let mut trace: Vec<(String, Array)> = Vec::new();
        let batch_size: usize = sample.dim(0)?;
        let start = self.prepare(sample, noise)?;
        record_trace(&mut trace, trace_enabled, "denormalized".to_owned(), &start);
        let first = self.conv_in.forward(&start, self.causal)?;
        record_trace(&mut trace, trace_enabled, "conv_in".to_owned(), &first);
        let scaled = self.scale_timestep(timestep, batch_size, &start.device())?;
        proof {
            if trace_enabled {
                assert(trace_view(trace@) =~= seq![("denormalized"@, start@), ("conv_in"@, first@)]);
            }
        }
        proof {
            if self.decodes_at(sample, timestep) && (self.timestep_conditioning ==> noise.on_cpu() && self.fits_as_noise(
                noise@,
                sample@,
            )) {
                if scaled is Some {
                    assert(self.uses_time(first@.dims, Some(&scaled->0), sample@.dims[0]));
                } else {
                    assert(self.uses_time(first@.dims, None, sample@.dims[0]));
                }
            }
        }
        let last = self.run_blocks(&first, &scaled, &mut trace, trace_enabled)?;
        let decoded = self.finish(&last, &scaled, batch_size, &mut trace, trace_enabled)?;
        Ok((decoded, trace))
    }

    /// Carries out the stages behind the blocks.
    fn finish(
        &self,
        x: &Array,
        timestep: &Option<Array>,
        batch: usize,
        trace: &mut Vec<(String, Array)>,
        trace_enabled: bool,
    ) -> (r: Result<Array, Failure>)
        ensures
            r matches Ok(t) ==> t@ == self.last_stages(x@, array::opt_view(*timestep), batch as nat)[3].1,
            r is Ok && trace_enabled ==> trace_view(final(trace)@) == trace_view(old(trace)@)
                + self.last_stages(x@, array::opt_view(*timestep), batch as nat),
            x.on_cpu() && x@.dtype == Dtype::F32 && self.finishes(x@.dims) && self.finishes_at(
                x@.dims,
                lent(timestep),
                batch as nat,
            ) ==> (r matches Ok(t) && t.on_cpu() && t@.dtype == Dtype::F32 && t@.dims == unpatched_dims(
                self.conv_out.dims_out(x@.dims, self.causal),
                self.patch_size as nat,
            )),
    {
        let ghost before = trace_view(trace@);
        let normed = self.conv_norm_out.forward(x)?;
        record_trace(trace, trace_enabled, "conv_norm_out".to_owned(), &normed);
        let ghost n = normed@;
        let conditioned = self.condition(normed, timestep, batch)?;
        let active = silu(&conditioned)?;
        record_trace(trace, trace_enabled, "conv_act".to_owned(), &active);
        let flat = self.conv_out.forward(&active, self.causal)?;
        record_trace(trace, trace_enabled, "conv_out".to_owned(), &flat);
        let decoded = unpatchify_spatial(&flat, self.patch_size)?;
        record_trace(trace, trace_enabled, "decoded".to_owned(), &decoded);
        proof {
            reveal(VideoDecoder::last_stages);
            let all = self.last_stages(x@, array::opt_view(*timestep), batch as nat);
            if trace_enabled {
                assert(before + all =~= before.push(("conv_norm_out"@, n)).push(("conv_act"@, active@)).push(
                    ("conv_out"@, flat@),
                ).push(("decoded"@, decoded@)));
            }
        }
        Ok(decoded)
    }

    /// Runs the blocks one after another.
    fn run_blocks(
        &self,
        x: &Array,
        timestep: &Option<Array>,
        trace: &mut Vec<(String, Array)>,
        trace_enabled: bool,
    ) -> (r: Result<Array, Failure>)
        ensures
            r matches Ok(t) ==> t@ == self.after_blocks(
                x@,
                array::opt_view(*timestep),
                self.up_blocks@.len(),
            ),
            r is Ok && trace_enabled ==> trace_view(final(trace)@) == trace_view(old(trace)@)
                + self.block_stages(x@, array::opt_view(*timestep), self.up_blocks@.len()),
            self.blocks_use_time(x@.dims, lent(timestep)) && x.on_cpu() && x@.dtype == Dtype::F32 && self.runs_blocks(
                x@.dims,
            ) ==> (r matches Ok(t) && t.on_cpu() && t@.dtype == Dtype::F32 && t@.dims == self.dims_after(x@.dims, self.up_blocks@.len())),
    {
        let ghost fine = self.blocks_use_time(x@.dims, lent(timestep)) && x.on_cpu() && x@.dtype == Dtype::F32
            && self.runs_blocks(x@.dims);
        let ghost before = trace_view(trace@);
        let mut h = x.clone();
        let mut idx: usize = 0;
        assert(before + self.block_stages(x@, array::opt_view(*timestep), 0) =~= before);
        while idx < self.up_blocks.len()
            invariant
                idx <= self.up_blocks.len(),
                h@ == self.after_blocks(x@, array::opt_view(*timestep), idx as nat),
                fine == (self.blocks_use_time(x@.dims, lent(timestep)) && x.on_cpu() && x@.dtype == Dtype::F32
                    && self.runs_blocks(x@.dims)),
                fine ==> h.on_cpu() && h@.dtype == Dtype::F32 && h@.dims == self.dims_after(x@.dims, idx as nat),
                trace_enabled ==> trace_view(trace@) == before + self.block_stages(
                    x@,
                    array::opt_view(*timestep),
                    idx as nat,
                ),
            decreases self.up_blocks.len() - idx,
        {
            assert(fine ==> self.up_blocks@[idx as int].accepts_shape(
                self.dims_after(x@.dims, idx as nat),
                self.causal,
            ) && self.up_blocks@[idx as int].accepts_time(
                self.dims_after(x@.dims, idx as nat),
                self.causal,
                lent(timestep),
            ));
            h = self.up_blocks[idx].forward(&h, self.causal, timestep.as_ref())?;
            if trace_enabled {
                let number = decimal_text(idx);
                let name = joined("up_blocks.", number.as_str());
                record_trace(trace, true, name, &h);
                assert(before + self.block_stages(x@, array::opt_view(*timestep), (idx + 1) as nat) =~= (before
                    + self.block_stages(x@, array::opt_view(*timestep), idx as nat)).push((name@, h@)));
            }
            idx = idx + 1;
        }
        Ok(h)
    }
}

/// What is lent of an array that may be missing.
pub open spec fn lent(x: &Option<Array>) -> Option<&Array> {
    match x {
        Some(a) => Some(a),
        None => None,
    }
}

/// A trace as names and tensors.
pub open spec fn trace_view(trace: Seq<(String, Array)>) -> Seq<(Seq<char>, TensorView)> {
    trace.map_values(|e: (String, Array)| (e.0@, e.1@))
}

/// Adds a stage to a trace.
fn record_trace(trace: &mut Vec<(String, Array)>, enabled: bool, name: String, tensor: &Array)
    ensures
        enabled ==> trace_view(final(trace)@) == trace_view(old(trace)@).push((name@, tensor@)),
        !enabled ==> final(trace)@ == old(trace)@,
{
    if enabled {
        let ghost before = trace@;
        trace.push((name, tensor.clone()));
        assert(trace_view(trace@) =~= trace_view(before).push((name@, tensor@)));
    }
}

/// The axes of channels split into patches in the order of the frames.
pub open spec fn frame_order() -> Seq<int> {
    seq![0, 1, 4, 5, 3, 6, 2]
}

/// The shape of an array of this shape with its patches unpacked.
pub open spec fn unpatched_dims(d: Seq<nat>, p: nat) -> Seq<nat> {
    if p == 1 {
        d
    } else {
        seq![d[0], d[1] / (p * p), d[2], d[3] * p, d[4] * p]
    }
}

/// `b (c r q) f h w -> b c f (h q) (w r)`.
pub open spec fn unpatchify_spatial_of(x: TensorView, p: nat) -> TensorView {
    if p == 1 {
        x
    } else {
        let (b, f, h, w) = (x.dims[0], x.dims[2], x.dims[3], x.dims[4]);
        let c = x.dims[1] / (p * p);
        let grid = model::reshape(x, seq![b, c, p, p, f, h, w]);
        model::reshape(model::permute(grid, frame_order()), seq![b, c, f, h * p, w * p])
    }
}

/// `b (c r q) f h w -> b c f (h q) (w r)`.
pub fn unpatchify_spatial(x: &Array, patch_size: usize) -> (r: Result<Array, Failure>)
    ensures
        r matches Ok(t) ==> t@ == unpatchify_spatial_of(x@, patch_size as nat),
        patch_size == 1 ==> r is Ok,
        r is Ok && patch_size != 1 ==> x@.rank() == 5 && patch_size > 0,
        x@.rank() != 5 && patch_size != 1 ==> r == Err::<Array, Failure>(
            Failure::Rank { expected: 5, got: x@.rank() as usize },
        ),
        r matches Err(e) ==> e.basic(),
        x.usable() && x@.rank() == 5 && patch_size > 0 && x@.dims[1] % (patch_size * patch_size) as nat == 0
            && model::numel(x@.dims) > 0 && model::fits(x@.dims) ==> (r matches Ok(t) && t.on_cpu() && t@.dtype
            == x@.dtype && t@.dims == unpatched_dims(x@.dims, patch_size as nat)),
{
    if patch_size == 1 {
        return Ok(x.clone());
    }
    let (b, c_packed, f, h, w) = x.dims5()?;
    let p: usize = patch_size;
    let ghost fine = p > 0 && c_packed as nat % (p * p) as nat == 0 && model::numel(x@.dims) > 0 && model::fits(x@.dims);
    proof {
        assert(x@.dims =~= seq![b as nat, c_packed as nat, f as nat, h as nat, w as nat]);
        if fine {
            lemma_unpacked_counts(b as nat, c_packed as nat, p as nat, f as nat, h as nat, w as nat);
        }
    }
    let patch: usize = product3(1, p, p)?;
    if patch == 0 {
        return Err(Failure::Shape);
    }
    let c: usize = c_packed / patch;
    let dims: Vec<usize> = vec![b, c, p, p, f, h, w];
    assert(model::nats(dims@) =~= seq![
        b as nat,
        c as nat,
        p as nat,
        p as nat,
        f as nat,
        h as nat,
        w as nat,
    ]);
    let x = x.reshape(&dims)?;
    let order: Vec<usize> = vec![0, 1, 4, 5, 3, 6, 2];
    assert(array::axes(order@) =~= frame_order());
    proof {
        lemmas::lemma_permute_dims(x@, frame_order());
    }
    let x = x.permute(&order)?;
    assert(x@.dims =~= seq![b as nat, c as nat, f as nat, h as nat, p as nat, w as nat, p as nat]);
    match (h.checked_mul(p), w.checked_mul(p)) {
        (Some(h), Some(w)) => x.contiguous()?.reshape5(b, c, f, h, w),
        _ => Err(Failure::Overflow),
    }
}

/// Unpacking patches keeps the number of elements.
proof fn lemma_unpacked_counts(b: nat, packed: nat, p: nat, f: nat, h: nat, w: nat)
    requires
        p > 0,
        packed % (p * p) == 0,
        model::numel(seq![b, packed, f, h, w]) > 0,
        model::fits(seq![b, packed, f, h, w]),
    ensures
        ({
            let c = packed / (p * p);
            let n = model::numel(seq![b, packed, f, h, w]);
            &&& model::numel(seq![b, c, p, p, f, h, w]) == n
            &&& model::numel(seq![b, c, f, h, p, w, p]) == n
            &&& model::numel(seq![b, c, f, h * p, w * p]) == n
            &&& model::fits(seq![b, c, p, p, f, h, w])
            &&& model::fits(seq![b, c, f, h * p, w * p])
        }),
        0 < p * p <= usize::MAX,
        h * p <= usize::MAX && w * p <= usize::MAX,
{
    let patch = p * p;
    let c = packed / patch;
    assert(patch > 0) by (nonlinear_arith)
        requires
            patch == p * p,
            p > 0,
    ;
    vstd::arithmetic::div_mod::lemma_fundamental_div_mod(packed as int, patch as int);
    assert(packed == patch * c);
    let room: Seq<nat> = seq![b, packed, f, h, w];
    lemmas::lemma_numel5(b, packed, f, h, w);
    lemmas::lemma_numel7(b, c, p, p, f, h, w);
    lemmas::lemma_numel7(b, c, f, h, p, w, p);
    lemmas::lemma_numel5(b, c, f, h * p, w * p);
    assert(b * c * p * p * f * h * w == b * (p * p * c) * f * h * w) by (nonlinear_arith);
    assert(b * c * f * h * p * w * p == b * (p * p * c) * f * h * w) by (nonlinear_arith);
    assert(b * c * f * (h * p) * (w * p) == b * (p * p * c) * f * h * w) by (nonlinear_arith);
    let (hp, wp) = (h * p, w * p);
    lemmas::lemma_factors(b * c * f, hp, wp);
    lemmas::lemma_factors(b * packed * f, h, w);
    lemmas::lemma_factors(b, packed, f);
    lemmas::lemma_factors(patch, c, 1);
    lemmas::lemma_extent_is_numel(room);
    lemmas::lemma_room(seq![b, c, p, p, f, h, w], room);
    lemmas::lemma_room(seq![b, c, f, hp, wp], room);
}

/// Unpacking patches puts the element of channel `(c p + r) p + q` at `(f, h, w)` into
/// channel `c` at `(f, h p + q, w p + r)`.
pub proof fn law_unpatchify_spatial(
    x: TensorView,
    p: nat,
    b: int,
    c: int,
    r: int,
    q: int,
    f: int,
    h: int,
    w: int,
)
    requires
        x.wf(),
        x.rank() == 5,
        p > 1,
        x.dims[1] % (p * p) == 0,
        0 <= b < x.dims[0],
        0 <= c < x.dims[1] / (p * p),
        0 <= r < p,
        0 <= q < p,
        0 <= f < x.dims[2],
        0 <= h < x.dims[3],
        0 <= w < x.dims[4],
    ensures
        unpatchify_spatial_of(x, p).at(seq![b, c, f, h * p + q, w * p + r]) == x.at(
            seq![b, (c * p + r) * p + q, f, h, w],
        ),
{
    let (nb, nf, nh, nw) = (x.dims[0], x.dims[2], x.dims[3], x.dims[4]);
    let block = p * p;
    let n = x.dims[1] / block;
    assert(block > 0) by (nonlinear_arith)
        requires
            block == p * p,
            p > 1,
    ;
    assert(x.dims[1] == n * p * p) by {
        vstd::arithmetic::div_mod::lemma_fundamental_div_mod(x.dims[1] as int, block as int);
        assert(block * n == n * p * p) by (nonlinear_arith)
            requires
                block == p * p,
        ;
    }
    let grid_dims: Seq<nat> = seq![nb, n, p, p, nf, nh, nw];
    let grid = model::reshape(x, grid_dims);
    assert(grid.wf()) by {
        lemmas::lemma_numel5(nb, x.dims[1], nf, nh, nw);
        assert(x.dims =~= seq![nb, x.dims[1], nf, nh, nw]);
        lemmas::lemma_numel7(nb, n, p, p, nf, nh, nw);
        assert(nb * (n * p * p) == nb * n * p * p) by (nonlinear_arith);
    }
    let idx = seq![b, c, r, q, f, h, w];
    let moved = model::permute(grid, frame_order());
    lemmas::lemma_permute_at(grid, frame_order(), idx);
    let moved_dims: Seq<nat> = seq![nb, n, nf, nh, p, nw, p];
    assert(moved.dims =~= moved_dims);
    let o = seq![b, c, f, h, q, w, r];
    assert(Seq::new(7, |k: int| idx[frame_order()[k]]) =~= o);
    assert(grid.at(idx) == x.at(seq![b, (c * p + r) * p + q, f, h, w])) by {
        lemmas::lemma_ravel7(grid_dims, idx);
        lemmas::lemma_ravel5(x.dims, seq![b, (c * p + r) * p + q, f, h, w]);
        lemmas::lemma_merge_axes(b, n as int, c, p as int, r);
        lemmas::lemma_merge_axes(b, (n * p) as int, c * p + r, p as int, q);
    }
    assert(model::ravel(moved_dims, o) == model::ravel(
        seq![nb, n, nf, nh * p, nw * p],
        seq![b, c, f, h * p + q, w * p + r],
    )) by {
        lemmas::lemma_ravel7(moved_dims, o);
        lemmas::lemma_ravel5(
            seq![nb, n, nf, nh * p, nw * p],
            seq![b, c, f, h * p + q, w * p + r],
        );
        let r0 = (b * n + c) * nf + f;
        lemmas::lemma_merge_axes(r0, nh as int, h, p as int, q);
        let r1 = (r0 * nh + h) * p + q;
        lemmas::lemma_merge_axes(r1, nw as int, w, p as int, r);
    }
}

} // verus!
