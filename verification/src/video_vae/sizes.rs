//! How large decoded videos are.
use vstd::prelude::*;

use crate::base::config::BlockSettings;
use crate::base::statistics::PerChannelStatistics;
use crate::lemmas;
use crate::model::{self, BinOp, TensorView};
use crate::nn::activation;
use crate::nn::conv3d::{self, CausalConv3d, Conv3d, SpatialPaddingMode};
use crate::nn::group_norm::GroupNorm;
use crate::video_vae::decoder::{self, BlockStyle, DecoderBlock, VideoDecoder};
use crate::video_vae::resnet::{self, NormLayer, ResnetBlock3D, UNetMidBlock3D};
use crate::video_vae::tiling;
use crate::video_vae::upsample::{self, DepthToSpaceUpsample};
use crate::video_vae::upsampler::{self, LatentUpsampler, SpatialX2, UpsamplerResBlock};
use crate::weights::WeightsView;

verus! {

pub(crate) proof fn lemma_silu_dims(x: TensorView)
    ensures
        activation::silu_of(x).dims == x.dims,
{
    lemmas::lemma_binary_dims(BinOp::Times, x, model::unary(model::UnOp::Sigmoid, x));
}

/// A window that moves by one has as many positions as there are elements, but for what
/// the padding does not make up for.
pub(crate) proof fn lemma_windows(n: nat, k: nat, padding: nat)
    requires
        k >= 1,
        n + 2 * padding >= k - 1,
    ensures
        model::windows(n, k, padding, 1, 1) == n + 2 * padding - (k - 1),
{
    assert(1 * (k - 1) == k - 1);
}

/// Whether a convolution moves by one, keeps height and width, and has this many channels
/// and this kernel.
pub open spec fn keeps_space(c: Conv3d, out_channels: nat, k: nat) -> bool {
    &&& k >= 1
    &&& c.weight@.rank() == 5
    &&& c.weight@.dims[0] == out_channels
    &&& c.weight@.dims[2] == k
    &&& c.weight@.dims[3] == k
    &&& c.weight@.dims[4] == k
    &&& c.bias matches Some(b) ==> b@.dims == seq![out_channels]
    &&& c.stride == (1usize, 1usize, 1usize)
    &&& k == 2 * c.padding.1 + 1
    &&& k == 2 * c.padding.2 + 1
}

pub(crate) proof fn lemma_reflect_dims(x: TensorView, p: nat)
    requires
        x.rank() == 4,
    ensures
        conv3d::reflect_pad_of(x, p, p).dims == seq![x.dims[0], x.dims[1], x.dims[2] + 2 * p, x.dims[3] + 2 * p],
{
    reveal(model::index_select);
    assert(conv3d::reflect_pad_of(x, p, p).dims =~= seq![
        x.dims[0],
        x.dims[1],
        x.dims[2] + 2 * p,
        x.dims[3] + 2 * p,
    ]);
}

#[verifier::spinoff_prover]
pub(crate) proof fn lemma_tap_dims(c: Conv3d, x: TensorView, padded: TensorView, kt: nat, out_channels: nat, k: nat)
    requires
        keeps_space(c, out_channels, k),
        x.rank() == 5,
        padded.rank() == 5,
        padded.dims[0] == x.dims[0],
        padded.dims[1] == x.dims[1],
        padded.dims[3] == x.dims[3],
        padded.dims[4] == x.dims[4],
    ensures
        c.tap(x, padded, kt).dims == seq![
            x.dims[0],
            out_channels,
            c.frames_out(x.dims[2]),
            x.dims[3],
            x.dims[4],
        ],
{
    let frames = c.frames_out(x.dims[2]);
    let slice = model::narrow(padded, 2, kt, frames);
    let images = model::reshape(
        model::transpose(slice, 1, 2),
        seq![x.dims[0] * frames, x.dims[1], x.dims[3], x.dims[4]],
    );
    lemmas::lemma_narrow_dims(c.weight@, 2, kt, 1);
    let kernel = model::squeeze(model::narrow(c.weight@, 2, kt, 1), 2);
    assert(kernel.dims =~= seq![out_channels, c.weight@.dims[1], k, k]);
    let p = c.padding.1 as nat;
    reveal(model::conv2d);
    let y = match c.spatial_padding_mode {
        SpatialPaddingMode::Zeros => model::conv2d(images, kernel, None, p, 1, 1, c.groups as nat),
        SpatialPaddingMode::Reflect => model::conv2d(
            conv3d::reflect_pad_of(images, p, p),
            kernel,
            None,
            0,
            1,
            1,
            c.groups as nat,
        ),
    };
    lemma_windows(x.dims[3], k, p);
    lemma_windows(x.dims[4], k, p);
    lemma_windows(x.dims[3] + 2 * p, k, 0);
    lemma_windows(x.dims[4] + 2 * p, k, 0);
    lemma_reflect_dims(images, p);
    assert(y.dims =~= seq![x.dims[0] * frames, out_channels, x.dims[3], x.dims[4]]);
    let shaped = model::reshape(y, seq![x.dims[0], frames, y.dims[1], y.dims[2], y.dims[3]]);
    lemmas::lemma_permute_dims(shaped, model::swapped(5, 1, 2));
    assert(model::transpose(shaped, 1, 2).dims =~= seq![x.dims[0], out_channels, frames, x.dims[3], x.dims[4]]);
    assert(c.tap(x, padded, kt) == model::transpose(shaped, 1, 2));
}

pub(crate) proof fn lemma_taps_dims(c: Conv3d, x: TensorView, padded: TensorView, n: nat, out_channels: nat, k: nat)
    requires
        keeps_space(c, out_channels, k),
        x.rank() == 5,
        padded.rank() == 5,
        padded.dims[0] == x.dims[0],
        padded.dims[1] == x.dims[1],
        padded.dims[3] == x.dims[3],
        padded.dims[4] == x.dims[4],
    ensures
        c.taps(x, padded, n).dims == seq![
            x.dims[0],
            out_channels,
            c.frames_out(x.dims[2]),
            x.dims[3],
            x.dims[4],
        ],
    decreases n,
{
    if n <= 1 {
        lemma_tap_dims(c, x, padded, 0, out_channels, k);
    } else {
        lemma_taps_dims(c, x, padded, (n - 1) as nat, out_channels, k);
        lemma_tap_dims(c, x, padded, (n - 1) as nat, out_channels, k);
        lemmas::lemma_binary_dims(
            BinOp::Plus,
            c.taps(x, padded, (n - 1) as nat),
            c.tap(x, padded, (n - 1) as nat),
        );
    }
}

/// The size of what a convolution computes.
pub(crate) proof fn lemma_conv_dims(c: Conv3d, x: TensorView, out_channels: nat, k: nat)
    requires
        keeps_space(c, out_channels, k),
        x.rank() == 5,
        x.dims[2] + 2 * c.padding.0 >= k - 1,
    ensures
        c.apply(x).dims == seq![
            x.dims[0],
            out_channels,
            (x.dims[2] + 2 * c.padding.0 - (k - 1)) as nat,
            x.dims[3],
            x.dims[4],
        ],
{
    reveal(Conv3d::apply);
    let padded = c.padded_in_time(x);
    let p_t = c.padding.0 as nat;
    if p_t > 0 {
        let pad = model::zeros(seq![x.dims[0], x.dims[1], p_t, x.dims[3], x.dims[4]], x.dtype);
        let parts = seq![pad, x, pad];
        assert(model::joinable(parts, 2));
        model::lemma_cat_dims(parts, 2);
    }
    lemma_taps_dims(c, x, padded, k, out_channels, k);
    lemma_windows(x.dims[2], k, p_t);
    let sum = c.taps(x, padded, k);
    if let Some(b) = c.bias {
        lemmas::lemma_numel1(out_channels);
        lemmas::lemma_binary_dims(
            BinOp::Plus,
            sum,
            model::reshape(b@, seq![1, model::numel(b@.dims), 1, 1, 1]),
        );
    }
}

pub(crate) proof fn lemma_extended_dims(c: CausalConv3d, x: TensorView, causal: bool)
    requires
        c.time_kernel_size == 3,
        x.rank() == 5,
    ensures
        c.extended(x, causal).dims == seq![x.dims[0], x.dims[1], x.dims[2] + 2, x.dims[3], x.dims[4]],
{
    let first = model::narrow(x, 2, 0, 1);
    let last = model::narrow(x, 2, (x.dims[2] - 1) as nat, 1);
    lemmas::lemma_narrow_dims(x, 2, 0, 1);
    lemmas::lemma_narrow_dims(x, 2, (x.dims[2] - 1) as nat, 1);
    let parts = if causal {
        seq![first, first, x]
    } else {
        seq![first, x, last]
    };
    if causal {
        assert(Seq::new(2, |i: int| first).push(x) =~= parts);
    } else {
        assert(Seq::new(1, |i: int| first).push(x) + Seq::new(1, |i: int| last) =~= parts);
    }
    assert(model::joinable(parts, 2));
    model::lemma_cat_dims(parts, 2);
    reveal_with_fuel(model::joined_size, 4);
    assert(parts.drop_last().drop_last().drop_last() =~= Seq::empty());
    assert(model::joined_size(parts, 2) == x.dims[2] + 2);
    assert(c.extended(x, causal).dims =~= seq![x.dims[0], x.dims[1], x.dims[2] + 2, x.dims[3], x.dims[4]]);
}

/// A convolution of the decoder changes nothing but the number of channels.
pub(crate) proof fn lemma_causal_conv_dims(
    c: CausalConv3d,
    x: TensorView,
    causal: bool,
    vb: WeightsView,
    in_channels: nat,
    out_channels: nat,
    mode: SpatialPaddingMode,
)
    requires
        c.loaded(vb, 3, (1, 1, 1), 1, true, mode),
        Conv3d::present(vb.pp("conv"@), in_channels, out_channels, 3, 1, true),
        x.rank() == 5,
    ensures
        c.apply(x, causal).dims == seq![x.dims[0], out_channels, x.dims[2], x.dims[3], x.dims[4]],
{
    reveal(CausalConv3d::apply);
    lemma_extended_dims(c, x, causal);
    lemma_conv_dims(c.conv, c.extended(x, causal), out_channels, 3);
}

/// A normalisation keeps the size.
pub(crate) proof fn lemma_norm_dims(n: NormLayer, x: TensorView)
    requires
        x.rank() == 5,
        n matches NormLayer::PixelNorm(p) ==> p.dim == 1,
    ensures
        n.apply(x).dims == x.dims,
{
    reveal(model::group_norm);
    reveal(model::mean_keepdim);
    if let NormLayer::PixelNorm(p) = n {
        let wide = model::cast(x, model::Dtype::F32);
        let mean_sq = model::mean_keepdim(model::unary(model::UnOp::Sqr, wide), 1);
        let padded = model::affine(mean_sq, model::number(crate::scalar::ONE), model::number(p.eps));
        lemmas::lemma_binary_dims(BinOp::Over, wide, model::unary(model::UnOp::Sqrt, padded));
    }
}

/// The size of a modulation.
pub(crate) proof fn lemma_ada_dims(
    table: TensorView,
    ts: TensorView,
    rows: nat,
    channels: nat,
    batch: nat,
    dtype: model::Dtype,
    i: nat,
)
    requires
        table.dims == seq![rows, channels],
        ts.rank() == 5,
        ts.dims[2] == 1,
        ts.dims[3] == 1,
        ts.dims[4] == 1,
    ensures
        resnet::ada_row(resnet::ada_values_of(table, ts, rows, batch, dtype), i).dims == seq![
            batch,
            channels,
            1,
            1,
            1,
        ],
{
    let values = resnet::ada_values_of(table, ts, rows, batch, dtype);
    let wide = model::cast(
        model::reshape(model::unsqueeze(table, 0), seq![1, rows, channels, 1, 1, 1]),
        dtype,
    );
    let moved = model::reshape(ts, seq![batch, rows, channels, 1, 1, 1]);
    assert(moved.dims =~= seq![batch, rows, channels, 1, 1, 1]);
    lemmas::lemma_binary_dims_flipped(BinOp::Plus, wide, moved);
    lemmas::lemma_narrow_dims(values, 1, i, 1);
    assert(resnet::ada_row(values, i).dims =~= seq![batch, channels, 1, 1, 1]);
}

pub(crate) proof fn lemma_modulated_dims(h: TensorView, shift: TensorView, scale: TensorView)
    requires
        lemmas::spreads(shift.dims, h.dims),
        lemmas::spreads(scale.dims, h.dims),
    ensures
        resnet::modulated(h, shift, scale).dims == h.dims,
{
    let more = model::affine(scale, model::number(crate::scalar::ONE), model::number(crate::scalar::ONE));
    lemmas::lemma_binary_dims(BinOp::Times, h, more);
    lemmas::lemma_binary_dims(BinOp::Plus, model::binary(BinOp::Times, h, more), shift);
}

/// Whether this can be an embedded timestep for the blocks of a decoder.
pub open spec fn embeds(ts: Option<TensorView>) -> bool {
    ts matches Some(t) ==> t.rank() == 5 && t.dims[2] == 1 && t.dims[3] == 1 && t.dims[4] == 1
}

/// A residual block changes nothing but the number of channels.
#[verifier::spinoff_prover]
proof fn lemma_resnet_dims(
    b: ResnetBlock3D,
    x: TensorView,
    causal: bool,
    ts: Option<TensorView>,
    in_channels: nat,
    out_channels: nat,
    style: BlockStyle,
    conditioned: bool,
    vb: WeightsView,
)
    requires
        b.loaded(
            in_channels,
            out_channels,
            style.use_pixel_norm,
            conditioned,
            style.norm_num_groups as nat,
            crate::base::config::NORM_EPS,
            style.spatial_padding_mode,
            vb,
        ),
        ResnetBlock3D::present(
            in_channels,
            out_channels,
            style.use_pixel_norm,
            conditioned,
            style.norm_num_groups as nat,
            vb,
        ),
        conditioned ==> in_channels == out_channels,
        x.rank() == 5,
        x.dims[1] == in_channels,
        embeds(ts),
    ensures
        b.apply(x, causal, ts).dims == seq![x.dims[0], out_channels, x.dims[2], x.dims[3], x.dims[4]],
{
    reveal(ResnetBlock3D::loaded);
    reveal(ResnetBlock3D::present);
    reveal(ResnetBlock3D::apply);
    let mode = style.spatial_padding_mode;
    let end = seq![x.dims[0], out_channels, x.dims[2], x.dims[3], x.dims[4]];
    let values = b.values(x, ts);
    let n1 = b.norm1.apply(x);
    lemma_norm_dims(b.norm1, x);
    if values is Some {
        let table = b.scale_shift_table->0@;
        lemma_ada_dims(table, ts->0, 4, in_channels, x.dims[0], n1.dtype, 0);
        lemma_ada_dims(table, ts->0, 4, in_channels, x.dims[0], n1.dtype, 1);
        lemma_ada_dims(table, ts->0, 4, in_channels, x.dims[0], n1.dtype, 2);
        lemma_ada_dims(table, ts->0, 4, in_channels, x.dims[0], n1.dtype, 3);
        lemma_modulated_dims(n1, resnet::ada_row(values->0, 0), resnet::ada_row(values->0, 1));
    }
    let h1 = ResnetBlock3D::maybe_modulated(n1, values, 0);
    lemma_silu_dims(h1);
    let c1 = b.conv1.apply(activation::silu_of(h1), causal);
    lemma_causal_conv_dims(
        b.conv1,
        activation::silu_of(h1),
        causal,
        vb.pp("conv1"@),
        in_channels,
        out_channels,
        mode,
    );
    assert(c1.dims =~= end);
    let n2 = b.norm2.apply(c1);
    lemma_norm_dims(b.norm2, c1);
    if values is Some {
        lemma_modulated_dims(n2, resnet::ada_row(values->0, 2), resnet::ada_row(values->0, 3));
    }
    let h2 = ResnetBlock3D::maybe_modulated(n2, values, 2);
    lemma_silu_dims(h2);
    lemma_causal_conv_dims(
        b.conv2,
        activation::silu_of(h2),
        causal,
        vb.pp("conv2"@),
        out_channels,
        out_channels,
        mode,
    );
    let c2 = b.conv2.apply(activation::silu_of(h2), causal);
    assert(c2.dims =~= end);
    lemma_norm_dims(b.norm3, x);
    if in_channels != out_channels {
        lemma_conv_dims(b.conv_shortcut->0, b.norm3.apply(x), out_channels, 1);
    }
    assert(b.skip(x).dims =~= end);
    lemmas::lemma_binary_dims(BinOp::Plus, b.skip(x), c2);
}

/// Residual blocks keep the size.
proof fn lemma_mid_block_dims(
    b: UNetMidBlock3D,
    x: TensorView,
    causal: bool,
    embedding: Option<TensorView>,
    n: nat,
    channels: nat,
    num_layers: nat,
    style: BlockStyle,
    vb: WeightsView,
)
    requires
        b.loaded(
            channels,
            num_layers,
            style.use_pixel_norm,
            style.timestep_conditioning,
            style.norm_num_groups as nat,
            crate::base::config::NORM_EPS,
            style.spatial_padding_mode,
            vb,
        ),
        UNetMidBlock3D::present(
            channels,
            num_layers,
            style.use_pixel_norm,
            style.timestep_conditioning,
            style.norm_num_groups as nat,
            vb,
        ),
        n <= num_layers,
        x.rank() == 5,
        x.dims[1] == channels,
        embeds(embedding),
    ensures
        b.after_blocks(x, causal, embedding, n).dims == x.dims,
    decreases n,
{
    if n > 0 {
        let i = n - 1;
        lemma_mid_block_dims(b, x, causal, embedding, i as nat, channels, num_layers, style, vb);
        let here = b.after_blocks(x, causal, embedding, i as nat);
        assert(UNetMidBlock3D::block_loaded(
            b.res_blocks@[i],
            i as nat,
            channels,
            style.use_pixel_norm,
            style.timestep_conditioning,
            style.norm_num_groups as nat,
            crate::base::config::NORM_EPS,
            style.spatial_padding_mode,
            vb,
        ));
        lemma_resnet_dims(
            b.res_blocks@[i],
            here,
            causal,
            embedding,
            channels,
            channels,
            style,
            style.timestep_conditioning,
            vb.pp("res_blocks"@).at(i as nat),
        );
        assert(x.dims =~= seq![x.dims[0], channels, x.dims[2], x.dims[3], x.dims[4]]);
    }
}

/// Whether a block doubles the number of frames, but for the first.
pub open spec fn doubles_time(name: Seq<char>) -> bool {
    name == "compress_time"@ || name == "compress_all"@
}

/// Whether a block doubles height and width.
pub open spec fn doubles_space(name: Seq<char>) -> bool {
    name == "compress_space"@ || name == "compress_all"@
}

/// The kind of block `i` of the decoder, where `blocks` are listed in the order of the
/// encoder.
pub open spec fn up_block_name(blocks: Seq<(String, BlockSettings)>, i: nat) -> Seq<char> {
    blocks[blocks.len() - 1 - i].0@
}

/// By what factor the first `n` blocks of the decoder stretch time.
pub open spec fn time_scale(blocks: Seq<(String, BlockSettings)>, n: nat) -> nat
    decreases n,
{
    if n == 0 {
        1
    } else {
        let before = time_scale(blocks, (n - 1) as nat);
        if doubles_time(up_block_name(blocks, (n - 1) as nat)) {
            2 * before
        } else {
            before
        }
    }
}

/// By what factor the first `n` blocks of the decoder enlarge height and width.
pub open spec fn space_scale(blocks: Seq<(String, BlockSettings)>, n: nat) -> nat
    decreases n,
{
    if n == 0 {
        1
    } else {
        let before = space_scale(blocks, (n - 1) as nat);
        if doubles_space(up_block_name(blocks, (n - 1) as nat)) {
            2 * before
        } else {
            before
        }
    }
}

/// Moving channels into time and space enlarges both and drops the first frame.
proof fn lemma_depth_to_space_dims(
    b: DepthToSpaceUpsample,
    x: TensorView,
    causal: bool,
    stride: (usize, usize, usize),
    in_channels: nat,
    factor: nat,
    mode: SpatialPaddingMode,
    vb: WeightsView,
)
    requires
        b.loaded(stride, mode, vb),
        DepthToSpaceUpsample::present(in_channels, stride, factor, vb),
        x.rank() == 5,
        x.dims[2] >= 1,
        stride.0 == 1 || stride.0 == 2,
        stride.1 == 1 || stride.1 == 2,
        stride.2 == stride.1,
        in_channels % factor == 0,
    ensures
        b.apply(x, causal).dims == seq![
            x.dims[0],
            in_channels / factor,
            (stride.0 * (x.dims[2] - 1) + 1) as nat,
            stride.1 as nat * x.dims[3],
            stride.2 as nat * x.dims[4],
        ],
{
    let block = (stride.0 * stride.1 * stride.2) as nat;
    let out_channels = (block * in_channels) / factor;
    lemma_causal_conv_dims(b.conv, x, causal, vb.pp("conv"@), in_channels, out_channels, mode);
    let flat = b.conv.apply(x, causal);
    let y = upsample::depth_to_space_of(flat, stride.0 as nat, stride.1 as nat, stride.2 as nat);
    assert(stride.0 as nat * stride.1 as nat * stride.2 as nat == block) by (nonlinear_arith)
        requires
            block == stride.0 * stride.1 * stride.2,
    ;
    assert(block > 0) by (nonlinear_arith)
        requires
            block == stride.0 * stride.1 * stride.2,
            stride.0 > 0,
            stride.1 > 0,
            stride.2 > 0,
    ;
    assert(out_channels / block == in_channels / factor) by {
        let q = in_channels / factor;
        vstd::arithmetic::div_mod::lemma_fundamental_div_mod(in_channels as int, factor as int);
        assert(block * in_channels == factor * (block * q)) by (nonlinear_arith)
            requires
                in_channels == factor * q,
        ;
        vstd::arithmetic::div_mod::lemma_div_multiples_vanish((block * q) as int, factor as int);
        vstd::arithmetic::div_mod::lemma_div_multiples_vanish(q as int, block as int);
    }
    let d = x.dims[2];
    assert(d * stride.0 as nat == stride.0 * (d - 1) + stride.0) by (nonlinear_arith);
    assert(x.dims[3] * stride.1 as nat == stride.1 as nat * x.dims[3]) by (nonlinear_arith);
    assert(x.dims[4] * stride.2 as nat == stride.2 as nat * x.dims[4]) by (nonlinear_arith);
    assert(y.dims =~= seq![
        x.dims[0],
        in_channels / factor,
        d * stride.0 as nat,
        x.dims[3] * stride.1 as nat,
        x.dims[4] * stride.2 as nat,
    ]);
    if stride.0 == 2 {
        lemmas::lemma_narrow_dims(y, 2, 1, (y.dims[2] - 1) as nat);
    }
    assert(b.apply(x, causal).dims =~= seq![
        x.dims[0],
        in_channels / factor,
        (stride.0 * (d - 1) + 1) as nat,
        stride.1 as nat * x.dims[3],
        stride.2 as nat * x.dims[4],
    ]);
}

/// The size behind a block of the decoder.
#[verifier::spinoff_prover]
proof fn lemma_block_dims(
    b: DecoderBlock,
    x: TensorView,
    causal: bool,
    ts: Option<TensorView>,
    name: Seq<char>,
    config: BlockSettings,
    in_channels: nat,
    style: BlockStyle,
    vb: WeightsView,
)
    requires
        b.loaded(name, config, in_channels, style, vb),
        DecoderBlock::present(name, config, in_channels, style, vb),
        decoder::inverse_multiplier_of(name, config) > 0,
        in_channels % (decoder::inverse_multiplier_of(name, config) as nat) == 0,
        x.rank() == 5,
        x.dims[1] == in_channels,
        x.dims[2] >= 1,
    ensures
        b.apply(x, causal, ts).dims == seq![
            x.dims[0],
            in_channels / decoder::inverse_multiplier_of(name, config) as nat,
            (if doubles_time(name) { 2 * (x.dims[2] - 1) + 1 } else { x.dims[2] as int }) as nat,
            if doubles_space(name) { 2 * x.dims[3] } else { x.dims[3] },
            if doubles_space(name) { 2 * x.dims[4] } else { x.dims[4] },
        ],
{
    reveal(DecoderBlock::loaded);
    reveal(DecoderBlock::present);
    reveal(DecoderBlock::apply);
    reveal_strlit("res_x");
    reveal_strlit("attn_res_x");
    reveal_strlit("res_x_y");
    reveal_strlit("compress_time");
    reveal_strlit("compress_space");
    reveal_strlit("compress_all");
    assert("res_x"@.len() == 5 && "attn_res_x"@.len() == 10 && "res_x_y"@.len() == 7);
    assert("compress_time"@.len() == 13 && "compress_space"@.len() == 14 && "compress_all"@.len() == 12);
    let m = decoder::channel_multiplier_of(name, config) as nat;
    let mode = style.spatial_padding_mode;
    match b {
        DecoderBlock::ResX(mid) => {
            let embedding = mid.embedding(x, ts);
            lemma_mid_block_dims(
                mid,
                x,
                causal,
                embedding,
                mid.res_blocks@.len(),
                in_channels,
                decoder::num_layers_of(config) as nat,
                style,
                vb,
            );
            assert(!doubles_time(name) && !doubles_space(name));
            let one = decoder::inverse_multiplier_of(name, config) as nat;
            assert(one == 1);
            assert(in_channels / one == in_channels) by {
                vstd::arithmetic::div_mod::lemma_div_basics(in_channels as int);
            }
            assert(x.dims =~= seq![x.dims[0], in_channels, x.dims[2], x.dims[3], x.dims[4]]);
        },
        DecoderBlock::ResXY(block) => {
            lemma_resnet_dims(block, x, causal, None, in_channels, in_channels / m, style, false, vb);
        },
        DecoderBlock::CompressTime(up) => {
            lemma_depth_to_space_dims(up, x, causal, (2, 1, 1), in_channels, m, mode, vb);
        },
        DecoderBlock::CompressSpace(up) => {
            lemma_depth_to_space_dims(up, x, causal, (1, 2, 2), in_channels, m, mode, vb);
        },
        DecoderBlock::CompressAll(up) => {
            lemma_depth_to_space_dims(up, x, causal, (2, 2, 2), in_channels, m, mode, vb);
        },
    }
}

/// The size behind the first `n` blocks of a decoder.
pub open spec fn size_behind(
    blocks: Seq<(String, BlockSettings)>,
    latent_channels: nat,
    start: Seq<nat>,
    n: nat,
) -> Seq<nat> {
    seq![
        start[0],
        decoder::width_of(blocks, latent_channels, (blocks.len() - n) as nat),
        (time_scale(blocks, n) * (start[2] - 1) + 1) as nat,
        space_scale(blocks, n) * start[3],
        space_scale(blocks, n) * start[4],
    ]
}

proof fn lemma_scales_positive(blocks: Seq<(String, BlockSettings)>, n: nat)
    ensures
        time_scale(blocks, n) > 0,
        space_scale(blocks, n) > 0,
    decreases n,
{
    if n > 0 {
        lemma_scales_positive(blocks, (n - 1) as nat);
    }
}

/// One more block.
proof fn lemma_size_step(blocks: Seq<(String, BlockSettings)>, latent_channels: nat, start: Seq<nat>, n: nat)
    requires
        n < blocks.len(),
        start.len() == 5,
        start[2] >= 1,
        decoder::inverse_multiplier_of(up_block_name(blocks, n), blocks[blocks.len() - 1 - n].1) > 0,
    ensures
        ({
            let here = size_behind(blocks, latent_channels, start, n);
            let name = up_block_name(blocks, n);
            let m = decoder::inverse_multiplier_of(name, blocks[blocks.len() - 1 - n].1) as nat;
            &&& here[2] >= 1
            &&& here[1] % m == 0
            &&& size_behind(blocks, latent_channels, start, n + 1) == seq![
                here[0],
                here[1] / m,
                (if doubles_time(name) { 2 * (here[2] - 1) + 1 } else { here[2] as int }) as nat,
                if doubles_space(name) { 2 * here[3] } else { here[3] },
                if doubles_space(name) { 2 * here[4] } else { here[4] },
            ]
        }),
{
    let k = blocks.len() - 1 - n;
    let name = up_block_name(blocks, n);
    let m = decoder::inverse_multiplier_of(blocks[k].0@, blocks[k].1) as nat;
    let width = decoder::width_of(blocks, latent_channels, (k + 1) as nat);
    let less = decoder::width_of(blocks, latent_channels, k as nat);
    assert(width == less * m);
    assert(width % m == 0) by {
        vstd::arithmetic::div_mod::lemma_mod_multiples_basic(less as int, m as int);
    }
    decoder::law_decoder_undoes_widths(blocks, latent_channels, k as nat);
    lemma_scales_positive(blocks, n);
    let t = time_scale(blocks, n);
    let s = space_scale(blocks, n);
    let f = start[2] - 1;
    assert(t * f >= 0) by (nonlinear_arith)
        requires
            f >= 0,
            t > 0,
    ;
    assert((2 * t) * f == 2 * (t * f)) by (nonlinear_arith);
    assert((2 * s) * start[3] == 2 * (s * start[3])) by (nonlinear_arith);
    assert((2 * s) * start[4] == 2 * (s * start[4])) by (nonlinear_arith);
}

proof fn lemma_blocks_dims(
    d: VideoDecoder,
    x: TensorView,
    ts: Option<TensorView>,
    n: nat,
    latent_channels: nat,
    blocks: Seq<(String, BlockSettings)>,
    style: BlockStyle,
    vb: WeightsView,
)
    requires
        forall|i: nat|
            i < blocks.len() ==> decoder::up_block_loaded(
                #[trigger] d.up_blocks@[i as int],
                i,
                blocks,
                latent_channels,
                style,
                vb,
            ),
        forall|i: nat|
            i < blocks.len() ==> #[trigger] decoder::up_block_present(i, blocks, latent_channels, style, vb),
        forall|k: int|
            0 <= k < blocks.len() ==> decoder::inverse_multiplier_of(#[trigger] blocks[k].0@, blocks[k].1) > 0,
        n <= blocks.len(),
        x.rank() == 5,
        x.dims[1] == decoder::width_of(blocks, latent_channels, blocks.len()),
        x.dims[2] >= 1,
    ensures
        d.after_blocks(x, ts, n).dims == size_behind(blocks, latent_channels, x.dims, n),
    decreases n,
{
    if n == 0 {
        assert(x.dims =~= size_behind(blocks, latent_channels, x.dims, 0)) by {
            assert(1 * (x.dims[2] - 1) == x.dims[2] - 1);
            assert(1 * x.dims[3] == x.dims[3]);
            assert(1 * x.dims[4] == x.dims[4]);
        }
    } else {
        let i = (n - 1) as nat;
        let k = blocks.len() - 1 - i;
        lemma_blocks_dims(d, x, ts, i, latent_channels, blocks, style, vb);
        let here = d.after_blocks(x, ts, i);
        assert(decoder::inverse_multiplier_of(blocks[k].0@, blocks[k].1) > 0);
        lemma_size_step(blocks, latent_channels, x.dims, i);
        assert(decoder::up_block_loaded(d.up_blocks@[i as int], i, blocks, latent_channels, style, vb));
        assert(decoder::up_block_present(i, blocks, latent_channels, style, vb));
        lemma_block_dims(
            d.up_blocks@[i as int],
            here,
            d.causal,
            ts,
            blocks[k].0@,
            blocks[k].1,
            decoder::width_of(blocks, latent_channels, (k + 1) as nat),
            style,
            vb.at(i),
        );
    }
}

/// Latents keep their size when noise is mixed in and statistics are undone.
proof fn lemma_denormalized_dims(d: VideoDecoder, sample: TensorView, noise: TensorView, channels: nat)
    requires
        sample.rank() == 5,
        sample.dims[1] == channels,
        noise.dims == sample.dims,
        d.per_channel_statistics.mean@.dims == seq![1, channels, 1, 1, 1],
        d.per_channel_statistics.std@.dims == seq![1, channels, 1, 1, 1],
    ensures
        d.denormalized(sample, noise).dims == sample.dims,
{
    let rest = model::binary(
        BinOp::Minus,
        model::number(crate::scalar::ONE),
        model::number(d.decode_noise_scale),
    );
    let zero = model::number(crate::scalar::ZERO);
    lemmas::lemma_binary_dims(
        BinOp::Plus,
        model::affine(noise, model::number(d.decode_noise_scale), zero),
        model::affine(sample, rest, zero),
    );
    lemma_statistics_dims(d.per_channel_statistics, d.noised(sample, noise), channels);
}

/// Statistics change nothing of the size of latents.
pub proof fn lemma_statistics_dims(stats: PerChannelStatistics, x: TensorView, channels: nat)
    requires
        x.rank() == 5,
        x.dims[1] == channels,
        stats.mean@.dims == seq![1, channels, 1, 1, 1],
        stats.std@.dims == seq![1, channels, 1, 1, 1],
    ensures
        stats.denormalized(x).dims == x.dims,
        stats.normalized(x).dims == x.dims,
{
    let mean = model::cast(stats.mean@, x.dtype);
    let std = model::cast(stats.std@, x.dtype);
    lemmas::lemma_binary_dims(BinOp::Times, x, std);
    lemmas::lemma_binary_dims(BinOp::Plus, model::binary(BinOp::Times, x, std), mean);
    lemmas::lemma_binary_dims(BinOp::Minus, x, mean);
    lemmas::lemma_binary_dims(BinOp::Over, model::binary(BinOp::Minus, x, mean), std);
}

/// The scale and shift by the timestep behind the blocks keeps the size.
proof fn lemma_conditioned_dims(d: VideoDecoder, x: TensorView, ts: Option<TensorView>, batch: nat, channels: nat)
    requires
        x.rank() == 5,
        x.dims[0] == batch,
        x.dims[1] == channels,
        d.last_scale_shift_table matches Some(t) ==> t@.dims == seq![2, channels],
    ensures
        d.conditioned(x, ts, batch).dims == x.dims,
{
    if d.timestep_conditioning && d.last_time_embedder is Some && d.last_scale_shift_table is Some && ts is Some {
        let emb = resnet::time_embedding_of(d.last_time_embedder->0, ts->0, batch);
        let table = d.last_scale_shift_table->0@;
        lemma_ada_dims(table, emb, 2, channels, batch, x.dtype, 0);
        lemma_ada_dims(table, emb, 2, channels, batch, x.dtype, 1);
        let values = resnet::ada_values_of(table, emb, 2, batch, x.dtype);
        lemma_modulated_dims(x, resnet::ada_row(values, 0), resnet::ada_row(values, 1));
    }
}

/// `F` latent frames of height `H` and width `W` are decoded into `t (F - 1) + 1` frames of
/// height `s p H` and width `s p W`, where the blocks of the decoder double time `log2 t`
/// times and space `log2 s` times, and `p` is its patch size.
#[verifier::spinoff_prover]
pub proof fn law_decoded_size(
    d: VideoDecoder,
    sample: TensorView,
    timestep: Option<TensorView>,
    noise: TensorView,
    latent_channels: nat,
    out_channels: nat,
    blocks: Seq<(String, BlockSettings)>,
    style: BlockStyle,
    stats_vb: WeightsView,
    vb: WeightsView,
)
    requires
        d.loaded(latent_channels, blocks, d.patch_size, d.causal, style, stats_vb, vb),
        VideoDecoder::present(latent_channels, out_channels, blocks, d.patch_size as nat, style, stats_vb, vb),
        d.patch_size > 0,
        sample.rank() == 5,
        sample.dims[1] == latent_channels,
        sample.dims[2] >= 1,
        d.fits_as_noise(noise, sample),
    ensures
        d.apply(sample, timestep, noise).dims == seq![
            sample.dims[0],
            out_channels,
            (time_scale(blocks, blocks.len()) * (sample.dims[2] - 1) + 1) as nat,
            space_scale(blocks, blocks.len()) * sample.dims[3] * d.patch_size as nat,
            space_scale(blocks, blocks.len()) * sample.dims[4] * d.patch_size as nat,
        ],
{
    reveal(VideoDecoder::apply);
    reveal(VideoDecoder::last_stages);
    let batch = sample.dims[0];
    let n = blocks.len();
    let mode = style.spatial_padding_mode;
    let p = d.patch_size as nat;
    let ts = d.scaled_timestep(timestep, batch);
    lemma_denormalized_dims(d, sample, noise, latent_channels);
    let first = d.entered(sample, noise);
    let width = decoder::width_of(blocks, latent_channels, n);
    lemma_causal_conv_dims(
        d.conv_in,
        d.denormalized(sample, noise),
        d.causal,
        vb.pp("conv_in"@),
        latent_channels,
        width,
        mode,
    );
    lemma_blocks_dims(d, first, ts, n, latent_channels, blocks, style, vb.pp("up_blocks"@));
    let last = d.after_blocks(first, ts, n);
    let normed = d.conv_norm_out.apply(last);
    lemma_norm_dims(d.conv_norm_out, last);
    lemma_conditioned_dims(d, normed, ts, batch, latent_channels);
    let active = activation::silu_of(d.conditioned(normed, ts, batch));
    lemma_silu_dims(d.conditioned(normed, ts, batch));
    let flat = d.conv_out.apply(active, d.causal);
    let packed = out_channels * p * p;
    lemma_causal_conv_dims(d.conv_out, active, d.causal, vb.pp("conv_out"@), latent_channels, packed, mode);
    assert(packed / (p * p) == out_channels) by {
        assert(out_channels * p * p == (p * p) * out_channels) by (nonlinear_arith);
        assert(p * p > 0) by (nonlinear_arith)
            requires
                p > 0,
        ;
        vstd::arithmetic::div_mod::lemma_div_multiples_vanish(out_channels as int, (p * p) as int);
    }
    let s = space_scale(blocks, n);
    assert(p == 1 ==> packed == out_channels && (s * sample.dims[3]) * p == s * sample.dims[3] && (s * sample.dims[4])
        * p == s * sample.dims[4]) by (nonlinear_arith)
        requires
            packed == out_channels * p * p,
    ;
    assert(decoder::unpatchify_spatial_of(flat, p).dims =~= seq![
        batch,
        out_channels,
        (time_scale(blocks, n) * (sample.dims[2] - 1) + 1) as nat,
        s * sample.dims[3] * p,
        s * sample.dims[4] * p,
    ]);
}

/// Decoding in tiles gives a video of the same size as decoding at once.
#[verifier::spinoff_prover]
pub proof fn law_tiled_size(
    d: VideoDecoder,
    sample: TensorView,
    timestep: Option<TensorView>,
    max: nat,
    overlap: nat,
    noises: Seq<TensorView>,
    latent_channels: nat,
    out_channels: nat,
    blocks: Seq<(String, BlockSettings)>,
    style: BlockStyle,
    stats_vb: WeightsView,
    vb: WeightsView,
)
    requires
        d.loaded(latent_channels, blocks, d.patch_size, d.causal, style, stats_vb, vb),
        VideoDecoder::present(latent_channels, out_channels, blocks, d.patch_size as nat, style, stats_vb, vb),
        d.patch_size > 0,
        sample.rank() == 5,
        sample.dims[1] == latent_channels,
        sample.dims[2] >= 1,
        sample.dims[2] > max ==> 0 < overlap < max,
        d.fit_as_noises(noises, sample, max, overlap),
    ensures
        d.tiled(sample, timestep, max, overlap, noises).dims == seq![
            sample.dims[0],
            out_channels,
            (time_scale(blocks, blocks.len()) * (sample.dims[2] - 1) + 1) as nat,
            space_scale(blocks, blocks.len()) * sample.dims[3] * d.patch_size as nat,
            space_scale(blocks, blocks.len()) * sample.dims[4] * d.patch_size as nat,
        ],
{
    let total = sample.dims[2];
    let step = (max - overlap) as nat;
    if total <= max {
        law_decoded_size(
            d,
            sample,
            timestep,
            noises[0],
            latent_channels,
            out_channels,
            blocks,
            style,
            stats_vb,
            vb,
        );
    } else {
        let n = tiling::tile_count(total, max, step);
        let scale = time_scale(blocks, blocks.len());
        let height = space_scale(blocks, blocks.len()) * sample.dims[3] * d.patch_size as nat;
        let width = space_scale(blocks, blocks.len()) * sample.dims[4] * d.patch_size as nat;
        lemma_scales_positive(blocks, blocks.len());
        assert forall|i: nat| i < n implies (#[trigger] d.apply(
            d.tile(sample, max, overlap, i),
            timestep,
            noises[i as int],
        )).dims == seq![
            sample.dims[0],
            out_channels,
            (scale * (tiling::tile_len(total, max, step, i) - 1) + 1) as nat,
            height,
            width,
        ] by {
            tiling::law_tiles_cover(total, max, step, i);
            let tile = d.tile(sample, max, overlap, i);
            lemmas::lemma_narrow_dims(sample, 2, i * step, tiling::tile_len(total, max, step, i) as nat);
            assert(d.fits_as_noise(noises[i as int], tile));
            law_decoded_size(
                d,
                tile,
                timestep,
                noises[i as int],
                latent_channels,
                out_channels,
                blocks,
                style,
                stats_vb,
                vb,
            );
        }
        let all = d.kept_tiles(sample, timestep, max, overlap, noises, n);
        assert forall|i: int| 0 <= i < n implies (#[trigger] all[i]).rank() == 5 && all[i].dims[0] == sample.dims[0]
            && all[i].dims[1] == out_channels && all[i].dims[3] == height && all[i].dims[4] == width by {
            let decoded = d.apply(d.tile(sample, max, overlap, i as nat), timestep, noises[i]);
            assert(all[i] == d.kept(sample, timestep, max, overlap, noises, i as nat));
            if i > 0 {
                let frames = decoded.dims[2];
                let len = tiling::tile_len(total, max, step, i as nat);
                let skip = tiling::frames_to_skip(len, frames as int, overlap as int);
                lemmas::lemma_narrow_dims(decoded, 2, skip as nat, (frames - skip) as nat);
            }
        }
        tiling::law_tiles_cover(total, max, step, 0);
        assert(model::joinable(all, 2));
        assert forall|i: nat| i < n implies {
            let t = #[trigger] d.apply(d.tile(sample, max, overlap, i), timestep, noises[i as int]);
            t.rank() == 5 && t.dims[2] == scale * (tiling::tile_len(total, max, step, i) - 1) + 1
        } by {
            tiling::law_tiles_cover(total, max, step, i);
            let l = tiling::tile_len(total, max, step, i);
            assert(scale * (l - 1) >= 0) by (nonlinear_arith)
                requires
                    l >= 1,
                    scale > 0,
            ;
        }
        tiling::law_tiled_frame_count(d, sample, timestep, max, overlap, noises, scale);
        model::lemma_cat_dims(all, 2);
        assert(d.tiled(sample, timestep, max, overlap, noises) == model::cat(all, 2));
    }
}

proof fn lemma_group_norm_dims(n: GroupNorm, x: TensorView)
    ensures
        n.apply(x).dims == x.dims,
{
    reveal(model::group_norm);
}

/// A convolution of the upsampler changes nothing but the number of channels.
proof fn lemma_padded_conv_dims(c: Conv3d, x: TensorView, in_channels: nat, out_channels: nat, vb: WeightsView)
    requires
        upsampler::conv_loaded(c, vb),
        Conv3d::present(vb, in_channels, out_channels, 3, 1, true),
        x.rank() == 5,
    ensures
        c.apply(x).dims == seq![x.dims[0], out_channels, x.dims[2], x.dims[3], x.dims[4]],
{
    lemma_conv_dims(c, x, out_channels, 3);
}

proof fn lemma_upsampler_blocks_dims(
    blocks: Seq<UpsamplerResBlock>,
    x: TensorView,
    n: nat,
    channels: nat,
    count: nat,
    vb: WeightsView,
)
    requires
        upsampler::blocks_loaded(blocks, channels, count, vb),
        upsampler::blocks_present(channels, count, vb),
        n <= count,
        x.rank() == 5,
        x.dims[1] == channels,
    ensures
        upsampler::after_blocks(blocks, x, n).dims == x.dims,
    decreases n,
{
    if n > 0 {
        let i = n - 1;
        lemma_upsampler_blocks_dims(blocks, x, i as nat, channels, count, vb);
        reveal(UpsamplerResBlock::apply);
        let b = blocks[i];
        let here = upsampler::after_blocks(blocks, x, i as nat);
        assert(b.loaded(channels, vb.at(i as nat)));
        let w = vb.at(i as nat);
        assert(UpsamplerResBlock::present(channels, w));
        assert(x.dims =~= seq![x.dims[0], channels, x.dims[2], x.dims[3], x.dims[4]]);
        let c1 = b.conv1.apply(here);
        lemma_padded_conv_dims(b.conv1, here, channels, channels, w.pp("conv1"@));
        lemma_group_norm_dims(b.norm1, c1);
        let h1 = activation::silu_of(b.norm1.apply(c1));
        lemma_silu_dims(b.norm1.apply(c1));
        let c2 = b.conv2.apply(h1);
        lemma_padded_conv_dims(b.conv2, h1, channels, channels, w.pp("conv2"@));
        lemma_group_norm_dims(b.norm2, c2);
        lemmas::lemma_binary_dims(BinOp::Plus, b.norm2.apply(c2), here);
        lemma_silu_dims(model::binary(BinOp::Plus, b.norm2.apply(c2), here));
    }
}

/// The layer that doubles height and width.
proof fn lemma_spatial_x2_dims(l: SpatialX2, x: TensorView, channels: nat, vb: WeightsView)
    requires
        l.loaded(channels, vb),
        SpatialX2::present(channels, vb),
        x.rank() == 5,
    ensures
        l.apply(x).dims == seq![x.dims[0], channels, x.dims[2], 2 * x.dims[3], 2 * x.dims[4]],
{
    reveal(SpatialX2::apply);
    reveal(model::conv2d);
    let (b, c, f, h, w) = (x.dims[0], x.dims[1], x.dims[2], x.dims[3], x.dims[4]);
    let images = model::reshape(model::transpose(x, 1, 2), seq![b * f, c, h, w]);
    let wide = model::conv2d(images, l.weight@, Some(l.bias@), 1, 1, 1, 1);
    lemma_windows(h, 3, 1);
    lemma_windows(w, 3, 1);
    let large = upsampler::pixel_shuffle_of(wide, channels, 2);
    let shaped = model::reshape(large, seq![b, f, channels, large.dims[2], large.dims[3]]);
    lemmas::lemma_permute_dims(shaped, model::swapped(5, 1, 2));
    assert(l.apply(x).dims =~= seq![b, channels, f, 2 * h, 2 * w]);
}

/// The upsampler doubles height and width and leaves batch, channels and frames.
pub proof fn law_upsampled_size(
    u: LatentUpsampler,
    latent: TensorView,
    in_channels: nat,
    mid_channels: nat,
    blocks: nat,
    vb: WeightsView,
)
    requires
        u.loaded(mid_channels, blocks, vb),
        LatentUpsampler::present(in_channels, mid_channels, blocks, vb),
        latent.rank() == 5,
    ensures
        u.apply(latent).dims == seq![
            latent.dims[0],
            in_channels,
            latent.dims[2],
            2 * latent.dims[3],
            2 * latent.dims[4],
        ],
{
    let c = u.initial_conv.apply(latent);
    lemma_padded_conv_dims(u.initial_conv, latent, in_channels, mid_channels, vb.pp("initial_conv"@));
    lemma_group_norm_dims(u.initial_norm, c);
    lemma_silu_dims(u.initial_norm.apply(c));
    let x = activation::silu_of(u.initial_norm.apply(c));
    lemma_upsampler_blocks_dims(u.res_blocks@, x, blocks, mid_channels, blocks, vb.pp("res_blocks"@));
    let x = upsampler::after_blocks(u.res_blocks@, x, blocks);
    lemma_spatial_x2_dims(u.upsampler, x, mid_channels, vb.pp("upsampler"@).at(0));
    let x = u.upsampler.apply(x);
    lemma_upsampler_blocks_dims(
        u.post_upsample_res_blocks@,
        x,
        blocks,
        mid_channels,
        blocks,
        vb.pp("post_upsample_res_blocks"@),
    );
    let x = upsampler::after_blocks(u.post_upsample_res_blocks@, x, blocks);
    lemma_padded_conv_dims(u.final_conv, x, mid_channels, in_channels, vb.pp("final_conv"@));
}

} // verus!
