//! What residual blocks add to their input, read over the real numbers.
use vstd::prelude::*;

use crate::lemmas;
use crate::model::{self, BinOp, TensorView};
use crate::nn::activation;
use crate::nn::conv3d::{CausalConv3d, Conv3d, SpatialPaddingMode};
use crate::reals::{self, Functions};
use crate::video_vae::decoder::BlockStyle;
use crate::video_vae::resnet::{self, ResnetBlock3D};
use crate::video_vae::sizes;
use crate::weights::WeightsView;

verus! {

/// Whether a block is loaded from a checkpoint, and can be computed from `x`.
pub open spec fn loaded_for(
    b: ResnetBlock3D,
    x: TensorView,
    ts: Option<TensorView>,
    in_channels: nat,
    out_channels: nat,
    style: BlockStyle,
    conditioned: bool,
    vb: WeightsView,
) -> bool {
    &&& b.loaded(
        in_channels,
        out_channels,
        style.use_pixel_norm,
        conditioned,
        style.norm_num_groups as nat,
        crate::base::config::NORM_EPS,
        style.spatial_padding_mode,
        vb,
    )
    &&& ResnetBlock3D::present(
        in_channels,
        out_channels,
        style.use_pixel_norm,
        conditioned,
        style.norm_num_groups as nat,
        vb,
    )
    &&& conditioned ==> in_channels == out_channels
    &&& x.rank() == 5 && x.dims[1] == in_channels && sizes::embeds(ts)
}

/// The shape of what a block computes.
pub open spec fn result_dims(x: TensorView, out_channels: nat) -> Seq<nat> {
    seq![x.dims[0], out_channels, x.dims[2], x.dims[3], x.dims[4]]
}

/// What the second convolution of a block is computed from.
spec fn second_input(b: ResnetBlock3D, x: TensorView, causal: bool, ts: Option<TensorView>) -> TensorView {
    let values = b.values(x, ts);
    let h1 = ResnetBlock3D::maybe_modulated(b.norm1.apply(x), values, 0);
    let c1 = b.conv1.apply(activation::silu_of(h1), causal);
    activation::silu_of(ResnetBlock3D::maybe_modulated(b.norm2.apply(c1), values, 2))
}

proof fn lemma_second_input(
    b: ResnetBlock3D,
    x: TensorView,
    causal: bool,
    ts: Option<TensorView>,
    in_channels: nat,
    out_channels: nat,
    style: BlockStyle,
    conditioned: bool,
    vb: WeightsView,
)
    requires
        loaded_for(b, x, ts, in_channels, out_channels, style, conditioned, vb),
    ensures
        second_input(b, x, causal, ts).dims == result_dims(x, out_channels),
        b.skip(x).dims == result_dims(x, out_channels),
        sizes::keeps_space(b.conv2.conv, out_channels, 3),
        b.conv2.time_kernel_size == 3,
        b.conv2.conv.padding.0 == 0,
{
    reveal(ResnetBlock3D::loaded);
    reveal(ResnetBlock3D::present);
    let mode = style.spatial_padding_mode;
    let end = result_dims(x, out_channels);
    let values = b.values(x, ts);
    let n1 = b.norm1.apply(x);
    sizes::lemma_norm_dims(b.norm1, x);
    if values is Some {
        let table = b.scale_shift_table->0@;
        sizes::lemma_ada_dims(table, ts->0, 4, in_channels, x.dims[0], n1.dtype, 0);
        sizes::lemma_ada_dims(table, ts->0, 4, in_channels, x.dims[0], n1.dtype, 1);
        sizes::lemma_ada_dims(table, ts->0, 4, in_channels, x.dims[0], n1.dtype, 2);
        sizes::lemma_ada_dims(table, ts->0, 4, in_channels, x.dims[0], n1.dtype, 3);
        sizes::lemma_modulated_dims(n1, resnet::ada_row(values->0, 0), resnet::ada_row(values->0, 1));
    }
    let h1 = ResnetBlock3D::maybe_modulated(n1, values, 0);
    sizes::lemma_silu_dims(h1);
    let c1 = b.conv1.apply(activation::silu_of(h1), causal);
    sizes::lemma_causal_conv_dims(
        b.conv1,
        activation::silu_of(h1),
        causal,
        vb.pp("conv1"@),
        in_channels,
        out_channels,
        mode,
    );
    assert(c1.dims =~= end);
    let n2 = b.norm2.apply(c1);
    sizes::lemma_norm_dims(b.norm2, c1);
    if values is Some {
        sizes::lemma_modulated_dims(n2, resnet::ada_row(values->0, 2), resnet::ada_row(values->0, 3));
    }
    sizes::lemma_silu_dims(ResnetBlock3D::maybe_modulated(n2, values, 2));
    sizes::lemma_norm_dims(b.norm3, x);
    if in_channels != out_channels {
        sizes::lemma_conv_dims(b.conv_shortcut->0, b.norm3.apply(x), out_channels, 1);
    }
    assert(b.skip(x).dims =~= end);
}

/// What the kernel of a convolution contributes does not depend on its bias.
proof fn lemma_taps_without_bias(a: Conv3d, b: Conv3d, x: TensorView, padded: TensorView, n: nat)
    requires
        a.weight@ == b.weight@ && a.stride == b.stride && a.padding == b.padding,
        a.spatial_padding_mode == b.spatial_padding_mode && a.groups == b.groups,
    ensures
        a.taps(x, padded, n) == b.taps(x, padded, n),
    decreases n,
{
    if n > 1 {
        lemma_taps_without_bias(a, b, x, padded, (n - 1) as nat);
    }
}

/// An element of what the second convolution computes is what its kernel contributes plus the bias
/// of its channel.
proof fn lemma_conv_at(c: CausalConv3d, y: TensorView, causal: bool, channels: nat, idx: Seq<int>, f: Functions)
    requires
        sizes::keeps_space(c.conv, channels, 3),
        c.time_kernel_size == 3 && c.conv.padding.0 == 0,
        y.rank() == 5,
        model::in_bounds(result_dims(y, channels), idx),
    ensures
        c.apply(y, causal).dims == result_dims(y, channels),
        ({
            let e = c.extended(y, causal);
            let sum = c.conv.taps(e, c.conv.padded_in_time(e), 3);
            &&& sum.dims == result_dims(y, channels)
            &&& c.conv.bias is None ==> c.apply(y, causal) == sum
            &&& c.conv.bias matches Some(b) ==> reals::value(c.apply(y, causal).at(idx), f) == reals::value(
                sum.at(idx),
                f,
            ) + reals::value(b@.cells[idx[1]], f)
        }),
{
    broadcast use reals::group_reading;
    reveal(CausalConv3d::apply);
    reveal(Conv3d::apply);
    sizes::lemma_extended_dims(c, y, causal);
    let e = c.extended(y, causal);
    sizes::lemma_conv_dims(c.conv, e, channels, 3);
    sizes::lemma_taps_dims(c.conv, e, e, 3, channels, 3);
    sizes::lemma_windows(e.dims[2], 3, 0);
    let sum = c.conv.taps(e, e, 3);
    let d = result_dims(y, channels);
    assert(sum.dims =~= d);
    if let Some(b) = c.conv.bias {
        lemmas::lemma_numel1(channels);
        let row: Seq<nat> = seq![1, channels, 1, 1, 1];
        let bias = model::reshape(b@, seq![1, model::numel(b@.dims), 1, 1, 1]);
        assert(bias.dims =~= row);
        lemmas::lemma_spread_common(row, d);
        reals::lemma_binary_at(BinOp::Plus, sum, bias, idx, f);
        assert(lemmas::repeated(d, d, idx) =~= idx);
        let p = seq![0, idx[1], 0, 0, 0];
        assert(lemmas::repeated(row, d, idx) =~= p);
        lemmas::lemma_ravel5(row, p);
        assert(bias.at(p) == b@.cells[idx[1]]);
    }
}

/// Raising the bias of the second convolution of a residual block in a channel raises what the block
/// computes in that channel by as much: the convolutions are added to the input.
pub proof fn law_second_bias_raises(
    g: ResnetBlock3D,
    h: ResnetBlock3D,
    x: TensorView,
    causal: bool,
    ts: Option<TensorView>,
    in_channels: nat,
    out_channels: nat,
    style: BlockStyle,
    conditioned: bool,
    vb: WeightsView,
    delta: spec_fn(int) -> real,
    idx: Seq<int>,
    f: Functions,
)
    requires
        loaded_for(g, x, ts, in_channels, out_channels, style, conditioned, vb),
        h == (ResnetBlock3D {
            conv2: CausalConv3d { conv: Conv3d { bias: h.conv2.conv.bias, ..g.conv2.conv }, ..g.conv2 },
            ..g
        }),
        g.conv2.conv.bias is Some && h.conv2.conv.bias is Some,
        h.conv2.conv.bias->0@.dims == g.conv2.conv.bias->0@.dims,
        forall|c: int|
            0 <= c < out_channels ==> reals::value(#[trigger] h.conv2.conv.bias->0@.cells[c], f) == reals::value(
                g.conv2.conv.bias->0@.cells[c],
                f,
            ) + delta(c),
        model::in_bounds(result_dims(x, out_channels), idx),
    ensures
        reals::value(h.apply(x, causal, ts).at(idx), f) == reals::value(g.apply(x, causal, ts).at(idx), f) + delta(
            idx[1],
        ),
{
    broadcast use reals::group_reading;
    reveal(ResnetBlock3D::apply);
    lemma_second_input(g, x, causal, ts, in_channels, out_channels, style, conditioned, vb);
    let y = second_input(g, x, causal, ts);
    assert(second_input(h, x, causal, ts) == y);
    let d = result_dims(x, out_channels);
    assert(result_dims(y, out_channels) =~= d);
    lemma_conv_at(g.conv2, y, causal, out_channels, idx, f);
    lemma_conv_at(h.conv2, y, causal, out_channels, idx, f);
    let e = g.conv2.extended(y, causal);
    assert(h.conv2.extended(y, causal) == e);
    lemma_taps_without_bias(g.conv2.conv, h.conv2.conv, e, g.conv2.conv.padded_in_time(e), 3);
    assert(h.skip(x) == g.skip(x));
    reals::lemma_binary_at(BinOp::Plus, g.skip(x), g.conv2.apply(y, causal), idx, f);
    reals::lemma_binary_at(BinOp::Plus, h.skip(x), h.conv2.apply(y, causal), idx, f);
    assert(lemmas::repeated(d, d, idx) =~= idx);
    assert(0 <= idx[1] < d[1]);
}

/// What a kernel of zeros contributes is zero.
proof fn lemma_zero_taps(c: Conv3d, x: TensorView, padded: TensorView, n: nat, channels: nat, f: Functions)
    requires
        sizes::keeps_space(c, channels, 3),
        c.weight@.wf(),
        reals::all_zero(c.weight@, f),
        x.rank() == 5 && padded.rank() == 5,
        padded.dims[0] == x.dims[0] && padded.dims[1] == x.dims[1],
        padded.dims[3] == x.dims[3] && padded.dims[4] == x.dims[4],
        n <= 3,
    ensures
        reals::all_zero(c.taps(x, padded, n), f),
        c.taps(x, padded, n).wf(),
    decreases n,
{
    broadcast use reals::group_reading;
    if n <= 1 {
        lemma_zero_tap(c, x, padded, 0, channels, f);
    } else {
        lemma_zero_taps(c, x, padded, (n - 1) as nat, channels, f);
        lemma_zero_tap(c, x, padded, (n - 1) as nat, channels, f);
        sizes::lemma_taps_dims(c, x, padded, (n - 1) as nat, channels, 3);
        sizes::lemma_tap_dims(c, x, padded, (n - 1) as nat, channels, 3);
    }
}

proof fn lemma_zero_tap(c: Conv3d, x: TensorView, padded: TensorView, kt: nat, channels: nat, f: Functions)
    requires
        sizes::keeps_space(c, channels, 3),
        c.weight@.wf(),
        reals::all_zero(c.weight@, f),
        x.rank() == 5 && padded.rank() == 5,
        padded.dims[0] == x.dims[0] && padded.dims[1] == x.dims[1],
        padded.dims[3] == x.dims[3] && padded.dims[4] == x.dims[4],
        kt < 3,
    ensures
        reals::all_zero(c.tap(x, padded, kt), f),
        c.tap(x, padded, kt).wf(),
{
    let frames = c.frames_out(x.dims[2]);
    let slice = model::narrow(padded, 2, kt, frames);
    let images = model::reshape(
        model::transpose(slice, 1, 2),
        seq![x.dims[0] * frames, x.dims[1], x.dims[3], x.dims[4]],
    );
    let part = model::narrow(c.weight@, 2, kt, 1);
    lemmas::lemma_narrow_dims(c.weight@, 2, kt, 1);
    reals::lemma_zero_narrow(c.weight@, 2, kt, 1, f);
    let kernel = model::squeeze(part, 2);
    reals::lemma_squeeze_at(part, 2, seq![0, 0, 0, 0]);
    assert(kernel.dims =~= seq![channels, c.weight@.dims[1], 3, 3]);
    let p = c.padding.1 as nat;
    let y = match c.spatial_padding_mode {
        SpatialPaddingMode::Zeros => model::conv2d(images, kernel, None, p, 1, 1, c.groups as nat),
        SpatialPaddingMode::Reflect => model::conv2d(
            crate::nn::conv3d::reflect_pad_of(images, p, p),
            kernel,
            None,
            0,
            1,
            1,
            c.groups as nat,
        ),
    };
    match c.spatial_padding_mode {
        SpatialPaddingMode::Zeros => {
            reals::lemma_zero_conv2d(images, kernel, p, 1, 1, c.groups as nat, f);
        },
        SpatialPaddingMode::Reflect => {
            reals::lemma_zero_conv2d(
                crate::nn::conv3d::reflect_pad_of(images, p, p),
                kernel,
                0,
                1,
                1,
                c.groups as nat,
                f,
            );
        },
    }
    reveal(model::conv2d);
    sizes::lemma_windows(x.dims[3], 3, p);
    sizes::lemma_windows(x.dims[4], 3, p);
    sizes::lemma_windows(x.dims[3] + 2 * p, 3, 0);
    sizes::lemma_windows(x.dims[4] + 2 * p, 3, 0);
    sizes::lemma_reflect_dims(images, p);
    assert(y.dims =~= seq![x.dims[0] * frames, channels, x.dims[3], x.dims[4]]);
    lemmas::lemma_numel4(x.dims[0] * frames, channels, x.dims[3], x.dims[4]);
    lemmas::lemma_numel5(x.dims[0], frames, channels, x.dims[3], x.dims[4]);
    let shaped = model::reshape(y, seq![x.dims[0], frames, y.dims[1], y.dims[2], y.dims[3]]);
    assert(shaped.wf());
    let order = model::swapped(5, 1, 2);
    assert(model::is_permutation(order, 5));
    reals::lemma_zero_permute(shaped, order, f);
}

/// Where the kernel of the second convolution is zero, a residual block computes the input, or its
/// shortcut, plus the bias of that convolution.
pub proof fn law_zero_kernel_passes(
    b: ResnetBlock3D,
    x: TensorView,
    causal: bool,
    ts: Option<TensorView>,
    in_channels: nat,
    out_channels: nat,
    style: BlockStyle,
    conditioned: bool,
    vb: WeightsView,
    idx: Seq<int>,
    f: Functions,
)
    requires
        loaded_for(b, x, ts, in_channels, out_channels, style, conditioned, vb),
        b.conv2.conv.weight@.wf(),
        reals::all_zero(b.conv2.conv.weight@, f),
        b.conv2.conv.bias is Some,
        model::in_bounds(result_dims(x, out_channels), idx),
    ensures
        in_channels == out_channels ==> reals::value(b.apply(x, causal, ts).at(idx), f) == reals::value(x.at(idx), f)
            + reals::value(b.conv2.conv.bias->0@.cells[idx[1]], f),
        in_channels != out_channels ==> reals::value(b.apply(x, causal, ts).at(idx), f) == reals::value(
            b.conv_shortcut->0.apply(b.norm3.apply(x)).at(idx),
            f,
        ) + reals::value(b.conv2.conv.bias->0@.cells[idx[1]], f),
{
    broadcast use reals::group_reading;
    reveal(ResnetBlock3D::apply);
    reveal(ResnetBlock3D::loaded);
    lemma_second_input(b, x, causal, ts, in_channels, out_channels, style, conditioned, vb);
    let y = second_input(b, x, causal, ts);
    let d = result_dims(x, out_channels);
    assert(result_dims(y, out_channels) =~= d);
    lemma_conv_at(b.conv2, y, causal, out_channels, idx, f);
    sizes::lemma_extended_dims(b.conv2, y, causal);
    let e = b.conv2.extended(y, causal);
    lemma_zero_taps(b.conv2.conv, e, b.conv2.conv.padded_in_time(e), 3, out_channels, f);
    lemmas::lemma_ravel(d, idx);
    reals::lemma_binary_at(BinOp::Plus, b.skip(x), b.conv2.apply(y, causal), idx, f);
    assert(lemmas::repeated(d, d, idx) =~= idx);
}

} // verus!
