//! What the branches of residual blocks add.
use vstd::prelude::*;

use crate::audio_vae::attention::AttnBlock;
use crate::audio_vae::causal_conv2d;
use crate::audio_vae::resnet::{ResBlock1, ResnetBlock2d, LRELU_SLOPE};
use crate::audio_vae::vocoder::AmpBlock1;
use crate::base::ops;
use crate::model::{self, BinOp, TensorView};
use crate::nn::activation;
use crate::reals::{self, Functions};
use crate::scalar::{ONE, ZERO};
use crate::text_encoder::connector::BasicTransformerBlock1D;
use crate::text_encoder::gemma3::{gemma_norm_of, Gemma3DecoderLayer};
use crate::nn::pixel_norm::PIXEL_NORM_EPS;
use crate::video_vae::decoder::VideoDecoder;

verus! {

/// Whether a branch gives something of the shape of what it is added to.
pub open spec fn adds_up(x: TensorView, branch: TensorView) -> bool {
    x.wf() && branch.wf() && branch.dims == x.dims
}

/// A block on spectrograms changes its input, or what its shortcut makes of it, by what its second
/// convolution gives.
pub proof fn law_spectrogram_block(r: ResnetBlock2d, x: TensorView, k: int, f: Functions)
    requires
        ({
            let h = r.conv1.apply(activation::silu_of(r.norm1.apply(x)));
            let skip = match r.nin_shortcut {
                Some(c) => c.apply(x),
                None => x,
            };
            let branch = r.conv2.apply(activation::silu_of(r.norm2.apply(h)));
            adds_up(skip, branch) && 0 <= k < skip.cells.len()
        }),
    ensures
        ({
            let h = r.conv1.apply(activation::silu_of(r.norm1.apply(x)));
            let skip = match r.nin_shortcut {
                Some(c) => c.apply(x),
                None => x,
            };
            reals::value(r.apply(x).cells[k], f) - reals::value(skip.cells[k], f) == reals::value(
                r.conv2.apply(activation::silu_of(r.norm2.apply(h))).cells[k],
                f,
            )
        }),
{
    broadcast use reals::group_reading;
    reveal(ResnetBlock2d::apply);
}

/// A pair of convolutions changes a sound by what the second gives.
pub proof fn law_convolution_pair(r: ResBlock1, x: TensorView, i: int, k: int, f: Functions)
    requires
        ({
            let h = r.convs1@[i].apply(causal_conv2d::leaky_relu_of(x, LRELU_SLOPE));
            adds_up(x, r.convs2@[i].apply(causal_conv2d::leaky_relu_of(h, LRELU_SLOPE)))
        }),
        0 <= k < x.cells.len(),
    ensures
        ({
            let h = r.convs1@[i].apply(causal_conv2d::leaky_relu_of(x, LRELU_SLOPE));
            reals::value(r.pair(x, i).cells[k], f) - reals::value(x.cells[k], f) == reals::value(
                r.convs2@[i].apply(causal_conv2d::leaky_relu_of(h, LRELU_SLOPE)).cells[k],
                f,
            )
        }),
{
    broadcast use reals::group_reading;
}

/// A pair of convolutions with periodic activations changes a sound by what the second gives.
pub proof fn law_periodic_pair(r: AmpBlock1, x: TensorView, i: int, k: int, f: Functions)
    requires
        adds_up(x, r.convs2@[i].apply(r.acts2@[i].apply(r.convs1@[i].apply(r.acts1@[i].apply(x))))),
        0 <= k < x.cells.len(),
    ensures
        reals::value(r.pair(x, i).cells[k], f) - reals::value(x.cells[k], f) == reals::value(
            r.convs2@[i].apply(r.acts2@[i].apply(r.convs1@[i].apply(r.acts1@[i].apply(x)))).cells[k],
            f,
        ),
{
    broadcast use reals::group_reading;
}

/// What attention makes of a spectrogram before it is projected.
pub open spec fn mixed(a: AttnBlock, x: TensorView) -> TensorView {
    let h = a.norm.apply(x);
    let q = a.q.apply(h);
    let (b, c, n) = (q.dims[0], q.dims[1], q.dims[2] * q.dims[3]);
    let w = model::permute(AttnBlock::shares(q, a.k.apply(h)), seq![0, 2, 1]);
    model::reshape(
        model::matmul(model::reshape(a.v.apply(h), seq![b, c, n]), w),
        seq![b, c, q.dims[2], q.dims[3]],
    )
}

/// Attention changes a spectrogram by the projection of what it mixes.
pub proof fn law_spectrogram_attention(a: AttnBlock, x: TensorView, k: int, f: Functions)
    requires
        adds_up(x, a.proj_out.apply(mixed(a, x))),
        0 <= k < x.cells.len(),
    ensures
        reals::value(a.apply(x).cells[k], f) - reals::value(x.cells[k], f) == reals::value(
            a.proj_out.apply(mixed(a, x)).cells[k],
            f,
        ),
{
    broadcast use reals::group_reading;
    reveal(AttnBlock::apply);
}

/// A block of the connector changes its input by what attention gives for it, normalised, and then by
/// what the feed-forward network gives for the result, normalised.
pub proof fn law_connector_block(
    t: BasicTransformerBlock1D,
    x: TensorView,
    y: TensorView,
    mask: Option<TensorView>,
    pe: Option<(TensorView, TensorView)>,
    k: int,
    f: Functions,
)
    requires
        y == model::binary(
            BinOp::Plus,
            t.attn.apply(ops::rms_norm_of(x, None, PIXEL_NORM_EPS), None, mask, pe, None),
            x,
        ),
        adds_up(x, t.attn.apply(ops::rms_norm_of(x, None, PIXEL_NORM_EPS), None, mask, pe, None)),
        adds_up(x, t.ff.apply(ops::rms_norm_of(y, None, PIXEL_NORM_EPS))),
        0 <= k < x.cells.len(),
    ensures
        reals::value(t.apply(x, mask, pe).cells[k], f) - reals::value(x.cells[k], f) == reals::value(
            t.attn.apply(ops::rms_norm_of(x, None, PIXEL_NORM_EPS), None, mask, pe, None).cells[k],
            f,
        ) + reals::value(t.ff.apply(ops::rms_norm_of(y, None, PIXEL_NORM_EPS)).cells[k], f),
{
    broadcast use reals::group_reading;
    reveal(BasicTransformerBlock1D::apply);
}

/// A layer of the text model changes its input by what attention gives, normalised, and then by what
/// the network gives for the result, normalised.
pub proof fn law_text_layer(
    l: Gemma3DecoderLayer,
    x: TensorView,
    y: TensorView,
    cos: TensorView,
    sin: TensorView,
    mask: TensorView,
    k: int,
    f: Functions,
)
    requires
        ({
            let h = l.self_attn.apply(gemma_norm_of(x, l.input_layernorm@, l.eps), cos, sin, mask);
            let seen = gemma_norm_of(h, l.post_attention_layernorm@, l.eps);
            let g = l.mlp.apply(gemma_norm_of(y, l.pre_feedforward_layernorm@, l.eps));
            let fed = gemma_norm_of(g, l.post_feedforward_layernorm@, l.eps);
            &&& y == model::binary(BinOp::Plus, x, seen)
            &&& adds_up(x, seen) && adds_up(x, fed)
        }),
        0 <= k < x.cells.len(),
    ensures
        ({
            let h = l.self_attn.apply(gemma_norm_of(x, l.input_layernorm@, l.eps), cos, sin, mask);
            let seen = gemma_norm_of(h, l.post_attention_layernorm@, l.eps);
            let g = l.mlp.apply(gemma_norm_of(y, l.pre_feedforward_layernorm@, l.eps));
            let fed = gemma_norm_of(g, l.post_feedforward_layernorm@, l.eps);
            reals::value(l.apply(x, cos, sin, mask).cells[k], f) - reals::value(x.cells[k], f) == reals::value(
                seen.cells[k],
                f,
            ) + reals::value(fed.cells[k], f)
        }),
{
    broadcast use reals::group_reading;
    reveal(Gemma3DecoderLayer::apply);
}

/// The decoder moves a latent towards noise, by the share that its noise scale says, and leaves it as
/// it is where it takes no timestep.
pub proof fn law_decoded_noise(d: VideoDecoder, sample: TensorView, noise: TensorView, k: int, f: Functions)
    requires
        sample.wf() && noise.wf() && sample.dims == noise.dims,
        sample.dtype.float() && noise.dtype.float(),
        0 <= k < sample.cells.len(),
    ensures
        ({
            let (y, x) = (reals::value(d.noised(sample, noise).cells[k], f), reals::value(sample.cells[k], f));
            if d.timestep_conditioning {
                y - x == reals::of_bits(d.decode_noise_scale) * (reals::value(noise.cells[k], f) - x)
            } else {
                y == x
            }
        }),
{
    broadcast use reals::group_reading;
    reals::lemma_constants();
    if d.timestep_conditioning {
        let (x, n, s) = (
            reals::value(sample.cells[k], f),
            reals::value(noise.cells[k], f),
            reals::of_bits(d.decode_noise_scale),
        );
        let rest = model::binary(BinOp::Minus, model::number(ONE), model::number(d.decode_noise_scale));
        assert(rest.dims =~= Seq::<nat>::empty());
        assert(reals::value(rest.cells[0], f) == 1real - s);
        let a = model::affine(noise, model::number(d.decode_noise_scale), model::number(ZERO));
        let b = model::affine(sample, rest, model::number(ZERO));
        assert(reals::value(a.cells[k], f) == n * s);
        assert(reals::value(b.cells[k], f) == x * (1real - s));
        assert(n * s + x * (1real - s) - x == s * (n - x)) by (nonlinear_arith);
    }
}

} // verus!
