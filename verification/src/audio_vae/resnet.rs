//! Residual blocks of the sound decoder and the vocoder.
use vstd::prelude::*;

use crate::array::Array;
use crate::audio_vae::causal_conv2d::{self, leaky_relu, CausalConv2d, CausalityAxis};
use crate::base::config::NORM_EPS;
use crate::error::Failure;
use crate::model::{self, BinOp, Dtype, TensorView};
use crate::nn::activation::{self, silu};
use crate::nn::conv1d::Conv1d;
use crate::nn::pixel_norm::PixelNorm;
use crate::scalar::Scalar;
use crate::weights::{Weights, WeightsView};

verus! {

/// 0.1
pub const LRELU_SLOPE: Scalar = 0x3FB9_9999_9999_999A;

/// Two normalised, activated convolutions added to their input.
pub struct ResnetBlock2d {
    pub norm1: PixelNorm,
    pub conv1: CausalConv2d,
    pub norm2: PixelNorm,
    pub conv2: CausalConv2d,
    /// Changes the number of channels of the input, where it has to change.
    pub nin_shortcut: Option<CausalConv2d>,
}

impl ResnetBlock2d {
    /// Whether this is the block that a checkpoint holds.
    pub open spec fn loaded(
        &self,
        in_channels: nat,
        out_channels: nat,
        axis: CausalityAxis,
        vb: WeightsView,
    ) -> bool {
        &&& self.norm1 == (PixelNorm { dim: 1, eps: NORM_EPS })
        &&& self.conv1.loaded(3, 1, 1, 1, axis, vb.pp("conv1"@))
        &&& self.norm2 == (PixelNorm { dim: 1, eps: NORM_EPS })
        &&& self.conv2.loaded(3, 1, 1, 1, axis, vb.pp("conv2"@))
        &&& (in_channels != out_channels) == self.nin_shortcut is Some
        &&& self.nin_shortcut matches Some(c) ==> c.loaded(1, 1, 1, 1, axis, vb.pp("nin_shortcut"@))
    }

    /// Whether a checkpoint holds a block of these sizes.
    pub open spec fn present(in_channels: nat, out_channels: nat, vb: WeightsView) -> bool {
        &&& CausalConv2d::present(in_channels, out_channels, 3, 1, vb.pp("conv1"@))
        &&& CausalConv2d::present(out_channels, out_channels, 3, 1, vb.pp("conv2"@))
        &&& in_channels != out_channels ==> CausalConv2d::present(
            in_channels,
            out_channels,
            1,
            1,
            vb.pp("nin_shortcut"@),
        )
    }

    pub fn new(in_channels: usize, out_channels: usize, causality_axis: CausalityAxis, vb: &Weights) -> (r: Result<
        ResnetBlock2d,
        Failure,
    >)
        ensures
            r matches Ok(b) ==> b.loaded(in_channels as nat, out_channels as nat, causality_axis, vb@),
            r is Ok ==> ResnetBlock2d::present(in_channels as nat, out_channels as nat, vb@),
            vb@.sound() && ResnetBlock2d::present(in_channels as nat, out_channels as nat, vb@) ==> r is Ok,
    {
        let norm1 = PixelNorm::new(1, NORM_EPS);
        let conv1 = CausalConv2d::new(in_channels, out_channels, 3, 1, 1, 1, causality_axis, &vb.pp("conv1"))?;
        let norm2 = PixelNorm::new(1, NORM_EPS);
        let conv2 = CausalConv2d::new(out_channels, out_channels, 3, 1, 1, 1, causality_axis, &vb.pp("conv2"))?;
        let nin_shortcut = if in_channels != out_channels {
            Some(
                CausalConv2d::new(
                    in_channels,
                    out_channels,
                    1,
                    1,
                    1,
                    1,
                    causality_axis,
                    &vb.pp("nin_shortcut"),
                )?,
            )
        } else {
            None
        };
        Ok(ResnetBlock2d { norm1, conv1, norm2, conv2, nin_shortcut })
    }

    /// What the block computes from `x`.
    #[verifier::opaque]
    pub open spec fn apply(&self, x: TensorView) -> TensorView {
        let h = self.conv1.apply(activation::silu_of(self.norm1.apply(x)));
        let h = self.conv2.apply(activation::silu_of(self.norm2.apply(h)));
        let skip = match self.nin_shortcut {
            Some(c) => c.apply(x),
            None => x,
        };
        model::binary(BinOp::Plus, skip, h)
    }

    /// The shape of what the block computes.
    pub open spec fn dims_out(&self, d: Seq<nat>) -> Seq<nat> {
        self.conv2.dims_out(self.conv1.dims_out(d))
    }

    /// Whether the block can be computed from an array of this shape, in main memory and in
    /// single precision.
    pub open spec fn accepts_shape(&self, d: Seq<nat>) -> bool {
        &&& self.norm1.dim < 4 && self.norm2.dim < 4
        &&& self.conv1.accepts_shape(d) && self.conv2.accepts_shape(self.conv1.dims_out(d))
        &&& match self.nin_shortcut {
            Some(c) => c.accepts_shape(d) && c.dims_out(d) == self.dims_out(d),
            None => d == self.dims_out(d),
        }
    }

    pub fn forward(&self, x: &Array) -> (r: Result<Array, Failure>)
        ensures
            r matches Ok(t) ==> t@ == self.apply(x@),
            x.on_cpu() && x@.dtype == Dtype::F32 && self.accepts_shape(x@.dims) ==> (r matches Ok(t) && t.on_cpu()
                && t@.dtype == Dtype::F32 && t@.dims == self.dims_out(x@.dims)),
    {
        proof {
            reveal(ResnetBlock2d::apply);
        }
        let h = self.norm1.forward(x)?;
        let h = silu(&h)?;
        let h = self.conv1.forward(&h)?;
        let h = self.norm2.forward(&h)?;
        let h = silu(&h)?;
        let h = self.conv2.forward(&h)?;
        let skip = match &self.nin_shortcut {
            Some(c) => c.forward(x)?,
            None => x.clone(),
        };
        skip.pairwise(BinOp::Plus, &h)
    }
}

/// The zeros on each side with which a dilated kernel keeps the length of its input.
pub open spec fn same_padding(kernel_size: nat, dilation: nat) -> nat {
    (dilation * (kernel_size - 1) / 2) as nat
}

/// Whether convolution `i` of a list is the one that a checkpoint holds.
pub open spec fn conv_loaded(c: Conv1d, i: nat, kernel_size: nat, dilation: nat, vb: WeightsView) -> bool {
    c.loaded(same_padding(kernel_size, dilation), dilation, true, vb.at(i))
}

/// Loads a convolution that keeps the length of its input.
pub fn load_conv(channels: usize, kernel_size: usize, dilation: usize, i: usize, vb: &Weights) -> (r: Result<
    Conv1d,
    Failure,
>)
    ensures
        r matches Ok(c) ==> conv_loaded(c, i as nat, kernel_size as nat, dilation as nat, vb@),
        r is Ok ==> kernel_size > 0 && Conv1d::present(
            channels as nat,
            channels as nat,
            kernel_size as nat,
            true,
            vb@.at(i as nat),
        ),
        vb@.sound() && kernel_size > 0 && Conv1d::present(
            channels as nat,
            channels as nat,
            kernel_size as nat,
            true,
            vb@.at(i as nat),
        ) && dilation * (kernel_size - 1) <= usize::MAX ==> r is Ok,
{
    if kernel_size == 0 {
        return Err(Failure::EmptyKernel);
    }
    let padding: usize = match dilation.checked_mul(kernel_size - 1) {
        Some(n) => n / 2,
        None => {
            return Err(Failure::Overflow);
        },
    };
    Conv1d::new(channels, channels, kernel_size, padding, dilation, true, &vb.at(i))
}

/// Whether a checkpoint holds the two convolutions of a pair.
pub open spec fn pair_present(channels: nat, kernel_size: nat, i: int, vb: WeightsView) -> bool {
    &&& kernel_size > 0
    &&& Conv1d::present(channels, channels, kernel_size, true, vb.pp("convs1"@).at(i as nat))
    &&& Conv1d::present(channels, channels, kernel_size, true, vb.pp("convs2"@).at(i as nat))
}

/// Whether the reach of a kernel can be counted with each of the dilations.
pub open spec fn reaches(kernel_size: nat, dilations: Seq<usize>) -> bool {
    forall|i: int| 0 <= i < dilations.len() ==> (#[trigger] dilations[i]) * (kernel_size - 1) <= usize::MAX
}

/// Pairs of activated convolutions, each added to its input.
pub struct ResBlock1 {
    pub convs1: Vec<Conv1d>,
    pub convs2: Vec<Conv1d>,
}

impl ResBlock1 {
    /// Whether this is the block that a checkpoint holds.
    pub open spec fn loaded(&self, kernel_size: nat, dilations: Seq<usize>, vb: WeightsView) -> bool {
        &&& self.convs1@.len() == dilations.len()
        &&& self.convs2@.len() == dilations.len()
        &&& forall|i: int|
            0 <= i < dilations.len() ==> conv_loaded(
                #[trigger] self.convs1@[i],
                i as nat,
                kernel_size,
                dilations[i] as nat,
                vb.pp("convs1"@),
            )
        &&& forall|i: int|
            0 <= i < dilations.len() ==> conv_loaded(
                #[trigger] self.convs2@[i],
                i as nat,
                kernel_size,
                1,
                vb.pp("convs2"@),
            )
    }

    /// Whether a checkpoint holds a block with so many pairs.
    pub open spec fn present(channels: nat, kernel_size: nat, pairs: nat, vb: WeightsView) -> bool {
        forall|i: int| 0 <= i < pairs ==> #[trigger] pair_present(channels, kernel_size, i, vb)
    }

    pub fn new(channels: usize, kernel_size: usize, dilations: &Vec<usize>, vb: &Weights) -> (r: Result<
        ResBlock1,
        Failure,
    >)
        ensures
            r matches Ok(b) ==> b.loaded(kernel_size as nat, dilations@, vb@),
            r is Ok ==> ResBlock1::present(channels as nat, kernel_size as nat, dilations@.len(), vb@),
            vb@.sound() && reaches(kernel_size as nat, dilations@) && ResBlock1::present(
                channels as nat,
                kernel_size as nat,
                dilations@.len(),
                vb@,
            ) ==> r is Ok,
    {
        let mut convs1: Vec<Conv1d> = Vec::new();
        let mut convs2: Vec<Conv1d> = Vec::new();
        let vb1 = vb.pp("convs1");
        let vb2 = vb.pp("convs2");
        let mut i: usize = 0;
        while i < dilations.len()
            invariant
                i <= dilations.len(),
                vb1@ == vb@.pp("convs1"@),
                vb2@ == vb@.pp("convs2"@),
                convs1@.len() == i,
                convs2@.len() == i,
                forall|k: int|
                    0 <= k < i ==> conv_loaded(
                        #[trigger] convs1@[k],
                        k as nat,
                        kernel_size as nat,
                        dilations@[k] as nat,
                        vb1@,
                    ),
                forall|k: int|
                    0 <= k < i ==> conv_loaded(
                        #[trigger] convs2@[k],
                        k as nat,
                        kernel_size as nat,
                        1,
                        vb2@,
                    ),
                forall|k: int|
                    0 <= k < i ==> #[trigger] pair_present(channels as nat, kernel_size as nat, k, vb@),
            decreases dilations.len() - i,
        {
            let ghost pair = pair_present(channels as nat, kernel_size as nat, i as int, vb@);
            assert(reaches(kernel_size as nat, dilations@) ==> dilations@[i as int] * (kernel_size - 1) <= usize::MAX);
            convs1.push(load_conv(channels, kernel_size, dilations[i], i, &vb1)?);
            convs2.push(load_conv(channels, kernel_size, 1, i, &vb2)?);
            i = i + 1;
        }
        Ok(ResBlock1 { convs1, convs2 })
    }

    /// `x` after pair `i`.
    pub open spec fn pair(&self, x: TensorView, i: int) -> TensorView {
        let h = self.convs1@[i].apply(causal_conv2d::leaky_relu_of(x, LRELU_SLOPE));
        let h = self.convs2@[i].apply(causal_conv2d::leaky_relu_of(h, LRELU_SLOPE));
        model::binary(BinOp::Plus, h, x)
    }

    /// `x` after the first `n` pairs.
    pub open spec fn after(&self, x: TensorView, n: nat) -> TensorView
        decreases n,
    {
        if n == 0 {
            x
        } else {
            self.pair(self.after(x, (n - 1) as nat), n - 1)
        }
    }

    /// The number of pairs.
    pub open spec fn pairs(&self) -> nat {
        if self.convs1@.len() < self.convs2@.len() {
            self.convs1@.len()
        } else {
            self.convs2@.len()
        }
    }

    /// What the block computes from `x`.
    pub open spec fn apply(&self, x: TensorView) -> TensorView {
        self.after(x, self.pairs())
    }

    /// Whether every pair can be computed from an array of this shape, which it keeps, in main
    /// memory and in single precision.
    pub open spec fn keeps_shape(&self, d: Seq<nat>) -> bool {
        &&& forall|i: int| 0 <= i < self.convs1@.len() ==> (#[trigger] self.convs1@[i]).keeps_shape(d)
        &&& forall|i: int| 0 <= i < self.convs2@.len() ==> (#[trigger] self.convs2@[i]).keeps_shape(d)
    }

    pub fn forward(&self, x: &Array) -> (r: Result<Array, Failure>)
        ensures
            r matches Ok(t) ==> t@ == self.apply(x@),
            x.on_cpu() && x@.dtype == Dtype::F32 && self.keeps_shape(x@.dims) ==> (r matches Ok(t) && t.on_cpu()
                && t@.dtype == Dtype::F32 && t@.dims == x@.dims),
    {
        let ghost fine = x.on_cpu() && x@.dtype == Dtype::F32 && self.keeps_shape(x@.dims);
        let mut h = x.clone();
        let mut i: usize = 0;
        while i < self.convs1.len() && i < self.convs2.len()
            invariant
                i <= self.pairs(),
                h@ == self.after(x@, i as nat),
                fine == (x.on_cpu() && x@.dtype == Dtype::F32 && self.keeps_shape(x@.dims)),
                fine ==> h.on_cpu() && h@.dtype == Dtype::F32 && h@.dims == x@.dims,
            decreases self.convs1.len() - i,
        {
            assert(fine ==> self.convs1@[i as int].keeps_shape(x@.dims));
            assert(fine ==> self.convs2@[i as int].keeps_shape(x@.dims));
            let xt = leaky_relu(&h, LRELU_SLOPE)?;
            let xt = self.convs1[i].forward(&xt)?;
            let xt = leaky_relu(&xt, LRELU_SLOPE)?;
            let xt = self.convs2[i].forward(&xt)?;
            h = xt.pairwise(BinOp::Plus, &h)?;
            i = i + 1;
        }
        Ok(h)
    }
}

} // verus!
