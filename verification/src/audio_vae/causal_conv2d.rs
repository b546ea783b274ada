//! Convolutions over time and frequency that look back only.
use vstd::prelude::*;

use crate::array::{self, Array};
use crate::error::Failure;
use crate::lemmas;
use crate::model::{self, BinOp, Dtype, TensorView, UnOp};
use crate::scalar::{Scalar, ZERO};
use crate::weights::{Weights, WeightsView};

verus! {

/// The axis along which a convolution only looks back.
#[derive(Clone, Copy, PartialEq, Eq, Structural, Debug)]
pub enum CausalityAxis {
    Neither,
    Width,
    Height,
}

/// A convolution over height and width with zeros around its input. Along its causal axis
/// all of them stand in front, so an output depends on nothing that comes later.
pub struct CausalConv2d {
    pub weight: Array,
    pub bias: Option<Array>,
    pub stride: usize,
    pub dilation: usize,
    pub groups: usize,
    /// Zeros left, right, above and below.
    pub padding: (usize, usize, usize, usize),
}

/// How many zeros stand left, right, above and below the input, where the kernel reaches
/// over `reach` elements beyond its first.
pub open spec fn paddings_of(reach: nat, axis: CausalityAxis) -> (nat, nat, nat, nat) {
    let half = reach / 2;
    let rest = (reach - reach / 2) as nat;
    match axis {
        CausalityAxis::Neither => (half, rest, half, rest),
        CausalityAxis::Width => (reach, 0, half, rest),
        CausalityAxis::Height => (half, rest, reach, 0),
    }
}

/// Along every axis there are as many zeros as the kernel reaches beyond its first
/// element, so that with stride one the output is as large as the input; along the causal
/// axis the last element under the kernel at position `t` is element `t` of the input.
pub proof fn law_padding_is_causal(reach: nat, axis: CausalityAxis, t: int)
    ensures
        paddings_of(reach, axis).0 + paddings_of(reach, axis).1 == reach,
        paddings_of(reach, axis).2 + paddings_of(reach, axis).3 == reach,
        axis == CausalityAxis::Width ==> t + reach - paddings_of(reach, axis).0 == t,
        axis == CausalityAxis::Height ==> t + reach - paddings_of(reach, axis).2 == t,
{
}

impl CausalConv2d {
    /// Whether this is the convolution that a checkpoint holds. Without a bias of the right
    /// shape there is none.
    pub open spec fn loaded(
        &self,
        kernel_size: nat,
        stride: nat,
        dilation: nat,
        groups: nat,
        axis: CausalityAxis,
        vb: WeightsView,
    ) -> bool {
        let p = paddings_of(((kernel_size - 1) * dilation) as nat, axis);
        &&& self.weight@ == vb.pp("conv"@).get("weight"@)
        &&& self.bias matches Some(b) ==> vb.pp("conv"@).holds("bias"@, seq![self.weight@.dims[0]]) && b@ == vb.pp(
            "conv"@,
        ).get("bias"@)
        &&& vb.sound() && vb.pp("conv"@).holds("bias"@, seq![self.weight@.dims[0]]) ==> self.bias is Some
        &&& self.stride == stride
        &&& self.dilation == dilation
        &&& self.groups == groups
        &&& self.padding.0 == p.0
        &&& self.padding.1 == p.1
        &&& self.padding.2 == p.2
        &&& self.padding.3 == p.3
    }

    /// Whether a checkpoint holds a convolution of these sizes.
    pub open spec fn present(
        in_channels: nat,
        out_channels: nat,
        kernel_size: nat,
        groups: nat,
        vb: WeightsView,
    ) -> bool {
        &&& groups > 0
        &&& kernel_size > 0
        &&& vb.pp("conv"@).holds(
            "weight"@,
            seq![out_channels, in_channels / groups, kernel_size, kernel_size],
        )
    }

    pub fn new(
        in_channels: usize,
        out_channels: usize,
        kernel_size: usize,
        stride: usize,
        dilation: usize,
        groups: usize,
        causality_axis: CausalityAxis,
        vb: &Weights,
    ) -> (r: Result<CausalConv2d, Failure>)
        ensures
            r matches Ok(c) ==> c.loaded(
                kernel_size as nat,
                stride as nat,
                dilation as nat,
                groups as nat,
                causality_axis,
                vb@,
            ),
            r matches Ok(c) ==> (c.bias matches Some(b) ==> b@.dims == seq![out_channels as nat]),
            r is Ok ==> CausalConv2d::present(
                in_channels as nat,
                out_channels as nat,
                kernel_size as nat,
                groups as nat,
                vb@,
            ),
            vb@.sound() && CausalConv2d::present(
                in_channels as nat,
                out_channels as nat,
                kernel_size as nat,
                groups as nat,
                vb@,
            ) && (kernel_size - 1) * dilation <= usize::MAX ==> r is Ok,
            kernel_size == 0 ==> r == Err::<CausalConv2d, Failure>(Failure::EmptyKernel),
    {
        if kernel_size == 0 {
            return Err(Failure::EmptyKernel);
        }
        if groups == 0 {
            return Err(Failure::Shape);
        }
        let reach: usize = match (kernel_size - 1).checked_mul(dilation) {
            Some(n) => n,
            None => {
                return Err(Failure::Overflow);
            },
        };
        let half: usize = reach / 2;
        let rest: usize = reach - reach / 2;
        let padding = match causality_axis {
            CausalityAxis::Neither => (half, rest, half, rest),
            CausalityAxis::Width => (reach, 0, half, rest),
            CausalityAxis::Height => (half, rest, reach, 0),
        };
        let conv_vb = vb.pp("conv");
        let weight = conv_vb.get4(out_channels, in_channels / groups, kernel_size, kernel_size, "weight")?;
        let bias = match conv_vb.get1(out_channels, "bias") {
            Ok(b) => Some(b),
            Err(_) => None,
        };
        Ok(CausalConv2d { weight, bias, stride, dilation, groups, padding })
    }

    /// What the convolution computes from `x`.
    pub open spec fn apply(&self, x: TensorView) -> TensorView {
        let (pl, pr, pt, pb) = self.padding;
        let wide = model::pad_zeros(x, 3, pl as nat, pr as nat);
        let tall = model::pad_zeros(wide, 2, pt as nat, pb as nat);
        model::conv2d(
            tall,
            self.weight@,
            array::opt_view(self.bias),
            0,
            self.stride as nat,
            self.dilation as nat,
            self.groups as nat,
        )
    }

    /// The shape of what the convolution is computed from, with zeros around it.
    pub open spec fn padded_dims(&self, d: Seq<nat>) -> Seq<nat> {
        let (pl, pr, pt, pb) = self.padding;
        seq![d[0], d[1], pt as nat + d[2] + pb as nat, pl as nat + d[3] + pr as nat]
    }

    /// The shape of what the convolution computes.
    pub open spec fn dims_out(&self, d: Seq<nat>) -> Seq<nat> {
        let (p, k) = (self.padded_dims(d), self.weight@.dims);
        seq![
            d[0],
            k[0],
            model::windows(p[2], k[2], 0, self.stride as nat, self.dilation as nat),
            model::windows(p[3], k[3], 0, self.stride as nat, self.dilation as nat),
        ]
    }

    /// Whether the convolution can be computed from an array of this shape, in main memory and in
    /// single precision.
    pub open spec fn accepts_shape(&self, d: Seq<nat>) -> bool {
        let (p, k) = (self.padded_dims(d), self.weight@.dims);
        &&& d.len() == 4 && model::numel(d) > 0
        &&& self.weight.on_cpu() && self.weight@.dtype == Dtype::F32 && k.len() == 4 && model::numel(k) > 0
        &&& self.bias matches Some(b) ==> b.on_cpu() && b@.dtype == Dtype::F32 && b@.dims == seq![k[0]]
        &&& self.groups >= 1 && d[1] == k[1] * self.groups && k[0] % self.groups as nat == 0
        &&& model::has_window(p[2], k[2], 0, self.stride as nat, self.dilation as nat)
        &&& model::has_window(p[3], k[3], 0, self.stride as nat, self.dilation as nat)
        &&& p[2] <= usize::MAX && p[3] <= usize::MAX
        &&& model::fits(p) && model::fits(self.dims_out(d))
    }

    pub fn forward(&self, x: &Array) -> (r: Result<Array, Failure>)
        ensures
            r matches Ok(t) ==> t@ == self.apply(x@),
            x.on_cpu() && x@.dtype == Dtype::F32 && self.accepts_shape(x@.dims) ==> (r matches Ok(t) && t.on_cpu()
                && t@.dtype == Dtype::F32 && t@.dims == self.dims_out(x@.dims)),
    {
        let (pl, pr, pt, pb) = self.padding;
        proof {
            reveal(model::conv2d);
            if self.accepts_shape(x@.dims) {
                let d = x@.dims;
                assert(d =~= seq![d[0], d[1], d[2], d[3]]);
                lemmas::lemma_pad(x@, 3, pl as nat, pr as nat);
                let wide = model::pad_zeros(x@, 3, pl as nat, pr as nat);
                assert(wide.dims =~= seq![d[0], d[1], d[2], pl as nat + d[3] + pr as nat]);
                lemmas::lemma_pad(wide, 2, pt as nat, pb as nat);
                let tall = model::pad_zeros(wide, 2, pt as nat, pb as nat);
                assert(tall.dims =~= self.padded_dims(d));
                lemma_padded_counts(d[0], d[1], d[2], d[3], self.padded_dims(d)[2], self.padded_dims(d)[3]);
            }
        }
        let x = if pl > 0 || pr > 0 {
            x.pad_with_zeros(3, pl, pr)?
        } else {
            x.clone()
        };
        let x = if pt > 0 || pb > 0 {
            x.pad_with_zeros(2, pt, pb)?
        } else {
            x
        };
        x.conv2d(&self.weight, &self.bias, 0, self.stride, self.dilation, self.groups)
    }
}

/// An image with more around it has elements, and can be addressed where the whole can.
proof fn lemma_padded_counts(b: nat, c: nat, h: nat, w: nat, tall: nat, wide: nat)
    requires
        model::numel(seq![b, c, h, w]) > 0,
        h <= tall && w <= wide,
        model::fits(seq![b, c, tall, wide]),
    ensures
        model::numel(seq![b, c, tall, wide]) > 0,
        model::fits(seq![b, c, h, wide]),
{
    lemmas::lemma_numel4(b, c, h, w);
    lemmas::lemma_numel4(b, c, h, wide);
    lemmas::lemma_numel4(b, c, tall, wide);
    let bc = b * c;
    lemmas::lemma_factors(bc, h, w);
    assert(0 < bc * h <= bc * tall) by (nonlinear_arith)
        requires
            bc > 0,
            0 < h <= tall,
    ;
    let (few, many) = (bc * h, bc * tall);
    assert(0 < few * wide <= many * wide) by (nonlinear_arith)
        requires
            0 < few <= many,
            wide > 0,
    ;
    lemmas::lemma_room(seq![b, c, h, wide], seq![b, c, tall, wide]);
}

/// `max(0, x) + slope * min(0, x)`.
pub open spec fn leaky_relu_of(x: TensorView, slope: Scalar) -> TensorView {
    let pos = model::unary(UnOp::Relu, x);
    let neg = model::affine(
        model::binary(BinOp::Minus, x, pos),
        model::number(slope),
        model::number(ZERO),
    );
    model::binary(BinOp::Plus, pos, neg)
}

/// Leaky ReLU: `max(0, x) + slope * min(0, x)`.
pub fn leaky_relu(x: &Array, negative_slope: Scalar) -> (r: Result<Array, Failure>)
    ensures
        r matches Ok(t) ==> t@ == leaky_relu_of(x@, negative_slope),
        !x@.dtype.float() ==> r == Err::<Array, Failure>(Failure::Dtype),
        x.on_cpu() && x@.dtype.float() ==> (r matches Ok(t) && t.on_cpu() && t@.dims == x@.dims && t@.dtype
            == x@.dtype),
{
    let pos = x.unary(UnOp::Relu)?;
    let neg = x.pairwise(BinOp::Minus, &pos)?.scale(negative_slope)?;
    pos.pairwise(BinOp::Plus, &neg)
}

} // verus!
