//! Attention between the positions of a spectrogram.
use vstd::prelude::*;

use crate::array::Array;
use crate::base::config::NORM_EPS;
use crate::error::Failure;
use crate::lemmas;
use crate::model::{self, BinOp, Dtype, TensorView};
use crate::nn::pixel_norm::PixelNorm;
use crate::scalar::{Scalar, ZERO};
use crate::weights::{Weights, WeightsView};

verus! {

/// -1/2
pub const MINUS_HALF: Scalar = 0xBFE0_0000_0000_0000;

/// A convolution with a kernel of one element.
pub struct PointConv {
    pub weight: Array,
    pub bias: Array,
}

impl PointConv {
    /// Whether this is the convolution that a checkpoint holds.
    pub open spec fn loaded(&self, vb: WeightsView) -> bool {
        self.weight@ == vb.get("weight"@) && self.bias@ == vb.get("bias"@)
    }

    /// Whether a checkpoint holds a convolution of this size.
    pub open spec fn present(channels: nat, vb: WeightsView) -> bool {
        vb.holds("weight"@, seq![channels, channels, 1, 1]) && vb.holds("bias"@, seq![channels])
    }

    pub fn new(channels: usize, vb: &Weights) -> (r: Result<PointConv, Failure>)
        ensures
            r matches Ok(c) ==> c.loaded(vb@),
            r is Ok ==> PointConv::present(channels as nat, vb@),
            vb@.sound() && PointConv::present(channels as nat, vb@) ==> r is Ok,
    {
        let weight = vb.get4(channels, channels, 1, 1, "weight")?;
        let bias = vb.get1(channels, "bias")?;
        Ok(PointConv { weight, bias })
    }

    /// What the convolution computes from `x`.
    pub open spec fn apply(&self, x: TensorView) -> TensorView {
        model::conv2d(x, self.weight@, Some(self.bias@), 0, 1, 1, 1)
    }

    /// Whether the convolution can be computed from an array of this shape, which it keeps, in
    /// main memory and in single precision.
    pub open spec fn keeps_shape(&self, d: Seq<nat>) -> bool {
        &&& d.len() == 4 && model::numel(d) > 0 && model::fits(d)
        &&& self.weight.on_cpu() && self.weight@.dtype == Dtype::F32 && self.weight@.dims == seq![d[1], d[1], 1, 1]
        &&& self.bias.on_cpu() && self.bias@.dtype == Dtype::F32 && self.bias@.dims == seq![d[1]]
        &&& d[2] <= usize::MAX && d[3] <= usize::MAX
    }

    pub fn forward(&self, x: &Array) -> (r: Result<Array, Failure>)
        ensures
            r matches Ok(t) ==> t@ == self.apply(x@),
            r is Ok ==> x@.rank() == 4,
            x.on_cpu() && x@.dtype == Dtype::F32 && self.keeps_shape(x@.dims) ==> (r matches Ok(t) && t.on_cpu()
                && t@.dtype == Dtype::F32 && t@.dims == x@.dims),
    {
        proof {
            reveal(model::conv2d);
            if self.keeps_shape(x@.dims) {
                let d = x@.dims;
                assert(d =~= seq![d[0], d[1], d[2], d[3]]);
                lemmas::lemma_axis_positive(d, 1);
                lemmas::lemma_axis_positive(d, 2);
                lemmas::lemma_axis_positive(d, 3);
                lemmas::lemma_numel4(d[1], d[1], 1, 1);
                assert(d[1] * d[1] * 1 * 1 > 0) by (nonlinear_arith)
                    requires
                        d[1] > 0,
                ;
            }
        }
        let bias = Some(self.bias.clone());
        x.conv2d(&self.weight, &bias, 0, 1, 1, 1)
    }
}

/// Every position attends to every other; the result is added to the input.
pub struct AttnBlock {
    pub norm: PixelNorm,
    pub q: PointConv,
    pub k: PointConv,
    pub v: PointConv,
    pub proj_out: PointConv,
}

impl AttnBlock {
    /// Whether this is the block that a checkpoint holds.
    pub open spec fn loaded(&self, vb: WeightsView) -> bool {
        &&& self.norm == (PixelNorm { dim: 1, eps: NORM_EPS })
        &&& self.q.loaded(vb.pp("q"@))
        &&& self.k.loaded(vb.pp("k"@))
        &&& self.v.loaded(vb.pp("v"@))
        &&& self.proj_out.loaded(vb.pp("proj_out"@))
    }

    /// Whether a checkpoint holds a block of this size.
    pub open spec fn present(channels: nat, vb: WeightsView) -> bool {
        &&& PointConv::present(channels, vb.pp("q"@))
        &&& PointConv::present(channels, vb.pp("k"@))
        &&& PointConv::present(channels, vb.pp("v"@))
        &&& PointConv::present(channels, vb.pp("proj_out"@))
    }

    pub fn new(in_channels: usize, vb: &Weights) -> (r: Result<AttnBlock, Failure>)
        ensures
            r matches Ok(b) ==> b.loaded(vb@),
            r is Ok ==> AttnBlock::present(in_channels as nat, vb@),
            vb@.sound() && AttnBlock::present(in_channels as nat, vb@) ==> r is Ok,
    {
        let norm = PixelNorm::new(1, NORM_EPS);
        let q = PointConv::new(in_channels, &vb.pp("q"))?;
        let k = PointConv::new(in_channels, &vb.pp("k"))?;
        let v = PointConv::new(in_channels, &vb.pp("v"))?;
        let proj_out = PointConv::new(in_channels, &vb.pp("proj_out"))?;
        Ok(AttnBlock { norm, q, k, v, proj_out })
    }

    /// `softmax(q^T k / sqrt(C))`: how much each position takes of every other.
    pub open spec fn shares(q: TensorView, k: TensorView) -> TensorView {
        let (b, c, n) = (q.dims[0], q.dims[1], q.dims[2] * q.dims[3]);
        let rows = model::permute(model::reshape(q, seq![b, c, n]), seq![0, 2, 1]);
        let scale = model::powf(model::count(c), model::number(MINUS_HALF));
        let scores = model::affine(
            model::matmul(rows, model::reshape(k, seq![b, c, n])),
            scale,
            model::number(ZERO),
        );
        model::softmax(scores, 2)
    }

    /// What the block computes from `x`.
    #[verifier::opaque]
    pub open spec fn apply(&self, x: TensorView) -> TensorView {
        let h = self.norm.apply(x);
        let q = self.q.apply(h);
        let (b, c, n) = (q.dims[0], q.dims[1], q.dims[2] * q.dims[3]);
        let w = model::permute(AttnBlock::shares(q, self.k.apply(h)), seq![0, 2, 1]);
        let mixed = model::matmul(model::reshape(self.v.apply(h), seq![b, c, n]), w);
        let image = model::reshape(mixed, seq![b, c, q.dims[2], q.dims[3]]);
        model::binary(BinOp::Plus, x, self.proj_out.apply(image))
    }

    /// Whether the block can be computed from an array of this shape, which it keeps, in main
    /// memory and in single precision.
    pub open spec fn keeps_shape(&self, d: Seq<nat>) -> bool {
        &&& self.norm.dim < 4
        &&& self.q.keeps_shape(d) && self.k.keeps_shape(d) && self.v.keeps_shape(d) && self.proj_out.keeps_shape(d)
        &&& model::fits(seq![d[0], d[2] * d[3], d[2] * d[3]])
    }

    pub fn forward(&self, x: &Array) -> (r: Result<Array, Failure>)
        ensures
            r matches Ok(t) ==> t@ == self.apply(x@),
            x.on_cpu() && x@.dtype == Dtype::F32 && self.keeps_shape(x@.dims) ==> (r matches Ok(t) && t.on_cpu()
                && t@.dtype == Dtype::F32 && t@.dims == x@.dims),
    {
        let ghost fine = x.on_cpu() && x@.dtype == Dtype::F32 && self.keeps_shape(x@.dims);
        let ghost (nb, nc, nh, nw) = (x@.dims[0], x@.dims[1], x@.dims[2], x@.dims[3]);
        let ghost n = nh * nw;
        proof {
            reveal(AttnBlock::apply);
            reveal(model::softmax);
            lemmas::lemma_single();
            if fine {
                assert(x@.dims =~= seq![nb, nc, nh, nw]);
                lemmas::lemma_numel4(nb, nc, nh, nw);
                lemmas::lemma_numel3(nb, nc, n);
                assert(nb * nc * (nh * nw) == nb * nc * nh * nw) by (nonlinear_arith);
                lemmas::lemma_room(seq![nb, nc, n], x@.dims);
                lemmas::lemma_extent_is_numel(seq![nb, nc, n]);
                lemmas::lemma_factors(nb, nc, n);
                lemmas::lemma_numel3(nb, n, n);
                assert(nb * n * n > 0) by (nonlinear_arith)
                    requires
                        nb > 0,
                        n > 0,
                ;
                assert(seq![nb, n, nc].drop_last().push(n) =~= seq![nb, n, n]);
                assert(seq![nb, nc, n].drop_last().push(n) =~= seq![nb, nc, n]);
            }
        }
        let h = self.norm.forward(x)?;
        let q = self.q.forward(&h)?;
        let k = self.k.forward(&h)?;
        let v = self.v.forward(&h)?;
        let (b, c, height, width) = q.dims4()?;
        let hw: usize = match height.checked_mul(width) {
            Some(n) => n,
            None => {
                return Err(Failure::Overflow);
            },
        };
        proof {
            lemmas::lemma_permute_dims(model::reshape(q@, seq![b as nat, c as nat, hw as nat]), seq![0, 2, 1]);
        }
        let scale = Array::count(c)?.powf(&Array::number(MINUS_HALF)?)?;
        let q = q.reshape3(b, c, hw)?.permute3(0, 2, 1)?.contiguous()?;
        assert(fine ==> q@.dims =~= seq![nb, n, nc]);
        let k = k.reshape3(b, c, hw)?.contiguous()?;
        let w = q.matmul(&k)?.scale_by(&scale)?;
        let w = w.softmax(2)?;
        let v = v.reshape3(b, c, hw)?.contiguous()?;
        proof {
            lemmas::lemma_permute_dims(w@, seq![0, 2, 1]);
        }
        let w = w.permute3(0, 2, 1)?.contiguous()?;
        assert(fine ==> w@.dims =~= seq![nb, n, n]);
        let h = v.matmul(&w)?.reshape4(b, c, height, width)?.contiguous()?;
        let h = self.proj_out.forward(&h)?;
        x.pairwise(BinOp::Plus, &h)
    }
}

} // verus!
