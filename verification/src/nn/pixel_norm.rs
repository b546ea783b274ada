//! Normalisation of each location across one axis.
use vstd::prelude::*;

use crate::array::Array;
use crate::error::Failure;
use crate::lemmas;
use crate::model::{self, BinOp, Dtype, TensorView, UnOp};
use crate::scalar::{Scalar, ONE};

verus! {

/// 1e-8
pub const PIXEL_NORM_EPS: Scalar = 0x3E45_798E_E230_8C3A;

/// `x / sqrt(mean(x^2, dim) + eps)`.
#[derive(Clone, Copy, Debug)]
pub struct PixelNorm {
    pub dim: usize,
    pub eps: Scalar,
}

impl Default for PixelNorm {
    fn default() -> (r: PixelNorm)
        ensures
            r.dim == 1 && r.eps == PIXEL_NORM_EPS,
    {
        PixelNorm { dim: 1, eps: PIXEL_NORM_EPS }
    }
}

impl PixelNorm {
    /// What the normalisation computes from `x`.
    pub open spec fn apply(&self, x: TensorView) -> TensorView {
        let wide = model::cast(x, Dtype::F32);
        let mean_sq = model::mean_keepdim(model::unary(UnOp::Sqr, wide), self.dim as int);
        let padded = model::affine(mean_sq, model::number(ONE), model::number(self.eps));
        let rms = model::unary(UnOp::Sqrt, padded);
        model::cast(model::binary(BinOp::Over, wide, rms), x.dtype)
    }

    pub fn new(dim: usize, eps: Scalar) -> (r: PixelNorm)
        ensures
            r == (PixelNorm { dim, eps }),
    {
        PixelNorm { dim, eps }
    }

    pub fn forward(&self, x: &Array) -> (r: Result<Array, Failure>)
        ensures
            r matches Ok(t) ==> t@ == self.apply(x@),
            r is Ok ==> self.dim < x@.rank(),
            x.usable() && self.dim < x@.rank() ==> (r matches Ok(t) && t.on_cpu() && t@.dims == x@.dims
                && t@.dtype == x@.dtype),
    {
        proof {
            reveal(model::mean_keepdim);
        }
        let wide = x.to_dtype(Dtype::F32)?;
        let mean_sq = wide.unary(UnOp::Sqr)?.mean_keepdim(self.dim)?;
        let rms = mean_sq.shift(self.eps)?.unary(UnOp::Sqrt)?;
        proof {
            lemmas::lemma_spread_common(rms@.dims, wide@.dims);
        }
        let normed = wide.broadcast(BinOp::Over, &rms)?;
        normed.to_dtype(x.dtype())
    }
}

} // verus!
