//! Doubling of spectrograms.
use vstd::prelude::*;

use crate::array::Array;
use crate::audio_vae::causal_conv2d::{CausalConv2d, CausalityAxis};
use crate::error::Failure;
use crate::lemmas;
use crate::model::{self, Dtype, TensorView};
use crate::weights::{Weights, WeightsView};

verus! {

/// Every element twice in both directions, then a convolution. Along the causal axis the
/// first element is dropped: it is the padding in front of the sound.
pub struct Upsample2d {
    pub conv: CausalConv2d,
    pub causality_axis: CausalityAxis,
}

impl Upsample2d {
    /// Whether this is the layer that a checkpoint holds.
    pub open spec fn loaded(&self, axis: CausalityAxis, vb: WeightsView) -> bool {
        &&& self.conv.loaded(3, 1, 1, 1, axis, vb.pp("conv"@))
        &&& self.causality_axis == axis
    }

    pub fn new(in_channels: usize, causality_axis: CausalityAxis, vb: &Weights) -> (r: Result<Upsample2d, Failure>)
        ensures
            r matches Ok(l) ==> l.loaded(causality_axis, vb@),
            r is Ok ==> CausalConv2d::present(in_channels as nat, in_channels as nat, 3, 1, vb@.pp("conv"@)),
            vb@.sound() && CausalConv2d::present(in_channels as nat, in_channels as nat, 3, 1, vb@.pp("conv"@)) ==> r is Ok,
    {
        let conv = CausalConv2d::new(in_channels, in_channels, 3, 1, 1, 1, causality_axis, &vb.pp("conv"))?;
        Ok(Upsample2d { conv, causality_axis })
    }

    /// `x` without its first element along the causal axis.
    pub open spec fn trimmed(&self, x: TensorView) -> TensorView {
        match self.causality_axis {
            CausalityAxis::Height => model::narrow(x, 2, 1, (x.dims[2] - 1) as nat),
            CausalityAxis::Width => model::narrow(x, 3, 1, (x.dims[3] - 1) as nat),
            CausalityAxis::Neither => x,
        }
    }

    /// What the layer computes from `x`.
    #[verifier::opaque]
    pub open spec fn apply(&self, x: TensorView) -> TensorView {
        self.trimmed(self.conv.apply(model::doubled(model::doubled(x, 2), 3)))
    }

    /// The shape of a doubled array.
    pub open spec fn doubled_dims(d: Seq<nat>) -> Seq<nat> {
        seq![d[0], d[1], d[2] * 2, d[3] * 2]
    }

    /// The shape of what the layer computes.
    pub open spec fn dims_out(&self, d: Seq<nat>) -> Seq<nat> {
        let c = self.conv.dims_out(Upsample2d::doubled_dims(d));
        match self.causality_axis {
            CausalityAxis::Height => c.update(2, (c[2] - 1) as nat),
            CausalityAxis::Width => c.update(3, (c[3] - 1) as nat),
            CausalityAxis::Neither => c,
        }
    }

    /// Whether the layer can be computed from an array of this shape, in main memory and in
    /// single precision.
    pub open spec fn accepts_shape(&self, d: Seq<nat>) -> bool {
        let (twice, c) = (Upsample2d::doubled_dims(d), self.conv.dims_out(Upsample2d::doubled_dims(d)));
        &&& d.len() == 4 && 0 < d[2] <= 0x10_0000_0000_0000 && 0 < d[3] <= 0x10_0000_0000_0000
        &&& model::fits(twice) && self.conv.accepts_shape(twice)
        &&& c[2] > 0 && c[3] > 0
    }

    pub fn forward(&self, x: &Array) -> (r: Result<Array, Failure>)
        ensures
            r matches Ok(t) ==> t@ == self.apply(x@),
            r is Ok ==> x@.rank() == 4,
            x.on_cpu() && x@.dtype == Dtype::F32 && self.accepts_shape(x@.dims) ==> (r matches Ok(t) && t.on_cpu()
                && t@.dtype == Dtype::F32 && t@.dims == self.dims_out(x@.dims)),
    {
        let ghost d = x@.dims;
        let ghost fine = x.on_cpu() && x@.dtype == Dtype::F32 && self.accepts_shape(d);
        proof {
            reveal(Upsample2d::apply);
            reveal(model::index_select);
            if fine {
                assert(model::doubled(model::doubled(x@, 2), 3).dims =~= Upsample2d::doubled_dims(d));
            }
        }
        let x = x.double2d()?;
        let x = self.conv.forward(&x)?;
        match self.causality_axis {
            CausalityAxis::Height => {
                let h: usize = x.dim(2)?;
                if h == 0 {
                    return Err(Failure::Shape);
                }
                proof {
                    lemmas::lemma_narrow_dims(x@, 2, 1, (h - 1) as nat);
                }
                x.narrow(2, 1, h - 1)
            },
            CausalityAxis::Width => {
                let w: usize = x.dim(3)?;
                if w == 0 {
                    return Err(Failure::Shape);
                }
                proof {
                    lemmas::lemma_narrow_dims(x@, 3, 1, (w - 1) as nat);
                }
                x.narrow(3, 1, w - 1)
            },
            CausalityAxis::Neither => Ok(x),
        }
    }
}

} // verus!
