//! Normalisation of groups of channels.
use vstd::prelude::*;

use crate::array::Array;
use crate::error::Failure;
use crate::lemmas;
use crate::model::{self, Dtype, TensorView};
use crate::scalar::Scalar;
use crate::weights::{Weights, WeightsView};

verus! {

/// Normalises each group of channels to mean zero and variance one, then scales and
/// shifts each channel.
pub struct GroupNorm {
    pub weight: Array,
    pub bias: Array,
    pub num_channels: usize,
    pub num_groups: usize,
    pub eps: Scalar,
}

impl GroupNorm {
    /// Whether this is the normalisation that a checkpoint holds.
    pub open spec fn loaded(&self, vb: WeightsView, groups: nat, channels: nat, eps: Scalar) -> bool {
        &&& self.weight@ == vb.get("weight"@)
        &&& self.bias@ == vb.get("bias"@)
        &&& self.num_channels == channels
        &&& self.num_groups == groups
        &&& self.eps == eps
    }

    /// Whether a checkpoint holds a normalisation of these sizes.
    pub open spec fn present(vb: WeightsView, groups: nat, channels: nat) -> bool {
        &&& groups > 0
        &&& channels % groups == 0
        &&& vb.holds("weight"@, seq![channels])
        &&& vb.holds("bias"@, seq![channels])
    }

    /// What the normalisation computes from `x`.
    pub open spec fn apply(&self, x: TensorView) -> TensorView {
        model::group_norm(x, self.weight@, self.bias@, self.num_groups as nat, model::number(self.eps))
    }

    /// Fails where the channels cannot be shared out to the groups.
    pub fn new(num_groups: usize, num_channels: usize, eps: Scalar, vb: &Weights) -> (r: Result<
        GroupNorm,
        Failure,
    >)
        ensures
            r matches Ok(n) ==> n.loaded(vb@, num_groups as nat, num_channels as nat, eps),
            r is Ok ==> GroupNorm::present(vb@, num_groups as nat, num_channels as nat),
            vb@.sound() && GroupNorm::present(vb@, num_groups as nat, num_channels as nat) ==> r is Ok,
    {
        let weight = vb.get1(num_channels, "weight")?;
        let bias = vb.get1(num_channels, "bias")?;
        if num_groups == 0 || num_channels % num_groups != 0 {
            return Err(Failure::NotDivisible { size: num_channels, part: num_groups });
        }
        Ok(GroupNorm { weight, bias, num_channels, num_groups, eps })
    }

    /// Whether the channels of `x` can be normalised, in main memory and in single precision.
    pub open spec fn normalises(&self, x: &Array) -> bool {
        x.on_cpu() && x@.dtype == Dtype::F32 && self.normalises_shape(x@.dims)
    }

    /// Whether the channels of an array of this shape can be normalised.
    pub open spec fn normalises_shape(&self, d: Seq<nat>) -> bool {
        let n = self.num_channels as nat;
        &&& d.len() >= 3 && d[1] == n && model::numel(d) > 0
        &&& self.num_groups > 0 && n % self.num_groups as nat == 0
        &&& self.weight.on_cpu() && self.weight@.dtype == Dtype::F32 && self.weight@.dims == seq![n]
        &&& self.bias.on_cpu() && self.bias@.dtype == Dtype::F32 && self.bias@.dims == seq![n]
    }

    pub fn forward(&self, x: &Array) -> (r: Result<Array, Failure>)
        ensures
            r matches Ok(t) ==> t@ == self.apply(x@),
            r is Ok ==> x@.rank() >= 3 && x@.dims[1] == self.num_channels,
            r matches Ok(t) ==> t.on_cpu() == x.on_cpu() && t@.dims == x@.dims && t@.dtype == x@.dtype,
            self.normalises(x) ==> r is Ok,
    {
        proof {
            reveal(model::group_norm);
            lemmas::lemma_numel1(self.num_channels as nat);
            if self.normalises(x) {
                lemmas::lemma_axis_positive(x@.dims, 1);
            }
        }

        x.group_norm(&self.weight, &self.bias, self.num_channels, self.num_groups, &Array::number(self.eps)?)
    }
}

} // verus!
