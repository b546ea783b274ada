//! Convolutions over one axis.
use vstd::prelude::*;

use crate::array::{self, Array};
use crate::error::Failure;
use crate::model::{self, Dtype, TensorView};
use crate::weights::{Weights, WeightsView};

verus! {

/// A convolution over the last axis.
pub struct Conv1d {
    pub weight: Array,
    pub bias: Option<Array>,
    pub padding: usize,
    pub dilation: usize,
}

impl Conv1d {
    /// Whether this is the convolution that a checkpoint holds.
    pub open spec fn loaded(&self, padding: nat, dilation: nat, bias: bool, vb: WeightsView) -> bool {
        &&& self.weight@ == vb.get("weight"@)
        &&& bias == self.bias is Some
        &&& self.bias matches Some(b) ==> b@ == vb.get("bias"@)
        &&& self.padding == padding
        &&& self.dilation == dilation
    }

    /// Whether a checkpoint holds a convolution of these sizes.
    pub open spec fn present(
        in_channels: nat,
        out_channels: nat,
        kernel_size: nat,
        bias: bool,
        vb: WeightsView,
    ) -> bool {
        &&& vb.holds("weight"@, seq![out_channels, in_channels, kernel_size])
        &&& bias ==> vb.holds("bias"@, seq![out_channels])
    }

    pub fn new(
        in_channels: usize,
        out_channels: usize,
        kernel_size: usize,
        padding: usize,
        dilation: usize,
        bias: bool,
        vb: &Weights,
    ) -> (r: Result<Conv1d, Failure>)
        ensures
            r matches Ok(c) ==> c.loaded(padding as nat, dilation as nat, bias, vb@),
            r is Ok ==> Conv1d::present(
                in_channels as nat,
                out_channels as nat,
                kernel_size as nat,
                bias,
                vb@,
            ),
            vb@.sound() && Conv1d::present(
                in_channels as nat,
                out_channels as nat,
                kernel_size as nat,
                bias,
                vb@,
            ) ==> r is Ok,
    {
        let weight = vb.get3(out_channels, in_channels, kernel_size, "weight")?;
        let bias = if bias {
            Some(vb.get1(out_channels, "bias")?)
        } else {
            None
        };
        Ok(Conv1d { weight, bias, padding, dilation })
    }

    /// What the convolution computes from `x`.
    pub open spec fn apply(&self, x: TensorView) -> TensorView {
        model::conv1d(
            x,
            self.weight@,
            array::opt_view(self.bias),
            self.padding as nat,
            1,
            self.dilation as nat,
            1,
        )
    }

    /// The shape of what the convolution computes.
    pub open spec fn dims_out(&self, d: Seq<nat>) -> Seq<nat> {
        let k = self.weight@.dims;
        seq![d[0], k[0], model::windows(d[2], k[2], self.padding as nat, 1, self.dilation as nat)]
    }

    /// Whether the convolution can be computed from an array of this shape, in main memory and in
    /// single precision.
    pub open spec fn accepts_shape(&self, d: Seq<nat>) -> bool {
        let k = self.weight@.dims;
        &&& d.len() == 3 && model::numel(d) > 0
        &&& self.weight.on_cpu() && self.weight@.dtype == Dtype::F32 && k.len() == 3 && model::numel(k) > 0
        &&& self.bias matches Some(b) ==> b.on_cpu() && b@.dtype == Dtype::F32 && b@.dims == seq![k[0]]
        &&& d[1] == k[1]
        &&& model::has_window(d[2], k[2], self.padding as nat, 1, self.dilation as nat)
        &&& d[2] + 2 * self.padding <= usize::MAX
        &&& model::fits(self.dims_out(d))
    }

    /// Whether the convolution can be computed from an array of this shape, and keeps it.
    pub open spec fn keeps_shape(&self, d: Seq<nat>) -> bool {
        self.accepts_shape(d) && self.dims_out(d) == d
    }

    pub fn forward(&self, x: &Array) -> (r: Result<Array, Failure>)
        ensures
            r matches Ok(t) ==> t@ == self.apply(x@) && t.on_cpu() == x.on_cpu(),
            r is Ok ==> x@.rank() == 3,
            x.on_cpu() && x@.dtype == Dtype::F32 && self.accepts_shape(x@.dims) ==> (r matches Ok(t) && t@.dtype
                == Dtype::F32 && t@.dims == self.dims_out(x@.dims)),
    {
        proof {
            reveal(model::conv1d);
        }
        x.conv1d(&self.weight, &self.bias, self.padding, 1, self.dilation, 1)
    }
}

/// A transposed convolution over the last axis.
pub struct ConvTranspose1d {
    pub weight: Array,
    pub bias: Option<Array>,
    pub padding: usize,
    pub stride: usize,
}

impl ConvTranspose1d {
    /// Whether this is the convolution that a checkpoint holds.
    pub open spec fn loaded(&self, padding: nat, stride: nat, vb: WeightsView) -> bool {
        &&& self.weight@ == vb.get("weight"@)
        &&& self.bias matches Some(b) && b@ == vb.get("bias"@)
        &&& self.padding == padding
        &&& self.stride == stride
    }

    /// Whether a checkpoint holds a convolution of these sizes.
    pub open spec fn present(in_channels: nat, out_channels: nat, kernel_size: nat, vb: WeightsView) -> bool {
        &&& vb.holds("weight"@, seq![in_channels, out_channels, kernel_size])
        &&& vb.holds("bias"@, seq![out_channels])
    }

    pub fn new(
        in_channels: usize,
        out_channels: usize,
        kernel_size: usize,
        padding: usize,
        stride: usize,
        vb: &Weights,
    ) -> (r: Result<ConvTranspose1d, Failure>)
        ensures
            r matches Ok(c) ==> c.loaded(padding as nat, stride as nat, vb@),
            r is Ok ==> ConvTranspose1d::present(
                in_channels as nat,
                out_channels as nat,
                kernel_size as nat,
                vb@,
            ),
            vb@.sound() && ConvTranspose1d::present(
                in_channels as nat,
                out_channels as nat,
                kernel_size as nat,
                vb@,
            ) ==> r is Ok,
    {
        let weight = vb.get3(in_channels, out_channels, kernel_size, "weight")?;
        let bias = vb.get1(out_channels, "bias")?;
        Ok(ConvTranspose1d { weight, bias: Some(bias), padding, stride })
    }

    /// What the convolution computes from `x`.
    pub open spec fn apply(&self, x: TensorView) -> TensorView {
        model::conv_transpose1d(
            x,
            self.weight@,
            array::opt_view(self.bias),
            self.padding as nat,
            self.stride as nat,
        )
    }

    /// The shape of what the convolution computes.
    pub open spec fn dims_out(&self, d: Seq<nat>) -> Seq<nat> {
        let k = self.weight@.dims;
        seq![d[0], k[1], model::spread(d[2], k[2], self.padding as nat, self.stride as nat) as nat]
    }

    /// Whether the convolution can be computed from an array of this shape, in main memory and in
    /// single precision.
    pub open spec fn accepts_shape(&self, d: Seq<nat>) -> bool {
        let k = self.weight@.dims;
        &&& d.len() == 3 && model::numel(d) > 0
        &&& self.weight.on_cpu() && self.weight@.dtype == Dtype::F32 && k.len() == 3 && model::numel(k) > 0
        &&& self.bias matches Some(b) ==> b.on_cpu() && b@.dtype == Dtype::F32 && b@.dims == seq![k[1]]
        &&& d[1] == k[0] && d[2] >= 1 && k[2] >= 1 && self.stride >= 1
        &&& 2 * self.padding <= (d[2] - 1) * self.stride <= usize::MAX
        &&& model::fits(self.dims_out(d))
    }

    pub fn forward(&self, x: &Array) -> (r: Result<Array, Failure>)
        ensures
            r matches Ok(t) ==> t@ == self.apply(x@) && t.on_cpu() == x.on_cpu(),
            r is Ok ==> x@.rank() == 3,
            x.on_cpu() && x@.dtype == Dtype::F32 && self.accepts_shape(x@.dims) ==> (r matches Ok(t) && t@.dtype
                == Dtype::F32 && t@.dims == self.dims_out(x@.dims)),
    {
        proof {
            reveal(model::conv_transpose1d);
        }
        x.conv_transpose1d(&self.weight, &self.bias, self.padding, self.stride)
    }
}

} // verus!
