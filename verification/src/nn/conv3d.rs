//! Convolutions over time, height and width.
use vstd::prelude::*;

use crate::array::{self, window_count, Array};
use crate::error::Failure;
use crate::lemmas;
use crate::model::{self, BinOp, Dtype, TensorView};
use crate::text::same;
use crate::weights::{Weights, WeightsView};

verus! {

/// What stands around an image when a window reaches over its edge.
#[derive(Clone, Copy, PartialEq, Eq, Structural, Debug)]
pub enum SpatialPaddingMode {
    Zeros,
    /// The image mirrored at its edge.
    Reflect,
}

impl SpatialPaddingMode {
    pub fn parse(value: &str) -> (r: Result<SpatialPaddingMode, Failure>)
        ensures
            value@ == "zeros"@ ==> r == Ok::<SpatialPaddingMode, Failure>(SpatialPaddingMode::Zeros),
            value@ != "zeros"@ && value@ == "reflect"@ ==> r == Ok::<SpatialPaddingMode, Failure>(
                SpatialPaddingMode::Reflect,
            ),
            value@ != "zeros"@ && value@ != "reflect"@ ==> (r matches Err(Failure::Unknown { what }) && what@
                == value@),
    {
        if same(value, "zeros") {
            Ok(SpatialPaddingMode::Zeros)
        } else if same(value, "reflect") {
            Ok(SpatialPaddingMode::Reflect)
        } else {
            Err(Failure::Unknown { what: value.to_owned() })
        }
    }
}

/// A convolution over time, height and width: for each step of the kernel in time
/// a convolution over height and width, all of them summed.
pub struct Conv3d {
    pub weight: Array,
    pub bias: Option<Array>,
    pub stride: (usize, usize, usize),
    pub padding: (usize, usize, usize),
    pub spatial_padding_mode: SpatialPaddingMode,
    pub groups: usize,
}

impl Conv3d {
    /// Whether this is the convolution that a checkpoint holds.
    pub open spec fn loaded(&self, vb: WeightsView, bias: bool) -> bool {
        &&& self.weight@ == vb.get("weight"@)
        &&& bias == self.bias is Some
        &&& self.bias matches Some(b) ==> b@ == vb.get("bias"@)
    }

    /// Whether a checkpoint holds a convolution of these sizes.
    pub open spec fn present(
        vb: WeightsView,
        in_channels: nat,
        out_channels: nat,
        kernel_size: nat,
        groups: nat,
        bias: bool,
    ) -> bool {
        &&& groups > 0
        &&& vb.holds(
            "weight"@,
            seq![out_channels, in_channels / groups, kernel_size, kernel_size, kernel_size],
        )
        &&& bias ==> vb.holds("bias"@, seq![out_channels])
    }

    pub fn new(
        in_channels: usize,
        out_channels: usize,
        kernel_size: usize,
        stride: (usize, usize, usize),
        padding: (usize, usize, usize),
        groups: usize,
        bias: bool,
        vb: &Weights,
    ) -> (r: Result<Conv3d, Failure>)
        ensures
            r matches Ok(c) ==> c.loaded(vb@, bias) && c.stride == stride && c.padding == padding && c.groups
                == groups && c.spatial_padding_mode == SpatialPaddingMode::Zeros,
            r is Ok ==> Conv3d::present(
                vb@,
                in_channels as nat,
                out_channels as nat,
                kernel_size as nat,
                groups as nat,
                bias,
            ),
            vb@.sound() && Conv3d::present(
                vb@,
                in_channels as nat,
                out_channels as nat,
                kernel_size as nat,
                groups as nat,
                bias,
            ) ==> r is Ok,
    {
        Conv3d::new_with_padding_mode(
            in_channels,
            out_channels,
            kernel_size,
            stride,
            padding,
            groups,
            bias,
            SpatialPaddingMode::Zeros,
            vb,
        )
    }

    pub fn new_with_padding_mode(
        in_channels: usize,
        out_channels: usize,
        kernel_size: usize,
        stride: (usize, usize, usize),
        padding: (usize, usize, usize),
        groups: usize,
        bias: bool,
        spatial_padding_mode: SpatialPaddingMode,
        vb: &Weights,
    ) -> (r: Result<Conv3d, Failure>)
        ensures
            r matches Ok(c) ==> c.loaded(vb@, bias) && c.stride == stride && c.padding == padding && c.groups
                == groups && c.spatial_padding_mode == spatial_padding_mode,
            r is Ok ==> Conv3d::present(
                vb@,
                in_channels as nat,
                out_channels as nat,
                kernel_size as nat,
                groups as nat,
                bias,
            ),
            vb@.sound() && Conv3d::present(
                vb@,
                in_channels as nat,
                out_channels as nat,
                kernel_size as nat,
                groups as nat,
                bias,
            ) ==> r is Ok,
    {
        if groups == 0 {
            return Err(Failure::Shape);
        }
        let k: usize = kernel_size;
        let weight = vb.get5(out_channels, in_channels / groups, k, k, k, "weight")?;
        let bias = if bias {
            Some(vb.get1(out_channels, "bias")?)
        } else {
            None
        };
        Ok(Conv3d { weight, bias, stride, padding, spatial_padding_mode, groups })
    }

    /// `x` with zeros before and after it in time.
    pub open spec fn padded_in_time(&self, x: TensorView) -> TensorView {
        let p_t = self.padding.0 as nat;
        if p_t > 0 {
            let pad = model::zeros(seq![x.dims[0], x.dims[1], p_t, x.dims[3], x.dims[4]], x.dtype);
            model::cat(seq![pad, x, pad], 2)
        } else {
            x
        }
    }

    /// The number of frames of the result.
    pub open spec fn frames_out(&self, frames: nat) -> nat {
        model::windows(frames, self.weight@.dims[2], self.padding.0 as nat, self.stride.0 as nat, 1)
    }

    /// What step `kt` of the kernel in time contributes, where `padded` is `x` padded in time.
    pub open spec fn tap(&self, x: TensorView, padded: TensorView, kt: nat) -> TensorView {
        let frames = self.frames_out(x.dims[2]);
        let s_t = self.stride.0 as nat;
        let slice = if s_t == 1 {
            model::narrow(padded, 2, kt, frames)
        } else {
            model::index_select(padded, Seq::new(frames, |d: int| d * s_t + kt), 2)
        };
        let images = model::reshape(
            model::transpose(slice, 1, 2),
            seq![x.dims[0] * frames, x.dims[1], x.dims[3], x.dims[4]],
        );
        let kernel = model::squeeze(model::narrow(self.weight@, 2, kt, 1), 2);
        let p = (self.padding.1 as nat, self.padding.2 as nat);
        let s = (self.stride.1 as nat, self.stride.2 as nat);
        let y = match self.spatial_padding_mode {
            SpatialPaddingMode::Zeros => model::conv2d(images, kernel, None, p.0, s.0, 1, self.groups as nat),
            SpatialPaddingMode::Reflect => model::conv2d(
                reflect_pad_of(images, p.0, p.1),
                kernel,
                None,
                0,
                s.0,
                1,
                self.groups as nat,
            ),
        };
        model::transpose(
            model::reshape(y, seq![x.dims[0], frames, y.dims[1], y.dims[2], y.dims[3]]),
            1,
            2,
        )
    }

    /// The sum of the contributions of the first `n` steps of the kernel.
    pub open spec fn taps(&self, x: TensorView, padded: TensorView, n: nat) -> TensorView
        decreases n,
    {
        if n <= 1 {
            self.tap(x, padded, 0)
        } else {
            model::binary(
                BinOp::Plus,
                self.taps(x, padded, (n - 1) as nat),
                self.tap(x, padded, (n - 1) as nat),
            )
        }
    }

    /// What the convolution computes from `x`.
    #[verifier::opaque]
    pub open spec fn apply(&self, x: TensorView) -> TensorView {
        let sum = self.taps(x, self.padded_in_time(x), self.weight@.dims[2]);
        match self.bias {
            Some(b) => model::binary(
                BinOp::Plus,
                sum,
                model::reshape(b@, seq![1, model::numel(b@.dims), 1, 1, 1]),
            ),
            None => sum,
        }
    }

    /// The shape of what the convolution is computed from, padded in time.
    pub open spec fn padded_dims(&self, d: Seq<nat>) -> Seq<nat> {
        seq![d[0], d[1], d[2] + 2 * self.padding.0 as nat, d[3], d[4]]
    }

    /// The shape of what the convolution computes.
    pub open spec fn dims_out(&self, d: Seq<nat>) -> Seq<nat> {
        let k = self.weight@.dims;
        let (p, s) = (self.padding.1 as nat, self.stride.1 as nat);
        seq![
            d[0],
            k[0],
            self.frames_out(d[2]),
            model::windows(d[3], k[3], p, s, 1),
            model::windows(d[4], k[4], p, s, 1),
        ]
    }

    /// Whether the convolution can be computed from `x`, in main memory and in single precision.
    pub open spec fn accepts(&self, x: &Array) -> bool {
        x.on_cpu() && x@.dtype == Dtype::F32 && self.accepts_shape(x@.dims)
    }

    /// Whether the convolution can be computed from an array of this shape, and what is computed
    /// on the way can be addressed.
    pub open spec fn accepts_shape(&self, d: Seq<nat>) -> bool {
        let k = self.weight@.dims;
        let (p, s) = (self.padding.1 as nat, self.stride.1 as nat);
        let images = d[0] * self.frames_out(d[2]);
        &&& self.weight.on_cpu() && self.weight@.dtype == Dtype::F32
        &&& d.len() == 5 && k.len() == 5 && model::numel(d) > 0 && model::numel(k) > 0
        &&& self.groups >= 1 && d[1] == k[1] * self.groups && k[0] % self.groups as nat == 0
        &&& self.bias matches Some(b) ==> b.on_cpu() && b@.dtype == Dtype::F32 && b@.dims == seq![k[0]]
        &&& self.stride.1 == self.stride.2 && self.padding.1 == self.padding.2
        &&& model::has_window(d[2], k[2], self.padding.0 as nat, self.stride.0 as nat, 1)
        &&& model::has_window(d[3], k[3], p, s, 1) && model::has_window(d[4], k[4], p, s, 1)
        &&& d[2] + 2 * self.padding.0 <= usize::MAX && d[3] + 2 * p <= usize::MAX && d[4] + 2 * p <= usize::MAX
        &&& self.spatial_padding_mode == SpatialPaddingMode::Reflect && p > 0 ==> p < d[3] <= u32::MAX && p < d[4]
            <= u32::MAX
        &&& (d[2] + 2 * self.padding.0) * 2 <= i64::MAX && (d[2] + 2 * self.padding.0) * 2 <= usize::MAX
        &&& self.stride.0 <= d[2] + 2 * self.padding.0
        &&& model::fits(self.padded_dims(d))
        &&& model::fits(seq![images, d[1], d[3] + 2 * p, d[4] + 2 * p])
        &&& model::fits(seq![images, k[0], self.dims_out(d)[3], self.dims_out(d)[4]])
    }

    /// The steps of the kernel in time stay within the padded video.
    proof fn lemma_steps(&self, frames: nat, kt: nat)
        requires
            model::has_window(frames, self.weight@.dims[2], self.padding.0 as nat, self.stride.0 as nat, 1),
            kt < self.weight@.dims[2],
            self.stride.0 <= frames + 2 * self.padding.0,
        ensures
            self.frames_out(frames) >= 1,
            (self.frames_out(frames) - 1) * self.stride.0 + kt < frames + 2 * self.padding.0,
            self.stride.0 == 1 ==> self.frames_out(frames) + kt <= frames + 2 * self.padding.0,
            self.frames_out(frames) * self.stride.0 + kt <= 2 * (frames + 2 * self.padding.0),
    {
        let s = self.stride.0 as int;
        let room = frames + 2 * self.padding.0 - (self.weight@.dims[2] - 1) - 1;
        let steps = room / s;
        assert(self.frames_out(frames) == steps + 1 && steps >= 0 && steps * s <= room && (s == 1 ==> steps == room))
            by (nonlinear_arith)
            requires
                s >= 1,
                room >= 0,
                steps == room / s,
                self.frames_out(frames) == (room / s + 1) as nat,
        ;
        assert((steps + 1) * s == steps * s + s) by (nonlinear_arith);
    }

    /// The shapes on the way can be addressed and have the elements that they come from.
    proof fn lemma_sizes(&self, x: &Array)
        requires
            self.accepts(x),
        ensures
            ({
                let (d, k, o) = (x@.dims, self.weight@.dims, self.dims_out(x@.dims));
                let f = self.frames_out(d[2]);
                let images = d[0] * f;
                &&& d[0] > 0 && d[1] > 0 && d[2] > 0 && d[3] > 0 && d[4] > 0 && f > 0
                &&& k[0] > 0 && k[1] > 0 && k[2] > 0 && k[3] > 0 && k[4] > 0 && o[3] > 0 && o[4] > 0
                &&& images <= usize::MAX
                &&& model::numel(seq![d[0], f, d[1], d[3], d[4]]) == model::numel(seq![images, d[1], d[3], d[4]])
                &&& model::numel(seq![images, d[1], d[3], d[4]]) > 0
                &&& model::fits(seq![images, d[1], d[3], d[4]])
                &&& model::numel(
                    seq![images, d[1], d[3] + 2 * self.padding.1 as nat, d[4] + 2 * self.padding.1 as nat],
                ) > 0
                &&& model::fits(seq![d[0], d[1], f, d[3], d[4]])
                &&& model::fits(seq![f])
                &&& model::numel(seq![k[0], k[1], k[3], k[4]]) > 0
                &&& model::numel(seq![d[0], f, k[0], o[3], o[4]]) == model::numel(seq![images, k[0], o[3], o[4]])
                &&& model::fits(seq![d[0], f, k[0], o[3], o[4]])
                &&& model::numel(o) > 0 && model::fits(o)
            }),
    {
        let (d, k, o) = (x@.dims, self.weight@.dims, self.dims_out(x@.dims));
        let (f, p) = (self.frames_out(d[2]), self.padding.1 as nat);
        let images = d[0] * f;
        assert(d =~= seq![d[0], d[1], d[2], d[3], d[4]] && k =~= seq![k[0], k[1], k[2], k[3], k[4]]);
        lemma_positive5(d[0], d[1], d[2], d[3], d[4]);
        lemma_positive5(k[0], k[1], k[2], k[3], k[4]);
        self.lemma_steps(d[2], 0);
        assert(o[3] >= 1 && o[4] >= 1) by {
            lemma_window(d[3], k[3], p, self.stride.1 as nat);
            lemma_window(d[4], k[4], p, self.stride.1 as nat);
        }
        assert(images > 0) by (nonlinear_arith)
            requires
                images == d[0] * f,
                d[0] > 0,
                f > 0,
        ;
        let (h2, w2) = (d[3] + 2 * p, d[4] + 2 * p);
        let wide: Seq<nat> = seq![images, d[1], h2, w2];
        lemmas::lemma_numel4(images, d[1], d[3], d[4]);
        lemmas::lemma_numel4(images, d[1], h2, w2);
        let pl = images * d[1];
        assert(pl > 0) by (nonlinear_arith)
            requires
                pl == images * d[1],
                images > 0,
                d[1] > 0,
        ;
        assert(0 < pl * d[3] <= pl * h2) by (nonlinear_arith)
            requires
                pl > 0,
                0 < d[3] <= h2,
        ;
        let (few, many) = (pl * d[3], pl * h2);
        assert(0 < few * d[4] <= many * w2) by (nonlinear_arith)
            requires
                0 < few <= many,
                0 < d[4] <= w2,
        ;
        let small: Seq<nat> = seq![images, d[1], d[3], d[4]];
        lemmas::lemma_room(small, wide);
        lemmas::lemma_extent_is_numel(small);
        lemmas::lemma_factors(pl, d[3], d[4]);
        lemmas::lemma_factors(images, d[1], 1);
        lemmas::lemma_numel5(d[0], f, d[1], d[3], d[4]);
        lemmas::lemma_numel5(d[0], d[1], f, d[3], d[4]);
        assert(d[0] * d[1] * f == d[0] * f * d[1]) by (nonlinear_arith);
        lemmas::lemma_room(seq![d[0], d[1], f, d[3], d[4]], small);
        lemmas::lemma_numel1(f);
        lemmas::lemma_factors(d[0], f, 1);
        lemmas::lemma_room(seq![f], small);
        lemma_positive4(k[0], k[1], k[3], k[4]);
        let flat: Seq<nat> = seq![images, k[0], o[3], o[4]];
        lemma_positive4(images, k[0], o[3], o[4]);
        lemmas::lemma_numel4(images, k[0], o[3], o[4]);
        lemmas::lemma_numel5(d[0], f, k[0], o[3], o[4]);
        lemmas::lemma_numel5(d[0], k[0], f, o[3], o[4]);
        assert(d[0] * k[0] * f == d[0] * f * k[0]) by (nonlinear_arith);
        lemmas::lemma_room(seq![d[0], f, k[0], o[3], o[4]], flat);
        assert(o =~= seq![d[0], k[0], f, o[3], o[4]]);
        lemmas::lemma_room(o, flat);
    }

    /// What step `kt` of the kernel in time contributes.
    fn tap_forward(&self, x: &Array, padded: &Array, kt: usize, frames: usize) -> (r: Result<Array, Failure>)
        requires
            x@.rank() == 5,
            frames == self.frames_out(x@.dims[2]),
        ensures
            r matches Ok(y) ==> y@ == self.tap(x@, padded@, kt as nat),
            self.accepts(x) && kt < self.weight@.dims[2] && padded.on_cpu() && padded@.dtype == Dtype::F32
                && padded@.dims == self.padded_dims(x@.dims) ==> (r matches Ok(y) && y.on_cpu() && y@.dtype == Dtype::F32
                && y@.dims == self.dims_out(x@.dims)),
    {
        let ghost fine = self.accepts(x) && kt < self.weight@.dims[2] && padded.on_cpu() && padded@.dtype == Dtype::F32
            && padded@.dims == self.padded_dims(x@.dims);
        let ghost wd = self.weight@.dims;
        proof {
            if fine {
                self.lemma_sizes(x);
                self.lemma_steps(x@.dims[2], kt as nat);
            }
            lemmas::lemma_narrow_dims(padded@, 2, kt as nat, frames as nat);
            lemmas::lemma_narrow_dims(self.weight@, 2, kt as nat, 1);
            reveal(model::index_select);
            reveal(model::conv2d);
        }
        let (b, c_in, _d, h, w) = x.dims5()?;
        let (s_t, s_h, s_w) = self.stride;
        let (_p_t, p_h, p_w) = self.padding;
        let slice = if s_t == 1 {
            padded.narrow(2, kt, frames)?
        } else {
            let ids = strided_positions(frames, s_t, kt)?;
            assert(array::positions(ids@) =~= Seq::new(frames as nat, |d: int| d * s_t + kt));
            proof {
                if fine {
                    assert forall|j: int| 0 <= j < ids@.len() implies 0 <= #[trigger] ids@[j] < padded@.dims[2] by {
                        assert(ids@[j] == j * s_t + kt);
                        assert(0 <= j * s_t <= (frames - 1) * s_t) by (nonlinear_arith)
                            requires
                                0 <= j <= frames - 1,
                                s_t >= 0,
                        ;
                    }
                    assert(array::index_list(ids@, padded@.dims[2]));
                    assert(padded@.dims.update(2, frames as nat) =~= seq![
                        b as nat,
                        c_in as nat,
                        frames as nat,
                        h as nat,
                        w as nat,
                    ]);
                }
            }
            padded.index_select(ids, 2)?
        };
        let count: usize = match b.checked_mul(frames) {
            Some(n) => n,
            None => {
                return Err(Failure::Overflow);
            },
        };
        proof {
            lemmas::lemma_permute_dims(slice@, model::swapped(5, 1, 2));
            if fine {
                assert(slice@.dims =~= seq![b as nat, c_in as nat, frames as nat, h as nat, w as nat]);
                assert(model::transpose(slice@, 1, 2).dims =~= seq![
                    b as nat,
                    frames as nat,
                    c_in as nat,
                    h as nat,
                    w as nat,
                ]);
            }
        }
        let x_2d = slice.transpose(1, 2)?.contiguous()?.reshape4(count, c_in, h, w)?;
        assert(fine ==> wd.update(2, 1).remove(2) =~= seq![wd[0], wd[1], wd[3], wd[4]]);
        let w_2d = self.weight.narrow(2, kt, 1)?.squeeze(2)?;
        let y_2d = match self.spatial_padding_mode {
            SpatialPaddingMode::Zeros => conv2d_manual(
                &x_2d,
                &w_2d,
                &None,
                (s_h, s_w),
                (p_h, p_w),
                self.groups,
            )?,
            SpatialPaddingMode::Reflect => {
                let x_2d = reflect_pad_2d(&x_2d, p_h, p_w)?;
                conv2d_manual(&x_2d, &w_2d, &None, (s_h, s_w), (0, 0), self.groups)?
            },
        };
        let (_n, c_out, h_out, w_out) = y_2d.dims4()?;
        let out = y_2d.reshape5(b, frames, c_out, h_out, w_out)?;
        proof {
            lemmas::lemma_permute_dims(out@, model::swapped(5, 1, 2));
            if fine {
                assert(model::transpose(out@, 1, 2).dims =~= self.dims_out(x@.dims));
            }
        }
        out.transpose(1, 2)?.contiguous()
    }

    /// Convolves a `(B, C, D, H, W)` array.
    pub fn forward(&self, x: &Array) -> (r: Result<Array, Failure>)
        ensures
            r matches Ok(t) ==> t@ == self.apply(x@),
            r is Ok ==> x@.rank() == 5 && self.weight@.rank() > 2,
            x@.rank() == 5 && self.weight@.rank() > 2 && self.weight@.dims[2] == 0 ==> r == Err::<Array, Failure>(
                Failure::EmptyKernel,
            ),
            self.accepts(x) ==> (r matches Ok(t) && t.on_cpu() && t@.dtype == Dtype::F32 && t@.dims == self.dims_out(
                x@.dims,
            )),
    {
        let ghost fine = self.accepts(x);
        proof {
            reveal(Conv3d::apply);
            if fine {
                self.lemma_sizes(x);
            }
        }
        let (b, c_in, d, h, w) = x.dims5()?;
        let p_t: usize = self.padding.0;
        let k_t: usize = self.weight.dim(2)?;
        if k_t == 0 {
            return Err(Failure::EmptyKernel);
        }
        let frames: usize = window_count(d, k_t, p_t, self.stride.0, 1)?;
        let padded = if p_t > 0 {
            let dims: Vec<usize> = vec![b, c_in, p_t, h, w];
            assert(model::nats(dims@) =~= seq![x@.dims[0], x@.dims[1], p_t as nat, x@.dims[3], x@.dims[4]]);
            proof {
                if fine {
                    lemma_pad_fits(x@.dims, p_t as nat);
                    assert(x@.dims.update(2, p_t as nat) =~= model::nats(dims@));
                }
            }
            let pad = Array::zeros(&dims, x.dtype(), &x.device())?;
            let parts = vec![pad.clone(), x.clone(), pad];
            assert(array::views(parts@) =~= seq![pad@, x@, pad@]);
            proof {
                if fine {
                    lemma_framed(pad@, x@, p_t as nat);
                    assert(array::kernels::alike(parts@));
                    assert(model::cat(seq![pad@, x@, pad@], 2).dims =~= self.padded_dims(x@.dims));
                }
            }
            Array::cat(&parts, 2)?
        } else {
            x.clone()
        };
        let mut output = self.tap_forward(x, &padded, 0, frames)?;
        let mut kt: usize = 1;
        while kt < k_t
            invariant
                1 <= kt <= k_t,
                x@.rank() == 5,
                frames == self.frames_out(x@.dims[2]),
                k_t == self.weight@.dims[2],
                self.weight@.rank() > 2,
                padded@ == self.padded_in_time(x@),
                output@ == self.taps(x@, padded@, kt as nat),
                fine == self.accepts(x),
                fine ==> padded.on_cpu() && padded@.dtype == Dtype::F32 && padded@.dims == self.padded_dims(x@.dims),
                fine ==> output.on_cpu() && output@.dtype == Dtype::F32 && output@.dims == self.dims_out(x@.dims),
            decreases k_t - kt,
        {
            let y = self.tap_forward(x, &padded, kt, frames)?;
            output = output.pairwise(BinOp::Plus, &y)?;
            kt = kt + 1;
        }
        match &self.bias {
            Some(bias) => {
                let n: usize = bias.elem_count();
                proof {
                    if fine {
                        let o = self.dims_out(x@.dims);
                        lemmas::lemma_numel1(o[1]);
                        lemmas::lemma_numel5(1, o[1], 1, 1, 1);
                        assert(1 * o[1] * 1 * 1 * 1 == o[1]) by (nonlinear_arith);
                        lemmas::lemma_numel5(o[0], o[1], o[2], o[3], o[4]);
                        lemmas::lemma_factors(o[0] * o[1] * o[2], o[3], o[4]);
                        lemmas::lemma_factors(o[0], o[1], o[2]);
                        assert(o =~= seq![o[0], o[1], o[2], o[3], o[4]]);
                        lemmas::lemma_room(seq![1, o[1], 1, 1, 1], o);
                        assert(lemmas::spreads(seq![1, o[1], 1, 1, 1], o));
                        lemmas::lemma_spread_common(seq![1, o[1], 1, 1, 1], o);
                    }
                }
                let bias = bias.reshape5(1, n, 1, 1, 1)?;
                output.broadcast(BinOp::Plus, &bias)
            },
            None => Ok(output),
        }
    }
}

/// A video with zeros before and after it in time.
proof fn lemma_framed(pad: TensorView, x: TensorView, p: nat)
    requires
        x.rank() == 5,
        pad.dims == x.dims.update(2, p),
        pad.dtype == x.dtype,
    ensures
        model::joinable(seq![pad, x, pad], 2),
        model::cat(seq![pad, x, pad], 2).dims == x.dims.update(2, x.dims[2] + 2 * p),
        model::cat(seq![pad, x, pad], 2).dtype == x.dtype,
{
    let parts = seq![pad, x, pad];
    assert(parts[0] == pad && parts[1] == x && parts[2] == pad);
    assert(model::joinable(parts, 2));
    model::lemma_cat_dims(parts, 2);
    assert(parts.drop_last() =~= seq![pad, x]);
    assert(seq![pad, x].drop_last() =~= seq![pad]);
    assert(seq![pad].drop_last() =~= Seq::<TensorView>::empty());
    assert(seq![pad].last() == pad && seq![pad, x].last() == x && parts.last() == pad);
    assert(model::joined_size(Seq::<TensorView>::empty(), 2) == 0);
    assert(model::joined_size(seq![pad], 2) == p);
    assert(model::joined_size(seq![pad, x], 2) == p + x.dims[2]);
    assert(pad.dims.update(2, x.dims[2] + 2 * p) =~= x.dims.update(2, x.dims[2] + 2 * p));
    array::kernels::lemma_cat_dtype(parts, 2);
}

/// A few frames can be addressed where a longer video can.
proof fn lemma_pad_fits(d: Seq<nat>, p: nat)
    requires
        d.len() == 5,
        d[0] > 0 && d[1] > 0 && d[2] > 0 && d[3] > 0 && d[4] > 0 && p > 0,
        model::fits(seq![d[0], d[1], d[2] + 2 * p, d[3], d[4]]),
    ensures
        model::fits(seq![d[0], d[1], p, d[3], d[4]]),
{
    let all = d[2] + 2 * p;
    lemma_positive5(d[0], d[1], p, d[3], d[4]);
    lemmas::lemma_numel5(d[0], d[1], p, d[3], d[4]);
    lemmas::lemma_numel5(d[0], d[1], all, d[3], d[4]);
    let bc = d[0] * d[1];
    assert(bc * p <= bc * all) by (nonlinear_arith)
        requires
            p <= all,
    ;
    let (few, many) = (bc * p, bc * all);
    assert(few * d[3] <= many * d[3]) by (nonlinear_arith)
        requires
            few <= many,
    ;
    let (few, many) = (few * d[3], many * d[3]);
    assert(few * d[4] <= many * d[4]) by (nonlinear_arith)
        requires
            few <= many,
    ;
    lemmas::lemma_room(seq![d[0], d[1], p, d[3], d[4]], seq![d[0], d[1], all, d[3], d[4]]);
}

/// A shape without empty axes has elements, and one with elements has no empty axes.
proof fn lemma_positive4(a: nat, b: nat, c: nat, d: nat)
    ensures
        model::numel(seq![a, b, c, d]) > 0 <==> a > 0 && b > 0 && c > 0 && d > 0,
{
    lemmas::lemma_numel4(a, b, c, d);
    let (ab, abc) = (a * b, a * b * c);
    assert((ab > 0 <==> a > 0 && b > 0) && (abc > 0 <==> ab > 0 && c > 0) && (abc * d > 0 <==> abc > 0 && d > 0))
        by (nonlinear_arith)
        requires
            ab == a * b,
            abc == ab * c,
    ;
}

proof fn lemma_positive5(a: nat, b: nat, c: nat, d: nat, e: nat)
    ensures
        model::numel(seq![a, b, c, d, e]) > 0 <==> a > 0 && b > 0 && c > 0 && d > 0 && e > 0,
{
    lemma_positive4(a, b, c, d);
    lemmas::lemma_numel4(a, b, c, d);
    lemmas::lemma_numel5(a, b, c, d, e);
    let abcd = a * b * c * d;
    assert(abcd * e > 0 <==> abcd > 0 && e > 0) by (nonlinear_arith);
}

/// Where there is a position of a window, there is at least one.
proof fn lemma_window(n: nat, k: nat, padding: nat, stride: nat)
    requires
        model::has_window(n, k, padding, stride, 1),
    ensures
        model::windows(n, k, padding, stride, 1) >= 1,
{
    let room = n + 2 * padding - 1 * (k - 1) - 1;
    assert(room / (stride as int) >= 0) by (nonlinear_arith)
        requires
            room >= 0,
            stride >= 1,
    ;
}

/// The positions `kt, kt + stride, kt + 2 stride, ...`.
fn strided_positions(count: usize, stride: usize, kt: usize) -> (r: Result<Vec<i64>, Failure>)
    ensures
        r matches Err(e) ==> e.basic(),
        r matches Ok(ids) ==> ids.len() == count && forall|d: int|
            0 <= d < count ==> #[trigger] ids[d] == d * stride + kt,
        count * stride + kt <= i64::MAX && count * stride + kt <= usize::MAX ==> r is Ok,
{
    let mut ids: Vec<i64> = Vec::new();
    let mut d: usize = 0;
    while d < count
        invariant
            d <= count,
            ids.len() == d,
            forall|k: int| 0 <= k < d ==> #[trigger] ids[k] == k * stride + kt,
        decreases count - d,
    {
        assert(d * stride <= count * stride) by (nonlinear_arith)
            requires
                d < count,
        ;
        let position: usize = match d.checked_mul(stride) {
            Some(p) => match p.checked_add(kt) {
                Some(q) => q,
                None => {
                    return Err(Failure::Overflow);
                },
            },
            None => {
                return Err(Failure::Overflow);
            },
        };
        if position as u64 > i64::MAX as u64 {
            return Err(Failure::Overflow);
        }
        ids.push(position as i64);
        d = d + 1;
    }
    Ok(ids)
}

/// A [`Conv3d`] that repeats the first and the last frame where it reaches over
/// the ends in time.
pub struct CausalConv3d {
    pub conv: Conv3d,
    pub time_kernel_size: usize,
}

impl CausalConv3d {
    /// Whether this is the convolution that a checkpoint holds.
    pub open spec fn loaded(
        &self,
        vb: WeightsView,
        kernel_size: nat,
        stride: (usize, usize, usize),
        groups: nat,
        bias: bool,
        mode: SpatialPaddingMode,
    ) -> bool {
        &&& self.conv.loaded(vb.pp("conv"@), bias)
        &&& self.conv.stride == stride
        &&& self.conv.padding.0 == 0
        &&& self.conv.padding.1 == kernel_size / 2
        &&& self.conv.padding.2 == kernel_size / 2
        &&& self.conv.groups == groups
        &&& self.conv.spatial_padding_mode == mode
        &&& self.time_kernel_size == kernel_size
    }

    pub fn new(
        in_channels: usize,
        out_channels: usize,
        kernel_size: usize,
        stride: (usize, usize, usize),
        groups: usize,
        bias: bool,
        vb: &Weights,
    ) -> (r: Result<CausalConv3d, Failure>)
        ensures
            r matches Ok(c) ==> c.loaded(
                vb@,
                kernel_size as nat,
                stride,
                groups as nat,
                bias,
                SpatialPaddingMode::Zeros,
            ),
            r is Ok ==> Conv3d::present(
                vb@.pp("conv"@),
                in_channels as nat,
                out_channels as nat,
                kernel_size as nat,
                groups as nat,
                bias,
            ),
            vb@.sound() && Conv3d::present(
                vb@.pp("conv"@),
                in_channels as nat,
                out_channels as nat,
                kernel_size as nat,
                groups as nat,
                bias,
            ) ==> r is Ok,
    {
        CausalConv3d::new_with_padding_mode(
            in_channels,
            out_channels,
            kernel_size,
            stride,
            groups,
            bias,
            SpatialPaddingMode::Zeros,
            vb,
        )
    }

    pub fn new_with_padding_mode(
        in_channels: usize,
        out_channels: usize,
        kernel_size: usize,
        stride: (usize, usize, usize),
        groups: usize,
        bias: bool,
        spatial_padding_mode: SpatialPaddingMode,
        vb: &Weights,
    ) -> (r: Result<CausalConv3d, Failure>)
        ensures
            r matches Ok(c) ==> c.loaded(
                vb@,
                kernel_size as nat,
                stride,
                groups as nat,
                bias,
                spatial_padding_mode,
            ),
            r is Ok ==> Conv3d::present(
                vb@.pp("conv"@),
                in_channels as nat,
                out_channels as nat,
                kernel_size as nat,
                groups as nat,
                bias,
            ),
            vb@.sound() && Conv3d::present(
                vb@.pp("conv"@),
                in_channels as nat,
                out_channels as nat,
                kernel_size as nat,
                groups as nat,
                bias,
            ) ==> r is Ok,
    {
        let conv = Conv3d::new_with_padding_mode(
            in_channels,
            out_channels,
            kernel_size,
            stride,
            (0, kernel_size / 2, kernel_size / 2),
            groups,
            bias,
            spatial_padding_mode,
            &vb.pp("conv"),
        )?;
        Ok(CausalConv3d { conv, time_kernel_size: kernel_size })
    }

    /// `x` with its first frame repeated before it and, unless causal, its last
    /// frame repeated after it.
    pub open spec fn extended(&self, x: TensorView, causal: bool) -> TensorView {
        let k = self.time_kernel_size as nat;
        let first = model::narrow(x, 2, 0, 1);
        if causal {
            model::cat(Seq::new((k - 1) as nat, |i: int| first).push(x), 2)
        } else {
            let half = ((k - 1) / 2) as nat;
            let last = model::narrow(x, 2, (x.dims[2] - 1) as nat, 1);
            model::cat(
                Seq::new(half, |i: int| first).push(x) + Seq::new(half, |i: int| last),
                2,
            )
        }
    }

    /// The shape of the extended video.
    pub open spec fn extended_dims(&self, d: Seq<nat>, causal: bool) -> Seq<nat> {
        let k = self.time_kernel_size as nat;
        let more = if causal { (k - 1) as nat } else { (2 * ((k - 1) / 2)) as nat };
        seq![d[0], d[1], d[2] + more, d[3], d[4]]
    }

    /// Whether the convolution can be computed from `x`, in main memory and in single precision.
    pub open spec fn accepts(&self, x: &Array, causal: bool) -> bool {
        x.on_cpu() && x@.dtype == Dtype::F32 && self.accepts_shape(x@.dims, causal)
    }

    /// Whether the convolution can be computed from an array of this shape.
    pub open spec fn accepts_shape(&self, d: Seq<nat>, causal: bool) -> bool {
        &&& self.time_kernel_size > 0
        &&& d.len() == 5 && model::numel(d) > 0
        &&& model::fits(self.extended_dims(d, causal))
        &&& self.conv.accepts_shape(self.extended_dims(d, causal))
    }

    /// The shape of what the convolution computes.
    pub open spec fn dims_out(&self, d: Seq<nat>, causal: bool) -> Seq<nat> {
        self.conv.dims_out(self.extended_dims(d, causal))
    }

    /// What the convolution computes from `x`.
    #[verifier::opaque]
    pub open spec fn apply(&self, x: TensorView, causal: bool) -> TensorView {
        self.conv.apply(self.extended(x, causal))
    }

    pub fn forward(&self, x: &Array, causal: bool) -> (r: Result<Array, Failure>)
        ensures
            r matches Ok(t) ==> t@ == self.apply(x@, causal),
            r is Ok ==> self.time_kernel_size > 0,
            self.time_kernel_size == 0 ==> r == Err::<Array, Failure>(Failure::EmptyKernel),
            self.accepts(x, causal) ==> (r matches Ok(t) && t.on_cpu() && t@.dtype == Dtype::F32 && t@.dims
                == self.dims_out(x@.dims, causal)),
    {
        let ghost fine = self.accepts(x, causal);
        proof {
            reveal(CausalConv3d::apply);
            if fine {
                let d = x@.dims;
                assert(d =~= seq![d[0], d[1], d[2], d[3], d[4]]);
                lemma_positive5(d[0], d[1], d[2], d[3], d[4]);
            }
            lemmas::lemma_narrow_dims(x@, 2, 0, 1);
            lemmas::lemma_narrow_dims(x@, 2, (x@.dims[2] - 1) as nat, 1);
        }
        if self.time_kernel_size == 0 {
            return Err(Failure::EmptyKernel);
        }
        let first_frame = x.narrow(2, 0, 1)?;
        let padded = if causal {
            let mut parts = copies(&first_frame, self.time_kernel_size - 1);
            parts.push(x.clone());
            assert(array::views(parts@) =~= Seq::new(
                (self.time_kernel_size - 1) as nat,
                |i: int| first_frame@,
            ).push(x@));
            proof {
                if fine {
                    lemma_extended(
                        parts@,
                        first_frame@,
                        x@,
                        first_frame@,
                        (self.time_kernel_size - 1) as nat,
                        0,
                    );
                    assert(array::views(parts@) =~= Seq::new(
                        (self.time_kernel_size - 1) as nat,
                        |i: int| first_frame@,
                    ).push(x@) + Seq::new(0, |i: int| first_frame@));
                    assert(x@.dims.update(2, (x@.dims[2] + (self.time_kernel_size - 1)) as nat)
                        =~= self.extended_dims(x@.dims, causal));
                }
            }
            Array::cat(&parts, 2)?
        } else {
            let (_b, _c, d, _h, _w) = x.dims5()?;
            let last_frame = x.narrow(2, d - 1, 1)?;
            let half_pad: usize = (self.time_kernel_size - 1) / 2;
            let mut parts = copies(&first_frame, half_pad);
            parts.push(x.clone());
            let mut post = copies(&last_frame, half_pad);
            parts.append(&mut post);
            assert(array::views(parts@) =~= Seq::new(half_pad as nat, |i: int| first_frame@).push(x@)
                + Seq::new(half_pad as nat, |i: int| last_frame@));
            proof {
                if fine {
                    lemma_extended(parts@, first_frame@, x@, last_frame@, half_pad as nat, half_pad as nat);
                    assert(x@.dims.update(2, (x@.dims[2] + 2 * half_pad) as nat) =~= self.extended_dims(
                        x@.dims,
                        causal,
                    ));
                }
            }
            Array::cat(&parts, 2)?
        };
        self.conv.forward(&padded)
    }
}

proof fn lemma_joined_both(a: Seq<TensorView>, b: Seq<TensorView>, dim: int)
    ensures
        model::joined_size(a + b, dim) == model::joined_size(a, dim) + model::joined_size(b, dim),
    decreases b.len(),
{
    if b.len() == 0 {
        assert(a + b =~= a);
    } else {
        assert((a + b).drop_last() =~= a + b.drop_last());
        lemma_joined_both(a, b.drop_last(), dim);
    }
}

/// An array with copies of single positions of its third axis before and after it.
pub proof fn lemma_extended(
    parts: Seq<Array>,
    first: TensorView,
    x: TensorView,
    last: TensorView,
    before: nat,
    after: nat,
)
    requires
        x.rank() > 2,
        x.dtype.plain(),
        first.dims == x.dims.update(2, 1) && last.dims == first.dims,
        first.dtype == x.dtype && last.dtype == x.dtype,
        forall|i: int| 0 <= i < parts.len() ==> (#[trigger] parts[i]).on_cpu(),
        array::views(parts) == Seq::new(before, |i: int| first).push(x) + Seq::new(after, |i: int| last),
    ensures
        array::kernels::alike(parts),
        model::joinable(array::views(parts), 2),
        model::cat(array::views(parts), 2).dims == x.dims.update(2, x.dims[2] + before + after),
        model::cat(array::views(parts), 2).dtype == x.dtype,
        parts.len() > 0 && parts[0].on_cpu(),
{
    let vs = array::views(parts);
    let front = Seq::new(before, |i: int| first);
    let back = Seq::new(after, |i: int| last);
    assert(vs.len() == parts.len());
    assert forall|i: int| 0 <= i < vs.len() implies (#[trigger] vs[i]).rank() == x.rank() && vs[i].dtype == x.dtype
        && vs[i].dims.update(2, 1) == x.dims.update(2, 1) by {
        assert(x.dims.update(2, 1).update(2, 1) =~= x.dims.update(2, 1));
        assert(vs[i] == first || vs[i] == x || vs[i] == last);
    }
    assert forall|i: int| 0 <= i < parts.len() implies (#[trigger] parts[i]).on_cpu() && parts[i]@.dtype
        == parts[0]@.dtype && parts[0]@.dtype.plain() by {
        assert(vs[i].dtype == x.dtype && vs[0].dtype == x.dtype);
    }
    assert forall|i: int, k: int| 0 <= i < vs.len() && 0 <= k < vs[0].rank() && k != 2 implies (
    #[trigger] vs[i].dims[k]) == vs[0].dims[k] by {
        assert(vs[i].dims.update(2, 1)[k] == x.dims.update(2, 1)[k]);
        assert(vs[0].dims.update(2, 1)[k] == x.dims.update(2, 1)[k]);
    }
    model::lemma_cat_dims(vs, 2);
    array::kernels::lemma_cat_dtype(vs, 2);
    lemma_joined_both(front.push(x), back, 2);
    assert(front.push(x).drop_last() =~= front);
    array::kernels::lemma_copies_size(first, before, 2);
    array::kernels::lemma_copies_size(last, after, 2);
    assert(1 * before == before && 1 * after == after);
    assert(vs[0].dims.update(2, 1) == x.dims.update(2, 1));
    let n = x.dims[2] + before + after;
    assert(vs[0].dims.update(2, n) =~= vs[0].dims.update(2, 1).update(2, n));
    assert(x.dims.update(2, 1).update(2, n) =~= x.dims.update(2, n));
}

/// `n` copies of an array.
pub fn copies(x: &Array, n: usize) -> (r: Vec<Array>)
    ensures
        array::views(r@) == Seq::new(n as nat, |i: int| x@),
        r.len() == n,
        forall|i: int| 0 <= i < n ==> (#[trigger] r@[i]).on_cpu() == x.on_cpu(),
{
    let mut all: Vec<Array> = Vec::new();
    let mut i: usize = 0;
    while i < n
        invariant
            i <= n,
            all.len() == i,
            forall|k: int| 0 <= k < i ==> (#[trigger] all[k])@ == x@ && all[k].on_cpu() == x.on_cpu(),
        decreases n - i,
    {
        all.push(x.clone());
        i = i + 1;
    }
    assert(array::views(all@) =~= Seq::new(n as nat, |i: int| x@));
    all
}

/// A convolution over height and width followed by one over time.
pub struct DualConv3d {
    pub weight1: Array,
    pub bias1: Option<Array>,
    pub stride1: (usize, usize),
    pub padding1: (usize, usize),
    pub weight2: Array,
    pub bias2: Option<Array>,
    pub stride2: usize,
    pub padding2: usize,
    pub groups: usize,
}

impl DualConv3d {
    /// Whether this is the convolution that a checkpoint holds.
    pub open spec fn loaded(&self, vb: WeightsView, bias: bool) -> bool {
        &&& self.weight1@ == model::squeeze(vb.get("weight1"@), 2)
        &&& self.weight2@ == model::squeeze(model::squeeze(vb.get("weight2"@), 4), 3)
        &&& bias == self.bias1 is Some
        &&& bias == self.bias2 is Some
        &&& self.bias1 matches Some(b) ==> b@ == vb.get("bias1"@)
        &&& self.bias2 matches Some(b) ==> b@ == vb.get("bias2"@)
    }

    /// Whether a checkpoint holds a convolution of these sizes.
    pub open spec fn present(
        vb: WeightsView,
        in_channels: nat,
        out_channels: nat,
        kernel_size: nat,
        groups: nat,
        bias: bool,
    ) -> bool {
        let middle = if in_channels < out_channels { out_channels } else { in_channels };
        &&& groups > 0
        &&& vb.holds("weight1"@, seq![middle, in_channels / groups, 1, kernel_size, kernel_size])
        &&& vb.holds("weight2"@, seq![out_channels, middle / groups, kernel_size, 1, 1])
        &&& bias ==> vb.holds("bias1"@, seq![middle])
        &&& bias ==> vb.holds("bias2"@, seq![out_channels])
    }

    pub fn new(
        in_channels: usize,
        out_channels: usize,
        kernel_size: usize,
        stride: (usize, usize, usize),
        padding: (usize, usize, usize),
        groups: usize,
        bias: bool,
        vb: &Weights,
    ) -> (r: Result<DualConv3d, Failure>)
        ensures
            r matches Ok(c) ==> c.loaded(vb@, bias) && c.stride1 == (stride.1, stride.2) && c.padding1 == (
                padding.1,
                padding.2,
            ) && c.stride2 == stride.0 && c.padding2 == padding.0 && c.groups == groups,
            r is Ok ==> DualConv3d::present(
                vb@,
                in_channels as nat,
                out_channels as nat,
                kernel_size as nat,
                groups as nat,
                bias,
            ),
            vb@.sound() && DualConv3d::present(
                vb@,
                in_channels as nat,
                out_channels as nat,
                kernel_size as nat,
                groups as nat,
                bias,
            ) ==> r is Ok,
    {
        if groups == 0 {
            return Err(Failure::Shape);
        }
        let middle: usize = if in_channels < out_channels {
            out_channels
        } else {
            in_channels
        };
        let weight1 = vb.get5(middle, in_channels / groups, 1, kernel_size, kernel_size, "weight1")?;
        let weight1 = weight1.squeeze(2)?;
        let bias1 = if bias {
            Some(vb.get1(middle, "bias1")?)
        } else {
            None
        };
        let weight2 = vb.get5(out_channels, middle / groups, kernel_size, 1, 1, "weight2")?;
        let weight2 = weight2.squeeze(4)?.squeeze(3)?;
        let bias2 = if bias {
            Some(vb.get1(out_channels, "bias2")?)
        } else {
            None
        };
        Ok(
            DualConv3d {
                weight1,
                bias1,
                stride1: (stride.1, stride.2),
                padding1: (padding.1, padding.2),
                weight2,
                bias2,
                stride2: stride.0,
                padding2: padding.0,
                groups,
            },
        )
    }

    /// The convolution over height and width, frame by frame.
    pub open spec fn spatial(&self, x: TensorView) -> TensorView {
        model::conv2d(
            model::reshape(
                model::transpose(x, 1, 2),
                seq![x.dims[0] * x.dims[2], x.dims[1], x.dims[3], x.dims[4]],
            ),
            self.weight1@,
            array::opt_view(self.bias1),
            self.padding1.0 as nat,
            self.stride1.0 as nat,
            1,
            self.groups as nat,
        )
    }

    /// What the convolution computes from `x`.
    pub open spec fn apply(&self, x: TensorView) -> TensorView {
        let b = x.dims[0];
        let d = x.dims[2];
        let images = self.spatial(x);
        let (c, h, w) = (images.dims[1], images.dims[2], images.dims[3]);
        let lines = model::reshape(
            model::permute(model::reshape(images, seq![b, d, c, h, w]), seq![0, 3, 4, 2, 1]),
            seq![b * h * w, c, d],
        );
        let y = model::conv1d(
            lines,
            self.weight2@,
            array::opt_view(self.bias2),
            self.padding2 as nat,
            self.stride2 as nat,
            1,
            self.groups as nat,
        );
        model::permute(model::reshape(y, seq![b, h, w, y.dims[1], y.dims[2]]), seq![0, 3, 4, 1, 2])
    }

    /// Height and width behind the first convolution.
    pub open spec fn image_out(&self, d: Seq<nat>) -> (nat, nat) {
        let k = self.weight1@.dims;
        let (p, s) = (self.padding1.0 as nat, self.stride1.0 as nat);
        (model::windows(d[3], k[2], p, s, 1), model::windows(d[4], k[3], p, s, 1))
    }

    /// The shape of what the convolution computes.
    pub open spec fn dims_out(&self, d: Seq<nat>) -> Seq<nat> {
        let k = self.weight2@.dims;
        let (h, w) = self.image_out(d);
        let f = model::windows(d[2], k[2], self.padding2 as nat, self.stride2 as nat, 1);
        seq![d[0], k[0], f, h, w]
    }

    /// Whether the convolution can be computed from an array of this shape, in main memory and in
    /// single precision, and what is computed on the way can be addressed.
    pub open spec fn accepts_shape(&self, d: Seq<nat>) -> bool {
        let (k, l) = (self.weight1@.dims, self.weight2@.dims);
        let (p, s) = (self.padding1.0 as nat, self.stride1.0 as nat);
        let (h, w) = self.image_out(d);
        let g = self.groups as nat;
        &&& d.len() == 5 && k.len() == 4 && l.len() == 3
        &&& model::numel(d) > 0 && model::numel(k) > 0 && model::numel(l) > 0
        &&& self.weight1.on_cpu() && self.weight1@.dtype == Dtype::F32
        &&& self.weight2.on_cpu() && self.weight2@.dtype == Dtype::F32
        &&& self.bias1 matches Some(b) ==> b.on_cpu() && b@.dtype == Dtype::F32 && b@.dims == seq![k[0]]
        &&& self.bias2 matches Some(b) ==> b.on_cpu() && b@.dtype == Dtype::F32 && b@.dims == seq![l[0]]
        &&& g >= 1 && d[1] == k[1] * g && k[0] % g == 0 && k[0] == l[1] * g && l[0] % g == 0
        &&& self.stride1.0 == self.stride1.1 && self.padding1.0 == self.padding1.1
        &&& model::has_window(d[3], k[2], p, s, 1) && model::has_window(d[4], k[3], p, s, 1)
        &&& model::has_window(d[2], l[2], self.padding2 as nat, self.stride2 as nat, 1)
        &&& d[3] + 2 * p <= usize::MAX && d[4] + 2 * p <= usize::MAX && d[2] + 2 * self.padding2 <= usize::MAX
        &&& model::fits(d) && model::fits(seq![d[0], k[0], d[2], h, w]) && model::fits(self.dims_out(d))
    }

    /// The shapes on the way can be addressed and have the elements that they come from.
    proof fn lemma_sizes(&self, d: Seq<nat>)
        requires
            self.accepts_shape(d),
        ensures
            ({
                let (k, l, o) = (self.weight1@.dims, self.weight2@.dims, self.dims_out(d));
                let (h, w) = self.image_out(d);
                let (images, lines) = (d[0] * d[2], d[0] * h * w);
                &&& d =~= seq![d[0], d[1], d[2], d[3], d[4]]
                &&& h > 0 && w > 0 && d[0] > 0 && d[2] > 0
                &&& images <= usize::MAX && d[0] * h <= usize::MAX && lines <= usize::MAX
                &&& model::numel(seq![d[0], d[2], d[1], d[3], d[4]]) == model::numel(seq![images, d[1], d[3], d[4]])
                &&& model::numel(seq![images, d[1], d[3], d[4]]) > 0
                &&& model::fits(seq![d[0], d[2], d[1], d[3], d[4]]) && model::fits(seq![images, d[1], d[3], d[4]])
                &&& model::numel(seq![images, k[0], h, w]) == model::numel(seq![d[0], d[2], k[0], h, w])
                &&& model::fits(seq![images, k[0], h, w]) && model::fits(seq![d[0], d[2], k[0], h, w])
                &&& model::numel(seq![d[0], h, w, k[0], d[2]]) == model::numel(seq![lines, k[0], d[2]])
                &&& model::numel(seq![lines, k[0], d[2]]) > 0
                &&& model::fits(seq![d[0], h, w, k[0], d[2]]) && model::fits(seq![lines, k[0], d[2]])
                &&& model::numel(seq![lines, l[0], o[2]]) == model::numel(seq![d[0], h, w, l[0], o[2]])
                &&& model::fits(seq![lines, l[0], o[2]]) && model::fits(seq![d[0], h, w, l[0], o[2]])
            }),
    {
        let (k, l, o) = (self.weight1@.dims, self.weight2@.dims, self.dims_out(d));
        let (h, w) = self.image_out(d);
        let (b, c, f, y, x) = (d[0], d[1], d[2], d[3], d[4]);
        let (m, n, t) = (k[0], l[0], o[2]);
        let (images, lines) = (b * f, b * h * w);
        assert(d =~= seq![b, c, f, y, x] && k =~= seq![m, k[1], k[2], k[3]] && l =~= seq![n, l[1], l[2]]);
        lemmas::lemma_numel5(b, c, f, y, x);
        lemmas::lemma_numel4(m, k[1], k[2], k[3]);
        lemmas::lemma_numel3(n, l[1], l[2]);
        assert(b > 0 && c > 0 && f > 0 && y > 0 && x > 0) by (nonlinear_arith)
            requires
                b * c * f * y * x > 0,
        ;
        let (k1, k2, k3, l1, l2) = (k[1], k[2], k[3], l[1], l[2]);
        assert(m > 0) by (nonlinear_arith)
            requires
                m * k1 * k2 * k3 > 0,
        ;
        assert(n > 0) by (nonlinear_arith)
            requires
                n * l1 * l2 > 0,
        ;
        let (p, s) = (self.padding1.0 as int, self.stride1.0 as int);
        let (q, r) = (self.padding2 as int, self.stride2 as int);
        assert((y + 2 * p - (k2 - 1) - 1) / s >= 0 && (x + 2 * p - (k3 - 1) - 1) / s >= 0 && (f + 2 * q - (l2 - 1) - 1)
            / r >= 0) by (nonlinear_arith)
            requires
                s >= 1,
                r >= 1,
                k2 <= y + 2 * p,
                k3 <= x + 2 * p,
                l2 <= f + 2 * q,
        ;
        assert(h > 0 && w > 0 && t > 0);
        lemmas::lemma_numel5(b, f, c, y, x);
        lemmas::lemma_numel4(images, c, y, x);
        lemmas::lemma_numel5(b, f, m, h, w);
        lemmas::lemma_numel5(b, m, f, h, w);
        lemmas::lemma_numel4(images, m, h, w);
        lemmas::lemma_numel5(b, h, w, m, f);
        lemmas::lemma_numel3(lines, m, f);
        lemmas::lemma_numel3(lines, n, t);
        lemmas::lemma_numel5(b, h, w, n, t);
        lemmas::lemma_numel5(b, n, t, h, w);
        assert(b * f * c * y * x == b * c * f * y * x && images * c * y * x == b * f * c * y * x) by (nonlinear_arith)
            requires
                images == b * f,
        ;
        assert(b * m * f * h * w == b * f * m * h * w && images * m * h * w == b * f * m * h * w && b * h * w * m * f
            == b * f * m * h * w && lines * m * f == b * h * w * m * f && b * f * m * h * w > 0) by (nonlinear_arith)
            requires
                images == b * f,
                lines == b * h * w,
                b > 0 && f > 0 && m > 0 && h > 0 && w > 0,
        ;
        assert(b * n * t * h * w == b * h * w * n * t && lines * n * t == b * h * w * n * t && b * h * w * n * t > 0)
            by (nonlinear_arith)
            requires
                lines == b * h * w,
                b > 0 && n > 0 && t > 0 && h > 0 && w > 0,
        ;
        assert(images <= b * f * m * h * w && b * h <= b * f * m * h * w && lines <= b * f * m * h * w)
            by (nonlinear_arith)
            requires
                images == b * f,
                lines == b * h * w,
                b > 0 && f > 0 && m > 0 && h > 0 && w > 0,
        ;
        lemmas::lemma_extent_is_numel(seq![b, m, f, h, w]);
        lemmas::lemma_room(seq![b, f, c, y, x], d);
        lemmas::lemma_room(seq![images, c, y, x], d);
        lemmas::lemma_room(seq![images, m, h, w], seq![b, m, f, h, w]);
        lemmas::lemma_room(seq![b, f, m, h, w], seq![b, m, f, h, w]);
        lemmas::lemma_room(seq![b, h, w, m, f], seq![b, m, f, h, w]);
        lemmas::lemma_room(seq![lines, m, f], seq![b, m, f, h, w]);
        lemmas::lemma_room(seq![lines, n, t], o);
        lemmas::lemma_room(seq![b, h, w, n, t], o);
    }

    /// Convolves a `(B, C, D, H, W)` array.
    pub fn forward(&self, x: &Array) -> (r: Result<Array, Failure>)
        ensures
            r matches Ok(t) ==> t@ == self.apply(x@),
            r is Ok ==> x@.rank() == 5,
            x.on_cpu() && x@.dtype == Dtype::F32 && self.accepts_shape(x@.dims) ==> (r matches Ok(t) && t.on_cpu()
                && t@.dtype == Dtype::F32 && t@.dims == self.dims_out(x@.dims)),
    {
        let ghost fine = x.on_cpu() && x@.dtype == Dtype::F32 && self.accepts_shape(x@.dims);
        let ghost (gh, gw) = self.image_out(x@.dims);
        let ghost o = self.dims_out(x@.dims);
        proof {
            if fine {
                self.lemma_sizes(x@.dims);
                lemmas::lemma_permute_dims(x@, model::swapped(5, 1, 2));
            }
            reveal(model::conv2d);
            reveal(model::conv1d);
        }
        let (b, c, d, h, w) = x.dims5()?;
        let count: usize = match b.checked_mul(d) {
            Some(n) => n,
            None => {
                return Err(Failure::Overflow);
            },
        };
        let turned = x.transpose(1, 2)?;
        assert(fine ==> turned@.dims =~= seq![b as nat, d as nat, c as nat, h as nat, w as nat]);
        let x_2d = turned.contiguous()?.reshape4(count, c, h, w)?;
        let x_2d = conv2d_manual(
            &x_2d,
            &self.weight1,
            &self.bias1,
            self.stride1,
            self.padding1,
            self.groups,
        )?;
        let (_n, mid_c, h_out, w_out) = x_2d.dims4()?;
        let x_3d = x_2d.reshape5(b, d, mid_c, h_out, w_out)?;
        let lines: usize = match b.checked_mul(h_out) {
            Some(n) => match n.checked_mul(w_out) {
                Some(m) => m,
                None => {
                    return Err(Failure::Overflow);
                },
            },
            None => {
                return Err(Failure::Overflow);
            },
        };
        proof {
            lemmas::lemma_permute_dims(x_3d@, seq![0, 3, 4, 2, 1]);
        }
        let turned = x_3d.permute5(0, 3, 4, 2, 1)?;
        assert(fine ==> turned@.dims =~= seq![b as nat, gh, gw, mid_c as nat, d as nat]);
        let x_1d = turned.contiguous()?.reshape3(lines, mid_c, d)?;
        let x_1d = conv1d_manual(
            &x_1d,
            &self.weight2,
            &self.bias2,
            self.stride2,
            self.padding2,
            self.groups,
        )?;
        let (_m, out_c, d_out) = x_1d.dims3()?;
        let out = x_1d.reshape5(b, h_out, w_out, out_c, d_out)?;
        proof {
            lemmas::lemma_permute_dims(out@, seq![0, 3, 4, 1, 2]);
            assert(fine ==> model::permute(out@, seq![0, 3, 4, 1, 2]).dims =~= o);
        }
        out.permute5(0, 3, 4, 1, 2)
    }
}

/// Convolves over height and width with the same stride and padding for both.
pub fn conv2d_manual(
    input: &Array,
    weight: &Array,
    bias: &Option<Array>,
    stride: (usize, usize),
    padding: (usize, usize),
    groups: usize,
) -> (r: Result<Array, Failure>)
    ensures
        r matches Ok(t) ==> t@ == model::conv2d(
            input@,
            weight@,
            array::opt_view(*bias),
            padding.0 as nat,
            stride.0 as nat,
            1,
            groups as nat,
        ),
        r is Ok ==> stride.0 == stride.1 && padding.0 == padding.1 && input@.rank() == 4,
        stride.0 != stride.1 || padding.0 != padding.1 ==> r == Err::<Array, Failure>(Failure::NotSquare),
        r matches Err(e) ==> e.basic() || e == Failure::NotSquare,
        r matches Ok(t) ==> t.on_cpu() == input.on_cpu(),
        stride.0 == stride.1 && padding.0 == padding.1 && array::kernels::runs(*input, *weight, *bias)
            && array::kernels::conv2d_defined(
            input@,
            weight@,
            array::opt_view(*bias),
            padding.0 as nat,
            stride.0 as nat,
            1,
            groups as nat,
        ) ==> r is Ok,
{
    if stride.0 != stride.1 {
        return Err(Failure::NotSquare);
    }
    if padding.0 != padding.1 {
        return Err(Failure::NotSquare);
    }
    let input = input.contiguous()?;
    let weight = weight.contiguous()?;
    input.conv2d(&weight, bias, padding.0, stride.0, 1, groups)
}

/// Where position `j` of an axis of `size` elements with `pad` more on both sides
/// comes from, when the axis is mirrored at its first and its last element.
pub open spec fn mirrored(j: int, size: int, pad: int) -> int {
    let s = j - pad;
    if s < 0 {
        -s
    } else if s < size {
        s
    } else {
        2 * (size - 1) - s
    }
}

/// Positions of a mirrored axis.
pub open spec fn mirror_of(size: nat, pad: nat) -> Seq<int> {
    Seq::new(size + 2 * pad, |j: int| mirrored(j, size as int, pad as int))
}

/// The images with `pad_h` mirrored rows above and below and `pad_w` mirrored
/// columns left and right.
pub open spec fn reflect_pad_of(x: TensorView, pad_h: nat, pad_w: nat) -> TensorView {
    let tall = if pad_h > 0 {
        model::index_select(x, mirror_of(x.dims[2], pad_h), 2)
    } else {
        x
    };
    if pad_w > 0 {
        model::index_select(tall, mirror_of(x.dims[3], pad_w), 3)
    } else {
        tall
    }
}

/// Whether images in main memory can be mirrored at their edges.
pub open spec fn mirrors(x: &Array, pad_h: nat, pad_w: nat) -> bool {
    let d = x@.dims;
    &&& x.usable() && x@.rank() == 4
    &&& pad_h > 0 ==> pad_h < d[2] && d[2] <= u32::MAX
    &&& pad_w > 0 ==> pad_w < d[3] && d[3] <= u32::MAX
    &&& model::fits(seq![d[0], d[1], d[2] + 2 * pad_h, d[3] + 2 * pad_w])
}

/// A shape can be addressed where one with a longer last axis can.
proof fn lemma_narrower(dims: Seq<nat>, width: nat)
    requires
        dims.len() > 0,
        dims.last() <= width,
        model::fits(dims.update(dims.len() - 1, width)),
    ensures
        model::fits(dims),
{
    let wide = dims.update(dims.len() - 1, width);
    assert(wide.drop_last() =~= dims.drop_last());
    let e = model::extent(dims.drop_last());
    let (a, b): (nat, nat) = (
        if dims.last() == 0 { 1 } else { dims.last() },
        if width == 0 { 1 } else { width },
    );
    assert(e * a <= e * b) by (nonlinear_arith)
        requires
            a <= b,
    ;
}

/// Mirrors the rows and columns of images at their edges.
pub fn reflect_pad_2d(input: &Array, pad_h: usize, pad_w: usize) -> (r: Result<Array, Failure>)
    ensures
        r matches Ok(t) ==> t@ == reflect_pad_of(input@, pad_h as nat, pad_w as nat),
        pad_h == 0 && pad_w == 0 ==> r is Ok,
        r is Ok && (pad_h > 0 || pad_w > 0) ==> input@.rank() == 4,
        r is Ok && pad_h > 0 ==> pad_h < input@.dims[2],
        r is Ok && pad_w > 0 ==> pad_w < input@.dims[3],
        input@.rank() == 4 && pad_h > 0 && pad_h >= input@.dims[2] ==> r == Err::<Array, Failure>(
            Failure::ReflectPadding { pad: pad_h, size: input@.dims[2] as usize },
        ),
        r matches Err(e) ==> e.basic() || e is ReflectPadding,
        r matches Ok(t) ==> t.on_cpu() == input.on_cpu() && t@.dtype == input@.dtype,
        mirrors(input, pad_h as nat, pad_w as nat) ==> (r matches Ok(t) && t@.dims == seq![
            input@.dims[0],
            input@.dims[1],
            input@.dims[2] + 2 * pad_h as nat,
            input@.dims[3] + 2 * pad_w as nat,
        ]),
{
    proof {
        if mirrors(input, pad_h as nat, pad_w as nat) {
            let d = input@.dims;
            let tall = d.update(2, d[2] + 2 * pad_h as nat);
            assert(tall =~= seq![d[0], d[1], d[2] + 2 * pad_h as nat, d[3]]);
            assert(tall.update(3, d[3] + 2 * pad_w as nat) =~= seq![
                d[0],
                d[1],
                d[2] + 2 * pad_h as nat,
                d[3] + 2 * pad_w as nat,
            ]);
            assert(d =~= seq![d[0], d[1], d[2], d[3]]);
            lemma_narrower(tall, d[3] + 2 * pad_w as nat);
        }
    }
    if pad_h == 0 && pad_w == 0 {
        return Ok(input.clone());
    }
    let (_b, _c, h, w) = input.dims4()?;
    let tall = if pad_h > 0 {
        if pad_h >= h {
            return Err(Failure::ReflectPadding { pad: pad_h, size: h });
        }
        mirror_axis(input, 2, h, pad_h)?
    } else {
        input.clone()
    };
    if pad_w > 0 {
        if pad_w >= w {
            return Err(Failure::ReflectPadding { pad: pad_w, size: w });
        }
        mirror_axis(&tall, 3, w, pad_w)
    } else {
        Ok(tall)
    }
}

/// Mirrors axis `dim`, which has `size` elements.
fn mirror_axis(x: &Array, dim: usize, size: usize, pad: usize) -> (r: Result<Array, Failure>)
    requires
        0 < pad < size,
    ensures
        r matches Ok(t) ==> t@ == model::index_select(x@, mirror_of(size as nat, pad as nat), dim as int),
        r matches Err(e) ==> e.basic(),
        r matches Ok(t) ==> t.on_cpu() == x.on_cpu() && t@.dtype == x@.dtype && t@.dims == x@.dims.update(
            dim as int,
            (size + 2 * pad) as nat,
        ),
        x.usable() && dim < x@.rank() && x@.dims[dim as int] == size && size <= u32::MAX && model::fits(
            x@.dims.update(dim as int, (size + 2 * pad) as nat),
        ) ==> r is Ok,
{
    proof {
        reveal(model::index_select);
        let dims = x@.dims.update(dim as int, (size + 2 * pad) as nat);
        if dim < x@.rank() && model::fits(dims) {
            array::lemma_axis_extent(dims, dim as int);
            lemmas::lemma_extent1((size + 2 * pad) as nat);
        }
    }
    if size as u64 > u32::MAX as u64 {
        return Err(Failure::Overflow);
    }
    let indices = reflect_indices(size, pad);
    let mut ids: Vec<i64> = Vec::new();
    let mut i: usize = 0;
    while i < indices.len()
        invariant
            i <= indices.len(),
            ids.len() == i,
            forall|k: int| 0 <= k < i ==> #[trigger] ids[k] == indices[k],
        decreases indices.len() - i,
    {
        ids.push(indices[i] as i64);
        i = i + 1;
    }
    assert(array::positions(ids@) =~= mirror_of(size as nat, pad as nat));
    x.index_select(ids, dim)
}

/// The positions of an axis of `size` elements that is mirrored at both ends.
pub fn reflect_indices(size: usize, pad: usize) -> (r: Vec<u32>)
    requires
        pad < size,
        2 <= size <= u32::MAX,
    ensures
        r.len() == size + 2 * pad,
        forall|j: int|
            0 <= j < r.len() ==> #[trigger] r[j] == mirrored(j, size as int, pad as int),
{
    let mut indices: Vec<u32> = Vec::new();
    let mut i: usize = pad;
    while i > 0
        invariant
            i <= pad < size <= u32::MAX,
            indices.len() == pad - i,
            forall|j: int|
                0 <= j < indices.len() ==> #[trigger] indices[j] == mirrored(j, size as int, pad as int),
        decreases i,
    {
        indices.push(i as u32);
        i = i - 1;
    }
    let mut i: usize = 0;
    while i < size
        invariant
            i <= size <= u32::MAX,
            pad < size,
            indices.len() == pad + i,
            forall|j: int|
                0 <= j < indices.len() ==> #[trigger] indices[j] == mirrored(j, size as int, pad as int),
        decreases size - i,
    {
        indices.push(i as u32);
        i = i + 1;
    }
    let mut i: usize = 0;
    while i < pad
        invariant
            i <= pad < size <= u32::MAX,
            size >= 2,
            indices.len() == pad + size + i,
            forall|j: int|
                0 <= j < indices.len() ==> #[trigger] indices[j] == mirrored(j, size as int, pad as int),
        decreases pad - i,
    {
        indices.push((size - 2 - i) as u32);
        i = i + 1;
    }
    indices
}

/// A mirrored axis reads the same `k` steps before its first element as `k` steps
/// after it, and the same about its last element.
pub proof fn law_mirrored_symmetric(size: int, pad: int, k: int)
    requires
        0 <= k <= pad < size,
    ensures
        mirrored(pad - k, size, pad) == mirrored(pad + k, size, pad),
        mirrored(pad + size - 1 - k, size, pad) == mirrored(pad + size - 1 + k, size, pad),
{
}

/// Convolves over the last axis.
pub fn conv1d_manual(
    input: &Array,
    weight: &Array,
    bias: &Option<Array>,
    stride: usize,
    padding: usize,
    groups: usize,
) -> (r: Result<Array, Failure>)
    ensures
        r matches Ok(t) ==> t@ == model::conv1d(
            input@,
            weight@,
            array::opt_view(*bias),
            padding as nat,
            stride as nat,
            1,
            groups as nat,
        ),
        r is Ok ==> input@.rank() == 3,
        r matches Err(e) ==> e.basic(),
        r matches Ok(t) ==> t.on_cpu() == input.on_cpu(),
        array::kernels::runs(*input, *weight, *bias) && array::kernels::conv1d_defined(
            input@,
            weight@,
            array::opt_view(*bias),
            padding as nat,
            stride as nat,
            1,
            groups as nat,
        ) ==> r is Ok,
{
    let input = input.contiguous()?;
    let weight = weight.contiguous()?;
    input.conv1d(&weight, bias, padding, stride, 1, groups)
}

} // verus!
