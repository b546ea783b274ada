//! Resampling by filters, and activations that are carried out at a higher rate.
use vstd::prelude::*;

use crate::array::{self, Array};
use crate::audio_vae::filters::{self, HANN_WIDTH};
use crate::error::Failure;
use crate::lemmas;
use crate::model::{self, BinOp, Dtype, TensorView, UnOp};
use crate::nn::conv3d::{self, copies};
use crate::reals::{self, Functions};
use crate::scalar::{Scalar, ONE, ZERO};
use crate::weights::{Weights, WeightsView};

verus! {

/// 1e-9
pub const SNAKE_EPS: Scalar = 0x3E11_2E0B_E826_D695;

/// `x` with its first element repeated `left` times in front of it and its last one `right`
/// times behind it.
pub open spec fn replicated(x: TensorView, left: nat, right: nat) -> TensorView {
    if left == 0 && right == 0 {
        x
    } else {
        let first = model::narrow(x, 2, 0, 1);
        let last = model::narrow(x, 2, (x.dims[2] - 1) as nat, 1);
        model::cat(Seq::new(left, |i: int| first).push(x) + Seq::new(right, |i: int| last), 2)
    }
}

/// Repeats the first and the last element along axis two.
pub fn replicate_pad1d(x: &Array, left: usize, right: usize) -> (r: Result<Array, Failure>)
    ensures
        r matches Ok(t) ==> t@ == replicated(x@, left as nat, right as nat),
        left == 0 && right == 0 ==> r is Ok,
        r is Ok && (left > 0 || right > 0) ==> x@.rank() > 2 && x@.dims[2] > 0,
        x.usable() && x@.rank() > 2 && x@.dims[2] > 0 && model::fits(
            x@.dims.update(2, (x@.dims[2] + left + right) as nat),
        ) ==> (r matches Ok(t) && t.on_cpu() && t@.dtype == x@.dtype && t@.dims == x@.dims.update(
            2,
            (x@.dims[2] + left + right) as nat,
        )),
{
    proof {
        lemmas::lemma_narrow_dims(x@, 2, 0, 1);
        lemmas::lemma_narrow_dims(x@, 2, (x@.dims[2] - 1) as nat, 1);
        if left == 0 && right == 0 && x@.rank() > 2 {
            assert(x@.dims.update(2, x@.dims[2]) =~= x@.dims);
        }
    }
    if left == 0 && right == 0 {
        return Ok(x.clone());
    }
    let t: usize = x.dim(2)?;
    let first = x.narrow(2, 0, 1)?;
    let last = x.narrow(2, t - 1, 1)?;
    let mut parts = copies(&first, left);
    parts.push(x.clone());
    let mut behind = copies(&last, right);
    parts.append(&mut behind);
    assert(array::views(parts@) =~= Seq::new(left as nat, |i: int| first@).push(x@) + Seq::new(
        right as nat,
        |i: int| last@,
    ));
    proof {
        if x.usable() && x@.rank() > 2 && x@.dims[2] > 0 {
            conv3d::lemma_extended(parts@, first@, x@, last@, left as nat, right as nat);
        }
    }
    Array::cat(&parts, 2)
}

/// Whether this is a filter of `n` taps, in main memory and in single precision.
pub open spec fn is_filter(filter: &Array, n: nat) -> bool {
    filter.on_cpu() && filter@.dtype == Dtype::F32 && filter@.dims == seq![1, 1, n] && n > 0
}

/// Whether sound of this shape can be filtered.
pub open spec fn filters_shape(d: Seq<nat>, n: nat, stride: nat) -> bool {
    &&& d.len() == 3 && model::numel(d) > 0 && model::fits(d) && d[2] <= usize::MAX
    &&& model::has_window(d[2], n, 0, stride, 1)
    &&& model::windows(d[2], n, 0, stride, 1) > 0
    &&& model::fits(seq![d[0], d[1], model::windows(d[2], n, 0, stride, 1)])
}

/// Whether sound of this shape can be spread by a filter.
pub open spec fn spreads_shape(d: Seq<nat>, n: nat, stride: nat) -> bool {
    &&& d.len() == 3 && model::numel(d) > 0 && model::fits(d)
    &&& n > 0 && stride >= 1 && 0 <= (d[2] - 1) * stride <= usize::MAX
    &&& model::fits(seq![d[0], d[1], model::spread(d[2], n, 0, stride) as nat])
}

/// Folding the channels into the samples of a batch keeps the number of elements.
proof fn lemma_folded(d: Seq<nat>, out: nat)
    requires
        d.len() == 3,
        model::numel(d) > 0,
        model::fits(d),
        out > 0,
        model::fits(seq![d[0], d[1], out]),
    ensures
        d[2] > 0 && d[0] * d[1] <= usize::MAX,
        model::numel(seq![d[0] * d[1], 1, d[2]]) == model::numel(d),
        model::fits(seq![d[0] * d[1], 1, d[2]]),
        model::numel(seq![d[0] * d[1], 1, out]) == model::numel(seq![d[0], d[1], out]),
        model::fits(seq![d[0] * d[1], 1, out]),
{
    let bc = d[0] * d[1];
    assert(d =~= seq![d[0], d[1], d[2]]);
    lemmas::lemma_numel3(d[0], d[1], d[2]);
    lemmas::lemma_numel3(bc, 1, d[2]);
    lemmas::lemma_numel3(d[0], d[1], out);
    lemmas::lemma_numel3(bc, 1, out);
    lemmas::lemma_factors(d[0], d[1], d[2]);
    lemmas::lemma_extent_is_numel(d);
    lemmas::lemma_room(seq![bc, 1, d[2]], d);
    assert(bc * out > 0) by (nonlinear_arith)
        requires
            bc > 0,
            out > 0,
    ;
    assert(bc * 1 == bc);
    lemmas::lemma_room(seq![bc, 1, out], seq![d[0], d[1], out]);
}

/// The same filter on each channel.
pub open spec fn depthwise_of(x: TensorView, filter: TensorView, stride: nat) -> TensorView {
    let (b, c, t) = (x.dims[0], x.dims[1], x.dims[2]);
    let y = model::conv1d(model::reshape(x, seq![b * c, 1, t]), filter, None, 0, stride, 1, 1);
    model::reshape(y, seq![b, c, y.dims[2]])
}

/// The same filter on each channel.
pub fn depthwise_conv1d(x: &Array, filter: &Array, stride: usize) -> (r: Result<Array, Failure>)
    ensures
        r matches Ok(t) ==> t@ == depthwise_of(x@, filter@, stride as nat),
        r is Ok ==> x@.rank() == 3,
        x.on_cpu() && x@.dtype == Dtype::F32 && is_filter(filter, filter@.dims[2]) && filters_shape(
            x@.dims,
            filter@.dims[2],
            stride as nat,
        ) ==> (r matches Ok(t) && t.on_cpu() && t@.dtype == Dtype::F32 && t@.dims == seq![
            x@.dims[0],
            x@.dims[1],
            model::windows(x@.dims[2], filter@.dims[2], 0, stride as nat, 1),
        ]),
{
    let ghost fine = x.on_cpu() && x@.dtype == Dtype::F32 && is_filter(filter, filter@.dims[2]) && filters_shape(
        x@.dims,
        filter@.dims[2],
        stride as nat,
    );
    proof {
        reveal(model::conv1d);
        if fine {
            let out = model::windows(x@.dims[2], filter@.dims[2], 0, stride as nat, 1);
            lemma_folded(x@.dims, out);
            lemmas::lemma_numel3(1, 1, filter@.dims[2]);
            let taps = filter@.dims[2];
            assert(1 * 1 * taps == taps) by (nonlinear_arith);
            assert(filter@.dims =~= seq![1, 1, taps]);
        }
    }
    let (b, c, t) = x.dims3()?;
    let count: usize = match b.checked_mul(c) {
        Some(n) => n,
        None => {
            return Err(Failure::Overflow);
        },
    };
    let folded = x.reshape3(count, 1, t)?.contiguous()?;
    proof {
        if fine {
            let out = model::windows(x@.dims[2], filter@.dims[2], 0, stride as nat, 1);
            assert(model::conv1d(folded@, filter@, None, 0, stride as nat, 1, 1).dims =~= seq![
                x@.dims[0] * x@.dims[1],
                1,
                out,
            ]);
        }
    }
    let y = folded.conv1d(filter, &None, 0, stride, 1, 1)?;
    let out_t: usize = y.dim(2)?;
    y.reshape3(b, c, out_t)
}

/// The same transposed filter on each channel.
pub open spec fn depthwise_transposed_of(x: TensorView, filter: TensorView, stride: nat) -> TensorView {
    let (b, c, t) = (x.dims[0], x.dims[1], x.dims[2]);
    let y = model::conv_transpose1d(model::reshape(x, seq![b * c, 1, t]), filter, None, 0, stride);
    model::reshape(y, seq![b, c, y.dims[2]])
}

/// The same transposed filter on each channel.
pub fn depthwise_conv_transpose1d(x: &Array, filter: &Array, stride: usize) -> (r: Result<Array, Failure>)
    ensures
        r matches Ok(t) ==> t@ == depthwise_transposed_of(x@, filter@, stride as nat),
        r matches Ok(t) ==> t@.rank() == 3,
        r is Ok ==> x@.rank() == 3,
        x.on_cpu() && x@.dtype == Dtype::F32 && is_filter(filter, filter@.dims[2]) && spreads_shape(
            x@.dims,
            filter@.dims[2],
            stride as nat,
        ) ==> (r matches Ok(t) && t.on_cpu() && t@.dtype == Dtype::F32 && t@.dims == seq![
            x@.dims[0],
            x@.dims[1],
            model::spread(x@.dims[2], filter@.dims[2], 0, stride as nat) as nat,
        ]),
{
    let ghost fine = x.on_cpu() && x@.dtype == Dtype::F32 && is_filter(filter, filter@.dims[2]) && spreads_shape(
        x@.dims,
        filter@.dims[2],
        stride as nat,
    );
    proof {
        reveal(model::conv_transpose1d);
        if fine {
            let out = model::spread(x@.dims[2], filter@.dims[2], 0, stride as nat) as nat;
            lemma_folded(x@.dims, out);
            lemmas::lemma_numel3(1, 1, filter@.dims[2]);
            let taps = filter@.dims[2];
            assert(1 * 1 * taps == taps) by (nonlinear_arith);
            assert(filter@.dims =~= seq![1, 1, taps]);
        }
    }
    let (b, c, t) = x.dims3()?;
    let count: usize = match b.checked_mul(c) {
        Some(n) => n,
        None => {
            return Err(Failure::Overflow);
        },
    };
    let folded = x.reshape3(count, 1, t)?.contiguous()?;
    proof {
        if fine {
            let out = model::spread(x@.dims[2], filter@.dims[2], 0, stride as nat) as nat;
            assert(seq![folded@.dims[0], filter@.dims[1], out] =~= seq![x@.dims[0] * x@.dims[1], 1, out]);
        }
    }
    let y = folded.conv_transpose1d(filter, &None, 0, stride)?;
    let out_t: usize = y.dim(2)?;
    y.reshape3(b, c, out_t)
}

/// Whether this can be the filter of a layer: that of the checkpoint, else a Kaiser-windowed sinc
/// filter.
pub open spec fn is_low_pass(ratio: nat, kernel_size: nat, vb: WeightsView, filter: TensorView) -> bool {
    if vb.has("filter"@) {
        filter == vb.get("filter"@)
    } else {
        filters::is_half_band(ratio, kernel_size, filter)
    }
}

/// Whether a checkpoint holds a filter of so many taps, where it holds one.
pub open spec fn filter_present(kernel_size: nat, vb: WeightsView) -> bool {
    vb.has("filter"@) ==> vb.holds("filter"@, seq![1, 1, kernel_size])
}

/// Loads the filter of a layer.
fn load_filter(ratio: usize, kernel_size: usize, vb: &Weights) -> (r: Result<Array, Failure>)
    ensures
        r matches Ok(f) ==> is_low_pass(ratio as nat, kernel_size as nat, vb@, f@),
        r is Ok ==> filter_present(kernel_size as nat, vb@),
        vb@.sound() && filter_present(kernel_size as nat, vb@) && 0 < kernel_size
            && model::fits(seq![kernel_size as nat]) ==> r is Ok,
{
    if vb.contains_tensor("filter") {
        vb.get3(1, 1, kernel_size, "filter")
    } else {
        filters::half_band(ratio, kernel_size)
    }
}

/// Raises the sampling rate by a whole factor.
pub struct UpSample1d {
    pub ratio: usize,
    pub pad: usize,
    pub pad_left: usize,
    pub pad_right: usize,
    pub filter: Array,
}

impl UpSample1d {
    /// The layer with a filter of `kernel_size` taps.
    pub open spec fn sized(&self, ratio: nat, kernel_size: nat) -> bool {
        let pad = (kernel_size / ratio - 1) as nat;
        let over = (kernel_size - ratio) as nat;
        &&& self.ratio == ratio
        &&& self.pad == pad
        &&& self.pad_left == pad * ratio + over / 2
        &&& self.pad_right == pad * ratio + (over + 1) / 2
    }

    /// A layer with this filter of `kernel_size` taps.
    fn with_filter(ratio: usize, kernel_size: usize, filter: Array) -> (r: UpSample1d)
        requires
            0 < ratio <= kernel_size,
            2 * kernel_size <= usize::MAX,
        ensures
            r.sized(ratio as nat, kernel_size as nat),
            r.filter@ == filter@,
    {
        let whole: usize = kernel_size / ratio;
        assert(whole >= 1 && whole * ratio <= kernel_size) by (nonlinear_arith)
            requires
                0 < ratio <= kernel_size,
                whole == kernel_size as int / ratio as int,
        ;
        let pad: usize = whole - 1;
        assert(pad * ratio == whole * ratio - ratio) by (nonlinear_arith)
            requires
                pad == whole - 1,
        ;
        let over: usize = kernel_size - ratio;
        UpSample1d {
            ratio,
            pad,
            pad_left: pad * ratio + over / 2,
            pad_right: pad * ratio + (over / 2 + over % 2),
            filter,
        }
    }

    /// A layer with a Kaiser-windowed sinc filter of `kernel_size` taps.
    pub fn new(ratio: usize, kernel_size: usize) -> (r: Result<UpSample1d, Failure>)
        requires
            0 < ratio <= kernel_size,
            2 * kernel_size <= usize::MAX,
        ensures
            r matches Ok(u) ==> u.sized(ratio as nat, kernel_size as nat) && filters::is_half_band(
                ratio as nat,
                kernel_size as nat,
                u.filter@,
            ),
            model::fits(seq![kernel_size as nat]) ==> r is Ok,
    {
        Ok(UpSample1d::with_filter(ratio, kernel_size, filters::half_band(ratio, kernel_size)?))
    }

    /// A layer with the filter of a checkpoint, else a Kaiser-windowed sinc filter.
    pub fn new_checkpointed(ratio: usize, kernel_size: usize, vb: &Weights) -> (r: Result<UpSample1d, Failure>)
        requires
            0 < ratio <= kernel_size,
            2 * kernel_size <= usize::MAX,
        ensures
            r matches Ok(u) ==> u.sized(ratio as nat, kernel_size as nat) && is_low_pass(
                ratio as nat,
                kernel_size as nat,
                vb@,
                u.filter@,
            ),
            r is Ok ==> filter_present(kernel_size as nat, vb@),
            vb@.sound() && filter_present(kernel_size as nat, vb@) && model::fits(
                seq![kernel_size as nat],
            ) ==> r is Ok,
    {
        let filter = load_filter(ratio, kernel_size, vb)?;
        Ok(UpSample1d::with_filter(ratio, kernel_size, filter))
    }

    /// The layer with a Hann-windowed sinc filter.
    pub open spec fn is_hann(&self, ratio: nat) -> bool {
        &&& self.ratio == ratio
        &&& self.pad == HANN_WIDTH
        &&& self.pad_left == 14 * ratio
        &&& self.pad_right == filters::hann_size(ratio) - ratio
        &&& filters::is_hann(ratio, self.filter@)
    }

    /// A layer with a Hann-windowed sinc filter.
    pub fn new_hann(ratio: usize) -> (r: Result<UpSample1d, Failure>)
        ensures
            r matches Ok(u) ==> u.is_hann(ratio as nat),
            model::fits(seq![filters::hann_size(ratio as nat)]) ==> r is Ok,
    {
        let filter = filters::hann_filter(ratio)?;
        Ok(
            UpSample1d {
                ratio,
                pad: HANN_WIDTH,
                pad_left: 14 * ratio,
                pad_right: 14 * ratio + 1 - ratio,
                filter,
            },
        )
    }

    /// The shape of the sound with its first and its last sample repeated.
    pub open spec fn padded_dims(&self, d: Seq<nat>) -> Seq<nat> {
        seq![d[0], d[1], d[2] + 2 * self.pad as nat]
    }

    /// The shape of what the layer computes.
    pub open spec fn dims_out(&self, d: Seq<nat>) -> Seq<nat> {
        let n = model::spread(self.padded_dims(d)[2], self.filter@.dims[2], 0, self.ratio as nat);
        seq![d[0], d[1], (n - self.pad_left - self.pad_right) as nat]
    }

    /// Whether the layer can be computed from sound of this shape, in main memory and in single
    /// precision.
    pub open spec fn accepts_shape(&self, d: Seq<nat>) -> bool {
        let (p, taps) = (self.padded_dims(d), self.filter@.dims[2]);
        &&& d.len() == 3 && model::numel(d) > 0
        &&& self.filter.usable() && self.filter@.dims == seq![1, 1, taps] && taps > 0
        &&& spreads_shape(p, taps, self.ratio as nat)
        &&& self.pad_left + self.pad_right <= model::spread(p[2], taps, 0, self.ratio as nat)
    }

    /// The filtered samples with what stands too much in front and behind.
    pub open spec fn stretched(&self, x: TensorView) -> TensorView {
        let padded = replicated(x, self.pad as nat, self.pad as nat);
        model::affine(
            depthwise_transposed_of(
                padded,
                model::cast(self.filter@, padded.dtype),
                self.ratio as nat,
            ),
            model::count(self.ratio as nat),
            model::number(ZERO),
        )
    }

    /// What the layer computes from `x`.
    #[verifier::opaque]
    pub open spec fn apply(&self, x: TensorView) -> TensorView {
        let y = self.stretched(x);
        model::narrow(
            y,
            2,
            self.pad_left as nat,
            (y.dims[2] - self.pad_left - self.pad_right) as nat,
        )
    }

    pub fn forward(&self, x: &Array) -> (r: Result<Array, Failure>)
        ensures
            r matches Ok(t) ==> t@ == self.apply(x@),
            x.on_cpu() && x@.dtype == Dtype::F32 && self.accepts_shape(x@.dims) ==> (r matches Ok(t) && t.on_cpu()
                && t@.dtype == Dtype::F32 && t@.dims == self.dims_out(x@.dims)),
    {
        let ghost d = x@.dims;
        let ghost fine = x.on_cpu() && x@.dtype == Dtype::F32 && self.accepts_shape(d);
        proof {
            reveal(UpSample1d::apply);
            if fine {
                assert(d.update(2, (d[2] + self.pad + self.pad) as nat) =~= self.padded_dims(d));
                lemmas::lemma_axis_positive(d, 2);
            }
        }
        let x = replicate_pad1d(x, self.pad, self.pad)?;
        let filter = self.filter.to_dtype(x.dtype())?.to_device(&x.device())?;
        let x = depthwise_conv_transpose1d(&x, &filter, self.ratio)?;
        let x = x.scale_by(&Array::count(self.ratio)?)?;
        let n: usize = x.dim(2)?;
        if n < self.pad_left || n - self.pad_left < self.pad_right {
            return Err(Failure::Shape);
        }
        proof {
            lemmas::lemma_narrow_dims(x@, 2, self.pad_left as nat, (n - self.pad_left - self.pad_right) as nat);
            if fine {
                assert(x@.dims.update(2, (n - self.pad_left - self.pad_right) as nat) =~= self.dims_out(d));
            }
        }
        x.narrow(2, self.pad_left, n - self.pad_left - self.pad_right)
    }
}

/// The layer is linear: `c` times as loud a sound becomes `c` times as loud, and silence stays
/// silence.
pub proof fn law_resampling_is_linear(u: UpSample1d, x: TensorView, y: TensorView, c: real, f: Functions)
    requires
        reals::multiple(x, y, c, f),
        u.accepts_shape(x.dims),
        u.filter@.wf(),
    ensures
        reals::multiple(u.apply(x), u.apply(y), c, f),
        u.apply(x).dims == u.dims_out(x.dims),
{
    broadcast use reals::group_reading;
    reveal(UpSample1d::apply);
    reals::lemma_constants();
    let d = x.dims;
    let pad = u.pad as nat;
    let (px, py) = (replicated(x, pad, pad), replicated(y, pad, pad));
    lemmas::lemma_axis_positive(d, 2);
    lemmas::lemma_narrow_dims(x, 2, 0, 1);
    lemmas::lemma_narrow_dims(x, 2, (d[2] - 1) as nat, 1);
    if pad > 0 {
        let (fx, lx) = (model::narrow(x, 2, 0, 1), model::narrow(x, 2, (d[2] - 1) as nat, 1));
        let (fy, ly) = (model::narrow(y, 2, 0, 1), model::narrow(y, 2, (d[2] - 1) as nat, 1));
        reals::lemma_multiple_narrow(x, y, c, 2, 0, 1, f);
        reals::lemma_multiple_narrow(x, y, c, 2, (d[2] - 1) as nat, 1, f);
        let ps = Seq::new(pad, |i: int| fx).push(x) + Seq::new(pad, |i: int| lx);
        let qs = Seq::new(pad, |i: int| fy).push(y) + Seq::new(pad, |i: int| ly);
        assert forall|i: int| 0 <= i < ps.len() implies reals::multiple(#[trigger] ps[i], qs[i], c, f) && ps[i].dims
            == ps[0].dims.update(2, ps[i].dims[2]) by {
            assert(d.update(2, 1).update(2, d[2]) =~= d);
            assert(d.update(2, 1).update(2, 1) =~= d.update(2, 1));
        }
        reals::lemma_multiple_cat(ps, qs, 2, c, f);
        assert(model::joinable(ps, 2)) by {
            assert forall|i: int, k: int| 0 <= i < ps.len() && 0 <= k < ps[0].rank() && k != 2 implies (
            #[trigger] ps[i].dims[k]) == ps[0].dims[k] by {
                assert(ps[i].dims == ps[0].dims.update(2, ps[i].dims[2]));
            }
        }
        model::lemma_cat_dims(ps, 2);
        lemma_padded_size(fx, x, lx, pad);
    }
    assert(px.dims =~= u.padded_dims(d));
    let (b, ch, t) = (px.dims[0], px.dims[1], px.dims[2]);
    lemmas::lemma_numel3(b, ch, t);
    lemmas::lemma_numel3(b * ch, 1, t);
    assert(b * ch * 1 * t == b * ch * t);
    let (rx, ry) = (model::reshape(px, seq![b * ch, 1, t]), model::reshape(py, seq![b * ch, 1, t]));
    assert(reals::multiple(rx, ry, c, f)) by {
        assert forall|j: int| 0 <= j < rx.cells.len() implies reals::value(#[trigger] ry.cells[j], f) == c * reals::value(
            rx.cells[j],
            f,
        ) by {
            assert(reals::value(py.cells[j], f) == c * reals::value(px.cells[j], f));
        }
    }
    let k = model::cast(u.filter@, px.dtype);
    reals::lemma_multiple_conv_transpose1d(rx, ry, k, 0, u.ratio as nat, c, f);
    reveal(model::conv_transpose1d);
    let (sx, sy) = (u.stretched(x), u.stretched(y));
    let n = model::spread(t, k.dims[2], 0, u.ratio as nat) as nat;
    let (tx, ty) = (
        model::conv_transpose1d(rx, k, None, 0, u.ratio as nat),
        model::conv_transpose1d(ry, k, None, 0, u.ratio as nat),
    );
    assert(tx.dims =~= seq![b * ch, 1, n]);
    lemmas::lemma_numel3(b, ch, n);
    lemmas::lemma_numel3(b * ch, 1, n);
    assert(b * ch * 1 * n == b * ch * n);
    assert(sx.dims =~= seq![b, ch, n]);
    assert(reals::multiple(sx, sy, c, f)) by {
        assert forall|j: int| 0 <= j < sx.cells.len() implies reals::value(#[trigger] sy.cells[j], f) == c * reals::value(
            sx.cells[j],
            f,
        ) by {
            assert(reals::value(ty.cells[j], f) == c * reals::value(tx.cells[j], f));
            let (v, r) = (reals::value(tx.cells[j], f), u.ratio as int as real);
            assert((c * v) * r == c * (v * r)) by (nonlinear_arith);
        }
    }
    let size = (n - u.pad_left - u.pad_right) as nat;
    reals::lemma_multiple_narrow(sx, sy, c, 2, u.pad_left as nat, size, f);
    lemmas::lemma_narrow_dims(sx, 2, u.pad_left as nat, size);
    assert(sx.dims.update(2, size) =~= u.dims_out(d));
}

/// The size of a sound with its ends repeated.
proof fn lemma_padded_size(first: TensorView, x: TensorView, last: TensorView, pad: nat)
    requires
        first.dims[2] == 1 && last.dims[2] == 1,
    ensures
        model::joined_size(Seq::new(pad, |i: int| first).push(x) + Seq::new(pad, |i: int| last), 2) == x.dims[2] + 2 * pad,
{
    lemma_repeated_size(Seq::empty(), first, pad);
    let front = Seq::new(pad, |i: int| first);
    assert(Seq::empty() + front =~= front);
    assert(front.push(x).drop_last() =~= front);
    assert(model::joined_size(Seq::<TensorView>::empty(), 2) == 0);
    lemma_repeated_size(front.push(x), last, pad);
}

proof fn lemma_repeated_size(front: Seq<TensorView>, v: TensorView, n: nat)
    requires
        v.dims[2] == 1,
    ensures
        model::joined_size(front + Seq::new(n, |i: int| v), 2) == model::joined_size(front, 2) + n,
    decreases n,
{
    let all = front + Seq::new(n, |i: int| v);
    if n == 0 {
        assert(all =~= front);
    } else {
        lemma_repeated_size(front, v, (n - 1) as nat);
        assert(all.drop_last() =~= front + Seq::new((n - 1) as nat, |i: int| v));
        assert(all.last() == v);
    }
}

/// Filters and keeps every `stride`-th sample.
pub struct LowPassFilter1d {
    pub pad_left: usize,
    pub pad_right: usize,
    pub stride: usize,
    pub filter: Array,
}

impl LowPassFilter1d {
    /// Whether this is the filter of `kernel_size` taps of a checkpoint, else a
    /// Kaiser-windowed sinc filter for this ratio.
    pub open spec fn loaded(&self, ratio: nat, kernel_size: nat, vb: WeightsView) -> bool {
        &&& self.pad_left == kernel_size / 2 - (if kernel_size % 2 == 0 {
            1int
        } else {
            0int
        })
        &&& self.pad_right == kernel_size / 2
        &&& self.stride == ratio
        &&& is_low_pass(ratio, kernel_size, vb, self.filter@)
    }

    /// The filter for a sampling rate that is lowered by a factor.
    pub fn new_checkpointed(ratio: usize, kernel_size: usize, vb: &Weights) -> (r: Result<LowPassFilter1d, Failure>)
        requires
            kernel_size > 0,
        ensures
            r matches Ok(f) ==> f.loaded(ratio as nat, kernel_size as nat, vb@),
            r is Ok ==> filter_present(kernel_size as nat, vb@),
            vb@.sound() && filter_present(kernel_size as nat, vb@) && model::fits(
                seq![kernel_size as nat],
            ) ==> r is Ok,
    {
        let filter = load_filter(ratio, kernel_size, vb)?;
        let pad_left: usize = if kernel_size % 2 == 0 {
            kernel_size / 2 - 1
        } else {
            kernel_size / 2
        };
        Ok(LowPassFilter1d { pad_left, pad_right: kernel_size / 2, stride: ratio, filter })
    }

    /// The shape of the sound with its first and its last sample repeated.
    pub open spec fn padded_dims(&self, d: Seq<nat>) -> Seq<nat> {
        seq![d[0], d[1], d[2] + self.pad_left as nat + self.pad_right as nat]
    }

    /// The shape of what the filter computes.
    pub open spec fn dims_out(&self, d: Seq<nat>) -> Seq<nat> {
        let p = self.padded_dims(d);
        seq![d[0], d[1], model::windows(p[2], self.filter@.dims[2], 0, self.stride as nat, 1)]
    }

    /// Whether the filter can be computed from sound of this shape, in main memory and in single
    /// precision.
    pub open spec fn accepts_shape(&self, d: Seq<nat>) -> bool {
        let taps = self.filter@.dims[2];
        &&& d.len() == 3 && model::numel(d) > 0
        &&& self.filter.usable() && self.filter@.dims == seq![1, 1, taps] && taps > 0
        &&& filters_shape(self.padded_dims(d), taps, self.stride as nat)
    }

    /// What the filter computes from `x`.
    #[verifier::opaque]
    pub open spec fn apply(&self, x: TensorView) -> TensorView {
        let padded = replicated(x, self.pad_left as nat, self.pad_right as nat);
        depthwise_of(padded, model::cast(self.filter@, padded.dtype), self.stride as nat)
    }

    pub fn forward(&self, x: &Array) -> (r: Result<Array, Failure>)
        ensures
            r matches Ok(t) ==> t@ == self.apply(x@),
            x.on_cpu() && x@.dtype == Dtype::F32 && self.accepts_shape(x@.dims) ==> (r matches Ok(t) && t.on_cpu()
                && t@.dtype == Dtype::F32 && t@.dims == self.dims_out(x@.dims)),
    {
        proof {
            reveal(LowPassFilter1d::apply);
            if self.accepts_shape(x@.dims) {
                let d = x@.dims;
                assert(d.update(2, (d[2] + self.pad_left + self.pad_right) as nat) =~= self.padded_dims(d));
                lemmas::lemma_axis_positive(d, 2);
            }
        }
        let x = replicate_pad1d(x, self.pad_left, self.pad_right)?;
        let filter = self.filter.to_dtype(x.dtype())?.to_device(&x.device())?;
        depthwise_conv1d(&x, &filter, self.stride)
    }
}

/// `x + sin^2(alpha x) / beta`, with one `alpha` and one `beta` for each channel.
pub struct SnakeBeta {
    pub alpha: Array,
    pub beta: Array,
}

impl SnakeBeta {
    /// Whether this is the activation that a checkpoint holds.
    pub open spec fn loaded(&self, vb: WeightsView) -> bool {
        self.alpha@ == vb.get("alpha"@) && self.beta@ == vb.get("beta"@)
    }

    /// Whether a checkpoint holds an activation for so many channels.
    pub open spec fn present(channels: nat, vb: WeightsView) -> bool {
        vb.holds("alpha"@, seq![channels]) && vb.holds("beta"@, seq![channels])
    }

    pub fn new(channels: usize, vb: &Weights) -> (r: Result<SnakeBeta, Failure>)
        ensures
            r matches Ok(s) ==> s.loaded(vb@),
            r is Ok ==> SnakeBeta::present(channels as nat, vb@),
            vb@.sound() && SnakeBeta::present(channels as nat, vb@) ==> r is Ok,
    {
        let alpha = vb.get1(channels, "alpha")?;
        let beta = vb.get1(channels, "beta")?;
        Ok(SnakeBeta { alpha, beta })
    }

    /// The exponential of a parameter for each channel: parameters are stored as logarithms.
    pub open spec fn per_channel(p: TensorView) -> TensorView {
        model::reshape(
            model::unary(UnOp::Exp, model::cast(p, Dtype::F32)),
            seq![1, model::numel(p.dims), 1],
        )
    }

    /// What the activation computes from `x`, in single precision.
    #[verifier::opaque]
    pub open spec fn apply(&self, x: TensorView) -> TensorView {
        let wide = model::cast(x, Dtype::F32);
        let angle = model::binary(BinOp::Times, wide, SnakeBeta::per_channel(self.alpha@));
        let periodic = model::unary(UnOp::Sqr, model::unary(UnOp::Sin, angle));
        let divisor = model::affine(
            SnakeBeta::per_channel(self.beta@),
            model::number(ONE),
            model::number(SNAKE_EPS),
        );
        let scaled = model::binary(BinOp::Over, periodic, divisor);
        model::cast(model::binary(BinOp::Plus, wide, scaled), x.dtype)
    }

    /// Whether sound of this shape has as many channels as there are parameters of, in main memory.
    pub open spec fn accepts_shape(&self, d: Seq<nat>) -> bool {
        &&& d.len() == 3 && model::numel(d) > 0 && model::fits(seq![d[1]])
        &&& self.alpha.usable() && self.alpha@.dims == seq![d[1]]
        &&& self.beta.usable() && self.beta@.dims == seq![d[1]]
    }

    fn channel_parameter(p: &Array) -> (r: Result<Array, Failure>)
        ensures
            r matches Ok(t) ==> t@ == SnakeBeta::per_channel(p@),
            r matches Ok(t) ==> t.on_cpu() == p.on_cpu(),
            p.usable() && model::fits(seq![1, model::numel(p@.dims), 1]) && model::numel(
                seq![1, model::numel(p@.dims), 1],
            ) == model::numel(p@.dims) ==> r is Ok,
    {
        let n: usize = p.elem_count();
        p.to_dtype(Dtype::F32)?.unary(UnOp::Exp)?.reshape3(1, n, 1)
    }

    pub fn forward(&self, x: &Array) -> (r: Result<Array, Failure>)
        ensures
            r matches Ok(t) ==> t@ == self.apply(x@),
            x.usable() && self.accepts_shape(x@.dims) ==> (r matches Ok(t) && t.on_cpu() && t@.dtype == x@.dtype
                && t@.dims == x@.dims),
    {
        let ghost fine = x.usable() && self.accepts_shape(x@.dims);
        proof {
            reveal(SnakeBeta::apply);
            lemmas::lemma_common_dims(x@.dims);
            if fine {
                let (d, c) = (x@.dims, x@.dims[1]);
                lemmas::lemma_numel1(c);
                lemmas::lemma_numel3(1, c, 1);
                lemmas::lemma_axis_positive(d, 1);
                lemmas::lemma_room(seq![1, c, 1], seq![c]);
                assert(lemmas::spreads(seq![1, c, 1], d));
                lemmas::lemma_spread_common(seq![1, c, 1], d);
            }
        }
        let alpha = SnakeBeta::channel_parameter(&self.alpha)?;
        let beta = SnakeBeta::channel_parameter(&self.beta)?;
        let wide = x.to_dtype(Dtype::F32)?;
        let periodic = wide.broadcast(BinOp::Times, &alpha)?.unary(UnOp::Sin)?.unary(UnOp::Sqr)?;
        let scaled = periodic.broadcast(BinOp::Over, &beta.shift(SNAKE_EPS)?)?;
        wide.pairwise(BinOp::Plus, &scaled)?.to_dtype(x.dtype())
    }
}

/// An activation at twice the sampling rate.
pub struct Activation1d {
    pub act: SnakeBeta,
    pub upsample: UpSample1d,
    pub downsample: LowPassFilter1d,
}

impl Activation1d {
    /// Whether this is the activation that a checkpoint holds.
    pub open spec fn loaded(&self, vb: WeightsView) -> bool {
        &&& self.act.loaded(vb.pp("act"@))
        &&& self.upsample.sized(2, 12)
        &&& is_low_pass(2, 12, vb.pp("upsample"@), self.upsample.filter@)
        &&& self.downsample.loaded(2, 12, vb.pp("downsample"@).pp("lowpass"@))
    }

    /// Whether a checkpoint holds an activation for so many channels.
    pub open spec fn present(channels: nat, vb: WeightsView) -> bool {
        &&& SnakeBeta::present(channels, vb.pp("act"@))
        &&& filter_present(12, vb.pp("upsample"@))
        &&& filter_present(12, vb.pp("downsample"@).pp("lowpass"@))
    }

    pub fn new(channels: usize, vb: &Weights) -> (r: Result<Activation1d, Failure>)
        ensures
            r matches Ok(a) ==> a.loaded(vb@),
            r is Ok ==> Activation1d::present(channels as nat, vb@),
            vb@.sound() && Activation1d::present(channels as nat, vb@) ==> r is Ok,
    {
        proof {
            lemmas::lemma_extent1(12);
        }
        let act = SnakeBeta::new(channels, &vb.pp("act"))?;
        let upsample = UpSample1d::new_checkpointed(2, 12, &vb.pp("upsample"))?;
        let downsample = LowPassFilter1d::new_checkpointed(2, 12, &vb.pp("downsample").pp("lowpass"))?;
        Ok(Activation1d { act, upsample, downsample })
    }

    /// What the activation computes from `x`.
    pub open spec fn apply(&self, x: TensorView) -> TensorView {
        self.downsample.apply(self.act.apply(self.upsample.apply(x)))
    }

    /// The shape of what the activation computes.
    pub open spec fn dims_out(&self, d: Seq<nat>) -> Seq<nat> {
        self.downsample.dims_out(self.upsample.dims_out(d))
    }

    /// Whether the activation can be computed from sound of this shape, in main memory and in
    /// single precision.
    pub open spec fn accepts_shape(&self, d: Seq<nat>) -> bool {
        let wide = self.upsample.dims_out(d);
        &&& self.upsample.accepts_shape(d) && self.act.accepts_shape(wide) && self.downsample.accepts_shape(wide)
    }

    pub fn forward(&self, x: &Array) -> (r: Result<Array, Failure>)
        ensures
            r matches Ok(t) ==> t@ == self.apply(x@),
            x.on_cpu() && x@.dtype == Dtype::F32 && self.accepts_shape(x@.dims) ==> (r matches Ok(t) && t.on_cpu()
                && t@.dtype == Dtype::F32 && t@.dims == self.dims_out(x@.dims)),
    {
        let x = self.upsample.forward(x)?;
        let x = self.act.forward(&x)?;
        self.downsample.forward(&x)
    }
}

} // verus!
