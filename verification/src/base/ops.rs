//! Normalisation and conversions between velocity and denoised sample.
use vstd::prelude::*;

use crate::array::{self, Array};
use crate::error::Failure;
use crate::lemmas;
use crate::model::{self, BinOp, Dtype, TensorView, UnOp};
use crate::reals::{self, Functions};
use crate::scalar::{Scalar, ONE, ZERO};

verus! {

/// The failure of an operation on shapes that do not go together.
pub fn shape_err(expected: &str, got: &str) -> (r: Failure)
    ensures
        r matches Failure::Mismatch { expected: e, got: g } && e@ == expected@ && g@ == got@,
{
    Failure::Mismatch { expected: expected.to_owned(), got: got.to_owned() }
}

/// The failure of an operation that needs a component that is not there.
pub fn missing_err(what: &str) -> (r: Failure)
    ensures
        r matches Failure::Missing { what: w } && w@ == what@,
{
    Failure::Missing { what: what.to_owned() }
}

/// `x * rsqrt(mean(x^2) + eps)` over the last axis, times `weight`.
pub open spec fn rms_norm_of(x: TensorView, weight: Option<TensorView>, eps: Scalar) -> TensorView {
    let wide = model::cast(x, Dtype::F32);
    let variance = model::mean_keepdim(model::unary(UnOp::Sqr, wide), x.rank() - 1);
    let padded = model::affine(variance, model::number(ONE), model::number(eps));
    let rsqrt = model::unary(UnOp::Recip, model::unary(UnOp::Sqrt, padded));
    let normed = model::cast(model::binary(BinOp::Times, wide, rsqrt), x.dtype);
    match weight {
        Some(w) => model::binary(BinOp::Times, normed, w),
        None => normed,
    }
}

/// RMS normalisation over the last axis.
pub fn rms_norm(x: &Array, weight: Option<&Array>, eps: Scalar) -> (r: Result<Array, Failure>)
    ensures
        r matches Ok(t) ==> t@ == rms_norm_of(x@, array::opt_ref_view(weight), eps),
        x@.rank() == 0 ==> r == Err::<Array, Failure>(Failure::Shape),
        x@.rank() > 0 && x.on_cpu() && x@.dtype.float() && (weight matches Some(w) ==> x.takes(w)
            && model::common_dims(x@.dims, w@.dims) == x@.dims) ==> (r matches Ok(t) && t.on_cpu() && t@.dims == x@.dims
            && t@.dtype == x@.dtype),
{
    let rank: usize = x.rank();
    if rank == 0 {
        return Err(Failure::Shape);
    }
    let wide = x.to_dtype(Dtype::F32)?;
    proof {
        reveal(model::mean_keepdim);
    }
    let variance = wide.unary(UnOp::Sqr)?.mean_keepdim(rank - 1)?;
    let rsqrt = variance.shift(eps)?.unary(UnOp::Sqrt)?.unary(UnOp::Recip)?;
    proof {
        lemmas::lemma_spread_common(rsqrt@.dims, wide@.dims);
    }
    let normed = wide.broadcast(BinOp::Times, &rsqrt)?;
    let normed = normed.to_dtype(x.dtype())?;
    match weight {
        Some(w) => normed.broadcast(BinOp::Times, w),
        None => Ok(normed),
    }
}

/// `(sample - denoised) / sigma`, computed in single precision.
pub open spec fn velocity_of(sample: TensorView, sigma: TensorView, denoised: TensorView) -> TensorView {
    let difference = model::binary(
        BinOp::Minus,
        model::cast(sample, Dtype::F32),
        model::cast(denoised, Dtype::F32),
    );
    model::cast(
        model::binary(BinOp::Over, difference, model::cast(sigma, Dtype::F32)),
        sample.dtype,
    )
}

/// The velocity that leads from a sample to its denoised version.
pub fn to_velocity(sample: &Array, sigma: &Array, denoised: &Array) -> (r: Result<Array, Failure>)
    ensures
        r matches Ok(t) ==> t@ == velocity_of(sample@, sigma@, denoised@) && sample@.dims == denoised@.dims,
        sample.usable() && sigma.usable() && denoised.usable() && sample@.dims == denoised@.dims
            && model::have_common_dims(sample@.dims, sigma@.dims) && model::common_dims(sample@.dims, sigma@.dims)
            == sample@.dims ==> r is Ok,
{
    let sample32 = sample.to_dtype(Dtype::F32)?;
    let denoised32 = denoised.to_dtype(Dtype::F32)?;
    let sigma32 = sigma.to_dtype(Dtype::F32)?;
    let velocity = sample32.pairwise(BinOp::Minus, &denoised32)?.broadcast(BinOp::Over, &sigma32)?;
    velocity.to_dtype(sample.dtype())
}

/// `sample - velocity * sigma`, computed in single precision.
pub open spec fn denoised_of(sample: TensorView, velocity: TensorView, sigma: TensorView) -> TensorView {
    let step = model::binary(
        BinOp::Times,
        model::cast(velocity, Dtype::F32),
        model::cast(sigma, Dtype::F32),
    );
    model::cast(
        model::binary(BinOp::Minus, model::cast(sample, Dtype::F32), step),
        sample.dtype,
    )
}

/// The denoised sample that a velocity leads to.
pub fn to_denoised(sample: &Array, velocity: &Array, sigma: &Array) -> (r: Result<Array, Failure>)
    ensures
        r matches Ok(t) ==> t@ == denoised_of(sample@, velocity@, sigma@) && t@.dims == sample@.dims,
        r matches Ok(t) ==> t@.dtype == sample@.dtype && t.on_cpu() == sample.on_cpu(),
        sample.usable() && velocity.usable() && sigma.usable() && sample@.dims == velocity@.dims
            && model::have_common_dims(sample@.dims, sigma@.dims) && model::common_dims(sample@.dims, sigma@.dims)
            == sample@.dims ==> r is Ok,
{
    let sample32 = sample.to_dtype(Dtype::F32)?;
    let velocity32 = velocity.to_dtype(Dtype::F32)?;
    let sigma32 = sigma.to_dtype(Dtype::F32)?;
    let step = velocity32.broadcast(BinOp::Times, &sigma32)?;
    sample32.pairwise(BinOp::Minus, &step)?.to_dtype(sample.dtype())
}

/// A sample is its denoised version plus the velocity times the noise level, and the denoised
/// version comes back from the velocity.
pub proof fn law_velocity(sample: TensorView, sigma: TensorView, denoised: TensorView, idx: Seq<int>, f: Functions)
    requires
        sample.wf() && denoised.wf() && sigma.wf() && sample.dims == denoised.dims,
        sample.dtype.float(),
        lemmas::spreads(sigma.dims, sample.dims) || sigma.rank() == 0,
        model::in_bounds(sample.dims, idx),
        reals::value(sigma.at(lemmas::repeated(sigma.dims, sample.dims, idx)), f) != 0real,
    ensures
        reals::value(sample.at(idx), f) == reals::value(denoised.at(idx), f) + reals::value(
            velocity_of(sample, sigma, denoised).at(idx),
            f,
        ) * reals::value(sigma.at(lemmas::repeated(sigma.dims, sample.dims, idx)), f),
        reals::value(denoised_of(sample, velocity_of(sample, sigma, denoised), sigma).at(idx), f) == reals::value(
            denoised.at(idx),
            f,
        ),
{
    lemma_velocity(sample, sigma, denoised, idx, f);
    broadcast use reals::group_reading;
    if sigma.rank() > 0 {
        lemmas::lemma_spread_common(sigma.dims, sample.dims);
    }
    let v = velocity_of(sample, sigma, denoised);
    lemma_denoised(sample, v, sigma, idx, f);
    let (x, d) = (reals::value(sample.at(idx), f), reals::value(denoised.at(idx), f));
    let s = reals::value(sigma.at(lemmas::repeated(sigma.dims, sample.dims, idx)), f);
    assert((x - d) / s * s == x - d) by (nonlinear_arith)
        requires
            s != 0real,
    ;
}

proof fn lemma_velocity(sample: TensorView, sigma: TensorView, denoised: TensorView, idx: Seq<int>, f: Functions)
    requires
        sample.wf() && denoised.wf() && sigma.wf() && sample.dims == denoised.dims,
        sample.dtype.float(),
        lemmas::spreads(sigma.dims, sample.dims) || sigma.rank() == 0,
        model::in_bounds(sample.dims, idx),
    ensures
        reals::value(velocity_of(sample, sigma, denoised).at(idx), f) == (reals::value(sample.at(idx), f) - reals::value(
            denoised.at(idx),
            f,
        )) / reals::value(sigma.at(lemmas::repeated(sigma.dims, sample.dims, idx)), f),
{
    broadcast use reals::group_reading;
    let d = sample.dims;
    if sigma.rank() > 0 {
        lemmas::lemma_spread_common(sigma.dims, d);
    }
    let (a, b, c) = (model::cast(sample, Dtype::F32), model::cast(denoised, Dtype::F32), model::cast(sigma, Dtype::F32));
    let difference = model::binary(BinOp::Minus, a, b);
    lemmas::lemma_ravel(d, idx);
    reals::lemma_binary_at(BinOp::Over, difference, c, idx, f);
    assert(lemmas::repeated(d, d, idx) =~= idx);
    lemma_repeated_place(sigma.dims, d, idx);
}

proof fn lemma_denoised(sample: TensorView, velocity: TensorView, sigma: TensorView, idx: Seq<int>, f: Functions)
    requires
        sample.wf() && velocity.wf() && sigma.wf() && sample.dims == velocity.dims,
        sample.dtype.float(),
        lemmas::spreads(sigma.dims, sample.dims) || sigma.rank() == 0,
        model::in_bounds(sample.dims, idx),
    ensures
        reals::value(denoised_of(sample, velocity, sigma).at(idx), f) == reals::value(sample.at(idx), f) - reals::value(
            velocity.at(idx),
            f,
        ) * reals::value(sigma.at(lemmas::repeated(sigma.dims, sample.dims, idx)), f),
{
    broadcast use reals::group_reading;
    let d = sample.dims;
    if sigma.rank() > 0 {
        lemmas::lemma_spread_common(sigma.dims, d);
    }
    let (a, b, c) = (model::cast(sample, Dtype::F32), model::cast(velocity, Dtype::F32), model::cast(sigma, Dtype::F32));
    let step = model::binary(BinOp::Times, b, c);
    lemmas::lemma_ravel(d, idx);
    reals::lemma_binary_at(BinOp::Times, b, c, idx, f);
    assert(lemmas::repeated(d, d, idx) =~= idx);
    lemma_repeated_place(sigma.dims, d, idx);
}

/// The element of a smaller tensor that stands at an element of a larger one is in it.
pub proof fn lemma_repeated_place(small: Seq<nat>, large: Seq<nat>, idx: Seq<int>)
    requires
        lemmas::spreads(small, large) || small.len() == 0,
        model::in_bounds(large, idx),
    ensures
        model::in_bounds(small, lemmas::repeated(small, large, idx)),
        0 <= model::ravel(small, lemmas::repeated(small, large, idx)) < model::numel(small),
{
    let p = lemmas::repeated(small, large, idx);
    assert forall|k: int| 0 <= k < small.len() implies 0 <= #[trigger] p[k] < small[k] by {
        assert(small[k] == large[k] || small[k] == 1);
        assert(0 <= idx[k] < large[k]);
    }
    lemmas::lemma_ravel(small, p);
}

/// The root of the mean square of a row, with `eps` added to the mean.
pub open spec fn rms_value(x: TensorView, eps: Scalar, idx: Seq<int>, f: Functions) -> real {
    let last = x.rank() - 1;
    (f.sqrt)(
        reals::sum_to(
            x.dims[last] as int,
            |k: int|
                reals::value(x.at(idx.update(last, k)), f) * reals::value(x.at(idx.update(last, k)), f),
        ) / x.dims[last] as int as real + reals::of_bits(eps),
    )
}

/// Each number of a row is its normalised version times the root of the mean square of the row.
pub proof fn law_rms_norm(x: TensorView, eps: Scalar, idx: Seq<int>, f: Functions)
    requires
        x.wf() && x.rank() > 0 && x.dtype.float(),
        model::in_bounds(x.dims, idx),
        rms_value(x, eps, idx, f) != 0real,
    ensures
        reals::value(rms_norm_of(x, None, eps).at(idx), f) * rms_value(x, eps, idx, f) == reals::value(x.at(idx), f),
        rms_norm_of(x, None, eps).dims == x.dims,
        rms_norm_of(x, None, eps).wf(),
{
    broadcast use reals::group_reading;
    reals::lemma_constants();
    let (d, last) = (x.dims, x.rank() - 1);
    let wide = model::cast(x, Dtype::F32);
    let square = model::unary(UnOp::Sqr, wide);
    let mean = model::mean_keepdim(square, last);
    let e = d.update(last, 1);
    let p = idx.update(last, 0);
    assert forall|k: int| 0 <= k < d.len() implies 0 <= #[trigger] p[k] < e[k] by {
        assert(0 <= idx[k] < d[k]);
    }
    reals::lemma_mean_at(square, last, p, f);
    let g = |k: int| reals::value(square.at(p.update(last, k)), f);
    let h = |k: int| reals::value(x.at(idx.update(last, k)), f) * reals::value(x.at(idx.update(last, k)), f);
    assert forall|k: int| 0 <= k < d[last] implies #[trigger] g(k) == h(k) by {
        let q = idx.update(last, k);
        assert(p.update(last, k) =~= q);
        assert forall|j: int| 0 <= j < d.len() implies 0 <= #[trigger] q[j] < d[j] by {
            assert(0 <= idx[j] < d[j]);
        }
        lemmas::lemma_ravel(d, q);
    }
    reals::lemma_sum_ext(d[last] as int, g, h);
    reals::lemma_sum_ext(d[last] as int, |k: int| reals::value(square.at(p.update(last, k)), f), g);
    lemmas::lemma_ravel(e, p);
    let padded = model::affine(mean, model::number(ONE), model::number(eps));
    let m = reals::value(mean.at(p), f);
    assert(m * 1real == m) by (nonlinear_arith);
    assert(reals::value(padded.at(p), f) == m + reals::of_bits(eps));
    let root = model::unary(UnOp::Sqrt, padded);
    let rsqrt = model::unary(UnOp::Recip, root);
    let r = rms_value(x, eps, idx, f);
    assert(reals::value(rsqrt.at(p), f) == 1real / r);
    lemmas::lemma_spread_common(e, d);
    reals::lemma_binary_at(BinOp::Times, wide, rsqrt, idx, f);
    assert(lemmas::repeated(d, d, idx) =~= idx);
    assert(lemmas::repeated(e, d, idx) =~= p) by {
        assert forall|k: int| 0 <= k < e.len() implies #[trigger] lemmas::repeated(e, d, idx)[k] == p[k] by {
            assert(0 <= idx[k] < d[k]);
        }
    }
    lemmas::lemma_ravel(d, idx);
    let y = reals::value(x.at(idx), f);
    assert(y * (1real / r) * r == y) by (nonlinear_arith)
        requires
            r != 0real,
    ;
}

/// A weight multiplies each number of the normalised row.
pub proof fn law_rms_norm_weight(x: TensorView, w: TensorView, eps: Scalar, idx: Seq<int>, f: Functions)
    requires
        x.wf() && x.rank() > 0 && x.dtype.float() && w.wf(),
        w.dims == seq![x.dims.last()],
        model::in_bounds(x.dims, idx),
    ensures
        reals::value(rms_norm_of(x, Some(w), eps).at(idx), f) == reals::value(rms_norm_of(x, None, eps).at(idx), f)
            * reals::value(w.at(seq![idx.last()]), f),
{
    broadcast use reals::group_reading;
    reveal(model::mean_keepdim);
    let d = x.dims;
    lemmas::lemma_spread_common(d.update(d.len() - 1, 1), d);
    let normed = rms_norm_of(x, None, eps);
    assert(normed.dims == d);
    lemmas::lemma_last_spreads(d, d.last());
    reals::lemma_binary_at(BinOp::Times, normed, w, idx, f);
    assert(lemmas::repeated(d, d, idx) =~= idx);
    assert(lemmas::repeated(w.dims, d, idx) =~= seq![idx.last()]);
}

} // verus!
