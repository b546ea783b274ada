//! Steps from one noise level to the next.
//!
//! A noise level is a tensor without axes.
use vstd::prelude::*;

use crate::array::{self, Array};
use crate::error::Failure;
use crate::lemmas;
use crate::model::{self, BinOp, Dtype, TensorView, UnOp};
use crate::reals::{self, Functions};
use crate::scalar::{self, exceeds, is_zero, Scalar, HALF, ZERO};

verus! {

/// A noise level in double precision.
pub open spec fn wide(sigma: TensorView) -> TensorView {
    model::cast(sigma, Dtype::F64)
}

/// Whether this is a single number in main memory.
pub open spec fn is_level(sigma: Array) -> bool {
    sigma.usable() && sigma@.rank() == 0
}

/// `sample + (sample - denoised) / sigma * (next - sigma)`, in single precision.
pub open spec fn euler_of(sample: TensorView, denoised: TensorView, sigma: TensorView, next: TensorView) -> TensorView {
    let dt = model::binary(BinOp::Minus, wide(next), wide(sigma));
    let x = model::cast(sample, Dtype::F32);
    let velocity = model::affine(
        model::binary(BinOp::Minus, x, model::cast(denoised, Dtype::F32)),
        model::unary(UnOp::Recip, wide(sigma)),
        model::number(ZERO),
    );
    model::cast(
        model::binary(BinOp::Plus, x, model::affine(velocity, dt, model::number(ZERO))),
        sample.dtype,
    )
}

/// A step of Euler's method from noise level `step_index` to the next.
pub fn euler_step(sample: &Array, denoised_sample: &Array, sigmas: &Vec<Array>, step_index: usize) -> (r: Result<
    Array,
    Failure,
>)
    requires
        step_index + 1 < sigmas.len(),
    ensures
        r matches Ok(t) ==> t@ == euler_of(
            sample@,
            denoised_sample@,
            sigmas@[step_index as int]@,
            sigmas@[step_index + 1]@,
        ),
        r matches Ok(t) ==> t@.dims == sample@.dims && denoised_sample@.dims == sample@.dims,
        r matches Ok(t) ==> t@.dtype == sample@.dtype && t.on_cpu() == sample.on_cpu(),
        sample.usable() && denoised_sample.usable() && denoised_sample@.dims == sample@.dims && is_level(
            sigmas@[step_index as int],
        ) && is_level(sigmas@[step_index + 1]) ==> r is Ok,
{
    let sigma = sigmas[step_index].to_dtype(Dtype::F64)?;
    let dt = sigmas[step_index + 1].to_dtype(Dtype::F64)?.pairwise(BinOp::Minus, &sigma)?;
    let x = sample.to_dtype(Dtype::F32)?;
    let difference = x.pairwise(BinOp::Minus, &denoised_sample.to_dtype(Dtype::F32)?)?;
    let velocity = difference.scale_by(&sigma.unary(UnOp::Recip)?)?;
    x.pairwise(BinOp::Plus, &velocity.scale_by(&dt)?)?.to_dtype(sample.dtype())
}

/// The integrals of the exponential method for a step of `h` on the logarithmic scale of
/// noise levels: `phi_1(-h / 2)`, `phi_1(-h)` and `phi_2(-h)`, where
/// `phi_1(z) = (e^z - 1) / z` and `phi_2(z) = (e^z - 1 - z) / z^2`.
#[derive(Clone, Copy, PartialEq, Eq, Structural, Debug)]
pub struct Res2sWeights {
    pub phi1_mid: Scalar,
    pub phi1: Scalar,
    pub phi2: Scalar,
}

/// Whether a number is zero or below.
pub open spec fn noiseless(number: Scalar) -> bool {
    scalar::above(ZERO, number) || scalar::zero(number)
}

/// Whether a noise level can be read as a number that is zero or below, or as another one.
pub open spec fn told_noiseless(sigma: TensorView, flag: bool) -> bool {
    exists|number: Scalar| #[trigger] array::can_read(wide(sigma), number) && flag == noiseless(number)
}

/// Reads a noise level.
fn read_level(sigma: &Array) -> (r: Result<Scalar, Failure>)
    ensures
        r matches Ok(number) ==> array::can_read(wide(sigma@), number),
        is_level(*sigma) ==> r is Ok,
{
    sigma.to_dtype(Dtype::F64)?.to_number()
}

fn is_noiseless(number: Scalar) -> (r: bool)
    ensures
        r == noiseless(number),
{
    exceeds(ZERO, number) || is_zero(number)
}

/// `-ln(next / sigma)`: the size of a step on the logarithmic scale.
pub open spec fn log_step_of(sigma: TensorView, next: TensorView) -> TensorView {
    model::unary(
        UnOp::Neg,
        model::unary(UnOp::Log, model::binary(BinOp::Over, wide(next), wide(sigma))),
    )
}

fn log_step(sigma: &Array, next: &Array) -> (r: Result<Array, Failure>)
    ensures
        r matches Ok(t) ==> t@ == log_step_of(sigma@, next@),
        is_level(*sigma) && is_level(*next) ==> (r matches Ok(t) && t.single()),
{
    let ratio = next.to_dtype(Dtype::F64)?.pairwise(BinOp::Over, &sigma.to_dtype(Dtype::F64)?)?;
    ratio.unary(UnOp::Log)?.unary(UnOp::Neg)
}

/// `sample + (denoised - sample) * h * phi_1(-h / 2) / 2`, in single precision.
pub open spec fn midpoint_of(
    sample: TensorView,
    denoised: TensorView,
    sigma: TensorView,
    next: TensorView,
    phi1_mid: Scalar,
) -> TensorView {
    let h = log_step_of(sigma, next);
    let weight = model::binary(BinOp::Times, model::number(HALF), model::number(phi1_mid));
    let x = model::cast(sample, Dtype::F32);
    let delta = model::binary(BinOp::Minus, model::cast(denoised, Dtype::F32), x);
    let moved = model::affine(delta, model::binary(BinOp::Times, h, weight), model::number(ZERO));
    model::cast(model::binary(BinOp::Plus, x, moved), sample.dtype)
}

/// `exp(ln(sigma) - h / 2)`: the noise level half way on the logarithmic scale, in single
/// precision.
pub open spec fn midpoint_sigma_of(sigma: TensorView, next: TensorView) -> TensorView {
    let h = log_step_of(sigma, next);
    let log = model::binary(
        BinOp::Minus,
        model::unary(UnOp::Log, wide(sigma)),
        model::binary(BinOp::Times, h, model::number(HALF)),
    );
    model::cast(model::unary(UnOp::Exp, log), Dtype::F32)
}

/// The sample half way to the next noise level, and the noise level there. There is none
/// where the next noise level is read as zero or below.
///
/// `phi1_mid` is `phi_1(-h / 2)`.
pub fn res2s_midpoint(
    sample: &Array,
    denoised_sample: &Array,
    sigma_current: &Array,
    sigma_next: &Array,
    phi1_mid: Scalar,
) -> (r: Result<Option<(Array, Array)>, Failure>)
    ensures
        r matches Ok(m) ==> told_noiseless(sigma_next@, m is None),
        r matches Ok(Some(m)) ==> m.0@ == midpoint_of(
            sample@,
            denoised_sample@,
            sigma_current@,
            sigma_next@,
            phi1_mid,
        ) && m.1@ == midpoint_sigma_of(sigma_current@, sigma_next@),
        r matches Ok(Some(m)) ==> m.0@.dims == sample@.dims && denoised_sample@.dims == sample@.dims,
        r matches Ok(Some(m)) ==> m.0@.dtype == sample@.dtype && m.0.on_cpu() == sample.on_cpu(),
        r matches Ok(Some(m)) ==> m.1.on_cpu() == sigma_current.on_cpu(),
        sample.usable() && denoised_sample.usable() && denoised_sample@.dims == sample@.dims && is_level(
            *sigma_current,
        ) && is_level(*sigma_next) ==> r is Ok,
{
    let number: Scalar = read_level(sigma_next)?;
    res2s_midpoint_at(sample, denoised_sample, sigma_current, sigma_next, phi1_mid, number)
}

/// The sample half way to a noise level that is read as this number, and the noise level there.
pub fn res2s_midpoint_at(
    sample: &Array,
    denoised_sample: &Array,
    sigma_current: &Array,
    sigma_next: &Array,
    phi1_mid: Scalar,
    number: Scalar,
) -> (r: Result<Option<(Array, Array)>, Failure>)
    ensures
        r matches Ok(m) ==> (m is None <==> noiseless(number)),
        r matches Ok(Some(m)) ==> m.0@ == midpoint_of(
            sample@,
            denoised_sample@,
            sigma_current@,
            sigma_next@,
            phi1_mid,
        ) && m.1@ == midpoint_sigma_of(sigma_current@, sigma_next@),
        r matches Ok(Some(m)) ==> m.0@.dims == sample@.dims && denoised_sample@.dims == sample@.dims,
        r matches Ok(Some(m)) ==> m.0@.dtype == sample@.dtype && m.0.on_cpu() == sample.on_cpu(),
        r matches Ok(Some(m)) ==> m.1.on_cpu() == sigma_current.on_cpu(),
        noiseless(number) || sample.usable() && denoised_sample.usable() && denoised_sample@.dims
            == sample@.dims && is_level(*sigma_current) && is_level(*sigma_next) ==> r is Ok,
{
    if is_noiseless(number) {
        return Ok(None);
    }
    let h = log_step(sigma_current, sigma_next)?;
    let device = h.device();
    let weight = Array::number(HALF)?.pairwise(BinOp::Times, &Array::number(phi1_mid)?)?.to_device(&device)?;
    let x = sample.to_dtype(Dtype::F32)?;
    let delta = denoised_sample.to_dtype(Dtype::F32)?.pairwise(BinOp::Minus, &x)?;
    let moved = delta.scale_by(&h.pairwise(BinOp::Times, &weight)?)?;
    let midpoint = x.pairwise(BinOp::Plus, &moved)?.to_dtype(sample.dtype())?;
    let half = Array::number(HALF)?.to_device(&device)?;
    let log = sigma_current.to_dtype(Dtype::F64)?.unary(UnOp::Log)?.pairwise(
        BinOp::Minus,
        &h.pairwise(BinOp::Times, &half)?,
    )?;
    let sigma = log.unary(UnOp::Exp)?.to_dtype(Dtype::F32)?;
    Ok(Some((midpoint, sigma)))
}

/// `sample + h * ((stage1 - sample) * w1 + (stage2 - sample) * w2)` in single precision, with
/// `w2 = phi_2(-h) / (1/2)` and `w1 = phi_1(-h) - w2`.
pub open spec fn res2s_moved(
    sample: TensorView,
    stage1: TensorView,
    stage2: TensorView,
    sigma: TensorView,
    next: TensorView,
    weights: Res2sWeights,
) -> TensorView {
    let h = log_step_of(sigma, next);
    let w2 = model::binary(BinOp::Over, model::number(weights.phi2), model::number(HALF));
    let w1 = model::binary(BinOp::Minus, model::number(weights.phi1), w2);
    let x = model::cast(sample, Dtype::F32);
    let d1 = model::binary(BinOp::Minus, model::cast(stage1, Dtype::F32), x);
    let d2 = model::binary(BinOp::Minus, model::cast(stage2, Dtype::F32), x);
    let both = model::binary(
        BinOp::Plus,
        model::affine(d1, w1, model::number(ZERO)),
        model::affine(d2, w2, model::number(ZERO)),
    );
    model::cast(
        model::binary(BinOp::Plus, x, model::affine(both, h, model::number(ZERO))),
        sample.dtype,
    )
}

/// The sample moved to the next noise level; without noise there, `stage1`.
pub open spec fn res2s_of(
    sample: TensorView,
    stage1: TensorView,
    stage2: TensorView,
    sigma: TensorView,
    next: TensorView,
    weights: Res2sWeights,
    noiseless: bool,
) -> TensorView {
    if noiseless {
        model::cast(stage1, sample.dtype)
    } else {
        res2s_moved(sample, stage1, stage2, sigma, next, weights)
    }
}

/// A step of the exponential method with two stages, from the denoised samples at noise
/// level `step_index` and half way to the next.
pub fn res2s_step(
    sample: &Array,
    denoised_stage1: &Array,
    denoised_stage2: &Array,
    sigmas: &Vec<Array>,
    step_index: usize,
    weights: &Res2sWeights,
) -> (r: Result<Array, Failure>)
    requires
        step_index + 1 < sigmas.len(),
    ensures
        r matches Ok(t) ==> exists|flag: bool| #[trigger]
            told_noiseless(sigmas@[step_index + 1]@, flag) && t@ == res2s_of(
                sample@,
                denoised_stage1@,
                denoised_stage2@,
                sigmas@[step_index as int]@,
                sigmas@[step_index + 1]@,
                *weights,
                flag,
            ) && if flag {
                t@.dims == denoised_stage1@.dims
            } else {
                t@.dims == sample@.dims && t@.dtype == sample@.dtype && t.on_cpu() == sample.on_cpu()
            },
        sample.usable() && denoised_stage1.usable() && denoised_stage2.usable() && denoised_stage1@.dims
            == sample@.dims && denoised_stage2@.dims == sample@.dims && is_level(sigmas@[step_index as int])
            && is_level(sigmas@[step_index + 1]) ==> r is Ok,
{
    let sigma = &sigmas[step_index];
    let next = &sigmas[step_index + 1];
    let number: Scalar = read_level(next)?;
    assert(told_noiseless(next@, noiseless(number)));
    res2s_step_at(sample, denoised_stage1, denoised_stage2, sigma, next, weights, number)
}

/// A step of the exponential method with two stages to a noise level that is read as this number.
pub fn res2s_step_at(
    sample: &Array,
    denoised_stage1: &Array,
    denoised_stage2: &Array,
    sigma: &Array,
    next: &Array,
    weights: &Res2sWeights,
    number: Scalar,
) -> (r: Result<Array, Failure>)
    ensures
        r matches Ok(t) ==> t@ == res2s_of(
            sample@,
            denoised_stage1@,
            denoised_stage2@,
            sigma@,
            next@,
            *weights,
            noiseless(number),
        ),
        r matches Ok(t) ==> if noiseless(number) {
            t@.dims == denoised_stage1@.dims
        } else {
            t@.dims == sample@.dims && t@.dtype == sample@.dtype && t.on_cpu() == sample.on_cpu()
        },
        sample.usable() && denoised_stage1.usable() && denoised_stage2.usable() && denoised_stage1@.dims
            == sample@.dims && denoised_stage2@.dims == sample@.dims && is_level(*sigma) && is_level(*next)
            ==> r is Ok,
{
    if is_noiseless(number) {
        return denoised_stage1.to_dtype(sample.dtype());
    }
    res2s_advance(sample, denoised_stage1, denoised_stage2, sigma, next, weights)
}

/// A step of the exponential method with two stages to a noise level other than zero.
pub(crate) fn res2s_advance(
    sample: &Array,
    denoised_stage1: &Array,
    denoised_stage2: &Array,
    sigma: &Array,
    next: &Array,
    weights: &Res2sWeights,
) -> (r: Result<Array, Failure>)
    ensures
        r matches Ok(t) ==> t@ == res2s_moved(
            sample@,
            denoised_stage1@,
            denoised_stage2@,
            sigma@,
            next@,
            *weights,
        ),
        r matches Ok(t) ==> t@.dims == sample@.dims && t@.dtype == sample@.dtype && t.on_cpu()
            == sample.on_cpu(),
        sample.usable() && denoised_stage1.usable() && denoised_stage2.usable() && denoised_stage1@.dims
            == sample@.dims && denoised_stage2@.dims == sample@.dims && is_level(*sigma) && is_level(*next)
            ==> r is Ok,
{
    let h = log_step(sigma, next)?;
    let w2 = Array::number(weights.phi2)?.pairwise(BinOp::Over, &Array::number(HALF)?)?;
    let w1 = Array::number(weights.phi1)?.pairwise(BinOp::Minus, &w2)?;
    let x = sample.to_dtype(Dtype::F32)?;
    let d1 = denoised_stage1.to_dtype(Dtype::F32)?.pairwise(BinOp::Minus, &x)?.scale_by(&w1)?;
    let d2 = denoised_stage2.to_dtype(Dtype::F32)?.pairwise(BinOp::Minus, &x)?.scale_by(&w2)?;
    let update = d1.pairwise(BinOp::Plus, &d2)?.scale_by(&h)?;
    x.pairwise(BinOp::Plus, &update)?.to_dtype(sample.dtype())
}

// Read over the real numbers.

/// Whether these can be a sample and what is predicted of it, between two noise levels.
pub open spec fn steppable(sample: TensorView, denoised: TensorView, sigma: TensorView, next: TensorView) -> bool {
    &&& sample.wf() && denoised.wf() && sample.dims == denoised.dims && sample.dtype.float()
    &&& sigma.rank() == 0 && sigma.wf() && next.rank() == 0 && next.wf()
}

/// The value of a noise level.
pub open spec fn level_value(sigma: TensorView, f: Functions) -> real {
    reals::value(sigma.cells[0], f)
}

proof fn lemma_single_levels(sigma: TensorView, next: TensorView, f: Functions)
    requires
        sigma.rank() == 0 && sigma.wf() && next.rank() == 0 && next.wf(),
    ensures
        wide(sigma).rank() == 0 && wide(sigma).wf() && level_value(wide(sigma), f) == level_value(sigma, f),
        wide(next).rank() == 0 && wide(next).wf() && level_value(wide(next), f) == level_value(next, f),
        sigma.cells.len() == 1 && next.cells.len() == 1,
        log_step_of(sigma, next).rank() == 0 && log_step_of(sigma, next).wf(),
        level_value(log_step_of(sigma, next), f) == -(f.log)(level_value(next, f) / level_value(sigma, f)),
{
    broadcast use reals::group_reading;
    lemmas::lemma_single();
    assert(sigma.dims =~= Seq::<nat>::empty() && next.dims =~= Seq::<nat>::empty());
}

/// A step of Euler's method moves a sample towards what is predicted: the distance from it shrinks as
/// the noise does. Without noise the prediction itself is left.
pub proof fn law_euler_step(
    sample: TensorView,
    denoised: TensorView,
    sigma: TensorView,
    next: TensorView,
    i: int,
    f: Functions,
)
    requires
        steppable(sample, denoised, sigma, next),
        0 <= i < sample.cells.len(),
        level_value(sigma, f) != 0real,
    ensures
        ({
            let (y, d) = (
                reals::value(euler_of(sample, denoised, sigma, next).cells[i], f),
                reals::value(denoised.cells[i], f),
            );
            &&& (y - d) * level_value(sigma, f) == (reals::value(sample.cells[i], f) - d) * level_value(next, f)
            &&& level_value(next, f) == 0real ==> y == d
        }),
{
    broadcast use reals::group_reading;
    lemma_single_levels(sigma, next, f);
    reals::lemma_constants();
    let (s, n) = (level_value(sigma, f), level_value(next, f));
    let (x, d) = (reals::value(sample.cells[i], f), reals::value(denoised.cells[i], f));
    assert(sigma.dims =~= Seq::<nat>::empty() && next.dims =~= Seq::<nat>::empty());
    let dt = model::binary(BinOp::Minus, wide(next), wide(sigma));
    assert(level_value(dt, f) == n - s);
    let xf = model::cast(sample, Dtype::F32);
    let difference = model::binary(BinOp::Minus, xf, model::cast(denoised, Dtype::F32));
    let velocity = model::affine(difference, model::unary(UnOp::Recip, wide(sigma)), model::number(ZERO));
    assert(reals::value(velocity.cells[i], f) == (x - d) * (1real / s));
    let step = model::affine(velocity, dt, model::number(ZERO));
    assert(reals::value(step.cells[i], f) == (x - d) * (1real / s) * (n - s));
    let y = reals::value(euler_of(sample, denoised, sigma, next).cells[i], f);
    assert(y == x + (x - d) * (1real / s) * (n - s));
    let r = 1real / s;
    assert(r * s == 1real) by (nonlinear_arith)
        requires
            s != 0real,
            r == 1real / s,
    ;
    let u = x - d;
    let t = u * r;
    assert(u * r * s == u * (r * s)) by (nonlinear_arith);
    assert(u * 1real == u && u * 0real == 0real) by (nonlinear_arith);
    assert(t * s == u);
    assert((u + t * (n - s)) * s == u * s + (t * s) * (n - s)) by (nonlinear_arith);
    assert(u * s + u * (n - s) == u * n) by (nonlinear_arith);
    let w = y - d;
    assert(w == u + t * (n - s));
    assert(w * s == u * n);
    if n == 0real {
        assert(w == 0real) by (nonlinear_arith)
            requires
                w * s == 0real,
                s != 0real,
        ;
    }
}

/// The sample half way moves from the sample towards what is predicted, by the step on the
/// logarithmic scale times half the first integral.
pub proof fn law_midpoint(
    sample: TensorView,
    denoised: TensorView,
    sigma: TensorView,
    next: TensorView,
    phi1_mid: Scalar,
    i: int,
    f: Functions,
)
    requires
        steppable(sample, denoised, sigma, next),
        0 <= i < sample.cells.len(),
    ensures
        ({
            let x = reals::value(sample.cells[i], f);
            let h = -(f.log)(level_value(next, f) / level_value(sigma, f));
            (reals::value(midpoint_of(sample, denoised, sigma, next, phi1_mid).cells[i], f) - x) * 2real == (
            reals::value(denoised.cells[i], f) - x) * h * reals::of_bits(phi1_mid)
        }),
{
    broadcast use reals::group_reading;
    lemma_single_levels(sigma, next, f);
    lemmas::lemma_single();
    reals::lemma_constants();
    let (x, d) = (reals::value(sample.cells[i], f), reals::value(denoised.cells[i], f));
    let step = log_step_of(sigma, next);
    let h = level_value(step, f);
    let weight = model::binary(BinOp::Times, model::number(HALF), model::number(phi1_mid));
    let p = reals::of_bits(phi1_mid);
    assert(level_value(weight, f) == 1real / 2real * p);
    assert(step.dims =~= Seq::<nat>::empty());
    let factor = model::binary(BinOp::Times, step, weight);
    assert(level_value(factor, f) == h * (1real / 2real * p));
    let xf = model::cast(sample, Dtype::F32);
    let delta = model::binary(BinOp::Minus, model::cast(denoised, Dtype::F32), xf);
    let moved = model::affine(delta, factor, model::number(ZERO));
    assert(reals::value(moved.cells[i], f) == (d - x) * (h * (1real / 2real * p)));
    assert((d - x) * (h * (1real / 2real * p)) * 2real == (d - x) * h * p) by (nonlinear_arith);
}

/// The logarithm of the noise level half way is that of the first one plus half of that of the ratio
/// of both.
#[verifier::rlimit(2)]
pub proof fn law_midpoint_sigma(sigma: TensorView, next: TensorView, f: Functions)
    requires
        sigma.rank() == 0 && sigma.wf() && next.rank() == 0 && next.wf(),
    ensures
        level_value(midpoint_sigma_of(sigma, next), f) == (f.exp)(
            (f.log)(level_value(sigma, f)) + (f.log)(level_value(next, f) / level_value(sigma, f)) * (1real / 2real),
        ),
{
    broadcast use reals::group_reading;
    lemma_single_levels(sigma, next, f);
    lemmas::lemma_single();
    reals::lemma_constants();
    let (s, n) = (level_value(sigma, f), level_value(next, f));
    let step = log_step_of(sigma, next);
    assert(step.dims =~= Seq::<nat>::empty());
    assert(sigma.dims =~= Seq::<nat>::empty());
    let half = model::binary(BinOp::Times, step, model::number(HALF));
    let log = model::unary(UnOp::Log, wide(sigma));
    let sum = model::binary(BinOp::Minus, log, half);
    let h = level_value(step, f);
    assert(level_value(half, f) == h * (1real / 2real));
    assert(level_value(log, f) == (f.log)(s));
    assert(level_value(sum, f) == (f.log)(s) - h * (1real / 2real));
}

/// With the same prediction at both stages, the second-order step moves towards it by the step on the
/// logarithmic scale times the first integral. Another prediction at the second stage moves the
/// result by its difference, times that step, times twice the second integral.
pub proof fn law_res2s_moved(
    sample: TensorView,
    stage1: TensorView,
    stage2: TensorView,
    sigma: TensorView,
    next: TensorView,
    weights: Res2sWeights,
    i: int,
    f: Functions,
)
    requires
        steppable(sample, stage1, sigma, next) && steppable(sample, stage2, sigma, next),
        0 <= i < sample.cells.len(),
    ensures
        ({
            let (x, a, b) = (
                reals::value(sample.cells[i], f),
                reals::value(stage1.cells[i], f),
                reals::value(stage2.cells[i], f),
            );
            let h = -(f.log)(level_value(next, f) / level_value(sigma, f));
            let same = reals::value(res2s_moved(sample, stage1, stage1, sigma, next, weights).cells[i], f);
            let other = reals::value(res2s_moved(sample, stage1, stage2, sigma, next, weights).cells[i], f);
            &&& same - x == (a - x) * h * reals::of_bits(weights.phi1)
            &&& other - same == (b - a) * h * 2real * reals::of_bits(weights.phi2)
        }),
{
    lemma_res2s_moved(sample, stage1, stage1, sigma, next, weights, i, f);
    lemma_res2s_moved(sample, stage1, stage2, sigma, next, weights, i, f);
    let (x, a, b) = (
        reals::value(sample.cells[i], f),
        reals::value(stage1.cells[i], f),
        reals::value(stage2.cells[i], f),
    );
    let h = -(f.log)(level_value(next, f) / level_value(sigma, f));
    let (p, q) = (reals::of_bits(weights.phi1), reals::of_bits(weights.phi2));
    assert(((a - x) * (p - 2real * q) + (a - x) * (2real * q)) * h == (a - x) * h * p) by (nonlinear_arith);
    assert(((a - x) * (p - 2real * q) + (b - x) * (2real * q)) * h - ((a - x) * (p - 2real * q) + (a - x) * (2real * q)) * h
        == (b - a) * h * 2real * q) by (nonlinear_arith);
}

proof fn lemma_res2s_moved(
    sample: TensorView,
    stage1: TensorView,
    stage2: TensorView,
    sigma: TensorView,
    next: TensorView,
    weights: Res2sWeights,
    i: int,
    f: Functions,
)
    requires
        steppable(sample, stage1, sigma, next) && steppable(sample, stage2, sigma, next),
        0 <= i < sample.cells.len(),
    ensures
        ({
            let (x, a, b) = (
                reals::value(sample.cells[i], f),
                reals::value(stage1.cells[i], f),
                reals::value(stage2.cells[i], f),
            );
            let h = -(f.log)(level_value(next, f) / level_value(sigma, f));
            let (p, q) = (reals::of_bits(weights.phi1), reals::of_bits(weights.phi2));
            reals::value(res2s_moved(sample, stage1, stage2, sigma, next, weights).cells[i], f) == x + ((a - x) * (p - 2real
                * q) + (b - x) * (2real * q)) * h
        }),
{
    broadcast use reals::group_reading;
    lemma_single_levels(sigma, next, f);
    lemmas::lemma_single();
    reals::lemma_constants();
    let (x, a, b) = (
        reals::value(sample.cells[i], f),
        reals::value(stage1.cells[i], f),
        reals::value(stage2.cells[i], f),
    );
    let (p, q) = (reals::of_bits(weights.phi1), reals::of_bits(weights.phi2));
    let step = log_step_of(sigma, next);
    let h = level_value(step, f);
    let w2 = model::binary(BinOp::Over, model::number(weights.phi2), model::number(HALF));
    assert(q / (1real / 2real) == 2real * q) by (nonlinear_arith);
    assert(level_value(w2, f) == 2real * q);
    let w1 = model::binary(BinOp::Minus, model::number(weights.phi1), w2);
    assert(level_value(w1, f) == p - 2real * q);
    let xf = model::cast(sample, Dtype::F32);
    let d1 = model::binary(BinOp::Minus, model::cast(stage1, Dtype::F32), xf);
    let d2 = model::binary(BinOp::Minus, model::cast(stage2, Dtype::F32), xf);
    let (s1, s2) = (model::affine(d1, w1, model::number(ZERO)), model::affine(d2, w2, model::number(ZERO)));
    assert(reals::value(s1.cells[i], f) == (a - x) * (p - 2real * q));
    assert(reals::value(s2.cells[i], f) == (b - x) * (2real * q));
    let both = model::binary(BinOp::Plus, s1, s2);
    assert(reals::value(both.cells[i], f) == (a - x) * (p - 2real * q) + (b - x) * (2real * q));
    let moved = model::affine(both, step, model::number(ZERO));
    assert(reals::value(moved.cells[i], f) == ((a - x) * (p - 2real * q) + (b - x) * (2real * q)) * h);
}

} // verus!
