//! Guidance: predictions moved away from those made under other conditions.
use vstd::prelude::*;

use crate::array::{self, Array};
use crate::error::Failure;
use crate::lemmas;
use crate::model::{self, BinOp, Dtype, RelOp, TensorView, UnOp};
use crate::nn::pixel_norm::PIXEL_NORM_EPS;
use crate::reals::{self, Functions};
use crate::scalar::{self, is_zero, Scalar, MINUS_ONE, ONE, ZERO};

verus! {

/// `scale - 1`.
pub open spec fn less_one(scale: Scalar) -> TensorView {
    model::affine(model::number(scale), model::number(ONE), model::number(MINUS_ONE))
}

/// `(cond - uncond) * (scale - 1)`.
pub open spec fn cfg_delta_of(cond: TensorView, uncond: TensorView, scale: Scalar) -> TensorView {
    model::affine(
        model::binary(BinOp::Minus, cond, uncond),
        less_one(scale),
        model::number(ZERO),
    )
}

/// Whether both are in main memory, with one shape and floating-point elements of one type.
pub open spec fn matching(a: &Array, b: &Array) -> bool {
    a.on_cpu() && b.on_cpu() && a@.dims == b@.dims && a@.dtype == b@.dtype && a@.dtype.float()
}

/// What guidance away from the unconditioned prediction adds to the conditioned one.
pub fn cfg_delta(cond: &Array, uncond: &Array, scale: Scalar) -> (r: Result<Array, Failure>)
    ensures
        r matches Ok(t) ==> t@ == cfg_delta_of(cond@, uncond@, scale) && t@.dims == cond@.dims,
        matching(cond, uncond) ==> r is Ok,
{
    let factor = Array::number(scale)?.shift(MINUS_ONE)?;
    cond.pairwise(BinOp::Minus, uncond)?.scale_by(&factor)
}

/// The conditioned prediction with what guidance adds to it.
pub fn apply_guidance(cond: &Array, delta: &Array) -> (r: Result<Array, Failure>)
    ensures
        r matches Ok(t) ==> t@ == model::binary(BinOp::Plus, cond@, delta@) && t@.dims == cond@.dims,
        matching(cond, delta) ==> r is Ok,
{
    cond.pairwise(BinOp::Plus, delta)
}

/// `pred + (cond - other) * factor` where there is another prediction to move away from.
pub open spec fn moved_away(
    pred: TensorView,
    cond: TensorView,
    other: Option<TensorView>,
    factor: TensorView,
    active: bool,
) -> TensorView {
    match other {
        Some(o) => if active {
            let difference = model::binary(BinOp::Minus, cond, model::cast(o, Dtype::F32));
            model::binary(BinOp::Plus, pred, model::affine(difference, factor, model::number(ZERO)))
        } else {
            pred
        },
        None => pred,
    }
}

/// Whether there is no other prediction, or one in main memory with the shape of `cond`.
pub open spec fn follows(other: Option<&Array>, cond: &Array) -> bool {
    other matches Some(o) ==> o.usable() && o@.dims == cond@.dims
}

fn move_away(pred: Array, cond: &Array, other: Option<&Array>, factor: &Array, active: bool) -> (r: Result<
    Array,
    Failure,
>)
    ensures
        r matches Ok(t) ==> t@ == moved_away(
            pred@,
            cond@,
            array::opt_ref_view(other),
            factor@,
            active,
        ),
        r matches Ok(t) ==> t@.dims == pred@.dims && t@.dtype == pred@.dtype && t.on_cpu() == pred.on_cpu(),
        matching(&pred, cond) && pred@.dtype == Dtype::F32 && follows(other, cond) && factor.single() ==> r is Ok,
{
    match other {
        Some(o) => {
            if active {
                let delta = cond.pairwise(BinOp::Minus, &o.to_dtype(Dtype::F32)?)?.scale_by(factor)?;
                pred.pairwise(BinOp::Plus, &delta)
            } else {
                Ok(pred)
            }
        },
        None => Ok(pred),
    }
}

/// The standard deviation of all elements, in double precision.
pub open spec fn std_of(x: TensorView) -> TensorView {
    let wide = model::cast(model::flatten(x), Dtype::F64);
    let mean = mean_of(wide);
    let centred = model::affine(wide, model::number(ONE), model::unary(UnOp::Neg, mean));
    model::unary(UnOp::Sqrt, mean_of(model::unary(UnOp::Sqr, centred)))
}

/// The mean along one axis: the sum times the reciprocal of the number of elements.
pub open spec fn mean_of(x: TensorView) -> TensorView {
    model::affine(
        model::sum(x, seq![0int]),
        model::unary(UnOp::Recip, model::count(x.dims[0])),
        model::number(ZERO),
    )
}

/// The sum of a list is a single number.
proof fn lemma_sum_single(x: TensorView)
    requires
        x.rank() == 1,
    ensures
        model::sum(x, seq![0int]).rank() == 0,
        model::sum(x, seq![0int]).dtype == x.dtype,
{
    reveal(model::sum);
    assert(seq![0int].drop_last() =~= Seq::<int>::empty());
    assert(model::without(x.dims.remove(0), seq![0int].drop_last()) == x.dims.remove(0));
}

fn mean_all(x: &Array) -> (r: Result<Array, Failure>)
    ensures
        r matches Ok(t) ==> t@ == mean_of(x@),
        x.on_cpu() && x@.rank() == 1 && x@.dtype == Dtype::F64 ==> (r matches Ok(t) && t.single()),
{
    proof {
        if x@.rank() == 1 {
            lemma_sum_single(x@);
        }
    }
    let n: usize = x.dim(0)?;
    x.sum1(0)?.scale_by(&Array::count(n)?.unary(UnOp::Recip)?)
}

/// The standard deviation of all elements.
pub fn std_scalar(x: &Array) -> (r: Result<Array, Failure>)
    ensures
        r matches Ok(t) ==> t@ == std_of(x@),
        x.usable() ==> (r matches Ok(t) && t.single()),
{
    let wide = x.flatten_all()?.to_dtype(Dtype::F64)?;
    let mean = mean_all(&wide)?;
    let centred = wide.affine(&Array::number(ONE)?, &mean.unary(UnOp::Neg)?)?;
    mean_all(&centred.unary(UnOp::Sqr)?)?.unary(UnOp::Sqrt)
}

/// `pred` with its standard deviation moved to that of `cond` by the share `rescale`. Where
/// `pred` hardly varies, it stays.
pub open spec fn rescaled_of(pred: TensorView, cond: TensorView, rescale: Scalar) -> TensorView {
    let varies = model::relation(RelOp::Gt, std_of(pred), model::number(PIXEL_NORM_EPS));
    let ratio = model::binary(BinOp::Over, std_of(cond), std_of(pred));
    let factor = model::binary(
        BinOp::Plus,
        model::binary(BinOp::Times, model::number(rescale), ratio),
        model::binary(BinOp::Minus, model::number(ONE), model::number(rescale)),
    );
    model::select(
        model::broadcast_to(varies, pred.dims),
        model::affine(pred, factor, model::number(ZERO)),
        pred,
    )
}

fn rescale(pred: Array, cond: &Array, rescale_scale: Scalar) -> (r: Result<Array, Failure>)
    ensures
        r matches Ok(t) ==> t@ == rescaled_of(pred@, cond@, rescale_scale),
        r matches Ok(t) ==> t@.dims == pred@.dims && t@.dtype == pred@.dtype && t.on_cpu() == pred.on_cpu(),
        matching(&pred, cond) ==> r is Ok,
{
    let cond_std = std_scalar(cond)?;
    let pred_std = std_scalar(&pred)?;
    let device = pred_std.device();
    let bound = Array::number(PIXEL_NORM_EPS)?.to_device(&device)?;
    proof {
        if pred_std@.rank() == 0 {
            lemmas::lemma_single_relation(RelOp::Gt, pred_std@, bound@);
        }
    }
    let varies = pred_std.relate(RelOp::Gt, &bound)?;
    let share = Array::number(rescale_scale)?.to_device(&device)?;
    let one = Array::number(ONE)?.to_device(&device)?;
    let ratio = cond_std.pairwise(BinOp::Over, &pred_std)?;
    let factor = share.pairwise(BinOp::Times, &ratio)?.pairwise(
        BinOp::Plus,
        &one.pairwise(BinOp::Minus, &share)?,
    )?;
    varies.choose_between(&pred.scale_by(&factor)?, &pred)
}

/// The scales of the three kinds of guidance, and the share of rescaling.
#[derive(Clone, Copy, PartialEq, Eq, Structural, Debug)]
pub struct GuidanceScales {
    pub cfg: Scalar,
    pub stg: Scalar,
    pub modality: Scalar,
    pub rescale: Scalar,
}

/// The prediction under guidance, in single precision, before it is rescaled.
pub open spec fn unscaled_of(
    cond: TensorView,
    text: Option<TensorView>,
    perturbed: Option<TensorView>,
    modality: Option<TensorView>,
    scales: GuidanceScales,
) -> TensorView {
    let c = model::cast(cond, Dtype::F32);
    let pred = moved_away(c, c, text, less_one(scales.cfg), scales.cfg != ONE);
    let pred = moved_away(pred, c, perturbed, model::number(scales.stg), !scalar::zero(scales.stg));
    moved_away(pred, c, modality, less_one(scales.modality), scales.modality != ONE)
}

/// `cond + (cfg - 1) * (cond - text) + stg * (cond - perturbed) + (mod - 1) * (cond - modality)`,
/// rescaled.
pub open spec fn guided_of(
    cond: TensorView,
    text: Option<TensorView>,
    perturbed: Option<TensorView>,
    modality: Option<TensorView>,
    scales: GuidanceScales,
) -> TensorView {
    let pred = unscaled_of(cond, text, perturbed, modality, scales);
    let pred = if scalar::zero(scales.rescale) {
        pred
    } else {
        rescaled_of(pred, model::cast(cond, Dtype::F32), scales.rescale)
    };
    model::cast(pred, cond.dtype)
}

/// The prediction under all kinds of guidance for which there is a prediction to move away
/// from.
pub fn multi_modal_guide(
    cond: &Array,
    uncond_text: Option<&Array>,
    uncond_perturbed: Option<&Array>,
    uncond_modality: Option<&Array>,
    cfg_scale: Scalar,
    stg_scale: Scalar,
    modality_scale: Scalar,
    rescale_scale: Scalar,
) -> (r: Result<Array, Failure>)
    ensures
        r matches Ok(t) ==> t@ == guided_of(
            cond@,
            array::opt_ref_view(uncond_text),
            array::opt_ref_view(uncond_perturbed),
            array::opt_ref_view(uncond_modality),
            (GuidanceScales { cfg: cfg_scale, stg: stg_scale, modality: modality_scale, rescale: rescale_scale }),
        ),
        r matches Ok(t) ==> t@.dims == cond@.dims,
        r matches Ok(t) ==> t@.dtype == cond@.dtype && t.on_cpu() == cond.on_cpu(),
        cond.usable() && follows(uncond_text, cond) && follows(uncond_perturbed, cond) && follows(
            uncond_modality,
            cond,
        ) ==> r is Ok,
{
    let c = cond.to_dtype(Dtype::F32)?;
    let cfg = Array::number(cfg_scale)?.shift(MINUS_ONE)?;
    let stg = Array::number(stg_scale)?;
    let modality = Array::number(modality_scale)?.shift(MINUS_ONE)?;
    let pred = move_away(c.clone(), &c, uncond_text, &cfg, cfg_scale != ONE)?;
    let pred = move_away(pred, &c, uncond_perturbed, &stg, !is_zero(stg_scale))?;
    let pred = move_away(pred, &c, uncond_modality, &modality, modality_scale != ONE)?;
    let pred = if is_zero(rescale_scale) {
        pred
    } else {
        rescale(pred, &c, rescale_scale)?
    };
    pred.to_dtype(cond.dtype())
}

/// With scales that turn guidance off the prediction stays, whatever there is to move away
/// from; so it does where there is nothing to move away from.
pub proof fn law_no_guidance(
    cond: TensorView,
    text: Option<TensorView>,
    perturbed: Option<TensorView>,
    modality: Option<TensorView>,
    scales: GuidanceScales,
)
    requires
        text is None || scales.cfg == ONE,
        perturbed is None || scalar::zero(scales.stg),
        modality is None || scales.modality == ONE,
        scalar::zero(scales.rescale),
    ensures
        guided_of(cond, text, perturbed, modality, scales) == model::cast(
            model::cast(cond, Dtype::F32),
            cond.dtype,
        ),
        cond.dtype == Dtype::F32 ==> guided_of(cond, text, perturbed, modality, scales) == cond,
{
}

/// `<a, b> / <b, b>`.
pub open spec fn projection_of(a: TensorView, b: TensorView) -> TensorView {
    let a = model::cast(model::flatten(a), Dtype::F64);
    let b = model::cast(model::flatten(b), Dtype::F64);
    let dot = model::sum(model::binary(BinOp::Times, a, b), seq![0int]);
    let norm = model::sum(model::binary(BinOp::Times, b, b), seq![0int]);
    model::binary(BinOp::Over, dot, norm)
}

/// How far one tensor reaches along another.
pub fn projection_coef(to_project: &Array, project_onto: &Array) -> (r: Result<Array, Failure>)
    ensures
        r matches Ok(t) ==> t@ == projection_of(to_project@, project_onto@),
        to_project.usable() && project_onto.usable() && model::numel(to_project@.dims) == model::numel(
            project_onto@.dims,
        ) ==> r is Ok,
{
    let a = to_project.flatten_all()?.to_dtype(Dtype::F64)?;
    let b = project_onto.flatten_all()?.to_dtype(Dtype::F64)?;
    proof {
        if a@.dims == b@.dims {
            lemmas::lemma_binary_dims(BinOp::Times, a@, b@);
            lemma_sum_single(model::binary(BinOp::Times, a@, b@));
        }
        lemmas::lemma_binary_dims(BinOp::Times, b@, b@);
        lemma_sum_single(model::binary(BinOp::Times, b@, b@));
    }
    let dot = a.pairwise(BinOp::Times, &b)?.sum1(0)?;
    let norm = b.pairwise(BinOp::Times, &b)?.sum1(0)?;
    dot.pairwise(BinOp::Over, &norm)
}

// Read over the real numbers.

/// Whether another prediction goes with `cond`.
pub open spec fn comparable(cond: TensorView, other: Option<TensorView>) -> bool {
    &&& cond.wf() && cond.dtype.float()
    &&& other matches Some(o) ==> o.wf() && o.dims == cond.dims
}

/// What a prediction adds to guidance: how far `cond` is from it, times `factor`.
spec fn pull(cond: TensorView, other: Option<TensorView>, factor: real, i: int, f: Functions) -> real {
    match other {
        Some(o) => (reals::value(cond.cells[i], f) - reals::value(o.cells[i], f)) * factor,
        None => 0real,
    }
}

proof fn lemma_moved_away(
    pred: TensorView,
    cond: TensorView,
    other: Option<TensorView>,
    factor: TensorView,
    active: bool,
    i: int,
    f: Functions,
)
    requires
        pred.wf() && pred.dims == cond.dims,
        comparable(cond, other),
        0 <= i < cond.cells.len(),
        !active ==> reals::value(factor.cells[0], f) == 0real,
    ensures
        moved_away(pred, cond, other, factor, active).wf(),
        moved_away(pred, cond, other, factor, active).dims == cond.dims,
        moved_away(pred, cond, other, factor, active).dtype == pred.dtype,
        reals::value(moved_away(pred, cond, other, factor, active).cells[i], f) == reals::value(pred.cells[i], f) + pull(
            cond,
            other,
            reals::value(factor.cells[0], f),
            i,
            f,
        ),
{
    broadcast use reals::group_reading;
    reals::lemma_constants();
    if let Some(o) = other {
        let x = reals::value(cond.cells[i], f) - reals::value(o.cells[i], f);
        assert(x * 0real == 0real) by (nonlinear_arith);
    }
}

proof fn lemma_unscaled(
    cond: TensorView,
    text: Option<TensorView>,
    perturbed: Option<TensorView>,
    modality: Option<TensorView>,
    scales: GuidanceScales,
    i: int,
    f: Functions,
)
    requires
        comparable(cond, text) && comparable(cond, perturbed) && comparable(cond, modality),
        0 <= i < cond.cells.len(),
    ensures
        reals::value(unscaled_of(cond, text, perturbed, modality, scales).cells[i], f) == reals::value(cond.cells[i], f)
            + pull(cond, text, reals::of_bits(scales.cfg) - 1real, i, f) + pull(
            cond,
            perturbed,
            reals::of_bits(scales.stg),
            i,
            f,
        ) + pull(cond, modality, reals::of_bits(scales.modality) - 1real, i, f),
        unscaled_of(cond, text, perturbed, modality, scales).wf(),
        unscaled_of(cond, text, perturbed, modality, scales).dims == cond.dims,
        unscaled_of(cond, text, perturbed, modality, scales).dtype == Dtype::F32,
{
    broadcast use reals::group_reading;
    reals::lemma_constants();
    let c = model::cast(cond, Dtype::F32);
    let (a, b, m) = (less_one(scales.cfg), model::number(scales.stg), less_one(scales.modality));
    let (x, y) = (reals::of_bits(scales.cfg), reals::of_bits(scales.modality));
    assert(x * 1real == x && y * 1real == y) by (nonlinear_arith);
    assert(reals::value(a.cells[0], f) == x - 1real);
    assert(reals::value(m.cells[0], f) == y - 1real);
    if scalar::zero(scales.stg) {
        reals::lemma_minus_zero();
    }
    let p1 = moved_away(c, c, text, a, scales.cfg != ONE);
    lemma_moved_away(c, c, text, a, scales.cfg != ONE, i, f);
    let p2 = moved_away(p1, c, perturbed, b, !scalar::zero(scales.stg));
    lemma_moved_away(p1, c, perturbed, b, !scalar::zero(scales.stg), i, f);
    lemma_moved_away(p2, c, modality, m, scales.modality != ONE, i, f);
}

/// Guidance by text alone multiplies the distance from the unconditioned prediction by its scale;
/// so does guidance by the other modality. Perturbation alone adds its scale times the distance from
/// the perturbed prediction.
pub proof fn law_guidance_moves_away(
    cond: TensorView,
    other: TensorView,
    scales: GuidanceScales,
    i: int,
    f: Functions,
)
    requires
        comparable(cond, Some(other)),
        0 <= i < cond.cells.len(),
        scalar::zero(scales.rescale),
    ensures
        ({
            let (c, o) = (reals::value(cond.cells[i], f), reals::value(other.cells[i], f));
            let by_text = reals::value(guided_of(cond, Some(other), None, None, scales).cells[i], f);
            let by_perturbation = reals::value(guided_of(cond, None, Some(other), None, scales).cells[i], f);
            let by_modality = reals::value(guided_of(cond, None, None, Some(other), scales).cells[i], f);
            &&& by_text - o == reals::of_bits(scales.cfg) * (c - o)
            &&& by_perturbation - c == reals::of_bits(scales.stg) * (c - o)
            &&& by_modality - o == reals::of_bits(scales.modality) * (c - o)
        }),
{
    broadcast use reals::group_reading;
    lemma_unscaled(cond, Some(other), None, None, scales, i, f);
    lemma_unscaled(cond, None, Some(other), None, scales, i, f);
    lemma_unscaled(cond, None, None, Some(other), scales, i, f);
    let (c, o) = (reals::value(cond.cells[i], f), reals::value(other.cells[i], f));
    let (x, y, z) = (reals::of_bits(scales.cfg), reals::of_bits(scales.stg), reals::of_bits(scales.modality));
    assert(c + (c - o) * (x - 1real) - o == x * (c - o) && (c - o) * y == y * (c - o) && c + (c - o) * (z - 1real) - o == z
        * (c - o)) by (nonlinear_arith);
}

/// Without rescaling, all kinds of guidance together move the prediction by the sum of what each of
/// them moves it by.
pub proof fn law_guidance_adds_up(
    cond: TensorView,
    text: TensorView,
    perturbed: TensorView,
    modality: TensorView,
    scales: GuidanceScales,
    i: int,
    f: Functions,
)
    requires
        comparable(cond, Some(text)) && comparable(cond, Some(perturbed)) && comparable(cond, Some(modality)),
        0 <= i < cond.cells.len(),
        scalar::zero(scales.rescale),
    ensures
        ({
            let c = reals::value(cond.cells[i], f);
            let all = reals::value(
                guided_of(cond, Some(text), Some(perturbed), Some(modality), scales).cells[i],
                f,
            );
            let by_text = reals::value(guided_of(cond, Some(text), None, None, scales).cells[i], f);
            let by_perturbation = reals::value(guided_of(cond, None, Some(perturbed), None, scales).cells[i], f);
            let by_modality = reals::value(guided_of(cond, None, None, Some(modality), scales).cells[i], f);
            all - c == (by_text - c) + (by_perturbation - c) + (by_modality - c)
        }),
{
    broadcast use reals::group_reading;
    lemma_unscaled(cond, Some(text), Some(perturbed), Some(modality), scales, i, f);
    lemma_unscaled(cond, Some(text), None, None, scales, i, f);
    lemma_unscaled(cond, None, Some(perturbed), None, scales, i, f);
    lemma_unscaled(cond, None, None, Some(modality), scales, i, f);
}

/// The delta of text guidance, added to the conditioned prediction, is guidance by text.
pub proof fn law_cfg_delta(cond: TensorView, uncond: TensorView, scales: GuidanceScales, i: int, f: Functions)
    requires
        comparable(cond, Some(uncond)),
        0 <= i < cond.cells.len(),
        scalar::zero(scales.rescale),
    ensures
        reals::value(model::binary(BinOp::Plus, cond, cfg_delta_of(cond, uncond, scales.cfg)).cells[i], f)
            == reals::value(guided_of(cond, Some(uncond), None, None, scales).cells[i], f),
{
    broadcast use reals::group_reading;
    reals::lemma_constants();
    lemma_unscaled(cond, Some(uncond), None, None, scales, i, f);
    let x = reals::of_bits(scales.cfg);
    assert(x * 1real == x) by (nonlinear_arith);
    assert(reals::value(less_one(scales.cfg).cells[0], f) == x - 1real);
    let difference = model::binary(BinOp::Minus, cond, uncond);
    assert(cfg_delta_of(cond, uncond, scales.cfg).wf());
    assert(cfg_delta_of(cond, uncond, scales.cfg).dims == cond.dims);
    assert(reals::value(cfg_delta_of(cond, uncond, scales.cfg).cells[i], f) == reals::value(difference.cells[i], f) * (x
        - 1real) + 0real);
}

proof fn lemma_mean(x: TensorView, f: Functions)
    requires
        x.wf() && x.rank() == 1,
    ensures
        mean_of(x).wf() && mean_of(x).dims == Seq::<nat>::empty(),
        reals::value(mean_of(x).cells[0], f) == reals::sum_to(
            x.dims[0] as int,
            |k: int| reals::value(x.cells[k], f),
        ) * (1real / x.dims[0] as int as real),
{
    broadcast use reals::group_reading;
    reals::lemma_constants();
    lemmas::lemma_single();
    reals::lemma_sum_at(x, f);
}

/// The mean of the elements.
pub open spec fn average(x: TensorView, f: Functions) -> real {
    reals::sum_to(model::numel(x.dims) as int, |k: int| reals::value(x.cells[k], f)) / model::numel(x.dims) as int as real
}

/// The square of the standard deviation, times the number of elements, is the sum of the squares of
/// their distances from their mean.
pub proof fn law_standard_deviation(x: TensorView, f: Functions)
    requires
        x.wf() && model::numel(x.dims) > 0,
        forall|v: real| v >= 0real ==> #[trigger] (f.sqrt)(v) * (f.sqrt)(v) == v,
    ensures
        std_of(x).wf() && std_of(x).dims == Seq::<nat>::empty(),
        reals::value(std_of(x).cells[0], f) * reals::value(std_of(x).cells[0], f) * model::numel(x.dims) as int as real
            == reals::sum_to(
            model::numel(x.dims) as int,
            |k: int|
                (reals::value(x.cells[k], f) - average(x, f)) * (reals::value(x.cells[k], f) - average(x, f)),
        ),
{
    broadcast use reals::group_reading;
    reals::lemma_constants();
    lemmas::lemma_single();
    let n = model::numel(x.dims);
    let flat = model::flatten(x);
    lemmas::lemma_numel1(n);
    let wide = model::cast(flat, Dtype::F64);
    lemma_mean(wide, f);
    let mean = mean_of(wide);
    let (g, h) = (|k: int| reals::value(wide.cells[k], f), |k: int| reals::value(x.cells[k], f));
    reals::lemma_sum_ext(n as int, g, h);
    reals::lemma_sum_ext(n as int, |k: int| reals::value(wide.cells[k], f), g);
    let total = reals::sum_to(n as int, h);
    let size = n as int as real;
    assert(total * (1real / size) == total / size) by (nonlinear_arith)
        requires
            size > 0real,
    ;
    let m = average(x, f);
    assert(reals::value(mean.cells[0], f) == m);
    let centred = model::affine(wide, model::number(ONE), model::unary(UnOp::Neg, mean));
    let square = model::unary(UnOp::Sqr, centred);
    lemma_mean(square, f);
    let p = |k: int| reals::value(square.cells[k], f);
    let q = |k: int| (reals::value(x.cells[k], f) - average(x, f)) * (reals::value(x.cells[k], f) - average(x, f));
    assert forall|k: int| 0 <= k < n implies #[trigger] p(k) == q(k) by {
        let v = reals::value(x.cells[k], f);
        assert(v * 1real == v) by (nonlinear_arith);
        assert(reals::value(centred.cells[k], f) == v - m);
    }
    reals::lemma_sum_ext(n as int, p, q);
    reals::lemma_sum_ext(n as int, |k: int| reals::value(square.cells[k], f), p);
    let sum = reals::sum_to(n as int, q);
    lemma_sum_of_squares(n as int, q, |k: int| reals::value(x.cells[k], f) - average(x, f));
    let v = sum * (1real / size);
    assert(v >= 0real && v * size == sum) by (nonlinear_arith)
        requires
            v == sum * (1real / size),
            size > 0real,
            sum >= 0real,
    ;
    assert(reals::value(std_of(x).cells[0], f) == (f.sqrt)(v));
}

proof fn lemma_sum_of_squares(n: int, q: spec_fn(int) -> real, r: spec_fn(int) -> real)
    requires
        forall|k: int| 0 <= k < n ==> #[trigger] q(k) == r(k) * r(k),
    ensures
        reals::sum_to(n, q) >= 0real,
    decreases n,
{
    if n > 0 {
        lemma_sum_of_squares(n - 1, q, r);
        let x = r(n - 1);
        assert(q(n - 1) == x * x);
        assert(x * x >= 0real) by (nonlinear_arith);
    }
}

/// Rescaling multiplies a prediction that varies so that its standard deviation moves to that of
/// `cond` by the share `rescale`; one that hardly varies stays.
pub proof fn law_rescaling(pred: TensorView, cond: TensorView, rescale: Scalar, i: int, f: Functions)
    requires
        pred.wf() && cond.wf() && pred.dims == cond.dims,
        0 <= i < pred.cells.len(),
        forall|v: real| v >= 0real ==> #[trigger] (f.sqrt)(v) * (f.sqrt)(v) == v,
        reals::of_bits(PIXEL_NORM_EPS) > 0real,
    ensures
        ({
            let (p, c) = (reals::value(std_of(pred).cells[0], f), reals::value(std_of(cond).cells[0], f));
            let (x, y) = (reals::value(pred.cells[i], f), reals::value(rescaled_of(pred, cond, rescale).cells[i], f));
            let r = reals::of_bits(rescale);
            &&& p > reals::of_bits(PIXEL_NORM_EPS) ==> y * p == x * (r * c + (1real - r) * p)
            &&& p <= reals::of_bits(PIXEL_NORM_EPS) ==> y == x
        }),
{
    broadcast use reals::group_reading;
    reals::lemma_constants();
    lemmas::lemma_single();
    law_standard_deviation(pred, f);
    law_standard_deviation(cond, f);
    let (sp, sc) = (std_of(pred), std_of(cond));
    let (p, c) = (reals::value(sp.cells[0], f), reals::value(sc.cells[0], f));
    let r = reals::of_bits(rescale);
    let ratio = model::binary(BinOp::Over, sc, sp);
    assert(reals::value(ratio.cells[0], f) == c / p);
    let share = model::binary(BinOp::Times, model::number(rescale), ratio);
    assert(reals::value(share.cells[0], f) == r * (c / p));
    let rest = model::binary(BinOp::Minus, model::number(ONE), model::number(rescale));
    assert(reals::value(rest.cells[0], f) == 1real - r);
    let factor = model::binary(BinOp::Plus, share, rest);
    assert(reals::value(factor.cells[0], f) == r * (c / p) + (1real - r));
    let bound = model::number(PIXEL_NORM_EPS);
    let varies = model::relation(RelOp::Gt, sp, bound);
    reveal(model::relation);
    reveal(model::broadcast_to);
    lemmas::lemma_unravel(pred.dims, i);
    let wide = model::broadcast_to(varies, pred.dims);
    assert(varies.dims =~= Seq::<nat>::empty());
    let o = model::unravel(pred.dims, i);
    assert(wide.cells[i] == varies.cells[0]);
    let (l, q) = (model::broadcast_to(sp, Seq::<nat>::empty()), model::broadcast_to(bound, Seq::<nat>::empty()));
    assert(l.cells[0] == sp.cells[0] && q.cells[0] == bound.cells[0]);
    assert(reals::value(varies.cells[0], f) == reals::relation_value(RelOp::Gt, p, reals::of_bits(PIXEL_NORM_EPS)));
    let x = reals::value(pred.cells[i], f);
    if p > reals::of_bits(PIXEL_NORM_EPS) {
        assert(x * (r * (c / p) + (1real - r)) * p == x * (r * c + (1real - r) * p)) by (nonlinear_arith)
            requires
                p > 0real,
        ;
    }
}

/// What is left of a tensor without its projection is orthogonal to what it is projected onto.
pub proof fn law_projection(a: TensorView, b: TensorView, f: Functions)
    requires
        a.wf() && b.wf() && model::numel(a.dims) == model::numel(b.dims),
        reals::sum_to(
            model::numel(b.dims) as int,
            |k: int| reals::value(b.cells[k], f) * reals::value(b.cells[k], f),
        ) != 0real,
    ensures
        reals::sum_to(
            model::numel(a.dims) as int,
            |k: int|
                (reals::value(a.cells[k], f) - reals::value(projection_of(a, b).cells[0], f) * reals::value(b.cells[k], f))
                    * reals::value(b.cells[k], f),
        ) == 0real,
{
    broadcast use reals::group_reading;
    let n = model::numel(a.dims);
    lemmas::lemma_numel1(n);
    lemmas::lemma_single();
    let (x, y) = (model::cast(model::flatten(a), Dtype::F64), model::cast(model::flatten(b), Dtype::F64));
    let (xy, yy) = (model::binary(BinOp::Times, x, y), model::binary(BinOp::Times, y, y));
    reals::lemma_sum_at(xy, f);
    reals::lemma_sum_at(yy, f);
    let g = |k: int| reals::value(a.cells[k], f) * reals::value(b.cells[k], f);
    let h = |k: int| reals::value(b.cells[k], f) * reals::value(b.cells[k], f);
    reals::lemma_sum_ext(n as int, |k: int| reals::value(xy.cells[k], f), g);
    reals::lemma_sum_ext(n as int, |k: int| reals::value(yy.cells[k], f), h);
    reals::lemma_sum_ext(n as int, |k: int| reals::value(b.cells[k], f) * reals::value(b.cells[k], f), h);
    let c = reals::value(projection_of(a, b).cells[0], f);
    let (dot, norm) = (reals::sum_to(n as int, g), reals::sum_to(n as int, h));
    assert(c == dot / norm);
    let taken = |k: int| (-c) * h(k);
    let left = |k: int|
        (reals::value(a.cells[k], f) - reals::value(projection_of(a, b).cells[0], f) * reals::value(b.cells[k], f))
            * reals::value(b.cells[k], f);
    assert forall|k: int| 0 <= k < n implies #[trigger] left(k) == g(k) + taken(k) by {
        let (u, v) = (reals::value(a.cells[k], f), reals::value(b.cells[k], f));
        assert((u - c * v) * v == u * v + (-c) * (v * v)) by (nonlinear_arith);
    }
    reals::lemma_sum_plus(n as int, g, taken, left);
    reals::lemma_sum_scale(n as int, h, taken, -c);
    assert(dot + (-c) * norm == 0real) by (nonlinear_arith)
        requires
            c == dot / norm,
            norm != 0real,
    ;
}

} // verus!
