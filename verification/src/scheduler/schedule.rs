//! The noise levels of a run.
//!
//! All of them are single numbers, from much noise to none, one more than there are steps.
use vstd::prelude::*;

use crate::array::{self, Array};
use crate::error::Failure;
use crate::lemmas;
use crate::model::{self, BinOp, Dtype, TensorView, UnOp};
use crate::reals::{self, Functions};
use crate::scalar::{self, exceeds, is_zero, Scalar, ONE, TWO, ZERO};

verus! {

/// 1024: the number of tokens for which the noise levels are shifted least.
pub const BASE_SHIFT_ANCHOR: Scalar = 0x4090_0000_0000_0000;

/// 3072: how many more tokens there are where they are shifted most.
pub const SHIFT_SPAN: Scalar = 0x40A8_0000_0000_0000;

/// The number of tokens that is taken where none is given.
pub const MAX_SHIFT_TOKENS: usize = 4096;

/// `a - b`, `a / b` and the like on single numbers.
fn combine(op: BinOp, a: &Array, b: &Array) -> (r: Result<Array, Failure>)
    ensures
        r matches Ok(t) ==> t@ == model::binary(op, a@, b@),
        r matches Ok(t) ==> a.single() && b.single() ==> t.single(),
        a.single() && b.single() ==> r is Ok,
{
    a.broadcast(op, b)
}

/// `1 - x`.
pub open spec fn complement(x: TensorView) -> TensorView {
    model::binary(BinOp::Minus, model::number(ONE), x)
}

fn one_minus(x: &Array) -> (r: Result<Array, Failure>)
    ensures
        r matches Ok(t) ==> t@ == complement(x@) && (x.single() ==> t.single()),
        x.single() ==> r is Ok,
{
    combine(BinOp::Minus, &Array::number(ONE)?, x)
}

/// `1 - i / steps`.
pub open spec fn linear_sigma(i: nat, steps: nat) -> TensorView {
    complement(model::binary(BinOp::Over, model::count(i), model::count(steps)))
}

/// How far the noise levels are shifted for a number of tokens: linear between the base
/// shift at 1024 tokens and the largest at 4096.
pub open spec fn shift_of(tokens: nat, max_shift: Scalar, base_shift: Scalar) -> TensorView {
    let slope = model::binary(
        BinOp::Over,
        model::binary(BinOp::Minus, model::number(max_shift), model::number(base_shift)),
        model::number(SHIFT_SPAN),
    );
    let offset = model::binary(
        BinOp::Minus,
        model::number(base_shift),
        model::binary(BinOp::Times, slope, model::number(BASE_SHIFT_ANCHOR)),
    );
    model::binary(BinOp::Plus, model::binary(BinOp::Times, model::count(tokens), slope), offset)
}

fn shift(tokens: usize, max_shift: Scalar, base_shift: Scalar) -> (r: Result<Array, Failure>)
    ensures
        r matches Ok(t) && t@ == shift_of(tokens as nat, max_shift, base_shift) && t.single(),
{
    let base = Array::number(base_shift)?;
    let span = combine(BinOp::Minus, &Array::number(max_shift)?, &base)?;
    let slope = combine(BinOp::Over, &span, &Array::number(SHIFT_SPAN)?)?;
    let rise = combine(BinOp::Times, &slope, &Array::number(BASE_SHIFT_ANCHOR)?)?;
    let offset = combine(BinOp::Minus, &base, &rise)?;
    combine(BinOp::Plus, &combine(BinOp::Times, &Array::count(tokens)?, &slope)?, &offset)
}

/// `e / (e + 1 / s - 1)` for a noise level `s` that is read as a number strictly between zero and
/// one; others stay.
pub open spec fn shifted(s: TensorView, e: TensorView, number: Scalar) -> TensorView {
    if scalar::above(number, ZERO) && scalar::above(ONE, number) {
        let rest = model::binary(
            BinOp::Minus,
            model::binary(BinOp::Over, model::number(ONE), s),
            model::number(ONE),
        );
        model::binary(BinOp::Over, e, model::binary(BinOp::Plus, e, rest))
    } else {
        s
    }
}

/// Shifts a noise level that is read as this number.
pub fn shift_level(s: Array, e: &Array, number: Scalar) -> (r: Result<Array, Failure>)
    ensures
        r matches Ok(t) ==> t@ == shifted(s@, e@, number),
        s.single() && e.single() ==> (r matches Ok(t) && t.single()),
{
    let one = Array::number(ONE)?;
    if exceeds(number, ZERO) && exceeds(ONE, number) {
        let rest = combine(BinOp::Minus, &combine(BinOp::Over, &one, &s)?, &one)?;
        combine(BinOp::Over, e, &combine(BinOp::Plus, e, &rest)?)
    } else {
        Ok(s)
    }
}

/// The numbers that are read while a schedule is made: the noise levels before the shift, those
/// behind it, and how far the last of them other than zero is from one.
pub ghost struct Readings {
    pub linear: Seq<Scalar>,
    pub shifted: Seq<Scalar>,
    pub rest: Scalar,
}

/// Whether each of these tensors can be read as the number beside it.
pub open spec fn read_as(levels: Seq<TensorView>, numbers: Seq<Scalar>) -> bool {
    &&& numbers.len() == levels.len()
    &&& forall|i: int| 0 <= i < levels.len() ==> array::can_read(levels[i], #[trigger] numbers[i])
}

/// The noise levels before the shift.
pub open spec fn linear_sigmas(steps: nat) -> Seq<TensorView> {
    Seq::new(steps + 1, |i: int| linear_sigma(i as nat, steps))
}

/// The noise levels after the shift.
pub open spec fn shifted_sigmas(steps: nat, e: TensorView, numbers: Seq<Scalar>) -> Seq<TensorView> {
    Seq::new(steps + 1, |i: int| shifted(linear_sigma(i as nat, steps), e, numbers[i]))
}

/// The last position below `n` whose number is not zero, or -1.
pub open spec fn last_nonzero(numbers: Seq<Scalar>, n: int) -> int
    decreases n,
{
    if n <= 0 {
        -1
    } else if !scalar::zero(numbers[n - 1]) {
        n - 1
    } else {
        last_nonzero(numbers, n - 1)
    }
}

/// The position is that of a noise level other than zero behind which all are zero, or there
/// is no other than zero.
pub proof fn law_last_nonzero(numbers: Seq<Scalar>, n: int)
    requires
        0 <= n <= numbers.len(),
    ensures
        ({
            let k = last_nonzero(numbers, n);
            &&& -1 <= k < n
            &&& k >= 0 ==> !scalar::zero(numbers[k])
            &&& forall|i: int| k < i < n ==> scalar::zero(#[trigger] numbers[i])
        }),
    decreases n,
{
    if n > 0 && scalar::zero(numbers[n - 1]) {
        law_last_nonzero(numbers, n - 1);
    }
}

/// By what the distances from one are divided so that the last noise level other than zero
/// comes to `terminal`.
pub open spec fn stretch_factor(last: TensorView, terminal: Scalar) -> TensorView {
    model::binary(BinOp::Over, complement(last), complement(model::number(terminal)))
}

/// The noise levels that are read as other than zero moved so that the last of them is `terminal`.
/// They stay where how far that one is from one, `rest`, is not read as above zero.
pub open spec fn stretched(
    sigmas: Seq<TensorView>,
    numbers: Seq<Scalar>,
    rest: Scalar,
    terminal: Scalar,
) -> Seq<TensorView> {
    let k = last_nonzero(numbers, sigmas.len() as int);
    if k >= 0 && scalar::above(rest, ZERO) {
        Seq::new(
            sigmas.len(),
            |i: int|
                if !scalar::zero(numbers[i]) {
                    complement(
                        model::binary(
                            BinOp::Over,
                            complement(sigmas[i]),
                            stretch_factor(sigmas[k], terminal),
                        ),
                    )
                } else {
                    sigmas[i]
                },
        )
    } else {
        sigmas
    }
}

/// Whether noise levels behind the shift can be read as these numbers.
pub open spec fn stretch_told(sigmas: Seq<TensorView>, read: Readings) -> bool {
    let k = last_nonzero(read.shifted, sigmas.len() as int);
    read_as(sigmas, read.shifted) && (k >= 0 ==> array::can_read(complement(sigmas[k]), read.rest))
}

/// By how much noise levels are shifted for a number of tokens.
pub open spec fn shift_exp(tokens: nat, max_shift: Scalar, base_shift: Scalar) -> TensorView {
    model::unary(UnOp::Exp, shift_of(tokens, max_shift, base_shift))
}

/// Whether these numbers can be read while a schedule is made.
pub open spec fn schedule_told(
    steps: nat,
    tokens: nat,
    max_shift: Scalar,
    base_shift: Scalar,
    stretch: bool,
    read: Readings,
) -> bool {
    let sigmas = shifted_sigmas(steps, shift_exp(tokens, max_shift, base_shift), read.linear);
    &&& read_as(linear_sigmas(steps), read.linear)
    &&& stretch ==> stretch_told(sigmas, read)
}

/// The noise levels of a run, in single precision, where these numbers are read on the way.
pub open spec fn schedule_of(
    steps: nat,
    tokens: nat,
    max_shift: Scalar,
    base_shift: Scalar,
    stretch: bool,
    terminal: Scalar,
    read: Readings,
) -> Seq<TensorView> {
    let sigmas = shifted_sigmas(steps, shift_exp(tokens, max_shift, base_shift), read.linear);
    let sigmas = if stretch {
        stretched(sigmas, read.shifted, read.rest, terminal)
    } else {
        sigmas
    };
    sigmas.map_values(|s: TensorView| model::cast(s, Dtype::F32))
}

/// Whether these can be the noise levels of a run.
pub open spec fn is_schedule(
    levels: Seq<TensorView>,
    steps: nat,
    tokens: nat,
    max_shift: Scalar,
    base_shift: Scalar,
    stretch: bool,
    terminal: Scalar,
) -> bool {
    exists|read: Readings| #[trigger]
        schedule_told(steps, tokens, max_shift, base_shift, stretch, read) && levels == schedule_of(
            steps,
            tokens,
            max_shift,
            base_shift,
            stretch,
            terminal,
            read,
        )
}

/// Noise levels that fall linearly, shifted by the number of tokens and stretched to a
/// smallest level.
pub fn maor_schedule(
    steps: usize,
    num_tokens: Option<usize>,
    max_shift: Scalar,
    base_shift: Scalar,
    stretch: bool,
    terminal: Scalar,
) -> (r: Result<Vec<Array>, Failure>)
    ensures
        r matches Ok(v) ==> is_schedule(
            array::views(v@),
            steps as nat,
            (if num_tokens is Some { num_tokens->0 } else { MAX_SHIFT_TOKENS }) as nat,
            max_shift,
            base_shift,
            stretch,
            terminal,
        ),
        r matches Ok(v) && v@.len() == steps + 1,
{
    let tokens: usize = match num_tokens {
        Some(n) => n,
        None => MAX_SHIFT_TOKENS,
    };
    let e = shift(tokens, max_shift, base_shift)?.unary(UnOp::Exp)?;
    let sigmas = shift_all(steps, &e)?;
    let ghost linear = choose|linear: Seq<Scalar>| #[trigger]
        read_as(linear_sigmas(steps as nat), linear) && array::views(sigmas@) == shifted_sigmas(
            steps as nat,
            e@,
            linear,
        );
    let ghost shifted = array::views(sigmas@);
    let ghost mut read = Readings { linear, shifted: Seq::empty(), rest: ZERO };
    let sigmas = if stretch {
        let moved = stretch_all(sigmas, terminal)?;
        proof {
            let told = choose|told: Readings| #[trigger]
                stretch_told(shifted, told) && array::views(moved@) == stretched(
                    shifted,
                    told.shifted,
                    told.rest,
                    terminal,
                );
            read = Readings { linear, ..told };
        }
        moved
    } else {
        sigmas
    };
    assert(schedule_told(steps as nat, tokens as nat, max_shift, base_shift, stretch, read));
    single_precision(&sigmas)
}

/// Whether all of these are single binary64 numbers in main memory.
pub open spec fn all_single(s: Seq<Array>) -> bool {
    forall|k: int| 0 <= k < s.len() ==> (#[trigger] s[k]).single()
}

fn shift_all(steps: usize, e: &Array) -> (r: Result<Vec<Array>, Failure>)
    requires
        e.single(),
    ensures
        r matches Ok(v) && all_single(v@) && exists|numbers: Seq<Scalar>| #[trigger]
            read_as(linear_sigmas(steps as nat), numbers) && array::views(v@) == shifted_sigmas(
                steps as nat,
                e@,
                numbers,
            ),
{
    let total = Array::count(steps)?;
    let mut sigmas: Vec<Array> = Vec::new();
    let ghost mut numbers: Seq<Scalar> = Seq::empty();
    let mut i: usize = 0;
    loop
        invariant_except_break
            sigmas@.len() == i && numbers.len() == i,
            all_single(sigmas@),
            forall|k: int|
                0 <= k < i ==> array::can_read(linear_sigma(k as nat, steps as nat), #[trigger] numbers[k]),
            forall|k: int|
                0 <= k < i ==> (#[trigger] sigmas@[k])@ == shifted(
                    linear_sigma(k as nat, steps as nat),
                    e@,
                    numbers[k],
                ),
        invariant
            i <= steps,
            e.single(),
            total@ == model::count(steps as nat),
            total.single(),
        ensures
            sigmas@.len() == steps + 1 && numbers.len() == steps + 1,
            all_single(sigmas@),
            forall|k: int|
                0 <= k <= steps ==> array::can_read(linear_sigma(k as nat, steps as nat), #[trigger] numbers[k]),
            forall|k: int|
                0 <= k <= steps ==> (#[trigger] sigmas@[k])@ == shifted(
                    linear_sigma(k as nat, steps as nat),
                    e@,
                    numbers[k],
                ),
        decreases steps - i,
    {
        let s = one_minus(&combine(BinOp::Over, &Array::count(i)?, &total)?)?;
        let number: Scalar = s.to_number()?;
        proof {
            numbers = numbers.push(number);
        }
        sigmas.push(shift_level(s, e, number)?);
        if i == steps {
            break;
        }
        i = i + 1;
    }
    proof {
        assert(array::views(sigmas@) =~= shifted_sigmas(steps as nat, e@, numbers));
        assert(read_as(linear_sigmas(steps as nat), numbers));
    }
    Ok(sigmas)
}

/// Reads noise levels.
fn read_all(sigmas: &Vec<Array>) -> (r: Result<Vec<Scalar>, Failure>)
    requires
        all_single(sigmas@),
    ensures
        r matches Ok(v) && read_as(array::views(sigmas@), v@),
{
    let mut out: Vec<Scalar> = Vec::new();
    let mut i: usize = 0;
    while i < sigmas.len()
        invariant
            i <= sigmas.len(),
            all_single(sigmas@),
            out@.len() == i,
            forall|k: int| 0 <= k < i ==> array::can_read(sigmas@[k]@, #[trigger] out@[k]),
        decreases sigmas.len() - i,
    {
        out.push(sigmas[i].to_number()?);
        i = i + 1;
    }
    Ok(out)
}

/// The position of the last number other than zero.
fn find_last_nonzero(numbers: &Vec<Scalar>) -> (r: Option<usize>)
    ensures
        r matches Some(k) ==> k == last_nonzero(numbers@, numbers.len() as int) && k < numbers.len(),
        r is None ==> last_nonzero(numbers@, numbers.len() as int) == -1,
{
    let mut n: usize = numbers.len();
    while n > 0
        invariant
            n <= numbers.len(),
            last_nonzero(numbers@, n as int) == last_nonzero(numbers@, numbers.len() as int),
        decreases n,
    {
        if !is_zero(numbers[n - 1]) {
            return Some(n - 1);
        }
        n = n - 1;
    }
    None
}

fn stretch_all(sigmas: Vec<Array>, terminal: Scalar) -> (r: Result<Vec<Array>, Failure>)
    requires
        all_single(sigmas@),
    ensures
        r matches Ok(v) && all_single(v@) && exists|read: Readings| #[trigger]
            stretch_told(array::views(sigmas@), read) && array::views(v@) == stretched(
                array::views(sigmas@),
                read.shifted,
                read.rest,
                terminal,
            ),
{
    let numbers = read_all(&sigmas)?;
    let rest: Scalar = match find_last_nonzero(&numbers) {
        Some(k) => {
            assert(array::views(sigmas@)[k as int] == sigmas@[k as int]@);
            one_minus(&sigmas[k])?.to_number()?
        },
        None => ZERO,
    };
    let ghost read = Readings { linear: Seq::empty(), shifted: numbers@, rest };
    assert(stretch_told(array::views(sigmas@), read));
    stretch_levels(sigmas, &numbers, rest, terminal)
}

/// Stretches noise levels that are read as these numbers, the last of them other than zero as far
/// from one as `rest`.
pub fn stretch_levels(sigmas: Vec<Array>, numbers: &Vec<Scalar>, rest: Scalar, terminal: Scalar) -> (r: Result<
    Vec<Array>,
    Failure,
>)
    requires
        numbers.len() == sigmas.len(),
    ensures
        r matches Ok(v) ==> array::views(v@) == stretched(
            array::views(sigmas@),
            numbers@,
            rest,
            terminal,
        ),
        all_single(sigmas@) ==> (r matches Ok(v) && all_single(v@)),
{
    let ghost views = array::views(sigmas@);
    let last: usize = match find_last_nonzero(numbers) {
        Some(k) => k,
        None => {
            return Ok(sigmas);
        },
    };
    if !exceeds(rest, ZERO) {
        return Ok(sigmas);
    }
    let ghost fine = all_single(sigmas@);
    assert(views[last as int] == sigmas@[last as int]@);
    let factor = combine(BinOp::Over, &one_minus(&sigmas[last])?, &one_minus(&Array::number(terminal)?)?)?;
    let mut out: Vec<Array> = Vec::new();
    let mut i: usize = 0;
    while i < sigmas.len()
        invariant
            i <= sigmas.len() == numbers.len(),
            out@.len() == i,
            fine == all_single(sigmas@),
            fine ==> factor.single() && all_single(out@),
            forall|k: int|
                0 <= k < i ==> (#[trigger] out@[k])@ == (if !scalar::zero(numbers@[k]) {
                    complement(model::binary(BinOp::Over, complement(sigmas@[k]@), factor@))
                } else {
                    sigmas@[k]@
                }),
        decreases sigmas.len() - i,
    {
        let s = &sigmas[i];
        if !is_zero(numbers[i]) {
            out.push(one_minus(&combine(BinOp::Over, &one_minus(s)?, &factor)?)?);
        } else {
            out.push(s.clone());
        }
        i = i + 1;
    }
    assert(array::views(out@) =~= stretched(views, numbers@, rest, terminal));
    Ok(out)
}

fn single_precision(sigmas: &Vec<Array>) -> (r: Result<Vec<Array>, Failure>)
    ensures
        r matches Ok(v) ==> array::views(v@) == array::views(sigmas@).map_values(
            |s: TensorView| model::cast(s, Dtype::F32),
        ) && v@.len() == sigmas@.len(),
        all_single(sigmas@) ==> r is Ok,
{
    let mut out: Vec<Array> = Vec::new();
    let mut i: usize = 0;
    while i < sigmas.len()
        invariant
            i <= sigmas.len(),
            out@.len() == i,
            forall|k: int| 0 <= k < i ==> (#[trigger] out@[k])@ == model::cast(sigmas@[k]@, Dtype::F32),
        decreases sigmas.len() - i,
    {
        out.push(sigmas[i].to_dtype(Dtype::F32)?);
        i = i + 1;
    }
    assert(array::views(out@) =~= array::views(sigmas@).map_values(
        |s: TensorView| model::cast(s, Dtype::F32),
    ));
    Ok(out)
}

// Linear, then quadratic.

/// `i * threshold / linear`.
pub open spec fn linear_part(i: nat, threshold: Scalar, linear: nat) -> TensorView {
    model::binary(
        BinOp::Over,
        model::binary(BinOp::Times, model::count(i), model::number(threshold)),
        model::count(linear),
    )
}

/// The three coefficients of the quadratic part, from that of the square down.
pub open spec fn coefficients(threshold: Scalar, linear: nat, steps: nat) -> (TensorView, TensorView, TensorView) {
    let squared = model::count(((steps - linear) * (steps - linear)) as nat);
    let ls = model::count(linear);
    let diff = model::binary(
        BinOp::Minus,
        ls,
        model::binary(BinOp::Times, model::number(threshold), model::count(steps)),
    );
    let a = model::binary(BinOp::Over, diff, model::binary(BinOp::Times, ls, squared));
    let b = model::binary(
        BinOp::Minus,
        model::binary(BinOp::Over, model::number(threshold), ls),
        model::binary(BinOp::Over, model::binary(BinOp::Times, model::number(TWO), diff), squared),
    );
    let c = model::binary(BinOp::Times, model::binary(BinOp::Times, a, ls), ls);
    (a, b, c)
}

/// `a * i * i + b * i + c`.
pub open spec fn quadratic_part(i: nat, coef: (TensorView, TensorView, TensorView)) -> TensorView {
    let x = model::count(i);
    let square = model::binary(BinOp::Times, model::binary(BinOp::Times, coef.0, x), x);
    let rise = model::binary(BinOp::Times, coef.1, x);
    model::binary(BinOp::Plus, model::binary(BinOp::Plus, square, rise), coef.2)
}

/// How much noise is gone at position `i` of `steps + 1`.
pub open spec fn progress(i: nat, threshold: Scalar, linear: nat, steps: nat) -> TensorView {
    if i >= steps {
        model::number(ONE)
    } else if i < linear {
        linear_part(i, threshold, linear)
    } else {
        quadratic_part(i, coefficients(threshold, linear, steps))
    }
}

/// The noise levels of a run, in single precision: `1, 0` for a single step.
pub open spec fn two_phases_of(steps: nat, threshold: Scalar, linear: nat) -> Seq<TensorView> {
    if steps == 1 {
        seq![
            model::cast(model::number(ONE), Dtype::F32),
            model::cast(model::number(ZERO), Dtype::F32),
        ]
    } else {
        Seq::new(
            steps + 1,
            |i: int| model::cast(complement(progress(i as nat, threshold, linear, steps)), Dtype::F32),
        )
    }
}

/// Whether the square of the number of quadratic steps can be counted.
pub open spec fn countable(linear: nat, steps: nat) -> bool {
    (steps - linear) * (steps - linear) <= usize::MAX
}

fn compute_coefficients(threshold: Scalar, linear: usize, steps: usize) -> (r: Result<(Array, Array, Array), Failure>)
    requires
        linear <= steps,
    ensures
        r matches Ok(c) ==> (c.0@, c.1@, c.2@) == coefficients(threshold, linear as nat, steps as nat),
        r matches Ok(c) ==> c.0.single() && c.1.single() && c.2.single(),
        r is Ok <==> countable(linear as nat, steps as nat),
        r matches Err(e) ==> e == Failure::Overflow,
{
    let quadratic: usize = steps - linear;
    let squared: usize = match quadratic.checked_mul(quadratic) {
        Some(n) => n,
        None => {
            return Err(Failure::Overflow);
        },
    };
    let squared = Array::count(squared)?;
    let ls = Array::count(linear)?;
    let threshold = Array::number(threshold)?;
    let product = combine(BinOp::Times, &threshold, &Array::count(steps)?)?;
    let diff = combine(BinOp::Minus, &ls, &product)?;
    let a = combine(BinOp::Over, &diff, &combine(BinOp::Times, &ls, &squared)?)?;
    let twice = combine(BinOp::Times, &Array::number(TWO)?, &diff)?;
    let b = combine(
        BinOp::Minus,
        &combine(BinOp::Over, &threshold, &ls)?,
        &combine(BinOp::Over, &twice, &squared)?,
    )?;
    let c = combine(BinOp::Times, &combine(BinOp::Times, &a, &ls)?, &ls)?;
    Ok((a, b, c))
}

fn compute_progress(i: usize, threshold: Scalar, linear: usize, steps: usize, coef: &(Array, Array, Array)) -> (r:
    Result<Array, Failure>)
    requires
        linear <= steps,
        (coef.0@, coef.1@, coef.2@) == coefficients(threshold, linear as nat, steps as nat),
    ensures
        r matches Ok(t) ==> t@ == progress(i as nat, threshold, linear as nat, steps as nat),
        coef.0.single() && coef.1.single() && coef.2.single() ==> (r matches Ok(t) && t.single()),
{
    if i >= steps {
        Array::number(ONE)
    } else if i < linear {
        let product = combine(BinOp::Times, &Array::count(i)?, &Array::number(threshold)?)?;
        combine(BinOp::Over, &product, &Array::count(linear)?)
    } else {
        let x = Array::count(i)?;
        let square = combine(BinOp::Times, &combine(BinOp::Times, &coef.0, &x)?, &x)?;
        let rise = combine(BinOp::Times, &coef.1, &x)?;
        combine(BinOp::Plus, &combine(BinOp::Plus, &square, &rise)?, &coef.2)
    }
}

/// Noise levels that fall linearly at first, by `threshold_noise` in all, then along a
/// parabola. Half of the steps are linear where nothing else is said.
pub fn linear_quadratic_schedule(steps: usize, threshold_noise: Scalar, linear_steps: Option<usize>) -> (r: Result<
    Vec<Array>,
    Failure,
>)
    requires
        steps == 1 || linear_steps is None || linear_steps->0 <= steps,
    ensures
        r matches Ok(v) ==> array::views(v@) == two_phases_of(
            steps as nat,
            threshold_noise,
            (if linear_steps is Some { linear_steps->0 } else { steps / 2 }) as nat,
        ),
        r matches Ok(v) ==> v@.len() == steps + 1,
        r is Ok <==> (steps == 1 || countable(
            (if linear_steps is Some { linear_steps->0 } else { steps / 2 }) as nat,
            steps as nat,
        )),
        r matches Err(e) ==> e == Failure::Overflow,
{
    if steps == 1 {
        let ends: Vec<Array> = vec![
            Array::number(ONE)?.to_dtype(Dtype::F32)?,
            Array::number(ZERO)?.to_dtype(Dtype::F32)?,
        ];
        assert(array::views(ends@) =~= two_phases_of(1, threshold_noise, 0));
        return Ok(ends);
    }
    let linear: usize = match linear_steps {
        Some(n) => n,
        None => steps / 2,
    };
    let coef = compute_coefficients(threshold_noise, linear, steps)?;
    let mut sigmas: Vec<Array> = Vec::new();
    let mut i: usize = 0;
    loop
        invariant_except_break
            sigmas@.len() == i,
            forall|k: int|
                0 <= k < i ==> (#[trigger] sigmas@[k])@ == model::cast(
                    complement(progress(k as nat, threshold_noise, linear as nat, steps as nat)),
                    Dtype::F32,
                ),
        invariant
            i <= steps,
            linear <= steps,
            (coef.0@, coef.1@, coef.2@) == coefficients(threshold_noise, linear as nat, steps as nat),
            coef.0.single() && coef.1.single() && coef.2.single(),
        ensures
            sigmas@.len() == steps + 1,
            forall|k: int|
                0 <= k <= steps ==> (#[trigger] sigmas@[k])@ == model::cast(
                    complement(progress(k as nat, threshold_noise, linear as nat, steps as nat)),
                    Dtype::F32,
                ),
        decreases steps - i,
    {
        let x = compute_progress(i, threshold_noise, linear, steps, &coef)?;
        sigmas.push(one_minus(&x)?.to_dtype(Dtype::F32)?);
        if i == steps {
            break;
        }
        i = i + 1;
    }
    assert(array::views(sigmas@) =~= two_phases_of(steps as nat, threshold_noise, linear as nat));
    Ok(sigmas)
}

// Read over the real numbers.

/// The value of a single number.
pub open spec fn real_of(t: TensorView, f: Functions) -> real {
    reals::value(t.cells[0], f)
}

/// Whether a function of real numbers is positive and rises.
pub open spec fn grows(g: spec_fn(real) -> real) -> bool {
    &&& forall|x: real| #[trigger] g(x) > 0real
    &&& forall|x: real, y: real| x < y ==> #[trigger] g(x) < #[trigger] g(y)
}

/// The shift is the base shift at 1024 tokens and the largest shift at 4096, and changes by the same
/// amount from each token to the next.
pub proof fn law_shift(tokens: nat, max_shift: Scalar, base_shift: Scalar, f: Functions)
    ensures
        real_of(shift_of(1024, max_shift, base_shift), f) == reals::of_bits(base_shift),
        real_of(shift_of(4096, max_shift, base_shift), f) == reals::of_bits(max_shift),
        (real_of(shift_of(tokens + 1, max_shift, base_shift), f) - real_of(
            shift_of(tokens, max_shift, base_shift),
            f,
        )) * 3072real == reals::of_bits(max_shift) - reals::of_bits(base_shift),
{
    lemma_shift(1024, max_shift, base_shift, f);
    lemma_shift(4096, max_shift, base_shift, f);
    lemma_shift(tokens, max_shift, base_shift, f);
    lemma_shift(tokens + 1, max_shift, base_shift, f);
    let m = (reals::of_bits(max_shift) - reals::of_bits(base_shift)) / 3072real;
    let x = tokens as int as real - 1024real;
    assert(m * (x + 1real) - m * x == m) by (nonlinear_arith);
    assert((tokens + 1) as int as real - 1024real == x + 1real);
}

proof fn lemma_shift(tokens: nat, max_shift: Scalar, base_shift: Scalar, f: Functions)
    ensures
        real_of(shift_of(tokens, max_shift, base_shift), f) == reals::of_bits(base_shift) + (reals::of_bits(
            max_shift,
        ) - reals::of_bits(base_shift)) / 3072real * (tokens as int as real - 1024real),
{
    broadcast use reals::group_reading;
    reals::lemma_constants();
    let (most, least) = (model::number(max_shift), model::number(base_shift));
    let span = model::binary(BinOp::Minus, most, least);
    let slope = model::binary(BinOp::Over, span, model::number(SHIFT_SPAN));
    let rise = model::binary(BinOp::Times, slope, model::number(BASE_SHIFT_ANCHOR));
    let offset = model::binary(BinOp::Minus, least, rise);
    let product = model::binary(BinOp::Times, model::count(tokens), slope);
    lemmas::lemma_single();
    let (a, b, t) = (reals::of_bits(max_shift), reals::of_bits(base_shift), tokens as int as real);
    assert(real_of(span, f) == a - b);
    let m = real_of(slope, f);
    assert(m == (a - b) / 3072real);
    assert(real_of(rise, f) == m * 1024real);
    assert(real_of(offset, f) == b - m * 1024real);
    assert(real_of(product, f) == t * m);
    assert(real_of(shift_of(tokens, max_shift, base_shift), f) == t * m + (b - m * 1024real));
    assert(t * m + (b - m * 1024real) == b + m * (t - 1024real)) by (nonlinear_arith);
}

/// More tokens mean a larger shift.
pub proof fn law_more_tokens_shift_more(a: nat, b: nat, max_shift: Scalar, base_shift: Scalar, f: Functions)
    requires
        a < b,
        reals::of_bits(base_shift) < reals::of_bits(max_shift),
    ensures
        real_of(shift_of(a, max_shift, base_shift), f) < real_of(shift_of(b, max_shift, base_shift), f),
{
    lemma_shift(a, max_shift, base_shift, f);
    lemma_shift(b, max_shift, base_shift, f);
    let m = (reals::of_bits(max_shift) - reals::of_bits(base_shift)) / 3072real;
    let (x, y) = (a as int as real - 1024real, b as int as real - 1024real);
    assert(m * x < m * y) by (nonlinear_arith)
        requires
            m > 0real,
            x < y,
    ;
}

/// Before the shift, the noise levels fall from one to zero in equal steps.
pub proof fn law_levels_fall_evenly(i: nat, steps: nat, f: Functions)
    requires
        i < steps,
    ensures
        real_of(linear_sigma(0, steps), f) == 1real,
        real_of(linear_sigma(steps, steps), f) == 0real,
        (real_of(linear_sigma(i, steps), f) - real_of(linear_sigma(i + 1, steps), f)) * steps as int as real
            == 1real,
{
    lemma_linear_sigma(0, steps, f);
    lemma_linear_sigma(steps, steps, f);
    lemma_linear_sigma(i, steps, f);
    lemma_linear_sigma(i + 1, steps, f);
    let (n, x) = (steps as int as real, i as int as real);
    assert((1real - x / n - (1real - (x + 1real) / n)) * n == 1real && n / n == 1real && 0real / n
        == 0real) by (nonlinear_arith)
        requires
            n > 0real,
    ;
}

proof fn lemma_linear_sigma(i: nat, steps: nat, f: Functions)
    requires
        steps > 0,
    ensures
        real_of(linear_sigma(i, steps), f) == 1real - i as int as real / steps as int as real,
        linear_sigma(i, steps).rank() == 0,
        linear_sigma(i, steps).wf(),
{
    broadcast use reals::group_reading;
    reals::lemma_constants();
    lemmas::lemma_single();
    let share = model::binary(BinOp::Over, model::count(i), model::count(steps));
    assert(real_of(share, f) == i as int as real / steps as int as real);
}

/// The shift multiplies the odds of noise against signal, which are `s : 1 - s` at noise level `s`,
/// by `e`. It keeps the noise level between zero and one, and leaves it where `e` is one.
pub proof fn law_shift_multiplies_odds(s: TensorView, e: TensorView, number: Scalar, f: Functions)
    requires
        s.rank() == 0 && s.wf() && e.rank() == 0 && e.wf(),
        scalar::above(number, ZERO) && scalar::above(ONE, number),
        (0real) < real_of(s, f) < (1real),
        real_of(e, f) > 0real,
    ensures
        ({
            let (x, y) = (real_of(s, f), real_of(shifted(s, e, number), f));
            &&& y * (1real - x) == real_of(e, f) * x * (1real - y)
            &&& (0real) < y < (1real)
            &&& real_of(e, f) == 1real ==> y == x
        }),
{
    lemma_shifted(s, e, number, f);
    let (x, g) = (real_of(s, f), real_of(e, f));
    let r = 1real / x - 1real;
    assert(r > 0real && (r + 1real) * x == 1real) by (nonlinear_arith)
        requires
            0real < x < 1real,
            r == 1real / x - 1real,
    ;
    let y = g / (g + r);
    assert(y * (g + r) == g && 0real < y && y < 1real) by (nonlinear_arith)
        requires
            g > 0real,
            r > 0real,
            y == g / (g + r),
    ;
    assert(1real - x == r * x) by (nonlinear_arith)
        requires
            (r + 1real) * x == 1real,
    ;
    assert(y * (r * x) == g * x * (1real - y)) by (nonlinear_arith)
        requires
            y * (g + r) == g,
    ;
    if g == 1real {
        assert(y == x) by (nonlinear_arith)
            requires
                y * (g + r) == g,
                g == 1real,
                (r + 1real) * x == 1real,
                r > 0real,
        ;
    }
}

proof fn lemma_shifted(s: TensorView, e: TensorView, number: Scalar, f: Functions)
    requires
        s.rank() == 0 && s.wf() && e.rank() == 0 && e.wf(),
        scalar::above(number, ZERO) && scalar::above(ONE, number),
    ensures
        real_of(shifted(s, e, number), f) == real_of(e, f) / (real_of(e, f) + (1real / real_of(s, f) - 1real)),
{
    broadcast use reals::group_reading;
    reals::lemma_constants();
    lemmas::lemma_single();
    assert(s.dims =~= Seq::<nat>::empty() && e.dims =~= Seq::<nat>::empty());
    let one = model::number(ONE);
    let inverse = model::binary(BinOp::Over, one, s);
    let rest = model::binary(BinOp::Minus, inverse, one);
    let below = model::binary(BinOp::Plus, e, rest);
    assert(real_of(inverse, f) == 1real / real_of(s, f));
    assert(real_of(rest, f) == 1real / real_of(s, f) - 1real);
    assert(real_of(below, f) == real_of(e, f) + real_of(rest, f));
}

/// More tokens mean higher noise levels between the ends.
pub proof fn law_more_tokens_more_noise(
    steps: nat,
    i: int,
    a: nat,
    b: nat,
    max_shift: Scalar,
    base_shift: Scalar,
    numbers: Seq<Scalar>,
    f: Functions,
)
    requires
        0 < i < steps,
        a < b,
        reals::of_bits(base_shift) < reals::of_bits(max_shift),
        grows(f.exp),
        scalar::above(numbers[i], ZERO) && scalar::above(ONE, numbers[i]),
    ensures
        real_of(shifted_sigmas(steps, shift_exp(a, max_shift, base_shift), numbers)[i], f) < real_of(
            shifted_sigmas(steps, shift_exp(b, max_shift, base_shift), numbers)[i],
            f,
        ),
{
    broadcast use reals::group_reading;
    lemmas::lemma_single();
    law_more_tokens_shift_more(a, b, max_shift, base_shift, f);
    let s = linear_sigma(i as nat, steps);
    lemma_linear_sigma(i as nat, steps, f);
    let (ea, eb) = (shift_exp(a, max_shift, base_shift), shift_exp(b, max_shift, base_shift));
    assert(shift_of(a, max_shift, base_shift).dims =~= Seq::<nat>::empty());
    assert(shift_of(b, max_shift, base_shift).dims =~= Seq::<nat>::empty());
    let (x, n) = (i as real, steps as int as real);
    assert(0real < 1real - x / n && 1real - x / n < 1real) by (nonlinear_arith)
        requires
            0real < x < n,
    ;
    lemma_shifted(s, ea, numbers[i], f);
    lemma_shifted(s, eb, numbers[i], f);
    let (g, h, v) = (real_of(ea, f), real_of(eb, f), real_of(s, f));
    assert(0real < g < h);
    let r = 1real / v - 1real;
    assert(r > 0real) by (nonlinear_arith)
        requires
            0real < v < 1real,
            r == 1real / v - 1real,
    ;
    let (y, z) = (g / (g + r), h / (h + r));
    assert(y * (g + r) == g && z * (h + r) == h) by (nonlinear_arith)
        requires
            0real < g,
            0real < h,
            r > 0real,
            y == g / (g + r),
            z == h / (h + r),
    ;
    assert(z > y) by (nonlinear_arith)
        requires
            y * (g + r) == g,
            z * (h + r) == h,
            0real < g < h,
            r > 0real,
    ;
}

/// The stretch brings the last noise level other than zero to `terminal` and divides the distances
/// of all of them from one by the same number.
pub proof fn law_stretch(
    sigmas: Seq<TensorView>,
    numbers: Seq<Scalar>,
    rest: Scalar,
    terminal: Scalar,
    i: int,
    f: Functions,
)
    requires
        numbers.len() == sigmas.len(),
        0 <= i < sigmas.len(),
        forall|j: int| 0 <= j < sigmas.len() ==> (#[trigger] sigmas[j]).rank() == 0 && sigmas[j].wf(),
        last_nonzero(numbers, sigmas.len() as int) >= 0,
        scalar::above(rest, ZERO),
        real_of(sigmas[last_nonzero(numbers, sigmas.len() as int)], f) != 1real,
        reals::of_bits(terminal) != 1real,
    ensures
        ({
            let k = last_nonzero(numbers, sigmas.len() as int);
            let out = stretched(sigmas, numbers, rest, terminal);
            &&& real_of(out[k], f) == reals::of_bits(terminal)
            &&& scalar::zero(numbers[i]) ==> real_of(out[i], f) == real_of(sigmas[i], f)
            &&& !scalar::zero(numbers[i]) ==> (1real - real_of(out[i], f)) * (1real - real_of(
                sigmas[k],
                f,
            )) == (1real - real_of(sigmas[i], f)) * (1real - reals::of_bits(terminal))
        }),
{
    law_last_nonzero(numbers, sigmas.len() as int);
    let k = last_nonzero(numbers, sigmas.len() as int);
    lemma_stretch(sigmas, numbers, rest, terminal, k, f);
    if !scalar::zero(numbers[i]) {
        lemma_stretch(sigmas, numbers, rest, terminal, i, f);
    }
    let (d, t, x) = (1real - real_of(sigmas[k], f), 1real - reals::of_bits(terminal), 1real - real_of(sigmas[i], f));
    assert(d / (d / t) == t && x / (d / t) * d == x * t) by (nonlinear_arith)
        requires
            d != 0real,
            t != 0real,
    ;
}

proof fn lemma_stretch(
    sigmas: Seq<TensorView>,
    numbers: Seq<Scalar>,
    rest: Scalar,
    terminal: Scalar,
    i: int,
    f: Functions,
)
    requires
        numbers.len() == sigmas.len(),
        0 <= i < sigmas.len(),
        forall|j: int| 0 <= j < sigmas.len() ==> (#[trigger] sigmas[j]).rank() == 0 && sigmas[j].wf(),
        0 <= last_nonzero(numbers, sigmas.len() as int) < sigmas.len(),
        scalar::above(rest, ZERO),
        !scalar::zero(numbers[i]),
    ensures
        ({
            let k = last_nonzero(numbers, sigmas.len() as int);
            real_of(stretched(sigmas, numbers, rest, terminal)[i], f) == 1real - (1real - real_of(sigmas[i], f))
                / ((1real - real_of(sigmas[k], f)) / (1real - reals::of_bits(terminal)))
        }),
{
    broadcast use reals::group_reading;
    reals::lemma_constants();
    lemmas::lemma_single();
    let k = last_nonzero(numbers, sigmas.len() as int);
    assert(sigmas[i].dims =~= Seq::<nat>::empty() && sigmas[k].dims =~= Seq::<nat>::empty());
    let factor = stretch_factor(sigmas[k], terminal);
    assert(real_of(complement(sigmas[k]), f) == 1real - real_of(sigmas[k], f));
    assert(real_of(complement(model::number(terminal)), f) == 1real - reals::of_bits(terminal));
    assert(real_of(factor, f) == (1real - real_of(sigmas[k], f)) / (1real - reals::of_bits(terminal)));
    let shared = model::binary(BinOp::Over, complement(sigmas[i]), factor);
    assert(real_of(complement(sigmas[i]), f) == 1real - real_of(sigmas[i], f));
    assert(real_of(shared, f) == (1real - real_of(sigmas[i], f)) / real_of(factor, f));
    assert(real_of(complement(shared), f) == 1real - real_of(shared, f));
}

/// The two phases: for the first `linear` steps the noise that is gone grows by the same amount at
/// each step, up to `threshold`. Behind them it exceeds the continuation of that line by a share of
/// what is missing there at the end, which grows as the square of the steps since.
pub proof fn law_two_phases(i: nat, threshold: Scalar, linear: nat, steps: nat, f: Functions)
    requires
        0 < linear < steps,
    ensures
        ({
            let gone = |j: nat| 1real - real_of(two_phases_of(steps, threshold, linear)[j as int], f);
            let (t, l, n) = (reals::of_bits(threshold), linear as int as real, steps as int as real);
            let x = i as int as real;
            &&& gone(0) == 0real
            &&& gone(linear) == t
            &&& gone(steps) == 1real
            &&& i < linear ==> gone(i) * l == t * x
            &&& linear <= i < steps ==> (gone(i) - t * x / l) * ((n - l) * (n - l)) == (1real - t * n / l) * ((x - l)
                * (x - l))
        }),
{
    lemma_phase(0, threshold, linear, steps, f);
    lemma_phase(linear, threshold, linear, steps, f);
    lemma_phase(steps, threshold, linear, steps, f);
    if i < steps {
        lemma_phase(i, threshold, linear, steps, f);
    }
    let (t, l, n, x) = (
        reals::of_bits(threshold),
        linear as int as real,
        steps as int as real,
        i as int as real,
    );
    assert(0real * t / l == 0real && x * t / l * l == t * x) by (nonlinear_arith)
        requires
            l > 0real,
    ;
    lemma_parabola(t, l, n, l);
    lemma_parabola(t, l, n, x);
    let (d, q) = (1real - t * n / l, (n - l) * (n - l));
    let p = quadratic_value(t, l, n, l);
    assert(t * l / l == t) by (nonlinear_arith)
        requires
            l > 0real,
    ;
    assert((l - l) * (l - l) == 0real) by (nonlinear_arith);
    assert(q > 0real) by (nonlinear_arith)
        requires
            q == (n - l) * (n - l),
            l < n,
    ;
    assert(p == t) by (nonlinear_arith)
        requires
            (p - t) * q == d * 0real,
            q > 0real,
    ;
}

/// The parabola at `x`.
spec fn quadratic_value(t: real, l: real, n: real, x: real) -> real {
    let q = (n - l) * (n - l);
    let d = l - t * n;
    let a = d / (l * q);
    let b = t / l - 2real * d / q;
    a * x * x + b * x + a * l * l
}

proof fn lemma_parabola(t: real, l: real, n: real, x: real)
    requires
        0real < l < n,
    ensures
        (quadratic_value(t, l, n, x) - t * x / l) * ((n - l) * (n - l)) == (1real - t * n / l) * ((x - l) * (x - l)),
{
    let q = (n - l) * (n - l);
    let d = l - t * n;
    let a = d / (l * q);
    let b = t / l - 2real * d / q;
    assert(q > 0real) by (nonlinear_arith)
        requires
            q == (n - l) * (n - l),
            l < n,
    ;
    let u = t / l;
    let w = d / q;
    assert(a * l == w) by (nonlinear_arith)
        requires
            a == d / (l * q),
            w == d / q,
            l > 0real,
            q > 0real,
    ;
    assert(2real * d / q == 2real * w && t * x / l == u * x && t * n / l == u * n && w * q == d && u * l == t)
        by (nonlinear_arith)
        requires
            w == d / q,
            u == t / l,
            q > 0real,
            l > 0real,
    ;
    let v = 1real - u * n;
    assert(v * l == d) by (nonlinear_arith)
        requires
            v == 1real - u * n,
            u * l == t,
            d == l - t * n,
    ;
    // a = v / q
    assert(a * q == v) by (nonlinear_arith)
        requires
            a * l == w,
            w * q == d,
            v * l == d,
            l > 0real,
    ;
    let y = a * x * x + (u - 2real * w) * x + a * l * l;
    assert(y - u * x == a * ((x - l) * (x - l))) by (nonlinear_arith)
        requires
            y == a * x * x + (u - 2real * w) * x + a * l * l,
            a * l == w,
    ;
    let z = (x - l) * (x - l);
    assert((a * z) * q == v * z) by (nonlinear_arith)
        requires
            a * q == v,
    ;
}

proof fn lemma_phase(i: nat, threshold: Scalar, linear: nat, steps: nat, f: Functions)
    requires
        0 < linear < steps,
        i <= steps,
    ensures
        ({
            let gone = 1real - real_of(two_phases_of(steps, threshold, linear)[i as int], f);
            let (t, l, n) = (reals::of_bits(threshold), linear as int as real, steps as int as real);
            let x = i as int as real;
            gone == (if i >= steps {
                1real
            } else if i < linear {
                x * t / l
            } else {
                quadratic_value(t, l, n, x)
            })
        }),
{
    broadcast use reals::group_reading;
    reals::lemma_constants();
    lemmas::lemma_single();
    let (t, l, n, x) = (
        reals::of_bits(threshold),
        linear as int as real,
        steps as int as real,
        i as int as real,
    );
    let square = ((steps - linear) * (steps - linear)) as nat;
    let q = (n - l) * (n - l);
    assert(square as int >= 0 && (steps - linear) * (steps - linear) >= 0) by (nonlinear_arith)
        requires
            steps > linear,
            square == ((steps - linear) * (steps - linear)) as nat,
    ;
    let gap = steps - linear;
    lemma_square(gap);
    assert(square as int as real == q);
    let number = model::number(threshold);
    let (squared, ls) = (model::count(square), model::count(linear));
    let product = model::binary(BinOp::Times, number, model::count(steps));
    assert(real_of(product, f) == t * n);
    let diff = model::binary(BinOp::Minus, ls, product);
    let d = l - t * n;
    assert(real_of(diff, f) == d);
    let (a, b, c) = coefficients(threshold, linear, steps);
    let below = model::binary(BinOp::Times, ls, squared);
    assert(real_of(below, f) == l * q);
    assert(real_of(a, f) == d / (l * q));
    let slope = model::binary(BinOp::Over, number, ls);
    assert(real_of(slope, f) == t / l);
    let twice = model::binary(BinOp::Times, model::number(TWO), diff);
    assert(real_of(twice, f) == 2real * d);
    let bend = model::binary(BinOp::Over, twice, squared);
    assert(real_of(bend, f) == 2real * d / q);
    assert(real_of(b, f) == t / l - 2real * d / q);
    let part = model::binary(BinOp::Times, a, ls);
    assert(real_of(part, f) == d / (l * q) * l);
    assert(real_of(c, f) == d / (l * q) * l * l);
    let step = model::count(i);
    let ax = model::binary(BinOp::Times, a, step);
    assert(real_of(ax, f) == d / (l * q) * x);
    let axx = model::binary(BinOp::Times, ax, step);
    assert(real_of(axx, f) == d / (l * q) * x * x);
    let bx = model::binary(BinOp::Times, b, step);
    assert(real_of(bx, f) == (t / l - 2real * d / q) * x);
    let both = model::binary(BinOp::Plus, axx, bx);
    assert(real_of(both, f) == real_of(axx, f) + real_of(bx, f));
    assert(real_of(quadratic_part(i, (a, b, c)), f) == quadratic_value(t, l, n, x));
    let done = model::binary(BinOp::Times, step, number);
    assert(real_of(done, f) == x * t);
    assert(real_of(linear_part(i, threshold, linear), f) == x * t / l);
    let p = progress(i, threshold, linear, steps);
    assert(p.dims =~= Seq::<nat>::empty());
    assert(p.wf());
    assert(real_of(complement(p), f) == 1real - real_of(p, f));
    assert(complement(p).cells.len() == 1);
}

/// The square of a whole number, read as a real number.
proof fn lemma_square(n: int)
    requires
        n >= 0,
    ensures
        (n * n) as real == n as real * n as real,
    decreases n,
{
    if n > 0 {
        lemma_square(n - 1);
        let m = n - 1;
        assert(n * n == m * m + 2 * m + 1) by (nonlinear_arith)
            requires
                n == m + 1,
        ;
        let x = m as real;
        assert((x + 1real) * (x + 1real) == x * x + 2real * x + 1real) by (nonlinear_arith);
    } else {
        assert(0real * 0real == 0real);
    }
}

} // verus!
