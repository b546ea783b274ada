//! Filters for resampling, tap by tap.
//!
//! Every number here is a tensor without axes in double precision; the taps of a filter are
//! in single precision.
use vstd::prelude::*;

use crate::array::{self, Array};
use crate::error::Failure;
use crate::lemmas;
use crate::model::{self, BinOp, Dtype, TensorView, UnOp};
use crate::scalar::{self, exceeds, is_zero, Scalar, HALF, ONE, PI, TWO, ZERO};

verus! {

/// 4
pub const FOUR: Scalar = 0x4010_0000_0000_0000;

/// 2.285
pub const ATTENUATION_SLOPE: Scalar = 0x4002_47AE_147A_E148;

/// 7.95
pub const ATTENUATION_BASE: Scalar = 0x401F_CCCC_CCCC_CCCD;

/// 50
pub const HIGH_ATTENUATION: Scalar = 0x4049_0000_0000_0000;

/// 21
pub const LOW_ATTENUATION: Scalar = 0x4035_0000_0000_0000;

/// 0.1102
pub const HIGH_SLOPE: Scalar = 0x3FBC_3611_3404_EA4B;

/// 8.7
pub const HIGH_OFFSET: Scalar = 0x4021_6666_6666_6666;

/// 0.5842
pub const LOW_FACTOR: Scalar = 0x3FE2_B1C4_32CA_57A8;

/// 0.4
pub const LOW_POWER: Scalar = 0x3FD9_9999_9999_999A;

/// 0.07886
pub const LOW_SLOPE: Scalar = 0x3FB4_302B_40F6_6A55;

/// 1e-14
pub const SETTLED: Scalar = 0x3D06_849B_86A1_2B9B;

/// 0.6
pub const TRANSITION: Scalar = 0x3FE3_3333_3333_3333;

/// 0.99
pub const ROLLOFF: Scalar = 0x3FEF_AE14_7AE1_47AE;

/// 6: the half width of the filter in samples.
pub const FILTER_WIDTH: Scalar = 0x4018_0000_0000_0000;

/// -6
pub const MINUS_FILTER_WIDTH: Scalar = 0xC018_0000_0000_0000;

/// The half width over the rolloff, rounded up.
pub const HANN_WIDTH: usize = 7;

pub open spec fn plus(a: TensorView, b: TensorView) -> TensorView {
    model::binary(BinOp::Plus, a, b)
}

pub open spec fn minus(a: TensorView, b: TensorView) -> TensorView {
    model::binary(BinOp::Minus, a, b)
}

pub open spec fn times(a: TensorView, b: TensorView) -> TensorView {
    model::binary(BinOp::Times, a, b)
}

pub open spec fn over(a: TensorView, b: TensorView) -> TensorView {
    model::binary(BinOp::Over, a, b)
}

/// The number without its sign.
pub open spec fn magnitude(x: TensorView) -> TensorView {
    model::binary(BinOp::Maximum, x, model::unary(UnOp::Neg, x))
}

fn absolute(x: &Array) -> (r: Result<Array, Failure>)
    ensures
        r matches Ok(t) ==> t@ == magnitude(x@),
        x.single() ==> (r matches Ok(t) && t.single()),
{
    x.broadcast(BinOp::Maximum, &x.unary(UnOp::Neg)?)
}

/// `sin(pi x) / (pi x)`, one where `x` is read as zero.
pub open spec fn sinc_of(x: TensorView, number: Scalar) -> TensorView {
    if scalar::zero(number) {
        model::number(ONE)
    } else {
        let angle = times(model::number(PI), x);
        over(model::unary(UnOp::Sin, angle), angle)
    }
}

/// Whether this can be `sin(pi x) / (pi x)`.
pub open spec fn is_sinc(x: TensorView, value: TensorView) -> bool {
    exists|number: Scalar| #[trigger] array::can_read(x, number) && value == sinc_of(x, number)
}

/// `sin(pi x) / (pi x)`, one at zero.
pub fn sinc(x: &Array) -> (r: Result<Array, Failure>)
    ensures
        r matches Ok(t) ==> is_sinc(x@, t@),
        x.single() ==> (r matches Ok(t) && t.single()),
{
    let number: Scalar = x.to_number()?;
    sinc_at(x, number)
}

/// `sin(pi x) / (pi x)` for an `x` that is read as this number.
pub fn sinc_at(x: &Array, number: Scalar) -> (r: Result<Array, Failure>)
    ensures
        r matches Ok(t) ==> t@ == sinc_of(x@, number),
        x.single() ==> (r matches Ok(t) && t.single()),
{
    if is_zero(number) {
        Array::number(ONE)
    } else {
        let angle = Array::number(PI)?.broadcast(BinOp::Times, x)?;
        angle.unary(UnOp::Sin)?.broadcast(BinOp::Over, &angle)
    }
}

/// Term `k` of the series of the modified Bessel function: `y^k / (k!)^2`.
pub open spec fn bessel_term(y: TensorView, k: nat) -> TensorView
    decreases k,
{
    if k == 0 {
        model::number(ONE)
    } else {
        times(
            bessel_term(y, (k - 1) as nat),
            over(y, times(model::count(k), model::count(k))),
        )
    }
}

/// The sum of the terms up to term `k`.
pub open spec fn bessel_sum(y: TensorView, k: nat) -> TensorView
    decreases k,
{
    if k == 0 {
        model::number(ONE)
    } else {
        plus(bessel_sum(y, (k - 1) as nat), bessel_term(y, k))
    }
}

/// Below what term `k` no longer matters.
pub open spec fn bessel_limit(y: TensorView, k: nat) -> TensorView {
    times(magnitude(bessel_sum(y, k)), model::number(SETTLED))
}

/// Whether term `k` can be told to no longer matter, or to matter still.
pub open spec fn told_settled(y: TensorView, k: nat, flag: bool) -> bool {
    exists|term: Scalar, limit: Scalar| #[trigger]
        array::can_read(magnitude(bessel_term(y, k)), term) && #[trigger] array::can_read(
            bessel_limit(y, k),
            limit,
        ) && flag == scalar::above(limit, term)
}

/// Whether term `k` can be the first that no longer matters. Term 50 is the last in any case.
pub open spec fn ends_at(y: TensorView, k: nat) -> bool {
    &&& 1 <= k <= 50
    &&& forall|j: nat| 1 <= j < k ==> #[trigger] told_settled(y, j, false)
    &&& k < 50 ==> told_settled(y, k, true)
}

/// Whether this can be the modified Bessel function of order zero, by its series.
pub open spec fn is_bessel(x: TensorView, value: TensorView) -> bool {
    let y = over(times(x, x), model::number(FOUR));
    exists|k: nat| #[trigger] ends_at(y, k) && value == bessel_sum(y, k)
}

/// The modified Bessel function of order zero.
pub fn bessel_i0(x: &Array) -> (r: Result<Array, Failure>)
    ensures
        r matches Ok(t) ==> is_bessel(x@, t@),
        x.single() ==> (r matches Ok(t) && t.single()),
{
    let y = x.broadcast(BinOp::Times, x)?.broadcast(BinOp::Over, &Array::number(FOUR)?)?;
    let bound = Array::number(SETTLED)?;
    let mut sum = Array::number(ONE)?;
    let mut term = Array::number(ONE)?;
    let mut k: usize = 1;
    loop
        invariant_except_break
            term@ == bessel_term(y@, (k - 1) as nat),
            sum@ == bessel_sum(y@, (k - 1) as nat),
        invariant
            1 <= k <= 50,
            bound@ == model::number(SETTLED),
            bound.single(),
            x.single() ==> y.single() && term.single() && sum.single(),
            forall|j: nat| 1 <= j < k ==> #[trigger] told_settled(y@, j, false),
        ensures
            ends_at(y@, k as nat),
            sum@ == bessel_sum(y@, k as nat),
        decreases 50 - k,
    {
        let n = Array::count(k)?;
        let square = n.broadcast(BinOp::Times, &n)?;
        term = term.broadcast(BinOp::Times, &y.broadcast(BinOp::Over, &square)?)?;
        sum = sum.broadcast(BinOp::Plus, &term)?;
        let limit: Scalar = absolute(&sum)?.broadcast(BinOp::Times, &bound)?.to_number()?;
        let size: Scalar = absolute(&term)?.to_number()?;
        let small: bool = exceeds(limit, size);
        assert(array::can_read(magnitude(bessel_term(y@, k as nat)), size));
        assert(array::can_read(bessel_limit(y@, k as nat), limit));
        assert(told_settled(y@, k as nat, small));
        if k >= 50 || small {
            break;
        }
        k = k + 1;
    }
    Ok(sum)
}

/// How much a filter attenuates: `2.285 (half - 1) pi * 4 w + 7.95`.
pub open spec fn attenuation_of(half_width: TensorView, half_size: nat) -> TensorView {
    let delta = times(model::number(FOUR), half_width);
    let taps = minus(model::count(half_size), model::number(ONE));
    let slope = times(times(model::number(ATTENUATION_SLOPE), taps), model::number(PI));
    plus(times(slope, delta), model::number(ATTENUATION_BASE))
}

/// The shape of the window for an attenuation that is read as this number.
pub open spec fn beta_of(a: TensorView, number: Scalar) -> TensorView {
    if scalar::above(number, HIGH_ATTENUATION) {
        times(model::number(HIGH_SLOPE), minus(a, model::number(HIGH_OFFSET)))
    } else if scalar::above(number, LOW_ATTENUATION) || number == LOW_ATTENUATION {
        let excess = minus(a, model::number(LOW_ATTENUATION));
        plus(
            times(model::number(LOW_FACTOR), model::powf(excess, model::number(LOW_POWER))),
            times(model::number(LOW_SLOPE), excess),
        )
    } else {
        model::number(ZERO)
    }
}

/// Whether this can be the shape of the window for an attenuation.
pub open spec fn is_beta(a: TensorView, value: TensorView) -> bool {
    exists|number: Scalar| #[trigger] array::can_read(a, number) && value == beta_of(a, number)
}

fn attenuation(half_width: &Array, half_size: usize) -> (r: Result<Array, Failure>)
    ensures
        r matches Ok(t) ==> t@ == attenuation_of(half_width@, half_size as nat),
        half_width.single() ==> (r matches Ok(t) && t.single()),
{
    let delta = Array::number(FOUR)?.broadcast(BinOp::Times, half_width)?;
    let taps = Array::count(half_size)?.broadcast(BinOp::Minus, &Array::number(ONE)?)?;
    let slope = Array::number(ATTENUATION_SLOPE)?.broadcast(BinOp::Times, &taps)?.broadcast(
        BinOp::Times,
        &Array::number(PI)?,
    )?;
    slope.broadcast(BinOp::Times, &delta)?.broadcast(BinOp::Plus, &Array::number(ATTENUATION_BASE)?)
}

fn beta(a: &Array) -> (r: Result<Array, Failure>)
    ensures
        r matches Ok(t) ==> is_beta(a@, t@),
        a.single() ==> (r matches Ok(t) && t.single()),
{
    let number: Scalar = a.to_number()?;
    beta_at(a, number)
}

/// The shape of the window for an attenuation that is read as this number.
pub fn beta_at(a: &Array, number: Scalar) -> (r: Result<Array, Failure>)
    ensures
        r matches Ok(t) ==> t@ == beta_of(a@, number),
        a.single() ==> (r matches Ok(t) && t.single()),
{
    if exceeds(number, HIGH_ATTENUATION) {
        let excess = a.broadcast(BinOp::Minus, &Array::number(HIGH_OFFSET)?)?;
        return Array::number(HIGH_SLOPE)?.broadcast(BinOp::Times, &excess);
    }
    if exceeds(number, LOW_ATTENUATION) || number == LOW_ATTENUATION {
        let excess = a.broadcast(BinOp::Minus, &Array::number(LOW_ATTENUATION)?)?;
        let curved = Array::number(LOW_FACTOR)?.broadcast(
            BinOp::Times,
            &excess.powf(&Array::number(LOW_POWER)?)?,
        )?;
        let straight = Array::number(LOW_SLOPE)?.broadcast(BinOp::Times, &excess)?;
        return curved.broadcast(BinOp::Plus, &straight);
    }
    Array::number(ZERO)
}

/// Where tap `n` lies between the ends of the window, from -1 to 1.
pub open spec fn window_place(n: nat, kernel_size: nat) -> TensorView {
    if kernel_size > 1 {
        minus(
            over(times(model::number(TWO), model::count(n)), model::count((kernel_size - 1) as nat)),
            model::number(ONE),
        )
    } else {
        model::number(ZERO)
    }
}

/// How far from its end the Kaiser window is at tap `n`, times its shape.
pub open spec fn window_argument(beta: TensorView, n: nat, kernel_size: nat) -> TensorView {
    let r = window_place(n, kernel_size);
    let inside = model::binary(BinOp::Maximum, minus(model::number(ONE), times(r, r)), model::number(ZERO));
    times(beta, model::unary(UnOp::Sqrt, inside))
}

/// Whether this can be the Kaiser window at tap `n`, where `beta_i0` is the Bessel function at
/// `beta`.
pub open spec fn is_window(
    beta: TensorView,
    beta_i0: TensorView,
    n: nat,
    kernel_size: nat,
    value: TensorView,
) -> bool {
    exists|inside: TensorView| #[trigger]
        is_bessel(window_argument(beta, n, kernel_size), inside) && value == over(inside, beta_i0)
}

/// The time of tap `n`, in samples from the middle.
pub open spec fn tap_time(n: nat, kernel_size: nat) -> TensorView {
    let whole = minus(model::count(n), model::count(kernel_size / 2));
    if kernel_size % 2 == 0 {
        plus(whole, model::number(HALF))
    } else {
        whole
    }
}

/// Tap `n` before the filter is normalised: `2 c w sinc(2 c t)`.
pub open spec fn tap_of(cutoff: TensorView, window: TensorView, sinc: TensorView) -> TensorView {
    times(times(times(model::number(TWO), cutoff), window), sinc)
}

/// Whether this can be tap `n` before the filter is normalised. The taps of a filter whose cutoff
/// is read as zero are zero.
pub open spec fn is_tap(
    cutoff: TensorView,
    closed: bool,
    beta: TensorView,
    beta_i0: TensorView,
    n: nat,
    kernel_size: nat,
    value: TensorView,
) -> bool {
    if closed {
        value == model::number(ZERO)
    } else {
        exists|window: TensorView, sinc: TensorView| #[trigger]
            is_window(beta, beta_i0, n, kernel_size, window) && #[trigger] is_sinc(
                times(times(model::number(TWO), cutoff), tap_time(n, kernel_size)),
                sinc,
            ) && value == tap_of(cutoff, window, sinc)
    }
}

fn window(beta: &Array, beta_i0: &Array, n: usize, kernel_size: usize) -> (r: Result<Array, Failure>)
    ensures
        r matches Ok(t) ==> is_window(beta@, beta_i0@, n as nat, kernel_size as nat, t@),
        beta.single() && beta_i0.single() ==> (r matches Ok(t) && t.single()),
{
    let one = Array::number(ONE)?;
    let zero = Array::number(ZERO)?;
    let place = if kernel_size > 1 {
        Array::number(TWO)?.broadcast(BinOp::Times, &Array::count(n)?)?.broadcast(
            BinOp::Over,
            &Array::count(kernel_size - 1)?,
        )?.broadcast(BinOp::Minus, &one)?
    } else {
        Array::number(ZERO)?
    };
    let inside = one.broadcast(BinOp::Minus, &place.broadcast(BinOp::Times, &place)?)?.broadcast(
        BinOp::Maximum,
        &zero,
    )?;
    let x = beta.broadcast(BinOp::Times, &inside.unary(UnOp::Sqrt)?)?;
    bessel_i0(&x)?.broadcast(BinOp::Over, beta_i0)
}

fn time_of_tap(n: usize, kernel_size: usize) -> (r: Result<Array, Failure>)
    ensures
        r matches Ok(t) && t@ == tap_time(n as nat, kernel_size as nat) && t.single(),
{
    let whole = Array::count(n)?.broadcast(BinOp::Minus, &Array::count(kernel_size / 2)?)?;
    if kernel_size % 2 == 0 {
        whole.broadcast(BinOp::Plus, &Array::number(HALF)?)
    } else {
        Ok(whole)
    }
}

fn tap(
    cutoff: &Array,
    closed: bool,
    beta: &Array,
    beta_i0: &Array,
    n: usize,
    kernel_size: usize,
) -> (r: Result<Array, Failure>)
    ensures
        r matches Ok(t) ==> is_tap(
            cutoff@,
            closed,
            beta@,
            beta_i0@,
            n as nat,
            kernel_size as nat,
            t@,
        ),
        cutoff.single() && beta.single() && beta_i0.single() ==> (r matches Ok(t) && t.single()),
{
    if closed {
        return Array::number(ZERO);
    }
    let double = Array::number(TWO)?.broadcast(BinOp::Times, cutoff)?;
    let shape = window(beta, beta_i0, n, kernel_size)?;
    let angle = double.broadcast(BinOp::Times, &time_of_tap(n, kernel_size)?)?;
    double.broadcast(BinOp::Times, &shape)?.broadcast(BinOp::Times, &sinc(&angle)?)
}

/// The sum of the first `n` numbers, from the first on.
pub open spec fn total(values: Seq<TensorView>, n: nat) -> TensorView
    decreases n,
{
    if n == 0 {
        model::number(ZERO)
    } else {
        plus(total(values, (n - 1) as nat), values[n - 1])
    }
}

/// What is computed and read for all taps alike: whether the cutoff is read as zero, the shape of
/// the window and the Bessel function there.
pub ghost struct Design {
    pub closed: bool,
    pub beta: TensorView,
    pub beta_i0: TensorView,
}

/// Whether a filter can be designed like this.
pub open spec fn is_design(cutoff: TensorView, half_width: TensorView, kernel_size: nat, d: Design) -> bool {
    &&& is_beta(attenuation_of(half_width, kernel_size / 2), d.beta)
    &&& is_bessel(d.beta, d.beta_i0)
    &&& exists|number: Scalar| #[trigger] array::can_read(cutoff, number) && d.closed == scalar::zero(number)
}

/// Whether these can be the taps of such a filter before they are normalised.
pub open spec fn is_taps(cutoff: TensorView, kernel_size: nat, d: Design, taps: Seq<TensorView>) -> bool {
    &&& taps.len() == kernel_size
    &&& forall|n: int|
        0 <= n < kernel_size ==> is_tap(
            cutoff,
            d.closed,
            d.beta,
            d.beta_i0,
            n as nat,
            kernel_size,
            #[trigger] taps[n],
        )
}

/// A filter of these taps: `(1, 1, n)`.
pub open spec fn filter_of_taps(taps: Seq<TensorView>) -> TensorView {
    if taps.len() == 0 {
        model::zeros(seq![1, 1, 0], Dtype::F32)
    } else {
        model::reshape(model::stack(taps, 0), seq![1, 1, taps.len()])
    }
}

/// A filter of these taps over their sum.
pub open spec fn normalised(raw: Seq<TensorView>) -> TensorView {
    let sum = total(raw, raw.len());
    filter_of_taps(raw.map_values(|v: TensorView| model::cast(over(v, sum), Dtype::F32)))
}

/// Whether this can be a Kaiser-windowed sinc filter whose sum is one.
pub open spec fn is_kaiser(
    cutoff: TensorView,
    half_width: TensorView,
    kernel_size: nat,
    filter: TensorView,
) -> bool {
    exists|d: Design, raw: Seq<TensorView>|
        is_design(cutoff, half_width, kernel_size, d) && #[trigger] is_taps(cutoff, kernel_size, d, raw)
            && filter == normalised(raw)
}

/// Whether this is a single number in single precision in main memory.
spec fn single_tap(t: Array) -> bool {
    t.on_cpu() && t@.rank() == 0 && t@.dtype == Dtype::F32
}

/// A filter of `n` taps can be addressed where the taps can.
proof fn lemma_filter_fits(n: nat)
    ensures
        model::fits(seq![1, 1, n]) == model::fits(seq![n]),
        model::numel(seq![1, 1, n]) == n,
        model::numel(seq![n]) == n,
{
    lemmas::lemma_numel1(n);
    lemmas::lemma_extent1(n);
    lemmas::lemma_numel1(1);
    lemmas::lemma_extent1(1);
    let s: Seq<nat> = seq![1, 1, n];
    let m: nat = if n == 0 { 1 } else { n };
    assert(s.drop_last() =~= seq![1nat, 1]);
    assert(seq![1nat, 1].drop_last() =~= seq![1nat]);
    let pair: Seq<nat> = seq![1, 1];
    let (e1, n1) = (model::extent(pair.drop_last()), model::numel(pair.drop_last()));
    assert(e1 * 1 == 1 && n1 * 1 == 1);
    assert(pair.last() == 1);
    assert(model::extent(pair) == 1 && model::numel(pair) == 1);
    let (e2, n2) = (model::extent(s.drop_last()), model::numel(s.drop_last()));
    assert(e2 * m == m && n2 * n == n) by (nonlinear_arith)
        requires
            e2 == 1,
            n2 == 1,
    ;
    assert(s.last() == n);
}

fn stack_taps(taps: &Vec<Array>) -> (r: Result<Array, Failure>)
    ensures
        r matches Ok(t) ==> t@ == filter_of_taps(array::views(taps@)),
        model::fits(seq![taps.len() as nat]) && (forall|k: int|
            0 <= k < taps.len() ==> single_tap(#[trigger] taps@[k])) ==> r is Ok,
{
    proof {
        lemma_filter_fits(taps.len() as nat);
        if taps.len() > 0 {
            assert(Seq::<nat>::empty().insert(0, taps.len() as nat) =~= seq![taps.len() as nat]);
            if forall|k: int| 0 <= k < taps.len() ==> single_tap(#[trigger] taps@[k]) {
                assert(single_tap(taps@[0]));
                assert forall|k: int| 0 <= k < taps.len() implies (#[trigger] taps@[k]).on_cpu() && taps@[k]@.dtype
                    == Dtype::F32 && taps@[k]@.dims == Seq::<nat>::empty() by {
                    assert(single_tap(taps@[k]));
                    assert(taps@[k]@.dims =~= Seq::<nat>::empty());
                }
            }
        }
    }
    if taps.len() == 0 {
        let dims: Vec<usize> = vec![1, 1, 0];
        assert(model::nats(dims@) =~= seq![1, 1, 0]);
        return Array::zeros(&dims, Dtype::F32, &array::main_memory());
    }
    Array::stack(taps, 0)?.reshape3(1, 1, taps.len())
}

/// A low-pass filter: the sinc function under a Kaiser window, with sum one.
pub fn kaiser_sinc_filter1d(cutoff: &Array, half_width: &Array, kernel_size: usize) -> (r: Result<Array, Failure>)
    ensures
        r matches Ok(t) ==> is_kaiser(cutoff@, half_width@, kernel_size as nat, t@),
        cutoff.single() && half_width.single() && model::fits(seq![kernel_size as nat]) ==> r is Ok,
{
    proof {
        lemma_filter_fits(kernel_size as nat);
    }
    let ghost fine = cutoff.single() && half_width.single();
    let beta = beta(&attenuation(half_width, kernel_size / 2)?)?;
    let beta_i0 = bessel_i0(&beta)?;
    let number: Scalar = cutoff.to_number()?;
    let closed: bool = is_zero(number);
    let ghost d = Design { closed, beta: beta@, beta_i0: beta_i0@ };
    assert(is_design(cutoff@, half_width@, kernel_size as nat, d));
    let ghost mut raw: Seq<TensorView> = Seq::empty();
    let mut values: Vec<Array> = Vec::new();
    let mut sum = Array::number(ZERO)?;
    let mut n: usize = 0;
    while n < kernel_size
        invariant
            n <= kernel_size,
            fine == (cutoff.single() && half_width.single()),
            d == (Design { closed, beta: beta@, beta_i0: beta_i0@ }),
            fine ==> cutoff.single() && beta.single() && beta_i0.single() && sum.single(),
            fine ==> forall|k: int| 0 <= k < n ==> (#[trigger] values@[k]).single(),
            values@.len() == n && raw.len() == n,
            forall|k: int| 0 <= k < n ==> (#[trigger] values@[k])@ == raw[k],
            forall|k: int|
                0 <= k < n ==> is_tap(
                    cutoff@,
                    d.closed,
                    d.beta,
                    d.beta_i0,
                    k as nat,
                    kernel_size as nat,
                    #[trigger] raw[k],
                ),
            sum@ == total(raw, n as nat),
        decreases kernel_size - n,
    {
        let v = tap(cutoff, closed, &beta, &beta_i0, n, kernel_size)?;
        let ghost longer = raw.push(v@);
        proof {
            lemma_total_prefix(raw, longer, n as nat);
        }
        sum = sum.broadcast(BinOp::Plus, &v)?;
        values.push(v);
        proof {
            raw = longer;
        }
        n = n + 1;
    }
    let mut taps: Vec<Array> = Vec::new();
    let mut n: usize = 0;
    while n < kernel_size
        invariant
            n <= kernel_size,
            fine == (cutoff.single() && half_width.single()),
            raw.len() == kernel_size,
            values@.len() == kernel_size,
            fine ==> sum.single() && forall|k: int| 0 <= k < kernel_size ==> (#[trigger] values@[k]).single(),
            fine ==> forall|k: int| 0 <= k < n ==> single_tap(#[trigger] taps@[k]),
            forall|k: int| 0 <= k < kernel_size ==> (#[trigger] values@[k])@ == raw[k],
            taps@.len() == n,
            forall|k: int|
                0 <= k < n ==> (#[trigger] taps@[k])@ == model::cast(over(raw[k], sum@), Dtype::F32),
        decreases kernel_size - n,
    {
        taps.push(values[n].broadcast(BinOp::Over, &sum)?.to_dtype(Dtype::F32)?);
        n = n + 1;
    }
    assert(array::views(taps@) =~= raw.map_values(
        |v: TensorView| model::cast(over(v, total(raw, raw.len())), Dtype::F32),
    ));
    assert(is_taps(cutoff@, kernel_size as nat, d, raw));
    stack_taps(&taps)
}

/// The sum of the first `n` numbers speaks of those alone.
proof fn lemma_total_prefix(a: Seq<TensorView>, b: Seq<TensorView>, n: nat)
    requires
        forall|i: int| 0 <= i < n ==> a[i] == #[trigger] b[i],
    ensures
        total(a, n) == total(b, n),
    decreases n,
{
    if n > 0 {
        lemma_total_prefix(a, b, (n - 1) as nat);
        assert(a[n - 1] == b[n - 1]);
    }
}

/// Whether this can be the low-pass filter for a change of the sampling rate by a factor: cutoff
/// `0.5 / ratio` and half width `0.6 / ratio`.
pub open spec fn is_half_band(ratio: nat, kernel_size: nat, filter: TensorView) -> bool {
    is_kaiser(
        over(model::number(HALF), model::count(ratio)),
        over(model::number(TRANSITION), model::count(ratio)),
        kernel_size,
        filter,
    )
}

/// The low-pass filter for a change of the sampling rate by a factor.
pub fn half_band(ratio: usize, kernel_size: usize) -> (r: Result<Array, Failure>)
    ensures
        r matches Ok(t) ==> is_half_band(ratio as nat, kernel_size as nat, t@),
        model::fits(seq![kernel_size as nat]) ==> r is Ok,
{
    let ratio = Array::count(ratio)?;
    let cutoff = Array::number(HALF)?.broadcast(BinOp::Over, &ratio)?;
    let half_width = Array::number(TRANSITION)?.broadcast(BinOp::Over, &ratio)?;
    kaiser_sinc_filter1d(&cutoff, &half_width, kernel_size)
}

/// The time of tap `n` of the Hann-windowed sinc filter for a factor, in samples from the middle.
pub open spec fn hann_time(n: nat, ratio: nat) -> TensorView {
    times(
        minus(over(model::count(n), model::count(ratio)), model::count(HANN_WIDTH as nat)),
        model::number(ROLLOFF),
    )
}

/// Tap `n` of the Hann-windowed sinc filter for a factor.
pub open spec fn hann_tap(n: nat, ratio: nat, sinc: TensorView) -> TensorView {
    let inside = model::clamp(hann_time(n, ratio), MINUS_FILTER_WIDTH, FILTER_WIDTH);
    let angle = over(
        over(times(inside, model::number(PI)), model::number(FILTER_WIDTH)),
        model::number(TWO),
    );
    let window = model::unary(UnOp::Sqr, model::unary(UnOp::Cos, angle));
    let value = over(
        times(times(sinc, window), model::number(ROLLOFF)),
        model::count(ratio),
    );
    model::cast(value, Dtype::F32)
}

/// Whether this can be tap `n` of the Hann-windowed sinc filter for a factor.
pub open spec fn is_hann_tap(n: nat, ratio: nat, value: TensorView) -> bool {
    exists|sinc: TensorView| #[trigger]
        is_sinc(hann_time(n, ratio), sinc) && value == hann_tap(n, ratio, sinc)
}

/// The number of taps of the Hann-windowed sinc filter for a factor: it reaches
/// [`HANN_WIDTH`] samples to both sides.
pub open spec fn hann_size(ratio: nat) -> nat {
    14 * ratio + 1
}

/// Whether these can be the taps of the Hann-windowed sinc filter for a factor.
pub open spec fn is_hann_taps(ratio: nat, taps: Seq<TensorView>) -> bool {
    &&& taps.len() == hann_size(ratio)
    &&& forall|n: int| 0 <= n < taps.len() ==> is_hann_tap(n as nat, ratio, #[trigger] taps[n])
}

/// Whether this can be the Hann-windowed sinc filter for a factor.
pub open spec fn is_hann(ratio: nat, filter: TensorView) -> bool {
    exists|taps: Seq<TensorView>| #[trigger] is_hann_taps(ratio, taps) && filter == filter_of_taps(taps)
}

fn compute_hann_tap(n: usize, ratio: &Array, Ghost(factor): Ghost<nat>) -> (r: Result<Array, Failure>)
    requires
        ratio@ == model::count(factor),
    ensures
        r matches Ok(t) ==> is_hann_tap(n as nat, factor, t@),
        ratio.single() ==> (r matches Ok(t) && single_tap(t)),
{
    let rolloff = Array::number(ROLLOFF)?;
    let whole = Array::count(n)?.broadcast(BinOp::Over, ratio)?;
    let time = whole.broadcast(BinOp::Minus, &Array::count(HANN_WIDTH)?)?.broadcast(BinOp::Times, &rolloff)?;
    let inside = time.clamp(MINUS_FILTER_WIDTH, FILTER_WIDTH)?;
    let angle = inside.broadcast(BinOp::Times, &Array::number(PI)?)?.broadcast(
        BinOp::Over,
        &Array::number(FILTER_WIDTH)?,
    )?.broadcast(BinOp::Over, &Array::number(TWO)?)?;
    let window = angle.unary(UnOp::Cos)?.unary(UnOp::Sqr)?;
    let value = sinc(&time)?.broadcast(BinOp::Times, &window)?.broadcast(BinOp::Times, &rolloff)?.broadcast(
        BinOp::Over,
        ratio,
    )?;
    value.to_dtype(Dtype::F32)
}

/// The Hann-windowed sinc filter for a factor.
pub fn hann_filter(ratio: usize) -> (r: Result<Array, Failure>)
    ensures
        r matches Ok(t) ==> is_hann(ratio as nat, t@),
        r is Ok ==> hann_size(ratio as nat) <= usize::MAX,
        model::fits(seq![hann_size(ratio as nat)]) ==> r is Ok,
{
    proof {
        lemma_filter_fits(hann_size(ratio as nat));
        lemmas::lemma_extent1(hann_size(ratio as nat));
    }
    let size: usize = match ratio.checked_mul(14) {
        Some(n) => if n < usize::MAX {
            n + 1
        } else {
            return Err(Failure::Overflow);
        },
        None => {
            return Err(Failure::Overflow);
        },
    };
    let factor = Array::count(ratio)?;
    let mut taps: Vec<Array> = Vec::new();
    let mut n: usize = 0;
    while n < size
        invariant
            n <= size,
            factor@ == model::count(ratio as nat),
            factor.single(),
            size == hann_size(ratio as nat),
            forall|k: int| 0 <= k < n ==> single_tap(#[trigger] taps@[k]),
            taps@.len() == n,
            forall|k: int| 0 <= k < n ==> is_hann_tap(k as nat, ratio as nat, (#[trigger] taps@[k])@),
        decreases size - n,
    {
        taps.push(compute_hann_tap(n, &factor, Ghost(ratio as nat))?);
        n = n + 1;
    }
    assert(is_hann_taps(ratio as nat, array::views(taps@)));
    stack_taps(&taps)
}

} // verus!
