//! Real numbers that are only handed on.
//!
//! The library stores and passes binary64 numbers by their bit pattern. It
//! compares them and takes their whole part, and leaves every other computation
//! with them to candle.
use vstd::prelude::*;

verus! {

/// A real number: the bit pattern of an IEEE-754 binary64 value.
pub type Scalar = u64;

/// 0
pub const ZERO: Scalar = 0x0000_0000_0000_0000;

/// 1
pub const ONE: Scalar = 0x3FF0_0000_0000_0000;

/// 2
pub const TWO: Scalar = 0x4000_0000_0000_0000;

/// -1
pub const MINUS_ONE: Scalar = 0xBFF0_0000_0000_0000;

/// 1/2
pub const HALF: Scalar = 0x3FE0_0000_0000_0000;

/// The binary64 number nearest to pi.
pub const PI: Scalar = 0x4009_21FB_5444_2D18;

/// Positive infinity.
pub const INFINITY: Scalar = 0x7FF0_0000_0000_0000;

/// Bit pattern of -0.
pub const MINUS_ZERO: Scalar = 0x8000_0000_0000_0000;

/// Whether the number is zero, of either sign.
pub open spec fn zero(s: Scalar) -> bool {
    s == ZERO || s == MINUS_ZERO
}

pub fn is_zero(s: Scalar) -> (r: bool)
    ensures
        r == zero(s),
{
    s == ZERO || s == MINUS_ZERO
}

/// Whether a bit pattern stands for no number.
pub open spec fn nan(s: Scalar) -> bool {
    s % MINUS_ZERO > INFINITY
}

/// A place on the number line: the same for both zeros, otherwise in the order of the
/// numbers.
pub open spec fn place(s: Scalar) -> int {
    if s >= MINUS_ZERO {
        -(s - MINUS_ZERO)
    } else {
        s as int
    }
}

/// Whether `a` is a number above the number `b`.
pub open spec fn above(a: Scalar, b: Scalar) -> bool {
    !nan(a) && !nan(b) && place(a) > place(b)
}

/// Whether `a` is a number above the number `b`.
pub fn exceeds(a: Scalar, b: Scalar) -> (r: bool)
    ensures
        r == above(a, b),
{
    if a % MINUS_ZERO > INFINITY || b % MINUS_ZERO > INFINITY {
        return false;
    }
    if a < MINUS_ZERO {
        if b < MINUS_ZERO {
            a > b
        } else {
            a > 0 || b > MINUS_ZERO
        }
    } else {
        b >= MINUS_ZERO && a < b
    }
}

/// The whole part of a number from zero to infinity.
pub open spec fn whole_part(s: Scalar) -> int {
    let e = s as int / 0x10_0000_0000_0000;
    let m = 0x10_0000_0000_0000 + s as int % 0x10_0000_0000_0000;
    if e < 1023 {
        0
    } else if e <= 1075 {
        m / (vstd::arithmetic::power2::pow2((1075 - e) as nat) as int)
    } else {
        m * vstd::arithmetic::power2::pow2((e - 1075) as nat)
    }
}

/// The whole part of a number as a count: zero for what is not above zero, the largest count for
/// what is beyond it.
pub open spec fn count_of(s: Scalar) -> int {
    if !above(s, ZERO) {
        0
    } else if s == INFINITY || whole_part(s) > usize::MAX {
        usize::MAX as int
    } else {
        whole_part(s)
    }
}

/// The whole part of a number as a count.
pub fn to_count(s: Scalar) -> (r: usize)
    ensures
        r == count_of(s),
{
    if !exceeds(s, ZERO) {
        return 0;
    }
    if s == INFINITY {
        return usize::MAX;
    }
    let e: u64 = s / 0x10_0000_0000_0000;
    let m: u64 = 0x10_0000_0000_0000 + s % 0x10_0000_0000_0000;
    if e < 1023 {
        return 0;
    }
    let mut q: u64 = m;
    let mut i: u64 = 0;
    proof {
        vstd::arithmetic::power2::lemma2_to64();
        assert(m as int / (vstd::arithmetic::power2::pow2(0) as int) == m);
        assert(m * vstd::arithmetic::power2::pow2(0) == m) by (nonlinear_arith)
            requires
                vstd::arithmetic::power2::pow2(0) == 1,
        ;
    }
    if e <= 1075 {
        let k: u64 = 1075 - e;
        while i < k
            invariant
                i <= k,
                q == m as int / (vstd::arithmetic::power2::pow2(i as nat) as int),
            decreases k - i,
        {
            proof {
                vstd::arithmetic::power2::lemma_pow2_pos(i as nat);
                vstd::arithmetic::power2::lemma_pow2_unfold((i + 1) as nat);
                vstd::arithmetic::div_mod::lemma_div_denominator(m as int, vstd::arithmetic::power2::pow2(i as nat) as int, 2);
                assert(vstd::arithmetic::power2::pow2(i as nat) * 2 == vstd::arithmetic::power2::pow2((i + 1) as nat));
            }
            q = q / 2;
            i = i + 1;
        }
    } else {
        let k: u64 = e - 1075;
        while i < k
            invariant
                i <= k,
                k == e - 1075,
                q == m * vstd::arithmetic::power2::pow2(i as nat),
                e > 1075,
                e == s as int / 0x10_0000_0000_0000,
                m == 0x10_0000_0000_0000 + s as int % 0x10_0000_0000_0000,
                above(s, ZERO),
                s != INFINITY,
            decreases k - i,
        {
            proof {
                vstd::arithmetic::power2::lemma_pow2_unfold((i + 1) as nat);
                vstd::arithmetic::power2::lemma_pow2_pos(i as nat);
                let (a, b) = (vstd::arithmetic::power2::pow2(i as nat) as int, vstd::arithmetic::power2::pow2((i + 1) as nat) as int);
                assert(m * b == 2 * (m * a)) by (nonlinear_arith)
                    requires
                        b == 2 * a,
                ;
                if i + 1 < k {
                    vstd::arithmetic::power2::lemma_pow2_strictly_increases((i + 1) as nat, k as nat);
                }
                let c = vstd::arithmetic::power2::pow2(k as nat) as int;
                assert(m * c >= m * b) by (nonlinear_arith)
                    requires
                        c >= b,
                        m >= 0,
                ;
            }
            if q > u64::MAX / 2 {
                return usize::MAX;
            }
            q = q * 2;
            i = i + 1;
        }
    }
    if q > usize::MAX as u64 {
        usize::MAX
    } else {
        q as usize
    }
}

} // verus!
