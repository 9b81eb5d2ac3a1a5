//! Fixed-point scalar arithmetic.
//!
//! Every scalar of the library is an `i64` counting 1/65536ths: the raw value
//! `n` stands for the real number `n / 65536`. Products and square roots are
//! truncated toward zero, exactly as the contracts below state, so callers can
//! reason about the computed values themselves rather than about an idealized
//! real-number semantics.

use vstd::prelude::*;

verus! {

/// Steps per world unit: the raw value `n` stands for `n / SCALE`.
pub const SCALE: i64 = 65536;

/// Division that rounds toward zero (the rounding of `/` on machine
/// integers), for a positive divisor.
pub open spec fn tdiv(n: int, d: int) -> int {
    if n >= 0 {
        n / d
    } else {
        -((-n) / d)
    }
}

/// Magnitude of an integer.
pub open spec fn iabs(n: int) -> int {
    if n >= 0 {
        n
    } else {
        -n
    }
}

/// Truncating division takes magnitudes to magnitudes: `|n/d|` is the
/// floor of `|n| / d`.
pub proof fn lemma_tdiv_magnitude(n: int, d: int)
    requires
        d > 0,
    ensures
        iabs(tdiv(n, d)) == iabs(n) / d,
        iabs(tdiv(n, d)) * d <= iabs(n),
        iabs(n) < (iabs(tdiv(n, d)) + 1) * d,
        n >= 0 ==> tdiv(n, d) >= 0,
        n <= 0 ==> tdiv(n, d) <= 0,
{
    let m = iabs(n);
    let q = m / d;
    assert(q >= 0 && q * d <= m < (q + 1) * d) by (nonlinear_arith)
        requires
            m >= 0,
            d > 0,
            q == m / d,
    ;
}

/// The remainder a truncating division leaves behind is smaller than the
/// divisor in magnitude.
pub proof fn lemma_tdiv_rem(n: int, d: int)
    requires
        d > 0,
    ensures
        iabs(n - d * tdiv(n, d)) <= d - 1,
{
    lemma_tdiv_magnitude(n, d);
    let q = tdiv(n, d);
    let m = iabs(q);
    if n >= 0 {
        assert(iabs(n - d * q) <= d - 1) by (nonlinear_arith)
            requires
                d > 0,
                n >= 0,
                q == m,
                m * d <= n,
                n < (m + 1) * d,
        ;
    } else {
        assert(iabs(n - d * q) <= d - 1) by (nonlinear_arith)
            requires
                d > 0,
                n < 0,
                q == -m,
                m * d <= -n,
                -n < (m + 1) * d,
        ;
    }
}

/// A bound on the dividend gives the same bound on a truncating quotient:
/// if `|n| <= b * d` then `|n / d| <= b`.
pub proof fn lemma_tdiv_bound(n: int, d: int, b: int)
    requires
        d > 0,
        b >= 0,
        iabs(n) <= b * d,
    ensures
        iabs(tdiv(n, d)) <= b,
        -b <= tdiv(n, d) <= b,
{
    lemma_tdiv_magnitude(n, d);
    let q = iabs(tdiv(n, d));
    assert(q <= b) by (nonlinear_arith)
        requires
            d > 0,
            b >= 0,
            q >= 0,
            q * d <= b * d,
    ;
}

/// Truncating division of a fixed-point product: `mul_fx(a, b)` is the
/// fixed-point product of `a` and `b`, rounded toward zero.
pub fn mul_fx(a: i64, b: i64) -> (r: i64)
    requires
        iabs(a * b) <= 0x4000_0000_0000_0000_0000,
    ensures
        r as int == tdiv(a * b, SCALE as int),
{
    proof {
        lemma_tdiv_bound(a * b, SCALE as int, 0x4000_0000_0000_0000);
    }
    (((a as i128) * (b as i128)) / (SCALE as i128)) as i64
}

/// A product of two three-term sums, expanded.
pub proof fn lemma_mul_3sum(a1: int, a2: int, a3: int, b1: int, b2: int, b3: int)
    by (nonlinear_arith)
    ensures
        (a1 + a2 + a3) * (b1 + b2 + b3) == a1 * b1 + a1 * b2 + a1 * b3 + a2 * b1 + a2 * b2
            + a2 * b3 + a3 * b1 + a3 * b2 + a3 * b3,
{
}

/// Rebracketings of a product of four factors.
pub proof fn lemma_mul_shuffle(a: int, b: int, c: int, d: int)
    by (nonlinear_arith)
    ensures
        (a * b) * (c * d) == (a * c) * (b * d),
        (a * b) * (c * d) == (a * d) * (c * b),
        (a * b) * (c * d) == (c * d) * (a * b),
{
}

/// Two factors commute.
pub proof fn lemma_mul_comm(a: int, b: int)
    by (nonlinear_arith)
    ensures
        a * b == b * a,
{
}

/// The square of a sum, expanded.
pub proof fn lemma_add_square(a: int, b: int)
    by (nonlinear_arith)
    ensures
        (a + b) * (a + b) == a * a + 2 * (a * b) + b * b,
{
}

/// The square of a difference, expanded.
pub proof fn lemma_sub_square(a: int, b: int)
    by (nonlinear_arith)
    ensures
        (a - b) * (a - b) == a * a - 2 * (a * b) + b * b,
{
}

/// A square is never negative.
pub proof fn lemma_square_nonneg(a: int)
    by (nonlinear_arith)
    ensures
        a * a >= 0,
{
}

/// The integer square root: the largest `r` with `r * r <= n`.
pub open spec fn isqrt_spec(n: int) -> int
    decreases n,
{
    if n <= 0 {
        0
    } else {
        let r = isqrt_spec(n - 1);
        if (r + 1) * (r + 1) <= n {
            r + 1
        } else {
            r
        }
    }
}

/// `isqrt_spec(n)` squares to at most `n`, and is the largest such value.
pub proof fn lemma_isqrt_spec(n: int)
    requires
        n >= 0,
    ensures
        isqrt_spec(n) >= 0,
        isqrt_spec(n) * isqrt_spec(n) <= n,
        n < (isqrt_spec(n) + 1) * (isqrt_spec(n) + 1),
    decreases n,
{
    if n == 0 {
    } else {
        lemma_isqrt_spec(n - 1);
        let r = isqrt_spec(n - 1);
        if (r + 1) * (r + 1) <= n {
            assert(n < (r + 2) * (r + 2)) by (nonlinear_arith)
                requires
                    r >= 0,
                    n - 1 < (r + 1) * (r + 1),
            ;
        }
    }
}

/// Only one value can satisfy the square-root characterization.
pub proof fn lemma_isqrt_unique(n: int, r: int)
    requires
        n >= 0,
        r >= 0,
        r * r <= n,
        n < (r + 1) * (r + 1),
    ensures
        r == isqrt_spec(n),
{
    lemma_isqrt_spec(n);
    let s = isqrt_spec(n);
    assert(!(r < s) && !(s < r)) by (nonlinear_arith)
        requires
            r >= 0,
            s >= 0,
            r * r <= n,
            n < (r + 1) * (r + 1),
            s * s <= n,
            n < (s + 1) * (s + 1),
    ;
}

/// The square root is monotone.
pub proof fn lemma_isqrt_le(m: int, n: int)
    requires
        0 <= m <= n,
    ensures
        isqrt_spec(m) <= isqrt_spec(n),
{
    lemma_isqrt_spec(m);
    lemma_isqrt_spec(n);
    let a = isqrt_spec(m);
    let b = isqrt_spec(n);
    assert(a <= b) by (nonlinear_arith)
        requires
            a >= 0,
            b >= 0,
            a * a <= m,
            m <= n,
            n < (b + 1) * (b + 1),
    ;
}

/// The integer square root, by binary search.
pub fn isqrt(n: u128) -> (r: u64)
    ensures
        r as int == isqrt_spec(n as int),
{
    let mut lo: u128 = 0;
    let mut hi: u128 = 0x1_0000_0000_0000_0000;
    proof {
        assert((n as int) < hi * hi) by (nonlinear_arith)
            requires
                hi == 0x1_0000_0000_0000_0000,
                n as int <= u128::MAX as int,
        ;
    }
    while lo + 1 < hi
        invariant
            0 <= lo < hi <= 0x1_0000_0000_0000_0000,
            lo * lo <= n as int,
            (n as int) < hi * hi,
        decreases hi - lo,
    {
        let mid = lo + (hi - lo) / 2;
        assert(lo < mid < hi);
        proof {
            assert(mid * mid <= u128::MAX as int) by (nonlinear_arith)
                requires
                    0 <= mid < 0x1_0000_0000_0000_0000,
            ;
        }
        if mid * mid <= n {
            lo = mid;
        } else {
            hi = mid;
        }
    }
    proof {
        lemma_isqrt_unique(n as int, lo as int);
    }
    lo as u64
}

/// `b` to the power `e` over the integers.
pub open spec fn powi(b: int, e: nat) -> int
    decreases e,
{
    if e == 0 {
        1
    } else {
        b * powi(b, (e - 1) as nat)
    }
}

/// Powers of nonnegative bases are nonnegative and grow with the base.
pub proof fn lemma_powi_le(a: int, b: int, e: nat)
    requires
        0 <= a <= b,
    ensures
        0 <= powi(a, e) <= powi(b, e),
    decreases e,
{
    if e > 0 {
        lemma_powi_le(a, b, (e - 1) as nat);
        assert(0 <= a * powi(a, (e - 1) as nat) <= b * powi(b, (e - 1) as nat))
            by (nonlinear_arith)
            requires
                0 <= a <= b,
                0 <= powi(a, (e - 1) as nat) <= powi(b, (e - 1) as nat),
        ;
    }
}

/// 255 to the twelfth power, the largest power a tone-mapping exponent
/// can ask for.
pub proof fn lemma_powi_255_max(e: nat)
    requires
        e <= 12,
    ensures
        0 <= powi(255, e) <= 75593101654204447168212890625,
    decreases 12 - e,
{
    lemma_powi_le(0, 255, e);
    if e == 12 {
        assert(powi(255, 12) == 75593101654204447168212890625) by {
            reveal_with_fuel(powi, 13);
        }
    } else {
        lemma_powi_255_max(e + 1);
        lemma_powi_le(0, 255, e);
        assert(powi(255, e) <= 255 * powi(255, e)) by (nonlinear_arith)
            requires
                powi(255, e) >= 0,
        ;
    }
}

/// `base` to the power `e`, for the small operands of tone mapping.
pub fn pow_small(base: u64, e: u32) -> (r: u128)
    requires
        base <= 255,
        e <= 12,
    ensures
        r as int == powi(base as int, e as nat),
{
    let mut acc: u128 = 1;
    let mut i: u32 = 0;
    while i < e
        invariant
            i <= e <= 12,
            base <= 255,
            acc as int == powi(base as int, i as nat),
        decreases e - i,
    {
        proof {
            lemma_powi_le(base as int, 255, i as nat);
            lemma_powi_255_max(i as nat);
            assert(base as int * acc <= 255 * powi(255, i as nat)) by (nonlinear_arith)
                requires
                    0 <= base as int <= 255,
                    0 <= acc <= powi(255, i as nat),
            ;
            lemma_powi_255_max((i + 1) as nat);
        }
        acc = (base as u128) * acc;
        i = i + 1;
    }
    acc
}

/// Clamp `x` into `[lo, hi]`.
pub open spec fn spec_clamp(x: int, lo: int, hi: int) -> int {
    if x < lo {
        lo
    } else if x > hi {
        hi
    } else {
        x
    }
}

/// Clamp a scalar into `[lo, hi]`.
pub fn clamp(x: i64, lo: i64, hi: i64) -> (r: i64)
    requires
        lo <= hi,
    ensures
        r as int == spec_clamp(x as int, lo as int, hi as int),
{
    if x < lo {
        lo
    } else if x > hi {
        hi
    } else {
        x
    }
}

} // verus!
