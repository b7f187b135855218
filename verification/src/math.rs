//! Scalar fixed-point helpers: truncated division, magnitudes and the
//! integer square root, with the lemmas the solver needs about them.
use vstd::arithmetic::div_mod::{
    lemma_div_by_multiple, lemma_div_is_ordered, lemma_div_nonincreasing, lemma_div_pos_is_pos,
};
use vstd::prelude::*;

verus! {

/// Division truncated toward zero, for a positive divisor; 0 when the
/// divisor is not positive (callers always keep the divisor positive).
pub open spec fn div_t(a: int, b: int) -> int {
    if b <= 0 {
        0
    } else if a >= 0 {
        a / b
    } else {
        -((-a) / b)
    }
}

/// Magnitude of an integer.
pub open spec fn abs_i(x: int) -> int {
    if x >= 0 {
        x
    } else {
        -x
    }
}

/// The sign factor used for contact normals: 1 for non-negative values,
/// -1 for negative ones (zero counts as positive).
pub open spec fn sign_s(x: int) -> int {
    if x >= 0 {
        1
    } else {
        -1
    }
}

/// Smaller of two integers.
pub open spec fn min_i(a: int, b: int) -> int {
    if a <= b {
        a
    } else {
        b
    }
}

/// Integer square root: the largest `r` with `r * r <= n`.
pub open spec fn isqrt_rec(n: nat) -> nat
    decreases n,
{
    if n == 0 {
        0
    } else {
        let r = isqrt_rec((n - 1) as nat);
        if (r + 1) * (r + 1) <= n {
            r + 1
        } else {
            r
        }
    }
}

/// Integer square root on `int`, 0 below zero (callers pass sums of squares).
pub open spec fn isqrt_i(n: int) -> int {
    if n >= 0 {
        isqrt_rec(n as nat) as int
    } else {
        0
    }
}

/// The integer square root is sound: it is the floor of the real root.
pub proof fn lemma_isqrt_bounds(n: nat)
    ensures
        isqrt_rec(n) * isqrt_rec(n) <= n,
        n < (isqrt_rec(n) + 1) * (isqrt_rec(n) + 1),
    decreases n,
{
    if n == 0 {
        let s = isqrt_rec(n);
        assert(s == 0);
        assert(n < (s + 1) * (s + 1)) by (nonlinear_arith)
            requires
                s == 0 && n == 0,
        ;
    } else {
        let m = (n - 1) as nat;
        lemma_isqrt_bounds(m);
        let r = isqrt_rec(m);
        if (r + 1) * (r + 1) <= n {
            assert(isqrt_rec(n) == r + 1);
            assert(n < ((r + 1) + 1) * ((r + 1) + 1)) by (nonlinear_arith)
                requires
                    n - 1 < (r + 1) * (r + 1),
                    r >= 0,
            ;
        } else {
            assert(isqrt_rec(n) == r);
        }
    }
}

/// Any `r` with `r * r <= n < (r + 1) * (r + 1)` is the integer square root.
pub proof fn lemma_isqrt_unique(n: nat, r: nat)
    requires
        r * r <= n,
        n < (r + 1) * (r + 1),
    ensures
        r == isqrt_rec(n),
{
    let s = isqrt_rec(n);
    lemma_isqrt_bounds(n);
    if r < s {
        assert((r + 1) * (r + 1) <= s * s) by (nonlinear_arith)
            requires
                r + 1 <= s,
                r >= 0,
        ;
    }
    if s < r {
        assert((s + 1) * (s + 1) <= r * r) by (nonlinear_arith)
            requires
                s + 1 <= r,
                s >= 0,
        ;
    }
}

/// Monotonicity: a smaller square has a root no larger.
pub proof fn lemma_isqrt_mono(m: nat, n: nat)
    requires
        m <= n,
    ensures
        isqrt_rec(m) <= isqrt_rec(n),
{
    let a = isqrt_rec(m);
    let b = isqrt_rec(n);
    lemma_isqrt_bounds(m);
    lemma_isqrt_bounds(n);
    if b < a {
        assert((b + 1) * (b + 1) <= a * a) by (nonlinear_arith)
            requires
                b + 1 <= a,
                b >= 0,
        ;
    }
}

/// A perfect square has an exact root.
pub proof fn lemma_isqrt_square(r: nat)
    ensures
        isqrt_rec(r * r) == r,
{
    assert(r * r < (r + 1) * (r + 1)) by (nonlinear_arith);
    lemma_isqrt_unique(r * r, r);
}

/// A component of a vector is bounded by the vector's length: the root of
/// `x * x + e` is at least `|x|` when `e >= 0`.
pub proof fn lemma_isqrt_component(x: int, e: int)
    requires
        e >= 0,
    ensures
        abs_i(x) <= isqrt_i(x * x + e),
{
    let a = abs_i(x);
    assert(a * a == x * x) by (nonlinear_arith)
        requires
            a == x || a == -x,
    ;
    lemma_isqrt_square(a as nat);
    lemma_isqrt_mono((a * a) as nat, (x * x + e) as nat);
}

/// Truncated division keeps magnitudes: `|a| <= m * b` gives `|a / b| <= m`.
pub proof fn lemma_div_t_mag(a: int, b: int, m: int)
    requires
        b > 0,
        m >= 0,
        abs_i(a) <= m * b,
    ensures
        abs_i(div_t(a, b)) <= m,
{
    lemma_div_by_multiple(m, b);
    if a >= 0 {
        lemma_div_is_ordered(a, m * b, b);
        lemma_div_pos_is_pos(a, b);
    } else {
        lemma_div_is_ordered(-a, m * b, b);
        lemma_div_pos_is_pos(-a, b);
    }
}

/// The magnitude of a truncated quotient is the quotient of the magnitude.
pub proof fn lemma_div_t_abs(a: int, b: int)
    requires
        b > 0,
    ensures
        abs_i(div_t(a, b)) == div_t(abs_i(a), b),
{
    if a >= 0 {
        lemma_div_pos_is_pos(a, b);
    } else {
        lemma_div_pos_is_pos(-a, b);
    }
}

/// Truncated division is monotone on non-negative numerators.
pub proof fn lemma_div_t_ordered(a1: int, a2: int, b: int)
    requires
        0 <= a1 <= a2,
        b > 0,
    ensures
        div_t(a1, b) <= div_t(a2, b),
{
    lemma_div_is_ordered(a1, a2, b);
}

/// A truncated quotient never exceeds its non-negative numerator.
pub proof fn lemma_div_t_le(a: int, b: int)
    requires
        a >= 0,
        b > 0,
    ensures
        0 <= div_t(a, b) <= a,
{
    lemma_div_pos_is_pos(a, b);
    lemma_div_nonincreasing(a, b);
}

/// An integer within 64-bit range.
pub open spec fn in_i64(x: int) -> bool {
    i64::MIN <= x <= i64::MAX
}

/// A truncated quotient keeps the numerator's sign.
pub proof fn lemma_div_t_sign(a: int, b: int)
    requires
        b > 0,
    ensures
        a >= 0 ==> div_t(a, b) >= 0,
        a <= 0 ==> div_t(a, b) <= 0,
{
    if a >= 0 {
        lemma_div_pos_is_pos(a, b);
    } else {
        lemma_div_pos_is_pos(-a, b);
    }
}

/// Truncated division of a 64-bit value by a positive divisor.
pub fn div_i64(a: i64, b: i64) -> (r: i64)
    requires
        b > 0,
    ensures
        r == div_t(a as int, b as int),
{
    a / b
}

/// Truncated division of a 128-bit value by a positive divisor.
pub fn div_i128(a: i128, b: i128) -> (r: i128)
    requires
        b > 0,
    ensures
        r == div_t(a as int, b as int),
{
    a / b
}

/// Exact product of two 64-bit values, in 128 bits.
pub fn mul_wide(a: i64, b: i64) -> (r: i128)
    ensures
        r == a * b,
{
    proof {
        assert(a * b <= i128::MAX && a * b >= i128::MIN) by (nonlinear_arith)
            requires
                i64::MIN <= a <= i64::MAX,
                i64::MIN <= b <= i64::MAX,
        ;
    }
    (a as i128) * (b as i128)
}

/// Product of two 128-bit values whose product is known to fit.
pub fn mul_i128(a: i128, b: i128) -> (r: i128)
    requires
        i128::MIN <= a * b <= i128::MAX,
    ensures
        r == a * b,
{
    a * b
}

/// A 128-bit value known to be in 64-bit range, narrowed.
pub fn narrow(a: i128) -> (r: i64)
    requires
        i64::MIN <= a <= i64::MAX,
    ensures
        r == a,
{
    a as i64
}

/// The sign factor for contact normals (zero counts as positive).
pub fn sign_unit(x: i64) -> (r: i64)
    ensures
        r == sign_s(x as int),
{
    if x >= 0 {
        1
    } else {
        -1
    }
}

/// Integer square root of a 128-bit value, by bisection.
pub fn isqrt_u128(n: u128) -> (r: u64)
    ensures
        r == isqrt_i(n as int),
        (r * r) as u128 <= n,
{
    let mut lo: u128 = 0;
    let mut hi: u128 = 1u128 << 64;
    proof {
        assert((1u128 << 64) as int == 0x1_0000_0000_0000_0000int) by (bit_vector);
        assert(0x1_0000_0000_0000_0000int * 0x1_0000_0000_0000_0000int > u128::MAX as int)
            by (nonlinear_arith);
    }
    while hi - lo > 1
        invariant
            0 <= lo < hi <= 0x1_0000_0000_0000_0000int,
            lo * lo <= n,
            n < hi * hi,
        decreases hi - lo,
    {
        let mid: u128 = lo + (hi - lo) / 2;
        proof {
            assert(mid * mid <= u128::MAX) by (nonlinear_arith)
                requires
                    0 <= mid < 0x1_0000_0000_0000_0000int,
            ;
        }
        if mid * mid <= n {
            lo = mid;
        } else {
            hi = mid;
        }
    }
    proof {
        lemma_isqrt_unique(n as nat, lo as nat);
    }
    lo as u64
}

} // verus!
