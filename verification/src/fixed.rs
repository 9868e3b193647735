//! Q16.16 fixed-point scalars.
//!
//! Every quantity of the renderer (coordinates, colors, angles, noise
//! amplitudes) is an `i64` carrying 16 fractional bits: the value `x`
//! stands for the real number `x / 65536`.  All rounding is downward
//! (floor), which matches the Euclidean `/` of specification integers
//! whenever the divisor is positive, so the specification mirror of each
//! operation is a plain integer formula.

use vstd::arithmetic::div_mod::{
    lemma_div_is_ordered, lemma_div_pos_is_pos, lemma_fundamental_div_mod,
    lemma_fundamental_div_mod_converse,
};
use vstd::arithmetic::mul::lemma_mul_inequality;
use vstd::prelude::*;

verus! {

/// The fixed-point unit: 1.0 in Q16.16.
pub const FX_ONE: i64 = 65536;

/// Largest magnitude accepted by the fixed-point primitives; products of two
/// such operands still fit comfortably in 128 bits and their scaled results
/// in 64 bits.
pub const FX_ARG_MAX: i64 = 0x80_0000_0000;

/// Floor of the product of two Q16.16 values.
pub open spec fn fmul(a: int, b: int) -> int {
    (a * b) / 65536
}

/// Floor of the quotient of two Q16.16 values (divisor positive).
pub open spec fn fdiv(a: int, b: int) -> int {
    (a * 65536) / b
}

/// Clamp into the unit interval [0, 1] of Q16.16.
pub open spec fn clamp01_spec(x: int) -> int {
    if x < 0 {
        0
    } else if x > 65536 {
        65536
    } else {
        x
    }
}

pub open spec fn abs_spec(x: int) -> int {
    if x < 0 {
        -x
    } else {
        x
    }
}

/// Floor division of a negative numerator by a positive divisor, written
/// with nonnegative operands only.
pub proof fn lemma_floor_div_neg(n: int, d: int)
    requires
        0 <= n,
        0 < d,
    ensures
        (-n) / d == -((n + d - 1) / d),
{
    let q = n / d;
    let r = n % d;
    lemma_fundamental_div_mod(n, d);
    if r == 0 {
        assert(-n == (-q) * d + 0 && n + d - 1 == q * d + (d - 1)) by (nonlinear_arith)
            requires
                n == d * q,
        ;
        lemma_fundamental_div_mod_converse(-n, d, -q, 0);
        lemma_fundamental_div_mod_converse(n + d - 1, d, q, d - 1);
    } else {
        assert(-n == (-q - 1) * d + (d - r) && n + d - 1 == (q + 1) * d + (r - 1))
            by (nonlinear_arith)
            requires
                n == d * q + r,
        ;
        lemma_fundamental_div_mod_converse(-n, d, -q - 1, d - r);
        lemma_fundamental_div_mod_converse(n + d - 1, d, q + 1, r - 1);
    }
}

/// Dividing by a positive divisor moves a value toward zero.
pub proof fn lemma_div_toward_zero(x: int, d: int)
    requires
        0 < d,
    ensures
        x >= 0 ==> 0 <= x / d <= x,
        x <= 0 ==> x <= x / d <= 0,
{
    let q = x / d;
    let r = x % d;
    lemma_fundamental_div_mod(x, d);
    if x >= 0 {
        assert(0 <= q <= x) by (nonlinear_arith)
            requires
                x == d * q + r,
                0 <= r < d,
                d >= 1,
                x >= 0,
        ;
    } else {
        assert(x <= q <= 0) by (nonlinear_arith)
            requires
                x == d * q + r,
                0 <= r < d,
                d >= 1,
                x <= 0,
        ;
    }
}

/// Bounds on a scaled product from bounds on its factors.
pub proof fn lemma_fmul_bounds(a: int, b: int, m: int, n: int)
    requires
        -m <= a <= m,
        -n <= b <= n,
        0 <= m,
        0 <= n,
    ensures
        fmul(a, b) <= (m * n) / 65536,
        fmul(a, b) >= -((m * n) / 65536) - 1,
{
    assert(a * b <= m * n && -(m * n) <= a * b) by (nonlinear_arith)
        requires
            -m <= a <= m,
            -n <= b <= n,
            0 <= m,
            0 <= n,
    ;
    lemma_div_is_ordered(a * b, m * n, 65536);
    lemma_div_is_ordered(-(m * n), a * b, 65536);
    lemma_floor_div_neg(m * n, 65536);
    lemma_div_is_ordered(m * n, m * n + 65535, 65536);
}

/// A scaled product of nonnegative values is nonnegative.
pub proof fn lemma_fmul_nonneg(a: int, b: int)
    requires
        0 <= a,
        0 <= b,
    ensures
        0 <= fmul(a, b),
{
    assert(a * b >= 0) by (nonlinear_arith)
        requires
            a >= 0,
            b >= 0,
    ;
    lemma_div_pos_is_pos(a * b, 65536);
}

/// A product of unit-interval values stays in the unit interval and below
/// either factor.
pub proof fn lemma_fmul_unit(a: int, b: int)
    requires
        0 <= a <= 65536,
        0 <= b <= 65536,
    ensures
        0 <= fmul(a, b),
        fmul(a, b) <= a,
        fmul(a, b) <= b,
        fmul(a, b) <= 65536,
{
    assert(a * b >= 0) by (nonlinear_arith)
        requires
            a >= 0,
            b >= 0,
    ;
    lemma_div_pos_is_pos(a * b, 65536);
    assert(a * b <= a * 65536 && a * b <= b * 65536) by (nonlinear_arith)
        requires
            0 <= a <= 65536,
            0 <= b <= 65536,
    ;
    lemma_div_is_ordered(a * b, a * 65536, 65536);
    lemma_div_is_ordered(a * b, b * 65536, 65536);
    assert(a * 65536 / 65536 == a && b * 65536 / 65536 == b) by (nonlinear_arith);
}

/// Scaling by a fixed nonnegative factor preserves order.
pub proof fn lemma_fmul_mono(a: int, b: int, c: int)
    requires
        a <= b,
        0 <= c,
    ensures
        fmul(a, c) <= fmul(b, c),
{
    lemma_mul_inequality(a, b, c);
    lemma_div_is_ordered(a * c, b * c, 65536);
}

/// Floor of the product of two Q16.16 values.
pub fn fx_mul(a: i64, b: i64) -> (r: i64)
    requires
        -FX_ARG_MAX <= a <= FX_ARG_MAX,
        -FX_ARG_MAX <= b <= FX_ARG_MAX,
    ensures
        r == fmul(a as int, b as int),
{
    proof {
        assert((a as int) * (b as int) <= 0x4000_0000_0000_0000_0000
            && (a as int) * (b as int) >= -0x4000_0000_0000_0000_0000) by (nonlinear_arith)
            requires
                -0x80_0000_0000 <= a as int <= 0x80_0000_0000,
                -0x80_0000_0000 <= b as int <= 0x80_0000_0000,
        ;
    }
    let p: i128 = (a as i128) * (b as i128);
    let r: i128 = if p >= 0 {
        p / 65536
    } else {
        proof {
            lemma_floor_div_neg(-(p as int), 65536);
        }
        -((-p + 65535) / 65536)
    };
    proof {
        lemma_div_toward_zero(p as int, 65536);
        lemma_div_toward_zero(-(p as int) + 65535, 65536);
    }
    r as i64
}

/// Floor of the quotient of two Q16.16 values; the divisor must be positive.
pub fn fx_div(a: i64, b: i64) -> (r: i64)
    requires
        -FX_ARG_MAX <= a <= FX_ARG_MAX,
        0 < b,
    ensures
        r == fdiv(a as int, b as int),
{
    let p: i128 = (a as i128) * 65536;
    let r: i128 = if p >= 0 {
        p / (b as i128)
    } else {
        proof {
            lemma_floor_div_neg(-(p as int), b as int);
        }
        -((-p + (b as i128 - 1)) / (b as i128))
    };
    proof {
        lemma_div_toward_zero(p as int, b as int);
        lemma_div_toward_zero(-(p as int) + (b as int) - 1, b as int);
    }
    r as i64
}

/// Integer part and fractional part of a Q16.16 value; the fractional part
/// is always in [0, 65536).
pub fn fx_floor_fract(x: i64) -> (res: (i64, i64))
    requires
        -FX_ARG_MAX <= x <= FX_ARG_MAX,
    ensures
        res.0 == x as int / 65536,
        res.1 == x as int % 65536,
        0 <= res.1 < 65536,
        x == res.0 * 65536 + res.1,
{
    proof {
        lemma_fundamental_div_mod(x as int, 65536);
        lemma_div_toward_zero(x as int, 65536);
        lemma_div_toward_zero(-(x as int) + 65535, 65536);
    }
    let q: i64 = if x >= 0 {
        x / 65536
    } else {
        proof {
            lemma_floor_div_neg(-(x as int), 65536);
        }
        -((-x + 65535) / 65536)
    };
    (q, x - q * 65536)
}

/// Clamp a Q16.16 value into the unit interval.
pub fn fx_clamp01(x: i64) -> (r: i64)
    ensures
        r == clamp01_spec(x as int),
        0 <= r <= 65536,
{
    if x < 0 {
        0
    } else if x > 65536 {
        65536
    } else {
        x
    }
}

pub fn fx_abs(x: i64) -> (r: i64)
    requires
        -FX_ARG_MAX <= x <= FX_ARG_MAX,
    ensures
        r == abs_spec(x as int),
{
    if x < 0 {
        -x
    } else {
        x
    }
}

/// Integer power of a unit-interval Q16.16 value.
pub open spec fn fpow(x: int, n: nat) -> int
    decreases n,
{
    if n == 0 {
        65536
    } else {
        fmul(fpow(x, (n - 1) as nat), x)
    }
}

/// Raise a unit-interval value to a small integer power.
pub fn fx_powi(x: i64, n: u32) -> (r: i64)
    requires
        0 <= x <= 65536,
    ensures
        r == fpow(x as int, n as nat),
        0 <= r <= 65536,
{
    let mut r: i64 = 65536;
    let mut i: u32 = 0;
    while i < n
        invariant
            i <= n,
            0 <= x <= 65536,
            0 <= r <= 65536,
            r == fpow(x as int, i as nat),
        decreases n - i,
    {
        proof {
            lemma_fmul_unit(r as int, x as int);
        }
        r = fx_mul(r, x);
        i = i + 1;
    }
    r
}

/// The integer square root, as the unique `r` with `r^2 <= n < (r+1)^2`.
pub open spec fn isqrt_spec(n: int) -> int {
    choose|r: int| 0 <= r && #[trigger] (r * r) <= n && n < (r + 1) * (r + 1)
}

/// Square root of a Q16.16 value, still in Q16.16.
pub open spec fn fsqrt(x: int) -> int {
    isqrt_spec(65536 * x)
}

/// An integer square root exists for every nonnegative integer.
pub proof fn lemma_isqrt_exists(n: int)
    requires
        0 <= n,
    ensures
        exists|r: int| 0 <= r && r * r <= n && #[trigger] ((r + 1) * (r + 1)) > n,
    decreases n,
{
    if n == 0 {
        assert(0 <= 0 && 0 * 0 <= 0 && (0 + 1) * (0 + 1) > 0) by (nonlinear_arith);
    } else {
        lemma_isqrt_exists(n - 1);
        let r = choose|r: int| 0 <= r && r * r <= n - 1 && #[trigger] ((r + 1) * (r + 1)) > n - 1;
        if (r + 1) * (r + 1) > n {
            assert(0 <= r && r * r <= n && (r + 1) * (r + 1) > n);
        } else {
            assert((r + 2) * (r + 2) > (r + 1) * (r + 1)) by (nonlinear_arith)
                requires
                    r >= 0,
            ;
            assert(0 <= r + 1 && (r + 1) * (r + 1) <= n && ((r + 1) + 1) * ((r + 1) + 1) > n);
        }
    }
}

/// Any witness of the square-root inequalities is the integer square root.
pub proof fn lemma_isqrt_unique(n: int, r: int)
    requires
        0 <= r,
        r * r <= n,
        n < (r + 1) * (r + 1),
    ensures
        r == isqrt_spec(n),
{
    lemma_isqrt_exists(n);
    let w = isqrt_spec(n);
    assert(0 <= w && w * w <= n && n < (w + 1) * (w + 1));
    if w < r {
        lemma_mul_inequality(w + 1, r, w + 1);
        lemma_mul_inequality(w + 1, r, r);
        assert((w + 1) * (w + 1) <= r * r) by (nonlinear_arith)
            requires
                0 <= w + 1 <= r,
        ;
    }
    if r < w {
        assert((r + 1) * (r + 1) <= w * w) by (nonlinear_arith)
            requires
                0 <= r + 1 <= w,
        ;
    }
}

/// The defining inequalities of the integer square root.
pub proof fn lemma_isqrt_bounds(n: int)
    requires
        0 <= n,
    ensures
        0 <= isqrt_spec(n),
        isqrt_spec(n) * isqrt_spec(n) <= n,
        n < (isqrt_spec(n) + 1) * (isqrt_spec(n) + 1),
{
    lemma_isqrt_exists(n);
    let r = choose|r: int| 0 <= r && r * r <= n && #[trigger] ((r + 1) * (r + 1)) > n;
    lemma_isqrt_unique(n, r);
}

/// Floor square root of a Q16.16 value, by binary search on the result.
pub fn fx_sqrt(x: i64) -> (r: i64)
    requires
        0 <= x <= 0x4000_0000_0000,
    ensures
        r == fsqrt(x as int),
        0 <= r,
        r * r <= 65536 * x,
        65536 * x < (r + 1) * (r + 1),
{
    let n: u64 = (x as u64) * 65536;
    let mut lo: u64 = 0;
    let mut hi: u64 = 0x1_0000_0000;
    proof {
        assert((0x1_0000_0000 as int) * (0x1_0000_0000 as int) > n as int) by (nonlinear_arith)
            requires
                n as int <= 0x4000_0000_0000 * 65536,
        ;
    }
    while lo + 1 < hi
        invariant
            lo < hi <= 0x1_0000_0000,
            (lo as int) * (lo as int) <= n as int,
            (n as int) < (hi as int) * (hi as int),
        decreases hi - lo,
    {
        let mid: u64 = lo + (hi - lo) / 2;
        proof {
            assert((mid as int) * (mid as int) <= 0x1_0000_0000 * 0x1_0000_0000) by (nonlinear_arith)
                requires
                    0 <= mid as int <= 0x1_0000_0000,
            ;
        }
        let sq: u128 = (mid as u128) * (mid as u128);
        if sq <= n as u128 {
            lo = mid;
        } else {
            hi = mid;
        }
    }
    proof {
        assert(hi == lo + 1);
        lemma_isqrt_unique(n as int, lo as int);
        assert((lo as int) * (lo as int) <= n as int);
        assert((lo as int) <= 0x1_0000_0000) by (nonlinear_arith)
            requires
                (lo as int) * (lo as int) <= 0x4000_0000_0000 * 65536,
                0 <= lo as int,
        ;
    }
    lo as i64
}

} // verus!
