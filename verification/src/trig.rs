//! Fixed-point circular functions and the smoothstep threshold mask.
//!
//! Angles are Q16.16 radians.  `sin_fx` reduces its argument into one
//! period, folds it onto the first quarter and evaluates a fifth-order
//! polynomial there; `cos_fx` is the quarter-period shift of `sin_fx`.
//! `atan2_fx` reduces to the first octant and uses a quadratic
//! approximation of the arctangent on [0, 1]; `asin_fx` derives the arc
//! sine from it.  Each function equals its specification mirror exactly
//! and stays inside the stated range.

use crate::fixed::{
    abs_spec, clamp01_spec, fdiv, fmul, fsqrt, fx_abs, fx_clamp01, fx_div, fx_mul, fx_sqrt,
    lemma_fmul_bounds, lemma_fmul_unit,
};
use vstd::arithmetic::div_mod::{
    lemma_div_is_ordered, lemma_div_pos_is_pos, lemma_fundamental_div_mod,
    lemma_fundamental_div_mod_converse,
};
use vstd::prelude::*;

verus! {

/// One full turn, 2*pi in Q16.16.
pub const TAU_FX: i64 = 411775;

/// Half a turn, pi in Q16.16.
pub const PI_FX: i64 = 205887;

/// A quarter turn, pi/2 in Q16.16.
pub const HALF_PI_FX: i64 = 102944;

/// Largest angle magnitude accepted by the circular functions.
pub const ANGLE_ARG_MAX: i64 = 0xFF_0000_0000;

/// The quarter-period sine polynomial `t - t^3/6 + t^5/120`, clamped into
/// the unit interval.
pub open spec fn sin_poly(t: int) -> int {
    let t2 = fmul(t, t);
    let t3 = fmul(t2, t);
    let t5 = fmul(t3, t2);
    clamp01_spec(t - t3 / 6 + t5 / 120)
}

/// Sine of a Q16.16 angle: reduce modulo one turn, split into half
/// turns for the sign, fold onto the first quarter, apply the polynomial.
pub open spec fn sin_spec(x: int) -> int {
    let m = x % 411775;
    let p = if m < 205887 {
        m
    } else {
        m - 205887
    };
    let t = if p > 102944 {
        205887 - p
    } else {
        p
    };
    if m < 205887 {
        sin_poly(t)
    } else {
        -sin_poly(t)
    }
}

/// Cosine as the quarter-turn shift of the sine.
pub open spec fn cos_spec(x: int) -> int {
    sin_spec(x + 102944)
}

/// Arctangent on [0, 1], approximated by `(pi/4) t + 0.273 t (1 - t)`:
/// 51472 is pi/4 and 17891 is 0.273, both in Q16.16.
pub open spec fn atan_unit_spec(t: int) -> int {
    fmul(t, 51472) + fmul(fmul(t, 65536 - t), 17891)
}

/// Four-quadrant arctangent of `y / x`, in (-pi, pi].
pub open spec fn atan2_spec(y: int, x: int) -> int {
    if y == 0 && x == 0 {
        0
    } else {
        let ax = abs_spec(x);
        let ay = abs_spec(y);
        let base = if ay <= ax {
            atan_unit_spec(fdiv(ay, ax))
        } else {
            102944 - atan_unit_spec(fdiv(ax, ay))
        };
        let half = if x < 0 {
            205887 - base
        } else {
            base
        };
        if y < 0 {
            -half
        } else {
            half
        }
    }
}

/// Arc sine of a unit-interval value via `atan2(y, sqrt(1 - y^2))`; the
/// argument is clamped into [-1, 1] first.
pub open spec fn asin_spec(y: int) -> int {
    let yc = if y < -65536 {
        -65536int
    } else if y > 65536 {
        65536int
    } else {
        y
    };
    atan2_spec(yc, fsqrt(65536 - fmul(yc, yc)))
}

/// The smoothstep mask: clamp the position of `x` between the edges into
/// [0, 1], then apply `t^2 (3 - 2 t)`.
pub open spec fn smoothstep_spec(e0: int, e1: int, x: int) -> int {
    let t = clamp01_spec(fdiv(x - e0, e1 - e0));
    fmul(fmul(t, t), 196608 - 2 * t)
}

/// The sine always lies in [-1, 1].
pub proof fn lemma_sin_range(x: int)
    ensures
        -65536 <= sin_spec(x) <= 65536,
{
}

/// The arctangent approximation stays within [0, 0.8537] on [0, 1].
pub proof fn lemma_atan_unit_range(t: int)
    requires
        0 <= t <= 65536,
    ensures
        0 <= atan_unit_spec(t) <= 55945,
{
    lemma_fmul_unit(t, 51472);
    lemma_fmul_unit(t, 65536 - t);
    assert(t * (65536 - t) <= 0x4000_0000) by (nonlinear_arith)
        requires
            0 <= t <= 65536,
    ;
    lemma_div_is_ordered(t * (65536 - t), 0x4000_0000, 65536);
    lemma_fmul_unit(fmul(t, 65536 - t), 17891);
    crate::fixed::lemma_fmul_mono(fmul(t, 65536 - t), 16384, 17891);
    assert(fmul(16384, 17891) == 4472);
}

/// The quotient of two ordered nonnegative values lies in [0, 1].
proof fn lemma_unit_quotient(a: int, b: int)
    requires
        0 <= a <= b,
        0 < b,
    ensures
        0 <= fdiv(a, b) <= 65536,
{
    lemma_div_pos_is_pos(a * 65536, b);
    lemma_div_is_ordered(a * 65536, b * 65536, b);
    assert(b * 65536 / b == 65536) by (nonlinear_arith)
        requires
            b > 0,
    ;
}

/// The four-quadrant arctangent lies in [-pi, pi], and in [-pi/2, pi/2]
/// when `x` is nonnegative.
pub proof fn lemma_atan2_range(y: int, x: int)
    ensures
        -205887 <= atan2_spec(y, x) <= 205887,
        x >= 0 ==> -102944 <= atan2_spec(y, x) <= 102944,
{
    if !(y == 0 && x == 0) {
        let ax = abs_spec(x);
        let ay = abs_spec(y);
        if ay <= ax {
            lemma_unit_quotient(ay, ax);
            lemma_atan_unit_range(fdiv(ay, ax));
        } else {
            lemma_unit_quotient(ax, ay);
            lemma_atan_unit_range(fdiv(ax, ay));
        }
    }
}

/// Reduce an angle into [0, 2*pi), Euclidean.
fn angle_mod(x: i64) -> (m: i64)
    requires
        -ANGLE_ARG_MAX <= x <= ANGLE_ARG_MAX,
    ensures
        m == (x as int) % 411775,
        0 <= m < 411775,
{
    if x >= 0 {
        ((x as u64) % 411775) as i64
    } else {
        let mm: u64 = ((-x) as u64) % 411775;
        proof {
            let n = -(x as int);
            let q = n / 411775;
            lemma_fundamental_div_mod(n, 411775);
            if mm == 0 {
                lemma_fundamental_div_mod_converse(x as int, 411775, -q, 0);
            } else {
                lemma_fundamental_div_mod_converse(x as int, 411775, -q - 1, 411775 - mm);
            }
        }
        if mm == 0 {
            0
        } else {
            (411775 - mm) as i64
        }
    }
}

/// The quarter-period polynomial, on arguments up to pi/2.
fn sin_quarter(t: i64) -> (r: i64)
    requires
        0 <= t <= 102944,
    ensures
        r == sin_poly(t as int),
        0 <= r <= 65536,
{
    let t2: i64 = fx_mul(t, t);
    proof {
        lemma_fmul_bounds(t as int, t as int, 102944, 102944);
        assert((t as int) * (t as int) >= 0) by (nonlinear_arith)
            requires
                t as int >= 0,
        ;
        lemma_div_pos_is_pos((t as int) * (t as int), 65536);
        assert(0 <= t2 as int <= 161704);
    }
    let t3: i64 = fx_mul(t2, t);
    proof {
        lemma_fmul_bounds(t2 as int, t as int, 161704, 102944);
        assert((t2 as int) * (t as int) >= 0) by (nonlinear_arith)
            requires
                t2 as int >= 0,
                t as int >= 0,
        ;
        lemma_div_pos_is_pos((t2 as int) * (t as int), 65536);
        assert(0 <= t3 as int <= 254004);
    }
    let t5: i64 = fx_mul(t3, t2);
    proof {
        lemma_fmul_bounds(t3 as int, t2 as int, 254004, 161704);
        assert((t3 as int) * (t2 as int) >= 0) by (nonlinear_arith)
            requires
                t3 as int >= 0,
                t2 as int >= 0,
        ;
        lemma_div_pos_is_pos((t3 as int) * (t2 as int), 65536);
        lemma_div_pos_is_pos(t3 as int, 6);
        lemma_div_pos_is_pos(t5 as int, 120);
        lemma_div_is_ordered(t3 as int, 254004, 6);
        lemma_div_is_ordered(t5 as int, 626731, 120);
    }
    fx_clamp01(t - t3 / 6 + t5 / 120)
}

/// Sine of a Q16.16 angle, exactly as `sin_spec` states it.
pub fn sin_fx(x: i64) -> (r: i64)
    requires
        -ANGLE_ARG_MAX <= x <= ANGLE_ARG_MAX,
    ensures
        r == sin_spec(x as int),
        -65536 <= r <= 65536,
{
    let m: i64 = angle_mod(x);
    if m < 205887 {
        let t: i64 = if m > 102944 {
            205887 - m
        } else {
            m
        };
        sin_quarter(t)
    } else {
        let p: i64 = m - 205887;
        let t: i64 = if p > 102944 {
            205887 - p
        } else {
            p
        };
        -sin_quarter(t)
    }
}

/// Cosine of a Q16.16 angle.
pub fn cos_fx(x: i64) -> (r: i64)
    requires
        -ANGLE_ARG_MAX + 102944 <= x <= ANGLE_ARG_MAX - 102944,
    ensures
        r == cos_spec(x as int),
        -65536 <= r <= 65536,
{
    sin_fx(x + 102944)
}

/// The arctangent approximation on [0, 1].
fn atan_unit(t: i64) -> (r: i64)
    requires
        0 <= t <= 65536,
    ensures
        r == atan_unit_spec(t as int),
        0 <= r <= 55945,
{
    let a: i64 = fx_mul(t, 51472);
    proof {
        lemma_fmul_unit(t as int, 51472);
    }
    let w: i64 = fx_mul(t, 65536 - t);
    proof {
        lemma_fmul_unit(t as int, 65536 - t as int);
        assert((t as int) * (65536 - t as int) <= 0x4000_0000) by (nonlinear_arith)
            requires
                0 <= t as int <= 65536,
        ;
        lemma_div_is_ordered((t as int) * (65536 - t as int), 0x4000_0000, 65536);
    }
    let b: i64 = fx_mul(w, 17891);
    proof {
        lemma_fmul_unit(w as int, 17891);
        crate::fixed::lemma_fmul_mono(w as int, 16384, 17891);
        assert(fmul(16384, 17891) == 4472);
    }
    a + b
}

/// Four-quadrant arctangent, exactly as `atan2_spec` states it; the
/// result lies in [-pi, pi].
pub fn atan2_fx(y: i64, x: i64) -> (r: i64)
    requires
        -0x4000_0000 <= y <= 0x4000_0000,
        -0x4000_0000 <= x <= 0x4000_0000,
    ensures
        r == atan2_spec(y as int, x as int),
        -205887 <= r <= 205887,
{
    if y == 0 && x == 0 {
        return 0;
    }
    let ax: i64 = fx_abs(x);
    let ay: i64 = fx_abs(y);
    proof {
        lemma_atan2_range(y as int, x as int);
    }
    let base: i64 = if ay <= ax {
        proof {
            lemma_unit_quotient(ay as int, ax as int);
        }
        let t: i64 = fx_div(ay, ax);
        atan_unit(t)
    } else {
        proof {
            lemma_unit_quotient(ax as int, ay as int);
        }
        let t: i64 = fx_div(ax, ay);
        102944 - atan_unit(t)
    };
    let half: i64 = if x < 0 {
        205887 - base
    } else {
        base
    };
    if y < 0 {
        -half
    } else {
        half
    }
}

/// Arc sine of a unit-interval Q16.16 value, in [-pi/2, pi/2].
pub fn asin_fx(y: i64) -> (r: i64)
    requires
        -0x4000_0000 <= y <= 0x4000_0000,
    ensures
        r == asin_spec(y as int),
        -102944 <= r <= 102944,
{
    let yc: i64 = if y < -65536 {
        -65536
    } else if y > 65536 {
        65536
    } else {
        y
    };
    let y2: i64 = fx_mul(yc, yc);
    proof {
        lemma_fmul_bounds(yc as int, yc as int, 65536, 65536);
        assert((yc as int) * (yc as int) >= 0) by (nonlinear_arith);
        lemma_div_pos_is_pos((yc as int) * (yc as int), 65536);
    }
    let c: i64 = fx_sqrt(65536 - y2);
    proof {
        assert(c as int <= 65536) by (nonlinear_arith)
            requires
                (c as int) * (c as int) <= 65536 * (65536 - y2 as int),
                65536 - y2 as int <= 65536,
                0 <= c as int,
        ;
    }
    proof {
        lemma_atan2_range(yc as int, c as int);
    }
    atan2_fx(yc, c)
}

/// The smoothstep mask between two edges, exactly as `smoothstep_spec`
/// states it; the result is in [0, 1].
pub fn smoothstep(e0: i64, e1: i64, x: i64) -> (r: i64)
    requires
        -0x4000_0000 <= e0 < e1 <= 0x4000_0000,
        -0x4000_0000 <= x <= 0x4000_0000,
    ensures
        r == smoothstep_spec(e0 as int, e1 as int, x as int),
        0 <= r <= 65536,
{
    let t: i64 = fx_clamp01(fx_div(x - e0, e1 - e0));
    let t2: i64 = fx_mul(t, t);
    proof {
        lemma_fmul_unit(t as int, t as int);
    }
    let s: i64 = 196608 - 2 * t;
    let r: i64 = fx_mul(t2, s);
    proof {
        let ti = t as int;
        let si = s as int;
        lemma_div_pos_is_pos((t2 as int) * si, 65536);
        assert((t2 as int) * si >= 0) by (nonlinear_arith)
            requires
                t2 as int >= 0,
                si >= 0,
        ;
        lemma_fundamental_div_mod(ti * ti, 65536);
        assert((ti * ti) * si == 0x1_0000_0000_0000 - (65536 - ti) * (65536 - ti) * (65536 + 2
            * ti)) by (nonlinear_arith)
            requires
                si == 196608 - 2 * ti,
        ;
        assert((65536 - ti) * (65536 - ti) * (65536 + 2 * ti) >= 0) by (nonlinear_arith)
            requires
                0 <= ti <= 65536,
        ;
        assert((t2 as int) * si * 65536 <= (ti * ti) * si) by (nonlinear_arith)
            requires
                (t2 as int) * 65536 <= ti * ti,
                si >= 0,
        ;
        assert((t2 as int) * si <= 0x1_0000_0000) by (nonlinear_arith)
            requires
                (t2 as int) * si * 65536 <= 0x1_0000_0000_0000,
        ;
        lemma_div_is_ordered((t2 as int) * si, 0x1_0000_0000, 65536);
    }
    r
}

} // verus!
