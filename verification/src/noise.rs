//! Deterministic hash and derived one-dimensional value/fractal noise.
//!
//! `hash` is an integer mixing function (multiply-add by 1664525 /
//! 1013904223, then a 16-bit xorshift).  `value_noise` takes the low 16
//! bits of the hash as a Q16.16 fraction in [0, 1).  `fractal_noise` sums
//! five octaves of linearly interpolated value noise, with frequency
//! doubling and amplitude halving per octave, so its total stays below
//! 0.96875.  All three are pure: the same input always yields the same
//! output.

use crate::fixed::{
    abs_spec, fmul, fx_floor_fract, fx_mul, lemma_fmul_bounds, lemma_fmul_unit, FX_ARG_MAX,
};
use vstd::arithmetic::div_mod::{
    lemma_div_is_ordered, lemma_fundamental_div_mod, lemma_fundamental_div_mod_converse,
    lemma_hoist_over_denominator,
};
use vstd::arithmetic::mul::lemma_mul_inequality;
use vstd::prelude::*;

verus! {

/// Largest magnitude accepted by `fractal_noise`; the highest octave
/// scales the argument by 16 and must stay within the fixed-point range.
pub const FRACTAL_ARG_MAX: i64 = 0x4_0000_0000;

/// The integer mix underlying all noise in the renderer.
pub open spec fn hash_spec(x: u32) -> u32 {
    let m = (((x as int) * 1664525 + 1013904223) % 0x1_0000_0000) as u32;
    m ^ (m >> 16)
}

/// Reduction of a lattice index to the hash domain.
pub open spec fn wrap_u32(i: int) -> u32 {
    (i % 0x1_0000_0000) as u32
}

/// Value noise at a lattice point: the low 16 hash bits as a Q16.16
/// fraction in [0, 1).
pub open spec fn vnoise(i: int) -> int {
    (hash_spec(wrap_u32(i)) & 0xffff) as int
}

/// Linear interpolation between `a` and `b` with Q16.16 weight `f`.
pub open spec fn lerp16(a: int, b: int, f: int) -> int {
    a + ((b - a) * f) / 65536
}

/// Value noise extended to the whole Q16.16 line by interpolation between
/// the two neighbouring lattice points.
pub open spec fn noise_at(y: int) -> int {
    lerp16(vnoise(y / 65536), vnoise(y / 65536 + 1), y % 65536)
}

/// Five octaves of interpolated value noise: frequency doubles and
/// amplitude halves from octave to octave, starting at 1.0 and 0.5.
pub open spec fn fractal_spec(x: int) -> int {
    fmul(noise_at(x), 32768) + fmul(noise_at(2 * x), 16384) + fmul(noise_at(4 * x), 8192) + fmul(
        noise_at(8 * x),
        4096,
    ) + fmul(noise_at(16 * x), 2048)
}

/// Value noise is always inside [0, 1).
pub proof fn lemma_vnoise_range(i: int)
    ensures
        0 <= vnoise(i) < 65536,
{
    let h = hash_spec(wrap_u32(i));
    assert(h & 0xffff < 0x10000) by (bit_vector);
}

/// Interpolation stays between its endpoints.
pub proof fn lemma_lerp_range(a: int, b: int, f: int)
    requires
        0 <= f <= 65536,
    ensures
        a <= b ==> a <= lerp16(a, b, f) <= b,
        b <= a ==> b <= lerp16(a, b, f) <= a,
{
    let d = b - a;
    if d >= 0 {
        lemma_mul_inequality(0, f, d);
        assert(d * f <= d * 65536) by (nonlinear_arith)
            requires
                0 <= f <= 65536,
                d >= 0,
        ;
        lemma_div_is_ordered(0, d * f, 65536);
        lemma_div_is_ordered(d * f, d * 65536, 65536);
        assert(d * 65536 / 65536 == d) by (nonlinear_arith);
        assert(d * 0 == 0) by (nonlinear_arith);
    } else {
        assert(d * 65536 <= d * f && d * f <= d * 0) by (nonlinear_arith)
            requires
                0 <= f <= 65536,
                d < 0,
        ;
        lemma_div_is_ordered(d * 65536, d * f, 65536);
        lemma_div_is_ordered(d * f, d * 0, 65536);
        assert(d * 65536 / 65536 == d) by (nonlinear_arith);
        assert(d * 0 == 0) by (nonlinear_arith);
    }
}

/// Interpolated value noise is inside [0, 1).
pub proof fn lemma_noise_at_range(y: int)
    ensures
        0 <= noise_at(y) < 65536,
{
    let n = y / 65536;
    let f = y % 65536;
    lemma_vnoise_range(n);
    lemma_vnoise_range(n + 1);
    lemma_lerp_range(vnoise(n), vnoise(n + 1), f);
}

/// The deterministic hash distinguishes at least two inputs: it is not a
/// constant function.
pub proof fn lemma_hash_not_constant()
    ensures
        hash_spec(0) != hash_spec(1),
{
    assert(wrap_u32(0) == 0 && wrap_u32(1) == 1);
    assert((0 * 1664525 + 1013904223) % 0x1_0000_0000 == 1013904223);
    assert((1 * 1664525 + 1013904223) % 0x1_0000_0000 == 1015568748);
    assert(1013904223u32 ^ (1013904223u32 >> 16) != 1015568748u32 ^ (1015568748u32 >> 16))
        by (bit_vector);
}

/// The integer mix, exactly as `hash_spec` states it.
pub fn hash(x: u32) -> (r: u32)
    ensures
        r == hash_spec(x),
{
    let m: u32 = (((x as u64) * 1664525 + 1013904223) % 0x1_0000_0000) as u32;
    m ^ (m >> 16)
}

/// Euclidean reduction of a signed lattice index into the hash domain.
fn wrap_index(i: i64) -> (w: u32)
    requires
        -FX_ARG_MAX <= i <= FX_ARG_MAX,
    ensures
        w == wrap_u32(i as int),
{
    if i >= 0 {
        ((i as u64) % 0x1_0000_0000) as u32
    } else {
        let m: u64 = ((-i) as u64) % 0x1_0000_0000;
        proof {
            let n = -(i as int);
            let q = n / 0x1_0000_0000;
            lemma_fundamental_div_mod(n, 0x1_0000_0000);
            if m == 0 {
                lemma_fundamental_div_mod_converse(i as int, 0x1_0000_0000, -q, 0);
            } else {
                lemma_fundamental_div_mod_converse(
                    i as int,
                    0x1_0000_0000,
                    -q - 1,
                    0x1_0000_0000 - m,
                );
            }
        }
        if m == 0 {
            0
        } else {
            (0x1_0000_0000 - m) as u32
        }
    }
}

/// Value noise at a lattice index.
pub fn value_noise(i: i64) -> (r: i64)
    requires
        -FX_ARG_MAX <= i <= FX_ARG_MAX,
    ensures
        r == vnoise(i as int),
        0 <= r < 65536,
{
    let w: u32 = wrap_index(i);
    let h: u32 = hash(w);
    proof {
        lemma_vnoise_range(i as int);
    }
    (h & 0xffff) as i64
}

/// One octave sample: value noise interpolated between the lattice points
/// around `y`.
fn noise_sample(y: i64) -> (r: i64)
    requires
        -0x40_0000_0000 <= y <= 0x40_0000_0000,
    ensures
        r == noise_at(y as int),
        0 <= r < 65536,
{
    let parts: (i64, i64) = fx_floor_fract(y);
    let v0: i64 = value_noise(parts.0);
    let v1: i64 = value_noise(parts.0 + 1);
    proof {
        lemma_noise_at_range(y as int);
    }
    v0 + fx_mul(v1 - v0, parts.1)
}

/// Five-octave fractal noise; the result is in [0, 0.96875).
pub fn fractal_noise(x: i64) -> (r: i64)
    requires
        -FRACTAL_ARG_MAX <= x <= FRACTAL_ARG_MAX,
    ensures
        r == fractal_spec(x as int),
        0 <= r < 63488,
{
    let n0: i64 = noise_sample(x);
    let n1: i64 = noise_sample(2 * x);
    let n2: i64 = noise_sample(4 * x);
    let n3: i64 = noise_sample(8 * x);
    let n4: i64 = noise_sample(16 * x);
    proof {
        lemma_fmul_unit(n0 as int, 32768);
        lemma_fmul_unit(n1 as int, 16384);
        lemma_fmul_unit(n2 as int, 8192);
        lemma_fmul_unit(n3 as int, 4096);
        lemma_fmul_unit(n4 as int, 2048);
        lemma_fmul_bounds(n0 as int, 32768, 65535, 32768);
        lemma_fmul_bounds(n1 as int, 16384, 65535, 16384);
        lemma_fmul_bounds(n2 as int, 8192, 65535, 8192);
        lemma_fmul_bounds(n3 as int, 4096, 65535, 4096);
        lemma_fmul_bounds(n4 as int, 2048, 65535, 2048);
    }
    fx_mul(n0, 32768) + fx_mul(n1, 16384) + fx_mul(n2, 8192) + fx_mul(n3, 4096) + fx_mul(n4, 2048)
}

/// Moving one Q16.16 step changes interpolated value noise by at most one
/// step, also when the move crosses a lattice point.
proof fn lemma_noise_at_step(y: int)
    ensures
        abs_spec(noise_at(y + 1) - noise_at(y)) <= 1,
{
    let n = y / 65536;
    let f = y % 65536;
    lemma_fundamental_div_mod(y, 65536);
    let v0 = vnoise(n);
    let v1 = vnoise(n + 1);
    let a = v1 - v0;
    lemma_vnoise_range(n);
    lemma_vnoise_range(n + 1);
    if f < 65535 {
        lemma_fundamental_div_mod_converse(y + 1, 65536, n, f + 1);
        let s = a * f;
        let q = s / 65536;
        let r = s % 65536;
        lemma_fundamental_div_mod(s, 65536);
        assert(a * (f + 1) == 65536 * q + (r + a)) by (nonlinear_arith)
            requires
                a * f == 65536 * q + r,
        ;
        lemma_hoist_over_denominator(r + a, q, 65536);
        assert(a * (f + 1) / 65536 == q + (r + a) / 65536);
        assert(-65536 < r + a < 131072);
        assert(-1 <= (r + a) / 65536 <= 1) by {
            lemma_div_is_ordered(-65535, r + a, 65536);
            lemma_div_is_ordered(r + a, 131071, 65536);
            assert((-65535int) / 65536 == -1 && 131071int / 65536 == 1);
        }
    } else {
        lemma_fundamental_div_mod_converse(y + 1, 65536, n + 1, 0);
        assert(noise_at(y + 1) == vnoise(n + 1) + (vnoise(n + 2) - vnoise(n + 1)) * 0 / 65536);
        assert((vnoise(n + 2) - vnoise(n + 1)) * 0 == 0) by (nonlinear_arith);
        assert(a * 65535 == 65536 * a + (-a)) by (nonlinear_arith);
        lemma_hoist_over_denominator(-a, a, 65536);
        assert(a * 65535 / 65536 == a + (-a) / 65536);
        assert(-1 <= (-a) / 65536 <= 0) by {
            lemma_div_is_ordered(-65535, -a, 65536);
            lemma_div_is_ordered(-a, 65535, 65536);
            assert((-65535int) / 65536 == -1 && 65535int / 65536 == 0);
        }
    }
}

/// Interpolated value noise is 1-Lipschitz in Q16.16 steps.
proof fn lemma_noise_at_lipschitz(y: int, d: int)
    requires
        0 <= d,
    ensures
        abs_spec(noise_at(y + d) - noise_at(y)) <= d,
    decreases d,
{
    if d > 0 {
        lemma_noise_at_lipschitz(y, d - 1);
        lemma_noise_at_step(y + d - 1);
    }
}

/// A bounded change of the noise sample changes the scaled octave term by
/// at most `e / 65536 + 1`.
proof fn lemma_octave_diff(p: int, q: int, amp: int, e: int)
    requires
        abs_spec(p - q) <= e,
        0 <= e,
        0 < amp <= 65536,
    ensures
        abs_spec(fmul(p, amp) - fmul(q, amp)) <= (e * amp) / 65536 + 1,
{
    let s = q * amp;
    let sq = s / 65536;
    let sr = s % 65536;
    lemma_fundamental_div_mod(s, 65536);
    let c = (p - q) * amp;
    assert(p * amp == 65536 * sq + (sr + c)) by (nonlinear_arith)
        requires
            q * amp == 65536 * sq + sr,
            c == (p - q) * amp,
    ;
    lemma_hoist_over_denominator(sr + c, sq, 65536);
    assert(fmul(p, amp) - fmul(q, amp) == (sr + c) / 65536);
    assert(-(e * amp) <= c <= e * amp) by (nonlinear_arith)
        requires
            abs_spec(p - q) <= e,
            0 <= e,
            0 < amp,
            c == (p - q) * amp,
    ;
    lemma_hoist_over_denominator(e * amp + 65535, -1, 65536);
    assert((e * amp + 65535) / 65536 == (e * amp - 1) / 65536 + 1);
    lemma_div_is_ordered(e * amp - 1, e * amp, 65536);
    lemma_div_is_ordered(sr + c, e * amp + 65535, 65536);
    assert((sr + c) / 65536 <= (e * amp) / 65536 + 1);
    lemma_div_is_ordered(-(e * amp), sr + c, 65536);
    crate::fixed::lemma_floor_div_neg(e * amp, 65536);
    assert((sr + c) / 65536 >= -((e * amp) / 65536) - 1);
}

/// Continuity of the fractal noise: moving the input by `d` Q16.16 steps
/// moves the output by at most `3 * d + 5` steps, lattice crossings
/// included.  As the step shrinks toward zero, so does the change.
pub proof fn lemma_fractal_noise_continuous(x: int, d: int)
    requires
        0 <= d,
    ensures
        abs_spec(fractal_spec(x + d) - fractal_spec(x)) <= 3 * d + 5,
{
    lemma_noise_at_lipschitz(x, d);
    lemma_noise_at_lipschitz(2 * x, 2 * d);
    lemma_noise_at_lipschitz(4 * x, 4 * d);
    lemma_noise_at_lipschitz(8 * x, 8 * d);
    lemma_noise_at_lipschitz(16 * x, 16 * d);
    assert(2 * (x + d) == 2 * x + 2 * d && 4 * (x + d) == 4 * x + 4 * d && 8 * (x + d) == 8 * x + 8
        * d && 16 * (x + d) == 16 * x + 16 * d) by (nonlinear_arith);
    lemma_octave_diff(noise_at(x + d), noise_at(x), 32768, d);
    lemma_octave_diff(noise_at(2 * x + 2 * d), noise_at(2 * x), 16384, 2 * d);
    lemma_octave_diff(noise_at(4 * x + 4 * d), noise_at(4 * x), 8192, 4 * d);
    lemma_octave_diff(noise_at(8 * x + 8 * d), noise_at(8 * x), 4096, 8 * d);
    lemma_octave_diff(noise_at(16 * x + 16 * d), noise_at(16 * x), 2048, 16 * d);
    let t = d / 2;
    let u = d % 2;
    lemma_fundamental_div_mod(d, 2);
    assert(d * 32768 == t * 65536 + u * 32768) by (nonlinear_arith)
        requires
            d == 2 * t + u,
    ;
    assert(0 <= u * 32768 < 65536) by (nonlinear_arith)
        requires
            0 <= u < 2,
    ;
    lemma_fundamental_div_mod_converse(d * 32768, 65536, t, u * 32768);
    assert((d * 32768) / 65536 == t);
    assert((2 * d) * 16384 == d * 32768 && (4 * d) * 8192 == d * 32768 && (8 * d) * 4096 == d
        * 32768 && (16 * d) * 2048 == d * 32768) by (nonlinear_arith);
    assert(5 * t <= 3 * d);
}

} // verus!
