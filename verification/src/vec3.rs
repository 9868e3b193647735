//! Three-component Q16.16 vectors: positions, directions and linear
//! colors.
//!
//! `normalize` of the zero vector returns the zero vector rather than
//! failing; callers tolerate the degenerate result.  Components of a
//! normalized nonzero vector are bounded by 2.0, which keeps every
//! later product inside the fixed-point range.

use crate::fixed::{
    fdiv, fmul, fsqrt, fx_div, fx_mul, fx_sqrt, lemma_fmul_bounds, lemma_floor_div_neg,
};
use vstd::arithmetic::div_mod::{lemma_div_is_ordered, lemma_div_pos_is_pos};
use vstd::prelude::*;

verus! {

/// Largest component magnitude accepted by the vector operations.
pub const VEC_ARG_MAX: i64 = 0x4000_0000;

/// Component bound of a normalized vector.
pub const UNIT_BOUND: i64 = 131072;

/// A three-component Q16.16 vector: a position, a direction or a linear
/// RGB color.
#[derive(Clone, Copy, PartialEq, Eq, Structural, Debug)]
pub struct Vec3Fx {
    pub x: i64,
    pub y: i64,
    pub z: i64,
}

/// All three components lie within `m`.
pub open spec fn in_range(v: Vec3Fx, m: int) -> bool {
    -m <= v.x <= m && -m <= v.y <= m && -m <= v.z <= m
}

pub open spec fn v3_zero() -> Vec3Fx {
    Vec3Fx { x: 0, y: 0, z: 0 }
}

pub open spec fn add_spec(a: Vec3Fx, b: Vec3Fx) -> Vec3Fx {
    Vec3Fx { x: (a.x + b.x) as i64, y: (a.y + b.y) as i64, z: (a.z + b.z) as i64 }
}

pub open spec fn sub_spec(a: Vec3Fx, b: Vec3Fx) -> Vec3Fx {
    Vec3Fx { x: (a.x - b.x) as i64, y: (a.y - b.y) as i64, z: (a.z - b.z) as i64 }
}

pub open spec fn scale_spec(v: Vec3Fx, s: int) -> Vec3Fx {
    Vec3Fx { x: fmul(v.x as int, s) as i64, y: fmul(v.y as int, s) as i64, z: fmul(
        v.z as int,
        s,
    ) as i64 }
}

/// The Q16.16 dot product, each term rounded downward.
pub open spec fn dot_spec(a: Vec3Fx, b: Vec3Fx) -> int {
    fmul(a.x as int, b.x as int) + fmul(a.y as int, b.y as int) + fmul(a.z as int, b.z as int)
}

/// The Q16.16 length: square root of the dot product with itself.
pub open spec fn len_spec(v: Vec3Fx) -> int {
    fsqrt(dot_spec(v, v))
}

/// Direction of `v` with unit length; the zero vector stays zero.
pub open spec fn normalize_spec(v: Vec3Fx) -> Vec3Fx {
    let l = len_spec(v);
    if l == 0 {
        v3_zero()
    } else {
        Vec3Fx { x: fdiv(v.x as int, l) as i64, y: fdiv(v.y as int, l) as i64, z: fdiv(
            v.z as int,
            l,
        ) as i64 }
    }
}

/// Mirror reflection of `v` about the unit normal `n`:
/// `v - 2 (v . n) n`.
pub open spec fn reflect_spec(v: Vec3Fx, n: Vec3Fx) -> Vec3Fx {
    sub_spec(v, scale_spec(n, 2 * dot_spec(v, n)))
}

/// Bounds on the dot product from bounds on the operands.
pub proof fn lemma_dot_bounds(a: Vec3Fx, b: Vec3Fx, m: int, n: int)
    requires
        in_range(a, m),
        in_range(b, n),
        0 <= m,
        0 <= n,
    ensures
        -3 * ((m * n) / 65536) - 3 <= dot_spec(a, b) <= 3 * ((m * n) / 65536),
{
    lemma_fmul_bounds(a.x as int, b.x as int, m, n);
    lemma_fmul_bounds(a.y as int, b.y as int, m, n);
    lemma_fmul_bounds(a.z as int, b.z as int, m, n);
}

/// A vector's dot product with itself is nonnegative.
pub proof fn lemma_dot_self_nonneg(v: Vec3Fx)
    ensures
        0 <= dot_spec(v, v),
{
    assert((v.x as int) * (v.x as int) >= 0 && (v.y as int) * (v.y as int) >= 0 && (v.z as int) * (
    v.z as int) >= 0) by (nonlinear_arith);
    lemma_div_pos_is_pos((v.x as int) * (v.x as int), 65536);
    lemma_div_pos_is_pos((v.y as int) * (v.y as int), 65536);
    lemma_div_pos_is_pos((v.z as int) * (v.z as int), 65536);
}

/// When a component is bounded by twice the length, its normalized value
/// is bounded by 2.0.
proof fn lemma_unit_div_bound(c: int, l: int)
    requires
        0 <= c,
        1 <= l,
        c * 65536 <= 131072 * l,
    ensures
        0 <= fdiv(c, l) <= 131072,
        -131072 <= fdiv(-c, l) <= 0,
{
    lemma_div_pos_is_pos(c * 65536, l);
    lemma_div_is_ordered(c * 65536, 131072 * l, l);
    assert((131072 * l) / l == 131072) by (nonlinear_arith)
        requires
            l >= 1,
    ;
    lemma_floor_div_neg(c * 65536, l);
    assert((-c) * 65536 == -(c * 65536)) by (nonlinear_arith);
    lemma_div_is_ordered(c * 65536 + l - 1, 131072 * l + l - 1, l);
    assert((131072 * l + l - 1) == l * 131073 + (-1)) by (nonlinear_arith);
    assert((l * 131073 - 1) / l == 131072) by {
        vstd::arithmetic::div_mod::lemma_fundamental_div_mod_converse(
            l * 131073 - 1,
            l,
            131072,
            l - 1,
        );
        assert(l * 131073 - 1 == 131072 * l + (l - 1)) by (nonlinear_arith);
    }
}

/// A component of a vector cannot outrun twice the computed length.
proof fn lemma_len_dominates(c: int, l: int, d: int)
    requires
        0 <= c,
        1 <= l,
        l * l <= 65536 * d,
        65536 * d < (l + 1) * (l + 1),
        c * c - 65535 <= 65536 * d,
    ensures
        c * 65536 <= 131072 * l,
{
    if c <= 296 {
        assert(l + 1 >= 257) by (nonlinear_arith)
            requires
                l >= 1,
                l * l <= 65536 * d,
                65536 * d < (l + 1) * (l + 1),
        ;
        assert(c * 65536 <= 131072 * l) by (nonlinear_arith)
            requires
                0 <= c <= 296,
                l >= 256,
        ;
    } else {
        assert(2 * l >= c) by (nonlinear_arith)
            requires
                c >= 297,
                l >= 1,
                (l + 1) * (l + 1) > c * c - 65535,
        ;
        assert(c * 65536 <= 131072 * l) by (nonlinear_arith)
            requires
                c <= 2 * l,
        ;
    }
}

pub fn v3_add(a: Vec3Fx, b: Vec3Fx) -> (r: Vec3Fx)
    requires
        in_range(a, VEC_ARG_MAX as int),
        in_range(b, VEC_ARG_MAX as int),
    ensures
        r == add_spec(a, b),
        in_range(r, 2 * VEC_ARG_MAX),
{
    Vec3Fx { x: a.x + b.x, y: a.y + b.y, z: a.z + b.z }
}

pub fn v3_sub(a: Vec3Fx, b: Vec3Fx) -> (r: Vec3Fx)
    requires
        in_range(a, VEC_ARG_MAX as int),
        in_range(b, VEC_ARG_MAX as int),
    ensures
        r == sub_spec(a, b),
        in_range(r, 2 * VEC_ARG_MAX),
{
    Vec3Fx { x: a.x - b.x, y: a.y - b.y, z: a.z - b.z }
}

pub fn v3_scale(v: Vec3Fx, s: i64) -> (r: Vec3Fx)
    requires
        in_range(v, VEC_ARG_MAX as int),
        -VEC_ARG_MAX <= s <= VEC_ARG_MAX,
    ensures
        r == scale_spec(v, s as int),
{
    Vec3Fx { x: fx_mul(v.x, s), y: fx_mul(v.y, s), z: fx_mul(v.z, s) }
}

pub fn v3_dot(a: Vec3Fx, b: Vec3Fx) -> (r: i64)
    requires
        in_range(a, VEC_ARG_MAX as int),
        in_range(b, VEC_ARG_MAX as int),
    ensures
        r == dot_spec(a, b),
{
    proof {
        lemma_fmul_bounds(a.x as int, b.x as int, 0x4000_0000, 0x4000_0000);
        lemma_fmul_bounds(a.y as int, b.y as int, 0x4000_0000, 0x4000_0000);
        lemma_fmul_bounds(a.z as int, b.z as int, 0x4000_0000, 0x4000_0000);
    }
    fx_mul(a.x, b.x) + fx_mul(a.y, b.y) + fx_mul(a.z, b.z)
}

pub fn v3_length(v: Vec3Fx) -> (r: i64)
    requires
        in_range(v, VEC_ARG_MAX as int),
    ensures
        r == len_spec(v),
        0 <= r,
{
    proof {
        lemma_dot_bounds(v, v, 0x4000_0000, 0x4000_0000);
        lemma_dot_self_nonneg(v);
    }
    let d: i64 = v3_dot(v, v);
    fx_sqrt(d)
}

/// Normalize, with the zero vector mapped to itself.
pub fn v3_normalize(v: Vec3Fx) -> (r: Vec3Fx)
    requires
        in_range(v, VEC_ARG_MAX as int),
    ensures
        r == normalize_spec(v),
        in_range(r, UNIT_BOUND as int),
{
    let l: i64 = v3_length(v);
    if l == 0 {
        Vec3Fx { x: 0, y: 0, z: 0 }
    } else {
        proof {
            let d = dot_spec(v, v);
            lemma_dot_self_nonneg(v);
            crate::fixed::lemma_isqrt_bounds(65536 * d);
            let li = l as int;
            assert(li * li <= 65536 * d && 65536 * d < (li + 1) * (li + 1));
            lemma_comp_sq_le_dot(v);
            assert(crate::fixed::abs_spec(v.x as int) * crate::fixed::abs_spec(v.x as int) == (
            v.x as int) * (v.x as int) && crate::fixed::abs_spec(v.y as int) * crate::fixed::abs_spec(
                v.y as int,
            ) == (v.y as int) * (v.y as int) && crate::fixed::abs_spec(v.z as int)
                * crate::fixed::abs_spec(v.z as int) == (v.z as int) * (v.z as int))
                by (nonlinear_arith);
            lemma_len_dominates(crate::fixed::abs_spec(v.x as int), li, d);
            lemma_len_dominates(crate::fixed::abs_spec(v.y as int), li, d);
            lemma_len_dominates(crate::fixed::abs_spec(v.z as int), li, d);
            lemma_unit_div_bound(crate::fixed::abs_spec(v.x as int), li);
            lemma_unit_div_bound(crate::fixed::abs_spec(v.y as int), li);
            lemma_unit_div_bound(crate::fixed::abs_spec(v.z as int), li);
        }
        Vec3Fx { x: fx_div(v.x, l), y: fx_div(v.y, l), z: fx_div(v.z, l) }
    }
}

/// Each squared component is dominated by the dot product of the vector
/// with itself, up to one rounding step.
proof fn lemma_comp_sq_le_dot(v: Vec3Fx)
    ensures
        (v.x as int) * (v.x as int) - 65535 <= 65536 * dot_spec(v, v),
        (v.y as int) * (v.y as int) - 65535 <= 65536 * dot_spec(v, v),
        (v.z as int) * (v.z as int) - 65535 <= 65536 * dot_spec(v, v),
{
    let xx = (v.x as int) * (v.x as int);
    let yy = (v.y as int) * (v.y as int);
    let zz = (v.z as int) * (v.z as int);
    assert(xx >= 0 && yy >= 0 && zz >= 0) by (nonlinear_arith)
        requires
            xx == (v.x as int) * (v.x as int),
            yy == (v.y as int) * (v.y as int),
            zz == (v.z as int) * (v.z as int),
    ;
    lemma_div_pos_is_pos(xx, 65536);
    lemma_div_pos_is_pos(yy, 65536);
    lemma_div_pos_is_pos(zz, 65536);
    vstd::arithmetic::div_mod::lemma_fundamental_div_mod(xx, 65536);
    vstd::arithmetic::div_mod::lemma_fundamental_div_mod(yy, 65536);
    vstd::arithmetic::div_mod::lemma_fundamental_div_mod(zz, 65536);
}

/// Equirectangular texture coordinates of a unit normal:
/// `u = 0.5 + atan2(z, x) / (2 pi)`, `v = 0.5 - asin(y) / pi`, both
/// clamped into [0, 1].
pub open spec fn sphere_uv_spec(n: Vec3Fx) -> (int, int) {
    (
        crate::fixed::clamp01_spec(
            32768 + fdiv(crate::trig::atan2_spec(n.z as int, n.x as int), 411775),
        ),
        crate::fixed::clamp01_spec(32768 - fdiv(crate::trig::asin_spec(n.y as int), 205887)),
    )
}

/// Map a unit normal to equirectangular texture coordinates in [0, 1].
pub fn sphere_uv(n: Vec3Fx) -> (uv: (i64, i64))
    requires
        in_range(n, UNIT_BOUND as int),
    ensures
        uv.0 == sphere_uv_spec(n).0,
        uv.1 == sphere_uv_spec(n).1,
        0 <= uv.0 <= 65536,
        0 <= uv.1 <= 65536,
{
    let a: i64 = crate::trig::atan2_fx(n.z, n.x);
    let u: i64 = crate::fixed::fx_clamp01(32768 + fx_div(a, 411775));
    let s: i64 = crate::trig::asin_fx(n.y);
    let v: i64 = crate::fixed::fx_clamp01(32768 - fx_div(s, 205887));
    (u, v)
}

pub fn v3_reflect(v: Vec3Fx, n: Vec3Fx) -> (r: Vec3Fx)
    requires
        in_range(v, 0x40000),
        in_range(n, 0x40000),
    ensures
        r == reflect_spec(v, n),
        in_range(r, 0x200_0000),
{
    proof {
        lemma_dot_bounds(v, n, 0x40000, 0x40000);
    }
    let d: i64 = v3_dot(v, n);
    let s: Vec3Fx = v3_scale(n, 2 * d);
    proof {
        lemma_fmul_bounds(n.x as int, 2 * d, 0x40000, 0x600006);
        lemma_fmul_bounds(n.y as int, 2 * d, 0x40000, 0x600006);
        lemma_fmul_bounds(n.z as int, 2 * d, 0x40000, 0x600006);
    }
    v3_sub(v, s)
}

} // verus!
