//! Analytic ray-sphere intersection.
//!
//! The quadratic from the ray-sphere equation is solved in Q16.16: if the
//! discriminant is negative there is no hit; otherwise the smaller root
//! beyond a small positive epsilon wins, to avoid self-intersection; if
//! neither root clears the epsilon there is no hit.

use crate::fixed::{
    abs_spec, fdiv, fmul, fsqrt, fx_div, fx_mul, fx_sqrt, lemma_fmul_bounds, lemma_isqrt_bounds,
};
use crate::vec3::{
    dot_spec, in_range, lemma_dot_bounds, lemma_dot_self_nonneg, sub_spec, v3_dot, v3_sub, Vec3Fx,
};
use vstd::arithmetic::div_mod::{
    lemma_div_is_ordered, lemma_div_pos_is_pos, lemma_fundamental_div_mod,
    lemma_fundamental_div_mod_converse,
};
use vstd::prelude::*;

verus! {

/// Hits closer than this distance are ignored, to avoid
/// self-intersection: 0.001 in Q16.16.
pub const HIT_EPS: i64 = 65;

/// Largest coordinate magnitude of ray origins and sphere centers.
pub const WORLD_MAX: i64 = 0x40_0000;

/// Largest sphere radius.
pub const RADIUS_MAX: i64 = 0x10_0000;

/// Largest direction-component magnitude accepted by the intersector.
pub const DIR_MAX: i64 = 0x4_0000;

/// A half line: origin and direction.  The direction is expected to be
/// unit length where noted; it is never mutated.
#[derive(Clone, Copy, PartialEq, Eq, Structural, Debug)]
pub struct Ray {
    pub origin: Vec3Fx,
    pub dir: Vec3Fx,
}

/// An immutable scene sphere.
#[derive(Clone, Copy, PartialEq, Eq, Structural, Debug)]
pub struct Sphere {
    pub center: Vec3Fx,
    pub radius: i64,
}

pub open spec fn ray_wf(r: Ray) -> bool {
    in_range(r.origin, WORLD_MAX as int) && in_range(r.dir, DIR_MAX as int)
}

pub open spec fn sphere_wf(s: Sphere) -> bool {
    in_range(s.center, WORLD_MAX as int) && 0 < s.radius <= RADIUS_MAX
}

/// The distance along the ray of the chosen root, or `None` on a miss.
pub open spec fn intersect_spec(ray: Ray, s: Sphere) -> Option<int> {
    let oc = sub_spec(ray.origin, s.center);
    let a = dot_spec(ray.dir, ray.dir);
    let b = 2 * dot_spec(oc, ray.dir);
    let c = dot_spec(oc, oc) - fmul(s.radius as int, s.radius as int);
    if a <= 0 {
        None
    } else {
        let disc = fmul(b, b) - 4 * fmul(a, c);
        if disc < 0 {
            None
        } else {
            let sq = fsqrt(disc);
            let t0 = fdiv(-b - sq, 2 * a);
            let t1 = fdiv(-b + sq, 2 * a);
            if t0 > 65 {
                Some(t0)
            } else if t1 > 65 {
                Some(t1)
            } else {
                None
            }
        }
    }
}

/// Solve the ray-sphere quadratic, exactly as `intersect_spec` states it.
/// A returned distance always exceeds the epsilon.
pub fn intersect(ray: &Ray, s: &Sphere) -> (r: Option<i64>)
    requires
        ray_wf(*ray),
        sphere_wf(*s),
    ensures
        r is Some <==> intersect_spec(*ray, *s) is Some,
        r is Some ==> r->0 == intersect_spec(*ray, *s)->0 && r->0 > 65,
{
    let oc: Vec3Fx = v3_sub(ray.origin, s.center);
    let a: i64 = v3_dot(ray.dir, ray.dir);
    proof {
        lemma_dot_self_nonneg(ray.dir);
        lemma_dot_bounds(ray.dir, ray.dir, 0x4_0000, 0x4_0000);
        lemma_dot_bounds(oc, ray.dir, 0x80_0000, 0x4_0000);
        lemma_dot_bounds(oc, oc, 0x80_0000, 0x80_0000);
        lemma_fmul_bounds(s.radius as int, s.radius as int, 0x10_0000, 0x10_0000);
    }
    if a <= 0 {
        return None;
    }
    let b: i64 = 2 * v3_dot(oc, ray.dir);
    let c: i64 = v3_dot(oc, oc) - fx_mul(s.radius, s.radius);
    proof {
        lemma_fmul_bounds(b as int, b as int, 0x1000_0000, 0x1000_0000);
        lemma_fmul_bounds(a as int, c as int, 0x30_0000, 0x1_0000_0000);
    }
    let disc: i64 = fx_mul(b, b) - 4 * fx_mul(a, c);
    if disc < 0 {
        return None;
    }
    proof {
        assert(-0x1C1_0000_0000 <= disc as int <= 0x1C1_0000_0000);
    }
    let sq: i64 = fx_sqrt(disc);
    proof {
        assert((sq as int) <= 0x4000_0000) by (nonlinear_arith)
            requires
                (sq as int) * (sq as int) <= 65536 * 0x1C1_0000_0000,
                0 <= sq as int,
        ;
    }
    let t0: i64 = fx_div(-b - sq, 2 * a);
    let t1: i64 = fx_div(-b + sq, 2 * a);
    if t0 > 65 {
        Some(t0)
    } else if t1 > 65 {
        Some(t1)
    } else {
        None
    }
}

/// A ray that starts outside a sphere (or on it) and does not advance
/// toward it never hits it.
pub proof fn lemma_ray_away_misses(ray: Ray, s: Sphere)
    requires
        ray_wf(ray),
        sphere_wf(s),
        dot_spec(sub_spec(ray.origin, s.center), ray.dir) >= 0,
        dot_spec(sub_spec(ray.origin, s.center), sub_spec(ray.origin, s.center)) >= fmul(
            s.radius as int,
            s.radius as int,
        ),
    ensures
        intersect_spec(ray, s) is None,
{
    let oc = sub_spec(ray.origin, s.center);
    let a = dot_spec(ray.dir, ray.dir);
    let b = 2 * dot_spec(oc, ray.dir);
    let c = dot_spec(oc, oc) - fmul(s.radius as int, s.radius as int);
    if a > 0 {
        let disc = fmul(b, b) - 4 * fmul(a, c);
        if disc >= 0 {
            assert(a * c >= 0) by (nonlinear_arith)
                requires
                    a >= 0,
                    c >= 0,
            ;
            lemma_div_pos_is_pos(a * c, 65536);
            lemma_fundamental_div_mod(b * b, 65536);
            assert(65536 * disc <= b * b);
            let sq = fsqrt(disc);
            lemma_isqrt_bounds(65536 * disc);
            assert(sq * sq <= b * b);
            assert(sq <= b) by (nonlinear_arith)
                requires
                    sq * sq <= b * b,
                    sq >= 0,
                    b >= 0,
            ;
            lemma_div_is_ordered((-b - sq) * 65536, 0, 2 * a);
            lemma_div_is_ordered((-b + sq) * 65536, 0, 2 * a);
            assert((-b - sq) * 65536 <= 0 && (-b + sq) * 65536 <= 0) by (nonlinear_arith)
                requires
                    sq <= b,
                    0 <= sq,
            ;
            assert(0int / (2 * a) == 0) by {
                vstd::arithmetic::div_mod::lemma_div_of0(2 * a);
            }
        }
    }
}

/// A ray whose direction is unit length and passes through the center of
/// a sphere from outside hits it at the distance from the origin to the
/// center minus the radius, within a tolerance of 1/256.
///
/// The hypotheses state the computed quadratic coefficients of such a
/// ray, with `lng` the distance to the center; they hold, for example,
/// for an axis-aligned unit direction with the center `lng` away along
/// it.
pub proof fn lemma_ray_through_center_hits(ray: Ray, s: Sphere, lng: int)
    requires
        ray_wf(ray),
        sphere_wf(s),
        dot_spec(ray.dir, ray.dir) == 65536,
        dot_spec(sub_spec(ray.origin, s.center), ray.dir) == -lng,
        dot_spec(sub_spec(ray.origin, s.center), sub_spec(ray.origin, s.center)) == (lng * lng)
            / 65536,
        s.radius >= 256,
        s.radius + 512 <= lng <= 0x80_0000,
    ensures
        intersect_spec(ray, s) is Some,
        abs_spec(intersect_spec(ray, s)->0 - (lng - s.radius)) <= 256,
{
    let oc = sub_spec(ray.origin, s.center);
    let a = dot_spec(ray.dir, ray.dir);
    let b = 2 * dot_spec(oc, ray.dir);
    let c = dot_spec(oc, oc) - fmul(s.radius as int, s.radius as int);
    let rr = (s.radius as int) * (s.radius as int);
    let bigl = lng * lng;
    assert(b == -2 * lng);
    // fmul(a, c) collapses because a is exactly one
    assert(fmul(a, c) == c) by {
        assert(65536 * c / 65536 == c) by (nonlinear_arith);
        assert(a * c == 65536 * c) by (nonlinear_arith)
            requires
                a == 65536,
        ;
    }
    // split the two squared terms into quotient and remainder
    let q = bigl / 65536;
    let rem = bigl % 65536;
    lemma_fundamental_div_mod(bigl, 65536);
    assert(b * b == 4 * bigl) by (nonlinear_arith)
        requires
            b == -2 * lng,
            bigl == lng * lng,
    ;
    assert(4 * bigl == 65536 * (4 * q) + 4 * rem);
    let dq = (4 * rem) / 65536;
    let dr = (4 * rem) % 65536;
    lemma_fundamental_div_mod(4 * rem, 65536);
    assert(4 * bigl == 65536 * (4 * q + dq) + dr) by (nonlinear_arith)
        requires
            4 * bigl == 65536 * (4 * q) + 4 * rem,
            4 * rem == 65536 * dq + dr,
    ;
    lemma_fundamental_div_mod_converse(4 * bigl, 65536, 4 * q + dq, dr);
    assert(fmul(b, b) == 4 * q + dq);
    assert(0 <= dq <= 3) by {
        lemma_div_is_ordered(0, 4 * rem, 65536);
        lemma_div_is_ordered(4 * rem, 262140, 65536);
    }
    let rq = rr / 65536;
    let rrem = rr % 65536;
    lemma_fundamental_div_mod(rr, 65536);
    let disc = fmul(b, b) - 4 * fmul(a, c);
    assert(disc == 4 * rq + dq);
    // the discriminant stays within one step of four radius squares
    assert(4 * rr - 262140 <= 65536 * disc <= 4 * rr + 196608);
    assert(rr >= 65536) by (nonlinear_arith)
        requires
            s.radius >= 256,
            rr == (s.radius as int) * (s.radius as int),
    ;
    assert(disc >= 0) by {
        lemma_div_is_ordered(65536, rr, 65536);
    }
    let sq = fsqrt(disc);
    lemma_isqrt_bounds(65536 * disc);
    let rho = s.radius as int;
    assert(sq <= 2 * rho + 184) by (nonlinear_arith)
        requires
            sq * sq <= 65536 * disc,
            65536 * disc <= 4 * rr + 196608,
            rr == rho * rho,
            rho >= 256,
            sq >= 0,
    ;
    assert(sq >= 2 * rho - 512) by (nonlinear_arith)
        requires
            65536 * disc < (sq + 1) * (sq + 1),
            65536 * disc >= 4 * rr - 262140,
            rr == rho * rho,
            rho >= 256,
            sq >= 0,
    ;
    // the chosen root is half of (2 lng - sq)
    let num = -b - sq;
    assert(num == 2 * lng - sq);
    let t0 = fdiv(num, 2 * a);
    let h = num / 2;
    assert(num * 65536 == 131072 * h + 65536 * (num % 2)) by (nonlinear_arith)
        requires
            num == 2 * h + num % 2,
    ;
    assert(0 <= 65536 * (num % 2) < 131072) by {
        lemma_fundamental_div_mod(num, 2);
    }
    lemma_fundamental_div_mod_converse(num * 65536, 131072, h, 65536 * (num % 2));
    assert(t0 == h);
    assert(2 * (lng - rho) - 184 <= num <= 2 * (lng - rho) + 512);
    assert(lng - rho - 92 <= h <= lng - rho + 256) by {
        lemma_fundamental_div_mod(num, 2);
    }
    assert(t0 > 65);
}

} // verus!
