//! Per-material shading: the star, the rocky planet, the gas giant and
//! the moon, plus the background glow for rays that miss everything.
//!
//! Each shader is a pure function of the local surface data, the light
//! direction and the frame time, returning a linear RGB color.  The
//! star, rocky and gas-giant shaders clamp each channel into [0, 1];
//! the background may exceed 1 and is only clamped by the tone mapper.

use crate::fixed::{
    abs_spec, clamp01_spec, fdiv, fmul, fpow, fx_abs, fx_clamp01, fx_div, fx_mul, fx_powi,
    lemma_fmul_bounds, lemma_fmul_nonneg, lemma_fmul_unit,
};
use crate::noise::{fractal_spec, fractal_noise, lemma_lerp_range, lerp16};
use crate::trig::{asin_fx, asin_spec, sin_fx, sin_spec, smoothstep, smoothstep_spec};
use crate::vec3::{
    dot_spec, in_range, len_spec, lemma_dot_bounds, reflect_spec, scale_spec, v3_dot, v3_length,
    v3_reflect, v3_scale, Vec3Fx, UNIT_BOUND,
};
use vstd::prelude::*;

verus! {

/// Largest time magnitude accepted by the shaders; the caller wraps
/// longer-running clocks into this window before rendering a frame.
pub const TIME_MAX: i64 = 0x40_0000;

/// The closed set of surface materials of the scene.
#[derive(Clone, Copy, PartialEq, Eq, Structural, Debug)]
pub enum Material {
    Star,
    Rocky,
    GasGiant,
    Moon,
}

/// A color channel is a Q16.16 value in the unit interval.
pub open spec fn channel_ok(c: int) -> bool {
    0 <= c <= 65536
}

/// All channels of a shaded color lie in the unit interval.
pub open spec fn color_ok(c: Vec3Fx) -> bool {
    channel_ok(c.x as int) && channel_ok(c.y as int) && channel_ok(c.z as int)
}

/// Product of two unit-interval values, staying in the unit interval.
fn mul01(a: i64, b: i64) -> (r: i64)
    requires
        0 <= a <= 65536,
        0 <= b <= 65536,
    ensures
        r == fmul(a as int, b as int),
        0 <= r <= 65536,
        r <= a,
        r <= b,
{
    proof {
        lemma_fmul_unit(a as int, b as int);
    }
    fx_mul(a, b)
}

/// Interpolate one color channel; endpoints in the unit interval keep
/// the result there.
fn lerp_ch(a: i64, b: i64, w: i64) -> (r: i64)
    requires
        0 <= a <= 65536,
        0 <= b <= 65536,
        0 <= w <= 65536,
    ensures
        r == lerp16(a as int, b as int, w as int),
        0 <= r <= 65536,
{
    proof {
        lemma_lerp_range(a as int, b as int, w as int);
    }
    a + fx_mul(b - a, w)
}

/// The star's color: a radial falloff from the body center, a pulsing
/// glow driven by time and noise, and a rim term toward the silhouette.
pub open spec fn shade_star_spec(local: Vec3Fx, normal: Vec3Fx, time: int) -> Vec3Fx {
    let intensity = clamp01_spec(fdiv(65536, 32768 + 5 * len_spec(local)));
    let pulse = 32768 + fmul(
        sin_spec(3 * time + fractal_spec(4 * (normal.x + normal.z))),
        32768,
    );
    let rim = fpow(clamp01_spec(65536 - abs_spec(normal.z as int)), 6);
    let glow = fmul(pulse, rim);
    Vec3Fx {
        x: clamp01_spec(fmul(65536, intensity) + fmul(65536, glow)) as i64,
        y: clamp01_spec(fmul(55706, intensity) + fmul(39322, glow)) as i64,
        z: clamp01_spec(fmul(26214, intensity) + fmul(13107, glow)) as i64,
    }
}

pub fn shade_star(local: Vec3Fx, normal: Vec3Fx, time: i64) -> (r: Vec3Fx)
    requires
        in_range(local, 0x4000_0000),
        in_range(normal, UNIT_BOUND as int),
        -TIME_MAX <= time <= TIME_MAX,
    ensures
        r == shade_star_spec(local, normal, time as int),
        color_ok(r),
{
    proof {
        lemma_dot_bounds(local, local, 0x4000_0000, 0x4000_0000);
        crate::vec3::lemma_dot_self_nonneg(local);
        crate::fixed::lemma_isqrt_bounds(65536 * dot_spec(local, local));
    }
    let dist: i64 = v3_length(local);
    proof {
        assert((dist as int) * (dist as int) <= 65536 * (0x3000_0000_0000 as int));
        assert(dist as int <= 0x2000_0000_0000) by (nonlinear_arith)
            requires
                (dist as int) * (dist as int) <= 65536 * 0x3000_0000_0000,
                0 <= dist as int,
        ;
    }
    let intensity: i64 = fx_clamp01(fx_div(65536, 32768 + 5 * dist));
    let pn: i64 = fractal_noise(4 * (normal.x + normal.z));
    let s: i64 = sin_fx(3 * time + pn);
    proof {
        lemma_fmul_bounds(s as int, 32768, 65536, 32768);
    }
    let pulse: i64 = 32768 + fx_mul(s, 32768);
    let rim: i64 = fx_powi(fx_clamp01(65536 - fx_abs(normal.z)), 6);
    let glow: i64 = mul01(pulse, rim);
    Vec3Fx {
        x: fx_clamp01(mul01(65536, intensity) + mul01(65536, glow)),
        y: fx_clamp01(mul01(55706, intensity) + mul01(39322, glow)),
        z: fx_clamp01(mul01(26214, intensity) + mul01(13107, glow)),
    }
}

/// The rocky planet's color: a latitude gradient between two rock tones,
/// a land mask carved from noise, a specular highlight, and an animated
/// cloud layer.
pub open spec fn shade_rocky_spec(
    normal: Vec3Fx,
    u: int,
    v: int,
    light: Vec3Fx,
    view: Vec3Fx,
    time: int,
) -> Vec3Fx {
    let wlat = clamp01_spec(32768 + fmul(normal.y as int, 32768));
    let land = smoothstep_spec(22938, 39322, fractal_spec(fmul(u, 524288) + fmul(v, 524288)));
    let sp = fpow(
        clamp01_spec(dot_spec(view, reflect_spec(scale_spec(light, -65536), normal))),
        32,
    );
    let clouds = smoothstep_spec(
        42598,
        53740,
        fractal_spec(fmul(u, 393216) + fmul(v, 393216) + fmul(time, 6554) + 131072),
    );
    let extra = fmul(sp, 32768) + fmul(clouds, 39322);
    Vec3Fx {
        x: clamp01_spec(lerp16(lerp16(22938, 36045, wlat), 13107, land) + extra) as i64,
        y: clamp01_spec(lerp16(lerp16(19661, 32768, wlat), 29491, land) + extra) as i64,
        z: clamp01_spec(lerp16(lerp16(16384, 29491, wlat), 13107, land) + extra) as i64,
    }
}

pub fn shade_rocky(normal: Vec3Fx, u: i64, v: i64, light: Vec3Fx, view: Vec3Fx, time: i64) -> (r:
    Vec3Fx)
    requires
        in_range(normal, UNIT_BOUND as int),
        in_range(light, UNIT_BOUND as int),
        in_range(view, UNIT_BOUND as int),
        0 <= u <= 65536,
        0 <= v <= 65536,
        -TIME_MAX <= time <= TIME_MAX,
    ensures
        r == shade_rocky_spec(normal, u as int, v as int, light, view, time as int),
        color_ok(r),
{
    proof {
        lemma_fmul_bounds(normal.y as int, 32768, 131072, 32768);
        lemma_fmul_bounds(u as int, 524288, 65536, 524288);
        lemma_fmul_bounds(v as int, 524288, 65536, 524288);
        lemma_fmul_bounds(u as int, 393216, 65536, 393216);
        lemma_fmul_bounds(v as int, 393216, 65536, 393216);
        lemma_fmul_nonneg(u as int, 524288);
        lemma_fmul_nonneg(v as int, 524288);
        lemma_fmul_nonneg(u as int, 393216);
        lemma_fmul_nonneg(v as int, 393216);
        lemma_fmul_bounds(time as int, 6554, 0x40_0000, 6554);
    }
    let wlat: i64 = fx_clamp01(32768 + fx_mul(normal.y, 32768));
    let land: i64 = smoothstep(22938, 39322, fractal_noise(fx_mul(u, 524288) + fx_mul(v, 524288)));
    let refl: Vec3Fx = v3_reflect(v3_scale(light, -65536), normal);
    proof {
        lemma_dot_bounds(view, refl, 131072, 0x200_0000);
    }
    let sp: i64 = fx_powi(fx_clamp01(v3_dot(view, refl)), 32);
    let clouds: i64 = smoothstep(
        42598,
        53740,
        fractal_noise(fx_mul(u, 393216) + fx_mul(v, 393216) + fx_mul(time, 6554) + 131072),
    );
    proof {
        lemma_fmul_unit(sp as int, 32768);
        lemma_fmul_unit(clouds as int, 39322);
    }
    let extra: i64 = fx_mul(sp, 32768) + fx_mul(clouds, 39322);
    Vec3Fx {
        x: fx_clamp01(lerp_ch(lerp_ch(22938, 36045, wlat), 13107, land) + extra),
        y: fx_clamp01(lerp_ch(lerp_ch(19661, 32768, wlat), 29491, land) + extra),
        z: fx_clamp01(lerp_ch(lerp_ch(16384, 29491, wlat), 13107, land) + extra),
    }
}

/// The Lambertian factor `0.2 + 0.8 max(light . normal, 0)` shared by
/// the gas giant and the moon.
pub open spec fn lambert_spec(light: Vec3Fx, normal: Vec3Fx) -> int {
    13107 + fmul(52429, clamp01_spec(dot_spec(light, normal)))
}

fn lambert(light: Vec3Fx, normal: Vec3Fx) -> (r: i64)
    requires
        in_range(light, UNIT_BOUND as int),
        in_range(normal, UNIT_BOUND as int),
    ensures
        r == lambert_spec(light, normal),
        13107 <= r <= 65536,
{
    proof {
        lemma_dot_bounds(light, normal, 131072, 131072);
    }
    let d: i64 = fx_clamp01(v3_dot(light, normal));
    proof {
        lemma_fmul_unit(52429, d as int);
    }
    13107 + fx_mul(52429, d)
}

/// The gas giant's color: latitude bands carved from noise and a sine,
/// dark storm spots from a second noise sample, and Lambertian lighting.
pub open spec fn shade_gas_giant_spec(
    normal: Vec3Fx,
    u: int,
    light: Vec3Fx,
    time: int,
) -> Vec3Fx {
    let lat = asin_spec(normal.y as int);
    let band = smoothstep_spec(
        -45875,
        45875,
        fmul(39322, fractal_spec(12 * lat + fmul(time, 6554))) + fmul(26214, sin_spec(6 * lat)),
    );
    let storm = smoothstep_spec(
        55706,
        62259,
        fractal_spec(fmul(u, 1179648) + fmul(time, 19661) + 458752),
    );
    let lam = lambert_spec(light, normal);
    Vec3Fx {
        x: clamp01_spec(fmul(lerp16(lerp16(52429, 39322, band), 16384, storm), lam)) as i64,
        y: clamp01_spec(fmul(lerp16(lerp16(45875, 29491, band), 13107, storm), lam)) as i64,
        z: clamp01_spec(fmul(lerp16(lerp16(32768, 19661, band), 9830, storm), lam)) as i64,
    }
}

pub fn shade_gas_giant(normal: Vec3Fx, u: i64, light: Vec3Fx, time: i64) -> (r: Vec3Fx)
    requires
        in_range(normal, UNIT_BOUND as int),
        in_range(light, UNIT_BOUND as int),
        0 <= u <= 65536,
        -TIME_MAX <= time <= TIME_MAX,
    ensures
        r == shade_gas_giant_spec(normal, u as int, light, time as int),
        color_ok(r),
{
    let lat: i64 = asin_fx(normal.y);
    proof {
        lemma_fmul_bounds(time as int, 6554, 0x40_0000, 6554);
        lemma_fmul_bounds(time as int, 19661, 0x40_0000, 19661);
        lemma_fmul_bounds(u as int, 1179648, 65536, 1179648);
        lemma_fmul_nonneg(u as int, 1179648);
    }
    let bn: i64 = fractal_noise(12 * lat + fx_mul(time, 6554));
    let bs: i64 = sin_fx(6 * lat);
    proof {
        lemma_fmul_unit(39322, bn as int);
        lemma_fmul_bounds(26214, bs as int, 26214, 65536);
    }
    let band: i64 = smoothstep(-45875, 45875, fx_mul(39322, bn) + fx_mul(26214, bs));
    let storm: i64 = smoothstep(
        55706,
        62259,
        fractal_noise(fx_mul(u, 1179648) + fx_mul(time, 19661) + 458752),
    );
    let lam: i64 = lambert(light, normal);
    Vec3Fx {
        x: fx_clamp01(mul01(lerp_ch(lerp_ch(52429, 39322, band), 16384, storm), lam)),
        y: fx_clamp01(mul01(lerp_ch(lerp_ch(45875, 29491, band), 13107, storm), lam)),
        z: fx_clamp01(mul01(lerp_ch(lerp_ch(32768, 19661, band), 9830, storm), lam)),
    }
}

/// The moon's color: a single slowly scrolling noise sample mapped to a
/// warm-tinted gray, under Lambertian lighting.
pub open spec fn shade_moon_spec(normal: Vec3Fx, u: int, v: int, light: Vec3Fx, time: int) -> Vec3Fx {
    let gray = 13107 + fmul(
        fractal_spec(fmul(u, 655360) + fmul(v, 655360) + fmul(time, 3277)),
        52429,
    );
    let lam = lambert_spec(light, normal);
    Vec3Fx {
        x: clamp01_spec(fmul(clamp01_spec(gray + fmul(gray, 3277)), lam)) as i64,
        y: clamp01_spec(fmul(gray, lam)) as i64,
        z: clamp01_spec(fmul(fmul(gray, 60293), lam)) as i64,
    }
}

pub fn shade_moon(normal: Vec3Fx, u: i64, v: i64, light: Vec3Fx, time: i64) -> (r: Vec3Fx)
    requires
        in_range(normal, UNIT_BOUND as int),
        in_range(light, UNIT_BOUND as int),
        0 <= u <= 65536,
        0 <= v <= 65536,
        -TIME_MAX <= time <= TIME_MAX,
    ensures
        r == shade_moon_spec(normal, u as int, v as int, light, time as int),
        color_ok(r),
{
    proof {
        lemma_fmul_bounds(u as int, 655360, 65536, 655360);
        lemma_fmul_bounds(v as int, 655360, 65536, 655360);
        lemma_fmul_nonneg(u as int, 655360);
        lemma_fmul_nonneg(v as int, 655360);
        lemma_fmul_bounds(time as int, 3277, 0x40_0000, 3277);
    }
    let g: i64 = fractal_noise(fx_mul(u, 655360) + fx_mul(v, 655360) + fx_mul(time, 3277));
    let gray: i64 = 13107 + mul01(g, 52429);
    let lam: i64 = lambert(light, normal);
    proof {
        lemma_fmul_unit(gray as int, 3277);
        lemma_fmul_unit(gray as int, 60293);
    }
    Vec3Fx {
        x: fx_clamp01(mul01(fx_clamp01(gray + fx_mul(gray, 3277)), lam)),
        y: fx_clamp01(mul01(gray, lam)),
        z: fx_clamp01(mul01(fx_mul(gray, 60293), lam)),
    }
}

/// The background for a ray that misses every body: a near-black ambient
/// plus a warm glow toward the star, unclamped.
pub open spec fn background_spec(dir: Vec3Fx, to_star: Vec3Fx) -> Vec3Fx {
    let glow = fmul(fpow(clamp01_spec(dot_spec(dir, to_star)), 10), 163840);
    Vec3Fx {
        x: (1311 + fmul(glow, 65536)) as i64,
        y: (1311 + fmul(glow, 45875)) as i64,
        z: (2621 + fmul(glow, 26214)) as i64,
    }
}

pub fn background_color(dir: Vec3Fx, to_star: Vec3Fx) -> (r: Vec3Fx)
    requires
        in_range(dir, UNIT_BOUND as int),
        in_range(to_star, UNIT_BOUND as int),
    ensures
        r == background_spec(dir, to_star),
        in_range(r, 0x4_0000),
        0 <= r.x && 0 <= r.y && 0 <= r.z,
{
    proof {
        lemma_dot_bounds(dir, to_star, 131072, 131072);
    }
    let g: i64 = fx_clamp01(v3_dot(dir, to_star));
    let p: i64 = fx_powi(g, 10);
    proof {
        lemma_fmul_bounds(p as int, 163840, 65536, 163840);
        assert(fmul(p as int, 163840) >= 0) by {
            vstd::arithmetic::div_mod::lemma_div_pos_is_pos((p as int) * 163840, 65536);
            assert((p as int) * 163840 >= 0) by (nonlinear_arith)
                requires
                    p as int >= 0,
            ;
        }
    }
    let glow: i64 = fx_mul(p, 163840);
    proof {
        lemma_fmul_nonneg(glow as int, 65536);
        lemma_fmul_nonneg(glow as int, 45875);
        lemma_fmul_nonneg(glow as int, 26214);
        lemma_fmul_bounds(glow as int, 65536, 163840, 65536);
        lemma_fmul_bounds(glow as int, 45875, 163840, 45875);
        lemma_fmul_bounds(glow as int, 26214, 163840, 26214);
    }
    Vec3Fx { x: 1311 + fx_mul(glow, 65536), y: 1311 + fx_mul(glow, 45875), z: 2621 + fx_mul(
        glow,
        26214,
    ) }
}

} // verus!
