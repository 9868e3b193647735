use orrery::fixed::{fx_abs, fx_clamp01, fx_div, fx_floor_fract, fx_mul, fx_powi, fx_sqrt};
use orrery::tone::tone_channel;
use orrery::trig::{asin_fx, atan2_fx, cos_fx, sin_fx, smoothstep};
use orrery::vec3::{
    sphere_uv, v3_add, v3_dot, v3_length, v3_normalize, v3_reflect, v3_scale, v3_sub, Vec3Fx,
};

const ONE: i64 = 65536;

#[test]
fn mul_rounds_toward_minus_infinity() {
    assert_eq!(fx_mul(ONE, ONE), ONE);
    assert_eq!(fx_mul(-ONE, 32768), -32768);
    assert_eq!(fx_mul(3 * ONE, ONE / 2), 3 * ONE / 2);
    // one ulp times one ulp floors to zero; negated it floors to -1
    assert_eq!(fx_mul(1, 1), 0);
    assert_eq!(fx_mul(-1, 1), -1);
}

#[test]
fn div_is_exact_on_halves() {
    assert_eq!(fx_div(196608, 131072), 98304);
    assert_eq!(fx_div(ONE, 3 * ONE), 21845);
    assert_eq!(fx_div(-ONE, 2 * ONE), -32768);
}

#[test]
fn floor_fract_splits_negative_values() {
    let (n, f) = fx_floor_fract(-1);
    assert_eq!(n, -1);
    assert_eq!(f, 65535);
    let (n2, f2) = fx_floor_fract(3 * ONE + 5);
    assert_eq!(n2, 3);
    assert_eq!(f2, 5);
}

#[test]
fn sqrt_matches_perfect_squares() {
    assert_eq!(fx_sqrt(0), 0);
    assert_eq!(fx_sqrt(ONE), ONE);
    assert_eq!(fx_sqrt(4 * ONE), 2 * ONE);
    // sqrt(2) in Q16.16, rounded down
    assert_eq!(fx_sqrt(2 * ONE), 92681);
}

#[test]
fn powi_agrees_with_float_powers() {
    assert_eq!(fx_powi(ONE, 6), ONE);
    assert_eq!(fx_powi(0, 6), 0);
    let half_pow6 = fx_powi(32768, 6);
    let expected = 0.5f64.powi(6) * 65536.0;
    assert!((half_pow6 as f64 - expected).abs() < 8.0);
}

#[test]
fn clamp_and_abs_behave() {
    assert_eq!(fx_clamp01(-5), 0);
    assert_eq!(fx_clamp01(70000), ONE);
    assert_eq!(fx_clamp01(1234), 1234);
    assert_eq!(fx_abs(-42), 42);
    assert_eq!(fx_abs(42), 42);
}

#[test]
fn sine_hits_the_cardinal_points() {
    assert_eq!(sin_fx(0), 0);
    assert_eq!(sin_fx(102944), ONE);
    assert_eq!(sin_fx(205887), 0);
    assert_eq!(cos_fx(0), ONE);
    // sin(pi/6) = 0.5
    let s = sin_fx(34315);
    assert!((s - 32768).abs() < 300, "sin(pi/6) = {s}");
    // odd around zero, to within the folding step
    for k in 1..20i64 {
        let x = k * 9973;
        assert!((sin_fx(-x) + sin_fx(x)).abs() <= 2, "sin not odd at {x}");
    }
}

#[test]
fn sine_tracks_the_real_function() {
    for k in -200..200i64 {
        let x = k * 4099;
        let approx = sin_fx(x) as f64 / 65536.0;
        let exact = (x as f64 / 65536.0).sin();
        assert!((approx - exact).abs() < 0.006, "sin({x}) off: {approx} vs {exact}");
    }
}

#[test]
fn atan2_quadrants() {
    assert_eq!(atan2_fx(0, ONE), 0);
    assert_eq!(atan2_fx(ONE, 0), 102944);
    assert_eq!(atan2_fx(0, -ONE), 205887);
    assert_eq!(atan2_fx(-ONE, 0), -102944);
    assert_eq!(atan2_fx(0, 0), 0);
    // atan2(1, 1) = pi/4 within the quadratic approximation's error
    let a = atan2_fx(ONE, ONE) as f64 / 65536.0;
    assert!((a - core::f64::consts::FRAC_PI_4).abs() < 0.01);
}

#[test]
fn asin_endpoints_and_middle() {
    assert_eq!(asin_fx(0), 0);
    assert_eq!(asin_fx(ONE), 102944);
    assert_eq!(asin_fx(-ONE), -102944);
    let a = asin_fx(32768) as f64 / 65536.0;
    assert!((a - 0.5235988).abs() < 0.01, "asin(0.5) = {a}");
}

#[test]
fn smoothstep_edges_and_midpoint() {
    assert_eq!(smoothstep(0, ONE, -5), 0);
    assert_eq!(smoothstep(0, ONE, 70000), ONE);
    assert_eq!(smoothstep(0, ONE, 32768), 32768);
    // monotone over the transition
    let mut prev: i64 = -1;
    for k in 0..=64i64 {
        let v = smoothstep(0, ONE, k * 1024);
        assert!(v >= prev);
        prev = v;
    }
}

#[test]
fn vector_algebra_basics() {
    let a = Vec3Fx { x: ONE, y: 2 * ONE, z: -ONE };
    let b = Vec3Fx { x: 3 * ONE, y: -ONE, z: ONE };
    let s = v3_add(a, b);
    assert_eq!((s.x, s.y, s.z), (4 * ONE, ONE, 0));
    let d = v3_sub(a, b);
    assert_eq!((d.x, d.y, d.z), (-2 * ONE, 3 * ONE, -2 * ONE));
    let sc = v3_scale(a, 32768);
    assert_eq!((sc.x, sc.y, sc.z), (32768, ONE, -32768));
    assert_eq!(v3_dot(a, b), ONE * (3 - 2 - 1));
    assert_eq!(v3_length(Vec3Fx { x: 3 * ONE, y: 4 * ONE, z: 0 }), 5 * ONE);
}

#[test]
fn normalize_unit_and_degenerate() {
    let n = v3_normalize(Vec3Fx { x: 3 * ONE, y: 4 * ONE, z: 0 });
    assert_eq!((n.x, n.y, n.z), (39321, 52428, 0));
    let z = v3_normalize(Vec3Fx { x: 0, y: 0, z: 0 });
    assert_eq!((z.x, z.y, z.z), (0, 0, 0));
}

#[test]
fn reflect_flips_the_normal_component() {
    // reflecting a straight-down vector off the up-facing normal
    let v = Vec3Fx { x: 0, y: -ONE, z: 0 };
    let n = Vec3Fx { x: 0, y: ONE, z: 0 };
    let r = v3_reflect(v, n);
    assert_eq!((r.x, r.y, r.z), (0, ONE, 0));
    // a grazing vector keeps its tangential part
    let v2 = Vec3Fx { x: ONE, y: -ONE, z: 0 };
    let r2 = v3_reflect(v2, n);
    assert_eq!((r2.x, r2.y, r2.z), (ONE, ONE, 0));
}

#[test]
fn sphere_uv_maps_the_axes() {
    let uv = sphere_uv(Vec3Fx { x: 0, y: 0, z: ONE });
    assert_eq!(uv, (49152, 32768));
    let uv_up = sphere_uv(Vec3Fx { x: 0, y: ONE, z: 0 });
    assert_eq!(uv_up.1, 0);
    let uv_down = sphere_uv(Vec3Fx { x: 0, y: -ONE, z: 0 });
    assert_eq!(uv_down.1, ONE);
    let uv_x = sphere_uv(Vec3Fx { x: ONE, y: 0, z: 0 });
    assert_eq!(uv_x, (32768, 32768));
}

#[test]
fn tone_maps_black_to_zero_and_white_to_full() {
    assert_eq!(tone_channel(0), 0);
    assert_eq!(tone_channel(ONE), 255);
    assert_eq!(tone_channel(-100), 0);
    assert_eq!(tone_channel(10 * ONE), 255);
}

#[test]
fn tone_matches_the_gamma_curve() {
    assert_eq!(tone_channel(32768), 186);
    for k in 0..=64i64 {
        let x = k * 1024;
        let expected = ((x as f64 / 65536.0).powf(5.0 / 11.0) * 255.0).floor();
        let got = tone_channel(x) as f64;
        assert!((got - expected).abs() <= 1.0, "tone({x}) = {got}, expected {expected}");
    }
}

#[test]
fn tone_is_monotone() {
    let mut prev: u8 = 0;
    let mut x: i64 = -1000;
    while x < 70000 {
        let v = tone_channel(x);
        assert!(v >= prev, "tone not monotone at {x}");
        prev = v;
        x += 997;
    }
}
