use orrery::shade::{
    background_color, shade_gas_giant, shade_moon, shade_rocky, shade_star,
};
use orrery::vec3::Vec3Fx;

const ONE: i64 = 65536;

fn luminance(c: Vec3Fx) -> i64 {
    (c.x + c.y + c.z) / 3
}

fn unit_z() -> Vec3Fx {
    Vec3Fx { x: 0, y: 0, z: ONE }
}

fn unit_y() -> Vec3Fx {
    Vec3Fx { x: 0, y: ONE, z: 0 }
}

#[test]
fn star_at_the_center_is_the_full_base_tone() {
    // at the body center the falloff saturates to one and the rim term
    // vanishes, leaving exactly the warm base color
    let c = shade_star(Vec3Fx { x: 0, y: 0, z: 0 }, unit_z(), 0);
    assert_eq!((c.x, c.y, c.z), (ONE, 55706, 26214));
}

#[test]
fn star_fades_with_distance_from_the_center() {
    let near = shade_star(Vec3Fx { x: ONE / 2, y: 0, z: 0 }, unit_z(), 0);
    let far = shade_star(Vec3Fx { x: 40 * ONE, y: 0, z: 0 }, unit_z(), 0);
    assert!(luminance(near) > luminance(far));
}

#[test]
fn star_is_deterministic_in_time() {
    let a = shade_star(Vec3Fx { x: ONE, y: 0, z: 0 }, unit_y(), 3 * ONE);
    let b = shade_star(Vec3Fx { x: ONE, y: 0, z: 0 }, unit_y(), 3 * ONE);
    assert_eq!(a, b);
}

#[test]
fn rocky_color_stays_in_the_unit_range_and_varies_over_the_surface() {
    let light = unit_y();
    let view = Vec3Fx { x: 0, y: 0, z: -ONE };
    let mut seen = std::collections::HashSet::new();
    for k in 0..24i64 {
        let u = k * ONE / 24;
        let v = (k * 7 % 24) * ONE / 24;
        let c = shade_rocky(unit_z(), u, v, light, view, 0);
        for ch in [c.x, c.y, c.z] {
            assert!((0..=ONE).contains(&ch));
        }
        seen.insert((c.x, c.y, c.z));
    }
    assert!(seen.len() > 4, "rocky surface is flat");
}

#[test]
fn gas_giant_is_brighter_under_the_light() {
    let normal = unit_y();
    let lit = shade_gas_giant(normal, ONE / 2, unit_y(), 0);
    let dark = shade_gas_giant(normal, ONE / 2, Vec3Fx { x: 0, y: -ONE, z: 0 }, 0);
    assert!(luminance(lit) > luminance(dark));
    for ch in [lit.x, lit.y, lit.z, dark.x, dark.y, dark.z] {
        assert!((0..=ONE).contains(&ch));
    }
}

#[test]
fn moon_keeps_the_ambient_floor_in_shadow() {
    // the Lambert term bottoms out at 0.2, so even the unlit side keeps
    // a fifth of its gray
    let normal = unit_y();
    let away = Vec3Fx { x: 0, y: -ONE, z: 0 };
    let lit = shade_moon(normal, ONE / 4, ONE / 4, unit_y(), 0);
    let dark = shade_moon(normal, ONE / 4, ONE / 4, away, 0);
    assert!(luminance(dark) > 0);
    assert!(luminance(lit) > luminance(dark));
    // in full shadow the Lambert factor is exactly 13107/65536 of the
    // lit one's
    assert_eq!(dark.y, lit.y * 13107 / 65536);
}

#[test]
fn background_glow_peaks_toward_the_star() {
    let dir = unit_z();
    let c = background_color(dir, dir);
    // dot is exactly one, so the glow saturates: ambient plus the full
    // warm-tinted 2.5 glow
    assert_eq!((c.x, c.y, c.z), (165151, 115998, 68156));
    let off = background_color(dir, Vec3Fx { x: 0, y: 0, z: -ONE });
    assert_eq!((off.x, off.y, off.z), (1311, 1311, 2621));
    assert!(luminance(c) > luminance(off));
}
