use orrery::intersect::{intersect, Ray, Sphere};
use orrery::render::{
    camera_ray, composite, nearest_hit, render_frame, render_pixel, Rgb,
};
use orrery::scene::{default_scene, moon_sphere, scene_objects, SceneObject};
use orrery::shade::{background_color, Material};
use orrery::vec3::{v3_normalize, v3_sub, Vec3Fx};

const ONE: i64 = 65536;

fn axis_ray(z_origin: i64, z_dir: i64) -> Ray {
    Ray {
        origin: Vec3Fx { x: 0, y: 0, z: z_origin },
        dir: Vec3Fx { x: 0, y: 0, z: z_dir },
    }
}

#[test]
fn ray_through_center_hits_at_distance_minus_radius() {
    // origin 10 units from the center, radius 2: the hit lies 8 units out
    let ray = axis_ray(-10 * ONE, ONE);
    let sphere = Sphere { center: Vec3Fx { x: 0, y: 0, z: 10 * ONE }, radius: 2 * ONE };
    let t = intersect(&ray, &sphere).expect("central ray must hit");
    let expected = 20 * ONE - 2 * ONE;
    assert!(
        (t - expected).abs() <= 256,
        "hit at {t}, expected about {expected}"
    );
}

#[test]
fn ray_through_center_other_axis() {
    let ray = Ray {
        origin: Vec3Fx { x: -7 * ONE, y: 0, z: 0 },
        dir: Vec3Fx { x: ONE, y: 0, z: 0 },
    };
    let sphere = Sphere { center: Vec3Fx { x: 5 * ONE, y: 0, z: 0 }, radius: 3 * ONE };
    let t = intersect(&ray, &sphere).expect("central ray must hit");
    let expected = 12 * ONE - 3 * ONE;
    assert!((t - expected).abs() <= 256);
}

#[test]
fn ray_pointing_away_misses() {
    // the sphere lies entirely behind the origin
    let ray = axis_ray(-10 * ONE, -ONE);
    let sphere = Sphere { center: Vec3Fx { x: 0, y: 0, z: 10 * ONE }, radius: 2 * ONE };
    assert_eq!(intersect(&ray, &sphere), None);
}

#[test]
fn ray_beside_a_sphere_misses() {
    let ray = Ray {
        origin: Vec3Fx { x: 5 * ONE, y: 0, z: -10 * ONE },
        dir: Vec3Fx { x: 0, y: 0, z: ONE },
    };
    let sphere = Sphere { center: Vec3Fx { x: 0, y: 0, z: 10 * ONE }, radius: 2 * ONE };
    assert_eq!(intersect(&ray, &sphere), None);
}

#[test]
fn nearest_hit_prefers_the_closer_sphere() {
    let ray = axis_ray(-10 * ONE, ONE);
    let near = SceneObject {
        material: Material::Rocky,
        sphere: Sphere { center: Vec3Fx { x: 0, y: 0, z: 0 }, radius: ONE },
    };
    let far = SceneObject {
        material: Material::Moon,
        sphere: Sphere { center: Vec3Fx { x: 0, y: 0, z: 8 * ONE }, radius: ONE },
    };
    let order_a = vec![near, far];
    let order_b = vec![far, near];
    let (ia, ta) = nearest_hit(&ray, &order_a).expect("hit");
    let (ib, tb) = nearest_hit(&ray, &order_b).expect("hit");
    assert_eq!(ta, tb);
    assert_eq!(order_a[ia].material, Material::Rocky);
    assert_eq!(order_b[ib].material, Material::Rocky);
}

#[test]
fn compositor_is_order_invariant_for_overlapping_projections() {
    // both spheres project onto the ray; the nearer one must win
    // whichever is tested first, pixel for pixel
    let sc = default_scene();
    let ray = axis_ray(-10 * ONE, ONE);
    let near = SceneObject {
        material: Material::Rocky,
        sphere: Sphere { center: Vec3Fx { x: 0, y: 0, z: 0 }, radius: ONE },
    };
    let far = SceneObject {
        material: Material::GasGiant,
        sphere: Sphere { center: Vec3Fx { x: 0, y: 0, z: 8 * ONE }, radius: 2 * ONE },
    };
    let to_star = v3_normalize(v3_sub(sc.star.center, ray.origin));
    let ab = composite(&ray, &vec![near, far], sc.light, to_star, 0);
    let ba = composite(&ray, &vec![far, near], sc.light, to_star, 0);
    assert_eq!(ab, ba);
}

#[test]
fn center_pixel_resolves_to_a_body() {
    // width 100, height 100, time zero, the reference scene: the
    // camera's forward axis crosses the rocky planet, so the center
    // pixel is shaded, not background
    let sc = default_scene();
    let pixel = render_pixel(50, 50, 100, 100, 0, &sc);
    let ray = camera_ray(50, 50, 100, 100, sc.camera);
    let to_star = v3_normalize(v3_sub(sc.star.center, sc.camera));
    let bg = background_color(ray.dir, to_star);
    let bg_pixel = Rgb {
        r: orrery::tone::tone_channel(bg.x),
        g: orrery::tone::tone_channel(bg.y),
        b: orrery::tone::tone_channel(bg.z),
    };
    assert_ne!(pixel, bg_pixel, "center pixel fell through to the background");
    let objs = scene_objects(&sc, 0);
    assert!(nearest_hit(&ray, &objs).is_some());
}

#[test]
fn ray_opposite_the_scene_is_dim_background() {
    // a direction with no projection onto any sphere: every body lies
    // ahead of the camera, this ray looks straight back
    let sc = default_scene();
    let ray = Ray { origin: sc.camera, dir: Vec3Fx { x: 0, y: 0, z: -ONE } };
    let objs = scene_objects(&sc, 0);
    assert_eq!(nearest_hit(&ray, &objs), None);
    let to_star = v3_normalize(v3_sub(sc.star.center, sc.camera));
    let c = composite(&ray, &objs, sc.light, to_star, 0);
    assert_eq!(c, background_color(ray.dir, to_star));
    let lum = (orrery::tone::tone_channel(c.x) as u32 + orrery::tone::tone_channel(c.y) as u32
        + orrery::tone::tone_channel(c.z) as u32) / 3;
    assert!(lum < 64, "background luminance {lum} too bright");
}

#[test]
fn moon_orbits_the_rocky_planet() {
    let sc = default_scene();
    let at_zero = moon_sphere(&sc, 0);
    assert_eq!(at_zero.radius, sc.moon_radius);
    assert_eq!(
        (at_zero.center.x, at_zero.center.y, at_zero.center.z),
        (
            sc.rocky.center.x + sc.moon_orbit_radius,
            sc.rocky.center.y,
            sc.rocky.center.z
        )
    );
    // later the moon has moved, but stays on the orbit circle
    let later = moon_sphere(&sc, 2 * ONE);
    assert_ne!(later.center, at_zero.center);
    let dx = (later.center.x - sc.rocky.center.x) as f64 / 65536.0;
    let dz = (later.center.z - sc.rocky.center.z) as f64 / 65536.0;
    let r = (dx * dx + dz * dz).sqrt();
    assert!((r - 3.5).abs() < 0.01, "moon strayed to radius {r}");
}

#[test]
fn frame_is_row_major_and_matches_pixels() {
    let sc = default_scene();
    let w = 24usize;
    let h = 16usize;
    let buf = render_frame(w, h, 3 * ONE, &sc);
    assert_eq!(buf.len(), w * h);
    for py in (0..h).step_by(5) {
        for px in (0..w).step_by(7) {
            assert_eq!(buf[py * w + px], render_pixel(px, py, w, h, 3 * ONE, &sc));
        }
    }
}

#[test]
fn frame_shows_more_than_one_color() {
    let sc = default_scene();
    let buf = render_frame(40, 40, 0, &sc);
    let mut distinct = std::collections::HashSet::new();
    for p in &buf {
        distinct.insert((p.r, p.g, p.b));
    }
    assert!(distinct.len() > 4, "frame is nearly flat: {} colors", distinct.len());
}
