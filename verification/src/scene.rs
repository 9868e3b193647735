//! The fixed scene: a star, a rocky planet, an orbiting moon and a gas
//! giant, plus the light direction and the camera position.
//!
//! The moon's center is not stored: it is recomputed each frame as a
//! pure function of the rocky planet's center, the orbit radius and the
//! time scalar, keeping the pipeline stateless.

use crate::intersect::{sphere_wf, Sphere, RADIUS_MAX};
use crate::shade::{Material, TIME_MAX};
use crate::trig::{cos_fx, cos_spec, sin_fx, sin_spec};
use crate::vec3::{in_range, v3_normalize, Vec3Fx, UNIT_BOUND};
use vstd::prelude::*;

verus! {

/// Largest coordinate magnitude of configured body centers and of the
/// camera; half the intersector's world bound, so that the orbit offset
/// still fits.
pub const BODY_MAX: i64 = 0x20_0000;

/// Largest orbit radius of the moon.
pub const ORBIT_MAX: i64 = 0x20_0000;

/// Largest orbit angular speed, in Q16.16 radians per second.
pub const ORBIT_SPEED_MAX: i64 = 0x8_0000;

/// One scene object: a material tag and the sphere it shades.
#[derive(Clone, Copy, PartialEq, Eq, Structural, Debug)]
pub struct SceneObject {
    pub material: Material,
    pub sphere: Sphere,
}

/// The read-only scene configuration of one frame.
#[derive(Clone, Copy, PartialEq, Eq, Structural, Debug)]
pub struct Scene {
    pub camera: Vec3Fx,
    pub light: Vec3Fx,
    pub star: Sphere,
    pub rocky: Sphere,
    pub gas: Sphere,
    pub moon_orbit_radius: i64,
    pub moon_orbit_speed: i64,
    pub moon_radius: i64,
}

pub open spec fn scene_wf(sc: Scene) -> bool {
    &&& in_range(sc.camera, BODY_MAX as int)
    &&& in_range(sc.light, UNIT_BOUND as int)
    &&& sphere_wf(sc.star)
    &&& in_range(sc.star.center, BODY_MAX as int)
    &&& sphere_wf(sc.rocky)
    &&& in_range(sc.rocky.center, BODY_MAX as int)
    &&& sphere_wf(sc.gas)
    &&& in_range(sc.gas.center, BODY_MAX as int)
    &&& 0 < sc.moon_orbit_radius <= ORBIT_MAX
    &&& 0 <= sc.moon_orbit_speed <= ORBIT_SPEED_MAX
    &&& 0 < sc.moon_radius <= RADIUS_MAX
}

/// The moon's orbit angle at the given time.
pub open spec fn orbit_angle_spec(sc: Scene, time: int) -> int {
    crate::fixed::fmul(time, sc.moon_orbit_speed as int)
}

/// The moon's center, derived each frame from the rocky planet's center,
/// the orbit radius and the time.
pub open spec fn moon_center_spec(sc: Scene, time: int) -> Vec3Fx {
    let ang = orbit_angle_spec(sc, time);
    Vec3Fx {
        x: (sc.rocky.center.x + crate::fixed::fmul(
            sc.moon_orbit_radius as int,
            cos_spec(ang),
        )) as i64,
        y: sc.rocky.center.y,
        z: (sc.rocky.center.z + crate::fixed::fmul(
            sc.moon_orbit_radius as int,
            sin_spec(ang),
        )) as i64,
    }
}

/// The moon's sphere at the given time.
pub open spec fn moon_sphere_spec(sc: Scene, time: int) -> Sphere {
    Sphere { center: moon_center_spec(sc, time), radius: sc.moon_radius }
}

/// The ordered objects the compositor tests: star, rocky planet, moon,
/// gas giant.
pub open spec fn scene_objects_spec(sc: Scene, time: int) -> Seq<SceneObject> {
    seq![
        SceneObject { material: Material::Star, sphere: sc.star },
        SceneObject { material: Material::Rocky, sphere: sc.rocky },
        SceneObject { material: Material::Moon, sphere: moon_sphere_spec(sc, time) },
        SceneObject { material: Material::GasGiant, sphere: sc.gas },
    ]
}

/// A body scaled by a sine or cosine stays within its own radius.
proof fn lemma_orbit_scaled_bound(rad: int, w: int)
    requires
        0 < rad,
        -65536 <= w <= 65536,
    ensures
        -rad <= crate::fixed::fmul(rad, w) <= rad,
{
    crate::fixed::lemma_fmul_bounds(rad, w, rad, 65536);
    assert(rad * w >= rad * (-65536)) by (nonlinear_arith)
        requires
            w >= -65536,
            rad >= 0,
    ;
    vstd::arithmetic::div_mod::lemma_div_is_ordered(rad * (-65536), rad * w, 65536);
    vstd::arithmetic::div_mod::lemma_div_multiples_vanish(-rad, 65536);
    assert(rad * (-65536) == 65536 * (-rad)) by (nonlinear_arith);
    assert((rad * 65536) / 65536 == rad) by {
        vstd::arithmetic::div_mod::lemma_div_multiples_vanish(rad, 65536);
        assert(rad * 65536 == 65536 * rad) by (nonlinear_arith);
    }
}

/// The moon's orbit offsets are bounded by the orbit radius.
pub proof fn lemma_orbit_offset_bounds(sc: Scene, time: int)
    requires
        scene_wf(sc),
        -TIME_MAX <= time <= TIME_MAX,
    ensures
        -ORBIT_MAX <= crate::fixed::fmul(
            sc.moon_orbit_radius as int,
            cos_spec(orbit_angle_spec(sc, time)),
        ) <= ORBIT_MAX,
        -ORBIT_MAX <= crate::fixed::fmul(
            sc.moon_orbit_radius as int,
            sin_spec(orbit_angle_spec(sc, time)),
        ) <= ORBIT_MAX,
{
    let ang = orbit_angle_spec(sc, time);
    crate::trig::lemma_sin_range(ang);
    crate::trig::lemma_sin_range(ang + 102944);
    lemma_orbit_scaled_bound(sc.moon_orbit_radius as int, cos_spec(ang));
    lemma_orbit_scaled_bound(sc.moon_orbit_radius as int, sin_spec(ang));
}

/// The derived moon sphere is well formed for a well-formed scene.
pub proof fn lemma_moon_sphere_wf(sc: Scene, time: int)
    requires
        scene_wf(sc),
        -TIME_MAX <= time <= TIME_MAX,
    ensures
        sphere_wf(moon_sphere_spec(sc, time)),
{
    lemma_orbit_offset_bounds(sc, time);
}

/// Compute the moon's sphere for this frame.
pub fn moon_sphere(sc: &Scene, time: i64) -> (s: Sphere)
    requires
        scene_wf(*sc),
        -TIME_MAX <= time <= TIME_MAX,
    ensures
        s == moon_sphere_spec(*sc, time as int),
        sphere_wf(s),
{
    proof {
        crate::fixed::lemma_fmul_bounds(
            time as int,
            sc.moon_orbit_speed as int,
            TIME_MAX as int,
            0x8_0000,
        );
        lemma_orbit_offset_bounds(*sc, time as int);
        lemma_moon_sphere_wf(*sc, time as int);
    }
    let ang: i64 = crate::fixed::fx_mul(time, sc.moon_orbit_speed);
    let c: i64 = cos_fx(ang);
    let s: i64 = sin_fx(ang);
    let center: Vec3Fx = Vec3Fx {
        x: sc.rocky.center.x + crate::fixed::fx_mul(sc.moon_orbit_radius, c),
        y: sc.rocky.center.y,
        z: sc.rocky.center.z + crate::fixed::fx_mul(sc.moon_orbit_radius, s),
    };
    Sphere { center, radius: sc.moon_radius }
}

/// Build the frame's ordered object list.
pub fn scene_objects(sc: &Scene, time: i64) -> (objs: Vec<SceneObject>)
    requires
        scene_wf(*sc),
        -TIME_MAX <= time <= TIME_MAX,
    ensures
        objs@ == scene_objects_spec(*sc, time as int),
        objs@.len() == 4,
{
    let moon: Sphere = moon_sphere(sc, time);
    let mut objs: Vec<SceneObject> = Vec::new();
    objs.push(SceneObject { material: Material::Star, sphere: sc.star });
    objs.push(SceneObject { material: Material::Rocky, sphere: sc.rocky });
    objs.push(SceneObject { material: Material::Moon, sphere: moon });
    objs.push(SceneObject { material: Material::GasGiant, sphere: sc.gas });
    proof {
        assert(objs@ =~= scene_objects_spec(*sc, time as int));
    }
    objs
}

/// The reference scene: camera ten units back on the axis, the star up
/// and to the left behind the planets, the rocky planet dead ahead, the
/// gas giant to the right, the moon on a 3.5-unit orbit.
pub fn default_scene() -> (sc: Scene)
    ensures
        scene_wf(sc),
        sc.camera == (Vec3Fx { x: 0, y: 0, z: -655360i64 }),
        sc.light == crate::vec3::normalize_spec(Vec3Fx { x: -26214i64, y: 45875, z: -39322i64 }),
        sc.star == (Sphere {
            center: Vec3Fx { x: -393216i64, y: 196608, z: 917504 },
            radius: 196608,
        }),
        sc.rocky == (Sphere { center: Vec3Fx { x: 0, y: 0, z: 524288 }, radius: 131072 }),
        sc.gas == (Sphere {
            center: Vec3Fx { x: 458752, y: -131072i64, z: 1310720 },
            radius: 262144,
        }),
        sc.moon_orbit_radius == 229376,
        sc.moon_orbit_speed == 52429,
        sc.moon_radius == 32768,
{
    let light: Vec3Fx = v3_normalize(Vec3Fx { x: -26214, y: 45875, z: -39322 });
    Scene {
        camera: Vec3Fx { x: 0, y: 0, z: -655360 },
        light,
        star: Sphere { center: Vec3Fx { x: -393216, y: 196608, z: 917504 }, radius: 196608 },
        rocky: Sphere { center: Vec3Fx { x: 0, y: 0, z: 524288 }, radius: 131072 },
        gas: Sphere { center: Vec3Fx { x: 458752, y: -131072, z: 1310720 }, radius: 262144 },
        moon_orbit_radius: 229376,
        moon_orbit_speed: 52429,
        moon_radius: 32768,
    }
}

} // verus!
