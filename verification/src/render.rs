//! The frame compositor: camera-ray generation, nearest-hit resolution
//! across the scene objects, shading dispatch and tone mapping.
//!
//! Every pixel is independent: its color is a pure function of its
//! coordinates, the image dimensions, the scene configuration and the
//! frame's single time sample.  The nearest positive hit wins regardless
//! of the order objects are tested in; on an exact tie the earlier
//! object in the scene list is kept, deterministically.

use crate::fixed::{fdiv, fmul, lemma_fmul_bounds, lemma_fmul_nonneg};
use crate::intersect::{intersect, intersect_spec, ray_wf, sphere_wf, Ray};
use crate::scene::{scene_objects, scene_objects_spec, Scene, SceneObject, scene_wf, BODY_MAX};
use crate::shade::{
    background_color, background_spec, color_ok, shade_gas_giant, shade_gas_giant_spec, shade_moon,
    shade_moon_spec, shade_rocky, shade_rocky_spec, shade_star, shade_star_spec, Material,
    TIME_MAX,
};
use crate::tone::{tone_channel, tone_spec};
use crate::vec3::{
    add_spec, in_range, normalize_spec, scale_spec, sphere_uv, sphere_uv_spec, sub_spec, v3_add,
    v3_normalize, v3_scale, v3_sub, Vec3Fx, UNIT_BOUND,
};
use vstd::arithmetic::div_mod::{lemma_div_is_ordered, lemma_div_multiples_vanish};
use vstd::prelude::*;

verus! {

/// Hits beyond this distance are treated as misses; the scene is far
/// smaller.
pub const FAR_LIMIT: i64 = 0x1000_0000;

/// One 8-bit RGB output pixel.
#[derive(Clone, Copy, PartialEq, Eq, Structural, Debug)]
pub struct Rgb {
    pub r: u8,
    pub g: u8,
    pub b: u8,
}

/// The accepted hit of one object: its intersection distance, unless it
/// lies beyond the far limit.
pub open spec fn hit_of(ray: Ray, ob: SceneObject) -> Option<int> {
    let h = intersect_spec(ray, ob.sphere);
    if h is Some && h->0 <= 0x1000_0000 {
        h
    } else {
        None
    }
}

pub open spec fn objs_wf(objs: Seq<SceneObject>) -> bool {
    forall|i: int| 0 <= i < objs.len() ==> sphere_wf(#[trigger] objs[i].sphere)
}

/// The nearest accepted hit over an object list, folded from the front:
/// a later object replaces the leader only when strictly closer, so on a
/// tie the first-tested object wins.
pub open spec fn nearest_spec(ray: Ray, objs: Seq<SceneObject>) -> Option<(int, int)>
    decreases objs.len(),
{
    if objs.len() == 0 {
        None
    } else {
        let pre = nearest_spec(ray, objs.drop_last());
        match hit_of(ray, objs.last()) {
            Option::Some(t) => match pre {
                Option::Some(p) => if p.1 <= t {
                    Option::Some(p)
                } else {
                    Option::Some((objs.len() - 1, t))
                },
                Option::None => Option::Some((objs.len() - 1, t)),
            },
            Option::None => pre,
        }
    }
}

/// The nearest hit is a real hit of the list, no accepted hit is closer,
/// and every earlier object's hit is strictly farther; a `None` means
/// every object missed.
pub proof fn lemma_nearest_is_min(ray: Ray, objs: Seq<SceneObject>)
    ensures
        match nearest_spec(ray, objs) {
            Option::Some(p) => {
                &&& 0 <= p.0 < objs.len()
                &&& hit_of(ray, objs[p.0]) == Option::Some(p.1)
                &&& forall|j: int|
                    0 <= j < objs.len() && #[trigger] hit_of(ray, objs[j]) is Some ==> p.1 <= hit_of(
                        ray,
                        objs[j],
                    )->0
                &&& forall|j: int|
                    0 <= j < p.0 && #[trigger] hit_of(ray, objs[j]) is Some ==> p.1 < hit_of(
                        ray,
                        objs[j],
                    )->0
            },
            Option::None => forall|j: int|
                0 <= j < objs.len() ==> #[trigger] hit_of(ray, objs[j]) is None,
        },
    decreases objs.len(),
{
    if objs.len() > 0 {
        lemma_nearest_is_min(ray, objs.drop_last());
        assert(forall|j: int|
            0 <= j < objs.len() - 1 ==> objs.drop_last()[j] == #[trigger] objs[j]);
        assert(objs.last() == objs[objs.len() - 1]);
    }
}

/// Find the nearest accepted hit, testing every object.
pub fn nearest_hit(ray: &Ray, objs: &Vec<SceneObject>) -> (r: Option<(usize, i64)>)
    requires
        ray_wf(*ray),
        objs_wf(objs@),
    ensures
        match r {
            Option::Some(p) => {
                &&& nearest_spec(*ray, objs@) == Option::Some((p.0 as int, p.1 as int))
                &&& p.0 < objs@.len()
                &&& 65 < p.1 <= FAR_LIMIT
            },
            Option::None => nearest_spec(*ray, objs@) is None,
        },
{
    let mut best: Option<(usize, i64)> = None;
    let mut i: usize = 0;
    while i < objs.len()
        invariant
            i <= objs@.len(),
            ray_wf(*ray),
            objs_wf(objs@),
            match best {
                Option::Some(p) => {
                    &&& nearest_spec(*ray, objs@.take(i as int)) == Option::Some(
                        (p.0 as int, p.1 as int),
                    )
                    &&& p.0 < i
                    &&& 65 < p.1 <= FAR_LIMIT
                },
                Option::None => nearest_spec(*ray, objs@.take(i as int)) is None,
            },
        decreases objs@.len() - i,
    {
        let h: Option<i64> = intersect(ray, &objs[i].sphere);
        proof {
            assert(objs@.take(i as int + 1).drop_last() =~= objs@.take(i as int));
            assert(objs@.take(i as int + 1).last() == objs@[i as int]);
        }
        match h {
            Option::Some(t) => {
                if t <= FAR_LIMIT {
                    match best {
                        Option::Some(p) => {
                            if t < p.1 {
                                best = Option::Some((i, t));
                            }
                        },
                        Option::None => {
                            best = Option::Some((i, t));
                        },
                    }
                }
            },
            Option::None => {},
        }
        i = i + 1;
    }
    proof {
        assert(objs@.take(objs@.len() as int) =~= objs@);
    }
    best
}

/// The shaded color of the winning object at distance `t` along the ray.
#[verifier::opaque]
pub open spec fn shade_object_spec(
    ray: Ray,
    ob: SceneObject,
    t: int,
    light: Vec3Fx,
    time: int,
) -> Vec3Fx {
    let p = add_spec(ray.origin, scale_spec(ray.dir, t));
    let local = sub_spec(p, ob.sphere.center);
    let normal = normalize_spec(local);
    let uv = sphere_uv_spec(normal);
    match ob.material {
        Material::Star => shade_star_spec(local, normal, time),
        Material::Rocky => shade_rocky_spec(
            normal,
            uv.0,
            uv.1,
            light,
            scale_spec(ray.dir, -65536),
            time,
        ),
        Material::GasGiant => shade_gas_giant_spec(normal, uv.0, light, time),
        Material::Moon => shade_moon_spec(normal, uv.0, uv.1, light, time),
    }
}

/// Reconstruct the hit point, derive the surface frame and dispatch on
/// the material.
pub fn shade_object(ray: &Ray, ob: &SceneObject, t: i64, light: Vec3Fx, time: i64) -> (c: Vec3Fx)
    requires
        ray_wf(*ray),
        in_range(ray.dir, UNIT_BOUND as int),
        sphere_wf(ob.sphere),
        65 < t <= FAR_LIMIT,
        in_range(light, UNIT_BOUND as int),
        -TIME_MAX <= time <= TIME_MAX,
    ensures
        c == shade_object_spec(*ray, *ob, t as int, light, time as int),
        color_ok(c),
{
    proof {
        reveal(shade_object_spec);
        lemma_fmul_bounds(ray.dir.x as int, t as int, 131072, 0x1000_0000);
        lemma_fmul_bounds(ray.dir.y as int, t as int, 131072, 0x1000_0000);
        lemma_fmul_bounds(ray.dir.z as int, t as int, 131072, 0x1000_0000);
        lemma_fmul_bounds(ray.dir.x as int, -65536, 131072, 65536);
        lemma_fmul_bounds(ray.dir.y as int, -65536, 131072, 65536);
        lemma_fmul_bounds(ray.dir.z as int, -65536, 131072, 65536);
    }
    let p: Vec3Fx = v3_add(ray.origin, v3_scale(ray.dir, t));
    let local: Vec3Fx = v3_sub(p, ob.sphere.center);
    let normal: Vec3Fx = v3_normalize(local);
    let uv: (i64, i64) = sphere_uv(normal);
    match ob.material {
        Material::Star => shade_star(local, normal, time),
        Material::Rocky => {
            let view: Vec3Fx = v3_scale(ray.dir, -65536);
            shade_rocky(normal, uv.0, uv.1, light, view, time)
        },
        Material::GasGiant => shade_gas_giant(normal, uv.0, light, time),
        Material::Moon => shade_moon(normal, uv.0, uv.1, light, time),
    }
}

/// One ray's linear color: the shaded nearest hit, or the background
/// glow on a total miss.
pub open spec fn composite_spec(
    ray: Ray,
    objs: Seq<SceneObject>,
    light: Vec3Fx,
    to_star: Vec3Fx,
    time: int,
) -> Vec3Fx {
    match nearest_spec(ray, objs) {
        Option::Some(p) => shade_object_spec(ray, objs[p.0], p.1, light, time),
        Option::None => background_spec(ray.dir, to_star),
    }
}

/// Resolve visibility and shade one ray.
pub fn composite(
    ray: &Ray,
    objs: &Vec<SceneObject>,
    light: Vec3Fx,
    to_star: Vec3Fx,
    time: i64,
) -> (c: Vec3Fx)
    requires
        ray_wf(*ray),
        in_range(ray.dir, UNIT_BOUND as int),
        objs_wf(objs@),
        in_range(light, UNIT_BOUND as int),
        in_range(to_star, UNIT_BOUND as int),
        -TIME_MAX <= time <= TIME_MAX,
    ensures
        c == composite_spec(*ray, objs@, light, to_star, time as int),
        in_range(c, 0x4_0000),
        0 <= c.x && 0 <= c.y && 0 <= c.z,
{
    let hit: Option<(usize, i64)> = nearest_hit(ray, objs);
    match hit {
        Option::Some(p) => shade_object(ray, &objs[p.0], p.1, light, time),
        Option::None => background_color(ray.dir, to_star),
    }
}

/// Swapping the order two objects are tested in never changes the
/// composited color, as long as their hit distances differ: the nearest
/// hit wins either way.
#[verifier::rlimit(60)]
pub proof fn lemma_compositor_order_invariant(
    ray: Ray,
    a: SceneObject,
    b: SceneObject,
    light: Vec3Fx,
    to_star: Vec3Fx,
    time: int,
)
    requires
        !(hit_of(ray, a) is Some && hit_of(ray, b) is Some && hit_of(ray, a)->0 == hit_of(
            ray,
            b,
        )->0),
    ensures
        composite_spec(ray, seq![a, b], light, to_star, time) == composite_spec(
            ray,
            seq![b, a],
            light,
            to_star,
            time,
        ),
{
    let s1 = seq![a, b];
    let s2 = seq![b, a];
    reveal_with_fuel(nearest_spec, 3);
    assert(s1.drop_last() =~= seq![a]);
    assert(s2.drop_last() =~= seq![b]);
    assert(seq![a].drop_last() =~= Seq::<SceneObject>::empty());
    assert(seq![b].drop_last() =~= Seq::<SceneObject>::empty());
    assert(nearest_spec(ray, Seq::<SceneObject>::empty()) is None);
    assert(seq![a].last() == a && seq![b].last() == b);
    assert(s1.last() == b && s2.last() == a);
    assert(s1[0] == a && s1[1] == b && s2[0] == b && s2[1] == a);
    let ha = hit_of(ray, a);
    let hb = hit_of(ray, b);
    match ha {
        Option::Some(ta) => {
            assert(nearest_spec(ray, seq![a]) == Option::Some((0int, ta)));
            match hb {
                Option::Some(tb) => {
                    assert(nearest_spec(ray, seq![b]) == Option::Some((0int, tb)));
                    if ta < tb {
                        assert(nearest_spec(ray, s1) == Option::Some((0int, ta)));
                        assert(nearest_spec(ray, s2) == Option::Some((1int, ta)));
                        assert(composite_spec(ray, s1, light, to_star, time) == shade_object_spec(
                            ray,
                            a,
                            ta,
                            light,
                            time,
                        ));
                        assert(composite_spec(ray, s2, light, to_star, time) == shade_object_spec(
                            ray,
                            a,
                            ta,
                            light,
                            time,
                        ));
                    } else {
                        assert(tb < ta);
                        assert(nearest_spec(ray, s1) == Option::Some((1int, tb)));
                        assert(nearest_spec(ray, s2) == Option::Some((0int, tb)));
                        assert(composite_spec(ray, s1, light, to_star, time) == shade_object_spec(
                            ray,
                            b,
                            tb,
                            light,
                            time,
                        ));
                        assert(composite_spec(ray, s2, light, to_star, time) == shade_object_spec(
                            ray,
                            b,
                            tb,
                            light,
                            time,
                        ));
                    }
                },
                Option::None => {
                    assert(nearest_spec(ray, seq![b]) is None);
                    assert(nearest_spec(ray, s1) == Option::Some((0int, ta)));
                    assert(nearest_spec(ray, s2) == Option::Some((1int, ta)));
                    assert(composite_spec(ray, s1, light, to_star, time) == shade_object_spec(
                        ray,
                        a,
                        ta,
                        light,
                        time,
                    ));
                    assert(composite_spec(ray, s2, light, to_star, time) == shade_object_spec(
                        ray,
                        a,
                        ta,
                        light,
                        time,
                    ));
                },
            }
        },
        Option::None => {
            assert(nearest_spec(ray, seq![a]) is None);
            match hb {
                Option::Some(tb) => {
                    assert(nearest_spec(ray, seq![b]) == Option::Some((0int, tb)));
                    assert(nearest_spec(ray, s1) == Option::Some((1int, tb)));
                    assert(nearest_spec(ray, s2) == Option::Some((0int, tb)));
                    assert(composite_spec(ray, s1, light, to_star, time) == shade_object_spec(
                        ray,
                        b,
                        tb,
                        light,
                        time,
                    ));
                    assert(composite_spec(ray, s2, light, to_star, time) == shade_object_spec(
                        ray,
                        b,
                        tb,
                        light,
                        time,
                    ));
                },
                Option::None => {
                    assert(nearest_spec(ray, seq![b]) is None);
                    assert(nearest_spec(ray, s1) is None);
                    assert(nearest_spec(ray, s2) is None);
                },
            }
        },
    }
}

/// The camera ray of one pixel: center the pixel in normalized device
/// coordinates, scale by the field of view and the aspect ratio, look
/// down the positive axis, and normalize.
pub open spec fn camera_ray_spec(px: int, py: int, w: int, h: int, cam: Vec3Fx) -> Ray {
    let dx = fmul(fdiv(2 * px + 1 - w, w), fmul(37837, fdiv(w, h)));
    let dy = fmul(fdiv(h - (2 * py + 1), h), 37837);
    Ray {
        origin: cam,
        dir: normalize_spec(Vec3Fx { x: dx as i64, y: dy as i64, z: 65536 }),
    }
}

/// The quotient of a numerator no larger in magnitude than the positive
/// denominator lies in [-1, 1].
proof fn lemma_signed_unit_quotient(a: int, b: int)
    requires
        -b <= a <= b,
        0 < b,
    ensures
        -65536 <= fdiv(a, b) <= 65536,
{
    assert(a * 65536 <= b * 65536 && (-b) * 65536 <= a * 65536) by (nonlinear_arith)
        requires
            -b <= a <= b,
    ;
    lemma_div_is_ordered(a * 65536, b * 65536, b);
    lemma_div_is_ordered((-b) * 65536, a * 65536, b);
    lemma_div_multiples_vanish(65536, b);
    lemma_div_multiples_vanish(-65536, b);
    assert(b * 65536 == b * 65536 && (-b) * 65536 == b * (-65536)) by (nonlinear_arith);
}

pub fn camera_ray(px: usize, py: usize, w: usize, h: usize, cam: Vec3Fx) -> (r: Ray)
    requires
        px < w <= 4096,
        py < h <= 4096,
        in_range(cam, BODY_MAX as int),
    ensures
        r == camera_ray_spec(px as int, py as int, w as int, h as int, cam),
        ray_wf(r),
        in_range(r.dir, UNIT_BOUND as int),
        r.origin == cam,
{
    let wi: i64 = w as i64;
    let hi: i64 = h as i64;
    proof {
        lemma_signed_unit_quotient(2 * (px as int) + 1 - wi, wi as int);
        lemma_signed_unit_quotient(hi - (2 * (py as int) + 1), hi as int);
        crate::fixed::lemma_div_toward_zero(wi * 65536, hi as int);
    }
    let ndc_x: i64 = crate::fixed::fx_div(2 * (px as i64) + 1 - wi, wi);
    let ndc_y: i64 = crate::fixed::fx_div(hi - (2 * (py as i64) + 1), hi);
    let aspect: i64 = crate::fixed::fx_div(wi, hi);
    proof {
        lemma_fmul_bounds(37837, aspect as int, 37837, 0x1000_0000);
        lemma_fmul_nonneg(37837, aspect as int);
    }
    let ft: i64 = crate::fixed::fx_mul(37837, aspect);
    proof {
        lemma_fmul_bounds(ndc_x as int, ft as int, 65536, 0x1000_0000);
        lemma_fmul_bounds(ndc_y as int, 37837, 65536, 37837);
    }
    let dx: i64 = crate::fixed::fx_mul(ndc_x, ft);
    let dy: i64 = crate::fixed::fx_mul(ndc_y, 37837);
    let dir: Vec3Fx = v3_normalize(Vec3Fx { x: dx, y: dy, z: 65536 });
    Ray { origin: cam, dir }
}

/// The finished 8-bit color of one pixel.
#[verifier::opaque]
pub open spec fn render_pixel_spec(px: int, py: int, w: int, h: int, time: int, sc: Scene) -> Rgb {
    let ray = camera_ray_spec(px, py, w, h, sc.camera);
    let to_star = normalize_spec(sub_spec(sc.star.center, sc.camera));
    let c = composite_spec(ray, scene_objects_spec(sc, time), sc.light, to_star, time);
    Rgb {
        r: tone_spec(c.x as int) as u8,
        g: tone_spec(c.y as int) as u8,
        b: tone_spec(c.z as int) as u8,
    }
}

/// Render one pixel of the scene at the given time.
pub fn render_pixel(px: usize, py: usize, w: usize, h: usize, time: i64, sc: &Scene) -> (p: Rgb)
    requires
        px < w <= 4096,
        py < h <= 4096,
        scene_wf(*sc),
        -TIME_MAX <= time <= TIME_MAX,
    ensures
        p == render_pixel_spec(px as int, py as int, w as int, h as int, time as int, *sc),
{
    proof {
        reveal(render_pixel_spec);
    }
    let ray: Ray = camera_ray(px, py, w, h, sc.camera);
    let to_star: Vec3Fx = v3_normalize(v3_sub(sc.star.center, sc.camera));
    let objs: Vec<SceneObject> = scene_objects(sc, time);
    proof {
        crate::scene::lemma_moon_sphere_wf(*sc, time as int);
        assert(objs_wf(objs@));
    }
    let c: Vec3Fx = composite(&ray, &objs, sc.light, to_star, time);
    Rgb { r: tone_channel(c.x), g: tone_channel(c.y), b: tone_channel(c.z) }
}

/// Render a whole frame, row-major: the pixel at column `px` of row
/// `py` lands at index `py * w + px`.
pub fn render_frame(w: usize, h: usize, time: i64, sc: &Scene) -> (buf: Vec<Rgb>)
    requires
        1 <= w <= 4096,
        1 <= h <= 4096,
        scene_wf(*sc),
        -TIME_MAX <= time <= TIME_MAX,
    ensures
        buf@.len() == w * h,
        forall|py: int, px: int|
            0 <= py < h && 0 <= px < w ==> buf@[py * (w as int) + px] == render_pixel_spec(
                px,
                py,
                w as int,
                h as int,
                time as int,
                *sc,
            ),
{
    let mut buf: Vec<Rgb> = Vec::new();
    let mut py: usize = 0;
    while py < h
        invariant
            py <= h,
            1 <= w <= 4096,
            1 <= h <= 4096,
            scene_wf(*sc),
            -TIME_MAX <= time <= TIME_MAX,
            buf@.len() == py * w,
            forall|qy: int, qx: int|
                0 <= qy < py && 0 <= qx < w ==> buf@[qy * (w as int) + qx] == render_pixel_spec(
                    qx,
                    qy,
                    w as int,
                    h as int,
                    time as int,
                    *sc,
                ),
        decreases h - py,
    {
        let mut px: usize = 0;
        while px < w
            invariant
                px <= w,
                py < h,
                1 <= w <= 4096,
                1 <= h <= 4096,
                scene_wf(*sc),
                -TIME_MAX <= time <= TIME_MAX,
                buf@.len() == py * w + px,
                forall|qy: int, qx: int|
                    0 <= qy < py && 0 <= qx < w ==> buf@[qy * (w as int) + qx] == render_pixel_spec(
                        qx,
                        qy,
                        w as int,
                        h as int,
                        time as int,
                        *sc,
                    ),
                forall|qx: int|
                    0 <= qx < px ==> buf@[py * (w as int) + qx] == render_pixel_spec(
                        qx,
                        py as int,
                        w as int,
                        h as int,
                        time as int,
                        *sc,
                    ),
            decreases w - px,
        {
            proof {
                assert(py * w + px < 4096 * 4096) by (nonlinear_arith)
                    requires
                        py < h <= 4096,
                        px < w <= 4096,
                        0 <= py,
                        0 <= px,
                ;
            }
            let p: Rgb = render_pixel(px, py, w, h, time, sc);
            buf.push(p);
            proof {
                assert forall|qy: int, qx: int| 0 <= qy < py && 0 <= qx < w implies buf@[qy * (
                w as int) + qx] == render_pixel_spec(
                    qx,
                    qy,
                    w as int,
                    h as int,
                    time as int,
                    *sc,
                ) by {
                    assert(0 <= qy * (w as int) + qx < py * (w as int)) by (nonlinear_arith)
                        requires
                            0 <= qy < py,
                            0 <= qx < w,
                    ;
                }
            }
            px = px + 1;
        }
        proof {
            assert(py * w + w == (py + 1) * w) by (nonlinear_arith);
        }
        py = py + 1;
    }
    proof {
        assert(h * w == w * h) by (nonlinear_arith);
    }
    buf
}

} // verus!
