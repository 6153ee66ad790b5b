//! The shader: a ray's color from the scene's closest hit, or the
//! vertical sky gradient where nothing is struck.

use vstd::prelude::*;
use crate::color::{Color, quant};
use crate::fx::{Fx, SCALE, smul, lemma_div_exact, lemma_smul_bound};
use crate::hittable::{HitRecord, Hittable};
use crate::hittable_list::{HittableList, list_hit_model, lemma_closest_hit_is_min};
use crate::ray::{Ray, RayV, COORD_RANGE, T_RANGE};
use crate::sphere::{SphereV, sph_hit_model, lemma_record_in_range};
use crate::vec3::{
    Vec3, V3, vadd, vscale, vlen_sq, vnorm, in_range, lemma_norm_range,
    lemma_vscale_bound,
};

verus! {

/// Smallest parameter the shader accepts: hits must lie strictly in
/// front of the ray origin.
pub const SHADE_T_MIN: i64 = 1;

/// Pure white, one unit per channel.
pub open spec fn white3() -> V3 {
    V3 { x: SCALE as int, y: SCALE as int, z: SCALE as int }
}

/// The sky's blue: (0.5, 0.7, 1.0) in fixed point.
pub open spec fn sky_blue3() -> V3 {
    V3 { x: 32768, y: 45875, z: SCALE as int }
}

/// The background gradient for a normalized direction with vertical
/// component `uy`: white blended toward sky blue by t = (uy + 1) / 2.
pub open spec fn bg_mix(uy: int) -> V3 {
    let t: int = smul(32768, uy + SCALE as int);
    vadd(vscale(white3(), SCALE as int - t), vscale(sky_blue3(), t))
}

/// The tint for a struck surface: 0.5 * (normal + (1,1,1)), mapping
/// each normal component from [-1, 1] to [0, 1].
pub open spec fn hit_tint(n: V3) -> V3 {
    vscale(vadd(n, white3()), 32768)
}

/// The color of a ray against a scene, before quantization: the normal
/// tint on the closest hit; otherwise the gradient over the normalized
/// direction; white for a direction too short to normalize.
pub open spec fn shade(objs: Seq<SphereV>, r: RayV) -> V3 {
    if vlen_sq(r.dir) < 1 {
        white3()
    } else {
        match list_hit_model(objs, r, SHADE_T_MIN as int, T_RANGE as int) {
            Some(m) => hit_tint(m.normal),
            None => bg_mix(vnorm(r.dir).y),
        }
    }
}

/// The color of `r` against `world`: `shade`, quantized per channel.
pub fn ray_color(r: &Ray, world: &HittableList) -> (c: Color)
    requires
        world.wf(),
        in_range(r@.orig, COORD_RANGE as int),
        in_range(r@.dir, COORD_RANGE as int),
    ensures
        c.r as int == quant(shade(world@, r@).x),
        c.g as int == quant(shade(world@, r@).y),
        c.b as int == quant(shade(world@, r@).z),
{
    let one: Fx = Fx { raw: SCALE };
    let ls: Fx = r.dir.length_squared();
    if ls.raw < 1 {
        return Color::new(one, one, one);
    }
    let mut rec: HitRecord = HitRecord::default();
    if world.hit(r, Fx { raw: SHADE_T_MIN }, Fx { raw: T_RANGE }, &mut rec) {
        proof {
            lemma_closest_hit_is_min(world@, r@, SHADE_T_MIN as int, T_RANGE as int);
            let j = choose|j: int|
                0 <= j < world@.len() && sph_hit_model(
                    #[trigger] world@[j],
                    r@,
                    SHADE_T_MIN as int,
                    T_RANGE as int,
                ) == list_hit_model(world@, r@, SHADE_T_MIN as int, T_RANGE as int);
            lemma_record_in_range(world@[j], r@, SHADE_T_MIN as int, T_RANGE as int);
            lemma_vscale_bound(
                vadd(rec@.normal, white3()),
                32768,
                0x800_0000_0001_0000,
                32768,
            );
        }
        let sum: Vec3 = rec.normal.add(Vec3 { x: one, y: one, z: one });
        let tint: Vec3 = sum.scale(Fx { raw: 32768 });
        Color::new(tint.x, tint.y, tint.z)
    } else {
        proof {
            lemma_norm_range(r@.dir);
        }
        let u: Vec3 = r.dir.normalized();
        proof {
            lemma_smul_bound(32768, u@.y + SCALE as int, 32768, 0x60000);
            lemma_vscale_bound(white3(), SCALE as int - smul(32768, u@.y + SCALE as int), SCALE as int, 0x50000);
            lemma_vscale_bound(sky_blue3(), smul(32768, u@.y + SCALE as int), SCALE as int, 0x50000);
        }
        let t: Fx = Fx { raw: 32768 }.mul(u.y().add(one));
        let white: Vec3 = Vec3 { x: one, y: one, z: one };
        let blue: Vec3 = Vec3 { x: Fx { raw: 32768 }, y: Fx { raw: 45875 }, z: one };
        let mixed: Vec3 = white.scale(one.sub(t)).add(blue.scale(t));
        Color::new(mixed.x, mixed.y, mixed.z)
    }
}

/// Background law: a ray that misses every surface takes its color
/// from the gradient alone, never from a hit tint.
pub proof fn lemma_miss_is_background(objs: Seq<SphereV>, r: RayV)
    requires
        vlen_sq(r.dir) >= 1,
        list_hit_model(objs, r, SHADE_T_MIN as int, T_RANGE as int) is None,
    ensures
        shade(objs, r) == bg_mix(vnorm(r.dir).y),
{
}

/// Gradient law at the poles: looking straight down the background is
/// pure white (255, 255, 255); straight up it is the sky blue,
/// quantized to (127, 179, 255).
pub proof fn lemma_background_poles()
    ensures
        quant(bg_mix(-(SCALE as int)).x) == 255,
        quant(bg_mix(-(SCALE as int)).y) == 255,
        quant(bg_mix(-(SCALE as int)).z) == 255,
        quant(bg_mix(SCALE as int).x) == 127,
        quant(bg_mix(SCALE as int).y) == 179,
        quant(bg_mix(SCALE as int).z) == 255,
{
    lemma_div_exact(0int, 65536, 0, 0);
    lemma_div_exact(65536int * 65536, 65536, 65536, 0);
    lemma_div_exact(32768int * 65536, 65536, 32768, 0);
    lemma_div_exact(45875int * 65536, 65536, 45875, 0);
    lemma_div_exact(65536int * 255999, 65536000, 255, 65470464);
    assert(smul(32768, 0) == 0);
    assert(smul(32768, 131072) == 65536) by {
        lemma_div_exact(32768int * 131072, 65536, 65536, 0);
    }
    assert(smul(65536, 65536) == 65536);
    assert(smul(32768, 65536) == 32768);
    assert(smul(45875, 65536) == 45875);
    assert(bg_mix(-(SCALE as int)) == (V3 { x: 65536, y: 65536, z: 65536 }));
    assert(bg_mix(SCALE as int) == (V3 { x: 32768, y: 45875, z: 65536 }));
    assert(quant(65536) == 255);
    assert(quant(32768) == 127) by {
        lemma_div_exact(32768int * 255999, 65536000, 127, 65503232);
    }
    assert(quant(45875) == 179) by {
        lemma_div_exact(45875int * 255999, 65536000, 179, 13010125);
    }
}

} // verus!
