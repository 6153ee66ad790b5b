//! The per-frame renderer: one ray per pixel through the camera, the
//! scene's closest hit shaded and quantized, the result packed row by
//! row into a 24-bit RGB buffer.

use vstd::prelude::*;
use vstd::arithmetic::div_mod::{
    lemma_div_is_ordered, lemma_div_multiples_vanish, lemma_fundamental_div_mod_converse_div,
    lemma_fundamental_div_mod_converse_mod,
};
use crate::camera::{Camera, CameraV, cam_ray, cam_wf};
use crate::color::{Color, quant};
use crate::fx::{Fx, SCALE, tdiv};
use crate::hittable::Hittable;
use crate::hittable_list::HittableList;
use crate::ray::Ray;
use crate::shader::{ray_color, shade};
use crate::sphere::SphereV;
use crate::vec3::V3;

verus! {

/// The largest frame edge the renderer accepts.
pub const MAX_EXTENT: usize = 4096;

/// The normalized coordinate of pixel `i` out of `extent`:
/// i / (extent - 1), in [0, 1].
pub open spec fn pixel_coord_s(i: int, extent: int) -> int {
    tdiv(i * (SCALE as int), extent - 1)
}

/// The packed 24-bit color of pixel (i, j) of a width x height frame.
pub open spec fn pixel_color(
    c: CameraV,
    objs: Seq<SphereV>,
    i: int,
    j: int,
    width: int,
    height: int,
) -> int {
    let u: int = pixel_coord_s(i, width);
    let v: int = pixel_coord_s(j, height);
    let col: V3 = shade(objs, cam_ray(c, u, v));
    quant(col.x) * 65536 + quant(col.y) * 256 + quant(col.z)
}

fn pixel_coord(i: usize, extent: usize) -> (u: Fx)
    requires
        i < extent,
        2 <= extent <= MAX_EXTENT,
    ensures
        u@ == pixel_coord_s(i as int, extent as int),
        0 <= u@ <= SCALE as int,
{
    let num: u64 = (i as u64) * 65536;
    let q: u64 = num / ((extent as u64) - 1);
    proof {
        lemma_div_is_ordered(num as int, (extent as int - 1) * 65536, extent as int - 1);
        lemma_div_multiples_vanish(65536, extent as int - 1);
    }
    Fx { raw: q as i64 }
}

/// Renders one frame: a row-major buffer of width * height packed
/// pixels, each exactly the color `pixel_color` assigns it from this
/// frame's camera state.
pub fn render_frame(cam: &Camera, world: &HittableList, width: usize, height: usize) -> (buf: Vec<
    u32,
>)
    requires
        cam_wf(cam@),
        world.wf(),
        2 <= width <= MAX_EXTENT,
        2 <= height <= MAX_EXTENT,
    ensures
        buf@.len() == width * height,
        forall|k: int|
            0 <= k < buf@.len() ==> buf@[k] == pixel_color(
                cam@,
                world@,
                k % (width as int),
                k / (width as int),
                width as int,
                height as int,
            ),
{
    let mut buf: Vec<u32> = Vec::new();
    let mut j: usize = 0;
    while j < height
        invariant
            cam_wf(cam@),
            world.wf(),
            2 <= width <= MAX_EXTENT,
            2 <= height <= MAX_EXTENT,
            j <= height,
            buf@.len() == j * width,
            forall|k: int|
                0 <= k < buf@.len() ==> buf@[k] == pixel_color(
                    cam@,
                    world@,
                    k % (width as int),
                    k / (width as int),
                    width as int,
                    height as int,
                ),
        decreases height - j,
    {
        let mut i: usize = 0;
        while i < width
            invariant
                cam_wf(cam@),
                world.wf(),
                2 <= width <= MAX_EXTENT,
                2 <= height <= MAX_EXTENT,
                j < height,
                i <= width,
                buf@.len() == j * width + i,
                forall|k: int|
                    0 <= k < buf@.len() ==> buf@[k] == pixel_color(
                        cam@,
                        world@,
                        k % (width as int),
                        k / (width as int),
                        width as int,
                        height as int,
                    ),
            decreases width - i,
        {
            let u: Fx = pixel_coord(i, width);
            let v: Fx = pixel_coord(j, height);
            let ray: Ray = cam.get_ray(u, v);
            let color: Color = ray_color(&ray, world);
            buf.push(color.pack());
            proof {
                let k0: int = j as int * (width as int) + i as int;
                lemma_fundamental_div_mod_converse_div(
                    k0,
                    width as int,
                    j as int,
                    i as int,
                );
                lemma_fundamental_div_mod_converse_mod(
                    k0,
                    width as int,
                    j as int,
                    i as int,
                );
                assert(buf@[k0] == pixel_color(
                    cam@,
                    world@,
                    i as int,
                    j as int,
                    width as int,
                    height as int,
                ));
            }
            i = i + 1;
        }
        proof {
            assert((j as int + 1) * (width as int) == j as int * (width as int) + (
            width as int)) by (nonlinear_arith);
        }
        j = j + 1;
    }
    proof {
        assert((height as int) * (width as int) == (width as int) * (height as int))
            by (nonlinear_arith);
    }
    buf
}

} // verus!
