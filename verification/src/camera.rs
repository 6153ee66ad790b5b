//! The orbit camera: yaw/pitch orientation with a clamped pitch, a
//! world-space origin moved along camera-relative axes, a focal length
//! driven by scroll input, and the projection of pixel coordinates to
//! world-space rays.
//!
//! Sine and cosine are polynomial approximations over fixed-point
//! angles, reduced by quadrant; their contracts state the exact integer
//! value computed.

use vstd::prelude::*;
use vstd::arithmetic::div_mod::{lemma_div_is_ordered, lemma_div_pos_is_pos};
use crate::fx::{Fx, SCALE, mag, smul, lemma_mul_bound, lemma_smul_bound};
use crate::ray::{Ray, RayV, COORD_RANGE};
use crate::vec3::{
    Vec3, V3, vadd, vsub, vscale, vcross, vlen_sq, vnorm, in_range, NORM_RANGE,
    lemma_norm_range, lemma_vcross_bound, lemma_vscale_bound,
};

verus! {

/// A quarter turn; the crate's angle unit is the fixed-point radian.
pub const HALF_PI: i64 = 102944;

/// A full turn, exactly four quarter turns.
pub const TWO_PI: i64 = 411776;

/// Origin translation per frame and held key (about a tenth of a unit).
pub const MOVE_STEP: i64 = 6554;

/// Orientation change per unit of pointer travel (about 0.005 radian).
pub const LOOK_SENS: i64 = 328;

/// Bound on the camera origin's coordinates.
pub const WORLD_RANGE: i64 = 0x800_0000;

/// Bound on the magnitude of the focal length (sixteen units).
pub const FOCAL_RANGE: i64 = 0x10_0000;

/// Bound on the viewport's world-space width and height.
pub const VIEW_RANGE: i64 = 0x10_0000;

/// Bound on pointer coordinates delivered by the collaborator.
pub const POINTER_RANGE: i64 = 0x4000_0000;

/// Bound on a scroll delta delivered by the collaborator.
pub const SCROLL_RANGE: i64 = 0x10_0000;

/// Sine on the reduced range [0, HALF_PI]: r - r^3/6 + r^5/120.
pub open spec fn psin(r: int) -> int {
    let r2: int = (r * r) / (SCALE as int);
    let r3: int = (r2 * r) / (SCALE as int);
    let r5: int = (r3 * r2) / (SCALE as int);
    r - r3 / 6 + r5 / 120
}

/// Cosine on the reduced range [0, HALF_PI]: 1 - r^2/2 + r^4/24 - r^6/720.
pub open spec fn pcos(r: int) -> int {
    let r2: int = (r * r) / (SCALE as int);
    let r4: int = (r2 * r2) / (SCALE as int);
    let r6: int = (r4 * r2) / (SCALE as int);
    (SCALE as int) - r2 / 2 + r4 / 24 - r6 / 720
}

/// Sine assembled from the quadrant and the reduced remainder.
pub open spec fn sin_quad(q: int, rem: int) -> int {
    if q == 0 {
        psin(rem)
    } else if q == 1 {
        pcos(rem)
    } else if q == 2 {
        -psin(rem)
    } else {
        -pcos(rem)
    }
}

/// Cosine assembled from the quadrant and the reduced remainder.
pub open spec fn cos_quad(q: int, rem: int) -> int {
    if q == 0 {
        pcos(rem)
    } else if q == 1 {
        -psin(rem)
    } else if q == 2 {
        -pcos(rem)
    } else {
        psin(rem)
    }
}

/// Sine of an angle within one turn either way.
pub open spec fn sin_s(x: int) -> int {
    let a: int = mag(x);
    let q: int = (a / (HALF_PI as int)) % 4;
    let rem: int = a % (HALF_PI as int);
    if x < 0 {
        -sin_quad(q, rem)
    } else {
        sin_quad(q, rem)
    }
}

/// Cosine of an angle within one turn either way.
pub open spec fn cos_s(x: int) -> int {
    let a: int = mag(x);
    let q: int = (a / (HALF_PI as int)) % 4;
    let rem: int = a % (HALF_PI as int);
    cos_quad(q, rem)
}

/// Bound on the trig polynomials' output (under two units).
pub const TRIG_RANGE: i64 = 0x40000;

fn poly_sin(rem: u64) -> (v: i64)
    requires
        rem < HALF_PI as u64,
    ensures
        v as int == psin(rem as int),
        -(TRIG_RANGE as int) <= v as int <= TRIG_RANGE as int,
{
    proof {
        lemma_mul_bound(rem as int, rem as int, 102943, 102943);
        lemma_div_is_ordered(rem as int * rem as int, 102943int * 102943, 65536);
    }
    let r2: u64 = rem * rem / 65536;
    proof {
        lemma_mul_bound(r2 as int, rem as int, (102943int * 102943) / 65536, 102943);
        lemma_div_is_ordered(
            r2 as int * rem as int,
            ((102943int * 102943) / 65536) * 102943,
            65536,
        );
    }
    let r3: u64 = r2 * rem / 65536;
    proof {
        lemma_mul_bound(
            r3 as int,
            r2 as int,
            (((102943int * 102943) / 65536) * 102943) / 65536,
            (102943int * 102943) / 65536,
        );
        lemma_div_is_ordered(
            r3 as int * r2 as int,
            ((((102943int * 102943) / 65536) * 102943) / 65536) * ((102943int * 102943) / 65536),
            65536,
        );
    }
    let r5: u64 = r3 * r2 / 65536;
    (rem as i64) - ((r3 / 6) as i64) + ((r5 / 120) as i64)
}

fn poly_cos(rem: u64) -> (v: i64)
    requires
        rem < HALF_PI as u64,
    ensures
        v as int == pcos(rem as int),
        -(TRIG_RANGE as int) <= v as int <= TRIG_RANGE as int,
{
    proof {
        lemma_mul_bound(rem as int, rem as int, 102943, 102943);
        lemma_div_is_ordered(rem as int * rem as int, 102943int * 102943, 65536);
    }
    let r2: u64 = rem * rem / 65536;
    proof {
        lemma_mul_bound(
            r2 as int,
            r2 as int,
            (102943int * 102943) / 65536,
            (102943int * 102943) / 65536,
        );
        lemma_div_is_ordered(
            r2 as int * r2 as int,
            ((102943int * 102943) / 65536) * ((102943int * 102943) / 65536),
            65536,
        );
    }
    let r4: u64 = r2 * r2 / 65536;
    proof {
        lemma_mul_bound(
            r4 as int,
            r2 as int,
            (((102943int * 102943) / 65536) * ((102943int * 102943) / 65536)) / 65536,
            (102943int * 102943) / 65536,
        );
        lemma_div_is_ordered(
            r4 as int * r2 as int,
            ((((102943int * 102943) / 65536) * ((102943int * 102943) / 65536)) / 65536) * (
            (102943int * 102943) / 65536),
            65536,
        );
    }
    let r6: u64 = r4 * r2 / 65536;
    65536i64 - ((r2 / 2) as i64) + ((r4 / 24) as i64) - ((r6 / 720) as i64)
}

/// Sine of a fixed-point angle within one turn either way.
pub fn sin_fx(x: Fx) -> (r: Fx)
    requires
        -(TWO_PI as int) <= x@ <= TWO_PI as int,
    ensures
        r@ == sin_s(x@),
        mag(r@) <= TRIG_RANGE as int,
{
    let neg: bool = x.raw < 0;
    let a: u64 = if neg {
        (-x.raw) as u64
    } else {
        x.raw as u64
    };
    let q: u64 = (a / (HALF_PI as u64)) % 4;
    let rem: u64 = a % (HALF_PI as u64);
    let ps: i64 = poly_sin(rem);
    let pc: i64 = poly_cos(rem);
    let v: i64 = if q == 0 {
        ps
    } else if q == 1 {
        pc
    } else if q == 2 {
        -ps
    } else {
        -pc
    };
    Fx {
        raw: if neg {
            -v
        } else {
            v
        },
    }
}

/// Cosine of a fixed-point angle within one turn either way.
pub fn cos_fx(x: Fx) -> (r: Fx)
    requires
        -(TWO_PI as int) <= x@ <= TWO_PI as int,
    ensures
        r@ == cos_s(x@),
        mag(r@) <= TRIG_RANGE as int,
{
    let neg: bool = x.raw < 0;
    let a: u64 = if neg {
        (-x.raw) as u64
    } else {
        x.raw as u64
    };
    let q: u64 = (a / (HALF_PI as u64)) % 4;
    let rem: u64 = a % (HALF_PI as u64);
    let ps: i64 = poly_sin(rem);
    let pc: i64 = poly_cos(rem);
    let v: i64 = if q == 0 {
        pc
    } else if q == 1 {
        -ps
    } else if q == 2 {
        -pc
    } else {
        ps
    };
    Fx { raw: v }
}

/// The world's up direction.
pub open spec fn world_up() -> V3 {
    V3 { x: 0, y: SCALE as int, z: 0 }
}

/// The unit vector of `v`, or the fallback where `v` carries no usable
/// direction (the degenerate frames the camera cannot orient by).
pub open spec fn vnorm_or(v: V3, fallback: V3) -> V3 {
    if vlen_sq(v) >= 1 {
        vnorm(v)
    } else {
        fallback
    }
}

/// The orientation vector before normalization:
/// (cos yaw * cos pitch, sin pitch, sin yaw * cos pitch).
pub open spec fn cam_dir_raw(yaw: int, pitch: int) -> V3 {
    V3 {
        x: smul(cos_s(yaw), cos_s(pitch)),
        y: sin_s(pitch),
        z: smul(sin_s(yaw), cos_s(pitch)),
    }
}

/// The camera's viewing direction, normalized; straight toward -z
/// where the angles yield no usable direction.
pub open spec fn cam_dir(yaw: int, pitch: int) -> V3 {
    vnorm_or(cam_dir_raw(yaw, pitch), V3 { x: 0, y: 0, z: -(SCALE as int) })
}

/// The camera's right vector: direction x world-up, normalized; +x
/// where the cross product degenerates (direction parallel to up).
pub open spec fn cam_right(d: V3) -> V3 {
    vnorm_or(vcross(d, world_up()), V3 { x: SCALE as int, y: 0, z: 0 })
}

/// The camera's up vector: right x direction, normalized; world-up
/// where the cross product degenerates.
pub open spec fn cam_up(right: V3, d: V3) -> V3 {
    vnorm_or(vcross(right, d), world_up())
}

/// The mathematical model of the camera state.
pub ghost struct CameraV {
    pub origin: V3,
    pub yaw: int,
    pub pitch: int,
    pub focal: int,
    pub vw: int,
    pub vh: int,
    pub last_x: int,
    pub last_y: int,
    pub dragging: bool,
}

/// A well-formed camera: origin, focal length and viewport within their
/// ranges, yaw within one turn, pitch within a quarter turn either way.
pub open spec fn cam_wf(c: CameraV) -> bool {
    &&& in_range(c.origin, WORLD_RANGE as int)
    &&& 0 <= c.yaw <= TWO_PI as int
    &&& -(HALF_PI as int) <= c.pitch <= HALF_PI as int
    &&& mag(c.focal) <= FOCAL_RANGE as int
    &&& mag(c.vw) <= VIEW_RANGE as int
    &&& mag(c.vh) <= VIEW_RANGE as int
    &&& mag(c.last_x) <= POINTER_RANGE as int
    &&& mag(c.last_y) <= POINTER_RANGE as int
}

/// The camera state: position, orientation angles, focal length, the
/// viewport's world-space extent, and the pointer-drag bookkeeping.
/// The only mutable state of the core, updated once per frame.
pub struct Camera {
    pub origin: Vec3,
    pub yaw: Fx,
    pub pitch: Fx,
    pub focal_length: Fx,
    pub viewport_width: Fx,
    pub viewport_height: Fx,
    pub last_pointer_x: Fx,
    pub last_pointer_y: Fx,
    pub dragging: bool,
}

impl View for Camera {
    type V = CameraV;

    open spec fn view(&self) -> CameraV {
        CameraV {
            origin: self.origin@,
            yaw: self.yaw@,
            pitch: self.pitch@,
            focal: self.focal_length@,
            vw: self.viewport_width@,
            vh: self.viewport_height@,
            last_x: self.last_pointer_x@,
            last_y: self.last_pointer_y@,
            dragging: self.dragging,
        }
    }
}

/// The boolean key states and pointer/scroll values one frame delivers.
pub struct InputState {
    pub forward: bool,
    pub back: bool,
    pub left: bool,
    pub right: bool,
    pub up: bool,
    pub down: bool,
    pub pointer_x: Fx,
    pub pointer_y: Fx,
    pub pointer_down: bool,
    pub scroll: Fx,
}

/// The mathematical model of one frame's input.
pub ghost struct InputV {
    pub forward: bool,
    pub back: bool,
    pub left: bool,
    pub right: bool,
    pub up: bool,
    pub down: bool,
    pub pointer_x: int,
    pub pointer_y: int,
    pub pointer_down: bool,
    pub scroll: int,
}

impl View for InputState {
    type V = InputV;

    open spec fn view(&self) -> InputV {
        InputV {
            forward: self.forward,
            back: self.back,
            left: self.left,
            right: self.right,
            up: self.up,
            down: self.down,
            pointer_x: self.pointer_x@,
            pointer_y: self.pointer_y@,
            pointer_down: self.pointer_down,
            scroll: self.scroll@,
        }
    }
}

/// Input within the ranges the collaborator promises.
pub open spec fn input_wf(i: InputV) -> bool {
    &&& mag(i.pointer_x) <= POINTER_RANGE as int
    &&& mag(i.pointer_y) <= POINTER_RANGE as int
    &&& mag(i.scroll) <= SCROLL_RANGE as int
}

/// `x` clamped into [lo, hi].
pub open spec fn clampi(x: int, lo: int, hi: int) -> int {
    if x < lo {
        lo
    } else if x > hi {
        hi
    } else {
        x
    }
}

/// Each component clamped into [-b, b].
pub open spec fn clamp3(v: V3, b: int) -> V3 {
    V3 { x: clampi(v.x, -b, b), y: clampi(v.y, -b, b), z: clampi(v.z, -b, b) }
}

/// One wrap step keeping an angle within [0, TWO_PI] after a bounded
/// change.
pub open spec fn wrap_angle(x: int) -> int {
    if x < 0 {
        x + TWO_PI as int
    } else if x > TWO_PI as int {
        x - TWO_PI as int
    } else {
        x
    }
}

/// Per-frame translation along one axis: plus a step while the positive
/// key is held, minus a step while the negative key is held.
pub open spec fn key_step(pos: bool, neg: bool) -> int {
    (if pos {
        MOVE_STEP as int
    } else {
        0
    }) - (if neg {
        MOVE_STEP as int
    } else {
        0
    })
}

/// The frame's translation along given camera axes: held keys move
/// along forward, right and up.
pub open spec fn move_delta_from(d: V3, right: V3, up: V3, i: InputV) -> V3 {
    vadd(
        vadd(
            vscale(d, key_step(i.forward, i.back)),
            vscale(right, key_step(i.right, i.left)),
        ),
        vscale(up, key_step(i.up, i.down)),
    )
}

/// The frame's translation: held keys move the origin along the
/// camera-relative forward, right and up axes.
pub open spec fn move_delta(c: CameraV, i: InputV) -> V3 {
    let d: V3 = cam_dir(c.yaw, c.pitch);
    let right: V3 = cam_right(d);
    let up: V3 = cam_up(right, d);
    move_delta_from(d, right, up, i)
}

/// The yaw after one frame: while turning, the pointer's horizontal
/// travel scaled by the sensitivity (bounded by one turn), wrapped back
/// into [0, TWO_PI].
pub open spec fn turn_yaw(yaw: int, last_x: int, i: InputV, turning: bool) -> int {
    if turning {
        wrap_angle(
            yaw + clampi(
                smul(i.pointer_x - last_x, LOOK_SENS as int),
                -(TWO_PI as int),
                TWO_PI as int,
            ),
        )
    } else {
        yaw
    }
}

/// The pitch after one frame: while turning, the pointer's vertical
/// travel scaled by the sensitivity, clamped to a quarter turn either
/// way so the camera cannot flip past the poles.
pub open spec fn turn_pitch(pitch: int, last_y: int, i: InputV, turning: bool) -> int {
    if turning {
        clampi(
            pitch - smul(i.pointer_y - last_y, LOOK_SENS as int),
            -(HALF_PI as int),
            HALF_PI as int,
        )
    } else {
        pitch
    }
}

/// The camera state after one frame of input. Held keys translate the
/// origin (saturating at the world range); while the pointer is held
/// and was held last frame, its travel turns into yaw (wrapped within
/// one turn) and pitch (clamped to a quarter turn either way); a scroll
/// delta adjusts the focal length directly, saturating at its range;
/// releasing the pointer drops the drag flag.
pub open spec fn cam_step(c: CameraV, i: InputV) -> CameraV {
    CameraV {
        origin: clamp3(vadd(c.origin, move_delta(c, i)), WORLD_RANGE as int),
        yaw: turn_yaw(c.yaw, c.last_x, i, i.pointer_down && c.dragging),
        pitch: turn_pitch(c.pitch, c.last_y, i, i.pointer_down && c.dragging),
        focal: clampi(c.focal + i.scroll, -(FOCAL_RANGE as int), FOCAL_RANGE as int),
        vw: c.vw,
        vh: c.vh,
        last_x: if i.pointer_down {
            i.pointer_x
        } else {
            c.last_x
        },
        last_y: if i.pointer_down {
            i.pointer_y
        } else {
            c.last_y
        },
        dragging: i.pointer_down,
    }
}

/// The ray cast through normalized pixel coordinates (u, v): the
/// direction is horizontal*u + vertical*v - (0, 0, focal), the origin
/// the camera origin.
pub open spec fn cam_ray(c: CameraV, u: int, v: int) -> RayV {
    let d: V3 = cam_dir(c.yaw, c.pitch);
    let right: V3 = cam_right(d);
    let up: V3 = cam_up(right, d);
    let horizontal: V3 = vscale(right, c.vw);
    let vertical: V3 = vscale(up, c.vh);
    RayV {
        orig: c.origin,
        dir: vsub(
            vadd(vscale(horizontal, u), vscale(vertical, v)),
            V3 { x: 0, y: 0, z: c.focal },
        ),
    }
}

/// The unit vector of `v`, or `fallback` where `v` is too short.
fn unit_or(v: Vec3, fallback: Vec3) -> (r: Vec3)
    requires
        in_range(v@, 0x400_0000),
        in_range(fallback@, NORM_RANGE as int),
    ensures
        r@ == vnorm_or(v@, fallback@),
        in_range(r@, NORM_RANGE as int),
{
    let ls: Fx = v.length_squared();
    if ls.raw >= 1 {
        proof {
            lemma_norm_range(v@);
        }
        v.normalized()
    } else {
        fallback
    }
}

impl Camera {
    /// A camera at `origin` with the given orientation, focal length
    /// and viewport extent, with no drag in progress.
    pub fn new(
        origin: Vec3,
        yaw: Fx,
        pitch: Fx,
        focal_length: Fx,
        viewport_width: Fx,
        viewport_height: Fx,
    ) -> (c: Camera)
        requires
            in_range(origin@, WORLD_RANGE as int),
            0 <= yaw@ <= TWO_PI as int,
            -(HALF_PI as int) <= pitch@ <= HALF_PI as int,
            mag(focal_length@) <= FOCAL_RANGE as int,
            mag(viewport_width@) <= VIEW_RANGE as int,
            mag(viewport_height@) <= VIEW_RANGE as int,
        ensures
            cam_wf(c@),
            c@ == (CameraV {
                origin: origin@,
                yaw: yaw@,
                pitch: pitch@,
                focal: focal_length@,
                vw: viewport_width@,
                vh: viewport_height@,
                last_x: 0,
                last_y: 0,
                dragging: false,
            }),
    {
        Camera {
            origin,
            yaw,
            pitch,
            focal_length,
            viewport_width,
            viewport_height,
            last_pointer_x: Fx { raw: 0 },
            last_pointer_y: Fx { raw: 0 },
            dragging: false,
        }
    }

    /// The viewing direction for the current yaw and pitch.
    pub fn direction(&self) -> (d: Vec3)
        requires
            cam_wf(self@),
        ensures
            d@ == cam_dir(self@.yaw, self@.pitch),
            in_range(d@, NORM_RANGE as int),
    {
        let cy: Fx = cos_fx(self.yaw);
        let sy: Fx = sin_fx(self.yaw);
        let cp: Fx = cos_fx(self.pitch);
        let sp: Fx = sin_fx(self.pitch);
        proof {
            lemma_smul_bound(cy@, cp@, TRIG_RANGE as int, TRIG_RANGE as int);
            lemma_smul_bound(sy@, cp@, TRIG_RANGE as int, TRIG_RANGE as int);
        }
        let raw: Vec3 = Vec3 { x: cy.mul(cp), y: sp, z: sy.mul(cp) };
        unit_or(raw, Vec3 { x: Fx { raw: 0 }, y: Fx { raw: 0 }, z: Fx { raw: -SCALE } })
    }

    /// The orthonormal-by-construction frame: viewing direction, right,
    /// and up.
    pub fn frame(&self) -> (f: (Vec3, Vec3, Vec3))
        requires
            cam_wf(self@),
        ensures
            f.0@ == cam_dir(self@.yaw, self@.pitch),
            f.1@ == cam_right(f.0@),
            f.2@ == cam_up(f.1@, f.0@),
            in_range(f.0@, NORM_RANGE as int),
            in_range(f.1@, NORM_RANGE as int),
            in_range(f.2@, NORM_RANGE as int),
    {
        let d: Vec3 = self.direction();
        let up_world: Vec3 = Vec3 { x: Fx { raw: 0 }, y: Fx { raw: SCALE }, z: Fx { raw: 0 } };
        proof {
            lemma_vcross_bound(d@, up_world@, NORM_RANGE as int);
        }
        let right: Vec3 = unit_or(
            d.cross(up_world),
            Vec3 { x: Fx { raw: SCALE }, y: Fx { raw: 0 }, z: Fx { raw: 0 } },
        );
        proof {
            lemma_vcross_bound(right@, d@, NORM_RANGE as int);
        }
        let up: Vec3 = unit_or(right.cross(d), up_world);
        (d, right, up)
    }

    /// The ray through normalized pixel coordinates (u, v).
    pub fn get_ray(&self, u: Fx, v: Fx) -> (r: Ray)
        requires
            cam_wf(self@),
            0 <= u@ <= SCALE as int,
            0 <= v@ <= SCALE as int,
        ensures
            r@ == cam_ray(self@, u@, v@),
            in_range(r@.orig, COORD_RANGE as int),
            in_range(r@.dir, COORD_RANGE as int),
    {
        let f: (Vec3, Vec3, Vec3) = self.frame();
        proof {
            lemma_vscale_bound(f.1@, self@.vw, NORM_RANGE as int, VIEW_RANGE as int);
            lemma_vscale_bound(f.2@, self@.vh, NORM_RANGE as int, VIEW_RANGE as int);
        }
        let horizontal: Vec3 = f.1.scale(self.viewport_width);
        let vertical: Vec3 = f.2.scale(self.viewport_height);
        proof {
            lemma_vscale_bound(horizontal@, u@, 0x500_0000, SCALE as int);
            lemma_vscale_bound(vertical@, v@, 0x500_0000, SCALE as int);
        }
        let huv: Vec3 = horizontal.scale(u).add(vertical.scale(v));
        let dir: Vec3 = huv.sub(
            Vec3 { x: Fx { raw: 0 }, y: Fx { raw: 0 }, z: self.focal_length },
        );
        Ray { orig: self.origin, dir }
    }

    /// Applies one frame of input, exactly as `cam_step` describes;
    /// well-formedness is preserved.
    pub fn update(&mut self, input: &InputState)
        requires
            cam_wf(old(self)@),
            input_wf(input@),
        ensures
            final(self)@ == cam_step(old(self)@, input@),
            cam_wf(final(self)@),
    {
        let f: (Vec3, Vec3, Vec3) = self.frame();
        let origin2: Vec3 = apply_move(self.origin, f.0, f.1, f.2, input);
        let turning: bool = input.pointer_down && self.dragging;
        let yaw2: Fx = apply_yaw(self.yaw, self.last_pointer_x, input, turning);
        let pitch2: Fx = apply_pitch(self.pitch, self.last_pointer_y, input, turning);
        let focal2: Fx = clamp_fx(
            self.focal_length.add(input.scroll),
            -FOCAL_RANGE,
            FOCAL_RANGE,
        );
        self.origin = origin2;
        self.yaw = yaw2;
        self.pitch = pitch2;
        self.focal_length = focal2;
        if input.pointer_down {
            self.last_pointer_x = input.pointer_x;
            self.last_pointer_y = input.pointer_y;
            self.dragging = true;
        } else {
            self.dragging = false;
        }
    }
}

/// The origin after one frame's key translation, saturating at the
/// world range.
#[verifier::rlimit(100)]
fn apply_move(origin: Vec3, d: Vec3, right: Vec3, up: Vec3, input: &InputState) -> (o2: Vec3)
    requires
        in_range(origin@, WORLD_RANGE as int),
        in_range(d@, NORM_RANGE as int),
        in_range(right@, NORM_RANGE as int),
        in_range(up@, NORM_RANGE as int),
    ensures
        o2@ == clamp3(vadd(origin@, move_delta_from(d@, right@, up@, input@)), WORLD_RANGE as int),
        in_range(o2@, WORLD_RANGE as int),
{
    let fstep: Fx = Fx { raw: key_amount(input.forward, input.back) };
    let rstep: Fx = Fx { raw: key_amount(input.right, input.left) };
    let ustep: Fx = Fx { raw: key_amount(input.up, input.down) };
    proof {
        lemma_vscale_bound(d@, fstep@, NORM_RANGE as int, MOVE_STEP as int);
        lemma_vscale_bound(right@, rstep@, NORM_RANGE as int, MOVE_STEP as int);
        lemma_vscale_bound(up@, ustep@, NORM_RANGE as int, MOVE_STEP as int);
    }
    let delta: Vec3 = d.scale(fstep).add(right.scale(rstep)).add(up.scale(ustep));
    let moved: Vec3 = origin.add(delta);
    Vec3 {
        x: clamp_fx(moved.x, -WORLD_RANGE, WORLD_RANGE),
        y: clamp_fx(moved.y, -WORLD_RANGE, WORLD_RANGE),
        z: clamp_fx(moved.z, -WORLD_RANGE, WORLD_RANGE),
    }
}

/// The yaw after one frame's pointer travel.
fn apply_yaw(yaw: Fx, last_x: Fx, input: &InputState, turning: bool) -> (y2: Fx)
    requires
        0 <= yaw@ <= TWO_PI as int,
        mag(last_x@) <= POINTER_RANGE as int,
        input_wf(input@),
    ensures
        y2@ == turn_yaw(yaw@, last_x@, input@, turning),
        0 <= y2@ <= TWO_PI as int,
{
    if turning {
        let dx: Fx = input.pointer_x.sub(last_x);
        proof {
            lemma_smul_bound(dx@, LOOK_SENS as int, 2 * POINTER_RANGE as int, LOOK_SENS as int);
        }
        let dyaw: Fx = clamp_fx(dx.mul(Fx { raw: LOOK_SENS }), -TWO_PI, TWO_PI);
        wrap_fx(yaw.add(dyaw))
    } else {
        yaw
    }
}

/// The pitch after one frame's pointer travel, clamped at the poles.
fn apply_pitch(pitch: Fx, last_y: Fx, input: &InputState, turning: bool) -> (p2: Fx)
    requires
        -(HALF_PI as int) <= pitch@ <= HALF_PI as int,
        mag(last_y@) <= POINTER_RANGE as int,
        input_wf(input@),
    ensures
        p2@ == turn_pitch(pitch@, last_y@, input@, turning),
        -(HALF_PI as int) <= p2@ <= HALF_PI as int,
{
    if turning {
        let dy: Fx = input.pointer_y.sub(last_y);
        proof {
            lemma_smul_bound(dy@, LOOK_SENS as int, 2 * POINTER_RANGE as int, LOOK_SENS as int);
        }
        let dpitch: Fx = dy.mul(Fx { raw: LOOK_SENS });
        clamp_fx(pitch.sub(dpitch), -HALF_PI, HALF_PI)
    } else {
        pitch
    }
}

/// The signed per-frame step for one key pair.
fn key_amount(pos: bool, neg: bool) -> (r: i64)
    ensures
        r as int == key_step(pos, neg),
        mag(r as int) <= MOVE_STEP as int,
{
    (if pos {
        MOVE_STEP
    } else {
        0
    }) - (if neg {
        MOVE_STEP
    } else {
        0
    })
}

fn clamp_fx(x: Fx, lo: i64, hi: i64) -> (r: Fx)
    requires
        lo <= hi,
    ensures
        r@ == clampi(x@, lo as int, hi as int),
{
    if x.raw < lo {
        Fx { raw: lo }
    } else if x.raw > hi {
        Fx { raw: hi }
    } else {
        x
    }
}

fn wrap_fx(x: Fx) -> (r: Fx)
    requires
        -(TWO_PI as int) <= x@ <= 2 * TWO_PI as int,
    ensures
        r@ == wrap_angle(x@),
{
    if x.raw < 0 {
        Fx { raw: x.raw + TWO_PI }
    } else if x.raw > TWO_PI {
        Fx { raw: x.raw - TWO_PI }
    } else {
        x
    }
}

/// Pitch clamping law, upper pole: with the pitch resting exactly at
/// the quarter-turn clamp, a drag that would push it further leaves it
/// pinned exactly there.
pub proof fn lemma_pitch_pinned_high(c: CameraV, i: InputV)
    requires
        i.pointer_down,
        c.dragging,
        c.pitch == HALF_PI as int,
        i.pointer_y <= c.last_y,
    ensures
        cam_step(c, i).pitch == HALF_PI as int,
{
    lemma_smul_nonpos(i.pointer_y - c.last_y, LOOK_SENS as int);
}

/// Pitch clamping law, lower pole: the mirror image of the upper case.
pub proof fn lemma_pitch_pinned_low(c: CameraV, i: InputV)
    requires
        i.pointer_down,
        c.dragging,
        c.pitch == -(HALF_PI as int),
        i.pointer_y >= c.last_y,
    ensures
        cam_step(c, i).pitch == -(HALF_PI as int),
{
    lemma_smul_nonneg(i.pointer_y - c.last_y, LOOK_SENS as int);
}

/// A fixed-point product of values of one sign is non-negative.
proof fn lemma_smul_nonneg(a: int, b: int)
    requires
        a >= 0,
        b >= 0,
    ensures
        smul(a, b) >= 0,
{
    assert(a * b >= 0) by (nonlinear_arith)
        requires
            a >= 0,
            b >= 0,
    ;
    lemma_div_pos_is_pos(a * b, SCALE as int);
}

/// A fixed-point product of values of opposite sign is non-positive.
proof fn lemma_smul_nonpos(a: int, b: int)
    requires
        a <= 0,
        b >= 0,
    ensures
        smul(a, b) <= 0,
{
    assert(a * b <= 0) by (nonlinear_arith)
        requires
            a <= 0,
            b >= 0,
    ;
    if a * b < 0 {
        lemma_div_pos_is_pos(-(a * b), SCALE as int);
    } else {
        lemma_div_pos_is_pos(a * b, SCALE as int);
    }
}

} // verus!
