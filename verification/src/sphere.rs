//! Analytic ray/sphere intersection: the quadratic in the ray parameter
//! is solved exactly over fixed-point scalars, the nearer admissible root
//! is preferred, and the outward normal is the radial direction.

use vstd::prelude::*;
use crate::fx::{
    Fx, SCALE, mag, tdiv, smul, ssqrt, tdiv_i128, isqrt_u128,
    lemma_mul_bound, lemma_smul_bound, lemma_sqrt_floor_exists, lemma_tdiv_bound, lemma_tdiv_mono,
    lemma_tdiv_neg,
};
use crate::hittable::{HitModel, HitRecord, Hittable};
use crate::ray::{Ray, RayV, ray_wf, vray_at, COORD_RANGE, T_RANGE};
use crate::vec3::{
    Vec3, V3, vsub, vdot, vdiv, vlen_sq, in_range, lemma_vdot_bound,
    lemma_vscale_bound,
};

verus! {

/// The mathematical model of a sphere.
pub ghost struct SphereV {
    pub center: V3,
    pub radius: int,
}

/// Quadratic coefficient `a`: the squared length of the ray direction.
pub open spec fn sph_a(r: RayV) -> int {
    vlen_sq(r.dir)
}

/// Half the linear coefficient: (origin - center) . direction.
pub open spec fn sph_half_b(s: SphereV, r: RayV) -> int {
    vdot(vsub(r.orig, s.center), r.dir)
}

/// Constant coefficient: |origin - center|^2 - radius^2.
pub open spec fn sph_c(s: SphereV, r: RayV) -> int {
    vlen_sq(vsub(r.orig, s.center)) - smul(s.radius, s.radius)
}

/// Discriminant of the half-b quadratic: half_b^2 - a * c, in fixed
/// point with a single truncating division.
pub open spec fn sph_disc(s: SphereV, r: RayV) -> int {
    tdiv(
        sph_half_b(s, r) * sph_half_b(s, r) - sph_a(r) * sph_c(s, r),
        SCALE as int,
    )
}

/// Square root of the discriminant (meaningful when it is positive).
pub open spec fn sph_sqrt_d(s: SphereV, r: RayV) -> int {
    ssqrt(sph_disc(s, r))
}

/// The nearer root: (-half_b - sqrt(disc)) / a.
pub open spec fn sph_root_near(s: SphereV, r: RayV) -> int {
    tdiv((-sph_half_b(s, r) - sph_sqrt_d(s, r)) * (SCALE as int), sph_a(r))
}

/// The farther root: (-half_b + sqrt(disc)) / a.
pub open spec fn sph_root_far(s: SphereV, r: RayV) -> int {
    tdiv((-sph_half_b(s, r) + sph_sqrt_d(s, r)) * (SCALE as int), sph_a(r))
}

/// The accepted parameter: no real root when the discriminant is not
/// positive (a tangent touch counts as a miss); otherwise the nearer
/// root if it lies within the closed interval, else the farther root if
/// that one does, else nothing.
pub open spec fn sph_hit_t(s: SphereV, r: RayV, t_min: int, t_max: int) -> Option<int> {
    if sph_disc(s, r) <= 0 {
        None
    } else {
        let near: int = sph_root_near(s, r);
        let far: int = sph_root_far(s, r);
        if t_min <= near && near <= t_max {
            Some(near)
        } else if t_min <= far && far <= t_max {
            Some(far)
        } else {
            None
        }
    }
}

/// Whether the ray arrives from outside: its direction makes an obtuse
/// angle with the outward radial vector at the hit point (exact sign of
/// the unscaled dot product).
pub open spec fn sph_front_face(r: RayV, p: V3, center: V3) -> bool {
    r.dir.x * (p.x - center.x) + r.dir.y * (p.y - center.y) + r.dir.z * (p.z - center.z) < 0
}

/// The record produced for an accepted parameter `t`.
pub open spec fn sph_record(s: SphereV, r: RayV, t: int) -> HitModel {
    let p: V3 = vray_at(r, t);
    HitModel {
        p,
        normal: vdiv(vsub(p, s.center), s.radius),
        t,
        front_face: sph_front_face(r, p, s.center),
    }
}

/// The whole query outcome.
pub open spec fn sph_hit_model(s: SphereV, r: RayV, t_min: int, t_max: int) -> Option<HitModel> {
    match sph_hit_t(s, r, t_min, t_max) {
        Some(t) => Some(sph_record(s, r, t)),
        None => None,
    }
}

/// A sphere fit for querying: center in the coordinate range, radius
/// positive and bounded.
pub open spec fn sph_wf(s: SphereV) -> bool {
    &&& in_range(s.center, COORD_RANGE as int)
    &&& 1 <= s.radius <= COORD_RANGE as int
}

/// A sphere: a center and a positive radius. Immutable once placed.
#[derive(Clone, Copy, Debug)]
pub struct Sphere {
    center: Vec3,
    radius: Fx,
}

impl View for Sphere {
    type V = SphereV;

    closed spec fn view(&self) -> SphereV {
        SphereV { center: self.center@, radius: self.radius.raw as int }
    }
}

impl Sphere {
    /// Builds a sphere; the radius must be positive and the geometry
    /// must lie within the coordinate range.
    pub fn new(center: Vec3, radius: Fx) -> (s: Sphere)
        requires
            in_range(center@, COORD_RANGE as int),
            1 <= radius@ <= COORD_RANGE as int,
        ensures
            s@ == (SphereV { center: center@, radius: radius@ }),
            s.wf(),
    {
        Sphere { center, radius }
    }
}

impl Hittable for Sphere {
    open spec fn wf(&self) -> bool {
        sph_wf(self@)
    }

    open spec fn hit_model(&self, ray: RayV, t_min: int, t_max: int) -> Option<HitModel> {
        sph_hit_model(self@, ray, t_min, t_max)
    }

    fn hit(&self, r: &Ray, t_min: Fx, t_max: Fx, rec: &mut HitRecord) -> (is_hit: bool) {
        let oc: Vec3 = r.origin().sub(self.center);
        let a: Fx = r.direction().length_squared();
        let half_b: Fx = oc.dot(r.direction());
        proof {
            lemma_vdot_bound(oc@, oc@, 0x2000_0000);
            lemma_smul_bound(self@.radius, self@.radius, 0x1000_0000, 0x1000_0000);
        }
        let ls_oc: Fx = oc.length_squared();
        let rad_sq: Fx = self.radius.mul(self.radius);
        let c_v: Fx = ls_oc.sub(rad_sq);
        proof {
            lemma_vdot_bound(oc@, r@.dir, 0x2000_0000);
            lemma_vdot_bound(r@.dir, r@.dir, 0x1000_0000);
            lemma_mul_bound(half_b@, half_b@, 0xC00_0000_0000, 0xC00_0000_0000);
            lemma_mul_bound(a@, c_v@, 0x300_0000_0000, 0xD00_0000_0000);
            lemma_tdiv_bound(
                half_b@ * half_b@ - a@ * c_v@,
                SCALE as int,
                0xC00_0000_0000int * 0xC00_0000_0000 + 0x300_0000_0000int * 0xD00_0000_0000,
            );
        }
        let hb_i: i128 = half_b.raw as i128;
        let disc: i128 = tdiv_i128(hb_i * hb_i - (a.raw as i128) * (c_v.raw as i128), 65536);
        if disc <= 0 {
            return false;
        }
        let sqd: u128 = (disc as u128) * 65536;
        let sq: u64 = isqrt_u128(sqd);
        proof {
            assert(sq as int <= 0x4000_0000_0000) by (nonlinear_arith)
                requires
                    0 <= sq as int,
                    (sq as int) * (sq as int) <= sqd as int,
                    sqd as int <= (0xC00_0000_0000 * 0xC00_0000_0000 + 0x300_0000_0000
                        * 0xD00_0000_0000),
            ;
        }
        let a_i: i128 = a.raw as i128;
        let num_near: i128 = (-hb_i - (sq as i128)) * 65536;
        let num_far: i128 = (-hb_i + (sq as i128)) * 65536;
        let near: i128 = tdiv_i128(num_near, a_i);
        let far: i128 = tdiv_i128(num_far, a_i);
        let tmin_i: i128 = t_min.raw as i128;
        let tmax_i: i128 = t_max.raw as i128;
        let use_near: bool = tmin_i <= near && near <= tmax_i;
        let use_far: bool = tmin_i <= far && far <= tmax_i;
        if !use_near && !use_far {
            return false;
        }
        let root: i128 = if use_near {
            near
        } else {
            far
        };
        let t_fx: Fx = Fx { raw: root as i64 };
        let p: Vec3 = r.at(t_fx);
        proof {
            lemma_vscale_bound(r@.dir, t_fx@, COORD_RANGE as int, T_RANGE as int);
            lemma_tdiv_bound(
                (p@.x - self@.center.x) * (SCALE as int),
                self@.radius,
                0x800_0000_0000int * 65536,
            );
            lemma_tdiv_bound(
                (p@.y - self@.center.y) * (SCALE as int),
                self@.radius,
                0x800_0000_0000int * 65536,
            );
            lemma_tdiv_bound(
                (p@.z - self@.center.z) * (SCALE as int),
                self@.radius,
                0x800_0000_0000int * 65536,
            );
        }
        let d: Vec3 = p.sub(self.center);
        let outward: Vec3 = d.div(self.radius);
        proof {
            lemma_mul_bound(r@.dir.x, d@.x, 0x1000_0000, 0x800_0000_0000);
            lemma_mul_bound(r@.dir.y, d@.y, 0x1000_0000, 0x800_0000_0000);
            lemma_mul_bound(r@.dir.z, d@.z, 0x1000_0000, 0x800_0000_0000);
        }
        let ffs: i128 = (r.dir.x.raw as i128) * (d.x.raw as i128)
            + (r.dir.y.raw as i128) * (d.y.raw as i128)
            + (r.dir.z.raw as i128) * (d.z.raw as i128);
        let ff: bool = ffs < 0;
        *rec = HitRecord { p, normal: outward, t: t_fx, front_face: ff };
        true
    }
}

/// Any record a well-formed sphere reports for a ray within range has
/// its normal's components bounded; callers shade with them safely.
pub proof fn lemma_record_in_range(s: SphereV, r: RayV, t_min: int, t_max: int)
    requires
        sph_wf(s),
        ray_wf(r),
        -(T_RANGE as int) <= t_min,
        t_max <= T_RANGE as int,
        sph_hit_model(s, r, t_min, t_max) is Some,
    ensures
        in_range(sph_hit_model(s, r, t_min, t_max).unwrap().normal, 0x800_0000_0000_0000),
{
    let t: int = sph_hit_t(s, r, t_min, t_max).unwrap();
    assert(mag(t) <= T_RANGE as int);
    lemma_vscale_bound(r.dir, t, COORD_RANGE as int, T_RANGE as int);
    let p: V3 = vray_at(r, t);
    lemma_tdiv_bound((p.x - s.center.x) * (SCALE as int), s.radius, 0x800_0000_0000int * 65536);
    lemma_tdiv_bound((p.y - s.center.y) * (SCALE as int), s.radius, 0x800_0000_0000int * 65536);
    lemma_tdiv_bound((p.z - s.center.z) * (SCALE as int), s.radius, 0x800_0000_0000int * 65536);
}

/// Shrinking the far end of the interval keeps exactly the hits that
/// already lay within it: against the tighter interval the query
/// reports the same record when its parameter still fits, and nothing
/// otherwise.
pub proof fn lemma_sph_shrink(s: SphereV, r: RayV, t_min: int, t_max: int, t_cut: int)
    requires
        t_cut <= t_max,
        vlen_sq(r.dir) >= 1,
    ensures
        sph_hit_model(s, r, t_min, t_max) is None ==> sph_hit_model(s, r, t_min, t_cut) is None,
        sph_hit_model(s, r, t_min, t_max) matches Some(m) ==> sph_hit_model(s, r, t_min, t_cut)
            == (if m.t <= t_cut {
                Some(m)
            } else {
                None::<HitModel>
            }),
{
    if sph_disc(s, r) > 0 {
        lemma_sphere_roots_symmetric(s, r);
    }
}

/// The two intersection parameters lie symmetric about the projection
/// of the center offset onto the ray direction: before the final
/// division by `a`, the root numerators sum to exactly twice
/// (center - origin) . direction. In particular, for a ray through the
/// center, the roots straddle the parameter of the center itself. The
/// nearer root never exceeds the farther one.
pub proof fn lemma_sphere_roots_symmetric(s: SphereV, r: RayV)
    requires
        sph_disc(s, r) >= 0,
        vlen_sq(r.dir) >= 1,
    ensures
        (-sph_half_b(s, r) - sph_sqrt_d(s, r)) + (-sph_half_b(s, r) + sph_sqrt_d(s, r)) == 2
            * vdot(vsub(s.center, r.orig), r.dir),
        sph_root_near(s, r) <= sph_root_far(s, r),
{
    let hb: int = sph_half_b(s, r);
    let sq: int = sph_sqrt_d(s, r);
    lemma_sqrt_floor_exists(sph_disc(s, r) * (SCALE as int));
    assert(sq >= 0);
    // the dot product flips sign with its first argument
    let o: V3 = r.orig;
    let c: V3 = s.center;
    let fwd: int = (c.x - o.x) * r.dir.x + (c.y - o.y) * r.dir.y + (c.z - o.z) * r.dir.z;
    let bwd: int = (o.x - c.x) * r.dir.x + (o.y - c.y) * r.dir.y + (o.z - c.z) * r.dir.z;
    assert(fwd == -bwd) by (nonlinear_arith)
        requires
            fwd == (c.x - o.x) * r.dir.x + (c.y - o.y) * r.dir.y + (c.z - o.z) * r.dir.z,
            bwd == (o.x - c.x) * r.dir.x + (o.y - c.y) * r.dir.y + (o.z - c.z) * r.dir.z,
    ;
    lemma_tdiv_neg(bwd, SCALE as int);
    assert(vdot(vsub(c, o), r.dir) == -hb);
    // the roots are ordered because division is monotone
    assert((-hb - sq) * (SCALE as int) <= (-hb + sq) * (SCALE as int));
    lemma_tdiv_mono(
        (-hb - sq) * (SCALE as int),
        (-hb + sq) * (SCALE as int),
        sph_a(r),
    );
}

} // verus!
