//! The polymorphic surface contract: anything a ray can strike answers
//! an intersection query over a closed parameter interval.

use vstd::prelude::*;
use crate::fx::Fx;
use crate::ray::{Ray, RayV, ray_wf, T_RANGE};
use crate::vec3::{Vec3, V3};

verus! {

/// The mathematical content of a hit record.
pub ghost struct HitModel {
    pub p: V3,
    pub normal: V3,
    pub t: int,
    pub front_face: bool,
}

/// Transient result of an intersection query: the hit point, the outward
/// surface normal there, the ray parameter, and whether the ray arrived
/// from outside. Created per query and owned by the caller.
#[derive(Clone, Copy, Debug)]
pub struct HitRecord {
    pub p: Vec3,
    pub normal: Vec3,
    pub t: Fx,
    pub front_face: bool,
}

impl View for HitRecord {
    type V = HitModel;

    open spec fn view(&self) -> HitModel {
        HitModel { p: self.p@, normal: self.normal@, t: self.t@, front_face: self.front_face }
    }
}

impl Default for HitRecord {
    /// An empty record: all zero, not front facing.
    fn default() -> (r: Self)
        ensures
            r@ == (HitModel {
                p: V3 { x: 0, y: 0, z: 0 },
                normal: V3 { x: 0, y: 0, z: 0 },
                t: 0,
                front_face: false,
            }),
    {
        HitRecord {
            p: Vec3::zero(),
            normal: Vec3::zero(),
            t: Fx { raw: 0 },
            front_face: false,
        }
    }
}

/// A surface that rays can strike.
///
/// `hit_model` states the one outcome the query may produce; `hit`
/// computes it. The parameter interval `[t_min, t_max]` is closed on
/// both ends: a root strictly outside it is rejected.
pub trait Hittable {
    /// The surface is well formed for querying.
    spec fn wf(&self) -> bool;

    /// The outcome the intersection query must produce.
    spec fn hit_model(&self, ray: RayV, t_min: int, t_max: int) -> Option<HitModel>;

    /// Queries the surface; on a hit the record is filled and `true`
    /// comes back, otherwise the record is left untouched.
    fn hit(&self, r: &Ray, t_min: Fx, t_max: Fx, rec: &mut HitRecord) -> (is_hit: bool)
        requires
            self.wf(),
            ray_wf(r@),
            -(T_RANGE as int) <= t_min@,
            t_max@ <= T_RANGE as int,
        ensures
            is_hit == self.hit_model(r@, t_min@, t_max@) is Some,
            is_hit ==> final(rec)@ == self.hit_model(r@, t_min@, t_max@).unwrap(),
            !is_hit ==> *final(rec) == *old(rec),
    ;
}

} // verus!
