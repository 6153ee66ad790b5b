//! Rays: a parametric half-line with an exact evaluation operator.

use vstd::prelude::*;
use crate::fx::{Fx, mag};
use crate::vec3::{Vec3, V3, vadd, vscale, vlen_sq, in_range, lemma_vscale_bound};

verus! {

/// Bound on the coordinates a ray may carry (4096 units).
pub const COORD_RANGE: i64 = 0x1000_0000;

/// Bound on the ray parameter accepted by intersection queries
/// (16384 units along the ray).
pub const T_RANGE: i64 = 0x4000_0000;

/// The mathematical model of a ray.
pub ghost struct RayV {
    pub orig: V3,
    pub dir: V3,
}

/// A ray fit for intersection queries: origin and direction within the
/// coordinate range, and a direction long enough to carry a heading.
pub open spec fn ray_wf(r: RayV) -> bool {
    &&& in_range(r.orig, COORD_RANGE as int)
    &&& in_range(r.dir, COORD_RANGE as int)
    &&& vlen_sq(r.dir) >= 1
}

/// The point reached after `t` parameter units: origin + direction * t.
pub open spec fn vray_at(r: RayV, t: int) -> V3 {
    vadd(r.orig, vscale(r.dir, t))
}

/// A parametric line through `orig` along `dir`. The direction is not
/// required to be unit length; callers must not assume that it is.
#[derive(Clone, Copy, Debug)]
pub struct Ray {
    pub orig: Vec3,
    pub dir: Vec3,
}

impl View for Ray {
    type V = RayV;

    open spec fn view(&self) -> RayV {
        RayV { orig: self.orig@, dir: self.dir@ }
    }
}

impl Ray {
    pub fn new(orig: Vec3, dir: Vec3) -> (r: Ray)
        ensures
            r@ == (RayV { orig: orig@, dir: dir@ }),
    {
        Ray { orig, dir }
    }

    pub fn origin(&self) -> (r: Vec3)
        ensures
            r@ == self@.orig,
    {
        self.orig
    }

    pub fn direction(&self) -> (r: Vec3)
        ensures
            r@ == self@.dir,
    {
        self.dir
    }

    /// The point along the ray at parameter `t`; a pure evaluation.
    pub fn at(&self, t: Fx) -> (r: Vec3)
        requires
            in_range(self@.orig, COORD_RANGE as int),
            in_range(self@.dir, COORD_RANGE as int),
            mag(t@) <= T_RANGE as int,
        ensures
            r@ == vray_at(self@, t@),
    {
        proof {
            lemma_vscale_bound(self@.dir, t@, COORD_RANGE as int, T_RANGE as int);
        }
        self.orig.add(self.dir.scale(t))
    }
}

} // verus!
