//! The scene: an ordered collection of surfaces that is itself a
//! surface. Its query scans every member and keeps the closest hit;
//! when two members tie exactly, the earlier one in insertion order
//! wins.

use vstd::prelude::*;
use crate::fx::Fx;
use crate::hittable::{HitModel, HitRecord, Hittable};
use crate::ray::{Ray, RayV, ray_wf, T_RANGE};
use crate::sphere::{Sphere, SphereV, sph_hit_model, sph_wf, lemma_sph_shrink};

verus! {

/// The closer of an earlier outcome and a later one; the later wins
/// only by being strictly closer.
pub open spec fn closer(head: Option<HitModel>, rest: Option<HitModel>) -> Option<HitModel> {
    match head {
        None => rest,
        Some(h) => match rest {
            None => Some(h),
            Some(l) => if l.t < h.t {
                Some(l)
            } else {
                Some(h)
            },
        },
    }
}

/// The closest hit over a sequence of spheres, earliest first.
pub open spec fn list_hit_model(
    objs: Seq<SphereV>,
    r: RayV,
    t_min: int,
    t_max: int,
) -> Option<HitModel>
    decreases objs.len(),
{
    if objs.len() == 0 {
        None
    } else {
        closer(
            sph_hit_model(objs[0], r, t_min, t_max),
            list_hit_model(objs.drop_first(), r, t_min, t_max),
        )
    }
}

/// An aggregate of surfaces, queried as one surface.
pub struct HittableList {
    pub objects: Vec<Sphere>,
}

impl View for HittableList {
    type V = Seq<SphereV>;

    open spec fn view(&self) -> Seq<SphereV> {
        self.objects@.map_values(|s: Sphere| s@)
    }
}

impl HittableList {
    /// Builds a scene from its member surfaces.
    pub fn new(objects: Vec<Sphere>) -> (l: HittableList)
        ensures
            l@ == objects@.map_values(|s: Sphere| s@),
    {
        HittableList { objects }
    }
}

impl Hittable for HittableList {
    open spec fn wf(&self) -> bool {
        forall|j: int| 0 <= j < self@.len() ==> sph_wf(#[trigger] self@[j])
    }

    open spec fn hit_model(&self, ray: RayV, t_min: int, t_max: int) -> Option<HitModel> {
        list_hit_model(self@, ray, t_min, t_max)
    }

    fn hit(&self, r: &Ray, t_min: Fx, t_max: Fx, rec: &mut HitRecord) -> (is_hit: bool) {
        let mut hit_anything: bool = false;
        let mut closest_so_far: Fx = t_max;
        let mut best: HitRecord = *rec;
        let mut i: usize = 0;
        while i < self.objects.len()
            invariant
                i <= self.objects.len(),
                self.wf(),
                ray_wf(r@),
                -(T_RANGE as int) <= t_min@,
                t_max@ <= T_RANGE as int,
                hit_anything == list_hit_model(self@.take(i as int), r@, t_min@, t_max@)
                    is Some,
                hit_anything ==> list_hit_model(self@.take(i as int), r@, t_min@, t_max@)
                    .unwrap() == best@,
                hit_anything ==> closest_so_far@ == best@.t,
                hit_anything ==> t_min@ <= closest_so_far@,
                closest_so_far@ <= t_max@,
                !hit_anything ==> closest_so_far == t_max,
            decreases self.objects.len() - i,
        {
            let ghost prev = list_hit_model(self@.take(i as int), r@, t_min@, t_max@);
            let ghost full = sph_hit_model(self@[i as int], r@, t_min@, t_max@);
            proof {
                assert(self.objects[i as int]@ == self@[i as int]);
                lemma_sph_shrink(self@[i as int], r@, t_min@, t_max@, closest_so_far@);
                lemma_list_snoc(self@.take(i as int), self@[i as int], r@, t_min@, t_max@);
                assert(self@.take(i as int + 1) =~= self@.take(i as int).push(self@[i as int]));
            }
            let mut temp_rec: HitRecord = HitRecord::default();
            let obj: &Sphere = &self.objects[i];
            if obj.hit(r, t_min, closest_so_far, &mut temp_rec) {
                if !hit_anything || temp_rec.t.lt(closest_so_far) {
                    hit_anything = true;
                    closest_so_far = temp_rec.t;
                    best = temp_rec;
                }
            }
            i = i + 1;
        }
        proof {
            assert(self@.take(self.objects@.len() as int) =~= self@);
        }
        if hit_anything {
            *rec = best;
        }
        hit_anything
    }
}

/// Extending a scene by one surface combines the closest hit so far
/// with the new surface's hit, the earlier winning exact ties.
pub proof fn lemma_list_snoc(objs: Seq<SphereV>, x: SphereV, r: RayV, t_min: int, t_max: int)
    ensures
        list_hit_model(objs.push(x), r, t_min, t_max) == closer(
            list_hit_model(objs, r, t_min, t_max),
            sph_hit_model(x, r, t_min, t_max),
        ),
    decreases objs.len(),
{
    if objs.len() == 0 {
        assert(objs.push(x).drop_first() =~= Seq::<SphereV>::empty());
        assert(objs.push(x)[0] == x);
        assert(list_hit_model(objs.push(x).drop_first(), r, t_min, t_max) is None);
    } else {
        lemma_list_snoc(objs.drop_first(), x, r, t_min, t_max);
        assert(objs.push(x).drop_first() =~= objs.drop_first().push(x));
        assert(objs.push(x)[0] == objs[0]);
        let h0 = sph_hit_model(objs[0], r, t_min, t_max);
        let tl = list_hit_model(objs.drop_first(), r, t_min, t_max);
        let nw = sph_hit_model(x, r, t_min, t_max);
        assert(list_hit_model(objs.push(x), r, t_min, t_max) == closer(h0, closer(tl, nw)));
        assert(closer(h0, closer(tl, nw)) == closer(closer(h0, tl), nw));
    }
}

/// Closest-hit law: the scene's answer is the minimum of its members'
/// answers. Whenever the scene reports a hit, that record is one of the
/// members' records; and every member that hits at all hits no closer
/// than the scene's answer.
pub proof fn lemma_closest_hit_is_min(objs: Seq<SphereV>, r: RayV, t_min: int, t_max: int)
    ensures
        list_hit_model(objs, r, t_min, t_max) is Some ==> exists|j: int|
            0 <= j < objs.len() && sph_hit_model(#[trigger] objs[j], r, t_min, t_max)
                == list_hit_model(objs, r, t_min, t_max),
        forall|j: int|
            0 <= j < objs.len() && #[trigger] sph_hit_model(objs[j], r, t_min, t_max) is Some
                ==> list_hit_model(objs, r, t_min, t_max) is Some
                && list_hit_model(objs, r, t_min, t_max).unwrap().t <= sph_hit_model(
                objs[j],
                r,
                t_min,
                t_max,
            ).unwrap().t,
    decreases objs.len(),
{
    if objs.len() > 0 {
        let rest = objs.drop_first();
        lemma_closest_hit_is_min(rest, r, t_min, t_max);
        let head = sph_hit_model(objs[0], r, t_min, t_max);
        let tail = list_hit_model(rest, r, t_min, t_max);
        let whole = list_hit_model(objs, r, t_min, t_max);
        if whole is Some {
            if head is Some && whole == head {
                assert(sph_hit_model(objs[0], r, t_min, t_max) == whole);
            } else {
                assert(tail is Some && whole == tail);
                let j0 = choose|j: int|
                    0 <= j < rest.len() && sph_hit_model(#[trigger] rest[j], r, t_min, t_max)
                        == tail;
                assert(rest[j0] == objs[j0 + 1]);
                assert(sph_hit_model(objs[j0 + 1], r, t_min, t_max) == whole);
            }
        }
        assert forall|j: int|
            0 <= j < objs.len() && #[trigger] sph_hit_model(objs[j], r, t_min, t_max) is Some
                implies whole is Some && whole.unwrap().t <= sph_hit_model(
            objs[j],
            r,
            t_min,
            t_max,
        ).unwrap().t by {
            if j > 0 {
                assert(rest[j - 1] == objs[j]);
                assert(sph_hit_model(rest[j - 1], r, t_min, t_max) is Some);
            }
        }
    }
}

} // verus!
