use raytrace::fx::Fx;
use raytrace::vec3::Vec3;
use raytrace::ray::{Ray, T_RANGE};
use raytrace::hittable::{HitRecord, Hittable};
use raytrace::sphere::Sphere;
use raytrace::hittable_list::HittableList;

fn fx(raw: i64) -> Fx {
    Fx { raw }
}

fn v3(x: i64, y: i64, z: i64) -> Vec3 {
    Vec3 { x: fx(x), y: fx(y), z: fx(z) }
}

fn t_max() -> Fx {
    fx(T_RANGE)
}

#[test]
fn sphere_hit_straight_on() {
    // Sphere((0,0,-1), 0.5) hit by origin -> -z at t == 0.5 exactly
    let s = Sphere::new(v3(0, 0, -65536), fx(32768));
    let r = Ray::new(v3(0, 0, 0), v3(0, 0, -65536));
    let mut rec = HitRecord::default();
    assert!(s.hit(&r, fx(0), t_max(), &mut rec));
    assert_eq!(rec.t.raw, 32768);
    assert_eq!((rec.p.x.raw, rec.p.y.raw, rec.p.z.raw), (0, 0, -32768));
    // outward normal points back toward the camera
    assert_eq!((rec.normal.x.raw, rec.normal.y.raw, rec.normal.z.raw), (0, 0, 65536));
    assert!(rec.front_face);
}

#[test]
fn sphere_miss_leaves_record_alone() {
    let s = Sphere::new(v3(0, 0, -3 * 65536), fx(32768));
    let r = Ray::new(v3(0, 0, 0), v3(65536, 0, 0));
    let mut rec = HitRecord::default();
    assert!(!s.hit(&r, fx(0), t_max(), &mut rec));
    assert_eq!(rec.t.raw, 0);
    assert_eq!(rec.p.x.raw, 0);
}

#[test]
fn sphere_tangent_counts_as_miss() {
    // ray grazing the sphere: discriminant is exactly zero
    let s = Sphere::new(v3(0, 0, -65536), fx(32768));
    let r = Ray::new(v3(32768, 0, 0), v3(0, 0, -65536));
    let mut rec = HitRecord::default();
    assert!(!s.hit(&r, fx(0), t_max(), &mut rec));
}

#[test]
fn sphere_roots_symmetric_about_projection() {
    // through-center ray against Sphere((0,0,-2), 0.5): roots 1.5 and
    // 2.5, symmetric about the center's parameter 2.0
    let s = Sphere::new(v3(0, 0, -131072), fx(32768));
    let r = Ray::new(v3(0, 0, 0), v3(0, 0, -65536));
    let mut rec = HitRecord::default();
    assert!(s.hit(&r, fx(0), t_max(), &mut rec));
    let near = rec.t.raw;
    assert_eq!(near, 98304);
    // query again past the near root to surface the far one
    let mut rec2 = HitRecord::default();
    assert!(s.hit(&r, fx(near + 1), t_max(), &mut rec2));
    let far = rec2.t.raw;
    assert_eq!(far, 163840);
    // the two roots straddle the projection of the center offset
    assert_eq!(near + far, 2 * 131072);
}

#[test]
fn sphere_inside_uses_far_root() {
    // origin inside the sphere: the near root is behind t_min
    let s = Sphere::new(v3(0, 0, 0), fx(65536));
    let r = Ray::new(v3(0, 0, 0), v3(0, 0, -65536));
    let mut rec = HitRecord::default();
    assert!(s.hit(&r, fx(0), t_max(), &mut rec));
    assert_eq!(rec.t.raw, 65536);
    // the outward normal now faces away from the ray
    assert!(!rec.front_face);
}

#[test]
fn scene_closest_hit_takes_minimum() {
    // two spheres along one ray: the reported t is the closer one
    let near = Sphere::new(v3(0, 0, -65536), fx(32768));
    let far = Sphere::new(v3(0, 0, -3 * 65536), fx(32768));
    let world = HittableList::new(vec![near, far]);
    let r = Ray::new(v3(0, 0, 0), v3(0, 0, -65536));
    let mut rec = HitRecord::default();
    assert!(world.hit(&r, fx(0), t_max(), &mut rec));
    assert_eq!(rec.t.raw, 32768);

    // insertion order does not change the winner
    let world2 = HittableList::new(vec![far, near]);
    let mut rec2 = HitRecord::default();
    assert!(world2.hit(&r, fx(0), t_max(), &mut rec2));
    assert_eq!(rec2.t.raw, 32768);
}

#[test]
fn scene_reports_miss_when_all_miss() {
    let a = Sphere::new(v3(0, 0, -65536), fx(32768));
    let b = Sphere::new(v3(0, 0, -3 * 65536), fx(32768));
    let world = HittableList::new(vec![a, b]);
    // direction (1,0,0) passes nowhere near the spheres on -z
    let r = Ray::new(v3(0, 0, 0), v3(65536, 0, 0));
    let mut rec = HitRecord::default();
    assert!(!world.hit(&r, fx(0), t_max(), &mut rec));
}

#[test]
fn empty_scene_never_hits() {
    let world = HittableList::new(vec![]);
    let r = Ray::new(v3(0, 0, 0), v3(0, 0, -65536));
    let mut rec = HitRecord::default();
    assert!(!world.hit(&r, fx(0), t_max(), &mut rec));
}
