use raytrace::fx::{Fx, SCALE};
use raytrace::vec3::Vec3;
use raytrace::color::Color;
use raytrace::ray::Ray;

fn fx(raw: i64) -> Fx {
    Fx { raw }
}

fn v3(x: i64, y: i64, z: i64) -> Vec3 {
    Vec3 { x: fx(x), y: fx(y), z: fx(z) }
}

#[test]
fn fx_add_sub_neg() {
    assert_eq!(fx(65536).add(fx(32768)).raw, 98304);
    assert_eq!(fx(65536).sub(fx(98304)).raw, -32768);
    assert_eq!(fx(-4).neg().raw, 4);
}

#[test]
fn fx_mul_truncates_toward_zero() {
    // 1.5 * 2.5 == 3.75
    assert_eq!(fx(98304).mul(fx(163840)).raw, 245760);
    // (-1.5) * 2.5 == -3.75, truncation mirrors the positive case
    assert_eq!(fx(-98304).mul(fx(163840)).raw, -245760);
    // 1/3-ish values truncate toward zero on both signs
    assert_eq!(fx(1).mul(fx(1)).raw, 0);
    assert_eq!(fx(-1).mul(fx(1)).raw, 0);
}

#[test]
fn fx_div_and_sqrt() {
    assert_eq!(fx(65536).div(fx(131072)).raw, 32768);
    assert_eq!(fx(-65536).div(fx(131072)).raw, -32768);
    // sqrt(4.0) == 2.0 exactly
    assert_eq!(fx(262144).sqrt().raw, 131072);
    // sqrt(2.0) rounds down
    let r = fx(131072).sqrt().raw;
    assert!(r * r <= 131072 * 65536);
    assert!((r + 1) * (r + 1) > 131072 * 65536);
}

#[test]
fn fx_from_int_and_ordering() {
    assert_eq!(Fx::from_int(3).raw, 3 * SCALE);
    assert_eq!(Fx::from_int(-2).raw, -2 * SCALE);
    assert!(fx(1).lt(fx(2)));
    assert!(fx(2).le(fx(2)));
    assert!(!fx(3).lt(fx(2)));
}

#[test]
fn vec_add_sub_mul() {
    let a = v3(65536, 131072, -65536);
    let b = v3(32768, -65536, 65536);
    let s = a.add(b);
    assert_eq!((s.x.raw, s.y.raw, s.z.raw), (98304, 65536, 0));
    let d = a.sub(b);
    assert_eq!((d.x.raw, d.y.raw, d.z.raw), (32768, 196608, -131072));
    let m = a.mul(b);
    assert_eq!((m.x.raw, m.y.raw, m.z.raw), (32768, -131072, -65536));
}

#[test]
fn vec_scale_commutes_both_ways() {
    // the scalar works from either side and the results agree exactly
    let v = v3(65536, -131072, 196608);
    let s = fx(229376);  // 3.5
    let right = v.scale(s);
    let left = s.scale_vec(v);
    assert_eq!((right.x.raw, right.y.raw, right.z.raw), (229376, -458752, 688128));
    assert_eq!(
        (left.x.raw, left.y.raw, left.z.raw),
        (right.x.raw, right.y.raw, right.z.raw)
    );
}

#[test]
fn vec_dot_cross() {
    let a = v3(65536, 131072, 196608);
    let b = v3(4 * 65536, 5 * 65536, 6 * 65536);
    // (1,2,3).(4,5,6) == 32
    assert_eq!(a.dot(b).raw, 32 * 65536);
    // x cross y == z
    let c = v3(65536, 0, 0).cross(v3(0, 65536, 0));
    assert_eq!((c.x.raw, c.y.raw, c.z.raw), (0, 0, 65536));
    // anti-commutative on an example
    let c2 = v3(0, 65536, 0).cross(v3(65536, 0, 0));
    assert_eq!((c2.x.raw, c2.y.raw, c2.z.raw), (0, 0, -65536));
}

#[test]
fn vec_length_and_normalize() {
    let v = v3(3 * 65536, 4 * 65536, 0);
    assert_eq!(v.length_squared().raw, 25 * 65536);
    assert_eq!(v.length().raw, 5 * 65536);
    let n = v.normalized();
    assert_eq!((n.x.raw, n.y.raw, n.z.raw), (39321, 52428, 0));
}

#[test]
fn normalized_length_is_one_within_tolerance() {
    // |v.normalized().length() - 1| stays within a few raw units
    let cases = [
        v3(65536, 131072, 131072),
        v3(3 * 65536, 4 * 65536, 0),
        v3(19661, -45875, 72090),
        v3(-65536, 1, 65536),
        v3(7 * 65536, 7 * 65536, 7 * 65536),
    ];
    for v in cases {
        let len = v.normalized().length().raw;
        assert!(
            (len - SCALE).abs() <= 16,
            "normalized length {} strays from one",
            len
        );
    }
}

#[test]
fn vec_assign_ops() {
    let mut a = v3(65536, 0, 0);
    a.add_assign(v3(0, 65536, 0));
    assert_eq!((a.x.raw, a.y.raw, a.z.raw), (65536, 65536, 0));
    a.sub_assign(v3(65536, 0, 65536));
    assert_eq!((a.x.raw, a.y.raw, a.z.raw), (0, 65536, -65536));
}

#[test]
fn ray_evaluation() {
    let r = Ray::new(v3(0, 0, 0), v3(0, 0, -65536));
    let p = r.at(fx(32768));
    assert_eq!((p.x.raw, p.y.raw, p.z.raw), (0, 0, -32768));
    assert_eq!(r.origin().x.raw, 0);
    assert_eq!(r.direction().z.raw, -65536);
}

#[test]
fn color_quantization() {
    let c = Color::new(fx(65536), fx(32768), fx(0));
    assert_eq!((c.r, c.g, c.b), (255, 127, 0));
    // out-of-range components clamp
    let d = Color::new(fx(131072), fx(-65536), fx(65535));
    assert_eq!((d.r, d.g, d.b), (255, 0, 255));
}

#[test]
fn color_scale_both_ways_and_add() {
    let c = Color { r: 100, g: 200, b: 255 };
    let half = fx(32768);
    let s = c.scale(half);
    assert_eq!((s.r, s.g, s.b), (50, 100, 127));
    let s2 = half.scale_color(c);
    assert_eq!((s2.r, s2.g, s2.b), (50, 100, 127));
    let sum = Color { r: 200, g: 100, b: 1 }.add(Color { r: 100, g: 100, b: 1 });
    assert_eq!((sum.r, sum.g, sum.b), (255, 200, 2));
}

#[test]
fn color_packs_into_24_bits() {
    assert_eq!(Color { r: 1, g: 2, b: 3 }.pack(), 0x010203);
    assert_eq!(Color { r: 255, g: 255, b: 255 }.pack(), 0xFFFFFF);
    assert_eq!(Color { r: 191, g: 217, b: 255 }.pack(), 0xBFD9FF);
}
