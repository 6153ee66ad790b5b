use raytrace::fx::Fx;
use raytrace::vec3::Vec3;
use raytrace::camera::{
    cos_fx, sin_fx, Camera, InputState, HALF_PI, MOVE_STEP, TWO_PI,
};

fn fx(raw: i64) -> Fx {
    Fx { raw }
}

fn v3(x: i64, y: i64, z: i64) -> Vec3 {
    Vec3 { x: fx(x), y: fx(y), z: fx(z) }
}

fn idle_input() -> InputState {
    InputState {
        forward: false,
        back: false,
        left: false,
        right: false,
        up: false,
        down: false,
        pointer_x: fx(0),
        pointer_y: fx(0),
        pointer_down: false,
        scroll: fx(0),
    }
}

fn down_neg_z_camera() -> Camera {
    Camera::new(v3(0, 0, 0), fx(3 * HALF_PI), fx(0), fx(65536), fx(32768), fx(32768))
}

#[test]
fn trig_at_quadrant_boundaries() {
    assert_eq!(sin_fx(fx(0)).raw, 0);
    assert_eq!(cos_fx(fx(0)).raw, 65536);
    assert_eq!(sin_fx(fx(HALF_PI)).raw, 65536);
    assert_eq!(cos_fx(fx(HALF_PI)).raw, 0);
    assert_eq!(sin_fx(fx(2 * HALF_PI)).raw, 0);
    assert_eq!(cos_fx(fx(2 * HALF_PI)).raw, -65536);
    assert_eq!(sin_fx(fx(3 * HALF_PI)).raw, -65536);
    assert_eq!(cos_fx(fx(3 * HALF_PI)).raw, 0);
    assert_eq!(sin_fx(fx(TWO_PI)).raw, 0);
    assert_eq!(cos_fx(fx(TWO_PI)).raw, 65536);
    // odd and even symmetry
    assert_eq!(sin_fx(fx(-HALF_PI)).raw, -65536);
    assert_eq!(cos_fx(fx(-HALF_PI)).raw, 0);
}

#[test]
fn trig_approximates_midquadrant() {
    // sin(pi/4) and cos(pi/4) agree and land near sqrt(1/2)
    let eighth = fx(HALF_PI / 2);
    let s = sin_fx(eighth).raw;
    let c = cos_fx(eighth).raw;
    let target = 46341; // sqrt(1/2) in fixed point, rounded
    assert!((s - target).abs() <= 8, "sin off: {}", s);
    assert!((c - target).abs() <= 8, "cos off: {}", c);
}

#[test]
fn camera_frame_down_neg_z_is_exact() {
    let cam = down_neg_z_camera();
    let d = cam.direction();
    assert_eq!((d.x.raw, d.y.raw, d.z.raw), (0, 0, -65536));
    let (dir, right, up) = cam.frame();
    assert_eq!((dir.x.raw, dir.y.raw, dir.z.raw), (0, 0, -65536));
    assert_eq!((right.x.raw, right.y.raw, right.z.raw), (65536, 0, 0));
    assert_eq!((up.x.raw, up.y.raw, up.z.raw), (0, 65536, 0));
}

#[test]
fn get_ray_at_viewport_corner() {
    let cam = down_neg_z_camera();
    let r = cam.get_ray(fx(0), fx(0));
    assert_eq!((r.orig.x.raw, r.orig.y.raw, r.orig.z.raw), (0, 0, 0));
    assert_eq!((r.dir.x.raw, r.dir.y.raw, r.dir.z.raw), (0, 0, -65536));
    let r2 = cam.get_ray(fx(65536), fx(0));
    assert_eq!((r2.dir.x.raw, r2.dir.y.raw, r2.dir.z.raw), (32768, 0, -65536));
}

#[test]
fn keys_move_along_camera_axes() {
    let mut cam = down_neg_z_camera();
    let mut input = idle_input();
    input.forward = true;
    cam.update(&input);
    // forward is -z here, one step per frame
    assert_eq!(
        (cam.origin.x.raw, cam.origin.y.raw, cam.origin.z.raw),
        (0, 0, -MOVE_STEP)
    );
    let mut back_right = idle_input();
    back_right.back = true;
    back_right.right = true;
    cam.update(&back_right);
    assert_eq!(
        (cam.origin.x.raw, cam.origin.y.raw, cam.origin.z.raw),
        (MOVE_STEP, 0, 0)
    );
}

#[test]
fn pitch_clamps_and_stays_pinned() {
    let mut cam = down_neg_z_camera();
    // press the pointer: this frame only arms the drag
    let mut press = idle_input();
    press.pointer_down = true;
    press.pointer_x = fx(0);
    press.pointer_y = fx(0);
    cam.update(&press);
    assert_eq!(cam.pitch.raw, 0);
    // drag far upward: the pitch pins at exactly a quarter turn
    let mut drag_up = idle_input();
    drag_up.pointer_down = true;
    drag_up.pointer_x = fx(0);
    drag_up.pointer_y = fx(-40_000_000);
    cam.update(&drag_up);
    assert_eq!(cam.pitch.raw, HALF_PI);
    // pushing further in the same direction changes nothing
    let mut drag_more = idle_input();
    drag_more.pointer_down = true;
    drag_more.pointer_x = fx(0);
    drag_more.pointer_y = fx(-80_000_000);
    cam.update(&drag_more);
    assert_eq!(cam.pitch.raw, HALF_PI);
    cam.update(&drag_more);
    assert_eq!(cam.pitch.raw, HALF_PI);
}

#[test]
fn release_resets_drag_state() {
    let mut cam = down_neg_z_camera();
    let mut press = idle_input();
    press.pointer_down = true;
    press.pointer_y = fx(500_000);
    cam.update(&press);
    // release: the next press must not turn by the stale delta
    cam.update(&idle_input());
    assert!(!cam.dragging);
    let pitch_before = cam.pitch.raw;
    let mut press_far = idle_input();
    press_far.pointer_down = true;
    press_far.pointer_y = fx(-30_000_000);
    cam.update(&press_far);
    // first frame after release only re-arms
    assert_eq!(cam.pitch.raw, pitch_before);
}

#[test]
fn scroll_drives_focal_length() {
    let mut cam = down_neg_z_camera();
    let mut roll = idle_input();
    roll.scroll = fx(-32768);
    cam.update(&roll);
    assert_eq!(cam.focal_length.raw, 32768);
    // the focal length may reach zero and go negative
    cam.update(&roll);
    assert_eq!(cam.focal_length.raw, 0);
    cam.update(&roll);
    assert_eq!(cam.focal_length.raw, -32768);
}

#[test]
fn yaw_wraps_within_one_turn() {
    let mut cam = Camera::new(v3(0, 0, 0), fx(TWO_PI - 10), fx(0), fx(65536), fx(32768), fx(32768));
    let mut press = idle_input();
    press.pointer_down = true;
    cam.update(&press);
    let mut drag = idle_input();
    drag.pointer_down = true;
    drag.pointer_x = fx(65536);
    cam.update(&drag);
    assert!(0 <= cam.yaw.raw && cam.yaw.raw <= TWO_PI);
}
