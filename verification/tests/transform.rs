//! Affine transforms and rotation bins.
use fluor::paint::{quantize_rotation, rotation_divisions, snap_rotation, Transform};

/// A number with 32 fractional bits.
fn fix(v: f64) -> i64 {
    (v * 4294967296.0).round() as i64
}

fn to_f(v: i64) -> f64 {
    v as f64 / 4294967296.0
}

fn rotation(radians: f32) -> Transform {
    let (s, c) = (radians as f64).sin_cos();
    Transform::rotate(fix(s), fix(c))
}

/// An angle as a fraction of a full turn.
fn turn(part: f64) -> u32 {
    (part.rem_euclid(1.0) * 4294967296.0) as u32
}

/// How many pixels the edge of a glyph travels in a full turn.
fn travel(font_size: f32) -> u32 {
    (std::f32::consts::TAU * font_size * 0.5).ceil() as u32
}

#[test]
fn transform_identity_round_trip() {
    let p = Transform::identity().apply(fix(3.0), fix(5.0));
    assert_eq!(p, (fix(3.0), fix(5.0)));
    assert!(Transform::identity().is_identity());
    let composed = Transform::identity().then(Transform::identity());
    assert!(composed.is_identity());
}

#[test]
fn transform_rotate_quarter_turn_maps_x_to_y() {
    // 90° rotation: (1, 0) → (0, 1).
    let r = rotation(std::f32::consts::FRAC_PI_2);
    let (x, y) = r.apply(fix(1.0), fix(0.0));
    let (x, y) = (to_f(x), to_f(y));
    assert!(x.abs() < 1e-6, "x = {}", x);
    assert!((y - 1.0).abs() < 1e-6, "y = {}", y);
}

#[test]
fn transform_compose_translate_then_rotate() {
    // translate(1,0) then rotate(90°): point (0,0) → (1,0) → (0,1).
    let t = Transform::translate(fix(1.0), fix(0.0)).then(rotation(std::f32::consts::FRAC_PI_2));
    let (x, y) = t.apply(fix(0.0), fix(0.0));
    let (x, y) = (to_f(x), to_f(y));
    assert!(x.abs() < 1e-6 && (y - 1.0).abs() < 1e-6);
}

#[test]
fn transform_aabb_of_rotated_unit_square() {
    // Unit square rotated 45° → bbox is a 1.414×1.414 square centered at origin's diagonal.
    let r = rotation(std::f32::consts::FRAC_PI_4);
    let (min_x, min_y, max_x, max_y) = r.aabb_of_rect(fix(1.0), fix(1.0));
    let w = to_f(max_x - min_x);
    let h = to_f(max_y - min_y);
    assert!((w - std::f64::consts::SQRT_2).abs() < 1e-5, "w = {}", w);
    assert!((h - std::f64::consts::SQRT_2).abs() < 1e-5, "h = {}", h);
}

#[test]
fn transform_scale_and_skew() {
    assert_eq!(
        Transform::scale(fix(2.0), fix(-3.0)).apply(fix(1.5), fix(0.5)),
        (fix(3.0), fix(-1.5))
    );
    assert_eq!(
        Transform::skew(fix(0.5), fix(0.25)).apply(fix(4.0), fix(8.0)),
        (fix(8.0), fix(9.0))
    );
    assert!(!Transform::translate(1, 0).is_identity());
}

#[test]
fn quantize_rotation_landings_for_k8() {
    // 10 px font: ceil(π × 10) = 32 (already a multiple of 8). Cardinal angles must land on bins 0, 8, 16, 24.
    let n = 32u16;
    let raw = travel(10.0);
    assert_eq!(quantize_rotation(turn(0.0), raw, 8), 0);
    assert_eq!(quantize_rotation(turn(0.25), raw, 8), 8);
    assert_eq!(quantize_rotation(turn(0.5), raw, 8), 16);
    assert_eq!(quantize_rotation(turn(0.75), raw, 8), 24);
    // Octant: 45° → bin 4.
    assert_eq!(quantize_rotation(turn(0.125), raw, 8), 4);
    // Wrap-around: a full turn is 0.
    assert_eq!(quantize_rotation(turn(1.0), raw, 8), 0);
    // Negative angles wrap.
    assert_eq!(quantize_rotation(turn(-0.25), raw, 8), n - 8);
}

#[test]
fn quantize_rotation_scales_with_font_size() {
    // Bigger font → more divisions.
    let small = rotation_divisions(travel(10.0), 8);
    let big = rotation_divisions(travel(100.0), 8);
    assert!(big > small);
    // 100 px font: ceil(π × 100) = 315, ceil to multiple of 8 = 320.
    assert_eq!(big, 320);
    // 10 px font: ceil(π × 10) = 32.
    assert_eq!(small, 32);
}

#[test]
fn snapped_rotation_stays_in_its_bin() {
    let raw = travel(10.0);
    for part in [0.0, 0.1, 0.26, 0.5, 0.77, 0.999] {
        let t = turn(part);
        let s = snap_rotation(t, raw, 8);
        assert!(s <= t);
        assert_eq!(quantize_rotation(s, raw, 8), quantize_rotation(t, raw, 8));
        assert_eq!(snap_rotation(s, raw, 8), s);
    }
    assert_eq!(snap_rotation(turn(0.3), raw, 8), 9 << 27);
    assert_eq!(snap_rotation(turn(0.3), 0, 8), 0);
}

#[test]
fn composition_applies_in_turn() {
    let one = 0x1_0000_0000i64;
    let s = Transform::new(2 * one, -3 * one, 5 * one, 7 * one, -11 * one, 13 * one);
    let o = Transform::new(one / 3, 2 * one, -one / 7, one, 9 * one, -one / 5);
    let (x, y) = (17 * one, -4 * one);
    let (u, v) = s.apply(x, y);
    assert_eq!(s.then(o).apply(x, y), o.apply(u, v));
}
