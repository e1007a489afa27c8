//! Packing, blending, rectangles and circles.
use fluor::canvas::{Canvas, Damage};
use fluor::paint::{circle_filled, fill_rect, pack_argb, stroke_rect, unpack_argb, BlendMode};
use fluor::pixel::Blend;

#[test]
fn pack_unpack_round_trip() {
    let cases = [
        (0, 0, 0, 0),
        (255, 255, 255, 255),
        (12, 34, 56, 78),
        (200, 100, 50, 200),
    ];
    for &(r, g, b, a) in &cases {
        let p = pack_argb(r, g, b, a);
        assert_eq!(unpack_argb(p), (r, g, b, a));
    }
}

#[test]
fn pack_layout_stores_alpha_in_top_byte() {
    // α + darkness storage: α = 0x12 in the top byte, RGB stored as darkness (255 − channel). pack_argb(0xAB, 0xCD, 0xEF, 0x12) → α=0x12, dark=(0x54, 0x32, 0x10).
    assert_eq!(pack_argb(0xAB, 0xCD, 0xEF, 0x12), 0x12_54_32_10);
}

#[test]
fn under_fully_transparent_top_yields_bottom_within_one_lsb() {
    // Canonical empty top (α=0, dark=0 → 0x00000000) over opaque bottom → result visible ≈ bottom with ≤1 LSB drift from the >>8 truncation.
    let top = pack_argb(255, 255, 255, 0);
    let bottom = pack_argb(100, 150, 200, 255);
    let result = top.under(bottom, BlendMode::Normal);
    let (r, g, b, _) = unpack_argb(result);
    assert!((r as i32 - 100).abs() <= 1, "r got {}", r);
    assert!((g as i32 - 150).abs() <= 1, "g got {}", g);
    assert!((b as i32 - 200).abs() <= 1, "b got {}", b);
}

#[test]
fn under_opaque_top_returns_top_exact() {
    // top with α=0xFF (opaque) — early-out returns top unchanged regardless of bottom.
    let top = pack_argb(50, 80, 110, 255);
    let bottom = pack_argb(100, 150, 200, 255);
    let result = top.under(bottom, BlendMode::Normal);
    assert_eq!(result, top);
    let (r, g, b, _) = unpack_argb(result);
    assert_eq!((r, g, b), (50, 80, 110));
}

#[test]
fn stroke_rect_only_touches_edges() {
    // Buffer starts fully transparent (α=0, dark=0 → 0x00000000) — the canonical empty state for under-blend painting.
    let mut buf = vec![0u32; 10 * 10];
    let mut damage = Damage::new();
    let mut canvas = Canvas::new(&mut buf, 10, 10, &mut damage);
    stroke_rect(
        &mut canvas,
        2,
        2,
        6,
        6,
        1,
        pack_argb(255, 0, 0, 255),
        None,
        None,
    );
    // Interior of the rect — never touched, stays empty.
    assert_eq!(buf[5 * 10 + 5], 0);
    let (r, _, _, _) = unpack_argb(buf[2 * 10 + 2]);
    assert!(r > 240, "top-left stroke pixel r={}", r);
    // Outside the rect — untouched, stays empty.
    assert_eq!(buf[1 * 10 + 1], 0);
}

#[test]
fn circle_filled_center_is_colour() {
    let mut buf = vec![0u32; 16 * 16];
    let mut damage = Damage::new();
    let mut canvas = Canvas::new(&mut buf, 16, 16, &mut damage);
    circle_filled(&mut canvas, 8, 8, 5, pack_argb(255, 0, 0, 255), None, None);
    let (r, g, b, _) = unpack_argb(buf[8 * 16 + 8]);
    assert!(
        r > 240 && g < 16 && b < 16,
        "center = ({}, {}, {})",
        r,
        g,
        b
    );
    // Corner outside the circle — untouched, stays empty.
    assert_eq!(buf[0], 0);
}

#[test]
fn circle_filled_clips_partial_offscreen() {
    let mut buf = vec![0u32; 8 * 8];
    let mut damage = Damage::new();
    let mut canvas = Canvas::new(&mut buf, 8, 8, &mut damage);
    circle_filled(
        &mut canvas,
        -2,
        -2,
        4,
        pack_argb(255, 255, 255, 255),
        None,
        None,
    );
    let (r, _, _, _) = unpack_argb(buf[0]);
    assert!(r > 200, "buf[0] r={}", r);
}

#[test]
fn under_half_top_blends_with_opaque_bottom() {
    // Half-α white top (α=128, visible white) over opaque black bottom. Porter-Duff over: 1 − (1−0.5)×1 = 1.0 α, visible ≈ 0.5×white + 0.5×black = mid-gray (~128 per channel).
    let top = pack_argb(255, 255, 255, 128);
    let bottom = pack_argb(0, 0, 0, 255);
    let result = top.under(bottom, BlendMode::Normal);
    let (r, g, b, _) = unpack_argb(result);
    assert!((r as i32 - 128).abs() <= 2, "r got {}", r);
    assert!((g as i32 - 128).abs() <= 2, "g got {}", g);
    assert!((b as i32 - 128).abs() <= 2, "b got {}", b);
}

#[test]
fn fill_rect_full_buffer() {
    // Buffer starts EMPTY (α=0, dark=0). Paint opaque visible RGB(0x11,0x22,0x33) under it. Result: ~opaque colour (1-LSB drift per channel from the >>8 normalization).
    let mut buf = vec![0u32; 4 * 4];
    let mut damage = Damage::new();
    let mut canvas = Canvas::new(&mut buf, 4, 4, &mut damage);
    // Visible (0x11, 0x22, 0x33) with α=0xFF → α + darkness = α=0xFF, dark=(0xEE, 0xDD, 0xCC).
    fill_rect(
        &mut canvas,
        0,
        0,
        4,
        4,
        pack_argb(0x11, 0x22, 0x33, 0xFF),
        None,
        None,
    );
    for &p in &buf {
        assert_eq!(p >> 24, 0xFF, "pixel α should be 0xFF (opaque): {p:#x}");
        // Darkness of visible 0x11 is 0xEE; minus 1-LSB drift.
        assert!(((p >> 16) & 0xFF) >= 0xEC);
    }
}

#[test]
fn fill_rect_partial() {
    let mut buf = vec![0u32; 4 * 4];
    let mut damage = Damage::new();
    let mut canvas = Canvas::new(&mut buf, 4, 4, &mut damage);
    fill_rect(
        &mut canvas,
        1,
        1,
        2,
        2,
        pack_argb(0xAA, 0xBB, 0xCC, 0xFF),
        None,
        None,
    );
    for y in 0..4usize {
        for x in 0..4usize {
            let p = buf[y * 4 + x];
            let inside = x >= 1 && x < 3 && y >= 1 && y < 3;
            if inside {
                assert_eq!(
                    p >> 24,
                    0xFF,
                    "inside pixel ({x},{y}) should be opaque: {p:#x}"
                );
            } else {
                assert_eq!(p, 0, "outside pixel ({x},{y}) untouched, got {p:#x}");
            }
        }
    }
}

#[test]
fn fill_rect_clips_negative_origin() {
    let mut buf = vec![0u32; 4 * 4];
    let mut damage = Damage::new();
    let mut canvas = Canvas::new(&mut buf, 4, 4, &mut damage);
    fill_rect(
        &mut canvas,
        -2,
        -2,
        4,
        4,
        pack_argb(0xFF, 0xFF, 0xFE, 0xFF),
        None,
        None,
    );
    for y in 0..4usize {
        for x in 0..4usize {
            let p = buf[y * 4 + x];
            let inside = x < 2 && y < 2;
            if inside {
                assert_eq!(
                    p >> 24,
                    0xFF,
                    "inside pixel ({x},{y}) should be opaque: {p:#x}"
                );
            } else {
                assert_eq!(p, 0, "outside pixel ({x},{y}) untouched");
            }
        }
    }
}

#[test]
fn fill_rect_fully_offscreen_is_noop() {
    let mut buf = vec![0u32; 4 * 4];
    let mut damage = Damage::new();
    let mut canvas = Canvas::new(&mut buf, 4, 4, &mut damage);
    fill_rect(
        &mut canvas,
        100,
        100,
        5,
        5,
        pack_argb(0, 0, 0, 0xFF),
        None,
        None,
    );
    assert!(buf.iter().all(|&p| p == 0));
    let mut damage2 = Damage::new();
    let mut canvas2 = Canvas::new(&mut buf, 4, 4, &mut damage2);
    fill_rect(
        &mut canvas2,
        -10,
        -10,
        5,
        5,
        pack_argb(0, 0, 0, 0xFF),
        None,
        None,
    );
    assert!(buf.iter().all(|&p| p == 0));
}

#[test]
fn fill_rect_transparent_src_into_opaque_dst_is_noop() {
    // Dst is opaque (α=0xFF). Under doctrine: dst-opaque early-out fires for every pixel. Src never read.
    let mut buf = vec![pack_argb(50, 60, 70, 255); 4 * 4];
    let mut damage = Damage::new();
    let mut canvas = Canvas::new(&mut buf, 4, 4, &mut damage);
    fill_rect(&mut canvas, 0, 0, 4, 4, pack_argb(255, 0, 0, 0), None, None);
    // Buffer unchanged — every pixel was opaque dst, every under call early-out'd.
    assert!(buf.iter().all(|&p| p == pack_argb(50, 60, 70, 255)));
}
