//! Proportional layout.
use fluor::coord::Coord;
use fluor::geom::Viewport;
use fluor::region::{harmonic, Region};

const EPSILON: f64 = 1e-4;

/// A length in pixels.
fn px(v: f64) -> Coord {
    (v * 65536.0).round() as i64
}

/// A fraction.
fn ratio(v: f64) -> i64 {
    (v * 4294967296.0).round() as i64
}

fn approx(a: Coord, b: Coord) -> bool {
    ((a - b) as f64 / 65536.0).abs() < EPSILON
}

#[test]
fn from_viewport_produces_correct_region() {
    let vp = Viewport::new(800, 600);
    let r = Region::from_viewport(&vp);
    assert_eq!(r.x, px(0.0));
    assert_eq!(r.y, px(0.0));
    assert_eq!(r.w, px(800.0));
    assert_eq!(r.h, px(600.0));
    // span = 2*800*600 / (800+600) = 960000/1400 ≈ 685.71
    assert!(approx(r.span, px(2.0 * 800.0 * 600.0 / 1400.0)));
}

#[test]
fn span_zero_when_dimension_zero() {
    let r = Region::new(px(0.0), px(0.0), px(100.0), px(0.0));
    assert_eq!(r.span, px(0.0));
    let r2 = Region::new(px(0.0), px(0.0), px(0.0), px(100.0));
    assert_eq!(r2.span, px(0.0));
    let r3 = Region::new(px(0.0), px(0.0), px(0.0), px(0.0));
    assert_eq!(r3.span, px(0.0));
}

#[test]
fn split_v_tiles_parent_exactly() {
    let parent = Region::new(px(10.0), px(20.0), px(300.0), px(400.0));
    let bands = parent.split_v([px(1.0), px(3.0), px(1.0)]);
    // First band starts at parent.y
    assert_eq!(bands[0].y, parent.y);
    // Each band starts where the previous one ends
    assert!(approx(bands[1].y, bands[0].bottom()));
    assert!(approx(bands[2].y, bands[1].bottom()));
    // Last band ends at parent.bottom()
    assert_eq!(bands[2].bottom(), parent.bottom());
    // All bands have parent's width and x
    for b in &bands {
        assert_eq!(b.x, parent.x);
        assert_eq!(b.w, parent.w);
    }
    // Heights are proportional: 1/5, 3/5, 1/5
    assert!(approx(bands[0].h, px(80.0)));
    assert!(approx(bands[1].h, px(240.0)));
    assert!(approx(bands[2].h, px(80.0)));
}

#[test]
fn split_h_tiles_parent_exactly() {
    let parent = Region::new(px(10.0), px(20.0), px(300.0), px(400.0));
    let bands = parent.split_h([px(1.0), px(6.0), px(1.0)]);
    assert_eq!(bands[0].x, parent.x);
    assert!(approx(bands[1].x, bands[0].right()));
    assert!(approx(bands[2].x, bands[1].right()));
    assert_eq!(bands[2].right(), parent.right());
    for b in &bands {
        assert_eq!(b.y, parent.y);
        assert_eq!(b.h, parent.h);
    }
    // 1/8, 6/8, 1/8 of 300
    assert!(approx(bands[0].w, px(37.5)));
    assert!(approx(bands[1].w, px(225.0)));
    assert!(approx(bands[2].w, px(37.5)));
}

#[test]
fn split_single_element_returns_parent() {
    let parent = Region::new(px(5.0), px(10.0), px(200.0), px(100.0));
    let [only] = parent.split_v([px(1.0)]);
    assert_eq!(only.x, parent.x);
    assert_eq!(only.y, parent.y);
    assert_eq!(only.w, parent.w);
    assert_eq!(only.h, parent.h);
}

#[test]
fn split_equal_weights_produces_equal_regions() {
    let parent = Region::new(px(0.0), px(0.0), px(400.0), px(300.0));
    let bands = parent.split_h([px(1.0), px(1.0), px(1.0), px(1.0)]);
    for b in &bands {
        assert!(approx(b.w, px(100.0)));
    }
}

#[test]
fn nested_splits_stay_within_parent() {
    let root = Region::new(px(0.0), px(0.0), px(1920.0), px(1080.0));
    let [_, content, _] = root.split_h([px(1.0), px(6.0), px(1.0)]);
    let [header, body, footer] = content.split_v([px(2.0), px(12.0), px(2.0)]);
    // All children within content bounds
    for r in &[header, body, footer] {
        assert!(r.x >= content.x - px(EPSILON));
        assert!(r.y >= content.y - px(EPSILON));
        assert!(r.right() <= content.right() + px(EPSILON));
        assert!(r.bottom() <= content.bottom() + px(EPSILON));
    }
    // Further nesting
    let [a, b] = header.split_h([px(1.0), px(4.0)]);
    assert!(a.x >= header.x - px(EPSILON));
    assert!(b.right() <= header.right() + px(EPSILON));
}

#[test]
fn each_region_has_local_span() {
    let root = Region::new(px(0.0), px(0.0), px(1000.0), px(500.0));
    let [narrow, wide] = root.split_h([px(1.0), px(9.0)]);
    // narrow is 100x500, wide is 900x500
    // Their spans should differ because their aspect ratios differ
    assert!(narrow.span != wide.span);
    // narrow.span = 2*100*500/(100+500) = 100000/600 ≈ 166.67
    assert!(approx(narrow.span, px(2.0 * 100.0 * 500.0 / 600.0)));
}

#[test]
fn inset_zero_returns_self() {
    let r = Region::new(px(10.0), px(20.0), px(300.0), px(200.0));
    let inset = r.inset(ratio(0.0));
    assert_eq!(inset.x, r.x);
    assert_eq!(inset.y, r.y);
    assert_eq!(inset.w, r.w);
    assert_eq!(inset.h, r.h);
}

#[test]
fn inset_shrinks_symmetrically() {
    let r = Region::new(px(0.0), px(0.0), px(100.0), px(200.0));
    let inset = r.inset(ratio(0.1));
    // 10% of 100 = 10 from each side → x=10, w=80
    // 10% of 200 = 20 from each side → y=20, h=160
    assert!(approx(inset.x, px(10.0)));
    assert!(approx(inset.y, px(20.0)));
    assert!(approx(inset.w, px(80.0)));
    assert!(approx(inset.h, px(160.0)));
}

#[test]
fn center_h_75_percent() {
    let r = Region::new(px(0.0), px(0.0), px(400.0), px(300.0));
    let centered = r.center_h(ratio(0.75));
    assert!(approx(centered.w, px(300.0)));
    assert!(approx(centered.x, px(50.0))); // (400-300)/2
    assert_eq!(centered.y, r.y);
    assert_eq!(centered.h, r.h);
}

#[test]
fn center_v_half() {
    let r = Region::new(px(100.0), px(100.0), px(400.0), px(300.0));
    let centered = r.center_v(ratio(0.5));
    assert!(approx(centered.h, px(150.0)));
    assert!(approx(centered.y, px(175.0))); // 100 + (300-150)/2
    assert_eq!(centered.x, r.x);
    assert_eq!(centered.w, r.w);
}

#[test]
fn square_landscape() {
    let r = Region::new(px(0.0), px(0.0), px(400.0), px(200.0));
    let sq = r.square();
    assert!(approx(sq.w, px(200.0)));
    assert!(approx(sq.h, px(200.0)));
    assert!(approx(sq.x, px(100.0))); // centered horizontally
    assert!(approx(sq.y, px(0.0)));
}

#[test]
fn square_portrait() {
    let r = Region::new(px(0.0), px(0.0), px(200.0), px(400.0));
    let sq = r.square();
    assert!(approx(sq.w, px(200.0)));
    assert!(approx(sq.h, px(200.0)));
    assert!(approx(sq.x, px(0.0)));
    assert!(approx(sq.y, px(100.0))); // centered vertically
}

#[test]
fn size_is_span_over_divisor() {
    let r = Region::new(px(0.0), px(0.0), px(800.0), px(600.0));
    let expected_span = px(2.0 * 800.0 * 600.0 / 1400.0);
    assert!(approx(r.size(px(16.0)), (expected_span as f64 / 16.0) as i64));
    assert!(approx(r.size(px(32.0)), (expected_span as f64 / 32.0) as i64));
}

#[test]
fn contains_edges() {
    let r = Region::new(px(10.0), px(20.0), px(100.0), px(50.0));
    // Inclusive on left/top
    assert!(r.contains(px(10.0), px(20.0)));
    // Exclusive on right/bottom
    assert!(!r.contains(px(110.0), px(20.0)));
    assert!(!r.contains(px(10.0), px(70.0)));
    // Inside
    assert!(r.contains(px(50.0), px(40.0)));
    // Outside
    assert!(!r.contains(px(9.9), px(20.0)));
}

#[test]
fn to_clip_truncates() {
    let r = Region::new(px(10.5), px(20.7), px(100.3), px(50.9));
    let clip = r.to_clip();
    assert_eq!(clip.x_start, 10);
    assert_eq!(clip.y_start, 20);
    assert_eq!(clip.x_end, 110); // (10.5 + 100.3) as usize = 110
    assert_eq!(clip.y_end, 71);  // (20.7 + 50.9) as usize = 71
}

#[test]
fn center_point() {
    let r = Region::new(px(10.0), px(20.0), px(100.0), px(200.0));
    let (cx, cy) = r.center();
    assert!(approx(cx, px(60.0)));
    assert!(approx(cy, px(120.0)));
}

#[test]
fn harmonic_basic() {
    // harmonic(100, 200) = 2*100*200 / 300 = 133.33...
    assert!(approx(harmonic(px(100.0), px(200.0)), px(133.3333)));
}

#[test]
fn harmonic_equal_values() {
    // harmonic(x, x) = x
    assert!(approx(harmonic(px(50.0), px(50.0)), px(50.0)));
}

#[test]
fn harmonic_zero_input() {
    assert_eq!(harmonic(px(0.0), px(100.0)), px(0.0));
    assert_eq!(harmonic(px(100.0), px(0.0)), px(0.0));
    assert_eq!(harmonic(px(0.0), px(0.0)), px(0.0));
}
