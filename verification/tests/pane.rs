//! Panes: order, hits, focus and painting.
use fluor::coord::RuVec2;
use fluor::geom::Viewport;
use fluor::paint::{pack_argb, unpack_argb};
use fluor::pane::Compositor;

/// A length in relative units.
fn ru(v: f32) -> i64 {
    (v as f64 * 4294967296.0) as i64
}

fn make_compositor(w: u32, h: u32) -> Compositor {
    Compositor::new(Viewport::new(w, h))
}

#[test]
fn insert_assigns_unique_ids() {
    let mut c = make_compositor(800, 600);
    let a = c.insert(RuVec2::zero(), RuVec2::splat(ru(0.1)), 0xFF000000);
    let b = c.insert(RuVec2::zero(), RuVec2::splat(ru(0.1)), 0xFF000000);
    assert_ne!(a, b);
    assert_eq!(c.len(), 2);
}

#[test]
fn contains_inclusive_on_edges() {
    let mut c = make_compositor(800, 600);
    let id = c.insert(RuVec2::new(ru(0.0), ru(0.0)), RuVec2::new(ru(0.2), ru(0.1)), 0xFF000000);
    let pane = c.get(id).unwrap();
    assert!(pane.contains(RuVec2::new(ru(0.0), ru(0.0))));
    assert!(pane.contains(RuVec2::new(ru(0.2), ru(0.1))));
    assert!(pane.contains(RuVec2::new(ru(-0.2), ru(-0.1))));
    assert!(!pane.contains(RuVec2::new(ru(0.21), ru(0.0))));
    assert!(!pane.contains(RuVec2::new(ru(0.0), ru(0.11))));
}

#[test]
fn hit_test_picks_topmost() {
    let mut c = make_compositor(800, 600);
    let bottom = c.insert(RuVec2::new(ru(0.0), ru(0.0)), RuVec2::splat(ru(0.5)), 0xFF000000);
    let top = c.insert(RuVec2::new(ru(0.0), ru(0.0)), RuVec2::splat(ru(0.5)), 0xFF000000);
    assert_eq!(c.hit_test(RuVec2::zero()), Some(top));
    // Outside the smaller pane but inside the larger? Both same size — make a smaller top pane.
    c.remove(top);
    let small_top = c.insert(RuVec2::new(ru(0.0), ru(0.0)), RuVec2::splat(ru(0.1)), 0xFF000000);
    assert_eq!(c.hit_test(RuVec2::zero()), Some(small_top));
    assert_eq!(c.hit_test(RuVec2::new(ru(0.3), ru(0.0))), Some(bottom));
}

#[test]
fn hit_test_returns_none_for_empty_space() {
    let mut c = make_compositor(800, 600);
    c.insert(RuVec2::new(ru(0.4), ru(0.0)), RuVec2::splat(ru(0.05)), 0xFF000000);
    assert_eq!(c.hit_test(RuVec2::zero()), None);
}

#[test]
fn bring_to_front_moves_pane_to_top() {
    let mut c = make_compositor(800, 600);
    let a = c.insert(RuVec2::zero(), RuVec2::splat(ru(0.5)), 0xFF000000);
    let b = c.insert(RuVec2::zero(), RuVec2::splat(ru(0.5)), 0xFF000000);
    let cc = c.insert(RuVec2::zero(), RuVec2::splat(ru(0.5)), 0xFF000000);
    assert_eq!(c.hit_test(RuVec2::zero()), Some(cc));
    c.bring_to_front(a);
    assert_eq!(c.hit_test(RuVec2::zero()), Some(a));
    assert_eq!(c.get(a).unwrap().z(), 2);
    assert_eq!(c.get(b).unwrap().z(), 0);
    assert_eq!(c.get(cc).unwrap().z(), 1);
}

#[test]
fn send_to_back_moves_pane_to_bottom() {
    let mut c = make_compositor(800, 600);
    let a = c.insert(RuVec2::zero(), RuVec2::splat(ru(0.5)), 0xFF000000);
    let b = c.insert(RuVec2::zero(), RuVec2::splat(ru(0.5)), 0xFF000000);
    c.send_to_back(b);
    assert_eq!(c.get(b).unwrap().z(), 0);
    assert_eq!(c.get(a).unwrap().z(), 1);
    assert_eq!(c.hit_test(RuVec2::zero()), Some(a));
}

#[test]
fn focus_clears_on_remove() {
    let mut c = make_compositor(800, 600);
    let id = c.insert(RuVec2::zero(), RuVec2::splat(ru(0.5)), 0xFF000000);
    c.focus(id);
    assert_eq!(c.focused(), Some(id));
    c.remove(id);
    assert_eq!(c.focused(), None);
}

#[test]
fn render_fills_pane_pixels() {
    let mut c = make_compositor(8, 8);
    // Pane at center, half-extent 0.05 RU. With span = harmonic mean of 8x8 = 8, ru = 1.0,
    // half-extent in pixels = 0.05 * 8 * 1 = 0.4 px → 0 after isize cast. Use larger extent.
    c.insert(RuVec2::new(ru(0.0), ru(0.0)), RuVec2::splat(ru(0.25)), pack_argb(255, 0, 0, 255));
    let mut buf = vec![0u32; 8 * 8];
    c.render(&mut buf, 8, 8);
    // Center pixel at (4, 4) should be opaque red.
    let center = buf[4 * 8 + 4];
    let (r, g, b, _) = unpack_argb(center);
    assert_eq!((r, g, b), (255, 0, 0), "center pixel = {:#010x}", center);
}

#[test]
fn resize_preserves_pane_ru_layout() {
    let mut c = make_compositor(800, 600);
    let id = c.insert(RuVec2::new(ru(0.1), ru(-0.2)), RuVec2::splat(ru(0.15)), 0xFF112233);
    let center_before = c.get(id).unwrap().center;
    c.resize(1920, 1080);
    let center_after = c.get(id).unwrap().center;
    assert_eq!(center_before, center_after);
    assert_eq!(c.viewport().width_px, 1920);
}

#[test]
fn panes_can_be_changed_in_place() {
    let mut c = make_compositor(800, 600);
    let id = c.insert(RuVec2::zero(), RuVec2::new(ru(0.25), ru(0.5)), 0xFF000000);
    let pane = c.get_mut(id).unwrap();
    pane.center = RuVec2::new(ru(1.0), ru(2.0));
    let pane = c.get(id).unwrap();
    assert_eq!(pane.min_corner(), RuVec2::new(ru(0.75), ru(1.5)));
    assert_eq!(pane.max_corner(), RuVec2::new(ru(1.25), ru(2.5)));
    c.remove(id);
    assert!(c.get_mut(id).is_none());
    assert_eq!(c.iter().len(), 0);
}

#[test]
fn opaque_pane_on_top_is_seen() {
    let mut c = make_compositor(8, 8);
    let low = c.insert(RuVec2::zero(), RuVec2::splat(ru(0.25)), pack_argb(0, 255, 0, 255));
    c.insert(RuVec2::zero(), RuVec2::splat(ru(0.25)), pack_argb(255, 0, 0, 255));
    let mut buf = vec![0u32; 64];
    c.render(&mut buf, 8, 8);
    assert_eq!(buf[4 * 8 + 4], pack_argb(255, 0, 0, 255));
    c.bring_to_front(low);
    c.render(&mut buf, 8, 8);
    assert_eq!(buf[4 * 8 + 4], pack_argb(0, 255, 0, 255));
    assert_eq!(c.hit_test(RuVec2::zero()), Some(low));
}
