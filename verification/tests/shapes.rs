//! Pills, glows, window symbols, the text cursor and the diagnostics.
use fluor::canvas::{Canvas, Damage, PixelRect};
use fluor::coord::{RuVec2, PX, RU_ONE};
use fluor::geom::Viewport;
use fluor::paint::blur::apply_textbox_glow;
use fluor::paint::clip::{clip_rect, AlphaMask, Clip};
use fluor::paint::debug::{
    chord_panel, draw_chord_hint, draw_debug_strip, DebugStats, PANEL_FILL, STRIP_FILL,
};
use fluor::paint::glow::{
    apply_textbox_glow_bottom, apply_textbox_glow_left, apply_textbox_glow_right,
    apply_textbox_glow_top,
};
use fluor::paint::glyph::{close_symbol, maximize_symbol, minimize_symbol};
use fluor::paint::ray::ray_reach_px;
use fluor::paint::shape::{draw_blinkey, draw_coverage, ShapeBox};
use fluor::paint::squircle::{draw_squircle_pill, draw_squircle_pill_two_tone};
use fluor::text::GlyphImage;

fn opacity(p: u32) -> u32 {
    p >> 24
}

/// The curve of a pill of 4 rows: a soft edge pixel on both rows of each cap.
const CURVE: [(u16, u8, u8); 2] = [(0, 55, 200), (1, 155, 100)];

#[test]
fn pill_fills_its_curve() {
    let mut pixels = vec![0u32; 16 * 10];
    pixels[3 * 16 + 6] = 0xFF01_0203;
    let mut damage = Damage::new();
    let mut canvas = Canvas::new(&mut pixels, 16, 10, &mut damage);
    draw_squircle_pill(&mut canvas, 2, 2, 8, 4, 0xFF10_2030, &CURVE);
    assert_eq!(damage.bounds(), Some(PixelRect::new(2, 2, 10, 6)));
    for y in 2..6 {
        for x in 4..8 {
            let want = if (x, y) == (6, 3) { 0xFF01_0203 } else { 0xFF0F_1F2F };
            assert_eq!(pixels[y * 16 + x], want, "{} {}", x, y);
        }
    }
    // Edge pixels at both ends of the middle rows, nothing in the corners.
    for x in [2usize, 9] {
        assert_eq!(opacity(pixels[3 * 16 + x]), 200);
        assert_eq!(opacity(pixels[4 * 16 + x]), 200);
        assert_eq!(pixels[2 * 16 + x], 0);
        assert_eq!(pixels[5 * 16 + x], 0);
    }
    assert_eq!(pixels[3 * 16 + 3], 0xFF0F_1F2F);
}

#[test]
fn pill_of_two_tones_stamps_what_it_fills() {
    let mut pixels = vec![0u32; 16 * 10];
    let mut hits = vec![0u16; 16 * 10];
    let mut damage = Damage::new();
    let mut canvas = Canvas::new(&mut pixels, 16, 10, &mut damage);
    draw_squircle_pill_two_tone(
        &mut canvas, 2, 2, 8, 4, 0xFF10_2030, 0xFF40_5060, &CURVE, Some(&mut hits), 7,
    );
    // A channel that goes under nothing keeps 255 parts of 256.
    assert_eq!(pixels[4 * 16 + 5], 0xFF0F_1F2F);
    assert_eq!(pixels[5 * 16 + 5], 0xFF3F_4F5F);
    assert_eq!(hits[5 * 16 + 5], 7);
    assert_eq!(hits[4 * 16 + 3], 7);
    assert_eq!(hits[4 * 16 + 2], 0);
}

#[test]
fn pill_off_the_canvas_is_not_drawn() {
    let mut pixels = vec![0u32; 16 * 10];
    let mut damage = Damage::new();
    let mut canvas = Canvas::new(&mut pixels, 16, 10, &mut damage);
    draw_squircle_pill(&mut canvas, -8, 2, 8, 4, 0xFF10_2030, &CURVE);
    draw_squircle_pill(&mut canvas, 2, 2, 0, 4, 0xFF10_2030, &CURVE);
    assert_eq!(damage.bounds(), None);
    assert!(pixels.iter().all(|&p| p == 0));
}

#[test]
fn glow_leaves_the_silhouette_on_four_sides() {
    // 128, 64, 32, 16, 8, 4, 2, 1.
    assert_eq!(ray_reach_px(128, 128), 8);
    let mut pixels = vec![0u32; 24 * 24];
    pixels[12 * 24 + 12] = 0xFF00_0000;
    let mut damage = Damage::new();
    let mut canvas = Canvas::new(&mut pixels, 24, 24, &mut damage);
    apply_textbox_glow_right(&mut canvas, 10, 10, 5, 5, 0, 128, 128, None);
    apply_textbox_glow_left(&mut canvas, 10, 10, 5, 5, 0, 128, 128, None);
    apply_textbox_glow_top(&mut canvas, 10, 10, 5, 5, 0, 128, 128, None);
    apply_textbox_glow_bottom(&mut canvas, 10, 10, 5, 5, 0, 128, 128, None);
    for k in 1..9usize {
        let want = 256u32 >> k;
        assert_eq!(opacity(pixels[12 * 24 + 12 + k]), want);
        assert_eq!(opacity(pixels[12 * 24 + 12 - k]), want);
        assert_eq!(opacity(pixels[(12 + k) * 24 + 12]), want);
        assert_eq!(opacity(pixels[(12 - k) * 24 + 12]), want);
    }
    assert_eq!(pixels[12 * 24 + 21], 0);
    assert_eq!(pixels[11 * 24 + 11], 0);
}

#[test]
fn glow_is_cut_by_the_clip() {
    let mut pixels = vec![0u32; 16 * 3];
    pixels[16 + 4] = 0xFF00_0000;
    let mut damage = Damage::new();
    let mut canvas = Canvas::new(&mut pixels, 16, 3, &mut damage);
    let clip = Some(Clip::new(0, 0, 7, 3));
    apply_textbox_glow_right(&mut canvas, 2, 0, 4, 3, 0, 128, 128, clip);
    assert_eq!(opacity(pixels[16 + 6]), 64);
    assert_eq!(pixels[16 + 7], 0);
}

#[test]
fn blur_fades_from_the_mask() {
    let (w, h) = (96usize, 48usize);
    let mut mask = vec![0u8; w * h];
    for y in 20..29 {
        for x in 38..59 {
            mask[y * w + x] = 255;
        }
    }
    let mut pixels = vec![0u32; w * h];
    let mut damage = Damage::new();
    let mut canvas = Canvas::new(&mut pixels, w, h, &mut damage);
    apply_textbox_glow(&mut canvas, &mask, 48, 24, 21, 9, 0);
    // 71 × 255 / 256.
    assert_eq!(opacity(pixels[24 * w + 59]), 70);
    // 71 × 15 / 16 = 66, and 66 × 255 / 256.
    assert_eq!(opacity(pixels[24 * w + 60]), 65);
    assert_eq!(opacity(pixels[24 * w + 37]), 70);
    assert_eq!(pixels[24 * w + 48], 0);
    assert_eq!(damage.bounds(), Some(PixelRect::new(6, 4, 90, 44)));
    let mut canvas = Canvas::new(&mut pixels, w, h, &mut damage);
    let before: Vec<u32> = canvas.pixels.to_vec();
    apply_textbox_glow(&mut canvas, &mask, -1, 24, 21, 9, 0);
    assert_eq!(canvas.pixels.to_vec(), before);
}

#[test]
fn minimize_is_a_soft_bar() {
    let mut pixels = vec![0u32; 32 * 32];
    minimize_symbol(&mut pixels, 32, 16, 10, 7, 0xFFFF_FFFF);
    // A bar of half height 3: (81 - 0) × 256 / 108 = 192 parts of the stroke.
    assert_eq!(pixels[14 * 32 + 16], 0x00BF_BFBF);
    assert_eq!(pixels[14 * 32 + 11], 0x00BF_BFBF);
    // One row away (81 - 1) × 256 / 108 = 189 parts.
    assert_eq!(pixels[13 * 32 + 16], 0x00BC_BCBC);
    assert_eq!(pixels[18 * 32 + 16], 0);
}

#[test]
fn maximize_is_a_ring() {
    let mut pixels = vec![0u32; 32 * 32];
    maximize_symbol(&mut pixels, 32, 16, 16, 9, 0xFFFF_FFFF, 0xFF80_8080);
    assert_eq!(pixels[16 * 32 + 16], 0x0080_8080);
    // Between the squircles of 8 and 10: (10000 - 6561) × 256 / 4000 = 220 parts.
    assert_eq!(pixels[16 * 32 + 25], 0x00DB_DBDB);
    assert_eq!(pixels[16 * 32 + 26], 0);
    // On the inner squircle the stroke is left as it is.
    assert_eq!(pixels[16 * 32 + 24], 0x00FF_FFFF);
    assert_eq!(pixels[6 * 32 + 6], 0);
}

#[test]
fn close_follows_its_coverage() {
    let mut pixels = vec![0u32; 8 * 8];
    let mut coverage = vec![0u16; 16];
    coverage[0] = 256;
    coverage[5] = 128;
    close_symbol(&mut pixels, 8, 4, 4, 1, 0xFFFF_FFFF, &coverage);
    assert_eq!(pixels[2 * 8 + 2], 0x00FF_FFFF);
    assert_eq!(pixels[3 * 8 + 3], 0x007F_7F7F);
    assert_eq!(pixels[4 * 8 + 4], 0);
}

#[test]
fn cursor_wave_stands_still_at_its_ends() {
    let mut pixels = vec![0xFFFF_FFFFu32; 20 * 12];
    let mut damage = Damage::new();
    let mut canvas = Canvas::new(&mut pixels, 20, 12, &mut damage);
    draw_blinkey(&mut canvas, 9, 1, 10, true);
    assert_eq!(damage.bounds(), Some(PixelRect::new(2, 1, 17, 11)));
    // Third row of ten: (25 - 9)(5 + 3)² × 100 / 625 = 163; half of it one column away.
    assert_eq!(pixels[3 * 20 + 9], 0xFF5C_5C5C);
    assert_eq!(pixels[3 * 20 + 8], 0xFFAE_AEAE);
    assert_eq!(pixels[3 * 20 + 1], 0xFFFF_FFFF);
    // The first row is where the wave begins.
    assert_eq!(pixels[20 + 9], 0xFFFF_FFFF);
}

#[test]
fn coverage_is_the_opacity() {
    let mut pixels = vec![0u32; 4 * 4];
    let mut damage = Damage::new();
    let mut canvas = Canvas::new(&mut pixels, 4, 4, &mut damage);
    let shape = ShapeBox { x_min: -1, x_max: 2, y_min: 3, y_max: 5 };
    draw_coverage(&mut canvas, shape, 0xFF00_0000, None, &[10, 20, 255, 40, 50, 60]);
    assert_eq!(opacity(pixels[12]), 20);
    assert_eq!(opacity(pixels[13]), 255);
    assert_eq!(pixels[14], 0);
    assert_eq!(damage.bounds(), Some(PixelRect::new(0, 3, 2, 4)));
}

#[test]
fn stats_count_frames() {
    let mut s = DebugStats::new();
    s.record_rasterize(1, 2, 3, 4, RU_ONE / 4);
    s.record_present(RU_ONE / 2);
    assert_eq!((s.frame_count, s.rasterize_count), (1, 1));
    assert_eq!((s.last_rasterize_pct, s.last_damage_pct), (RU_ONE / 4, RU_ONE / 2));
    assert_eq!(s.total_ns(), 10);
    s.frame_count = u64::MAX;
    s.record_frame(10, 20, 30, 40);
    assert_eq!((s.frame_count, s.rasterize_count), (0, 2));
    assert_eq!((s.last_rasterize_pct, s.last_damage_pct), (RU_ONE, RU_ONE));
    assert_eq!(s.total_ns(), 100);
}

#[test]
fn strip_lies_under_its_text() {
    let glyph = GlyphImage::placed(3, 5, 0, 0, 1, 1, vec![255]);
    let mut pixels = vec![0u32; 40 * 30];
    let mut damage = Damage::new();
    let mut canvas = Canvas::new(&mut pixels, 40, 30, &mut damage);
    draw_debug_strip(&mut canvas, &[glyph], 2);
    assert_eq!(opacity(pixels[10 * 40 + 20]), opacity(STRIP_FILL));
    assert_eq!(pixels[40 + 20], 0);
    assert_eq!(pixels[26 * 40 + 20], 0);
    // The soft edge of the bar takes a row on both sides.
    assert_eq!(damage.bounds(), Some(PixelRect::new(0, 1, 40, 27)));
    // A strip that does not fit is not drawn.
    let mut pixels = vec![0u32; 40 * 30];
    let mut damage = Damage::new();
    let mut canvas = Canvas::new(&mut pixels, 40, 30, &mut damage);
    draw_debug_strip(&mut canvas, &[], 7);
    assert_eq!(damage.bounds(), None);
}

#[test]
fn panel_follows_the_span() {
    let p = chord_panel(500 * PX, 2, 1000, 600);
    assert_eq!(p.font_size, 7 * PX);
    assert_eq!(p.header_size, 7 * PX * 59 / 50);
    assert_eq!(p.line_h, 7 * PX * 31 / 20);
    assert_eq!(p.width, 225 * PX);
    assert_eq!((p.cx, p.cy), (500 * PX, 240 * PX));
    assert_eq!(p.height, 7 * (7 * PX * 31 / 20) / 2 + 2 * (7 * PX * 5 / 4));
    // Lines of text are needed, and room for them.
    let mut pixels = vec![0u32; 240 * 130];
    let mut damage = Damage::new();
    let mut canvas = Canvas::new(&mut pixels, 240, 130, &mut damage);
    draw_chord_hint(&mut canvas, &[], &[], 100 * PX);
    assert_eq!(canvas.damage.bounds(), None);
    draw_chord_hint(&mut canvas, &[], &[Vec::new(), Vec::new()], 100 * PX);
    assert_eq!(opacity(pixels[52 * 240 + 120]), opacity(PANEL_FILL));
    let mut pixels = vec![0u32; 240 * 110];
    let mut damage = Damage::new();
    let mut canvas = Canvas::new(&mut pixels, 240, 110, &mut damage);
    draw_chord_hint(&mut canvas, &[], &[Vec::new()], 100 * PX);
    assert_eq!(damage.bounds(), None);
}

#[test]
fn clips_and_masks() {
    let c = Clip::new(2, 3, 10, 8);
    assert_eq!(Clip::resolve(None, 20, 30), Clip::buffer(20, 30));
    assert_eq!(Clip::resolve(Some(c), 20, 30), c);
    assert_eq!(Clip::intersect_bbox(Some(c), 20, 30, -5, 6, 0, 100), Some((2, 3, 6, 8)));
    assert_eq!(Clip::intersect_bbox(Some(c), 20, 30, -5, 2, 0, 100), None);
    assert_eq!(Clip::intersect_bbox(None, 20, 30, 5, 50, -3, 4), Some((5, 0, 20, 4)));
    assert_eq!(clip_rect(c, 0, 0, 5, 5), (2, 3, 5, 5));
    assert_eq!(clip_rect(c, 40, 40, 5, 5), (10, 8, 10, 8));
    let values = [1u8, 2, 3, 4, 5, 6];
    let m = AlphaMask::new(&values, 3, 2);
    assert_eq!((m.width, m.height, m.pixels[5]), (3, 2, 6));
}

#[test]
fn damage_grows_to_the_union() {
    let mut d = Damage::new();
    assert_eq!(d.bounds(), None);
    d.add_bounds(3, 3, 3, 9);
    assert_eq!(d.bounds(), None);
    d.add_bounds(3, 4, 5, 6);
    d.add_bounds(1, 5, 4, 9);
    assert_eq!(d.bounds(), Some(PixelRect::new(1, 4, 5, 9)));
    assert!(PixelRect::new(4, 4, 4, 9).is_empty());
    let u = PixelRect::new(0, 1, 2, 3).union(PixelRect::new(5, 0, 6, 2));
    assert_eq!(u, PixelRect::new(0, 0, 6, 3));
}

#[test]
fn viewport_counts_from_its_middle() {
    let v = Viewport::new(1920, 1080);
    // The harmonic mean of the sides is 1382.4.
    assert_eq!(v.ru_to_px_d(RU_ONE), 1382);
    assert_eq!(v.ru_to_px_d(-RU_ONE), -1382);
    assert_eq!(v.ru_to_px(RuVec2 { x: 0, y: 0 }), (960, 540));
    assert_eq!(v.ru_to_px(RuVec2 { x: RU_ONE / 4, y: -RU_ONE / 4 }), (1305, 194));
    assert_eq!(v.with_ru(2 * RU_ONE).ru_to_px_d(RU_ONE), 2764);
}

#[test]
fn origin_stays_in_the_middle() {
    for (w, h) in [(8, 600), (1921, 1081), (3, 3)] {
        for zoom in [RU_ONE, 7 * RU_ONE, RU_ONE / 3] {
            let v = Viewport::new(w, h).with_ru(zoom);
            let (x, y) = v.ru_to_px(RuVec2::zero());
            assert_eq!((x, y), ((w / 2) as isize, (h / 2) as isize));
        }
    }
    // The same unit in landscape and portrait, the side on a square, between the sides otherwise.
    let unit = |w, h| Viewport::new(w, h).ru_to_px_d(RU_ONE);
    assert_eq!(unit(1920, 1080), unit(1080, 1920));
    assert_eq!(unit(640, 640), 640);
    assert!((300..=600).contains(&unit(300, 4000)));
}

#[test]
fn mask_scales_a_fill() {
    let mut mask = vec![255u8; 4];
    mask[1] = 0;
    mask[2] = 127;
    let mut pixels = vec![0u32; 4];
    let mut damage = Damage::new();
    let mut canvas = Canvas::new(&mut pixels, 4, 1, &mut damage);
    let m = AlphaMask::new(&mask, 4, 1);
    fluor::paint::fill_rect(&mut canvas, 0, 0, 4, 1, 0xC800_0000, None, Some(&m));
    // 200 × 255 / 256, nothing, 200 × 127 / 256.
    assert_eq!(pixels, vec![0xC700_0000, 0, 0x6300_0000, 0xC700_0000]);
}

#[test]
fn negative_zoom_turns_the_axes_round() {
    let v = Viewport::new(1920, 1080).with_ru(-RU_ONE);
    assert_eq!(v.ru_to_px_d(RU_ONE), -1382);
    assert_eq!(v.ru_to_px(RuVec2 { x: RU_ONE / 4, y: 0 }), (614, 540));
    assert_eq!(Viewport::new(4, 4).with_ru(1000 * RU_ONE).ru_to_px_d(RU_ONE), 4000);
}

/// A buffer with opaque and translucent pixels, `w` by `h`.
fn speckled(w: usize, h: usize) -> Vec<u32> {
    (0..w * h).map(|i| if i % 7 == 3 { 0xFF10_2030 } else { (i as u32 % 5) << 25 }).collect()
}

type Glow = fn(&mut Canvas, isize, isize, isize, isize, u32, u32, u32, Option<Clip>);

fn glowed(px: &[u32], w: usize, h: usize, glow: Glow, r: (isize, isize, isize, isize)) -> Vec<u32> {
    let mut out = px.to_vec();
    let mut damage = Damage::new();
    let mut canvas = Canvas::new(&mut out, w, h, &mut damage);
    glow(&mut canvas, r.0, r.1, r.2, r.3, 0x0044_5566, 200, 180, None);
    out
}

#[test]
fn glows_are_mirror_images() {
    let (w, h) = (13usize, 9usize);
    let px = speckled(w, h);
    let mirror = |p: &[u32]| -> Vec<u32> {
        (0..w * h).map(|i| p[i / w * w + (w - 1 - i % w)]).collect()
    };
    let flip = |p: &[u32]| -> Vec<u32> {
        (0..w * h).map(|i| p[(h - 1 - i / w) * w + i % w]).collect()
    };
    let transpose =
        |p: &[u32]| -> Vec<u32> { (0..w * h).map(|i| p[i % h * w + i / h]).collect() };
    for (x, y, rw, rh) in [(2isize, 1isize, 6isize, 5isize), (-3, -2, 9, 20), (9, 5, 30, 2)] {
        let r = (x, y, rw, rh);
        let right = glowed(&px, w, h, apply_textbox_glow_right, r);
        assert_ne!(right, px);
        let round = (w as isize - x - rw, y, rw, rh);
        let left = glowed(&mirror(&px), w, h, apply_textbox_glow_left, round);
        assert_eq!(left, mirror(&right));
        let top = glowed(&px, w, h, apply_textbox_glow_top, r);
        let round = (x, h as isize - y - rh, rw, rh);
        let bottom = glowed(&flip(&px), w, h, apply_textbox_glow_bottom, round);
        assert_eq!(bottom, flip(&top));
        let left = glowed(&px, w, h, apply_textbox_glow_left, r);
        let top = glowed(&transpose(&px), h, w, apply_textbox_glow_top, (y, x, rh, rw));
        assert_eq!(top, transpose(&left));
    }
}

#[test]
fn overhanging_pill_is_cropped() {
    let (w, h) = (10usize, 6usize);
    for (x, y) in [(-3isize, 1isize), (5, 4), (-1, -2), (40, 40)] {
        let mut small = vec![0u32; w * h];
        let mut damage = Damage::new();
        let mut canvas = Canvas::new(&mut small, w, h, &mut damage);
        draw_squircle_pill(&mut canvas, x, y, 8, 4, 0xFF10_2030, &CURVE);
        let mut large = vec![0u32; 80 * 60];
        let mut canvas = Canvas::new(&mut large, 80, 60, &mut damage);
        draw_squircle_pill(&mut canvas, x + 7, y + 5, 8, 4, 0xFF10_2030, &CURVE);
        for i in 0..w * h {
            assert_eq!(small[i], large[(i / w + 5) * 80 + i % w + 7]);
        }
    }
}

#[test]
fn moved_pill_is_the_same_picture() {
    // A table longer than the caps are high.
    let table = [(1u16, 40u8, 200u8), (0, 90, 30), (2, 10, 20), (0, 70, 80), (1, 5, 6), (0, 250, 9)];
    let drawn = |x: isize, y: isize| {
        let mut pixels = vec![0x2211_3344u32; 40 * 30];
        let mut damage = Damage::new();
        let mut canvas = Canvas::new(&mut pixels, 40, 30, &mut damage);
        draw_squircle_pill(&mut canvas, x, y, 9, 5, 0xFF10_2030, &table);
        pixels
    };
    let (here, there) = (drawn(10, 8), drawn(17, 11));
    assert!(here.iter().any(|p| *p != 0x2211_3344));
    for y in 0..27 {
        for x in 0..33 {
            assert_eq!(here[y * 40 + x], there[(y + 3) * 40 + x + 7]);
        }
    }
}

#[test]
fn ring_is_symmetric() {
    let mut pixels = vec![0x0011_2233u32; 41 * 41];
    maximize_symbol(&mut pixels, 41, 20, 20, 15, 0xFFFF_FFFF, 0xFF80_8080);
    for y in 0..41 {
        for x in 0..41 {
            let p = pixels[y * 41 + x];
            assert_eq!(p, pixels[y * 41 + 40 - x]);
            assert_eq!(p, pixels[(40 - y) * 41 + x]);
            assert_eq!(p, pixels[x * 41 + y]);
            if x < 4 || x > 36 || y < 4 || y > 36 {
                assert_eq!(p, 0x0011_2233);
            }
        }
    }
    assert_eq!(pixels[20 * 41 + 20], 0x0080_8080);
}
