//! Anti-aliased figures, seen through the flip to visible RGB.
use fluor::canvas::{Canvas, Damage};
use fluor::coord::Coord;
use fluor::paint::{
    draw_circle, draw_ellipse, draw_ellipse_rotated, draw_rect, draw_rect_rotated, pack_argb,
};

const W: usize = 64;
const H: usize = 64;

/// A length in pixels.
fn co(v: f64) -> Coord {
    (v * 65536.0).round() as i64
}

/// The sine and the cosine of an angle.
fn angle(radians: f64) -> (i64, i64) {
    let (s, c) = radians.sin_cos();
    ((s * 4294967296.0).round() as i64, (c * 4294967296.0).round() as i64)
}

/// Flips α + darkness to visible RGBA bytes.
fn to_rgba(pixels: &[u32]) -> Vec<u8> {
    let mut out = Vec::with_capacity(pixels.len() * 4);
    for &p in pixels {
        let v = p ^ 0x00FF_FFFF; // darkness → visible RGB; α byte untouched
        out.push((v >> 16) as u8); // R
        out.push((v >> 8) as u8); // G
        out.push(v as u8); // B
        out.push(0xFF); // opaque surface
    }
    out
}

fn px(rgba: &[u8], x: usize, y: usize) -> (u8, u8, u8) {
    let i = (y * W + x) * 4;
    (rgba[i], rgba[i + 1], rgba[i + 2])
}

#[test]
fn pack_argb_round_trips_through_output_flip() {
    // Pure red, opaque, should survive pack → flip back to (255,0,0).
    let c = pack_argb(255, 0, 0, 255);
    let flipped = c ^ 0x00FF_FFFF;
    assert_eq!((flipped >> 16) & 0xFF, 255, "R");
    assert_eq!((flipped >> 8) & 0xFF, 0, "G");
    assert_eq!(flipped & 0xFF, 0, "B");
    assert_eq!((c >> 24) & 0xFF, 255, "α stays opaque");
}

#[test]
fn filled_rect_lands_opaque_at_centre() {
    let mut pixels = vec![0u32; W * H];
    let mut damage = Damage::new();
    let mut canvas = Canvas::new(&mut pixels, W, H, &mut damage);

    let blue = pack_argb(0, 0, 255, 255);
    draw_rect(&mut canvas, co(32.0), co(32.0), co(20.0), co(20.0), blue, None);

    let rgba = to_rgba(&pixels);
    // The blend deposits `(255 × consumed) >> 8 = 254` darkness for an opaque layer — a documented ±1 floor of the integer `>>8` kernel — so an "opaque black" channel reads 1, not 0, after the output flip. Tolerate ≤1.
    let (r, g, b) = px(&rgba, 32, 32);
    assert!(r <= 1 && g <= 1 && b >= 254, "centre is ~blue fill, got ({r},{g},{b})");
    assert_eq!(px(&rgba, 0, 0), (255, 255, 255), "corner is bg (white)");
}

#[test]
fn rotated_rect_renders() {
    let mut pixels = vec![0u32; W * H];
    let mut damage = Damage::new();
    let mut canvas = Canvas::new(&mut pixels, W, H, &mut damage);

    let green = pack_argb(0, 200, 0, 255);
    let (s, c) = angle(0.6);
    draw_rect_rotated(&mut canvas, co(32.0), co(32.0), co(24.0), co(10.0), s, c, green, None);

    let rgba = to_rgba(&pixels);
    let (_, g, _) = px(&rgba, 32, 32);
    assert!(g > 100, "centre of rotated rect carries the green fill, got g={g}");
}

#[test]
fn zero_dimension_rect_is_a_one_pixel_line() {
    // The line convention: height 0 → a horizontal 1px hairline at y=20.
    let mut pixels = vec![0u32; W * H];
    let mut damage = Damage::new();
    let mut canvas = Canvas::new(&mut pixels, W, H, &mut damage);

    // Centre the hairline ON pixel row 20 — pixel centres sit at y+0.5, so cy=20.5 puts the 1px coverage band fully inside row 20 (cy=20.0 would split it 50/50 across rows 19 and 20, which is correct AA but not what a crisp grid line wants).
    let black = pack_argb(0, 0, 0, 255);
    draw_rect(&mut canvas, co(32.0), co(20.5), co(40.0), co(0.0), black, None);

    let rgba = to_rgba(&pixels);
    let (r_on, _, _) = px(&rgba, 32, 20);
    assert!(r_on <= 1, "hairline row is fully inked, got r={r_on}");
    assert_eq!(px(&rgba, 32, 17), (255, 255, 255), "three rows above is clean bg");
    assert_eq!(px(&rgba, 32, 23), (255, 255, 255), "three rows below is clean bg");
}

#[test]
fn half_covered_edge_gets_half_the_opacity() {
    // The left edge of the rect runs through the middle of column 10, whose half is covered.
    let mut pixels = vec![0u32; W * H];
    let mut damage = Damage::new();
    let mut canvas = Canvas::new(&mut pixels, W, H, &mut damage);
    draw_rect(&mut canvas, co(20.5), co(20.0), co(20.0), co(20.0), pack_argb(0, 0, 0, 255), None);
    assert_eq!(pixels[20 * W + 10] >> 24, 127);
    assert_eq!(pixels[20 * W + 9], 0);
    assert_eq!(pixels[20 * W + 11] >> 24, 255);
    assert_eq!(damage.bounds().unwrap().x0, 10);
}

#[test]
fn circle_fades_over_one_pixel() {
    let mut pixels = vec![0u32; W * H];
    let mut damage = Damage::new();
    let mut canvas = Canvas::new(&mut pixels, W, H, &mut damage);
    draw_circle(&mut canvas, co(32.5), co(32.5), co(10.0), pack_argb(0, 0, 0, 255), None);
    assert_eq!(pixels[32 * W + 32] >> 24, 255);
    assert_eq!(pixels[32 * W + 41] >> 24, 255);
    // Distance 10: (10.5² − 10²) / (10.5² − 9.5²) = 10.25 / 20 of 255.
    assert_eq!(pixels[32 * W + 42] >> 24, 130);
    assert_eq!(pixels[32 * W + 43], 0);
}

#[test]
fn circle_of_no_radius_draws_nothing() {
    let mut pixels = vec![0u32; W * H];
    let mut damage = Damage::new();
    let mut canvas = Canvas::new(&mut pixels, W, H, &mut damage);
    draw_circle(&mut canvas, co(32.0), co(32.0), 0, pack_argb(0, 0, 0, 255), None);
    draw_ellipse(&mut canvas, co(32.0), co(32.0), co(5.0), co(-1.0), 0xFFFF_FFFF, None);
    draw_rect(&mut canvas, co(32.0), co(32.0), co(-1.0), co(4.0), 0xFFFF_FFFF, None);
    assert!(pixels.iter().all(|&p| p == 0));
    assert!(damage.bounds().is_none());
}

#[test]
fn ellipse_is_wider_than_high() {
    let mut pixels = vec![0u32; W * H];
    let mut damage = Damage::new();
    let mut canvas = Canvas::new(&mut pixels, W, H, &mut damage);
    draw_ellipse(&mut canvas, co(32.5), co(32.5), co(20.0), co(8.0), pack_argb(0, 0, 0, 255), None);
    assert_eq!(pixels[32 * W + 32] >> 24, 255);
    assert_eq!(pixels[32 * W + 50] >> 24, 255);
    assert_eq!(pixels[32 * W + 53], 0);
    assert_eq!(pixels[38 * W + 32] >> 24, 255);
    assert_eq!(pixels[41 * W + 32], 0);
    // On the edge itself half of the pixel is covered.
    assert_eq!(pixels[32 * W + 52] >> 24, 127);
}

#[test]
fn quarter_turn_swaps_the_axes_of_an_ellipse() {
    let mut pixels = vec![0u32; W * H];
    let mut damage = Damage::new();
    let mut canvas = Canvas::new(&mut pixels, W, H, &mut damage);
    draw_ellipse_rotated(
        &mut canvas,
        co(32.5),
        co(32.5),
        co(20.0),
        co(8.0),
        1 << 32,
        0,
        pack_argb(0, 0, 0, 255),
        None,
    );
    assert_eq!(pixels[50 * W + 32] >> 24, 255);
    assert_eq!(pixels[53 * W + 32], 0);
    assert_eq!(pixels[32 * W + 41], 0);
}

/// Draws on an empty canvas and returns the opacity of each pixel.
fn opacities(draw: impl Fn(&mut Canvas)) -> Vec<u32> {
    let mut pixels = vec![0u32; 40 * 40];
    let mut damage = Damage::new();
    let mut canvas = Canvas::new(&mut pixels, 40, 40, &mut damage);
    draw(&mut canvas);
    pixels.iter().map(|p| p >> 24).collect()
}

/// Every pixel has the opacity that `cover` gives for its middle, to within one step.
fn covers(got: &[u32], alpha: f64, cover: impl Fn(f64, f64) -> f64) {
    for y in 0..40 {
        for x in 0..40 {
            let want = alpha * cover(x as f64 + 0.5, y as f64 + 0.5);
            let have = got[y * 40 + x] as f64;
            assert!((have - want.floor()).abs() <= 1.0, "{} {}: {} {}", x, y, have, want);
        }
    }
}

fn fixed(v: f64) -> i64 {
    (v * 65536.0) as i64
}

fn fixed_unit(v: f64) -> i64 {
    (v * 4294967296.0) as i64
}

const SHAPES: [(f64, f64, f64, f64, f64); 4] = [
    (20.0, 20.0, 12.5, 7.25, 0.0),
    (18.3, 21.7, 15.1, 4.6, 0.6),
    (3.2, 36.9, 9.75, 13.5, -1.1),
    (25.5, 11.25, 2.3, 17.0, 2.5),
];

#[test]
fn rectangles_cover_by_distance() {
    for (cx, cy, w, h, angle) in SHAPES {
        let got = opacities(|c| {
            draw_rect(c, fixed(cx), fixed(cy), fixed(w), fixed(h), 0xC800_0000, None)
        });
        let edge = |d: f64| (0.5 + d).clamp(0.0, 1.0);
        covers(&got, 200.0, |x, y| {
            edge((w / 2.0 - (x - cx).abs()).min(h / 2.0 - (y - cy).abs()))
        });
        let (s, k) = (angle.sin(), angle.cos());
        let got = opacities(|c| {
            let (sin, cos) = (fixed_unit(s), fixed_unit(k));
            draw_rect_rotated(
                c, fixed(cx), fixed(cy), fixed(w), fixed(h), sin, cos, 0xC800_0000, None,
            )
        });
        covers(&got, 200.0, |x, y| {
            let (dx, dy) = (x - cx, y - cy);
            let (lx, ly) = (dx * k + dy * s, dy * k - dx * s);
            edge(w / 2.0 - lx) * edge(lx + w / 2.0) * edge(h / 2.0 - ly) * edge(ly + h / 2.0)
        });
    }
}

#[test]
fn ellipses_cover_by_gradient() {
    for (cx, cy, rx, ry, angle) in SHAPES {
        let got = opacities(|c| draw_circle(c, fixed(cx), fixed(cy), fixed(rx), 0xC800_0000, None));
        covers(&got, 200.0, |x, y| {
            let d2 = (x - cx) * (x - cx) + (y - cy) * (y - cy);
            let (inner, outer) = ((rx - 0.5) * (rx - 0.5), (rx + 0.5) * (rx + 0.5));
            ((outer - d2) / (outer - inner)).clamp(0.0, 1.0)
        });
        let cover = |lx: f64, ly: f64| {
            let (p, q) = (lx * lx / (rx * rx), ly * ly / (ry * ry));
            let f = p + q - 1.0;
            let grad2 = 4.0 * (p / (rx * rx) + q / (ry * ry));
            if f <= 0.0 && 4.0 * f * f >= grad2 {
                1.0
            } else if f < 0.0 || 4.0 * f * f < grad2 {
                (0.5 - f / grad2.sqrt()).clamp(0.0, 1.0)
            } else {
                0.0
            }
        };
        let got = opacities(|c| {
            draw_ellipse(c, fixed(cx), fixed(cy), fixed(rx), fixed(ry), 0xC800_0000, None)
        });
        covers(&got, 200.0, |x, y| cover(x - cx, y - cy));
        let (s, k) = (angle.sin(), angle.cos());
        let got = opacities(|c| {
            let (sin, cos) = (fixed_unit(s), fixed_unit(k));
            draw_ellipse_rotated(
                c, fixed(cx), fixed(cy), fixed(rx), fixed(ry), sin, cos, 0xC800_0000, None,
            )
        });
        covers(&got, 200.0, |x, y| {
            let (dx, dy) = (x - cx, y - cy);
            cover(dx * k + dy * s, dy * k - dx * s)
        });
    }
}
