//! Whole-buffer passes: flattening, the OS boundary, tints, shifts, noise and shadows.
use fluor::canvas::{Canvas, Damage, PixelRect};
use fluor::paint::{
    apply_overlay, background_noise, blend_rgb_only, finalize_for_os, finalize_into_screen,
    flatten, flatten_premult, paint_shadow, ray_reach_px, shift_screen_wrap,
    stamp_damage_outline_visible, wrap_add_rgb_where, wrap_sub_rgb, wrap_sub_rgb_scaled,
    BlendMode, Clip, DebugFlags, OVERLAY_SQRT_BRIGHTEN,
};
use fluor::pixel::{under_x8_normal, Blend};
use fluor::theme;

/// A varied pixel whose darkness stays within its opacity.
fn sample(i: u32) -> u32 {
    let a = (i * 37) % 256;
    let part = |k: u32| (i * k) % (a + 1);
    (a << 24) | (part(11) << 16) | (part(23) << 8) | part(5)
}

#[test]
fn eight_lanes_blend_like_single_pixels() {
    for round in 0..32u32 {
        let top: Vec<u32> = (0..8).map(|k| sample(round * 8 + k)).collect();
        let bottom: Vec<u32> = (0..8).map(|k| sample(round * 13 + k * 7 + 3)).collect();
        let t: [u32; 8] = top.clone().try_into().unwrap();
        let b: [u32; 8] = bottom.clone().try_into().unwrap();
        let out = under_x8_normal(wide::u32x8::new(t), wide::u32x8::new(b)).to_array();
        for k in 0..8 {
            assert_eq!(out[k], top[k].under(bottom[k], BlendMode::Normal), "lane {k}");
        }
    }
}

#[test]
fn lanes_keep_opaque_pixels_and_fill_empty_ones() {
    let top = [0xFF12_3456, 0, 0x8000_0000, 0xFFFF_FFFF, 0, 0x0100_0000, 0xFE00_0000, 0x4010_2030];
    let bottom = [0xFF65_4321u32; 8];
    let out = under_x8_normal(wide::u32x8::new(top), wide::u32x8::new(bottom)).to_array();
    assert_eq!(out[0], 0xFF12_3456);
    assert_eq!(out[3], 0xFFFF_FFFF);
    // Darkness 0x65, 0x43, 0x21 times 255, over 256.
    assert_eq!(out[1], 0xFF64_4220);
    assert_eq!(out[2] >> 24, 255);
}

#[test]
fn flatten_goes_as_far_as_both_buffers() {
    let mut dst: Vec<u32> = (0..21).map(sample).collect();
    let src: Vec<u32> = (0..19).map(|i| sample(i * 5 + 2)).collect();
    let before = dst.clone();
    flatten(&mut dst, &src, BlendMode::Normal);
    for i in 0..19 {
        assert_eq!(dst[i], before[i].under(src[i], BlendMode::Normal));
    }
    assert_eq!(&dst[19..], &before[19..]);
    let mut dst = before.clone();
    flatten(&mut dst, &src, BlendMode::Multiply);
    assert_eq!(dst[4], before[4].under(src[4], BlendMode::Multiply));
}

#[test]
fn composite_under_nothing_is_itself() {
    let src: Vec<u32> = (0..10).map(sample).collect();
    let mut dst = vec![0u32; 10];
    flatten_premult(&mut dst, &src);
    assert_eq!(dst, src);
    let mut opaque = vec![0xFF11_2233u32; 10];
    flatten_premult(&mut opaque, &src);
    assert!(opaque.iter().all(|&p| p == 0xFF11_2233));
}

#[test]
fn four_layers_saturate_at_the_button() {
    // Tooltip α=75 over an opaque button, over a panel, over the background.
    let tooltip = 0u32.under(0x4B00_0000, BlendMode::Normal);
    assert_eq!(tooltip >> 24, 75);
    let button = tooltip.under(0xFF20_3040, BlendMode::Normal);
    assert_eq!(button >> 24, 255);
    assert_eq!(button.under(0xC3FF_FFFF, BlendMode::Normal), button);
    assert_eq!(button.under(0xFFFF_FFFF, BlendMode::Normal), button);
}

#[test]
fn blend_modes_on_given_channels() {
    // An empty top: the kernels see darkness 0 above darkness 0x60.
    let b = 0xFF60_6060u32;
    let r = |m| (0u32.under(b, m) >> 16) & 0xFF;
    assert_eq!(r(BlendMode::Normal), (0x60 * 255) >> 8);
    // Multiply: 255 - ((255 * (255 - 0x60)) >> 8) = 97.
    assert_eq!(r(BlendMode::Multiply), (97 * 255) >> 8);
    assert_eq!(r(BlendMode::Screen), 0);
    assert_eq!(r(BlendMode::Add), 0);
    // Subtract: 255 - 0x60.
    assert_eq!(r(BlendMode::Subtract), (159 * 255) >> 8);
    assert_eq!(r(BlendMode::Darken), (0x60 * 255) >> 8);
    assert_eq!(r(BlendMode::Lighten), 0);
}

#[test]
fn boundary_flips_and_trims() {
    let mut px = vec![0xFF00_FF80u32, 0xFF00_FF80, 0x8000_0000, 0];
    let mask = [255u8, 0, 255, 255];
    finalize_for_os(&mut px, &mask, DebugFlags::none());
    // Opacity 255 × 255 / 256 = 254, and channel 255 × 254 / 256 = 253.
    assert_eq!(px[0], 0xFEFD_007E);
    assert_eq!(px[1], 0);
    assert_eq!(px[2], 0x7F7E_7E7E);
    // Premultiplied: no channel is brighter than the opacity.
    for p in &px {
        let a = p >> 24;
        assert!((p >> 16) & 0xFF <= a && (p >> 8) & 0xFF <= a && p & 0xFF <= a);
    }
}

#[test]
fn boundary_shows_opacity_in_grey() {
    let mut px = vec![0x4000_FF80u32];
    let flags = DebugFlags { show_alpha: 1, ..DebugFlags::none() };
    finalize_for_os(&mut px, &[255], flags);
    assert_eq!(px[0], 0xFF3F_3F3F);
    let mut px = vec![0x4000_FF80u32];
    let flags = DebugFlags { show_alpha: 2, ..DebugFlags::none() };
    finalize_for_os(&mut px, &[0], flags);
    assert_eq!(px[0], 0xFFFF_007F);
}

#[test]
fn window_lands_on_the_screen() {
    let scratch = vec![0xFF00_0000u32; 4];
    let mask = [255u8; 4];
    let mut screen = vec![0u32; 16];
    let whole = PixelRect::new(0, 0, 2, 2);
    finalize_into_screen(
        &scratch, &mask, 2, 2, &mut screen, 4, 1, 2, whole, true, DebugFlags::none(),
    );
    assert_eq!(screen[2 * 4 + 1], 0xFEFD_FDFD);
    assert_eq!(screen[3 * 4 + 2], 0xFEFD_FDFD);
    assert_eq!(screen.iter().filter(|&&p| p != 0).count(), 4);
}

#[test]
fn tint_lands_on_its_target_and_back() {
    let delta = wrap_sub_rgb(theme::BUTTON_HOVER, theme::BUTTON_FILL);
    let mut px = vec![theme::BUTTON_FILL, 0xFF01_0203];
    wrap_add_rgb_where(&mut px, &[7, 8], 7, delta);
    assert_eq!(px, vec![theme::BUTTON_HOVER, 0xFF01_0203]);
    wrap_add_rgb_where(&mut px, &[7, 8], 7, wrap_sub_rgb(theme::BUTTON_FILL, theme::BUTTON_HOVER));
    assert_eq!(px[0], theme::BUTTON_FILL);
    assert_eq!(wrap_sub_rgb(0xFF10_0005, 0x0020_FF03), 0x00F0_0102);
    // Half of +0x10, and of -0x10, per channel.
    assert_eq!(wrap_sub_rgb_scaled(0x0020_1030, 0x0010_2030, 1, 2), 0x0008_F800);
}

#[test]
fn overlay_tints_the_hit_pixels() {
    let scratch = vec![0xFF10_2030u32; 4];
    let mut screen = vec![0u32; 4];
    let hits = [0u16, 1, 1, 0];
    let deltas = [0u32, 0x0001_0203];
    let boxes = [None, Some(PixelRect::new(0, 0, 2, 2))];
    let mut active = [false, false];
    apply_overlay(&scratch, &mut screen, 2, 0, 0, &hits, 2, 2, &deltas, &boxes, &mut active);
    assert_eq!(active, [false, true]);
    assert_eq!(screen[0], 0);
    assert_ne!(screen[1], 0);
    assert_eq!(screen[1], screen[2]);
    assert_eq!(screen[1] >> 24, 255);
    let tinted = screen[1];
    // With the tint gone, the pixels go back to the plain content once.
    apply_overlay(&scratch, &mut screen, 2, 0, 0, &hits, 2, 2, &[0, 0], &boxes, &mut active);
    assert_eq!(screen[1], 0xFFEF_DFCF);
    assert_ne!(screen[1], tinted);
    assert_eq!(active, [false, false]);
    let lift = [0u32, OVERLAY_SQRT_BRIGHTEN];
    apply_overlay(&scratch, &mut screen, 2, 0, 0, &hits, 2, 2, &lift, &boxes, &mut active);
    assert!((screen[1] >> 16) & 0xFF >= 0xEF);
}

#[test]
fn shift_wraps_and_comes_back() {
    let mut s: Vec<u32> = (0..12).collect();
    shift_screen_wrap(&mut s, 4, 3, 1, 1);
    assert_eq!(s[1 * 4 + 1], 0);
    assert_eq!(s[0], 11);
    shift_screen_wrap(&mut s, 4, 3, -1, -1);
    assert_eq!(s, (0..12).collect::<Vec<u32>>());
    shift_screen_wrap(&mut s, 4, 3, 4, -3);
    assert_eq!(s, (0..12).collect::<Vec<u32>>());
}

#[test]
fn damage_outline_is_one_pixel_wide() {
    let mut s = vec![0u32; 36];
    stamp_damage_outline_visible(&mut s, 6, 6, PixelRect::new(1, 1, 4, 4), 0, 0);
    assert_eq!(s.iter().filter(|&&p| p == 0xFFFF_00FF).count(), 8);
    assert_eq!(s[2 * 6 + 2], 0);
    let mut t = vec![0u32; 36];
    stamp_damage_outline_visible(&mut t, 6, 6, PixelRect::new(1, 1, 1, 4), 0, 0);
    assert!(t.iter().all(|&p| p == 0));
}

#[test]
fn noise_fills_the_background_with_opaque_pixels() {
    let mut px = vec![0u32; 64 * 8];
    px[5] = 0xFF12_3456;
    let mut damage = Damage::new();
    let mut canvas = Canvas::new(&mut px, 64, 8, &mut damage);
    background_noise(&mut canvas, 0, true, 0, None, None);
    assert_eq!(px[5], 0xFF12_3456);
    assert!(px.iter().all(|&p| p >> 24 == 255));
    let mut again = vec![0u32; 64 * 8];
    again[5] = 0xFF12_3456;
    let mut damage = Damage::new();
    let mut canvas = Canvas::new(&mut again, 64, 8, &mut damage);
    background_noise(&mut canvas, 0, true, 0, None, None);
    assert_eq!(px, again);
    let mut part = vec![0u32; 64 * 8];
    let mut damage = Damage::new();
    let mut canvas = Canvas::new(&mut part, 64, 8, &mut damage);
    background_noise(&mut canvas, 0, true, 0, Some(Clip::new(0, 2, 64, 4)), None);
    assert!(part[..2 * 64].iter().all(|&p| p == 0));
    assert_eq!(part[2 * 64 + 9], px[2 * 64 + 9]);
}

#[test]
fn shadow_darkens_beside_the_window_only() {
    let w = 24usize;
    let mut s = vec![0u32; w * 24];
    for y in 8..16 {
        for x in 8..16 {
            s[y * w + x] = 0xFFFF_FFFF;
        }
    }
    let before = s.clone();
    paint_shadow(&mut s, w, 128, 255, (8, 8, 8, 8));
    for y in 8..16 {
        for x in 8..16 {
            assert_eq!(s[y * w + x], before[y * w + x]);
        }
    }
    assert!(s.iter().zip(&before).any(|(a, b)| a != b));
}

#[test]
fn rays_fade_to_nothing() {
    // 128 halves at each step: 128, 64, 32, 16, 8, 4, 2, 1, 0.
    assert_eq!(ray_reach_px(128, 128), 8);
    assert_eq!(ray_reach_px(0, 128), 0);
    assert_eq!(ray_reach_px(128, 256), 0);
    assert_eq!(ray_reach_px(1, 255), 1);
    // 0x4000_0000, 12582912, 147456, 1728, 20, 0.
    assert_eq!(ray_reach_px(0x4000_0000, 3), 5);
}

#[test]
fn window_without_a_size_casts_no_shadow() {
    let before: Vec<u32> = (0..64u32).map(|i| i * 0x0407_0301).collect();
    for rect in [(i32::MIN, 3, -7, 4), (2, i32::MAX, 5, 0), (i32::MIN, i32::MIN, i32::MIN, 1)] {
        let mut screen = before.clone();
        paint_shadow(&mut screen, 8, 250, u32::MAX, rect);
        assert_eq!(screen, before);
    }
}

#[test]
fn rgb_mix_is_opaque() {
    assert_eq!(blend_rgb_only(0x0080_4020, 0x0000_0000, 128, 128), 0xFF40_2010);
    assert_eq!(blend_rgb_only(0xFF10_1010, 0xFF30_3030, 128, 128), 0xFF20_2020);
}

#[test]
fn theme_colours_are_opaque_darkness() {
    assert_eq!(theme::dark(0x0044_4137), 0xFFBB_BEC8);
    assert_eq!(theme::fmt(0x0012_3456), 0x0012_3456);
    assert_eq!(theme::fmt_red_low(0x0012_3456), 0x0056_3412);
    assert_eq!(theme::BUTTON_HOVER, theme::dark(theme::fmt(0x0028_3471)));
}

/// A number that stands for a whole buffer.
fn digest(px: &[u32]) -> u32 {
    px.iter().fold(0u32, |h, &p| h.wrapping_mul(31).wrapping_add(p))
}

#[test]
fn noise_has_its_pattern() {
    let mut px = vec![0u32; 300 * 4];
    let mut damage = Damage::new();
    let mut canvas = Canvas::new(&mut px, 300, 4, &mut damage);
    background_noise(&mut canvas, 3, true, 1, None, None);
    let at = |row: usize| [px[row * 300], px[row * 300 + 149], px[row * 300 + 150], px[row * 300 + 299]];
    assert_eq!(at(0), [0xFFE8_E9F0, 0xFFE8_EAD3, 0xFFE8_E9D2, 0xFFE5_EAED]);
    assert_eq!(at(1), [0xFFE4_E4F0, 0xFFEF_E5DA, 0xFFEF_E4DA, 0xFFEF_E4E5]);
    assert_eq!(at(2), [0xFFEB_E5EE, 0xFFE7_EAE0, 0xFFE8_E9E0, 0xFFED_E7EB]);
    assert_eq!(at(3), [0xFFE8_E5EE, 0xFFEF_E5E7, 0xFFF0_E4E7, 0xFFF1_E4E0]);
    let sum = px[..300].iter().fold(0u32, |s, &p| s.wrapping_add(p));
    assert_eq!(sum, 0xE863_62E3);
}

/// A screen with a window of cut, soft corners on it.
fn window_on_screen(w: i32, h: i32, r: (i32, i32, i32, i32)) -> Vec<u32> {
    let mut out = Vec::new();
    for y in 0..h {
        for x in 0..w {
            let (ex, ey) = ((x - r.0).min(r.0 + r.2 - 1 - x), (y - r.1).min(r.1 + r.3 - 1 - y));
            let a: u32 = if ex < 0 || ey < 0 || ex + ey < 4 {
                0
            } else if ex + ey > 6 {
                255
            } else {
                (ex + ey - 3) as u32 * 60
            };
            out.push(if a > 0 { a << 24 | 0x0030_2010 } else { 0 });
        }
    }
    out
}

#[test]
fn shadow_follows_the_silhouette() {
    let cases = [
        (80, 60, (15, 12, 40, 30), 230, 160, 0xEF00_9800u32),
        (64, 64, (-6, -5, 40, 50), 200, 255, 0xB5AF_6DE0),
        (50, 50, (10, 10, 60, 60), 245, 200, 0x094F_3820),
    ];
    for (w, h, rect, factor, seed, want) in cases {
        let mut screen = window_on_screen(w, h, rect);
        paint_shadow(&mut screen, w as usize, factor, seed, rect);
        assert_eq!(digest(&screen), want);
    }
}

#[test]
fn blur_follows_the_mask() {
    let (w, h) = (96i32, 64i32);
    let mut mask = Vec::new();
    for y in 0..h {
        for x in 0..w {
            let (dx, dy) = (((x - 48).abs() - 14).max(0), (y - 32).abs());
            let d = dx * dx + dy * dy;
            let m = if d >= 100 {
                0
            } else if d <= 64 {
                255
            } else {
                (100 - d) * 7
            };
            mask.push(m as u8);
        }
    }
    let mut px = vec![0u32; 96 * 64];
    let mut damage = Damage::new();
    let mut canvas = Canvas::new(&mut px, 96, 64, &mut damage);
    fluor::paint::apply_textbox_glow(&mut canvas, &mask, 48, 32, 48, 18, 0x0012_3456);
    assert_eq!(digest(&px), 0x8A97_B1FD);
}

#[test]
fn noise_stays_in_its_clip() {
    for (x0, x1) in [(6usize, 8usize), (0, 2), (3, 5)] {
        let mut all = vec![0u32; 16];
        let mut damage = Damage::new();
        let mut canvas = Canvas::new(&mut all, 8, 2, &mut damage);
        background_noise(&mut canvas, 0, true, 0, None, None);
        let mut part = vec![0u32; 16];
        let mut damage = Damage::new();
        let mut canvas = Canvas::new(&mut part, 8, 2, &mut damage);
        background_noise(&mut canvas, 0, true, 0, Some(Clip::new(x0, 0, x1, 2)), None);
        assert_eq!(damage.bounds(), Some(PixelRect::new(x0, 0, x1, 2)));
        for i in 0..16 {
            let inside = (x0..x1).contains(&(i % 8));
            assert_eq!(part[i], if inside { all[i] } else { 0 });
        }
    }
}
