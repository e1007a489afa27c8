//! The blend kernel on single pixels.
use fluor::pixel::{Argb8, Blend, BlendMode};

#[test]
fn under_opaque_top_returns_top_unchanged() {
    // α=255 means fully opaque — early-out fires regardless of RGB bits.
    let top: Argb8 = 0xFF_AA_BB_CC;
    let bottom: Argb8 = 0xFF_11_22_33;
    for mode in [
        BlendMode::Normal,
        BlendMode::Multiply,
        BlendMode::Screen,
        BlendMode::Add,
        BlendMode::Subtract,
        BlendMode::Overlay,
        BlendMode::Darken,
        BlendMode::Lighten,
    ] {
        assert_eq!(top.under(bottom, mode), top, "mode={mode:?}");
    }
}

#[test]
fn under_opaque_top_skips_bottom_read() {
    // top α==0xFF → early-out fires; bottom value is irrelevant.
    let top: Argb8 = 0xFF_AA_BB_CC;
    let r1 = top.under(0x00_00_00_00, BlendMode::Normal);
    let r2 = top.under(0xFF_FF_FF_FF, BlendMode::Normal);
    assert_eq!(r1, r2);
    assert_eq!(r1, top);
}

#[test]
fn under_empty_top_opaque_black_yields_opaque_black() {
    // Canonical empty (0x00000000 = no opacity, no darkness) + opaque black (α=255, dark=255) → opaque black. consumed = 255. contrib = (255 × 255) >> 8 = 254. nr ≈ 254 (≈ 255 after rounding). new_α = 255.
    let top: Argb8 = 0x00000000;
    let bottom: Argb8 = 0xFF_FF_FF_FF;
    let result = top.under(bottom, BlendMode::Normal);
    let new_a = result >> 24;
    let nr = (result >> 16) & 0xFF;
    assert_eq!(new_a, 0xFF, "new_α expected 0xFF (opaque)");
    assert!(nr >= 0xFD, "nr expected ~0xFF, got {nr:#x}");
}

#[test]
fn under_empty_top_opaque_mid_gray_yields_mid_gray() {
    // Empty + opaque mid-gray (α=255, dark=128 ≈ visible 127 ≈ mid-gray) → ~mid-gray. consumed = 255. contrib = (128 × 255) >> 8 = 127. nr ≈ 127.
    let top: Argb8 = 0x00000000;
    let bottom: Argb8 = 0xFF_80_80_80;
    let result = top.under(bottom, BlendMode::Normal);
    let new_a = result >> 24;
    let nr = (result >> 16) & 0xFF;
    assert_eq!(new_a, 0xFF);
    assert!(nr >= 0x7E && nr <= 0x80, "nr expected ~0x7F, got {nr:#x}");
}

#[test]
fn under_empty_top_20pct_opaque_black_yields_20pct_black() {
    // Empty + 20% opaque pure black (α=51, dark=255) → 20% α, 20% darkness. consumed = (256 × 51) >> 8 = 51. contrib = (255 × 51) >> 8 = 50. new_α = 51.
    let top: Argb8 = 0x00000000;
    let bottom: Argb8 = 0x33_FF_FF_FF;
    let result = top.under(bottom, BlendMode::Normal);
    let new_a = result >> 24;
    let nr = (result >> 16) & 0xFF;
    assert_eq!(new_a, 0x33, "new_α expected 0x33 (~20%)");
    assert!(nr >= 0x31 && nr <= 0x33, "nr expected ~0x32, got {nr:#x}");
}

#[test]
fn under_two_translucent_layers_accumulates_opacity() {
    // Two 50%-α opaque-white layers (dark=0 to preserve the `dark ≤ α` invariant): top α=128 dark=0, bot α=128 dark=0 → consumed = (128 × 128) >> 8 = 64, new_α = 128 + 64 = 192. Porter-Duff over: 1 − (1 − 0.5)(1 − 0.5) = 0.75 ≈ 192/255.
    let top: Argb8 = 0x80_00_00_00;
    let bottom: Argb8 = 0x80_00_00_00;
    let result = top.under(bottom, BlendMode::Normal);
    let new_a = result >> 24;
    assert_eq!(new_a, 192);
}
