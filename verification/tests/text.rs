//! Glyphs on pixel buffers.
use fluor::paint::{AlphaMask, Clip};
use fluor::text::{
    draw_glyph, draw_glyph_additive, draw_glyph_bytes, draw_glyph_masked_additive,
    draw_glyph_masked_bytes, draw_glyphs, text_offset, Alignment, BoxMask, GlyphImage,
};

/// A two by two glyph at a place.
fn glyph(x: i32, y: i32, coverage: [u8; 4]) -> GlyphImage {
    GlyphImage::placed(x, y, 0, 0, 2, 2, coverage.to_vec())
}

#[test]
fn glyph_is_placed_by_its_bearings() {
    let g = GlyphImage::placed(10, 20, -3, 7, 1, 1, vec![9]);
    assert_eq!((g.x, g.y), (7, 13));
}

#[test]
fn glyph_mixes_by_coverage() {
    let mut px = vec![0u32; 16];
    draw_glyph(&mut px, 4, 4, &glyph(1, 1, [255, 128, 0, 64]), 0xFF80_4020, None, None);
    assert_eq!(px[5], 0xFE7F_3F1F);
    assert_eq!(px[6], 0x7F40_2010);
    assert_eq!(px[9], 0);
    assert_eq!(px[10], 0x3F20_1008);
    assert_eq!(px.iter().filter(|&&p| p != 0).count(), 3);
}

#[test]
fn glyph_keeps_what_it_half_covers() {
    let mut px = vec![0xFF00_0000u32; 4];
    draw_glyph(&mut px, 2, 2, &glyph(0, 0, [128, 0, 0, 0]), 0xFFFF_FFFF, None, None);
    // (255 × 127 + 255 × 128) / 256 and 255 × 128 / 256.
    assert_eq!(px[0], 0xFE7F_7F7F);
    assert_eq!(px[1], 0xFF00_0000);
}

#[test]
fn glyph_is_cut_by_clip_and_buffer() {
    let mut px = vec![0u32; 9];
    draw_glyph(&mut px, 3, 3, &glyph(-1, -1, [255; 4]), 0xFFFF_FFFF, None, None);
    assert_ne!(px[0], 0);
    assert_eq!(px.iter().filter(|&&p| p != 0).count(), 1);
    let mut px = vec![0u32; 9];
    let clip = Some(Clip::new(0, 1, 3, 3));
    draw_glyph(&mut px, 3, 3, &glyph(0, 0, [255; 4]), 0xFFFF_FFFF, clip, None);
    assert_eq!(px[0], 0);
    assert_ne!(px[3], 0);
}

#[test]
fn mask_scales_the_glyph() {
    let values = [128u8, 0, 255, 255];
    let mask = AlphaMask::new(&values, 2, 2);
    let mut px = vec![0u32; 4];
    draw_glyph(&mut px, 2, 2, &glyph(0, 0, [255; 4]), 0xFFFF_FFFF, None, Some(&mask));
    // 255 × 128 / 256 = 127 parts of 255.
    assert_eq!(px[0], 0x7E7E_7E7E);
    assert_eq!(px[1], 0);
    assert_eq!(px[2], 0xFDFD_FDFD);
}

#[test]
fn glyphs_are_drawn_in_order() {
    let mut px = vec![0u32; 4];
    let both = [glyph(0, 0, [255, 0, 0, 0]), glyph(0, 0, [255, 0, 0, 0])];
    draw_glyphs(&mut px, 2, 2, &both, 0xFFFF_0000, None, None);
    let mut one = vec![0u32; 4];
    draw_glyph(&mut one, 2, 2, &both[0], 0xFFFF_0000, None, None);
    draw_glyph(&mut one, 2, 2, &both[1], 0xFFFF_0000, None, None);
    assert_eq!(px, one);
}

#[test]
fn added_text_can_be_taken_away() {
    let start: Vec<u32> = (0..13).map(|i| 0xFF00_0000 + i * 0x0011_1111).collect();
    let mut px = start.clone();
    let g = glyph(3, 2, [255, 7, 128, 90]);
    draw_glyph_additive(&mut px, 4, &g, 0x00FF_8040, true);
    assert_eq!(px[11], start[11].wrapping_add(0x00FE_7F3F));
    // Row 3 has one pixel only, which the glyph does not reach.
    assert_eq!(px[12], start[12]);
    assert_ne!(px, start);
    draw_glyph_additive(&mut px, 4, &g, 0x00FF_8040, false);
    assert_eq!(px, start);
}

#[test]
fn masked_text_can_be_taken_away() {
    let start = vec![0x8010_2030u32; 6];
    let mut px = start.clone();
    let mask = [255u8, 128, 0, 255, 255, 255];
    let g = glyph(0, 0, [255, 255, 10, 200]);
    draw_glyph_masked_additive(&mut px, 3, &g, 0x0040_4040, &mask, true);
    // 255 × 255 / 256 = 254 parts, and 255 × 128 / 256 = 127 parts, of 0x40.
    assert_eq!(px[0], 0x8010_2030 + 0x003F_3F3F);
    assert_eq!(px[1], 0x8010_2030 + 0x001F_1F1F);
    assert_eq!(px[2], start[2]);
    draw_glyph_masked_additive(&mut px, 3, &g, 0x0040_4040, &mask, false);
    assert_eq!(px, start);
}

#[test]
fn masked_bytes_leave_the_fourth_alone() {
    let mut px = vec![10u8; 16];
    let values = [255u8, 255];
    let mask = BoxMask { values: &values, x: 0, y: 0, width: 2 };
    let g = glyph(0, 0, [255, 0, 255, 255]);
    draw_glyph_masked_bytes(&mut px, 2, 2, &g, [255, 128, 0, 77], &mask, true);
    // 254 parts of 255 and of 128.
    assert_eq!(&px[..4], &[10u8.wrapping_add(253), 10 + 127, 10, 10]);
    // The mask ends after one row.
    assert_eq!(&px[8..], &[10u8; 8]);
    draw_glyph_masked_bytes(&mut px, 2, 2, &g, [255, 128, 0, 77], &mask, false);
    assert_eq!(px, vec![10u8; 16]);
}

#[test]
fn bytes_are_mixed_and_turned() {
    let mut px = vec![0u8; 9];
    let dot = GlyphImage::placed(2, 1, 0, 0, 1, 1, vec![128]);
    let anchor = 1 << 16;
    draw_glyph_bytes(&mut px, 3, &dot, &vec![200], anchor, anchor, 0);
    assert_eq!(px[1 * 3 + 2], 100);
    // One right of the anchor goes above it by a quarter turn, and left of it by a half.
    let mut px = vec![0u8; 9];
    draw_glyph_bytes(&mut px, 3, &dot, &vec![200], anchor, anchor, 90);
    assert_eq!(px[0 * 3 + 1], 100);
    let mut px = vec![0u8; 9];
    draw_glyph_bytes(&mut px, 3, &dot, &vec![200], anchor, anchor, 180);
    assert_eq!(px[1 * 3 + 0], 100);
    let mut px = vec![0u8; 9];
    draw_glyph_bytes(&mut px, 3, &dot, &vec![200], anchor, anchor, 270);
    assert_eq!(px[2 * 3 + 1], 100);
}

#[test]
fn text_stands_to_its_anchor() {
    assert_eq!(text_offset(Alignment::Center, 100, 50, 40, 20), (80, 40));
    assert_eq!(text_offset(Alignment::Left, 100, 50, 40, 20), (100, 40));
    assert_eq!(text_offset(Alignment::Right, 100, 50, 40, 20), (60, 40));
}
