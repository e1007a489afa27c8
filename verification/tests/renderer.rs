//! Text through the glyph cache.
use cosmic_text::{fontdb, CacheKey, CacheKeyFlags, FontSystem, Placement, SwashContent, SwashImage};
use fluor::coord::{Coord, PX, RU_ONE};
use fluor::paint::transform::Transform;
use fluor::text::measure::{line_advance, line_extent, line_reach, scroll_places, wider, Advance};
use fluor::text::raster::{
    is_tame, place_bitmap, place_turned, Bitmap, ShapedGlyph, Step, TextRenderer,
};
use fluor::text::BoxMask;

fn renderer() -> TextRenderer {
    let fonts = FontSystem::new_with_locale_and_db("en".to_string(), fontdb::Database::new());
    TextRenderer::with_fonts(fonts)
}

fn key(glyph: u16) -> CacheKey {
    CacheKey::new(fontdb::ID::dummy(), glyph, 16.0, (0.0, 0.0), CacheKeyFlags::empty()).0
}

/// Puts a 2 by 1 glyph into the cache, one column right of the pen and two rows above the baseline.
fn hold(t: &mut TextRenderer, glyph: u16, data: Vec<u8>) {
    let mut image = SwashImage::new();
    image.placement = Placement { left: 1, top: 2, width: 2, height: 1 };
    image.content = SwashContent::Mask;
    image.data = data;
    t.swash_cache.image_cache.insert(key(glyph), Some(image));
}

fn at(glyph: u16, x: i32, y: i32) -> ShapedGlyph {
    ShapedGlyph { key: key(glyph), x, y, baseline: 3 }
}

#[test]
fn cached_image_is_placed() {
    let mut t = renderer();
    hold(&mut t, 5, vec![255, 128]);
    let line = t.rasterize(&[at(5, 1, 1), at(5, 4, 1)]);
    assert_eq!((line[0].x, line[0].y, line[0].w, line[0].h), (2, 2, 2, 1));
    assert_eq!(line[0].coverage, vec![255, 128]);
    assert_eq!(line[1].x, 5);
}

#[test]
fn glyph_without_a_font_has_no_cells() {
    let mut t = renderer();
    let line = t.rasterize(&[at(9, 1, 1)]);
    assert_eq!((line[0].w, line[0].h), (0, 0));
    // What came of it is kept.
    assert!(t.swash_cache.image_cache.get(&key(9)).unwrap().is_none());
    assert_eq!(t.font_system_mut().db().len(), 0);
}

#[test]
fn short_image_has_no_cells() {
    let mut t = renderer();
    hold(&mut t, 5, vec![255]);
    assert_eq!(t.rasterize(&[at(5, 1, 1)])[0].w, 0);
    // Values beyond the cells are left out.
    hold(&mut t, 6, vec![1, 2, 3, 4, 5, 6, 7, 8]);
    assert_eq!(t.rasterize(&[at(6, 1, 1)])[0].coverage, vec![1, 2]);
}

#[test]
fn line_is_mixed_into_the_buffer() {
    let mut t = renderer();
    hold(&mut t, 5, vec![255, 128]);
    let mut pixels = vec![0xFF00_0000u32; 8 * 4];
    t.render_buffer_u32(&mut pixels, 8, 4, &[at(5, 1, 1)], 0xFFFF_FFFF, None, None);
    // (0 × 0 + 255 × 255) >> 8 and (0 × 127 + 255 × 128) >> 8.
    assert_eq!(pixels[2 * 8 + 2], 0xFEFE_FEFE);
    assert_eq!(pixels[2 * 8 + 3] & 0xFF, 127);
    assert_eq!(pixels[2 * 8 + 4], 0xFF00_0000);
}

#[test]
fn added_line_is_taken_away_again() {
    let mut t = renderer();
    hold(&mut t, 5, vec![255, 128]);
    let line = [at(5, 1, 1), at(5, 2, 1), at(9, 3, 1)];
    let before: Vec<u32> = (0..32).map(|i| i * 0x0309_0711).collect();
    let mut pixels = before.clone();
    t.render_buffer_additive_u32(&mut pixels, 8, &line, 0x00FF_8040, true);
    assert_eq!(pixels[2 * 8 + 2], before[2 * 8 + 2].wrapping_add(0x00FE_7F3F));
    t.render_buffer_additive_u32(&mut pixels, 8, &line, 0x00FF_8040, false);
    assert_eq!(pixels, before);

    let mask = vec![200u8; 32];
    t.render_char_additive_u32(&mut pixels, 8, &line, 0x00FF_8040, &mask, true);
    // 255 × 200 >> 8 = 199 parts.
    assert_eq!(pixels[2 * 8 + 2], before[2 * 8 + 2].wrapping_add(0x00C6_6331));
    t.render_char_additive_u32(&mut pixels, 8, &line, 0x00FF_8040, &mask, false);
    assert_eq!(pixels, before);

    let mut bytes: Vec<u8> = (0..128).map(|i| (i * 7) as u8).collect();
    let was = bytes.clone();
    let values = [255u8; 4];
    let part = BoxMask { values: &values, x: 2, y: 2, width: 2 };
    t.render_char_additive(&mut bytes, 8, 4, &line, [255, 128, 64, 9], &part, true);
    // 255 × 255 >> 8 = 254 parts.
    assert_eq!(bytes[(2 * 8 + 2) * 4], was[(2 * 8 + 2) * 4].wrapping_add(253));
    assert_eq!(bytes[(2 * 8 + 2) * 4 + 3], was[(2 * 8 + 2) * 4 + 3]);
    t.render_char_additive(&mut bytes, 8, 4, &line, [255, 128, 64, 9], &part, false);
    assert_eq!(bytes, was);
}

#[test]
fn line_on_bytes_has_to_fit() {
    let mut t = renderer();
    hold(&mut t, 5, vec![255, 128]);
    let mut bytes = vec![0u8; 8 * 4 * 3];
    assert!(t.render_buffer(&mut bytes, 8, &[at(5, 1, 1)], &vec![255, 0, 128], 0, 0, 0));
    // (0 × 1 + 255 × 255) >> 8.
    assert_eq!(bytes[(2 * 8 + 2) * 3], 254);
    assert_eq!(bytes[(2 * 8 + 2) * 3 + 2], 127);
    let was = bytes.clone();
    assert!(!t.render_buffer(&mut bytes, 8, &[at(5, 1, 9)], &vec![255, 0, 128], 0, 0, 0));
    assert!(!t.render_buffer(&mut bytes, 8, &[at(5, 1, 1)], &vec![255, 0, 128], 0, 0, 180));
    assert_eq!(bytes, was);
}

#[test]
fn transformed_pen_turns_with_its_line() {
    let bitmap = || Some(Bitmap { left: 1, top: 2, width: 1, height: 1, data: vec![7] });
    let quarter = Transform { a: 0, b: RU_ONE, c: -RU_ONE, d: 0, tx: 10 * RU_ONE, ty: 0 };
    let g = place_turned(quarter, 4, 3, 2, bitmap());
    // (4, 5) goes to (-5, 4), and 10 columns on.
    assert_eq!((g.x, g.y), (5 + 1, 4 - 2));
    assert_eq!(place_bitmap(4, 5, None).w, 0);
    let far = place_bitmap(i32::MAX as i64, 5, bitmap());
    assert_eq!((far.w, far.h), (0, 0));
}

#[test]
fn lines_are_measured() {
    let line = [
        Advance { x: 2 * PX, w: 5 * PX },
        Advance { x: 9 * PX, w: 3 * PX },
        Advance { x: 7 * PX, w: 2 * PX },
    ];
    assert_eq!(line_reach(&line), 12 * PX);
    assert_eq!(line_extent(&line), Some(10 * PX));
    assert_eq!(line_advance(&line), 10 * PX);
    assert_eq!((line_reach(&[]), line_extent(&[]), line_advance(&[])), (0, None, 0));
    assert_eq!(line_reach(&[Advance { x: -9 * PX, w: PX }]), 0);
    assert_eq!(wider(3, 4), 4);
}

#[test]
fn scrolled_characters_follow_each_other() {
    let widths = [4usize, 6, 5, 9];
    let places: Vec<Coord> = scroll_places(&widths, 4, 1, 99, PX / 2);
    assert_eq!(places, vec![PX / 2, PX / 2 + 6 * PX, PX / 2 + 11 * PX]);
    assert!(scroll_places(&widths, 4, 3, 2, 0).is_empty());
}

#[test]
fn oversized_glyph_has_no_cells() {
    let mut t = renderer();
    hold(&mut t, 5, vec![255, 128]);
    let mut huge = at(5, 1, 1);
    for bits in [0x4500_0001, 0x7FC0_0000, 0x8000_0000, 0] {
        huge.key.font_size_bits = bits;
        let line = t.rasterize(&[huge, at(5, 1, 1)]);
        assert_eq!((line[0].w, line[0].h), (0, 0));
        assert_eq!(line[1].w, 2);
    }
    // Nothing was asked for.
    assert_eq!(t.swash_cache.image_cache.len(), 1);
    // What the cache already holds is drawn at any size.
    let image = t.swash_cache.image_cache.get(&key(5)).unwrap().clone();
    t.swash_cache.image_cache.insert(huge.key, image);
    assert_eq!(t.image_of(huge).coverage, vec![255, 128]);
}

/// A table of a font, its numbers in two bytes each.
fn words(values: &[u16]) -> Vec<u8> {
    values.iter().flat_map(|v| v.to_be_bytes()).collect()
}

/// The outline of a square with this side.
fn square(side: u16) -> Vec<u8> {
    let mut glyph = words(&[1, 0, 0, side, side, 3, 0]);
    glyph.extend([1, 1, 1, 1]);
    glyph.extend(words(&[0, 0, side, 0]));
    glyph.extend(words(&[0, side, 0, side.wrapping_neg()]));
    glyph
}

/// A font of 1024 units to the em: an empty glyph, a square of half an em, and one of almost 32 ems.
fn font(coloured: bool) -> Vec<u8> {
    let mut head = words(&[1, 0, 1, 0, 0, 0, 0x5F0F, 0x3CF5, 0, 1024]);
    head.extend([0; 16]);
    head.extend(words(&[0, 0, 32767, 32767, 0, 8, 2, 0, 0]));
    let hhea = words(&[1, 0, 800, 0xFF38, 0, 1024, 0, 0, 0, 1, 0, 0, 0, 0, 0, 0, 0, 1]);
    let maxp = words(&[1, 0, 3, 4, 1, 0, 0, 2, 0, 0, 0, 0, 0, 0, 0, 0]);
    let mut name = words(&[0, 2, 30, 3, 1, 0x409, 1, 2, 0, 3, 1, 0x409, 6, 2, 0]);
    name.extend([0, b'T']);
    let glyf = [square(512), square(32767)].concat();
    let mut tables: Vec<(&[u8; 4], Vec<u8>)> = Vec::new();
    if coloured {
        tables.push((b"COLR", vec![0; 14]));
        tables.push((b"CPAL", vec![0; 12]));
    }
    tables.push((b"glyf", glyf));
    tables.push((b"head", head));
    tables.push((b"hhea", hhea));
    tables.push((b"hmtx", words(&[1024, 0, 0, 0])));
    tables.push((b"loca", words(&[0, 0, 17, 34])));
    tables.push((b"maxp", maxp));
    tables.push((b"name", name));
    let mut bytes = words(&[1, 0, tables.len() as u16, 0, 0, 0]);
    let mut data: Vec<u8> = Vec::new();
    let start = 12 + 16 * tables.len();
    for (tag, table) in &tables {
        bytes.extend(*tag);
        bytes.extend([0; 4]);
        bytes.extend(((start + data.len()) as u32).to_be_bytes());
        bytes.extend((table.len() as u32).to_be_bytes());
        data.extend(table);
        data.resize(data.len().next_multiple_of(4), 0);
    }
    bytes.extend(data);
    bytes
}

fn with_font(coloured: bool) -> (TextRenderer, fontdb::ID) {
    let mut db = fontdb::Database::new();
    db.load_font_data(font(coloured));
    let id = db.faces().next().unwrap().id;
    (TextRenderer::with_fonts(FontSystem::new_with_locale_and_db("en".to_string(), db)), id)
}

fn glyph_of(id: fontdb::ID, glyph: u16, size: f32, flags: CacheKeyFlags) -> ShapedGlyph {
    let key = CacheKey::new(id, glyph, size, (0.0, 0.0), flags).0;
    ShapedGlyph { key, x: 10, y: 20, baseline: 5 }
}

#[test]
fn glyph_is_rasterized_from_its_outline() {
    let (mut t, id) = with_font(false);
    let g = glyph_of(id, 1, 16.0, CacheKeyFlags::empty());
    let line = t.rasterize(&[g, g]);
    for image in &line {
        assert_eq!((image.x, image.y, image.w, image.h), (10, 17, 8, 8));
        assert!(image.coverage.iter().all(|c| *c == 255));
    }
    assert_eq!(t.swash_cache.image_cache.len(), 1);
    // No outline, no cells.
    assert_eq!(t.image_of(glyph_of(id, 0, 16.0, CacheKeyFlags::empty())).w, 0);
}

#[test]
fn glyph_that_reaches_too_far_has_no_cells() {
    let (mut t, id) = with_font(false);
    let near = t.image_of(glyph_of(id, 2, 64.0, CacheKeyFlags::FAKE_ITALIC));
    assert_eq!(near.h, 2048);
    assert!(near.w > 2048);
    assert_eq!(t.swash_cache.image_cache.len(), 1);
    let far = glyph_of(id, 2, 65.0, CacheKeyFlags::empty());
    assert_eq!(t.image_of(far).w, 0);
    assert!(!t.swash_cache.image_cache.contains_key(&far.key));
}

#[test]
fn glyph_of_a_coloured_font_has_no_cells() {
    let (mut t, id) = with_font(true);
    let g = glyph_of(id, 1, 16.0, CacheKeyFlags::empty());
    assert_eq!(t.rasterize(&[g])[0].w, 0);
    assert!(t.swash_cache.image_cache.is_empty());
}

#[test]
fn outline_is_tame_within_reach() {
    assert!(is_tame(&None));
    let edge = (2047, -2047);
    let steps = || {
        vec![Step::Move(edge), Step::Quad(edge, edge), Step::Curve(edge, edge, edge), Step::Close]
    };
    assert!(is_tame(&Some(steps())));
    for far in [(2048, 0), (-2048, 0), (0, 2048), (0, -2048)] {
        for step in [
            Step::Move(far),
            Step::Line(far),
            Step::Quad(far, edge),
            Step::Quad(edge, far),
            Step::Curve(far, edge, edge),
            Step::Curve(edge, far, edge),
            Step::Curve(edge, edge, far),
        ] {
            let mut path = steps();
            path.push(step);
            assert!(!is_tame(&Some(path)));
        }
    }
    let long = |n: usize| Some((0..n).map(|_| Step::Line(edge)).collect());
    assert!(is_tame(&long(4096)));
    assert!(!is_tame(&long(4097)));
}
