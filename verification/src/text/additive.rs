//! Lines of text that are added to a buffer and taken away again by wrapping arithmetic, and lines on
//! plain bytes.
use crate::canvas;
use crate::coord::{self, Coord};
use crate::text::{self, BoxMask, GlyphImage};
use vstd::prelude::*;

verus! {

/// The buffer after the first `n` glyphs of a line were added to it or taken away.
pub open spec fn with_added(
    pixels: Seq<u32>,
    w: int,
    line: Seq<GlyphImage>,
    colour: u32,
    add_mode: bool,
    n: int,
) -> Seq<u32>
    decreases n,
{
    if n <= 0 {
        pixels
    } else {
        text::with_additive(
            with_added(pixels, w, line, colour, add_mode, n - 1),
            w,
            &line[n - 1],
            colour,
            add_mode,
        )
    }
}

/// Adds a line to the buffer, or takes it away.
pub fn add_glyphs(
    pixels: &mut [u32],
    width: usize,
    line: &[GlyphImage],
    colour: u32,
    add_mode: bool,
)
    requires
        forall|i: int| 0 <= i < line@.len() ==> (#[trigger] line@[i]).wf(),
    ensures
        final(pixels)@ == with_added(
            old(pixels)@,
            width as int,
            line@,
            colour,
            add_mode,
            line@.len() as int,
        ),
{
    let ghost before = pixels@;
    let mut i: usize = 0;
    while i < line.len()
        invariant
            0 <= i <= line@.len(),
            forall|i: int| 0 <= i < line@.len() ==> (#[trigger] line@[i]).wf(),
            pixels@ == with_added(before, width as int, line@, colour, add_mode, i as int),
        decreases line@.len() - i,
    {
        text::draw_glyph_additive(pixels, width, &line[i], colour, add_mode);
        i = i + 1;
    }
}

/// The buffer after the first `n` glyphs of a line, scaled by a mask, were added to it or taken away.
pub open spec fn with_masked(
    pixels: Seq<u32>,
    w: int,
    line: Seq<GlyphImage>,
    colour: u32,
    mask: Seq<u8>,
    add_mode: bool,
    n: int,
) -> Seq<u32>
    decreases n,
{
    if n <= 0 {
        pixels
    } else {
        text::with_masked_additive(
            with_masked(pixels, w, line, colour, mask, add_mode, n - 1),
            w,
            &line[n - 1],
            colour,
            mask,
            add_mode,
        )
    }
}

/// Adding glyphs under a mask keeps the size of the buffer.
proof fn lemma_masked_len(
    pixels: Seq<u32>,
    w: int,
    line: Seq<GlyphImage>,
    colour: u32,
    mask: Seq<u8>,
    add_mode: bool,
    n: int,
)
    ensures
        with_masked(pixels, w, line, colour, mask, add_mode, n).len() == pixels.len(),
    decreases n,
{
    if n > 0 {
        lemma_masked_len(pixels, w, line, colour, mask, add_mode, n - 1);
    }
}

/// Adds a line to the buffer, or takes it away, its coverage scaled by the mask.
pub fn add_masked_glyphs(
    pixels: &mut [u32],
    width: usize,
    line: &[GlyphImage],
    colour: u32,
    textbox_mask: &[u8],
    add_mode: bool,
)
    requires
        forall|i: int| 0 <= i < line@.len() ==> (#[trigger] line@[i]).wf(),
        width > 0,
        textbox_mask@.len() >= (old(pixels)@.len() / width as nat) * width,
    ensures
        final(pixels)@ == with_masked(
            old(pixels)@,
            width as int,
            line@,
            colour,
            textbox_mask@,
            add_mode,
            line@.len() as int,
        ),
{
    let ghost before = pixels@;
    let mut i: usize = 0;
    while i < line.len()
        invariant
            0 <= i <= line@.len(),
            width > 0,
            pixels@.len() == before.len(),
            textbox_mask@.len() >= (before.len() / width as nat) * width,
            forall|i: int| 0 <= i < line@.len() ==> (#[trigger] line@[i]).wf(),
            pixels@ == with_masked(
                before,
                width as int,
                line@,
                colour,
                textbox_mask@,
                add_mode,
                i as int,
            ),
        decreases line@.len() - i,
    {
        text::draw_glyph_masked_additive(pixels, width, &line[i], colour, textbox_mask, add_mode);
        i = i + 1;
    }
}

/// The bytes after the first `n` glyphs of a line were added, inside a masked box, or taken away.
pub open spec fn with_masked_bytes(
    bytes: Seq<u8>,
    w: int,
    h: int,
    line: Seq<GlyphImage>,
    colour: Seq<u8>,
    mask: &BoxMask,
    add_mode: bool,
    n: int,
) -> Seq<u8>
    decreases n,
{
    if n <= 0 {
        bytes
    } else {
        let before = with_masked_bytes(bytes, w, h, line, colour, mask, add_mode, n - 1);
        Seq::new(
            bytes.len(),
            |j: int|
                text::additive_byte(before[j], j, w, h, &line[n - 1], colour, mask, add_mode),
        )
    }
}

/// Adds a line to a buffer of four bytes to the pixel, or takes it away, inside a masked box.
pub fn add_masked_bytes(
    pixels: &mut [u8],
    width: u32,
    height: u32,
    line: &[GlyphImage],
    colour: [u8; 4],
    mask: &BoxMask,
    add_mode: bool,
)
    requires
        forall|i: int| 0 <= i < line@.len() ==> (#[trigger] line@[i]).wf(),
        4 * (width * height) <= old(pixels)@.len(),
        4 * width <= usize::MAX,
    ensures
        final(pixels)@ == with_masked_bytes(
            old(pixels)@,
            width as int,
            height as int,
            line@,
            colour@,
            mask,
            add_mode,
            line@.len() as int,
        ),
{
    let ghost before = pixels@;
    let mut i: usize = 0;
    while i < line.len()
        invariant
            0 <= i <= line@.len(),
            4 * (width * height) <= before.len(),
            4 * width <= usize::MAX,
            pixels@.len() == before.len(),
            forall|i: int| 0 <= i < line@.len() ==> (#[trigger] line@[i]).wf(),
            pixels@ == with_masked_bytes(
                before,
                width as int,
                height as int,
                line@,
                colour@,
                mask,
                add_mode,
                i as int,
            ),
        decreases line@.len() - i,
    {
        text::draw_glyph_masked_bytes(pixels, width, height, &line[i], colour, mask, add_mode);
        i = i + 1;
        proof {
            let after = pixels@;
            assert(after =~= with_masked_bytes(
                before,
                width as int,
                height as int,
                line@,
                colour@,
                mask,
                add_mode,
                i as int,
            ));
        }
    }
}

/// Every cell of the glyph that shows goes to a pixel of a buffer of `len` bytes.
pub open spec fn glyph_fits(
    g: &GlyphImage,
    w: int,
    channels: int,
    len: int,
    ax: int,
    ay: int,
    rotation: u16,
) -> bool {
    forall|k: int|
        0 <= k < g.coverage@.len() && #[trigger] g.coverage@[k] > 0 ==> text::cell_fits(
            g,
            k,
            w,
            channels,
            len,
            ax,
            ay,
            rotation,
        )
}

/// Every cell of the line that shows goes to a pixel of a buffer of `len` bytes.
pub open spec fn line_fits(
    line: Seq<GlyphImage>,
    w: int,
    channels: int,
    len: int,
    ax: int,
    ay: int,
    rotation: u16,
) -> bool {
    forall|i: int|
        0 <= i < line.len() ==> glyph_fits(
            &#[trigger] line[i],
            w,
            channels,
            len,
            ax,
            ay,
            rotation,
        )
}

/// The bytes after the first `n` glyphs of a line were drawn, turned about the anchor.
pub open spec fn with_line_bytes(
    bytes: Seq<u8>,
    w: int,
    line: Seq<GlyphImage>,
    colour: Seq<u8>,
    ax: int,
    ay: int,
    rotation: u16,
    n: int,
) -> Seq<u8>
    decreases n,
{
    if n <= 0 {
        bytes
    } else {
        text::with_glyph_bytes(
            with_line_bytes(bytes, w, line, colour, ax, ay, rotation, n - 1),
            w,
            &line[n - 1],
            colour,
            ax,
            ay,
            rotation,
            line[n - 1].coverage@.len() as int,
        )
    }
}

/// Drawing a glyph keeps the number of bytes.
proof fn lemma_bytes_len(
    bytes: Seq<u8>,
    w: int,
    g: &GlyphImage,
    colour: Seq<u8>,
    ax: int,
    ay: int,
    rotation: u16,
    n: int,
)
    ensures
        text::with_glyph_bytes(bytes, w, g, colour, ax, ay, rotation, n).len() == bytes.len(),
    decreases n,
{
    if n > 0 {
        lemma_bytes_len(bytes, w, g, colour, ax, ay, rotation, n - 1);
    }
}

/// The first byte behind a pixel lies inside the buffer where the pixel's number is below the number of
/// whole pixels.
proof fn lemma_whole_pixels(place: int, channels: int, len: int)
    requires
        channels > 0,
        len >= 0,
    ensures
        place * channels + channels <= len <==> place < len / channels,
{
    let q = len / channels;
    vstd::arithmetic::div_mod::lemma_fundamental_div_mod(len, channels);
    if place < q {
        assert((place + 1) * channels <= q * channels) by (nonlinear_arith)
            requires
                place + 1 <= q,
                channels > 0,
        ;
    } else {
        assert((place + 1) * channels >= (q + 1) * channels) by (nonlinear_arith)
            requires
                place >= q,
                channels > 0,
        ;
        assert((q + 1) * channels == q * channels + channels) by (nonlinear_arith);
    }
    assert((place + 1) * channels == place * channels + channels) by (nonlinear_arith);
    assert(q * channels == channels * q) by (nonlinear_arith);
}

/// Whether every cell of the glyph that shows goes to a pixel of the buffer.
fn test_glyph(
    g: &GlyphImage,
    width: u32,
    channels: usize,
    len: usize,
    ax: Coord,
    ay: Coord,
    rotation: u16,
) -> (fits: bool)
    requires
        g.wf(),
        coord::in_range(ax as int),
        coord::in_range(ay as int),
    ensures
        fits == glyph_fits(
            g,
            width as int,
            channels as int,
            len as int,
            ax as int,
            ay as int,
            rotation,
        ),
{
    let cells: usize = g.coverage.len();
    let mut k: usize = 0;
    while k < cells
        invariant
            0 <= k <= cells,
            cells == g.coverage@.len(),
            g.wf(),
            coord::in_range(ax as int),
            coord::in_range(ay as int),
            forall|j: int|
                0 <= j < k && #[trigger] g.coverage@[j] > 0 ==> text::cell_fits(
                    g,
                    j,
                    width as int,
                    channels as int,
                    len as int,
                    ax as int,
                    ay as int,
                    rotation,
                ),
        decreases cells - k,
    {
        if g.coverage[k] > 0 {
            proof {
                text::lemma_cell_of(k as int, g.w as int, g.h as int);
            }
            let cx: usize = k % g.w;
            let cy: usize = k / g.w;
            let (fx, fy) = text::rotate_cell(
                (g.x as i64 + cx as i64) as i32,
                (g.y as i64 + cy as i64) as i32,
                ax,
                ay,
                rotation,
            );
            let at: i128 = if fx >= 0 && fy >= 0 {
                proof {
                    assert(0 <= fy * width <= 0x4_0000_0000 * 0xFFFF_FFFF) by (nonlinear_arith)
                        requires
                            0 <= fy <= 0x4_0000_0000,
                            0 <= width <= 0xFFFF_FFFF,
                    ;
                }
                fy * width as i128 + fx
            } else {
                -1
            };
            proof {
                if channels > 0 {
                    lemma_whole_pixels(at as int, channels as int, len as int);
                } else {
                    assert(at * channels == 0) by (nonlinear_arith)
                        requires
                            channels == 0,
                    ;
                }
            }
            if at < 0 || channels > 0 && at >= (len / channels) as i128 {
                assert(g.coverage@[k as int] > 0);
                return false;
            }
        }
        k = k + 1;
    }
    true
}

/// Whether every cell of the line that shows goes to a pixel of a buffer of `len` bytes, with
/// `channels` of them to the pixel.
pub fn test_line(
    line: &[GlyphImage],
    width: u32,
    channels: usize,
    len: usize,
    anchor_x: Coord,
    anchor_y: Coord,
    rotation: u16,
) -> (fits: bool)
    requires
        forall|i: int| 0 <= i < line@.len() ==> (#[trigger] line@[i]).wf(),
        coord::in_range(anchor_x as int),
        coord::in_range(anchor_y as int),
    ensures
        fits == line_fits(
            line@,
            width as int,
            channels as int,
            len as int,
            anchor_x as int,
            anchor_y as int,
            rotation,
        ),
{
    let mut i: usize = 0;
    while i < line.len()
        invariant
            0 <= i <= line@.len(),
            forall|i: int| 0 <= i < line@.len() ==> (#[trigger] line@[i]).wf(),
            coord::in_range(anchor_x as int),
            coord::in_range(anchor_y as int),
            forall|j: int|
                0 <= j < i ==> glyph_fits(
                    &#[trigger] line@[j],
                    width as int,
                    channels as int,
                    len as int,
                    anchor_x as int,
                    anchor_y as int,
                    rotation,
                ),
        decreases line@.len() - i,
    {
        if !test_glyph(&line[i], width, channels, len, anchor_x, anchor_y, rotation) {
            return false;
        }
        i = i + 1;
    }
    true
}

/// Draws a line on a buffer with as many bytes to the pixel as `colour` has, turned about the anchor.
pub fn draw_line_bytes(
    pixels: &mut [u8],
    width: u32,
    line: &[GlyphImage],
    colour: &Vec<u8>,
    anchor_x: Coord,
    anchor_y: Coord,
    rotation: u16,
)
    requires
        forall|i: int| 0 <= i < line@.len() ==> (#[trigger] line@[i]).wf(),
        coord::in_range(anchor_x as int),
        coord::in_range(anchor_y as int),
        line_fits(
            line@,
            width as int,
            colour@.len() as int,
            old(pixels)@.len() as int,
            anchor_x as int,
            anchor_y as int,
            rotation,
        ),
    ensures
        final(pixels)@ == with_line_bytes(
            old(pixels)@,
            width as int,
            line@,
            colour@,
            anchor_x as int,
            anchor_y as int,
            rotation,
            line@.len() as int,
        ),
{
    let ghost before = pixels@;
    let mut i: usize = 0;
    while i < line.len()
        invariant
            0 <= i <= line@.len(),
            pixels@.len() == before.len(),
            forall|i: int| 0 <= i < line@.len() ==> (#[trigger] line@[i]).wf(),
            coord::in_range(anchor_x as int),
            coord::in_range(anchor_y as int),
            line_fits(
                line@,
                width as int,
                colour@.len() as int,
                before.len() as int,
                anchor_x as int,
                anchor_y as int,
                rotation,
            ),
            pixels@ == with_line_bytes(
                before,
                width as int,
                line@,
                colour@,
                anchor_x as int,
                anchor_y as int,
                rotation,
                i as int,
            ),
        decreases line@.len() - i,
    {
        let ghost now = pixels@;
        assert(glyph_fits(
            &line@[i as int],
            width as int,
            colour@.len() as int,
            before.len() as int,
            anchor_x as int,
            anchor_y as int,
            rotation,
        ));
        text::draw_glyph_bytes(pixels, width, &line[i], colour, anchor_x, anchor_y, rotation);
        proof {
            lemma_bytes_len(
                now,
                width as int,
                &line@[i as int],
                colour@,
                anchor_x as int,
                anchor_y as int,
                rotation,
                line@[i as int].coverage@.len() as int,
            );
        }
        i = i + 1;
    }
}

/// What the first `n` glyphs of a line add to pixel `i`.
spec fn sum_at(line: Seq<GlyphImage>, w: int, colour: u32, i: int, n: int) -> int
    decreases n,
{
    if n <= 0 {
        0
    } else {
        let a = line[n - 1].at(canvas::col_of(i, w), canvas::row_of(i, w));
        sum_at(line, w, colour, i, n - 1) + (if w > 0 && a > 0 {
            text::contribution(colour, a) as int
        } else {
            0
        })
    }
}

/// Glyphs add up, modulo the range of a pixel.
proof fn lemma_sum(
    pixels: Seq<u32>,
    w: int,
    line: Seq<GlyphImage>,
    colour: u32,
    add_mode: bool,
    i: int,
    n: int,
)
    requires
        0 <= i < pixels.len(),
    ensures
        with_added(pixels, w, line, colour, add_mode, n).len() == pixels.len(),
        with_added(pixels, w, line, colour, add_mode, n)[i] == (if add_mode {
            (pixels[i] + sum_at(line, w, colour, i, n)) % 0x1_0000_0000
        } else {
            (pixels[i] - sum_at(line, w, colour, i, n)) % 0x1_0000_0000
        }),
    decreases n,
{
    if n > 0 {
        lemma_sum(pixels, w, line, colour, add_mode, i, n - 1);
    }
}

/// Two lines put the same coverage on every pixel.
pub open spec fn same_ink(a: Seq<GlyphImage>, b: Seq<GlyphImage>) -> bool {
    &&& a.len() == b.len()
    &&& forall|i: int, x: int, y: int|
        0 <= i < a.len() ==> #[trigger] a[i].at(x, y) == b[i].at(x, y)
}

/// Lines of the same ink add the same.
proof fn lemma_same_sum(
    a: Seq<GlyphImage>,
    b: Seq<GlyphImage>,
    w: int,
    colour: u32,
    i: int,
    n: int,
)
    requires
        same_ink(a, b),
        n <= a.len(),
    ensures
        sum_at(a, w, colour, i, n) == sum_at(b, w, colour, i, n),
    decreases n,
{
    if n > 0 {
        lemma_same_sum(a, b, w, colour, i, n - 1);
        assert(a[n - 1].at(canvas::col_of(i, w), canvas::row_of(i, w)) == b[n - 1].at(
            canvas::col_of(i, w),
            canvas::row_of(i, w),
        ));
    }
}

/// Taking a line away undoes adding a line of the same ink, and adding it undoes taking it away.
pub proof fn law_added_line_is_reversible(
    pixels: Seq<u32>,
    w: int,
    line: Seq<GlyphImage>,
    again: Seq<GlyphImage>,
    colour: u32,
    add_mode: bool,
)
    requires
        same_ink(line, again),
    ensures
        with_added(
            with_added(pixels, w, line, colour, add_mode, line.len() as int),
            w,
            again,
            colour,
            !add_mode,
            again.len() as int,
        ) == pixels,
{
    let n = line.len() as int;
    let there = with_added(pixels, w, line, colour, add_mode, n);
    let back = with_added(there, w, again, colour, !add_mode, n);
    lemma_added_len(pixels, w, line, colour, add_mode, n);
    lemma_added_len(there, w, again, colour, !add_mode, n);
    assert forall|i: int| 0 <= i < pixels.len() implies back[i] == pixels[i] by {
        lemma_sum(pixels, w, line, colour, add_mode, i, n);
        lemma_sum(there, w, again, colour, !add_mode, i, n);
        lemma_same_sum(line, again, w, colour, i, n);
    }
    assert(back =~= pixels);
}

/// Adding glyphs keeps the size of the buffer.
proof fn lemma_added_len(
    pixels: Seq<u32>,
    w: int,
    line: Seq<GlyphImage>,
    colour: u32,
    add_mode: bool,
    n: int,
)
    ensures
        with_added(pixels, w, line, colour, add_mode, n).len() == pixels.len(),
    decreases n,
{
    if n > 0 {
        lemma_added_len(pixels, w, line, colour, add_mode, n - 1);
    }
}

/// What the first `n` glyphs of a line add to pixel `i` under a mask value, if the pixel is drawn on.
spec fn masked_sum_at(
    line: Seq<GlyphImage>,
    w: int,
    colour: u32,
    drawn: bool,
    m: u8,
    i: int,
    n: int,
) -> int
    decreases n,
{
    if n <= 0 || !drawn {
        0
    } else {
        let a = line[n - 1].at(canvas::col_of(i, w), canvas::row_of(i, w));
        masked_sum_at(line, w, colour, drawn, m, i, n - 1) + text::contribution(
            colour,
            text::glyph_weight(a, Some(m)),
        )
    }
}

/// No coverage adds nothing.
proof fn lemma_no_ink(colour: u32, m: u8)
    ensures
        text::contribution(colour, text::glyph_weight(0, Some(m))) == 0,
{
    assert(0int * m == 0);
    assert(0int / 256 == 0);
    let a = text::glyph_weight(0, Some(m));
    assert(a == 0);
    assert(crate::pixel::red(colour) * a == 0 && crate::pixel::green(colour) * a == 0
        && crate::pixel::blue(colour) * a == 0) by (nonlinear_arith)
        requires
            a == 0,
    ;
    assert(crate::pixel::argb(0, 0, 0, 0) == 0) by {
        assert((0u32 << 24) | (0u32 << 16) | (0u32 << 8) | 0u32 == 0) by (bit_vector);
    }
}

/// One more contribution on top of a sum, modulo the range of a pixel.
proof fn lemma_toggle(base: int, s: int, now: u32, c: u32, add_mode: bool)
    requires
        now == (if add_mode {
            (base + s) % 0x1_0000_0000
        } else {
            (base - s) % 0x1_0000_0000
        }),
    ensures
        text::toggled(now, c, add_mode) == (if add_mode {
            (base + (s + c)) % 0x1_0000_0000
        } else {
            (base - (s + c)) % 0x1_0000_0000
        }),
{
}

/// Masked glyphs add up, modulo the range of a pixel.
proof fn lemma_masked_sum(
    pixels: Seq<u32>,
    w: int,
    line: Seq<GlyphImage>,
    colour: u32,
    mask: Seq<u8>,
    add_mode: bool,
    i: int,
    n: int,
)
    requires
        0 <= i < pixels.len(),
    ensures
        ({
            let drawn = canvas::row_of(i, w) < (pixels.len() as int) / w;
            let after = with_masked(pixels, w, line, colour, mask, add_mode, n);
            let s = masked_sum_at(line, w, colour, drawn, mask[i], i, n);
            &&& after.len() == pixels.len()
            &&& after[i] == (if add_mode {
                (pixels[i] + s) % 0x1_0000_0000
            } else {
                (pixels[i] - s) % 0x1_0000_0000
            })
        }),
    decreases n,
{
    if n > 0 {
        lemma_masked_sum(pixels, w, line, colour, mask, add_mode, i, n - 1);
        lemma_no_ink(colour, mask[i]);
        let drawn = canvas::row_of(i, w) < (pixels.len() as int) / w;
        let before = with_masked(pixels, w, line, colour, mask, add_mode, n - 1);
        let a = line[n - 1].at(canvas::col_of(i, w), canvas::row_of(i, w));
        let c = text::contribution(colour, text::glyph_weight(a, Some(mask[i])));
        let s = masked_sum_at(line, w, colour, drawn, mask[i], i, n - 1);
        lemma_toggle(pixels[i] as int, s, before[i], c, add_mode);
    }
}

/// Lines of the same ink add the same under a mask.
proof fn lemma_same_masked_sum(
    a: Seq<GlyphImage>,
    b: Seq<GlyphImage>,
    w: int,
    colour: u32,
    drawn: bool,
    m: u8,
    i: int,
    n: int,
)
    requires
        same_ink(a, b),
        n <= a.len(),
    ensures
        masked_sum_at(a, w, colour, drawn, m, i, n) == masked_sum_at(b, w, colour, drawn, m, i, n),
    decreases n,
{
    if n > 0 {
        lemma_same_masked_sum(a, b, w, colour, drawn, m, i, n - 1);
        assert(a[n - 1].at(canvas::col_of(i, w), canvas::row_of(i, w)) == b[n - 1].at(
            canvas::col_of(i, w),
            canvas::row_of(i, w),
        ));
    }
}

/// Under a mask too, taking a line away undoes adding a line of the same ink, and the other way round.
pub proof fn law_masked_line_is_reversible(
    pixels: Seq<u32>,
    w: int,
    line: Seq<GlyphImage>,
    again: Seq<GlyphImage>,
    colour: u32,
    mask: Seq<u8>,
    add_mode: bool,
)
    requires
        same_ink(line, again),
    ensures
        with_masked(
            with_masked(pixels, w, line, colour, mask, add_mode, line.len() as int),
            w,
            again,
            colour,
            mask,
            !add_mode,
            again.len() as int,
        ) == pixels,
{
    let n = line.len() as int;
    let there = with_masked(pixels, w, line, colour, mask, add_mode, n);
    let back = with_masked(there, w, again, colour, mask, !add_mode, n);
    lemma_masked_len(pixels, w, line, colour, mask, add_mode, n);
    lemma_masked_len(there, w, again, colour, mask, !add_mode, n);
    assert forall|i: int| 0 <= i < pixels.len() implies back[i] == pixels[i] by {
        let drawn = canvas::row_of(i, w) < (pixels.len() as int) / w;
        lemma_masked_sum(pixels, w, line, colour, mask, add_mode, i, n);
        lemma_masked_sum(there, w, again, colour, mask, !add_mode, i, n);
        lemma_same_masked_sum(line, again, w, colour, drawn, mask[i], i, n);
    }
    assert(back =~= pixels);
}

/// What one glyph adds to byte `j`.
spec fn byte_term(
    j: int,
    w: int,
    h: int,
    g: &GlyphImage,
    colour: Seq<u8>,
    mask: &BoxMask,
) -> int {
    let x = canvas::col_of(j, 4 * w) / 4;
    let c = canvas::col_of(j, 4 * w) % 4;
    let y = canvas::row_of(j, 4 * w);
    if w > 0 && y < h && c < 3 && g.at(x, y) > 0 && mask.at(x, y) > 0 {
        let a = (g.at(x, y) * mask.at(x, y)) / 256;
        ((colour[c] * a) / 256) as u8 as int
    } else {
        0
    }
}

/// What the first `n` glyphs of a line add to byte `j`.
spec fn byte_sum(
    j: int,
    w: int,
    h: int,
    line: Seq<GlyphImage>,
    colour: Seq<u8>,
    mask: &BoxMask,
    n: int,
) -> int
    decreases n,
{
    if n <= 0 {
        0
    } else {
        byte_sum(j, w, h, line, colour, mask, n - 1) + byte_term(
            j,
            w,
            h,
            &line[n - 1],
            colour,
            mask,
        )
    }
}

/// Glyphs add up, modulo the range of a byte.
proof fn lemma_byte_sum(
    bytes: Seq<u8>,
    w: int,
    h: int,
    line: Seq<GlyphImage>,
    colour: Seq<u8>,
    mask: &BoxMask,
    add_mode: bool,
    j: int,
    n: int,
)
    requires
        0 <= j < bytes.len(),
    ensures
        ({
            let after = with_masked_bytes(bytes, w, h, line, colour, mask, add_mode, n);
            let s = byte_sum(j, w, h, line, colour, mask, n);
            &&& after.len() == bytes.len()
            &&& after[j] == (if add_mode {
                (bytes[j] + s) % 0x100
            } else {
                (bytes[j] - s) % 0x100
            })
        }),
    decreases n,
{
    if n > 0 {
        lemma_byte_sum(bytes, w, h, line, colour, mask, add_mode, j, n - 1);
    }
}

/// Lines of the same ink add the same to a byte.
proof fn lemma_same_byte_sum(
    a: Seq<GlyphImage>,
    b: Seq<GlyphImage>,
    w: int,
    h: int,
    colour: Seq<u8>,
    mask: &BoxMask,
    j: int,
    n: int,
)
    requires
        same_ink(a, b),
        n <= a.len(),
    ensures
        byte_sum(j, w, h, a, colour, mask, n) == byte_sum(j, w, h, b, colour, mask, n),
    decreases n,
{
    if n > 0 {
        lemma_same_byte_sum(a, b, w, h, colour, mask, j, n - 1);
        let x = canvas::col_of(j, 4 * w) / 4;
        let y = canvas::row_of(j, 4 * w);
        assert(a[n - 1].at(x, y) == b[n - 1].at(x, y));
    }
}

/// On bytes too, taking a line away undoes adding a line of the same ink, and the other way round.
pub proof fn law_masked_bytes_are_reversible(
    bytes: Seq<u8>,
    w: int,
    h: int,
    line: Seq<GlyphImage>,
    again: Seq<GlyphImage>,
    colour: Seq<u8>,
    mask: &BoxMask,
    add_mode: bool,
)
    requires
        same_ink(line, again),
    ensures
        with_masked_bytes(
            with_masked_bytes(bytes, w, h, line, colour, mask, add_mode, line.len() as int),
            w,
            h,
            again,
            colour,
            mask,
            !add_mode,
            again.len() as int,
        ) == bytes,
{
    let n = line.len() as int;
    let there = with_masked_bytes(bytes, w, h, line, colour, mask, add_mode, n);
    let back = with_masked_bytes(there, w, h, again, colour, mask, !add_mode, n);
    assert(there.len() == bytes.len());
    assert(back.len() == bytes.len());
    assert forall|j: int| 0 <= j < bytes.len() implies back[j] == bytes[j] by {
        lemma_byte_sum(bytes, w, h, line, colour, mask, add_mode, j, n);
        lemma_byte_sum(there, w, h, again, colour, mask, !add_mode, j, n);
        lemma_same_byte_sum(line, again, w, h, colour, mask, j, n);
    }
    assert(back =~= bytes);
}

} // verus!
