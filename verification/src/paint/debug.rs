//! Diagnostics: counters of the render loop, the strip that shows them, and the panel of shortcuts.
//!
//! Times are nanoseconds. Glyphs are shaped elsewhere and come placed on the canvas.
use crate::canvas::Canvas;
use crate::coord::{self, Coord, Ratio, PX, RU_ONE};
use crate::paint::clip::Clip;
use crate::paint::figure::{self, Figure};
use crate::pixel;
use crate::text::{self, GlyphImage};
use vstd::prelude::*;

verus! {

/// The height of the diagnostic strip in pixels.
pub const DEBUG_STRIP_H: usize = 24;

/// The colour of the text on the strip: bright green.
pub const STRIP_TEXT: u32 = 0xFFAF_0087;

/// The colour of the strip: black, a little translucent.
pub const STRIP_FILL: u32 = 0xE0FF_FFFF;

/// The colour of the panel's title: white.
pub const PANEL_TITLE: u32 = 0xFF00_0000;

/// The colour of the panel's lines: light grey.
pub const PANEL_TEXT: u32 = 0xFF23_2323;

/// The colour of the panel: black, translucent.
pub const PANEL_FILL: u32 = 0xD8FF_FFFF;

/// Counters of the render loop.
#[derive(Clone, Copy, Debug, PartialEq, Eq, Structural)]
pub struct DebugStats {
    /// How long each stage of the last rasterisation took.
    pub app_ns: u64,
    pub fill_ns: u64,
    pub finalize_ns: u64,
    pub shadow_ns: u64,
    /// Frames that were presented, wrapping.
    pub frame_count: u64,
    /// Frames that were rasterised, wrapping.
    pub rasterize_count: u64,
    /// The part of the area that the last rasterisation touched.
    pub last_rasterize_pct: Ratio,
    /// The part of the viewport that the last frame repainted.
    pub last_damage_pct: Ratio,
}

impl DebugStats {
    /// Counters at zero.
    pub fn new() -> (s: DebugStats)
        ensures
            s == (DebugStats {
                app_ns: 0,
                fill_ns: 0,
                finalize_ns: 0,
                shadow_ns: 0,
                frame_count: 0,
                rasterize_count: 0,
                last_rasterize_pct: 0,
                last_damage_pct: 0,
            }),
    {
        DebugStats {
            app_ns: 0,
            fill_ns: 0,
            finalize_ns: 0,
            shadow_ns: 0,
            frame_count: 0,
            rasterize_count: 0,
            last_rasterize_pct: 0,
            last_damage_pct: 0,
        }
    }

    /// Counts a frame that was presented.
    pub fn record_present(&mut self, damage_pct: Ratio)
        ensures
            *final(self) == (DebugStats {
                frame_count: old(self).frame_count.wrapping_add(1),
                last_damage_pct: damage_pct,
                ..*old(self)
            }),
    {
        self.frame_count = self.frame_count.wrapping_add(1);
        self.last_damage_pct = damage_pct;
    }

    /// Counts a rasterisation and notes how long its stages took.
    pub fn record_rasterize(
        &mut self,
        app: u64,
        fill: u64,
        finalize: u64,
        shadow: u64,
        pct: Ratio,
    )
        ensures
            *final(self) == (DebugStats {
                app_ns: app,
                fill_ns: fill,
                finalize_ns: finalize,
                shadow_ns: shadow,
                rasterize_count: old(self).rasterize_count.wrapping_add(1),
                last_rasterize_pct: pct,
                ..*old(self)
            }),
    {
        self.app_ns = app;
        self.fill_ns = fill;
        self.finalize_ns = finalize;
        self.shadow_ns = shadow;
        self.rasterize_count = self.rasterize_count.wrapping_add(1);
        self.last_rasterize_pct = pct;
    }

    /// Counts a frame that was rasterised as a whole and presented.
    pub fn record_frame(&mut self, app: u64, fill: u64, finalize: u64, shadow: u64)
        ensures
            *final(self) == (DebugStats {
                app_ns: app,
                fill_ns: fill,
                finalize_ns: finalize,
                shadow_ns: shadow,
                frame_count: old(self).frame_count.wrapping_add(1),
                rasterize_count: old(self).rasterize_count.wrapping_add(1),
                last_rasterize_pct: RU_ONE,
                last_damage_pct: RU_ONE,
            }),
    {
        self.record_rasterize(app, fill, finalize, shadow, RU_ONE);
        self.record_present(RU_ONE);
    }

    /// How long all stages of the last rasterisation took.
    pub fn total_ns(&self) -> (t: u128)
        ensures
            t == self.app_ns + self.fill_ns + self.finalize_ns + self.shadow_ns,
    {
        self.app_ns as u128 + self.fill_ns as u128 + self.finalize_ns as u128
            + self.shadow_ns as u128
    }
}

/// The bar of the diagnostic strip.
pub open spec fn strip_bar(width: int, strip_y: int) -> Figure {
    figure::rect_figure(
        coord::truncated(width * PX, 2),
        strip_y * PX + 12 * PX,
        width * PX,
        24 * PX,
        STRIP_FILL,
    )
}

/// Draws the diagnostic strip: the glyphs of its text, and the bar under them. Draws nothing where the
/// strip does not fit.
pub fn draw_debug_strip(canvas: &mut Canvas, glyphs: &[GlyphImage], strip_y: usize)
    requires
        old(canvas).fits(),
        old(canvas).width <= 0x1000_0000,
        old(canvas).height <= 0x1000_0000,
        strip_y <= 0x1000_0000,
        forall|i: int| 0 <= i < glyphs@.len() ==> (#[trigger] glyphs@[i]).wf(),
    ensures
        ({
            let w = old(canvas).width;
            let h = old(canvas).height;
            let c = Clip::whole(w, h);
            let bar = strip_bar(w as int, strip_y as int);
            if w == 0 || h < strip_y + DEBUG_STRIP_H {
                &&& final(canvas).pixels@ == old(canvas).pixels@
                &&& final(canvas).damage.rect() == old(canvas).damage.rect()
            } else {
                &&& final(canvas).pixels@ == bar.over(
                    text::with_glyphs(
                        old(canvas).pixels@,
                        w as int,
                        glyphs@,
                        STRIP_TEXT,
                        c,
                        None,
                        glyphs@.len() as int,
                    ),
                    w,
                    h,
                    STRIP_FILL,
                    c,
                )
                &&& final(canvas).damage.rect() == bar.damage(
                    old(canvas).damage.rect(),
                    w,
                    h,
                    c,
                )
            }
        }),
        final(canvas).width == old(canvas).width,
        final(canvas).height == old(canvas).height,
        final(final(canvas).pixels)@ == final(old(canvas).pixels)@,
        *final(final(canvas).damage) == *final(old(canvas).damage),
{
    let w: usize = canvas.width;
    let h: usize = canvas.height;
    if w == 0 || h < strip_y + DEBUG_STRIP_H {
        return;
    }
    let ghost before = canvas.pixels@;
    text::draw_glyphs(canvas.pixels, w, h, glyphs, STRIP_TEXT, None, None);
    proof {
        text::lemma_glyphs_len(
            before,
            w as int,
            glyphs@,
            STRIP_TEXT,
            Clip::whole(w, h),
            None,
            glyphs@.len() as int,
        );
    }
    let wide: Coord = w as i64 * 0x1_0000;
    let cy: Coord = strip_y as i64 * 0x1_0000 + 0xC_0000;
    figure::draw_rect(canvas, coord::half(wide), cy, wide, 0x18_0000, STRIP_FILL, None);
}

/// The layout of the panel of shortcuts. Everything follows from the span of the viewport.
#[derive(Clone, Copy, Debug, PartialEq, Eq, Structural)]
pub struct PanelLayout {
    pub font_size: Coord,
    pub header_size: Coord,
    pub cx: Coord,
    pub cy: Coord,
    pub width: Coord,
    pub height: Coord,
    pub line_h: Coord,
    /// The row of the middle of the title.
    pub title_y: Coord,
    /// The row of the middle of the first line; each further one is `line_h` lower.
    pub first_y: Coord,
}

/// The font size of the panel.
pub open spec fn panel_font(span: int) -> int {
    coord::truncated(span * 7, 500)
}

/// The layout of the panel for `n` shortcuts on a `w` by `h` canvas.
pub open spec fn panel_layout(span: int, n: int, w: int, h: int) -> PanelLayout {
    let font = panel_font(span);
    let header = coord::truncated(font * 59, 50);
    let line_h = coord::truncated(font * 31, 20);
    let pad = coord::truncated(font * 5, 4);
    let height = coord::truncated((2 * n + 3) * line_h, 2) + 2 * pad;
    let natural = coord::truncated(span * 9, 20);
    let cy = coord::truncated(h * PX * 2, 5);
    let top = cy - coord::truncated(height, 2);
    PanelLayout {
        font_size: font as Coord,
        header_size: header as Coord,
        cx: coord::truncated(w * PX, 2) as Coord,
        cy: cy as Coord,
        width: crate::paint::clip::clamp_int(natural, font * 22, font * 36) as Coord,
        height: height as Coord,
        line_h: line_h as Coord,
        title_y: (top + pad + coord::truncated(header, 2)) as Coord,
        first_y: (top + pad + header + coord::truncated(line_h, 2) + coord::truncated(font, 2))
            as Coord,
    }
}

/// The panel shows: there are shortcuts, and the canvas is large enough.
pub open spec fn panel_shows(n: int, w: int, h: int) -> bool {
    n > 0 && w >= 200 && h >= 120
}

/// A span, a number of shortcuts and a canvas that a panel can be laid out for.
pub open spec fn panel_ok(span: int, n: int, w: int, h: int) -> bool {
    0 <= span <= 0x100_0000_0000 && 0 <= n && span * (n + 4) <= 0x4_0000_0000_0000 && w
        <= 0x1000_0000 && h <= 0x1000_0000
}

/// The layout of the panel.
pub fn chord_panel(span: Coord, n: usize, w: usize, h: usize) -> (p: PanelLayout)
    requires
        panel_ok(span as int, n as int, w as int, h as int),
    ensures
        p == panel_layout(span as int, n as int, w as int, h as int),
        0 <= p.width <= 0x2000_0000_0000,
        0 <= p.height <= 0x2000_0000_0000,
        0 <= p.cx <= 0x1000_0000_0000,
        0 <= p.cy <= 0x1000_0000_0000,
{
    let font: Coord = coord::truncate(span as i128 * 7, 500) as i64;
    let header: Coord = coord::truncate(font as i128 * 59, 50) as i64;
    let line_h: Coord = coord::truncate(font as i128 * 31, 20) as i64;
    let pad: Coord = coord::truncate(font as i128 * 5, 4) as i64;
    proof {
        assert(10000 * line_h <= 217 * span);
        assert(0 <= 10000 * ((2 * n + 3) * line_h) <= 434 * (span * (n + 4))) by (nonlinear_arith)
            requires
                0 <= n,
                0 <= 10000 * line_h <= 217 * span,
        ;
    }
    let height: Coord = coord::truncate((2 * n as i128 + 3) * line_h as i128, 2) as i64 + 2 * pad;
    let natural: Coord = coord::truncate(span as i128 * 9, 20) as i64;
    let least: Coord = font * 22;
    let most: Coord = font * 36;
    let width: Coord = if natural < least {
        least
    } else if natural > most {
        most
    } else {
        natural
    };
    let cx: Coord = coord::half(w as i64 * 0x1_0000);
    let cy: Coord = coord::truncate(h as i128 * 0x1_0000 * 2, 5) as i64;
    let top: Coord = cy - coord::half(height);
    PanelLayout {
        font_size: font,
        header_size: header,
        cx,
        cy,
        width,
        height,
        line_h,
        title_y: top + pad + coord::half(header),
        first_y: top + pad + header + coord::half(line_h) + coord::half(font),
    }
}

/// The buffer after the first `n` lines of the panel were drawn on it.
pub open spec fn with_panel_lines(
    pixels: Seq<u32>,
    w: int,
    lines: Seq<Vec<GlyphImage>>,
    c: Clip,
    n: int,
) -> Seq<u32>
    decreases n,
{
    if n <= 0 {
        pixels
    } else {
        text::with_glyphs(
            with_panel_lines(pixels, w, lines, c, n - 1),
            w,
            lines[n - 1]@,
            PANEL_TEXT,
            c,
            None,
            lines[n - 1]@.len() as int,
        )
    }
}

/// The rectangle of the panel.
pub open spec fn panel_figure(p: PanelLayout) -> Figure {
    figure::rect_figure(
        p.cx as int,
        p.cy as int,
        p.width as int,
        p.height as int,
        PANEL_FILL,
    )
}

/// Draws the panel of shortcuts: the glyphs of its title and of one line for each shortcut, and the
/// panel under them. Draws nothing where there are no shortcuts or the canvas is too small.
pub fn draw_chord_hint(
    canvas: &mut Canvas,
    title: &[GlyphImage],
    lines: &[Vec<GlyphImage>],
    span: Coord,
)
    requires
        old(canvas).fits(),
        panel_ok(
            span as int,
            lines@.len() as int,
            old(canvas).width as int,
            old(canvas).height as int,
        ),
        forall|i: int| 0 <= i < title@.len() ==> (#[trigger] title@[i]).wf(),
        forall|i: int, j: int|
            0 <= i < lines@.len() && 0 <= j < lines@[i]@.len() ==> (#[trigger] lines@[i]@[j]).wf(),
    ensures
        ({
            let w = old(canvas).width;
            let h = old(canvas).height;
            let c = Clip::whole(w, h);
            let n = lines@.len() as int;
            let f = panel_figure(panel_layout(span as int, n, w as int, h as int));
            if panel_shows(n, w as int, h as int) {
                &&& final(canvas).pixels@ == f.over(
                    with_panel_lines(
                        text::with_glyphs(
                            old(canvas).pixels@,
                            w as int,
                            title@,
                            PANEL_TITLE,
                            c,
                            None,
                            title@.len() as int,
                        ),
                        w as int,
                        lines@,
                        c,
                        n,
                    ),
                    w,
                    h,
                    PANEL_FILL,
                    c,
                )
                &&& final(canvas).damage.rect() == f.damage(old(canvas).damage.rect(), w, h, c)
            } else {
                &&& final(canvas).pixels@ == old(canvas).pixels@
                &&& final(canvas).damage.rect() == old(canvas).damage.rect()
            }
        }),
        final(canvas).width == old(canvas).width,
        final(canvas).height == old(canvas).height,
        final(final(canvas).pixels)@ == final(old(canvas).pixels)@,
        *final(final(canvas).damage) == *final(old(canvas).damage),
{
    let w: usize = canvas.width;
    let h: usize = canvas.height;
    let n: usize = lines.len();
    if n == 0 || w < 200 || h < 120 {
        return;
    }
    let p = chord_panel(span, n, w, h);
    let ghost before = canvas.pixels@;
    let ghost c = Clip::whole(w, h);
    text::draw_glyphs(canvas.pixels, w, h, title, PANEL_TITLE, None, None);
    proof {
        text::lemma_glyphs_len(
            before,
            w as int,
            title@,
            PANEL_TITLE,
            c,
            None,
            title@.len() as int,
        );
    }
    draw_panel_lines(canvas.pixels, w, h, lines);
    figure::draw_rect(canvas, p.cx, p.cy, p.width, p.height, PANEL_FILL, None);
}

/// Draws the lines of the panel.
fn draw_panel_lines(pixels: &mut [u32], w: usize, h: usize, lines: &[Vec<GlyphImage>])
    requires
        w * h <= old(pixels)@.len(),
        forall|i: int, j: int|
            0 <= i < lines@.len() && 0 <= j < lines@[i]@.len() ==> (#[trigger] lines@[i]@[j]).wf(),
    ensures
        final(pixels)@ == with_panel_lines(
            old(pixels)@,
            w as int,
            lines@,
            Clip::whole(w, h),
            lines@.len() as int,
        ),
        final(pixels)@.len() == old(pixels)@.len(),
{
    let mut i: usize = 0;
    while i < lines.len()
        invariant
            0 <= i <= lines@.len(),
            w * h <= pixels@.len(),
            pixels@.len() == old(pixels)@.len(),
            forall|i: int, j: int|
                0 <= i < lines@.len() && 0 <= j < lines@[i]@.len() ==> (
                #[trigger] lines@[i]@[j]).wf(),
            pixels@ == with_panel_lines(
                old(pixels)@,
                w as int,
                lines@,
                Clip::whole(w, h),
                i as int,
            ),
        decreases lines@.len() - i,
    {
        let line: &Vec<GlyphImage> = &lines[i];
        let ghost before = pixels@;
        text::draw_glyphs(pixels, w, h, line.as_slice(), PANEL_TEXT, None, None);
        proof {
            text::lemma_glyphs_len(
                before,
                w as int,
                line@,
                PANEL_TEXT,
                Clip::whole(w, h),
                None,
                line@.len() as int,
            );
        }
        i = i + 1;
    }
}

/// The numbers of the panel fit a coordinate.
#[verifier::spinoff_prover]
#[verifier::rlimit(60)]
proof fn lemma_panel(span: int, n: int, w: int, h: int)
    requires
        panel_ok(span, n, w, h),
        0 <= w,
        0 <= h,
    ensures
        ({
            let p = panel_layout(span, n, w, h);
            let font = panel_font(span);
            let header = coord::truncated(font * 59, 50);
            let line_h = coord::truncated(font * 31, 20);
            let pad = coord::truncated(font * 5, 4);
            let half = coord::truncated((2 * n + 3) * line_h, 2);
            let top = p.cy - coord::truncated(half + 2 * pad, 2);
            &&& 0 <= font
            &&& 500 * font <= 7 * span < 500 * font + 500
            &&& p.font_size == font
            &&& p.header_size == header
            &&& p.line_h == line_h
            &&& p.height == half + 2 * pad
            &&& 0 <= pad
            &&& 0 <= header
            &&& 0 <= line_h
            &&& 2 * half <= 2 * (n * line_h) + 3 * line_h <= 2 * half + 1
            &&& p.cx == coord::truncated(w * PX, 2)
            &&& p.cy == coord::truncated(h * PX * 2, 5)
            &&& p.title_y == top + pad + coord::truncated(header, 2)
            &&& p.first_y == top + pad + header + coord::truncated(line_h, 2) + coord::truncated(
                font,
                2,
            )
            &&& p.width == crate::paint::clip::clamp_int(
                coord::truncated(span * 9, 20),
                font * 22,
                font * 36,
            )
        }),
{
    let font = panel_font(span);
    coord::lemma_truncated(span * 7, 500);
    let header = coord::truncated(font * 59, 50);
    coord::lemma_truncated(font * 59, 50);
    let line_h = coord::truncated(font * 31, 20);
    coord::lemma_truncated(font * 31, 20);
    let pad = coord::truncated(font * 5, 4);
    coord::lemma_truncated(font * 5, 4);
    assert(10000 * line_h <= 217 * span);
    assert(0 <= 10000 * ((2 * n + 3) * line_h) <= 434 * (span * (n + 4))) by (nonlinear_arith)
        requires
            0 <= n,
            0 <= 10000 * line_h <= 217 * span,
    ;
    assert((2 * n + 3) * line_h == 2 * (n * line_h) + 3 * line_h) by (nonlinear_arith);
    let half = coord::truncated((2 * n + 3) * line_h, 2);
    coord::lemma_truncated((2 * n + 3) * line_h, 2);
    coord::lemma_truncated(span * 9, 20);
    coord::lemma_truncated(h * PX * 2, 5);
    coord::lemma_truncated(w * PX, 2);
    coord::lemma_truncated(half + 2 * pad, 2);
    coord::lemma_truncated(header, 2);
    coord::lemma_truncated(line_h, 2);
    coord::lemma_truncated(font, 2);
}

/// The parts of the panel that follow from the span and the canvas alone.
proof fn lemma_panel_parts(span: int, w: int, h: int)
    requires
        0 <= span,
        0 <= w,
        0 <= h,
    ensures
        ({
            let font = panel_font(span);
            let header = coord::truncated(font * 59, 50);
            let line_h = coord::truncated(font * 31, 20);
            let natural = coord::truncated(span * 9, 20);
            let cx = coord::truncated(w * PX, 2);
            let cy = coord::truncated(h * PX * 2, 5);
            &&& 0 <= font
            &&& 50 * header <= 59 * font < 50 * header + 50
            &&& 20 * line_h <= 31 * font < 20 * line_h + 20
            &&& 20 * natural <= 9 * span < 20 * natural + 20
            &&& 2 * cx == w * PX
            &&& 5 * cy <= 2 * (h * PX) < 5 * cy + 5
        }),
{
    let font = panel_font(span);
    coord::lemma_truncated(span * 7, 500);
    coord::lemma_truncated(font * 59, 50);
    coord::lemma_truncated(font * 31, 20);
    coord::lemma_truncated(span * 9, 20);
    coord::lemma_truncated(h * PX * 2, 5);
    coord::lemma_truncated(w * PX, 2);
}

/// The panel is centred across the canvas, and its middle lies 2/5 down; its font is 7/500 of the span,
/// its title 59/50 of the font, its lines 31/20 apart, and it is 9/20 of the span wide, within 22 and
/// 36 times the font.
#[verifier::spinoff_prover]
#[verifier::rlimit(60)]
pub proof fn law_panel_follows_the_span(span: int, n: int, w: int, h: int)
    requires
        panel_ok(span, n, w, h),
        0 <= w,
        0 <= h,
    ensures
        ({
            let p = panel_layout(span, n, w, h);
            &&& 2 * p.cx == w * PX
            &&& 5 * p.cy <= 2 * (h * PX) < 5 * p.cy + 5
            &&& 500 * p.font_size <= 7 * span < 500 * p.font_size + 500
            &&& 22 * p.font_size <= p.width <= 36 * p.font_size
            &&& 22 * p.font_size < p.width < 36 * p.font_size ==> 20 * p.width <= 9 * span < 20
                * p.width + 20
            &&& 50 * p.header_size <= 59 * p.font_size < 50 * p.header_size + 50
            &&& 20 * p.line_h <= 31 * p.font_size < 20 * p.line_h + 20
        }),
{
    lemma_panel(span, n, w, h);
    lemma_panel_parts(span, w, h);
}

/// The panel holds its lines: the title stands at its top, the lines below it, and the last one ends
/// above the lower edge.
#[verifier::spinoff_prover]
#[verifier::rlimit(60)]
pub proof fn law_panel_holds_its_lines(span: int, n: int, w: int, h: int)
    requires
        panel_ok(span, n, w, h),
        0 <= w,
        0 <= h,
    ensures
        ({
            let p = panel_layout(span, n, w, h);
            let top = p.cy - coord::truncated(p.height as int, 2);
            let title = coord::truncated(p.header_size as int, 2);
            let first = p.first_y - coord::truncated(p.line_h as int, 2);
            &&& top <= p.title_y - title
            &&& p.title_y + title <= first
            &&& first + n * p.line_h <= top + p.height
        }),
{
    lemma_panel(span, n, w, h);
    let font = panel_font(span);
    let header = coord::truncated(font * 59, 50);
    let line_h = coord::truncated(font * 31, 20);
    coord::lemma_truncated(font * 59, 50);
    coord::lemma_truncated(font * 31, 20);
    coord::lemma_truncated(font * 5, 4);
    coord::lemma_truncated(header, 2);
    coord::lemma_truncated(font, 2);
}

/// The strip covers its 24 rows from edge to edge, and no row above or below them.
pub proof fn law_strip_covers_its_rows(width: int, strip_y: int, x: int, y: int)
    requires
        width >= 2,
        strip_y >= 0,
        0 <= x < width,
    ensures
        ({
            let a = (strip_bar(width, strip_y).alpha)(x, y);
            if strip_y <= y < strip_y + 24 {
                a == pixel::alpha(STRIP_FILL)
            } else {
                a == 0
            }
        }),
{
    coord::lemma_truncated(width * PX, 2);
    figure::law_rect_covers_its_inside(
        x,
        y,
        coord::truncated(width * PX, 2),
        strip_y * PX + 12 * PX,
        width * PX,
        24 * PX,
        STRIP_FILL,
    );
}

} // verus!
