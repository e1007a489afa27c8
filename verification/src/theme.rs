//! Colours.
//!
//! Colours are stored as opacity and darkness. Most are opaque; glow colours have opacity 0, because
//! the glow sets it pixel by pixel. The background texture works in visible RGB.
use crate::paint::finalize;
use crate::pixel;
use vstd::prelude::*;

verus! {

/// The byte order of the window buffer: the one that colours are written in.
pub fn fmt(trgb: u32) -> (p: u32)
    ensures
        p == trgb,
{
    trgb
}

/// The byte order of a window buffer that stores red lowest: red and blue change places.
pub fn fmt_red_low(trgb: u32) -> (p: u32)
    ensures
        p == pixel::argb(
            pixel::alpha(trgb),
            pixel::blue(trgb),
            pixel::green(trgb),
            pixel::red(trgb),
        ),
{
    let t: u32 = pixel::alpha_of(trgb);
    let (r, g, b) = pixel::rgb_of(trgb);
    pixel::assemble(t, b, g, r)
}

/// Swapping red and blue twice changes nothing.
pub proof fn law_red_low_is_its_own_inverse(p: u32)
    ensures
        ({
            let q = pixel::argb(pixel::alpha(p), pixel::blue(p), pixel::green(p), pixel::red(p));
            pixel::argb(pixel::alpha(q), pixel::blue(q), pixel::green(q), pixel::red(q)) == p
        }),
{
    pixel::lemma_channels(p);
    pixel::lemma_argb(pixel::alpha(p), pixel::blue(p), pixel::green(p), pixel::red(p));
}

/// Visible RGB as an opaque stored colour: every channel becomes darkness.
pub fn dark(trgb: u32) -> (p: u32)
    ensures
        p == pixel::argb(
            255,
            255 - pixel::red(trgb),
            255 - pixel::green(trgb),
            255 - pixel::blue(trgb),
        ),
{
    proof {
        let q: u32 = trgb ^ 0x00FF_FFFF;
        finalize::lemma_flip(trgb);
        assert((q | 0xFF00_0000u32) == ((255u32 << 24) | (((q >> 16) & 0xFF) << 16) | (((q >> 8)
            & 0xFF) << 8) | (q & 0xFF))) by (bit_vector);
    }
    (trgb ^ 0x00FF_FFFF) | 0xFF00_0000
}

/// Base colour of the background texture, in visible RGB.
pub const BG_BASE: u32 = 0x000C_140D;

/// Bits of the background texture that vary.
pub const BG_MASK: u32 = 0x000F_071F;

/// Bits of a background speckle.
pub const BG_SPECKLE: u32 = 0x003F_1F7F;

/// Lit window edge, focused.
pub const WINDOW_LIGHT_EDGE: u32 = (0x005C_4F35 ^ 0x00FF_FFFF) | 0xFF00_0000;

/// Shaded window edge, focused.
pub const WINDOW_SHADOW_EDGE: u32 = (0x0029_3A4A ^ 0x00FF_FFFF) | 0xFF00_0000;

/// Lit window edge, unfocused.
pub const WINDOW_LIGHT_EDGE_UNFOCUSED: u32 = (0x0036_3430 ^ 0x00FF_FFFF) | 0xFF00_0000;

/// Shaded window edge, unfocused.
pub const WINDOW_SHADOW_EDGE_UNFOCUSED: u32 = (0x002A_2D32 ^ 0x00FF_FFFF) | 0xFF00_0000;

/// Background of the window controls.
pub const WINDOW_CONTROLS_BG: u32 = (0x001E_1E1E ^ 0x00FF_FFFF) | 0xFF00_0000;

/// Close control under the pointer.
pub const CLOSE_HOVER: u32 = (0x00DE_0206 ^ 0x00FF_FFFF) | 0xFF00_0000;

/// Maximize control under the pointer.
pub const MAXIMIZE_HOVER: u32 = (0x0003_7803 ^ 0x00FF_FFFF) | 0xFF00_0000;

/// Minimize control under the pointer.
pub const MINIMIZE_HOVER: u32 = (0x0008_05DA ^ 0x00FF_FFFF) | 0xFF00_0000;

/// Primary text.
pub const TEXT_COLOUR: u32 = (0x00E8_E8E8 ^ 0x00FF_FFFF) | 0xFF00_0000;

/// Primary text of an unfocused window.
pub const TEXT_COLOUR_UNFOCUSED: u32 = (0x006A_6A6A ^ 0x00FF_FFFF) | 0xFF00_0000;

/// Secondary text.
pub const LABEL_COLOUR: u32 = (0x0080_8080 ^ 0x00FF_FFFF) | 0xFF00_0000;

/// Title bar text.
pub const TITLE_TEXT: u32 = TEXT_COLOUR;

/// Title bar text of an unfocused window.
pub const TITLE_TEXT_UNFOCUSED: u32 = TEXT_COLOUR_UNFOCUSED;

/// Hint text: white at a quarter of full opacity.
pub const HINT_COLOUR: u32 = 0x4000_0000;

/// How far the orb of an unfocused window is drawn towards grey, of 255.
pub const ORB_DARKEN_UNFOCUSED: u8 = 128;

/// Close glyph.
pub const CLOSE_GLYPH: u32 = (0x0080_2020 ^ 0x00FF_FFFF) | 0xFF00_0000;

/// Maximize glyph.
pub const MAXIMIZE_GLYPH: u32 = (0x0048_6B3A ^ 0x00FF_FFFF) | 0xFF00_0000;

/// Inside of the maximize glyph.
pub const MAXIMIZE_GLYPH_INTERIOR: u32 = (0x0028_2D2E ^ 0x00FF_FFFF) | 0xFF00_0000;

/// Minimize glyph.
pub const MINIMIZE_GLYPH: u32 = (0x0033_30C7 ^ 0x00FF_FFFF) | 0xFF00_0000;

/// Textbox fill.
pub const TEXTBOX_FILL: u32 = (0x0006_0809 ^ 0x00FF_FFFF) | 0xFF00_0000;

/// Textbox fill under the pointer.
pub const TEXTBOX_HOVER: u32 = (0x0012_1618 ^ 0x00FF_FFFF) | 0xFF00_0000;

/// Textbox fill in focus.
pub const TEXTBOX_ACTIVE: u32 = (0x0000_0000 ^ 0x00FF_FFFF) | 0xFF00_0000;

/// Lit textbox edge.
pub const TEXTBOX_LIGHT_EDGE: u32 = (0x0044_4137 ^ 0x00FF_FFFF) | 0xFF00_0000;

/// Shaded textbox edge.
pub const TEXTBOX_SHADOW_EDGE: u32 = (0x002B_3437 ^ 0x00FF_FFFF) | 0xFF00_0000;

/// Textbox text.
pub const TEXTBOX_TEXT: u32 = (0x00E0_E0DC ^ 0x00FF_FFFF) | 0xFF00_0000;

/// Background of selected text.
pub const TEXTBOX_SELECTION_BG: u32 = (0x003A_5A8C ^ 0x00FF_FFFF) | 0xFF00_0000;

/// Button fill.
pub const BUTTON_FILL: u32 = (0x001A_224E ^ 0x00FF_FFFF) | 0xFF00_0000;

/// Button fill under the pointer.
pub const BUTTON_HOVER: u32 = (0x0028_3471 ^ 0x00FF_FFFF) | 0xFF00_0000;

/// Button fill in focus.
pub const BUTTON_ACTIVE: u32 = (0x000C_1032 ^ 0x00FF_FFFF) | 0xFF00_0000;

/// Button fill while held.
pub const BUTTON_HELD: u32 = (0x003C_4CA8 ^ 0x00FF_FFFF) | 0xFF00_0000;

/// Focus glow; opacity 0, the glow sets it.
pub const GLOW_DEFAULT: u32 = 0x00FF_FFFF ^ 0x00FF_FFFF;

/// Success glow.
pub const GLOW_SUCCESS: u32 = 0x0040_FF40 ^ 0x00FF_FFFF;

/// Error glow.
pub const GLOW_ERROR: u32 = 0x00FF_6060 ^ 0x00FF_FFFF;

/// Black glow.
pub const GLOW_DARK: u32 = 0x0000_0000 ^ 0x00FF_FFFF;

/// The brightness of the text cursor.
pub const CURSOR_BRIGHTNESS: u32 = 100;

} // verus!
