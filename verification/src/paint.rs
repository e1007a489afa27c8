//! Paint primitives on pixel buffers. All coordinates are pixels.
//!
//! Painting is topmost first: a primitive lays its colour under what is already there, so a pixel
//! that is opaque keeps its colour. Every primitive that takes a [`Clip`] draws inside it only, and
//! one that takes an [`AlphaMask`] scales its opacity by the mask.
pub mod blur;
pub mod clip;
pub mod colour;
pub mod debug;
pub mod figure;
pub mod finalize;
pub mod flatten;
pub mod glow;
pub mod glyph;
pub mod noise;
pub mod overlay;
pub mod ray;
pub mod rect;
pub mod shadow;
pub mod shape;
pub mod shift;
pub mod squircle;
pub mod swar;
pub mod transform;

pub use crate::pixel::BlendMode;
pub use clip::{AlphaMask, Clip, HitId, HIT_NONE};
pub use colour::{pack_argb, unpack_argb, wrap_add_rgb_where, wrap_sub_rgb, wrap_sub_rgb_scaled};
pub use flatten::{flatten, flatten_premult};
pub use rect::{circle_filled, fill_rect, stamp_damage_outline_visible, stroke_rect};
pub use ray::ray_reach_px;
pub use shadow::paint_shadow;
pub use blur::apply_textbox_glow;
pub use finalize::{
    finalize_for_os, finalize_into_screen, DebugFlags, DEBUG_SHOW_ALPHA_FORCE_OPAQUE,
    DEBUG_SHOW_ALPHA_GRAYSCALE, DEBUG_SHOW_ALPHA_OFF,
};
pub use glow::{
    apply_textbox_glow_bottom, apply_textbox_glow_left, apply_textbox_glow_right,
    apply_textbox_glow_top,
};
pub use shift::shift_screen_wrap;
pub use overlay::{apply_overlay, OVERLAY_SQRT_BRIGHTEN};
pub use noise::background_noise;
pub use squircle::{draw_squircle_pill, draw_squircle_pill_two_tone};
pub use shape::{draw_blinkey, draw_coverage, Coverage, ShapeBox};
pub use figure::{draw_circle, draw_ellipse, draw_ellipse_rotated, draw_rect, draw_rect_rotated};
pub use debug::{draw_chord_hint, draw_debug_strip, DebugStats, DEBUG_STRIP_H};
pub use swar::blend_rgb_only;
pub use transform::{quantize_rotation, rotation_divisions, snap_rotation, Transform};
