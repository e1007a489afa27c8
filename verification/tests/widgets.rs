//! Buttons, checkboxes, sliders and dropdowns.
use fluor::canvas::{Canvas, Damage, PixelRect};
use fluor::coord::{Coord, PX, RU_ONE};
use fluor::event::{EventResponse, Key, KeyEvent, Modifiers, NamedKey};
use fluor::paint::{Coverage, ShapeBox};
use fluor::theme;
use fluor::widgets::cache::PillArt;
use fluor::widgets::checkbox::CheckArt;
use fluor::widgets::dropdown::{DropdownRow, PopupArt, SelectorArt};
use fluor::widgets::face::{stroke_part, stroke_width};
use fluor::widgets::{ident, Button, Checkbox, Dropdown, Slider};

fn px(v: i64) -> Coord {
    v * PX
}

fn press(key: Key) -> KeyEvent {
    KeyEvent { pressed: true, key, text: Vec::new() }
}

fn named(key: NamedKey) -> KeyEvent {
    press(Key::Named(key))
}

#[test]
fn identifiers_are_dense_and_start_at_one() {
    let mut counter = 0;
    assert_eq!(ident::next_id(&mut counter), 1);
    assert_eq!(ident::next_id(&mut counter), 2);
    assert_eq!(counter, 2);
}

#[test]
fn chord_keys_stand_for_each_other() {
    let none = Modifiers { shift: true, control: false, logo: false };
    assert!(!none.is_chord());
    assert!(Modifiers { control: true, ..none }.is_chord());
    assert!(Modifiers { logo: true, ..none }.is_chord());
}

fn button() -> Button {
    let mut counter = 0;
    Button::new(&mut counter, px(20), px(10), px(30), px(12), px(8), String::from("Go"))
}

#[test]
fn button_reports_a_click_once() {
    let mut b = button();
    assert!(!b.take_click());
    assert_eq!(b.on_click(), EventResponse::Handled);
    b.on_click();
    assert_eq!(b.click_count(), 2);
    assert!(b.take_click());
    assert!(!b.take_click());
    assert_eq!(b.on_key(&named(NamedKey::Enter)), EventResponse::Handled);
    assert!(b.take_click());
    assert_eq!(b.on_key(&named(NamedKey::Space)), EventResponse::Handled);
    assert_eq!(b.on_key(&named(NamedKey::Tab)), EventResponse::Pass);
    let released = KeyEvent { pressed: false, ..named(NamedKey::Enter) };
    assert_eq!(b.on_key(&released), EventResponse::Pass);
    assert_eq!(b.click_count(), 4);
}

#[test]
fn button_geometry() {
    let b = button();
    let r = b.bbox();
    assert_eq!((r.x, r.y, r.w, r.h), (px(5), px(4), px(30), px(12)));
    // 0.4 of the font size.
    assert_eq!(b.padding(), px(8) * 2 / 5);
    let f = b.focus_bbox();
    assert_eq!(f, PixelRect::new(5, 4, 35, 16));
    let g = b.glow_bbox();
    assert!(g.x < r.x && g.y < r.y && g.w > r.w && g.h > r.h);
    assert_eq!(b.label_anchor(px(10)), (px(10), px(6)));
}

#[test]
fn button_paints_its_face_and_rests() {
    let mut b = button();
    assert_eq!(b.damage_rect(64, 32), Some(PixelRect::new(5, 4, 35, 16)));
    let mut pixels = vec![0u32; 64 * 32];
    let mut hits = vec![0u16; 64 * 32];
    let mut damage = Damage::new();
    let mut canvas = Canvas::new(&mut pixels, 64, 32, &mut damage);
    let art = PillArt { inner: &[], outer: &[], glyphs: &[] };
    let n = b.render_content_into(&mut canvas, 0, 0, &art, None, Some(&mut hits), 9);
    assert_eq!(n, 2);
    // Without corner tables the pill is the box between its round ends.
    assert_eq!(pixels[10 * 64 + 20] >> 24, 255);
    assert_eq!(hits[10 * 64 + 20], 9);
    assert_eq!(hits[10 * 64 + 2], 0);
    assert_eq!(b.damage_rect(64, 32), None);
    assert_eq!((b.cache.pill_w, b.cache.pill_h), (30, 12));
    assert_eq!((b.cache.text_w, b.cache.text_h), (30, 12));
    assert!(!b.cache.pill_dirty && !b.cache.text_dirty);
    let mut damage = Damage::new();
    let mut canvas = Canvas::new(&mut pixels, 64, 32, &mut damage);
    assert_eq!(b.render_content_into(&mut canvas, 0, 0, &art, None, None, 9), 0);
    b.set_label(String::from("Go"));
    assert_eq!(b.damage_rect(64, 32), None);
    b.set_label(String::from("Stop"));
    assert!(b.damage_rect(64, 32).is_some());
    assert_eq!(b.label(), "Stop");
}

#[test]
fn stroke_is_a_multiple_of_the_font_size() {
    assert_eq!(stroke_width(0, px(8)), 1);
    assert_eq!(stroke_width(5 * RU_ONE, px(8)), 41);
    assert_eq!(stroke_width(-RU_ONE, px(8)), -7);
    assert_eq!(stroke_part(RU_ONE / 4, px(8)), px(2));
    assert_eq!(stroke_part(-RU_ONE / 4, px(8)), -px(2));
    // A stroke wider than the face leaves no fill: what is under the mask is gone.
    let mut b = button();
    b.stroke_ru = 5 * RU_ONE;
    let mut pixels = vec![0u32; 64 * 32];
    let mut damage = Damage::new();
    let mut canvas = Canvas::new(&mut pixels, 64, 32, &mut damage);
    let art = PillArt { inner: &[], outer: &[], glyphs: &[] };
    assert_eq!(b.render_content_into(&mut canvas, 0, 0, &art, None, None, 1), 2);
    assert!(b.cache.mask.iter().all(|&m| m == 0));
    assert_eq!(pixels[10 * 64 + 20] >> 24, 255);
}

#[test]
fn focused_button_glows_and_tints() {
    let mut b = button();
    assert_eq!(b.tint_delta(), 0);
    b.set_hovered(true);
    let hover = b.tint_delta();
    assert_ne!(hover, 0);
    b.set_focused(true);
    assert_ne!(b.tint_delta(), hover);
    assert!(b.is_focused() && b.is_hovered());
    let mut pixels = vec![0u32; 64 * 32];
    let mut damage = Damage::new();
    let mut canvas = Canvas::new(&mut pixels, 64, 32, &mut damage);
    let art = PillArt { inner: &[], outer: &[], glyphs: &[] };
    b.render_content_into(&mut canvas, 0, 0, &art, None, None, 1);
    // The glow reaches out of the pill.
    assert_ne!(pixels[10 * 64 + 37] >> 24, 0);
}

#[test]
fn button_without_a_pixel_paints_nothing() {
    let mut b = button();
    b.set_rect(px(20), px(10), px(30), px(12) / 100);
    let mut pixels = vec![0u32; 64 * 32];
    let mut damage = Damage::new();
    let mut canvas = Canvas::new(&mut pixels, 64, 32, &mut damage);
    let art = PillArt { inner: &[], outer: &[], glyphs: &[] };
    assert_eq!(b.render_content_into(&mut canvas, 0, 0, &art, None, None, 1), 0);
    assert!(pixels.iter().all(|&p| p == 0));
}

fn checkbox(label: &str) -> Checkbox {
    let mut counter = 4;
    Checkbox::new(
        &mut counter,
        String::from(label),
        px(50),
        px(20),
        px(80),
        px(20),
        px(10),
        false,
    )
}

#[test]
fn checkbox_flips_and_reports() {
    let mut c = checkbox("On");
    assert_eq!(c.hit_id(), 5);
    assert!(!c.is_checked());
    c.on_click();
    assert!(c.is_checked());
    assert!(c.take_toggle());
    assert!(!c.take_toggle());
    c.set_checked(false);
    assert!(!c.take_toggle());
    assert_eq!(c.on_key(&named(NamedKey::Space)), EventResponse::Handled);
    assert!(c.is_checked() && c.take_toggle());
    assert_eq!(c.on_key(&named(NamedKey::Escape)), EventResponse::Pass);
}

#[test]
fn checkbox_label_wraps_by_words() {
    // Every character is 5 px wide.
    let wide = |s: &Vec<char>| px(5) * s.len() as i64;
    let c = checkbox("  Be a   custodian on reboot ");
    // Box 13 px, gap 8 px: 59 px are left, which is 11 characters.
    assert_eq!(c.box_side(), px(13));
    let lines: Vec<String> =
        c.label_lines(&wide).into_iter().map(|l| l.into_iter().collect()).collect();
    assert_eq!(lines, vec!["Be a", "custodian", "on reboot"]);
    // Three lines of 1.25 times the font size.
    assert_eq!(c.needed_height(3), px(10) * 15 / 4);
    assert_eq!(c.needed_height(0), px(13));
    assert!(checkbox("").label_lines(&wide).is_empty());
    assert_eq!(checkbox("unbreakablylong").label_lines(&wide).len(), 1);
}

#[test]
fn checkbox_label_is_centred_on_the_box() {
    let c = checkbox("x");
    let (x, y) = c.label_anchor(0, 1);
    assert_eq!((x, y), (px(10) + px(13) + px(5), px(20)));
    let (_, y0) = c.label_anchor(0, 3);
    let (_, y2) = c.label_anchor(2, 3);
    assert_eq!(y0 + y2, px(40));
}

#[test]
fn checkbox_paints_box_and_tick() {
    let mut c = checkbox("");
    let f = c.box_frame();
    assert_eq!((f.x, f.y, f.side, f.stroke), (10, 13, 13, 1));
    let outer =
        ShapeBox { x_min: f.x, x_max: f.x + f.side, y_min: f.y, y_max: f.y + f.side };
    let inner = ShapeBox {
        x_min: f.x + f.stroke,
        x_max: f.x + f.side - f.stroke,
        y_min: f.y + f.stroke,
        y_max: f.y + f.side - f.stroke,
    };
    let n = (f.side * f.side) as usize;
    let m = ((f.side - 2) * (f.side - 2)) as usize;
    let fill = Coverage { shape: inner, opacity: vec![255; m] };
    let light = Coverage { shape: outer, opacity: vec![255; n] };
    let shade = Coverage { shape: outer, opacity: vec![0; n] };
    let art = CheckArt { fill: &fill, light: &light, shade: &shade, glyphs: &[] };
    let paint = |c: &Checkbox| {
        let mut pixels = vec![0u32; 100 * 40];
        let mut hits = vec![0u16; 100 * 40];
        let mut damage = Damage::new();
        let mut canvas = Canvas::new(&mut pixels, 100, 40, &mut damage);
        c.render_content_into(&mut canvas, &art, None, Some(&mut hits));
        (pixels, hits)
    };
    let (off, hits) = paint(&c);
    let at = |p: &Vec<u32>, x: usize, y: usize| p[y * 100 + x];
    assert_eq!(at(&off, 12, 15) >> 24, 255);
    assert_eq!(at(&off, 9, 15), 0);
    // The whole row is clickable, label included.
    assert_eq!(hits[20 * 100 + 80], 5);
    assert_eq!(hits[31 * 100 + 80], 0);
    c.set_checked(true);
    let (on, _) = paint(&c);
    assert_ne!(at(&on, 12, 15), at(&off, 12, 15));
    // Something of the tick shows in the middle of the box.
    let tick = (10..23).flat_map(|x| (13..26).map(move |y| (x, y)));
    assert!(tick.clone().any(|(x, y)| at(&on, x, y) != at(&on, 12, 15)));
    c.set_checked(false);
    c.set_empty_fill(Some(0xFF12_3456));
    assert_ne!(at(&paint(&c).0, 12, 15), at(&off, 12, 15));
}

fn slider() -> Slider {
    let mut counter = 0;
    Slider::new(&mut counter, px(50), px(10), px(80), px(16), RU_ONE / 2)
}

#[test]
fn slider_follows_x_and_keys() {
    let mut s = slider();
    assert!(!s.take_change());
    s.set_value_from_x(px(30));
    assert_eq!(s.value(), RU_ONE / 4);
    assert!(s.take_change());
    s.set_value_from_x(px(500));
    assert_eq!(s.value(), RU_ONE);
    s.set_value_from_x(px(600));
    assert!(s.take_change());
    s.set_value(RU_ONE);
    assert!(!s.take_change());
    s.on_key(&named(NamedKey::ArrowRight));
    assert_eq!(s.value(), RU_ONE);
    s.on_key(&named(NamedKey::ArrowLeft));
    assert_eq!(s.value(), RU_ONE - RU_ONE / 64);
    s.on_key(&named(NamedKey::Home));
    assert_eq!(s.value(), 0);
    s.on_key(&named(NamedKey::End));
    assert_eq!(s.value(), RU_ONE);
    assert_eq!(s.on_key(&named(NamedKey::Enter)), EventResponse::Pass);
    s.set_value(-5);
    assert_eq!(s.value(), 0);
}

#[test]
fn disabled_slider_stands_still() {
    let mut s = slider();
    s.set_focused(true);
    s.set_hovered(true);
    s.set_enabled(false);
    assert!(!s.is_focused() && !s.is_enabled() && !s.accepts_input());
    s.on_click(px(30));
    assert_eq!(s.value(), RU_ONE / 2);
    s.set_hovered(true);
    s.set_enabled(true);
    assert!(s.accepts_input() && !s.activate_on_release() && s.tint_delta() == 0);
}

#[test]
fn slider_paints_track_and_handle() {
    let mut s = slider();
    let mut pixels = vec![0u32; 100 * 20];
    let mut hits = vec![0u16; 100 * 20];
    let mut damage = Damage::new();
    let mut canvas = Canvas::new(&mut pixels, 100, 20, &mut damage);
    s.render_content_into(&mut canvas, Some(&mut hits), 3);
    // White left of the handle, black right of it, on the middle row.
    assert_eq!(pixels[10 * 100 + 15], 0xFF00_0000);
    assert_eq!(pixels[10 * 100 + 85], 0xFFFE_FEFE);
    assert_eq!(pixels[10 * 100 + 50], 0xFF00_0000);
    assert_eq!(pixels[4 * 100 + 15], 0);
    assert_eq!(hits[3 * 100 + 10], 3);
    assert_eq!(hits[10 * 100 + 9], 0);
    assert_eq!(s.damage_rect(100, 20), None);
    s.set_value(0);
    assert_eq!(s.damage_rect(100, 20), Some(PixelRect::new(10, 2, 90, 18)));
}

fn dropdown() -> Dropdown {
    let mut counter = 10;
    let options = vec![String::from("one"), String::from("two"), String::from("three")];
    Dropdown::new(&mut counter, px(50), px(20), px(60), px(16), px(10), options)
}

#[test]
fn dropdown_owns_an_identifier_for_each_row() {
    let d = dropdown();
    assert_eq!(d.hit_id(), 11);
    assert!(d.owns_hit(11) && d.owns_hit(12) && d.owns_hit(14));
    assert!(!d.owns_hit(15) && !d.owns_hit(0));
    assert_eq!(d.options().len(), 3);
    assert_eq!(d.selected_label(), "one");
    assert_eq!(d.rows[2].index(), 2);
    assert_eq!(d.rows[2].hit_id(), 14);
}

#[test]
fn dropdown_keys_open_move_and_choose() {
    let mut d = dropdown();
    assert_eq!(d.on_key(&named(NamedKey::Escape)), EventResponse::Pass);
    assert_eq!(d.on_key(&named(NamedKey::Enter)), EventResponse::Handled);
    assert!(d.is_open());
    d.on_key(&named(NamedKey::ArrowUp));
    assert!(d.rows[2].hovered);
    d.on_key(&named(NamedKey::ArrowDown));
    d.on_key(&named(NamedKey::ArrowDown));
    assert!(d.rows[1].hovered && !d.rows[0].hovered);
    assert_eq!(d.take_change(), None);
    d.on_key(&named(NamedKey::Space));
    assert!(!d.is_open());
    assert_eq!(d.take_change(), Some(1));
    assert_eq!(d.take_change(), None);
    // Closed, the arrow keys move the choice itself, going round.
    d.on_key(&named(NamedKey::ArrowDown));
    d.on_key(&named(NamedKey::ArrowDown));
    assert_eq!(d.take_change(), Some(0));
    d.on_click();
    assert!(d.is_open());
    assert_eq!(d.on_key(&named(NamedKey::Escape)), EventResponse::Handled);
    assert!(!d.is_open());
    assert_eq!(d.take_change(), None);
}

#[test]
fn clicked_row_is_chosen_at_the_next_poll() {
    let mut d = dropdown();
    d.visit_rows(|r: DropdownRow| DropdownRow { fired: true, ..r });
    assert_eq!(d.take_change(), None);
    d.open();
    d.visit_rows(|mut r: DropdownRow| {
        if r.hit_id() == 14 {
            assert_eq!(r.on_click(), EventResponse::Handled);
        }
        r
    });
    assert_eq!(d.take_change(), Some(2));
    assert!(!d.is_open());
    assert_eq!(d.selected(), 2);
}

#[test]
fn hovering_moves_the_highlight() {
    let mut d = dropdown();
    assert!(d.sync_hover(11));
    assert!(d.is_hovered());
    assert!(!d.sync_hover(11));
    d.open();
    assert!(d.sync_hover(13));
    assert!(d.rows[1].hovered && !d.is_hovered());
    assert_ne!(d.rows[1].tint_delta(), 0);
    assert_eq!(d.rows[0].tint_delta(), 0);
    d.on_key(&named(NamedKey::Enter));
    assert_eq!(d.selected(), 1);
}

#[test]
fn losing_focus_closes_without_choosing() {
    let mut d = dropdown();
    d.set_focused(true);
    d.open();
    d.set_focused(false);
    assert!(!d.is_open());
    assert_eq!(d.take_change(), None);
    d.open();
    d.set_enabled(false);
    assert!(!d.is_open() && !d.accepts_input());
    d.open();
    assert!(!d.is_open());
    assert_eq!(d.text_colour() >> 24, 0x80);
    d.set_enabled(true);
    assert_eq!(d.text_colour(), theme::TEXTBOX_TEXT);
}

#[test]
fn popup_opens_below_or_above() {
    let d = dropdown();
    // Three rows of 16 px and two pads of 4 px.
    let below = d.popup_region(200);
    assert_eq!((below.y, below.h), (px(30), px(56)));
    let above = d.popup_region(60);
    assert_eq!(above.y, 0);
    assert_eq!(d.popup_label_anchor(200, 1), (px(20) + px(44) / 5, px(30) + px(4) + px(24)));
}

#[test]
fn popup_stamps_its_rows() {
    let mut d = dropdown();
    d.open();
    let labels = vec![Vec::new(), Vec::new(), Vec::new()];
    let art = PopupArt { labels: &labels, inner: &[], outer: &[] };
    let mut pixels = vec![0u32; 100 * 100];
    let mut hits = vec![0u16; 100 * 100];
    let mut damage = Damage::new();
    let mut canvas = Canvas::new(&mut pixels, 100, 100, &mut damage);
    assert!(d.render_popup_into(&mut canvas, &art, None, Some(&mut hits)));
    assert_eq!(hits[40 * 100 + 50], 12);
    assert_eq!(hits[56 * 100 + 50], 13);
    assert_eq!(hits[72 * 100 + 50], 14);
    assert_eq!(hits[20 * 100 + 50], 0);
    // The mark of the choice stands in the first row, in text colour.
    assert_ne!(pixels[42 * 100 + 24], 0);
    assert!(d.last_painted_popup.is_some() && !d.popup_dirty);
    d.close();
    let mut damage = Damage::new();
    let mut canvas = Canvas::new(&mut pixels, 100, 100, &mut damage);
    assert!(!d.render_popup_into(&mut canvas, &art, None, None));
    assert!(d.last_painted_popup.is_none());
}

#[test]
fn dropdown_paints_its_pill_and_chevron() {
    let mut d = dropdown();
    let art = SelectorArt { inner: &[], outer: &[], glyphs: &[] };
    let mut pixels = vec![0u32; 100 * 40];
    let mut hits = vec![0u16; 100 * 40];
    let mut damage = Damage::new();
    let mut canvas = Canvas::new(&mut pixels, 100, 40, &mut damage);
    assert_eq!(d.render_content_into(&mut canvas, 0, 0, &art, None, Some(&mut hits)), 2);
    assert_eq!(hits[20 * 100 + 50], 11);
    let fill = pixels[20 * 100 + 50];
    assert!((60..78).any(|x| pixels[20 * 100 + x] != fill));
    // Enabling or disabling has both layers rasterised again.
    d.set_enabled(false);
    let mut damage = Damage::new();
    let mut canvas = Canvas::new(&mut pixels, 100, 40, &mut damage);
    assert_eq!(d.render_content_into(&mut canvas, 0, 0, &art, None, None), 2);
    assert_eq!(d.label_anchor(), (px(6), px(8)));
}

#[test]
fn clicks_between_polls_count_as_one() {
    let mut b = button();
    for _ in 0..5 {
        b.fire();
    }
    assert_eq!(b.click_count(), 5);
    assert!(b.take_click());
    assert!(!b.take_click());
}

#[test]
fn selection_by_the_program_is_no_change() {
    let mut d = dropdown();
    d.set_selected(1);
    assert_eq!(d.selected(), 1);
    assert_eq!(d.take_change(), None);
    d.set_selected(99);
    assert_eq!(d.selected(), d.options().len() - 1);
}
