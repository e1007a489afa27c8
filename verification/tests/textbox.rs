//! The text field of one line.
use fluor::canvas::{Canvas, Damage, PixelRect};
use fluor::coord::{Coord, PX};
use fluor::event::{EventResponse, Key, KeyEvent, Modifiers, NamedKey};
use fluor::text::GlyphImage;
use fluor::widgets::cache::PillArt;
use fluor::widgets::textbox_paint::visible_span;
use fluor::widgets::Textbox;

const PLAIN: Modifiers = Modifiers { shift: false, control: false, logo: false };
const SHIFT: Modifiers = Modifiers { shift: true, control: false, logo: false };
const CTRL: Modifiers = Modifiers { shift: false, control: true, logo: false };

fn px(v: i64) -> Coord {
    v * PX
}

/// Every character is as wide as the font size.
fn square(s: &Vec<char>, size: Coord) -> Vec<Coord> {
    vec![size; s.len()]
}

/// A field of 100 by 20 px around (60, 20), with 10 px characters: 92 px are left for the text.
fn field() -> Textbox {
    let mut counter = 0;
    Textbox::new(&mut counter, px(60), px(20), px(100), px(20), px(10))
}

fn with_text(s: &str) -> Textbox {
    let mut t = field();
    t.insert_str(s, &square);
    t
}

fn text(t: &Textbox) -> String {
    t.chars.iter().collect()
}

fn key(k: NamedKey) -> KeyEvent {
    KeyEvent { pressed: true, key: Key::Named(k), text: Vec::new() }
}

fn typed(s: &str) -> KeyEvent {
    KeyEvent { pressed: true, key: Key::Unidentified, text: s.chars().collect() }
}

#[test]
fn typing_goes_to_the_cursor() {
    let mut t = field();
    for c in "abd".chars() {
        t.insert_char(c, &square);
    }
    t.cursor_left();
    t.insert_char('c', &square);
    assert_eq!(text(&t), "abcd");
    assert_eq!(t.cursor, 3);
    t.insert_char('\u{7}', &square);
    assert_eq!(text(&t), "abcd");
    t.insert_str("x\ty\nz", &square);
    assert_eq!(text(&t), "abcxyzd");
    assert_eq!(t.cursor, 6);
}

#[test]
fn backspace_and_delete() {
    let mut t = with_text("abc");
    t.backspace(&square);
    assert_eq!(text(&t), "ab");
    t.cursor_home();
    t.backspace(&square);
    assert_eq!(text(&t), "ab");
    t.delete_forward(&square);
    assert_eq!(text(&t), "b");
    t.cursor_end();
    t.delete_forward(&square);
    assert_eq!(text(&t), "b");
    assert_eq!(t.widths, vec![px(10)]);
}

#[test]
fn selection_is_replaced() {
    let mut t = with_text("hello world");
    t.selection_anchor = Some(11);
    t.cursor = 6;
    assert_eq!(t.selection_range(), Some((6, 11)));
    assert_eq!(t.selected_text().unwrap(), "world");
    t.insert_str("you", &square);
    assert_eq!(text(&t), "hello you");
    assert!(!t.has_selection());
    t.select_all();
    t.backspace(&square);
    assert_eq!(text(&t), "");
    assert_eq!(t.selected_text(), None);
}

#[test]
fn double_click_selects_a_run() {
    let mut t = with_text("foo_1, bar  é2!");
    t.select_word_at(1);
    assert_eq!(t.selected_text().unwrap(), "foo_1");
    t.select_word_at(5);
    assert_eq!(t.selected_text().unwrap(), ",");
    t.select_word_at(10);
    assert_eq!(t.selected_text().unwrap(), "  ");
    t.select_word_at(13);
    assert_eq!(t.selected_text().unwrap(), "é2");
    t.select_word_at(99);
    assert_eq!(t.selected_text().unwrap(), "!");
    let mut empty = field();
    empty.select_word_at(0);
    assert_eq!(empty.selection_anchor, None);
}

#[test]
fn text_that_fits_is_centred() {
    let t = with_text("abcd");
    assert_eq!(t.scroll_offset(), 0);
    assert_eq!(t.text_start_x(), px(40));
    assert_eq!(t.usable_width(), px(92));
    assert_eq!((t.text_left(), t.text_right()), (px(14), px(106)));
    assert_eq!(t.padding(), px(4));
    let r = t.cursor_bbox();
    assert_eq!((r.x, r.y, r.w, r.h), (px(72), px(15), px(16), px(10)));
}

#[test]
fn long_text_scrolls_with_the_cursor() {
    // 200 px in a room of 92 px: the bound is 54 px to both sides.
    let mut t = with_text("abcdefghijklmnopqrst");
    assert_eq!(t.scroll_offset(), -px(54));
    t.cursor_home();
    assert_eq!(t.scroll_offset(), px(54));
    t.set_scroll_offset(px(1000));
    assert_eq!(t.scroll_offset(), px(54));
    t.nudge_scroll_offset(-px(10));
    assert_eq!(t.scroll_offset(), px(44));
    t.nudge_scroll_offset(-px(1000));
    assert_eq!(t.scroll_offset(), -px(54));
    // A wider field has less to scroll.
    t.set_rect(px(60), px(20), px(168), px(20));
    assert_eq!(t.scroll_offset(), -px(20));
    // A font of half the size makes the text fit.
    t.set_font_size(px(5), &square);
    assert_eq!(t.scroll_offset(), 0);
    assert_eq!(t.widths[0], px(5));
}

#[test]
fn clicks_find_the_nearest_place() {
    let t = with_text("abcd");
    assert_eq!(t.cursor_index_from_x(px(0)), 0);
    assert_eq!(t.cursor_index_from_x(px(44)), 0);
    assert_eq!(t.cursor_index_from_x(px(45)), 1);
    assert_eq!(t.cursor_index_from_x(px(62)), 2);
    assert_eq!(t.cursor_index_from_x(px(500)), 4);
}

#[test]
fn clicks_give_and_take_focus() {
    let mut t = with_text("abcd");
    t.select_all();
    t.handle_click(px(52), px(20));
    assert!(t.is_focused() && t.blinkey_visible && t.blinkey_wave_top);
    assert_eq!((t.cursor, t.selection_anchor), (1, None));
    assert!(t.contains(px(10), px(10)) && !t.contains(px(110), px(10)));
    assert!(t.flip_blinkey());
    assert!(!t.blinkey_wave_top);
    t.handle_click(px(300), px(20));
    assert!(!t.is_focused() && !t.blinkey_visible);
    assert!(!t.flip_blinkey());
    t.select_all();
    assert_eq!(t.on_click(px(0)), EventResponse::Handled);
    assert_eq!((t.cursor, t.selection_anchor), (0, None));
}

#[test]
fn focus_keeps_the_selection() {
    let mut t = with_text("abcd");
    t.select_all();
    t.set_focused(true);
    assert!(t.blinkey_visible);
    t.set_focused(false);
    assert!(!t.blinkey_visible);
    assert_eq!(t.selection_range(), Some((0, 4)));
}

#[test]
fn keys_edit_move_and_select() {
    let mut t = field();
    assert_eq!(t.on_key(&typed("héllo"), PLAIN, &square), EventResponse::Handled);
    assert_eq!(text(&t), "héllo");
    assert_eq!(t.on_key(&typed("\u{8}"), PLAIN, &square), EventResponse::Pass);
    assert_eq!(t.on_key(&typed("s"), CTRL, &square), EventResponse::Pass);
    assert_eq!(text(&t), "héllo");
    t.on_key(&key(NamedKey::ArrowLeft), SHIFT, &square);
    t.on_key(&key(NamedKey::ArrowLeft), SHIFT, &square);
    assert_eq!(t.selected_text().unwrap(), "lo");
    t.on_key(&key(NamedKey::Backspace), PLAIN, &square);
    assert_eq!(text(&t), "hél");
    t.on_key(&key(NamedKey::Home), SHIFT, &square);
    assert_eq!(t.selected_text().unwrap(), "hél");
    t.on_key(&key(NamedKey::ArrowRight), PLAIN, &square);
    assert_eq!((t.cursor, t.selection_anchor), (1, None));
    t.on_key(&key(NamedKey::Delete), PLAIN, &square);
    assert_eq!(text(&t), "hl");
    t.on_key(&key(NamedKey::End), PLAIN, &square);
    assert_eq!(t.cursor, 2);
    let all = KeyEvent { pressed: true, key: Key::Character('a'), text: vec!['a'] };
    assert_eq!(t.on_key(&all, CTRL, &square), EventResponse::Handled);
    assert_eq!(t.selection_range(), Some((0, 2)));
    assert_eq!(t.on_key(&all, PLAIN, &square), EventResponse::Handled);
    assert_eq!(text(&t), "a");
    let released = KeyEvent { pressed: false, ..typed("x") };
    assert_eq!(t.on_key(&released, PLAIN, &square), EventResponse::Pass);
    assert_eq!(t.on_key(&typed(""), PLAIN, &square), EventResponse::Pass);
}

#[test]
fn only_what_shows_is_shaped() {
    let widths = vec![px(10); 20];
    assert_eq!(visible_span(&widths, 0, px(25)), Some((0, 2)));
    assert_eq!(visible_span(&widths, -px(35), px(25)), Some((3, 5)));
    assert_eq!(visible_span(&widths, px(25), px(25)), None);
    assert_eq!(visible_span(&widths, -px(200), px(25)), None);
    // 200 px of text scrolled to its end in a field of 100 px.
    let t = with_text("abcdefghijklmnopqrst");
    let (s, x) = t.visible_text().unwrap();
    assert_eq!(s, "hijklmnopqrst");
    assert_eq!(x, px(50) - px(100) - px(54) + px(70));
    assert_eq!(t.text_middle(), px(10));
    assert!(field().visible_text().is_none());
}

#[test]
fn field_paints_selection_and_cursor() {
    let mut t = with_text("abcd");
    t.set_focused(true);
    assert!(t.damage_rect(128, 40).is_some());
    let glyph = GlyphImage::placed(30, 5, 0, 0, 1, 1, vec![255]);
    let glyphs = [glyph];
    let art = PillArt { inner: &[], outer: &[], glyphs: &glyphs };
    let mut pixels = vec![0u32; 128 * 40];
    let mut hits = vec![0u16; 128 * 40];
    let mut damage = Damage::new();
    let mut canvas = Canvas::new(&mut pixels, 128, 40, &mut damage);
    assert_eq!(t.render_content_into(&mut canvas, 0, 0, &art, None, Some(&mut hits), 4), 2);
    assert_eq!(hits[20 * 128 + 60], 4);
    // The cursor stands behind the text, at column 80, and brightens the fill.
    let fill = pixels[20 * 128 + 50] & 0xFF;
    assert!(pixels[17 * 128 + 80] & 0xFF < fill);
    // While it is drawn, it is painted every frame, and nothing else is.
    assert_eq!(t.damage_rect(128, 40), Some(PixelRect::new(72, 15, 88, 25)));
    // Selecting has the text layer drawn again, and hides the cursor.
    t.select_all();
    let mut selected = vec![0u32; 128 * 40];
    let mut damage = Damage::new();
    let mut canvas = Canvas::new(&mut selected, 128, 40, &mut damage);
    assert_eq!(t.render_content_into(&mut canvas, 0, 0, &art, None, None, 4), 1);
    assert_ne!(selected[20 * 128 + 50] & 0xFF_FFFF, pixels[20 * 128 + 50] & 0xFF_FFFF);
    assert_eq!(selected[20 * 128 + 90], pixels[20 * 128 + 90]);
    assert_eq!(t.damage_rect(128, 40), None);
    t.set_focused(false);
    assert!(t.damage_rect(128, 40).is_some());
}

#[test]
fn cursor_can_be_drawn_alone() {
    let mut t = with_text("ab");
    let mut pixels = vec![0xFFFF_FFFFu32; 128 * 40];
    let mut damage = Damage::new();
    let mut canvas = Canvas::new(&mut pixels, 128, 40, &mut damage);
    t.render_blinkey_into(&mut canvas, 0, 0);
    assert!(canvas.damage.bounds().is_none());
    t.set_focused(true);
    t.render_blinkey_into(&mut canvas, 0, 0);
    assert_eq!(damage.bounds(), Some(PixelRect::new(63, 15, 78, 25)));
    // Third row of ten, half of them 5: (25 - 9)(5 + 3)^2 × 100 / 625 = 163.
    assert_eq!(pixels[17 * 128 + 70], 0xFF5C_5C5C);
    // One column away half of it is left.
    assert_eq!(pixels[17 * 128 + 71], 0xFFAE_AEAE);
    assert_eq!(pixels[17 * 128 + 78], 0xFFFF_FFFF);
    t.flip_blinkey();
    let mut flipped = vec![0xFFFF_FFFFu32; 128 * 40];
    let mut damage = Damage::new();
    let mut canvas = Canvas::new(&mut flipped, 128, 40, &mut damage);
    t.render_blinkey_into(&mut canvas, 0, 0);
    assert!(flipped[23 * 128 + 70] < flipped[17 * 128 + 70]);
}
