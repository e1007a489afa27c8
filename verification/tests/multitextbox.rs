//! The text field of several lines.
use fluor::canvas::{Canvas, Damage, PixelRect};
use fluor::coord::{Coord, PX};
use fluor::event::{EventResponse, Key, KeyEvent, Modifiers, NamedKey};
use fluor::widgets::lines::wrap_text;
use fluor::widgets::multitextbox_paint::PageArt;
use fluor::widgets::MultiTextbox;

const PLAIN: Modifiers = Modifiers { shift: false, control: false, logo: false };
const SHIFT: Modifiers = Modifiers { shift: true, control: false, logo: false };
const CTRL: Modifiers = Modifiers { shift: false, control: true, logo: false };

fn px(v: i64) -> Coord {
    v * PX
}

/// Every character is as wide as the font size.
fn square(_c: char, size: Coord) -> Coord {
    size
}

/// A field with 10 px characters and room for ten of them on a line.
fn field() -> MultiTextbox {
    let mut counter = 0;
    let mut t = MultiTextbox::new(&mut counter, px(20));
    t.set_font_size(px(10), &square);
    t.set_layout(px(60), px(100), px(111), px(60), &square);
    t
}

fn with_text(s: &str) -> MultiTextbox {
    let mut t = field();
    t.insert_str(s, &square);
    t
}

fn text(t: &MultiTextbox) -> String {
    t.chars.iter().collect()
}

fn key(k: NamedKey) -> KeyEvent {
    KeyEvent { pressed: true, key: Key::Named(k), text: Vec::new() }
}

fn typed(s: &str) -> KeyEvent {
    KeyEvent { pressed: true, key: Key::Unidentified, text: s.chars().collect() }
}

fn starts(s: &str, width: i64) -> Vec<usize> {
    let chars: Vec<char> = s.chars().collect();
    let widths: Vec<Coord> =
        chars.iter().map(|&c| if c == '\n' { 0 } else { px(1) }).collect();
    wrap_text(&chars, &widths, px(width))
}

#[test]
fn lines_break_behind_spaces() {
    assert_eq!(starts("", 10), vec![0]);
    assert_eq!(starts("hello world", 8), vec![0, 6]);
    assert_eq!(starts("hello world", 20), vec![0]);
    // A word that is too long is broken where it is.
    assert_eq!(starts("abcdefghij", 4), vec![0, 4, 8]);
    // A line break ends its line, and one at the end begins an empty one.
    assert_eq!(starts("ab\ncd\n", 10), vec![0, 3, 6]);
    // A space that does not fit is carried over with its word, and breaks no later line.
    assert_eq!(starts("a b c d", 3), vec![0, 2, 5]);
    // The first character of a line stays, however wide.
    assert_eq!(starts("abc", 0), vec![0, 1, 2]);
}

#[test]
fn layout_follows_the_text() {
    let mut t = field();
    // One row of 14 px and two pads of 4.5 px.
    assert_eq!(t.row_h(), px(14));
    assert_eq!((t.pad_x(), t.pad_y()), (px(11) / 2, px(9) / 2));
    assert_eq!(t.height, px(23));
    assert_eq!(t.center_y, px(100) - px(23) / 2);
    t.insert_str("one\ntwo\nthree", &square);
    t.set_layout(px(60), px(100), px(111), px(60), &square);
    assert_eq!(t.line_count(), 3);
    assert_eq!(t.height, px(51));
    assert_eq!(t.content_h(), px(51));
    t.insert_str("\nfour\nfive", &square);
    t.set_layout(px(60), px(100), px(111), px(60), &square);
    assert_eq!(t.height, px(60));
    // Five rows are 70 px, 51 px show: the last line is in view.
    assert_eq!(t.scroll_y, px(19));
    // Less than half a pixel is no change.
    let before = t.width;
    t.set_layout(px(60), px(100), px(111) + PX / 4, px(60), &square);
    assert_eq!(t.width, before);
}

#[test]
fn right_inset_narrows_the_lines() {
    let mut t = with_text("aaaa bbbb");
    assert_eq!(t.line_count(), 1);
    t.set_right_inset(px(30));
    t.insert_char('c', &square);
    assert_eq!(t.line_starts, vec![0, 5]);
    t.set_right_inset(px(30) + 1);
    assert_eq!(t.right_inset, px(30));
}

#[test]
fn edits_keep_widths_in_step() {
    let mut t = with_text("abcdef");
    t.cursor = 2;
    t.backspace();
    t.delete_forward();
    assert_eq!(text(&t), "adef");
    assert_eq!((t.cursor, t.widths.len()), (1, 4));
    t.selection_anchor = Some(3);
    t.insert_char('\n', &square);
    assert_eq!(text(&t), "a\nf");
    assert_eq!(t.widths, vec![px(10), 0, px(10)]);
    assert_eq!(t.selection_anchor, None);
    t.replace_char_range(1, 99, "xyz", &square);
    assert_eq!((text(&t).as_str(), t.cursor), ("axyz", 4));
    t.replace_char_range(2, 1, "-", &square);
    assert_eq!((text(&t).as_str(), t.cursor), ("ax-yz", 3));
    t.select_all();
    assert_eq!(t.selected_text().unwrap(), "ax-yz");
    t.delete_selection();
    assert_eq!(text(&t), "");
    t.insert_str("again", &square);
    t.clear();
    assert_eq!((t.chars.len(), t.cursor, t.line_starts.clone()), (0, 0, vec![0]));
}

#[test]
fn up_and_down_keep_the_column() {
    let mut t = with_text("abcdef\nxy\nuvwxyz");
    t.cursor = 5;
    t.cursor_vertical(true);
    // The short line ends after two characters.
    assert_eq!(t.cursor, 9);
    t.cursor_vertical(true);
    assert_eq!(t.cursor, 10 + 5);
    t.cursor_vertical(true);
    assert_eq!(t.cursor, 15);
    t.cursor_left();
    assert_eq!(t.goal_x, None);
    t.cursor_vertical(false);
    t.cursor_vertical(false);
    assert_eq!(t.cursor, 4);
    t.cursor_vertical(false);
    assert_eq!(t.cursor, 4);
    t.cursor_end();
    assert_eq!(t.cursor, 6);
    t.cursor_right();
    assert_eq!(t.cursor, 7);
    t.cursor_home();
    assert_eq!(t.cursor, 7);
}

#[test]
fn keys_of_several_lines() {
    let mut t = field();
    assert_eq!(t.on_key(&typed("ab"), PLAIN, &square), EventResponse::Handled);
    assert_eq!(t.on_key(&key(NamedKey::Enter), PLAIN, &square), EventResponse::Handled);
    t.on_key(&typed("cd"), PLAIN, &square);
    assert_eq!(text(&t), "ab\ncd");
    t.on_key(&key(NamedKey::ArrowUp), SHIFT, &square);
    assert_eq!(t.selection_range(), Some((2, 5)));
    // Without shift, a selection is left at its end on that side.
    t.on_key(&key(NamedKey::ArrowLeft), PLAIN, &square);
    assert_eq!((t.cursor, t.selection_anchor), (2, None));
    t.on_key(&key(NamedKey::ArrowRight), SHIFT, &square);
    t.on_key(&key(NamedKey::ArrowRight), SHIFT, &square);
    t.on_key(&key(NamedKey::ArrowRight), PLAIN, &square);
    assert_eq!((t.cursor, t.selection_anchor), (4, None));
    t.on_key(&key(NamedKey::Home), PLAIN, &square);
    assert_eq!(t.cursor, 3);
    t.on_key(&key(NamedKey::End), SHIFT, &square);
    assert_eq!(t.selected_text().unwrap(), "cd");
    t.on_key(&key(NamedKey::Delete), PLAIN, &square);
    t.on_key(&key(NamedKey::Backspace), PLAIN, &square);
    assert_eq!(text(&t), "ab");
    t.on_key(&key(NamedKey::ArrowDown), PLAIN, &square);
    assert_eq!(t.cursor, 2);
    let all = KeyEvent { pressed: true, key: Key::Character('A'), text: Vec::new() };
    t.on_key(&all, CTRL, &square);
    assert_eq!(t.selection_range(), Some((0, 2)));
    assert_eq!(t.on_key(&typed("v"), CTRL, &square), EventResponse::Pass);
    assert_eq!(t.on_key(&typed("\r"), PLAIN, &square), EventResponse::Pass);
}

#[test]
fn pointer_places_and_selects() {
    let mut t = with_text("abcdef\nghijkl");
    t.set_layout(px(60), px(100), px(111), px(60), &square);
    // The text starts at 4.5 + 5.5 = 10 px, the first row at 63 + 4.5 px.
    assert_eq!(t.cursor_index_from_xy(px(24), px(70)), 1);
    assert_eq!(t.cursor_index_from_xy(px(26), px(70)), 2);
    assert_eq!(t.cursor_index_from_xy(px(500), px(0)), 6);
    assert_eq!(t.cursor_index_from_xy(px(0), px(500)), 7);
    t.pointer_press(px(24), px(70));
    assert_eq!((t.cursor, t.selection_anchor), (1, None));
    t.pointer_drag(px(34), px(85));
    assert_eq!(t.selection_range(), Some((1, 9)));
    t.select_word_at(6);
    assert_eq!(t.selected_text().unwrap(), "\n");
    t.select_word_at(9);
    assert_eq!(t.selected_text().unwrap(), "ghijkl");
    assert_eq!(t.on_click(px(0), px(70)), EventResponse::Handled);
    assert_eq!(t.cursor, 0);
    assert!(t.contains(px(60), px(80)) && !t.contains(px(60), px(50)));
}

#[test]
fn wheel_scrolls_within_bounds() {
    let mut t = with_text("1\n2\n3\n4\n5\n6");
    t.set_layout(px(60), px(100), px(111), px(60), &square);
    // Six rows are 84 px, 51 px show.
    assert_eq!(t.scroll_y, px(33));
    assert!(!t.scroll_by(px(5)));
    assert!(t.scroll_by(-px(10)));
    assert_eq!(t.scroll_y, px(23));
    assert!(t.scroll_by(-px(100)));
    assert_eq!(t.scroll_y, 0);
}

#[test]
fn selected_line_breaks_show_as_stubs() {
    let mut t = with_text("ab\n\ncd");
    t.set_layout(px(60), px(100), px(111), px(60), &square);
    t.selection_anchor = Some(1);
    t.cursor = 5;
    let d = t.line_draws();
    assert_eq!(d.len(), 3);
    let left = t.pad_x();
    assert_eq!(d[0].sel, Some((left + px(10), left + px(20))));
    // 0.35 of the font size.
    assert_eq!(d[1].sel, Some((left, left + px(7) / 2)));
    assert_eq!(d[2].sel, Some((left, left + px(10))));
    assert_eq!(d[0].y_center, t.pad_y() + px(7));
    assert_eq!(t.line_text(d[2]), "cd");
    assert_eq!((d[1].start, d[1].end), (3, 3));
}

#[test]
fn page_paints_and_reports_damage() {
    let mut t = with_text("ab");
    t.set_layout(px(60), px(100), px(111), px(60), &square);
    t.set_focused(true);
    // Nothing was painted yet.
    assert_eq!(t.damage_rect(128, 120), None);
    let lines = vec![Vec::new()];
    let art = PageArt { inner: &[], outer: &[], lines: &lines };
    let mut pixels = vec![0u32; 128 * 120];
    let mut hits = vec![0u16; 128 * 120];
    let mut damage = Damage::new();
    let mut canvas = Canvas::new(&mut pixels, 128, 120, &mut damage);
    assert_eq!(t.render_content_into(&mut canvas, 0, 0, &art, None, Some(&mut hits), 6), 2);
    assert_eq!(hits[88 * 128 + 60], 6);
    // The cursor stands behind two characters: 4.5 + 5.5 + 20 px.
    let fill = pixels[86 * 128 + 60] & 0xFF;
    assert!(pixels[86 * 128 + 30] & 0xFF < fill);
    assert_eq!(t.damage_rect(128, 120), Some(PixelRect::new(22, 81, 38, 95)));
    t.flip_blinkey();
    assert!(t.damage_rect(128, 120).is_some());
    let mut damage = Damage::new();
    let mut canvas = Canvas::new(&mut pixels, 128, 120, &mut damage);
    assert_eq!(t.render_content_into(&mut canvas, 0, 0, &art, None, None, 6), 0);
    assert_eq!(t.damage_rect(128, 120), None);
    t.reset_paint_tracking();
    assert_eq!(t.damage_rect(128, 120), None);
    assert_ne!(t.tint_delta(), 0);
    t.set_focused(false);
    assert_eq!(t.tint_delta(), 0);
    t.set_enabled(false);
    assert!(!t.accepts_input());
}
