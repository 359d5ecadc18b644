use vflip::cmdui::entry::{Key, TextEntry};
use vflip::cmdui::io::{clear_screen, hide_cursor, is_writable, render, set_cursor, show_cursor};
use vflip::cmdui::UIModel;
use vflip::error::Error;

fn rows(model: &UIModel) -> Vec<String> {
    model.buffer().iter().map(|row| row.iter().collect()).collect()
}

#[test]
fn writable_characters() {
    assert!(is_writable(' '));
    assert!(is_writable('a'));
    assert!(is_writable('~'));
    assert!(!is_writable('\x1f'));
    assert!(!is_writable('\x7f'));
    assert!(!is_writable('\n'));
    assert!(!is_writable('\t'));
    assert!(!is_writable('\u{e9}'));
}

#[test]
fn writable_goes_by_the_low_byte() {
    // U+0141 ends in 0x41, the code of `A`; U+0100 ends in zero.
    assert!(is_writable('\u{141}'));
    assert!(!is_writable('\u{100}'));
    assert!(is_writable('\u{10020}'));
}

#[test]
fn control_sequences() {
    assert_eq!(clear_screen(), "\x1b[1;1H\x1b[3J\x1b[0J");
    assert_eq!(hide_cursor(), "\x1b[?25l");
    assert_eq!(show_cursor(), "\x1b[?25h");
    assert_eq!(set_cursor(0, 0), "\x1b[0;0H");
    assert_eq!(set_cursor(3, 12), "\x1b[3;12H");
    assert_eq!(set_cursor(19, 1), "\x1b[19;1H");
    assert_eq!(set_cursor(100, 2345), "\x1b[100;2345H");
}

#[test]
fn frame_paints_every_cell() {
    let buffer = vec![vec!['a', 'b'], vec!['c', 'd']];
    let (text, status) = render(&buffer);
    assert_eq!(text, "\x1b[?25l\x1b[0;0Ha\x1b[0;1Hb\x1b[1;0Hc\x1b[1;1Hd");
    assert_eq!(status, Ok(()));
}

#[test]
fn frame_of_ragged_and_empty_buffers() {
    let (text, status) = render(&Vec::new());
    assert_eq!(text, "\x1b[?25l");
    assert_eq!(status, Ok(()));
    let buffer = vec![vec![], vec!['x'], vec![' ', '~', '0']];
    let (text, status) = render(&buffer);
    assert_eq!(text, "\x1b[?25l\x1b[1;0Hx\x1b[2;0H \x1b[2;1H~\x1b[2;2H0");
    assert_eq!(status, Ok(()));
}

#[test]
fn frame_with_a_character_that_cannot_be_shown() {
    let buffer = vec![vec!['a', 'b'], vec!['c', '\n']];
    let (text, status) = render(&buffer);
    assert_eq!(text, "\x1b[?25l");
    assert_eq!(status, Err(Error::Custom("Invalid char in screen buffer.".to_string())));
}

#[test]
fn new_screen_is_blank() {
    let model = UIModel::new(4, 2);
    assert_eq!(rows(&model), vec!["    ", "    "]);
    assert_eq!(model.get_cursor(), None);
    assert_eq!(rows(&UIModel::new(0, 3)), vec!["", "", ""]);
    assert_eq!(rows(&UIModel::new(3, 0)), Vec::<String>::new());
}

#[test]
fn cursor_is_kept_as_set() {
    let mut model = UIModel::new(4, 2);
    assert_eq!(model.set_cursor(1, 3), Ok(()));
    assert_eq!(model.get_cursor(), Some((1, 3)));
    assert_eq!(model.set_cursor(99, 7), Ok(()));
    assert_eq!(model.get_cursor(), Some((99, 7)));
    assert_eq!(rows(&model), vec!["    ", "    "]);
}

#[test]
fn text_is_written_from_its_place() {
    let mut model = UIModel::new(8, 3);
    assert_eq!(model.render((1, 2), "abc".to_string()), Ok(()));
    assert_eq!(rows(&model), vec!["        ", "  abc   ", "        "]);
    assert_eq!(model.get_cursor(), None);
}

#[test]
fn line_feed_returns_to_the_first_column_of_the_text() {
    let mut model = UIModel::new(8, 3);
    assert_eq!(model.render((0, 3), "ab\ncd\n\nef".to_string()), Ok(()));
    assert_eq!(rows(&model), vec!["   ab   ", "   cd   ", "        "]);
}

#[test]
fn text_beyond_the_edges_is_lost() {
    let mut model = UIModel::new(5, 2);
    assert_eq!(model.render((0, 3), "hello\nworld\nagain".to_string()), Ok(()));
    assert_eq!(rows(&model), vec!["   he", "   wo"]);
    let mut model = UIModel::new(5, 2);
    assert_eq!(model.render((2, 0), "below".to_string()), Ok(()));
    assert_eq!(model.render((0, 5), "right".to_string()), Ok(()));
    assert_eq!(model.render((usize::MAX, usize::MAX), "far\naway\n".to_string()), Ok(()));
    assert_eq!(rows(&model), vec!["     ", "     "]);
}

#[test]
fn characters_that_cannot_be_shown_are_dropped() {
    let mut model = UIModel::new(6, 1);
    assert_eq!(model.render((0, 0), "a\tb\u{e9}c\x7fd".to_string()), Ok(()));
    assert_eq!(rows(&model), vec!["abcd  "]);
}

#[test]
fn later_text_overwrites_earlier_text() {
    let mut model = UIModel::new(6, 1);
    assert_eq!(model.render((0, 0), "abcdef".to_string()), Ok(()));
    assert_eq!(model.render((0, 2), "XY".to_string()), Ok(()));
    assert_eq!(rows(&model), vec!["abXYef"]);
}

#[test]
fn clear_empties_the_screen_and_keeps_the_cursor() {
    let mut model = UIModel::new(3, 2);
    assert_eq!(model.render((0, 0), "abc\ndef".to_string()), Ok(()));
    assert_eq!(model.set_cursor(1, 1), Ok(()));
    model.clear();
    assert_eq!(rows(&model), vec!["   ", "   "]);
    assert_eq!(model.get_cursor(), Some((1, 1)));
}

#[test]
fn screen_can_be_painted() {
    let mut model = UIModel::new(2, 1);
    assert_eq!(model.render((0, 0), "ok".to_string()), Ok(()));
    let (text, status) = render(model.buffer());
    assert_eq!(text, "\x1b[?25l\x1b[0;0Ho\x1b[0;1Hk");
    assert_eq!(status, Ok(()));
}

#[test]
fn typing_a_line() {
    let mut model = UIModel::new(10, 3);
    let mut entry = TextEntry::begin(&mut model, (1, 2)).unwrap();
    assert_eq!(model.get_cursor(), Some((1, 2)));
    assert_eq!(entry.position(), (1, 2));

    assert_eq!(entry.press(&mut model, Key::Char('a')), Ok(false));
    assert_eq!(model.get_cursor(), Some((1, 3)));
    assert_eq!(rows(&model), vec!["          ", "  a       ", "          "]);

    assert_eq!(entry.press(&mut model, Key::Char('b')), Ok(false));
    assert_eq!(model.get_cursor(), Some((1, 4)));
    assert_eq!(entry.position(), (1, 4));
    assert_eq!(rows(&model), vec!["          ", "  ab      ", "          "]);

    assert_eq!(entry.press(&mut model, Key::Other), Ok(false));
    assert_eq!(model.get_cursor(), Some((1, 4)));

    assert_eq!(entry.press(&mut model, Key::Backspace), Ok(false));
    assert_eq!(model.get_cursor(), Some((1, 3)));
    assert_eq!(rows(&model), vec!["          ", "  a       ", "          "]);

    assert_eq!(entry.press(&mut model, Key::Char('c')), Ok(false));
    assert_eq!(rows(&model), vec!["          ", "  ac      ", "          "]);

    assert_eq!(entry.press(&mut model, Key::Char('\n')), Ok(true));
    assert_eq!(model.get_cursor(), Some((1, 2)));
    assert_eq!(rows(&model), vec!["          ", "  ac      ", "          "]);

    assert_eq!(entry.finish(&mut model), Ok("ac".to_string()));
    assert_eq!(model.get_cursor(), Some((1, 2)));
    assert_eq!(rows(&model), vec!["          ", "          ", "          "]);
}

#[test]
fn backspace_at_the_beginning_of_the_line() {
    let mut model = UIModel::new(4, 1);
    assert_eq!(model.render((0, 0), "xxxx".to_string()), Ok(()));
    let mut entry = TextEntry::begin(&mut model, (0, 1)).unwrap();
    assert_eq!(entry.press(&mut model, Key::Backspace), Ok(false));
    assert_eq!(entry.position(), (0, 1));
    assert_eq!(model.get_cursor(), Some((0, 1)));
    assert_eq!(rows(&model), vec!["x xx"]);
    assert_eq!(entry.finish(&mut model), Ok(String::new()));
    assert_eq!(rows(&model), vec!["x xx"]);
}

#[test]
fn finishing_wipes_the_line_and_the_cell_behind_it() {
    let mut model = UIModel::new(6, 1);
    assert_eq!(model.render((0, 0), "######".to_string()), Ok(()));
    let mut entry = TextEntry::begin(&mut model, (0, 1)).unwrap();
    assert_eq!(entry.press(&mut model, Key::Char('h')), Ok(false));
    assert_eq!(entry.press(&mut model, Key::Char('i')), Ok(false));
    assert_eq!(rows(&model), vec!["#hi###"]);
    // Without a line feed the line ends where the input ends.
    assert_eq!(entry.finish(&mut model), Ok("hi".to_string()));
    assert_eq!(rows(&model), vec!["#   ##"]);
    assert_eq!(model.get_cursor(), Some((0, 1)));
}

#[test]
fn characters_that_cannot_be_shown_are_typed_all_the_same() {
    let mut model = UIModel::new(6, 1);
    let mut entry = TextEntry::begin(&mut model, (0, 0)).unwrap();
    assert_eq!(entry.press(&mut model, Key::Char('a')), Ok(false));
    assert_eq!(entry.press(&mut model, Key::Char('\t')), Ok(false));
    assert_eq!(entry.press(&mut model, Key::Char('b')), Ok(false));
    assert_eq!(rows(&model), vec!["ab    "]);
    assert_eq!(entry.position(), (0, 3));
    assert_eq!(entry.finish(&mut model), Ok("a\tb".to_string()));
}
