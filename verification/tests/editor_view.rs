use frost::editor::{Editor, KeyOutcome};
use frost::keys::{command_of, Command, Key, KeyCode};
use frost::visual::scroll_top;

fn key(code: KeyCode) -> Key {
    Key { code, ctrl: false, shift: false, alt: false }
}

fn ctrl(c: char) -> Key {
    Key { code: KeyCode::Char(c), ctrl: true, shift: false, alt: false }
}

fn shift(code: KeyCode) -> Key {
    Key { code, ctrl: false, shift: true, alt: false }
}

fn row_texts(e: &mut Editor, width: usize, height: usize) -> Vec<String> {
    let screen = e.render(width, height, false);
    screen.rows.iter().map(|spans| spans.iter().map(|s| s.text.as_str()).collect::<String>()).collect()
}

#[test]
fn the_caret_position_counts_rows_and_columns() {
    let mut e = Editor::new();
    assert_eq!(e.caret_position_visual(), (0, 0));
    e.insert_text("ab\ncde", 0);
    assert_eq!(e.caret_position_visual(), (1, 3));
    e.move_line_start(false);
    assert_eq!(e.caret_position_visual(), (1, 0));
    e.move_left(false);
    assert_eq!(e.caret_position_visual(), (0, 2));
}

#[test]
fn wide_characters_take_two_columns() {
    let mut e = Editor::new();
    e.insert_text("a\u{4e16}\u{754c}b", 0);
    assert_eq!(e.caret_position_visual(), (0, 6));
    e.move_left(false);
    assert_eq!(e.caret_position_visual(), (0, 5));
    e.move_left(false);
    assert_eq!(e.caret_position_visual(), (0, 3));
}

#[test]
fn a_long_line_is_shown_in_several_rows() {
    let mut e = Editor::new();
    e.insert_text("abcdefghij\nxy", 0);
    assert_eq!(row_texts(&mut e, 4, 10), vec!["abcd", "efgh", "ij", "xy"]);
    assert_eq!(e.caret_position_visual(), (3, 2));
    assert_eq!(row_texts(&mut e, 10, 10), vec!["abcdefghij", "xy"]);
    assert_eq!(row_texts(&mut e, 100, 1), vec!["abcdefghij"]);
    assert_eq!(row_texts(&mut e, 3, 2), vec!["abc", "def"]);
}

#[test]
fn wide_characters_wrap_by_their_width() {
    let mut e = Editor::new();
    e.insert_text("\u{4e16}\u{754c}\u{4e16}\u{754c}", 0);
    assert_eq!(row_texts(&mut e, 5, 10), vec!["\u{4e16}\u{754c}", "\u{4e16}\u{754c}"]);
    assert_eq!(row_texts(&mut e, 1, 10), vec!["\u{4e16}", "\u{754c}", "\u{4e16}", "\u{754c}"]);
    assert_eq!(row_texts(&mut e, 0, 10), vec!["\u{4e16}", "\u{754c}", "\u{4e16}", "\u{754c}"]);
}

#[test]
fn empty_lines_have_rows() {
    let mut e = Editor::new();
    assert_eq!(row_texts(&mut e, 10, 10), vec![""]);
    e.insert_text("\n\nab\n", 0);
    assert_eq!(row_texts(&mut e, 10, 10), vec!["", "", "ab", ""]);
    assert_eq!(e.caret_position_visual(), (3, 0));
}

#[test]
fn the_caret_at_a_wrap_belongs_to_the_next_row() {
    let mut e = Editor::new();
    e.insert_text("abcdef", 0);
    e.set_viewport_width(3);
    assert_eq!(e.caret_position_visual(), (1, 3));
    e.move_left(false);
    e.move_left(false);
    e.move_left(false);
    assert_eq!(e.caret(), 3);
    assert_eq!(e.caret_position_visual(), (1, 0));
    e.move_left(false);
    assert_eq!(e.caret_position_visual(), (0, 2));
}

#[test]
fn moving_up_and_down_keeps_the_column() {
    let mut e = Editor::new();
    e.insert_text("abcdef\nxy\nlonger line", 0);
    e.move_line_start(false);
    for _ in 0..5 {
        e.move_right(false);
    }
    assert_eq!(e.caret_position_visual(), (2, 5));
    e.move_up(false);
    assert_eq!(e.caret_position_visual(), (1, 2));
    assert_eq!(e.caret(), 9);
    e.move_up(false);
    assert_eq!(e.caret_position_visual(), (0, 5));
    assert_eq!(e.caret(), 5);
    e.move_up(false);
    assert_eq!(e.caret(), 5);
    e.move_down(false);
    e.move_down(false);
    assert_eq!(e.caret_position_visual(), (2, 5));
    e.move_down(false);
    assert_eq!(e.caret_position_visual(), (2, 5));
}

#[test]
fn moving_up_and_down_over_wrapped_rows() {
    let mut e = Editor::new();
    e.insert_text("abcdefgh", 0);
    e.set_viewport_width(3);
    assert_eq!(e.caret_position_visual(), (2, 2));
    e.move_left(false);
    assert_eq!(e.caret_position_visual(), (2, 1));
    e.move_up(false);
    assert_eq!(e.caret(), 4);
    assert_eq!(e.caret_position_visual(), (1, 1));
    e.move_up(true);
    assert_eq!(e.caret(), 1);
    assert_eq!(e.selection_range(), Some((1, 4)));
    e.move_down(false);
    assert_eq!(e.caret(), 4);
    assert_eq!(e.selection_range(), None);
}

#[test]
fn moving_down_between_wide_characters() {
    let mut e = Editor::new();
    e.insert_text("abc\n\u{4e16}\u{754c}", 0);
    e.move_up(false);
    assert_eq!(e.caret(), 0);
    e.move_right(false);
    assert_eq!(e.caret_position_visual(), (0, 1));
    e.move_down(false);
    assert_eq!(e.caret(), 4);
    e.move_up(false);
    e.move_right(false);
    e.move_right(false);
    assert_eq!(e.caret_position_visual(), (0, 3));
    e.move_down(false);
    assert_eq!(e.caret(), 7);
    assert_eq!(e.caret_position_visual(), (1, 2));
}

#[test]
fn the_selection_is_shown_in_pieces() {
    let mut e = Editor::new();
    e.insert_text("abcdef\nghi", 0);
    e.move_left(false);
    e.move_left(true);
    e.move_left(true);
    e.move_left(true);
    e.move_left(true);
    assert_eq!(e.selection_range(), Some((5, 9)));
    let screen = e.render(20, 5, true);
    let rows: Vec<Vec<(String, bool)>> =
        screen.rows.iter().map(|r| r.iter().map(|s| (s.text.clone(), s.selected)).collect()).collect();
    assert_eq!(
        rows,
        vec![
            vec![("abcde".to_string(), false), ("f".to_string(), true)],
            vec![("gh".to_string(), true), ("i".to_string(), false)],
        ]
    );
    assert_eq!(screen.cursor, Some((5, 0)));
    let screen = e.render(20, 5, false);
    assert_eq!(screen.cursor, None);
}

#[test]
fn a_row_outside_the_selection_is_one_piece() {
    let mut e = Editor::new();
    e.insert_text("ab\ncd\nef", 0);
    e.move_left(true);
    let screen = e.render(20, 5, true);
    let rows: Vec<Vec<(String, bool)>> =
        screen.rows.iter().map(|r| r.iter().map(|s| (s.text.clone(), s.selected)).collect()).collect();
    assert_eq!(
        rows,
        vec![
            vec![("ab".to_string(), false)],
            vec![("cd".to_string(), false)],
            vec![("e".to_string(), false), ("f".to_string(), true)],
        ]
    );
    assert_eq!(screen.cursor, Some((1, 2)));
}

#[test]
fn scrolling_keeps_context_around_the_caret() {
    let mut e = Editor::new();
    let text: String = (0..50).map(|i| format!("line {}\n", i)).collect();
    e.insert_text(&text, 0);
    assert_eq!(e.caret_position_visual(), (50, 0));
    e.scroll_to_caret(10);
    assert_eq!(e.viewport_top(), 41);
    for _ in 0..20 {
        e.move_up(false);
    }
    assert_eq!(e.caret_position_visual().0, 30);
    e.scroll_to_caret(10);
    assert_eq!(e.viewport_top(), 27);
    e.move_down(false);
    e.scroll_to_caret(10);
    assert_eq!(e.viewport_top(), 27);
    for _ in 0..6 {
        e.move_down(false);
    }
    e.scroll_to_caret(10);
    assert_eq!(e.viewport_top(), 31);
    let screen = e.render(80, 10, true);
    assert_eq!(screen.rows.len(), 10);
    assert_eq!(screen.rows[0][0].text, "line 31");
    assert_eq!(screen.cursor, Some((0, 6)));
}

#[test]
fn scroll_top_values() {
    assert_eq!(scroll_top(0, 0, 10, 3, 100), 0);
    assert_eq!(scroll_top(0, 6, 10, 3, 100), 0);
    assert_eq!(scroll_top(0, 7, 10, 3, 100), 1);
    assert_eq!(scroll_top(20, 5, 10, 3, 100), 2);
    assert_eq!(scroll_top(20, 1, 10, 3, 100), 0);
    assert_eq!(scroll_top(0, 99, 10, 3, 100), 90);
    assert_eq!(scroll_top(95, 99, 10, 3, 100), 90);
    assert_eq!(scroll_top(0, 4, 10, 3, 5), 0);
    assert_eq!(scroll_top(0, 5, 3, 3, 100), 4);
    assert_eq!(scroll_top(0, 5, 1, 3, 100), 5);
    assert_eq!(scroll_top(2, 0, 0, 3, 1), 0);
}

#[test]
fn keys_are_bound_to_commands() {
    assert_eq!(command_of(key(KeyCode::Char('a'))), Command::Insert('a'));
    assert_eq!(command_of(shift(KeyCode::Char('A'))), Command::Insert('A'));
    assert_eq!(command_of(key(KeyCode::Enter)), Command::Insert('\n'));
    assert_eq!(command_of(key(KeyCode::Backspace)), Command::DeleteBefore);
    assert_eq!(command_of(key(KeyCode::Delete)), Command::DeleteAfter);
    assert_eq!(command_of(key(KeyCode::Left)), Command::Left(false));
    assert_eq!(command_of(shift(KeyCode::Right)), Command::Right(true));
    assert_eq!(command_of(shift(KeyCode::Up)), Command::Up(true));
    assert_eq!(command_of(key(KeyCode::Down)), Command::Down(false));
    assert_eq!(command_of(key(KeyCode::Home)), Command::LineStart(false));
    assert_eq!(command_of(shift(KeyCode::End)), Command::LineEnd(true));
    assert_eq!(command_of(ctrl('a')), Command::SelectAll);
    assert_eq!(command_of(ctrl('c')), Command::Copy);
    assert_eq!(command_of(ctrl('x')), Command::Cut);
    assert_eq!(command_of(ctrl('v')), Command::Paste);
    assert_eq!(command_of(ctrl('z')), Command::Undo);
    assert_eq!(command_of(ctrl('y')), Command::Redo);
    assert_eq!(command_of(ctrl('k')), Command::Nothing);
    assert_eq!(command_of(key(KeyCode::Tab)), Command::Nothing);
    assert_eq!(command_of(key(KeyCode::Other)), Command::Nothing);
}

#[test]
fn typing_with_keys() {
    let mut e = Editor::new();
    for c in "select".chars() {
        assert!(matches!(e.handle_key(key(KeyCode::Char(c)), 0), KeyOutcome::Done));
    }
    e.handle_key(key(KeyCode::Enter), 10);
    e.handle_key(key(KeyCode::Char('1')), 20);
    assert_eq!(e.rope_text(), "select\n1");
    e.handle_key(key(KeyCode::Backspace), 30);
    e.handle_key(key(KeyCode::Home), 40);
    e.handle_key(key(KeyCode::Backspace), 50);
    assert_eq!(e.rope_text(), "select");
    e.handle_key(key(KeyCode::Home), 60);
    e.handle_key(key(KeyCode::Delete), 70);
    assert_eq!(e.rope_text(), "elect");
    e.handle_key(shift(KeyCode::End), 80);
    match e.handle_key(ctrl('c'), 90) {
        KeyOutcome::ToClipboard(t) => assert_eq!(t, "elect"),
        _ => panic!("nothing copied"),
    }
    match e.handle_key(ctrl('x'), 100) {
        KeyOutcome::ToClipboard(t) => assert_eq!(t, "elect"),
        _ => panic!("nothing cut"),
    }
    assert_eq!(e.rope_text(), "");
    assert!(matches!(e.handle_key(ctrl('c'), 110), KeyOutcome::Done));
    assert!(matches!(e.handle_key(ctrl('v'), 120), KeyOutcome::FromClipboard));
    e.paste("xyz", 120);
    assert_eq!(e.rope_text(), "xyz");
    e.handle_key(ctrl('a'), 130);
    assert_eq!(e.selection_range(), Some((0, 3)));
    e.handle_key(ctrl('z'), 5000);
    assert_eq!(e.rope_text(), "");
    e.handle_key(ctrl('y'), 5000);
    assert_eq!(e.rope_text(), "xyz");
    e.handle_key(ctrl('k'), 5000);
    e.handle_key(key(KeyCode::Up), 5000);
    e.handle_key(key(KeyCode::Left), 5000);
    e.handle_key(key(KeyCode::Down), 5000);
    e.handle_key(key(KeyCode::Right), 5000);
    assert_eq!(e.rope_text(), "xyz");
    assert_eq!(e.caret(), 3);
}
