use frost::editor::Editor;

fn editor_with(text: &str) -> Editor {
    let mut e = Editor::new();
    e.insert_text(text, 0);
    e
}

#[test]
fn new_editor_is_empty() {
    let e = Editor::new();
    assert_eq!(e.rope_text(), "");
    assert_eq!(e.caret(), 0);
    assert_eq!(e.selection_range(), None);
    assert!(!e.is_modified());
    assert_eq!(e.get_current_query(), "");
}

#[test]
fn undo_and_redo_follow_the_time_groups() {
    let mut e = Editor::new();
    e.insert_text("SELECT ", 0);
    e.insert_text("1", 1200);
    assert_eq!(e.rope_text(), "SELECT 1");
    e.undo();
    assert_eq!(e.rope_text(), "SELECT ");
    e.undo();
    assert_eq!(e.rope_text(), "");
    e.redo();
    e.redo();
    assert_eq!(e.rope_text(), "SELECT 1");
    assert_eq!(e.caret(), 8);
}

#[test]
fn edits_within_a_second_share_a_group() {
    let mut e = Editor::new();
    e.insert_text("a", 100);
    e.insert_text("b", 600);
    e.insert_text("c", 1600);
    assert_eq!(e.rope_text(), "abc");
    e.undo();
    assert_eq!(e.rope_text(), "");
    assert_eq!(e.caret(), 0);
    e.redo();
    assert_eq!(e.rope_text(), "abc");
    assert_eq!(e.caret(), 3);
}

#[test]
fn an_edit_after_more_than_a_second_starts_a_group() {
    let mut e = Editor::new();
    e.insert_text("a", 0);
    e.insert_text("b", 1000);
    e.insert_text("c", 2001);
    e.undo();
    assert_eq!(e.rope_text(), "ab");
    e.undo();
    assert_eq!(e.rope_text(), "");
}

#[test]
fn an_edit_after_undo_starts_a_group() {
    let mut e = Editor::new();
    e.insert_text("a", 0);
    e.undo();
    e.redo();
    e.insert_text("b", 10);
    assert_eq!(e.rope_text(), "ab");
    e.undo();
    assert_eq!(e.rope_text(), "a");
    e.undo();
    assert_eq!(e.rope_text(), "");
}

#[test]
fn an_edit_clears_the_redo_stack() {
    let mut e = Editor::new();
    e.insert_text("a", 0);
    e.undo();
    e.insert_text("b", 10);
    e.redo();
    assert_eq!(e.rope_text(), "b");
}

#[test]
fn selecting_left_and_deleting() {
    let mut e = editor_with("abcdef");
    e.move_left(false);
    e.move_left(false);
    e.move_left(false);
    assert_eq!(e.caret(), 3);
    e.move_left(true);
    e.move_left(true);
    assert_eq!(e.selection_range(), Some((1, 3)));
    e.delete_selection(5000);
    assert_eq!(e.rope_text(), "adef");
    assert_eq!(e.caret(), 1);
    assert_eq!(e.selection_range(), None);
}

#[test]
fn delete_selection_without_selection_changes_nothing() {
    let mut e = editor_with("abc");
    e.delete_selection(10);
    assert_eq!(e.rope_text(), "abc");
    assert_eq!(e.caret(), 3);
    e.undo();
    assert_eq!(e.rope_text(), "");
}

#[test]
fn select_all_selects_from_start_to_end() {
    let mut e = editor_with("hello\nworld");
    e.move_left(false);
    e.move_left(false);
    e.select_all();
    assert_eq!(e.selection_range(), Some((0, 11)));
    assert_eq!(e.caret(), 11);
    let mut empty = Editor::new();
    empty.select_all();
    assert_eq!(empty.selection_range(), Some((0, 0)));
}

#[test]
fn current_query_is_the_selection_or_the_whole_text() {
    let mut e = editor_with("SELECT 1; SELECT 2");
    assert_eq!(e.get_current_query(), "SELECT 1; SELECT 2");
    e.move_left(true);
    e.move_left(true);
    assert_eq!(e.get_current_query(), " 2");
    e.move_right(false);
    assert_eq!(e.get_current_query(), "SELECT 1; SELECT 2");
}

#[test]
fn inserting_over_a_selection_replaces_it() {
    let mut a = editor_with("abcdef");
    a.move_left(false);
    a.move_left(true);
    a.move_left(true);
    a.insert_text("XY", 5000);
    let mut b = editor_with("abcdef");
    b.move_left(false);
    b.move_left(true);
    b.move_left(true);
    b.delete_selection(5000);
    assert_eq!(b.caret(), 3);
    b.insert_text("XY", 5000);
    assert_eq!(a.rope_text(), "abcXYf");
    assert_eq!(a.rope_text(), b.rope_text());
    assert_eq!(a.caret(), b.caret());
    assert_eq!(a.caret(), 5);
    a.undo();
    assert_eq!(a.rope_text(), "abcdef");
}

#[test]
fn undo_then_redo_gives_the_same_editor() {
    let mut e = editor_with("one");
    e.insert_text(" two", 3000);
    let text = e.rope_text();
    let caret = e.caret();
    let modified = e.is_modified();
    e.undo();
    assert_eq!(e.rope_text(), "one");
    e.redo();
    assert_eq!(e.rope_text(), text);
    assert_eq!(e.caret(), caret);
    assert_eq!(e.is_modified(), modified);
}

#[test]
fn undo_on_a_new_editor_changes_nothing() {
    let mut e = Editor::new();
    e.undo();
    e.redo();
    assert_eq!(e.rope_text(), "");
    assert_eq!(e.caret(), 0);
    assert!(!e.is_modified());
}

#[test]
fn characters_of_several_bytes_move_and_delete_whole() {
    let mut e = editor_with("a\u{e9}\u{4e16}\u{1f600}z");
    assert_eq!(e.len_bytes(), 11);
    assert_eq!(e.caret(), 11);
    e.move_left(false);
    assert_eq!(e.caret(), 10);
    e.move_left(false);
    assert_eq!(e.caret(), 6);
    e.move_left(false);
    assert_eq!(e.caret(), 3);
    e.move_left(false);
    assert_eq!(e.caret(), 1);
    e.move_right(false);
    assert_eq!(e.caret(), 3);
    e.delete_after(5000);
    assert_eq!(e.rope_text(), "a\u{e9}\u{1f600}z");
    assert_eq!(e.caret(), 3);
    e.delete_before(5001);
    assert_eq!(e.rope_text(), "a\u{1f600}z");
    assert_eq!(e.caret(), 1);
    e.undo();
    assert_eq!(e.rope_text(), "a\u{e9}\u{4e16}\u{1f600}z");
    assert_eq!(e.caret(), 6);
}

#[test]
fn inserting_in_the_middle_of_text_with_wide_characters() {
    let mut e = editor_with("\u{4e16}\u{754c}");
    e.move_left(false);
    assert_eq!(e.caret(), 3);
    e.insert_text("-", 2000);
    assert_eq!(e.rope_text(), "\u{4e16}-\u{754c}");
    assert_eq!(e.caret(), 4);
    e.insert('\u{e9}', 2001);
    assert_eq!(e.rope_text(), "\u{4e16}-\u{e9}\u{754c}");
    assert_eq!(e.caret(), 6);
    e.undo();
    assert_eq!(e.rope_text(), "\u{4e16}\u{754c}");
    assert_eq!(e.caret(), 3);
}

#[test]
fn delete_before_at_the_start_and_delete_after_at_the_end_do_nothing() {
    let mut e = editor_with("ab");
    e.delete_after(5000);
    assert_eq!(e.rope_text(), "ab");
    e.move_left(false);
    e.move_left(false);
    e.delete_before(5000);
    assert_eq!(e.rope_text(), "ab");
    assert_eq!(e.caret(), 0);
    e.move_left(false);
    assert_eq!(e.caret(), 0);
}

#[test]
fn deleting_with_a_selection_deletes_the_selection() {
    let mut e = editor_with("abcdef");
    e.move_left(true);
    e.move_left(true);
    e.delete_before(5000);
    assert_eq!(e.rope_text(), "abcd");
    e.move_left(true);
    e.delete_after(7000);
    assert_eq!(e.rope_text(), "abc");
    e.undo();
    assert_eq!(e.rope_text(), "abcd");
    assert_eq!(e.caret(), 4);
}

#[test]
fn moving_without_select_drops_the_anchor() {
    let mut e = editor_with("abc");
    e.move_left(true);
    assert_eq!(e.selection_range(), Some((2, 3)));
    e.move_left(false);
    assert_eq!(e.selection_range(), None);
    assert_eq!(e.caret(), 1);
    e.move_right(true);
    assert_eq!(e.selection_range(), Some((1, 2)));
}

#[test]
fn line_start_and_line_end() {
    let mut e = editor_with("ab\ncde\n\nf");
    assert_eq!(e.caret(), 9);
    e.move_line_start(false);
    assert_eq!(e.caret(), 8);
    e.move_line_end(false);
    assert_eq!(e.caret(), 9);
    e.move_left(false);
    e.move_left(false);
    assert_eq!(e.caret(), 7);
    e.move_line_start(false);
    assert_eq!(e.caret(), 7);
    e.move_line_end(false);
    assert_eq!(e.caret(), 7);
    e.move_left(false);
    e.move_left(false);
    assert_eq!(e.caret(), 5);
    e.move_line_start(true);
    assert_eq!(e.caret(), 3);
    assert_eq!(e.selection_range(), Some((3, 5)));
    e.move_line_end(true);
    assert_eq!(e.caret(), 6);
    assert_eq!(e.selection_range(), Some((5, 6)));
    e.move_line_start(false);
    e.move_left(false);
    assert_eq!(e.caret(), 2);
    e.move_line_start(false);
    assert_eq!(e.caret(), 0);
    e.move_line_end(false);
    assert_eq!(e.caret(), 2);
}

#[test]
fn line_end_before_a_line_feed_after_wide_characters() {
    let mut e = editor_with("\u{4e16}\u{754c}\nx");
    e.move_left(false);
    e.move_left(false);
    e.move_left(false);
    assert_eq!(e.caret(), 3);
    e.move_line_end(false);
    assert_eq!(e.caret(), 6);
    e.move_line_start(false);
    assert_eq!(e.caret(), 0);
}

#[test]
fn copy_cut_and_paste() {
    let mut e = editor_with("hello world");
    assert_eq!(e.copy(), None);
    assert_eq!(e.cut(10), None);
    for _ in 0..5 {
        e.move_left(true);
    }
    assert_eq!(e.copy(), Some("world".to_string()));
    assert_eq!(e.rope_text(), "hello world");
    let cut = e.cut(5000);
    assert_eq!(cut, Some("world".to_string()));
    assert_eq!(e.rope_text(), "hello ");
    e.paste("there", 9000);
    assert_eq!(e.rope_text(), "hello there");
    assert_eq!(e.caret(), 11);
    assert!(e.is_modified());
    e.undo();
    assert_eq!(e.rope_text(), "hello ");
    e.undo();
    assert_eq!(e.rope_text(), "hello world");
}

#[test]
fn one_undo_for_each_group_restores_the_text_before_the_group() {
    let mut e = Editor::new();
    e.insert_text("first", 0);
    e.insert_text(" second", 5000);
    e.move_left(false);
    e.delete_before(10000);
    e.insert('X', 10100);
    assert_eq!(e.rope_text(), "first secoXd");
    e.undo();
    assert_eq!(e.rope_text(), "first second");
    assert!(e.caret() <= e.len_bytes());
    e.undo();
    assert_eq!(e.rope_text(), "first");
    e.undo();
    assert_eq!(e.rope_text(), "");
    assert_eq!(e.caret(), 0);
}

#[test]
fn only_line_feeds_end_lines() {
    let mut e = editor_with("a\u{2028}b\rc\u{85}d");
    e.move_line_start(false);
    assert_eq!(e.caret(), 0);
    e.move_line_end(false);
    assert_eq!(e.caret(), e.len_bytes());
    assert_eq!(e.caret_position_visual().0, 0);
}

#[test]
fn a_carriage_return_before_a_line_feed_belongs_to_the_line() {
    let mut e = editor_with("ab\r\ncd");
    e.move_line_start(false);
    assert_eq!(e.caret(), 4);
    e.move_left(false);
    e.move_left(false);
    assert_eq!(e.caret(), 2);
    e.move_line_end(false);
    assert_eq!(e.caret(), 3);
    e.move_line_start(false);
    assert_eq!(e.caret(), 0);
}
