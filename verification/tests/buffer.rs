//! The edit buffer.
use ratwarren::editor::{Motion, Position, TextBuffer};

fn assert_in_buffer(buf: &TextBuffer, pos: Position) {
    assert!(pos.line < buf.lines().len());
    assert!(pos.col <= buf.lines()[pos.line].chars().count());
}

fn assert_invariants(buf: &TextBuffer) {
    assert!(!buf.lines().is_empty());
    for line in buf.lines() {
        assert!(!line.contains('\n'));
    }
    assert_in_buffer(buf, buf.cursor());
    if let Some((start, end)) = buf.selection() {
        assert_in_buffer(buf, start);
        assert_in_buffer(buf, end);
        assert_ne!(start, end);
    }
}

#[test]
fn text_round_trips_including_trailing_newline() {
    for s in ["", "a", "a\nb\n", "a\nb", "\n", "a\n\nb"] {
        assert_eq!(TextBuffer::from_text(s).text(), s);
    }
}

#[test]
fn new_and_empty() {
    let buf = TextBuffer::new();
    assert!(buf.is_empty());
    assert_eq!(buf.lines(), &[String::new()]);
    assert_invariants(&buf);
}

#[test]
fn insert_char_and_newline_delegate() {
    let mut buf = TextBuffer::new();
    buf.insert_char('a');
    buf.insert_char('b');
    buf.insert_char('\n');
    buf.insert_char('c');
    assert_eq!(buf.text(), "ab\nc");
    assert_eq!(buf.cursor(), Position { line: 1, col: 1 });
    assert_invariants(&buf);
}

#[test]
fn insert_str_multiline_paste() {
    let mut buf = TextBuffer::from_text("hello world");
    buf.move_to(Position { line: 0, col: 5 }, Motion::Move);
    buf.insert_str(" cruel\nnew");
    assert_eq!(buf.text(), "hello cruel\nnew world");
    assert_invariants(&buf);
}

#[test]
fn delete_backward_joins_lines_at_column_zero() {
    let mut buf = TextBuffer::from_text("a\nb");
    buf.move_to(Position { line: 1, col: 0 }, Motion::Move);
    buf.delete_backward();
    assert_eq!(buf.text(), "ab");
    assert_eq!(buf.cursor(), Position { line: 0, col: 1 });
    assert_invariants(&buf);
}

#[test]
fn delete_backward_at_buffer_start_is_noop() {
    let mut buf = TextBuffer::from_text("abc");
    buf.delete_backward();
    assert_eq!(buf.text(), "abc");
    assert_invariants(&buf);
}

#[test]
fn delete_forward_joins_lines_at_line_end() {
    let mut buf = TextBuffer::from_text("a\nb");
    buf.move_to(Position { line: 0, col: 1 }, Motion::Move);
    buf.delete_forward();
    assert_eq!(buf.text(), "ab");
    assert_invariants(&buf);
}

#[test]
fn delete_forward_at_buffer_end_is_noop() {
    let mut buf = TextBuffer::from_text("abc");
    buf.move_buffer_end(Motion::Move);
    buf.delete_forward();
    assert_eq!(buf.text(), "abc");
    assert_invariants(&buf);
}

#[test]
fn selection_delete_clears_anchor_and_moves_cursor_to_start() {
    let mut buf = TextBuffer::from_text("hello world");
    buf.move_to(Position { line: 0, col: 0 }, Motion::Move);
    buf.move_to(Position { line: 0, col: 5 }, Motion::Extend);
    assert!(buf.delete_selection());
    assert_eq!(buf.text(), " world");
    assert_eq!(buf.cursor(), Position { line: 0, col: 0 });
    assert_eq!(buf.selection(), None);
    assert_invariants(&buf);
}

#[test]
fn empty_selection_is_none() {
    let mut buf = TextBuffer::from_text("abc");
    buf.move_to(Position { line: 0, col: 1 }, Motion::Extend);
    buf.move_to(Position { line: 0, col: 1 }, Motion::Move);
    assert_eq!(buf.selection(), None);
}

#[test]
fn insert_char_deletes_active_selection_first() {
    let mut buf = TextBuffer::from_text("hello world");
    buf.move_to(Position { line: 0, col: 0 }, Motion::Move);
    buf.move_to(Position { line: 0, col: 5 }, Motion::Extend);
    buf.insert_char('X');
    assert_eq!(buf.text(), "X world");
    assert_invariants(&buf);
}

#[test]
fn move_up_down_honor_goal_col() {
    let mut buf = TextBuffer::from_text("longline\nhi\nlongline");
    buf.move_to(Position { line: 0, col: 6 }, Motion::Move);
    buf.move_down(Motion::Move);
    assert_eq!(buf.cursor(), Position { line: 1, col: 2 });
    buf.move_down(Motion::Move);
    assert_eq!(buf.cursor(), Position { line: 2, col: 6 });
    assert_invariants(&buf);
}

#[test]
fn move_up_at_top_is_noop() {
    let mut buf = TextBuffer::from_text("abc");
    buf.move_to(Position { line: 0, col: 2 }, Motion::Move);
    buf.move_up(Motion::Move);
    assert_eq!(buf.cursor(), Position { line: 0, col: 2 });
    assert_invariants(&buf);
}

#[test]
fn offset_of_and_position_of_round_trip_with_multibyte() {
    let buf = TextBuffer::from_text("a🦀b\nsecond");
    let pos = Position { line: 0, col: 3 };
    let offset = buf.offset_of(pos);
    assert_eq!(buf.position_of(offset), pos);
}

#[test]
fn position_of_out_of_range_clamps_instead_of_panicking() {
    let buf = TextBuffer::from_text("abc");
    assert_eq!(buf.position_of(1000), Position { line: 0, col: 3 });
}

#[test]
fn move_to_clamps_out_of_range_position() {
    let mut buf = TextBuffer::from_text("ab\nc");
    buf.move_to(Position { line: 99, col: 99 }, Motion::Move);
    assert_eq!(buf.cursor(), Position { line: 1, col: 1 });
    assert_invariants(&buf);
}

#[test]
fn select_all_selects_full_buffer() {
    let mut buf = TextBuffer::from_text("ab\ncd");
    buf.select_all();
    let (start, end) = buf.selection().unwrap();
    assert_eq!(start, Position { line: 0, col: 0 });
    assert_eq!(end, Position { line: 1, col: 2 });
    assert_invariants(&buf);
}

#[test]
fn select_all_on_empty_buffer_does_not_leave_a_phantom_anchor() {
    let mut buf = TextBuffer::new();
    buf.select_all();
    assert_eq!(buf.selection(), None);
    assert_invariants(&buf);
}

#[test]
fn select_all_resets_a_stale_goal_col() {
    let mut buf = TextBuffer::from_text("longline\nhi\nlongline");
    buf.move_to(Position { line: 0, col: 6 }, Motion::Move);
    buf.move_down(Motion::Move);
    buf.select_all();
    buf.move_down(Motion::Extend);
    let (_, end) = buf.selection().unwrap();
    assert_eq!(
        end,
        Position { line: 2, col: 8 },
        "selection must still cover the whole buffer"
    );
    assert_invariants(&buf);
}

#[test]
fn backspace_over_an_active_selection_deletes_only_the_selection() {
    let mut buf = TextBuffer::from_text("hello world");
    buf.move_to(Position { line: 0, col: 0 }, Motion::Move);
    buf.move_to(Position { line: 0, col: 5 }, Motion::Extend);
    buf.delete_backward();
    assert_eq!(buf.text(), " world");
    assert_eq!(buf.cursor(), Position { line: 0, col: 0 });
    assert_invariants(&buf);
}

#[test]
fn delete_forward_over_an_active_selection_deletes_only_the_selection() {
    let mut buf = TextBuffer::from_text("hello world");
    buf.move_to(Position { line: 0, col: 0 }, Motion::Move);
    buf.move_to(Position { line: 0, col: 5 }, Motion::Extend);
    buf.delete_forward();
    assert_eq!(buf.text(), " world");
    assert_invariants(&buf);
}

#[test]
fn move_left_at_buffer_start_is_noop() {
    let mut buf = TextBuffer::from_text("ab\ncd");
    buf.move_left(Motion::Move);
    assert_eq!(buf.cursor(), Position { line: 0, col: 0 });
    assert_invariants(&buf);
}

#[test]
fn move_right_at_buffer_end_is_noop() {
    let mut buf = TextBuffer::from_text("ab\ncd");
    buf.move_buffer_end(Motion::Move);
    let end = buf.cursor();
    buf.move_right(Motion::Move);
    assert_eq!(buf.cursor(), end);
    assert_invariants(&buf);
}

#[test]
fn move_down_on_last_line_is_noop() {
    let mut buf = TextBuffer::from_text("ab\ncd");
    buf.move_to(Position { line: 1, col: 1 }, Motion::Move);
    buf.move_down(Motion::Move);
    assert_eq!(buf.cursor(), Position { line: 1, col: 1 });
    assert_invariants(&buf);
}

#[test]
fn extend_with_no_existing_selection_anchors_at_pre_move_cursor() {
    let mut buf = TextBuffer::from_text("hello world");
    buf.move_to(Position { line: 0, col: 3 }, Motion::Move);
    buf.move_to(Position { line: 0, col: 7 }, Motion::Extend);
    let (start, end) = buf.selection().unwrap();
    assert_eq!(start, Position { line: 0, col: 3 });
    assert_eq!(end, Position { line: 0, col: 7 });
}

#[test]
fn consecutive_extends_keep_the_original_anchor_fixed() {
    let mut buf = TextBuffer::from_text("abcdefghij");
    buf.move_to(Position { line: 0, col: 2 }, Motion::Move);
    buf.move_to(Position { line: 0, col: 4 }, Motion::Extend);
    buf.move_to(Position { line: 0, col: 6 }, Motion::Extend);
    buf.move_to(Position { line: 0, col: 8 }, Motion::Extend);
    let (start, end) = buf.selection().unwrap();
    assert_eq!(start, Position { line: 0, col: 2 });
    assert_eq!(end, Position { line: 0, col: 8 });
}

#[test]
fn extend_then_retreat_to_a_zero_width_selection_does_not_leave_a_phantom_anchor() {
    let mut buf = TextBuffer::from_text("");
    buf.move_right(Motion::Extend);
    buf.move_left(Motion::Extend);
    assert_eq!(buf.selection(), None);
    buf.insert_char('X');
    buf.insert_char('Y');
    assert_eq!(buf.text(), "XY");
    assert_invariants(&buf);
}

#[test]
fn switching_from_extend_to_move_collapses_the_selection() {
    let mut buf = TextBuffer::from_text("abcdefghij");
    buf.move_to(Position { line: 0, col: 2 }, Motion::Move);
    buf.move_to(Position { line: 0, col: 6 }, Motion::Extend);
    assert!(buf.selection().is_some());
    buf.move_to(Position { line: 0, col: 6 }, Motion::Move);
    assert_eq!(buf.selection(), None);
}

#[test]
fn goal_col_restores_through_short_then_long_lines() {
    let mut buf = TextBuffer::from_text("longline\nhi\nlongline");
    buf.move_to(Position { line: 0, col: 6 }, Motion::Move);
    buf.move_down(Motion::Move);
    assert_eq!(
        buf.cursor(),
        Position { line: 1, col: 2 },
        "clamped to short line's length"
    );
    buf.move_down(Motion::Move);
    assert_eq!(
        buf.cursor(),
        Position { line: 2, col: 6 },
        "goal_col restored once a long-enough line is reached again"
    );
    assert_invariants(&buf);
}

#[test]
fn goal_col_is_cleared_by_a_subsequent_horizontal_move() {
    let mut buf = TextBuffer::from_text("longline\nhi\nlongline");
    buf.move_to(Position { line: 0, col: 6 }, Motion::Move);
    buf.move_down(Motion::Move);
    assert_eq!(
        buf.cursor(),
        Position { line: 1, col: 2 },
        "clamped to \"hi\"'s length, goal_col recorded as 6"
    );
    buf.move_left(Motion::Move);
    assert_eq!(buf.cursor(), Position { line: 1, col: 1 });
    buf.move_down(Motion::Move);
    assert_eq!(
        buf.cursor(),
        Position { line: 2, col: 1 },
        "goal_col must have been reset to 1 by move_left, not left at the stale 6"
    );
    assert_invariants(&buf);
}

#[test]
fn move_right_over_emoji_lands_after_the_whole_character() {
    let mut buf = TextBuffer::from_text("a🦀b");
    buf.move_to(Position { line: 0, col: 0 }, Motion::Move);
    buf.move_right(Motion::Move);
    assert_eq!(buf.cursor(), Position { line: 0, col: 1 });
    buf.move_right(Motion::Move);
    assert_eq!(buf.cursor(), Position { line: 0, col: 2 });
    let offset = buf.offset_of(buf.cursor());
    assert!(buf.text().is_char_boundary(offset));
    assert_eq!(&buf.text()[offset..], "b");
    assert_invariants(&buf);
}

#[test]
fn offset_and_position_round_trip_with_cjk_and_emoji_mixed() {
    let buf = TextBuffer::from_text("日本🦀語\nsecond");
    for col in 0..=4 {
        let pos = Position { line: 0, col };
        let offset = buf.offset_of(pos);
        assert!(buf.text().is_char_boundary(offset));
        assert_eq!(buf.position_of(offset), pos);
    }
}
