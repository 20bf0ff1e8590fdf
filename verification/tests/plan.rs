//! Planning a run.
use ratwarren::editor::{
    plan_run, split, Motion, Position, RunTarget, SplitErrorKind, TextBuffer,
};

#[test]
fn buffer_target_with_clean_buffer_returns_all_statements() {
    let buf = TextBuffer::from_text("SELECT 1; SELECT 2; SELECT 3;");
    let units = plan_run(&buf, RunTarget::Buffer).expect("no tokenizer error");
    assert_eq!(units.len(), 3);
    assert_eq!(units[0].sql, "SELECT 1");
    assert_eq!(units[1].sql, "SELECT 2");
    assert_eq!(units[2].sql, "SELECT 3");
}

#[test]
fn buffer_target_refuses_on_any_tokenizer_error_even_near_the_end() {
    let buf = TextBuffer::from_text("SELECT 1; SELECT 2; SELECT 'unterminated");
    let result = plan_run(&buf, RunTarget::Buffer);
    assert!(result.is_err());
}

#[test]
fn cursor_target_before_error_elsewhere_still_succeeds() {
    let mut buf = TextBuffer::from_text("SELECT 1; SELECT 'unterminated");
    buf.move_to(Position { line: 0, col: 2 }, Motion::Move);
    let units = plan_run(&buf, RunTarget::Cursor).expect("cursor is before the error region");
    assert_eq!(units.len(), 1);
    assert_eq!(units[0].sql, "SELECT 1");
}

#[test]
fn cursor_target_past_the_error_region_start_fails() {
    let text = "SELECT 1; SELECT 'unterminated";
    let mut buf = TextBuffer::from_text(text);
    let error_start = split(text).error().unwrap().span.start;
    buf.move_to(buf.position_of(error_start + 1), Motion::Move);
    let result = plan_run(&buf, RunTarget::Cursor);
    assert!(result.is_err());
}

#[test]
fn cursor_target_exactly_at_error_region_start_still_runs_the_preceding_statement() {
    let text = "SELECT 1; SELECT 'unterminated";
    let mut buf = TextBuffer::from_text(text);
    let error_start = split(text).error().unwrap().span.start;
    buf.move_to(buf.position_of(error_start), Motion::Move);
    let units = plan_run(&buf, RunTarget::Cursor)
        .expect("cursor at the boundary resolves to the preceding terminated statement");
    assert_eq!(units.len(), 1);
    assert_eq!(units[0].sql, "SELECT 1");
}

#[test]
fn selection_target_not_overlapping_error_succeeds() {
    let mut buf = TextBuffer::from_text("SELECT 1; SELECT 'unterminated");
    buf.move_to(Position { line: 0, col: 0 }, Motion::Move);
    buf.move_to(Position { line: 0, col: 8 }, Motion::Extend);
    let units = plan_run(&buf, RunTarget::Selection).expect("selection doesn't overlap error");
    assert_eq!(units.len(), 1);
    assert_eq!(units[0].sql, "SELECT 1");
}

#[test]
fn selection_target_overlapping_error_fails() {
    let text = "SELECT 1; SELECT 'unterminated";
    let mut buf = TextBuffer::from_text(text);
    buf.move_to(Position { line: 0, col: 0 }, Motion::Move);
    buf.move_buffer_end(Motion::Extend);
    let result = plan_run(&buf, RunTarget::Selection);
    assert!(result.is_err());
}

#[test]
fn cursor_target_on_unclosed_paren_tail_refuses_but_prior_statement_still_runs() {
    let text = "SELECT 1;\nSELECT count(\nSELECT 2;\nDELETE FROM audit_log;";
    let mut buf = TextBuffer::from_text(text);
    buf.move_to(Position { line: 2, col: 3 }, Motion::Move);
    let err = plan_run(&buf, RunTarget::Cursor).expect_err("cursor is inside the merged tail");
    assert_eq!(err.kind, SplitErrorKind::UnclosedParen);

    buf.move_to(Position { line: 0, col: 3 }, Motion::Move);
    let units = plan_run(&buf, RunTarget::Cursor).expect("cursor is on a terminated statement");
    assert_eq!(units.len(), 1);
    assert_eq!(units[0].sql, "SELECT 1");
}

#[test]
fn cursor_target_never_runs_a_prefix_truncated_by_an_unterminated_comment() {
    let text = "UPDATE t SET x = 1 /* WHERE id = 5";
    let mut buf = TextBuffer::from_text(text);
    for col in [0, 5, 15, text.len()] {
        buf.move_to(Position { line: 0, col }, Motion::Move);
        let result = plan_run(&buf, RunTarget::Cursor);
        assert!(result.is_err(), "cursor at col {col} should refuse to run");
    }
}

#[test]
fn cursor_target_resolving_to_nothing_is_ok_empty_not_error() {
    let mut buf = TextBuffer::from_text("  ; SELECT 1;");
    buf.move_to(Position { line: 0, col: 0 }, Motion::Move);
    let units = plan_run(&buf, RunTarget::Cursor).expect("no error, just nothing to run");
    assert!(units.is_empty());
}

#[test]
fn selection_target_resolving_to_nothing_is_ok_empty_not_error() {
    let mut buf = TextBuffer::from_text("SELECT 1;");
    buf.move_to(Position { line: 0, col: 3 }, Motion::Move);
    buf.move_to(Position { line: 0, col: 3 }, Motion::Extend);
    assert_eq!(buf.selection(), None);
    let units = plan_run(&buf, RunTarget::Selection).expect("no error");
    assert!(units.is_empty());
}

#[test]
fn run_unit_sql_is_trimmed_but_keeps_comments_and_drops_semicolon() {
    let buf = TextBuffer::from_text("  /* hint */ SELECT 1  ;  SELECT 2;");
    let units = plan_run(&buf, RunTarget::Buffer).unwrap();
    assert_eq!(units[0].sql, "/* hint */ SELECT 1");
    assert!(!units[0].sql.contains(';'));
    assert_eq!(units[1].sql, "SELECT 2");
}

#[test]
fn run_unit_start_maps_back_to_the_correct_line_and_column() {
    let buf = TextBuffer::from_text("SELECT 1;\n  SELECT 2;");
    let units = plan_run(&buf, RunTarget::Buffer).unwrap();
    assert_eq!(units[0].start, Position { line: 0, col: 0 });
    assert_eq!(units[1].start, Position { line: 1, col: 2 });
}

#[test]
fn select_all_after_a_stale_goal_col_then_shift_down_keeps_the_full_selection() {
    let text = "SELECT 1;\nSELECT 2;\nDELETE FROM audit_log;";
    let mut buf = TextBuffer::from_text(text);
    buf.move_down(Motion::Move);
    buf.select_all();
    buf.move_down(Motion::Extend);

    let units = plan_run(&buf, RunTarget::Selection).expect("no tokenizer error");
    assert_eq!(units.len(), 3);
    assert_eq!(units[0].sql, "SELECT 1");
    assert_eq!(units[1].sql, "SELECT 2");
    assert_eq!(units[2].sql, "DELETE FROM audit_log");
}

#[test]
fn every_place_in_a_statement_runs_that_statement() {
    let text = "SELECT 1; SELECT 2;\nSELECT 'open";
    let mut buf = TextBuffer::from_text(text);
    for col in 0..=19 {
        buf.move_to(Position { line: 0, col }, Motion::Move);
        let units = plan_run(&buf, RunTarget::Cursor).expect("the cursor is in a statement");
        assert_eq!(units.len(), 1);
        let expected = if col <= 9 { "SELECT 1" } else { "SELECT 2" };
        assert_eq!(units[0].sql, expected, "at column {col}");
    }
}

#[test]
fn a_selection_runs_what_it_touches_and_nothing_else() {
    let mut buf = TextBuffer::from_text("SELECT 1; SELECT 2; SELECT 3; SELECT 4;");
    buf.move_to(Position { line: 0, col: 17 }, Motion::Move);
    buf.move_to(Position { line: 0, col: 21 }, Motion::Extend);
    let units = plan_run(&buf, RunTarget::Selection).expect("everything can be split");
    let sql: Vec<&str> = units.iter().map(|u| u.sql.as_str()).collect();
    assert_eq!(sql, ["SELECT 2", "SELECT 3"]);

    buf.move_to(Position { line: 0, col: 18 }, Motion::Move);
    buf.move_to(Position { line: 0, col: 20 }, Motion::Extend);
    let units = plan_run(&buf, RunTarget::Selection).expect("everything can be split");
    assert!(units.is_empty());
}
