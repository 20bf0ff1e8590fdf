//! A session: its keys, its status line, its run and its pages.
use ratwarren::app::keymap::{KeyCode, KeyEvent, KeyModifiers};
use ratwarren::app::run::{
    CancelOutcome, CancelRequest, QueryOutcome, QueryRequest, QueryResponse, RequestId, RunSummary,
};
use ratwarren::app::session::{
    error_offset, opening_message, summary_status, title_of, Session, SessionAction, SessionId,
    SessionState, TitleLook,
};
use ratwarren::app::status::StatusKind;
use ratwarren::app::Focus;
use ratwarren::datasource::{DataSourceError, ErrorPosition, PgError, QueryId};
use ratwarren::editor::{ByteSpan, Position, RunTarget, RunUnit, TextBuffer};
use ratwarren::pages::tabs::{RenameStep, SaveStep};
use ratwarren::pages::{PageName, PageTabs};

fn connecting_session() -> Session {
    Session::new_with_pages(SessionId(0), "test".to_string(), None, PageTabs::detached())
}

fn new_session() -> Session {
    let mut session = connecting_session();
    assert_eq!(session.on_connected(None, None), SessionAction::RefreshTree);
    session
}

fn session_in_a_directory() -> Session {
    let pages = PageTabs::restore(Some(vec![]));
    let mut session = Session::new_with_pages(SessionId(0), "test".to_string(), None, pages);
    session.on_connected(None, None);
    session
}

fn set_text(session: &mut Session, text: &str) {
    *session.pages_mut().editor_mut().buffer_mut() = TextBuffer::from_text(text);
}

fn cursor(session: &Session) -> Position {
    session.pages().editor().buffer().cursor()
}

fn status_text(session: &Session) -> Option<String> {
    session.status().map(|s| s.text.clone())
}

fn key(code: KeyCode, modifiers: KeyModifiers) -> KeyEvent {
    KeyEvent::new(code, modifiers)
}

fn sent(action: SessionAction) -> QueryRequest {
    match action {
        SessionAction::Query { request, .. } => request,
        other => panic!("expected a query, got {other:?}"),
    }
}

fn ok_finished(id: RequestId, rows_affected: u64) -> QueryResponse {
    QueryResponse::Finished { id, result: Ok(QueryOutcome::NoResultSet { rows_affected }) }
}

fn failed_at(id: RequestId, sql: &str, pos: u32) -> QueryResponse {
    let source = PgError {
        message: "db error".to_string(),
        causes: vec![],
        code: Some("42601".to_string()),
        position: Some(ErrorPosition::Original(pos)),
    };
    QueryResponse::Finished {
        id,
        result: Err(DataSourceError::Query { sql: sql.to_string(), source }),
    }
}

fn save_as(session: &mut Session, name: &str) -> PageName {
    let name = PageName::new(name).unwrap();
    match session.pages().save_active_as(&name, false) {
        Ok(SaveStep::Write { name, text }) => {
            session.pages_mut().finish_save(name, text, Ok(())).expect("the write went well");
        }
        other => panic!("expected to write, got {other:?}"),
    }
    name
}

#[test]
fn a_non_run_non_cancel_key_clears_a_stale_status() {
    let mut session = new_session();
    session.set_error_status("stale error from a previous run".to_string());
    session.on_key(key(KeyCode::Tab, KeyModifiers::Plain), false);
    assert!(
        session.status().is_none(),
        "any key other than Run/CancelOrQuit must clear the status bar"
    );
}

#[test]
fn cancel_or_quit_key_does_not_blanket_clear_a_pre_existing_status_before_quitting() {
    let mut session = new_session();
    assert!(!session.run().is_active());
    session.set_error_status("keep me".to_string());
    let action = session.on_key(key(KeyCode::Char('c'), KeyModifiers::Control), false);
    assert_eq!(action, SessionAction::Quit);
    assert_eq!(status_text(&session), Some("keep me".to_string()));
}

#[test]
fn run_key_sets_an_already_running_status_and_it_survives_the_same_dispatch() {
    let mut session = new_session();
    set_text(&mut session, "SELECT pg_sleep(1)");
    session.start_run(RunTarget::Buffer);
    assert!(session.run().is_active(), "test setup: a run must be in flight");

    session.on_key(key(KeyCode::Char('r'), KeyModifiers::Control), false);
    let status = session.status().expect("the already-running branch must set a status");
    assert_eq!(status.kind, StatusKind::Info);
    assert!(status.text.contains("already running"));
}

#[test]
fn starting_a_multi_statement_run_shows_progress_in_the_status_bar() {
    let mut session = new_session();
    set_text(&mut session, "SELECT 1; SELECT 2; SELECT 3;");
    session.start_run(RunTarget::Buffer);
    assert_eq!(status_text(&session), Some("running statement 1 of 3…".to_string()));
}

#[test]
fn a_single_statement_run_shows_a_plain_running_message() {
    let mut session = new_session();
    set_text(&mut session, "SELECT 1;");
    session.start_run(RunTarget::Buffer);
    assert_eq!(status_text(&session), Some("running…".to_string()));
}

#[test]
fn a_keypress_during_an_active_run_does_not_wipe_the_progress_message() {
    let mut session = new_session();
    set_text(&mut session, "SELECT 1; SELECT 2; SELECT 3;");
    session.start_run(RunTarget::Buffer);
    assert!(session.run().is_active(), "test setup: a run must be in flight");

    session.on_key(key(KeyCode::Down, KeyModifiers::Plain), false);
    let text = status_text(&session).expect("the progress message must survive");
    assert!(text.contains("running"));
}

#[test]
fn the_final_summary_replaces_the_progress_message() {
    let mut session = new_session();
    set_text(&mut session, "SELECT 1;");
    let req = sent(session.start_run(RunTarget::Buffer));
    assert!(status_text(&session).unwrap().contains("running"));

    session.apply_query_response(ok_finished(req.id, 3), true);

    let text = status_text(&session).expect("a finished run must set a summary status");
    assert!(!text.contains("running"), "got {text:?}");
    assert_eq!(text, "ran 1 of 1 · 3 rows affected");
}

#[test]
fn start_run_is_a_noop_on_a_connecting_session() {
    let mut session = connecting_session();
    assert!(matches!(session.state(), SessionState::Connecting { .. }));
    set_text(&mut session, "SELECT 1;");

    assert_eq!(session.start_run(RunTarget::Buffer), SessionAction::Nothing);

    assert!(!session.run().is_active());
}

#[test]
fn start_run_is_a_noop_on_a_failed_session() {
    let mut session = connecting_session();
    session.on_failed("connection refused".to_string());
    assert!(matches!(session.state(), SessionState::Failed { .. }));
    set_text(&mut session, "SELECT 1;");

    assert_eq!(session.start_run(RunTarget::Buffer), SessionAction::Nothing);

    assert!(!session.run().is_active());
}

#[test]
fn start_run_on_a_ready_session_still_starts_a_run() {
    let mut session = new_session();
    set_text(&mut session, "SELECT 1;");

    let req = sent(session.start_run(RunTarget::Buffer));

    assert!(session.run().is_active());
    assert_eq!(req.sql, "SELECT 1");
}

#[test]
fn jump_to_error_position_is_a_noop_for_error_variants_without_a_position() {
    for err in [
        DataSourceError::Cancelled,
        DataSourceError::Busy { name: "test".to_string() },
        DataSourceError::MultipleStatements { method: "execute" },
    ] {
        let mut session = new_session();
        set_text(&mut session, "SELECT 1");
        let before = cursor(&session);
        let req = sent(session.start_run(RunTarget::Buffer));
        assert_eq!(err.error_position(), None, "test setup precondition");
        let finished = QueryResponse::Finished { id: req.id, result: Err(err) };
        session.apply_query_response(finished, true);
        assert_eq!(cursor(&session), before);
    }
}

#[test]
fn an_error_with_a_position_moves_the_cursor_to_it() {
    let mut session = new_session();
    set_text(&mut session, "SELECT 1;\nSELECT é ?;");
    let req1 = sent(session.start_run(RunTarget::Buffer));
    let req2 = sent(session.apply_query_response(ok_finished(req1.id, 0), true));
    session.apply_query_response(failed_at(req2.id, &req2.sql, 10), true);
    assert_eq!(cursor(&session), Position { line: 1, col: 9 });
    let text = status_text(&session).unwrap();
    assert!(text.starts_with("statement 2 of 2 failed: "), "got {text:?}");
}

#[test]
fn an_error_in_a_text_that_was_edited_since_moves_nothing() {
    let mut session = new_session();
    set_text(&mut session, "SELECT ?");
    let req = sent(session.start_run(RunTarget::Buffer));
    set_text(&mut session, "SELECT 1");
    session.apply_query_response(failed_at(req.id, &req.sql, 8), true);
    assert_eq!(cursor(&session), Position { line: 0, col: 0 });
}

#[test]
fn tunnel_warning_is_none_while_connecting() {
    let session = connecting_session();
    assert!(matches!(session.state(), SessionState::Connecting { .. }));
    assert_eq!(session.tunnel_warning(), None);
    assert_eq!(session.tab_title(), (" … test ".to_string(), TitleLook::Dim));
}

#[test]
fn tunnel_warning_is_none_while_failed() {
    let mut session = connecting_session();
    session.on_failed("connection refused".to_string());
    assert!(matches!(session.state(), SessionState::Failed { .. }));
    assert_eq!(session.tunnel_warning(), None);
    assert_eq!(session.tab_title(), (" ! test ".to_string(), TitleLook::Alarming));
}

#[test]
fn a_tunnel_that_was_not_seen_to_own_its_port_is_warned_about() {
    let mut session = connecting_session();
    session.on_connected(Some(false), Some(4000));
    let warning = session.tunnel_warning().expect("there is something to warn about");
    assert!(warning.contains("owns port 4000;"), "got {warning:?}");
    assert_eq!(session.tab_title(), (" ⚠ test ".to_string(), TitleLook::Plain));
    session.on_connected(Some(true), Some(4000));
    assert_eq!(session.tunnel_warning(), None);
    assert_eq!(session.tab_title(), (" test ".to_string(), TitleLook::Plain));
}

fn summary(ran: usize, total: usize, cancelled: Option<CancelOutcome>) -> RunSummary {
    RunSummary { ran, total, last_affected: None, failed: None, cancelled }
}

#[test]
fn summary_status_completed_first_not_the_last_statement_names_the_statement_it_stopped_before() {
    let s = summary(1, 3, Some(CancelOutcome::CompletedFirst));
    let status = summary_status(&s);
    assert_eq!(status.kind, StatusKind::Warn);
    assert_eq!(
        status.text,
        "cancel came too late — statement 1 of 3 completed; stopped before statement 2"
    );
}

#[test]
fn summary_status_completed_first_on_the_last_statement_has_no_stopped_before_clause() {
    let s = summary(3, 3, Some(CancelOutcome::CompletedFirst));
    let status = summary_status(&s);
    assert_eq!(status.text, "cancel came too late — statement 3 of 3 completed");
    assert!(!status.text.contains("stopped before"));
}

#[test]
fn summary_status_distinguishes_an_interrupted_cancel_from_one_that_completed_first() {
    let interrupted = summary(2, 3, Some(CancelOutcome::Interrupted));
    let completed_first = summary(2, 3, Some(CancelOutcome::CompletedFirst));
    let interrupted_text = summary_status(&interrupted).text;
    let completed_first_text = summary_status(&completed_first).text;
    assert_ne!(interrupted_text, completed_first_text);
    assert!(interrupted_text.contains("interrupted"));
    assert!(completed_first_text.contains("completed"));
}

#[test]
fn summary_status_with_no_cancel_and_no_failure_reports_a_plain_completion() {
    let s = summary(2, 2, None);
    let status = summary_status(&s);
    assert_eq!(status.kind, StatusKind::Info);
    assert_eq!(status.text, "ran 2 of 2");
}

#[test]
fn stale_cancel_failed_from_a_finished_run_is_ignored_and_does_not_clobber_a_new_runs_status() {
    let mut session = new_session();
    set_text(&mut session, "SELECT 1;");
    let req1 = sent(session.start_run(RunTarget::Buffer));
    let stale = || QueryResponse::CancelFailed {
        id: req1.id,
        message: "stale transport failure".to_string(),
    };

    session.apply_query_response(ok_finished(req1.id, 0), true);
    assert!(!session.run().is_active(), "test setup: the run must have ended");
    let summary_text = status_text(&session);
    assert!(summary_text.is_some());

    session.apply_query_response(stale(), true);
    assert_eq!(status_text(&session), summary_text);

    set_text(&mut session, "SELECT 2;");
    session.start_run(RunTarget::Buffer);
    let running_text = status_text(&session);
    assert!(running_text.as_ref().unwrap().contains("running"));

    session.apply_query_response(stale(), true);
    assert_eq!(status_text(&session), running_text);
}

#[test]
fn a_cancel_that_failed_is_shown_while_its_run_is_under_way() {
    let mut session = new_session();
    set_text(&mut session, "SELECT 1;");
    let req = sent(session.start_run(RunTarget::Buffer));
    let failed = QueryResponse::CancelFailed { id: req.id, message: "no route".to_string() };
    session.apply_query_response(failed, true);
    assert_eq!(status_text(&session), Some("no route".to_string()));
    assert_eq!(session.status().unwrap().kind, StatusKind::Error);
}

#[test]
fn intermediate_statement_finishing_does_not_append_a_misleading_grid_moved_on_note() {
    let mut session = new_session();
    set_text(&mut session, "SELECT 1; SELECT 2;");
    let req1 = sent(session.start_run(RunTarget::Buffer));

    let action = session.apply_query_response(ok_finished(req1.id, 0), false);

    let text = status_text(&session).expect("the next statement must set a status");
    assert!(!text.contains("grid moved on"), "got {text:?}");
    assert_eq!(sent(action).sql, "SELECT 2");
}

#[test]
fn grid_moved_on_note_is_appended_when_the_final_statements_result_is_discarded() {
    let mut session = new_session();
    set_text(&mut session, "SELECT 1;");
    let req1 = sent(session.start_run(RunTarget::Buffer));

    session.apply_query_response(ok_finished(req1.id, 0), false);

    let text = status_text(&session).expect("a finished run must set a summary status");
    assert!(text.contains("· result not shown (grid moved on)"), "got {text:?}");
}

fn unit_at(sql: &str, start: usize) -> RunUnit {
    RunUnit {
        sql: sql.to_string(),
        span: ByteSpan { start, end: start + sql.len() },
        start: Position::default(),
    }
}

#[test]
fn error_offset_returns_none_when_the_span_no_longer_fits_the_edited_buffer() {
    let unit = unit_at("SELECT 1", 0);
    let text = "SE";
    assert_eq!(error_offset(text, &unit, 1), None);
}

#[test]
fn error_offset_returns_none_when_the_span_ends_mid_utf8_char() {
    let text = "🦀";
    let unit = RunUnit {
        sql: "x".to_string(),
        span: ByteSpan { start: 0, end: 1 },
        start: Position::default(),
    };
    assert_eq!(error_offset(text, &unit, 1), None);
}

#[test]
fn error_offset_returns_none_when_the_text_at_the_span_changed() {
    let unit = unit_at("SELECT 1", 0);
    let text = "SELECT 2";
    assert_eq!(error_offset(text, &unit, 1), None);
}

#[test]
fn error_offset_returns_none_for_a_position_past_the_statement() {
    let unit = unit_at("SELECT 1", 0);
    let text = unit.sql.clone();
    assert_eq!(
        error_offset(&text, &unit, u32::try_from(unit.sql.chars().count() + 1).unwrap()),
        None
    );
    assert_eq!(error_offset(&text, &unit, 0), None);
}

#[test]
fn error_offset_maps_a_1_based_char_position_to_a_byte_offset_past_multibyte_text() {
    let sql = "SELECT '🦀', 1";
    let base = 10;
    let unit = unit_at(sql, base);
    let mut text = " ".repeat(base);
    text.push_str(sql);

    let char_idx = sql.chars().position(|c| c == '1').unwrap();
    let pos = u32::try_from(char_idx + 1).unwrap();
    let offset = error_offset(&text, &unit, pos).expect("position is within the statement");

    let expected_byte = base + sql.char_indices().nth(char_idx).unwrap().0;
    assert_eq!(offset, expected_byte);
    assert_eq!(&text[offset..offset + 1], "1");
}

#[test]
fn spawn_open_reports_the_waiting_for_another_tabs_tunnel_message_when_open_lock_is_held() {
    const WANT: &str = "waiting for another tab's SSH tunnel to finish opening…";
    assert_eq!(opening_message("contended", true, true), WANT);
    assert_eq!(opening_message("contended", true, false), "connecting to contended…");
    assert_eq!(opening_message("contended", false, true), "connecting to contended…");
}

#[test]
fn a_fresh_session_has_one_non_dirty_scratch_page() {
    let session = new_session();
    assert!(!session.is_dirty());
    assert!(session.dirty_titles().is_empty());
    assert_eq!(session.pages().tabs().len(), 1);
}

#[test]
fn editing_the_active_page_makes_the_session_dirty_and_names_it() {
    let mut session = new_session();
    set_text(&mut session, "some sql");
    assert!(session.is_dirty());
    assert_eq!(session.dirty_titles(), vec!["scratch".to_string()]);
    assert_eq!(session.page_titles(), vec![" scratch* ".to_string()]);
}

#[test]
fn close_page_without_force_on_a_dirty_page_returns_ok_false_and_removes_nothing() {
    let mut session = new_session();
    set_text(&mut session, "dirty");

    let result = session.close_page(false).expect("must not error");

    assert!(!result);
    assert!(session.is_dirty(), "the dirty page must still be there");
}

#[test]
fn close_page_with_force_removes_the_page_and_clears_run_page() {
    let mut session = new_session();
    set_text(&mut session, "SELECT 1;");
    session.start_run(RunTarget::Buffer);
    assert_eq!(session.run_page(), Some(0));

    let result = session.close_page(true).expect("must not error");

    assert!(result);
    assert_eq!(session.run_page(), None);
}

#[test]
fn delete_page_clears_run_page_since_indices_shift() {
    let mut session = session_in_a_directory();
    let name_a = save_as(&mut session, "a.sql");
    session.pages_mut().new_scratch();
    assert_eq!(session.pages().active_index(), 1, "test setup");
    set_text(&mut session, "SELECT 1;");
    session.start_run(RunTarget::Buffer);
    assert_eq!(session.run_page(), Some(1));

    session.pages().delete().expect("there is a directory");
    session.delete_page(&name_a, Ok(())).expect("deleting a.sql should succeed");

    assert_eq!(session.run_page(), None);
    assert_eq!(session.pages().tabs().len(), 1);
}

#[test]
fn starting_a_run_records_the_active_page_index_in_run_page() {
    let mut session = new_session();
    session.pages_mut().new_scratch();
    assert_eq!(session.pages().active_index(), 1, "test setup");
    set_text(&mut session, "SELECT 1;");

    session.start_run(RunTarget::Buffer);

    assert_eq!(session.run_page(), Some(1));
}

#[test]
fn a_finished_run_clears_run_page() {
    let mut session = new_session();
    set_text(&mut session, "SELECT 1;");
    let req = sent(session.start_run(RunTarget::Buffer));
    assert_eq!(session.run_page(), Some(0), "test setup");

    session.apply_query_response(ok_finished(req.id, 0), true);

    assert_eq!(session.run_page(), None);
}

#[test]
fn jump_to_error_position_is_a_noop_when_run_page_no_longer_matches_the_active_page() {
    let mut session = new_session();
    session.pages_mut().new_scratch();
    set_text(&mut session, "SELECT 1;");
    session.pages_mut().select(0);
    set_text(&mut session, "SELECT 1;");
    let req = sent(session.start_run(RunTarget::Buffer));
    assert_eq!(session.run_page(), Some(0), "test setup");

    session.pages_mut().select(1);
    let before = cursor(&session);
    session.apply_query_response(failed_at(req.id, "SELECT 1", 8), true);

    assert_eq!(cursor(&session), before);
}

#[test]
fn no_page_operation_ever_dispatches_a_worker_request() {
    let mut session = session_in_a_directory();

    let name_a = save_as(&mut session, "a.sql");
    session.pages_mut().new_scratch();
    let name_b = save_as(&mut session, "b.sql");
    session.pages_mut().next();
    session.pages_mut().prev();
    session.pages_mut().select(0);
    assert_eq!(session.pages_mut().open(&name_b), Ok(false));
    let name_b2 = PageName::new("b2.sql").unwrap();
    match session.pages().rename_active(&name_b2, false) {
        Ok(RenameStep::Rename { from }) => assert_eq!(from.as_str(), "b.sql"),
        other => panic!("expected to rename, got {other:?}"),
    }
    session.pages_mut().finish_rename(&name_b2, Ok(())).expect("rename should succeed");
    let _ = session.close_page(true);
    let _ = session.pages_mut().deleted(&name_a, Ok(()));
    let _ = session.pages().list_available(Ok(vec![]));
    let _ = session.pages().reload_active();

    assert!(!session.run().is_active());
    assert!(session.status().is_none());
}

#[test]
fn an_empty_buffer_is_not_run_and_a_broken_one_is_shown_where_it_breaks() {
    let mut session = new_session();
    assert_eq!(session.start_run(RunTarget::Buffer), SessionAction::Nothing);
    assert_eq!(status_text(&session), Some("nothing to run".to_string()));

    set_text(&mut session, "SELECT 1; SELECT 'open");
    assert_eq!(session.start_run(RunTarget::Buffer), SessionAction::Nothing);
    assert_eq!(session.status().unwrap().kind, StatusKind::Error);
    assert_eq!(cursor(&session), Position { line: 0, col: 9 });
    assert!(!session.run().is_active());
}

#[test]
fn a_cancel_waits_for_the_id_of_the_query() {
    let mut session = new_session();
    set_text(&mut session, "SELECT 1; SELECT 2;");
    let req = sent(session.start_run(RunTarget::Buffer));
    let ctrl_c = key(KeyCode::Char('c'), KeyModifiers::Control);
    assert_eq!(session.on_key(ctrl_c, true), SessionAction::Nothing);
    assert_eq!(status_text(&session), Some("cancelling…".to_string()));
    let started = QueryResponse::Started { id: req.id, query_id: QueryId(5) };
    assert_eq!(
        session.apply_query_response(started, true),
        SessionAction::Cancel(CancelRequest { id: req.id, query_id: QueryId(5) })
    );
    assert_eq!(
        session.on_key(ctrl_c, true),
        SessionAction::Cancel(CancelRequest { id: req.id, query_id: QueryId(5) })
    );
    assert_eq!(
        session.apply_query_response(ok_finished(req.id, 0), true),
        SessionAction::Nothing
    );
    let text = status_text(&session).unwrap();
    assert!(text.starts_with("cancel came too late"), "got {text:?}");
}

#[test]
fn tab_goes_round_the_panes_and_leaves_out_a_grid_that_is_not_open() {
    let mut session = new_session();
    let tab = key(KeyCode::Tab, KeyModifiers::Plain);
    let mut seen = vec![session.focus()];
    for grid_open in [true, true, true, false, false] {
        session.on_key(tab, grid_open);
        seen.push(session.focus());
    }
    assert_eq!(
        seen,
        vec![Focus::Tree, Focus::Editor, Focus::Grid, Focus::Tree, Focus::Editor, Focus::Tree]
    );
    session.on_table_opened();
    assert_eq!(session.focus(), Focus::Grid);
    session.on_key(key(KeyCode::Esc, KeyModifiers::Plain), true);
    assert_eq!(session.focus(), Focus::Tree);
}

#[test]
fn a_title_is_the_first_line_and_no_longer_than_forty_characters() {
    assert_eq!(title_of(""), "");
    assert_eq!(title_of("SELECT 1\r\nFROM t"), "SELECT 1");
    assert_eq!(title_of("a\rb"), "a\rb");
    let forty = "é".repeat(40);
    assert_eq!(title_of(&forty), forty);
    assert_eq!(title_of(&format!("{forty}x\n")), format!("{forty}…"));
}

#[test]
fn the_connecting_message_changes_only_while_connecting() {
    let mut session = connecting_session();
    session.set_connecting_message("reading the OS keyring…".to_string());
    assert_eq!(
        *session.state(),
        SessionState::Connecting { message: "reading the OS keyring…".to_string() }
    );
    session.on_failed("no".to_string());
    session.set_connecting_message("late".to_string());
    assert_eq!(*session.state(), SessionState::Failed { message: "no".to_string() });
}
