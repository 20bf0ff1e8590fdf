//! The application: its sessions and its picker.
use ratwarren::app::keymap::{KeyCode, KeyEvent, KeyModifiers};
use ratwarren::app::message::{SessionResponse, WorkerResponse};
use ratwarren::app::run::{QueryOutcome, QueryRequest, QueryResponse, RequestId};
use ratwarren::app::session::{Session, SessionAction, SessionId, SessionState};
use ratwarren::app::status::StatusKind;
use ratwarren::app::{
    App, AppAction, Connected, Focus, OpenAction, OpenEvent, PickerCommand, Routed, EMPTY_FOOTER,
    TAB_HINT,
};
use ratwarren::config::{Config, Connection};
use ratwarren::editor::{RunTarget, TextBuffer};
use ratwarren::pages::PageTabs;

type Response = SessionResponse<u8, u16>;

fn key(code: KeyCode) -> KeyEvent {
    KeyEvent::new(code, KeyModifiers::Plain)
}

fn ctrl_key(code: KeyCode) -> KeyEvent {
    KeyEvent::new(code, KeyModifiers::Control)
}

fn connection(name: &str) -> Connection {
    Connection {
        name: name.to_string(),
        group: None,
        host: "localhost".to_string(),
        port: 5432,
        database: "app".to_string(),
        user: "me".to_string(),
        password: None,
        tunnel: None,
    }
}

fn ready() -> Connected {
    Connected { forward_confirmed: None, local_port: None }
}

/// An application with a connected session for each name; the last one is active.
fn app_with(names: &[&str]) -> App {
    let mut app = App::new(Config { connections: names.iter().map(|n| connection(n)).collect() });
    for name in names {
        push_ready(&mut app, name);
    }
    app
}

fn push_ready(app: &mut App, name: &str) {
    let session = app.open_connection(name, PageTabs::detached()).expect("it is configured");
    let done = OpenEvent::Done { session, result: Ok(ready()) };
    assert_eq!(app.apply_open_event(done), OpenAction::Attach(SessionAction::RefreshTree));
}

fn go_to(app: &mut App, index: usize) {
    while app.active_index() != index {
        app.next_tab();
    }
}

fn names(app: &App) -> Vec<String> {
    app.sessions().iter().map(|s| s.connection_name().to_string()).collect()
}

fn run(session: &mut Session, text: &str) -> QueryRequest {
    *session.pages_mut().editor_mut().buffer_mut() = TextBuffer::from_text(text);
    match session.start_run(RunTarget::Buffer) {
        SessionAction::Query { request, .. } => request,
        other => panic!("expected a query, got {other:?}"),
    }
}

fn finished(session: u64, id: RequestId) -> Response {
    SessionResponse {
        session: SessionId(session),
        response: WorkerResponse::Query(QueryResponse::Finished {
            id,
            result: Ok(QueryOutcome::NoResultSet { rows_affected: 0 }),
        }),
    }
}

fn text_of(session: &Session) -> String {
    session.pages().editor().buffer().text()
}

fn snapshot(session: &Session) -> (Option<(StatusKind, String)>, bool, String) {
    (
        session.status().map(|s| (s.kind, s.text.clone())),
        session.run().is_active(),
        text_of(session),
    )
}

#[test]
fn apply_routes_by_session_id_first_and_a_response_for_b_leaves_a_byte_identical() {
    let mut app = app_with(&["a", "b"]);
    let req_a = run(app.session_mut(0), "SELECT 1;");
    let req_b = run(app.session_mut(1), "SELECT 2;");
    assert_eq!(req_a.id, req_b.id, "test setup: both first runs must mint the same id");
    let before = snapshot(&app.sessions()[0]);
    go_to(&mut app, 0);

    app.apply(finished(1, req_b.id), true);

    assert_eq!(before, snapshot(&app.sessions()[0]));
    assert!(!app.sessions()[1].run().is_active());
}

#[test]
fn apply_for_an_unknown_session_id_mutates_nothing_and_never_falls_through_to_the_active_session() {
    let mut app = app_with(&["a"]);
    run(app.session_mut(0), "SELECT 1;");
    let before = snapshot(&app.sessions()[0]);

    let routed = app.apply(finished(999, RequestId(0)), true);

    assert!(matches!(routed, Routed::Dropped));
    assert_eq!(app.sessions().len(), 1, "no session must be created or removed");
    assert_eq!(before, snapshot(&app.sessions()[0]));
}

#[test]
fn answers_for_the_tree_and_the_grid_are_handed_on_only_for_a_session_there_is() {
    let mut app = app_with(&["a"]);
    let tree = |session| Response { session: SessionId(session), response: WorkerResponse::Tree(7) };
    let grid = |session| Response { session: SessionId(session), response: WorkerResponse::Grid(8) };
    assert!(matches!(app.apply(tree(0), true), Routed::Tree(7)));
    assert!(matches!(app.apply(grid(0), true), Routed::Grid(8)));
    assert!(matches!(app.apply(tree(1), true), Routed::Dropped));
}

#[test]
fn closing_a_middle_tab_removes_it_and_active_lands_on_the_tab_that_shifted_into_its_slot() {
    let mut app = app_with(&["a", "b", "c"]);
    go_to(&mut app, 1);

    assert_eq!(app.close_active(), Some(SessionId(1)));

    assert_eq!(names(&app), vec!["a", "c"]);
    assert_eq!(app.active_index(), 1, "active must land on \"c\", which shifted into b's slot");
}

#[test]
fn closing_the_tab_at_the_last_index_moves_active_back_to_the_new_last_tab() {
    let mut app = app_with(&["a", "b", "c"]);
    assert_eq!(app.active_index(), 2);

    app.close_active();

    assert_eq!(app.sessions().len(), 2);
    assert_eq!(app.active_index(), 1);
}

#[test]
fn closing_the_only_tab_leaves_sessions_empty_and_auto_opens_the_picker() {
    let mut app = app_with(&["solo"]);

    app.close_active();

    assert!(app.sessions().is_empty());
    assert!(app.picker_open());
    assert_eq!(app.close_active(), None);
}

#[test]
fn next_tab_and_prev_tab_wrap_around_at_the_ends() {
    let mut app = app_with(&["a", "b", "c"]);
    go_to(&mut app, 0);

    app.next_tab();
    assert_eq!(app.active_index(), 1);
    app.next_tab();
    assert_eq!(app.active_index(), 2);
    app.next_tab();
    assert_eq!(app.active_index(), 0, "next_tab from the last tab must wrap to the first");

    app.prev_tab();
    assert_eq!(app.active_index(), 2, "prev_tab from the first tab must wrap to the last");
    app.prev_tab();
    assert_eq!(app.active_index(), 1);
}

#[test]
fn next_tab_and_prev_tab_are_noops_when_sessions_is_empty() {
    let mut app = App::new(Config::default());
    app.next_tab();
    assert_eq!(app.active_index(), 0);
    app.prev_tab();
    assert_eq!(app.active_index(), 0);
    assert!(app.sessions().is_empty());
}

#[test]
fn q_from_the_empty_no_sessions_no_picker_state_quits() {
    let mut app = App::new(Config::default());
    assert!(app.sessions().is_empty());
    assert!(!app.picker_open());

    app.on_key(key(KeyCode::Char('q')), false);

    assert!(app.should_quit());
}

#[test]
fn ctrl_c_from_the_empty_no_sessions_no_picker_state_quits() {
    let mut app = App::new(Config::default());
    app.on_key(ctrl_key(KeyCode::Char('c')), false);
    assert!(app.should_quit());
}

#[test]
fn closing_a_connecting_tab_then_its_late_open_done_does_not_resurrect_a_session() {
    let mut app = App::new(Config { connections: vec![connection("conn")] });
    app.open_connection("conn", PageTabs::detached());
    app.close_active();
    assert!(app.sessions().is_empty());

    let refused = OpenEvent::Done {
        session: SessionId(0),
        result: Err("connection refused".to_string()),
    };
    assert_eq!(app.apply_open_event(refused), OpenAction::Nothing);
    let late = OpenEvent::Done { session: SessionId(0), result: Ok(ready()) };
    assert_eq!(app.apply_open_event(late), OpenAction::Discard);

    assert!(app.sessions().is_empty());
    assert!(!app.should_quit());
}

#[test]
fn picker_open_intercepts_every_key_even_ones_that_would_insert_into_a_focused_editor() {
    let mut app = app_with(&["conn"]);
    app.on_key(key(KeyCode::Tab), false);
    assert_eq!(app.sessions()[0].focus(), Focus::Editor, "test setup: focus must be Editor");
    assert_eq!(app.on_key(ctrl_key(KeyCode::Char('t')), false), AppAction::ShowPicker);

    app.on_key(key(KeyCode::Char('x')), false);

    assert_eq!(text_of(&app.sessions()[0]), "");
}

#[test]
fn q_from_the_picker_does_not_quit_or_close_the_picker_when_a_session_is_already_open() {
    let mut app = app_with(&["conn"]);
    app.on_key(ctrl_key(KeyCode::Char('t')), false);

    app.on_key(key(KeyCode::Char('q')), false);

    assert!(!app.should_quit());
    assert!(app.picker_open(), "q is not a picker command, so the picker must remain open");
    assert_eq!(app.sessions().len(), 1, "the existing session must not be touched");
}

#[test]
fn ctrl_c_from_the_picker_does_not_quit_when_a_session_is_already_open() {
    let mut app = app_with(&["conn"]);
    app.on_key(ctrl_key(KeyCode::Char('t')), false);

    app.on_key(ctrl_key(KeyCode::Char('c')), false);

    assert!(!app.should_quit());
    assert!(app.picker_open(), "the picker must remain open");
}

#[test]
fn the_picker_moves_opens_and_hides() {
    let mut app = App::new(Config { connections: vec![connection("a")] });
    assert!(app.ensure_picker_if_no_sessions());
    assert!(!app.ensure_picker_if_no_sessions());
    let moves = [
        (KeyCode::Up, PickerCommand::MoveUp),
        (KeyCode::Char('k'), PickerCommand::MoveUp),
        (KeyCode::Down, PickerCommand::MoveDown),
        (KeyCode::Char('j'), PickerCommand::MoveDown),
        (KeyCode::Home, PickerCommand::First),
        (KeyCode::Char('G'), PickerCommand::Last),
    ];
    for (code, command) in moves {
        assert_eq!(app.on_key(key(code), false), AppAction::Picker(command));
    }
    app.on_key(key(KeyCode::Esc), false);
    assert!(app.picker_open(), "without a session there is nothing to go back to");
    assert_eq!(app.on_key(key(KeyCode::Enter), false), AppAction::OpenSelected);
    push_ready(&mut app, "a");
    assert!(!app.picker_open());
    app.on_key(ctrl_key(KeyCode::Char('t')), false);
    assert!(app.picker_open());
    app.on_key(ctrl_key(KeyCode::Char('t')), false);
    assert!(!app.picker_open());
    app.close_active();
    app.on_key(key(KeyCode::Char('q')), false);
    assert!(app.should_quit());
}

#[test]
fn keys_of_tabs_and_quitting() {
    let mut app = app_with(&["a", "b"]);
    app.on_key(ctrl_key(KeyCode::Char('n')), false);
    assert_eq!(app.active_index(), 0);
    app.on_key(ctrl_key(KeyCode::Char('p')), false);
    assert_eq!(app.active_index(), 1);
    assert_eq!(
        app.on_key(ctrl_key(KeyCode::Char('w')), false),
        AppAction::Close(SessionId(1))
    );
    assert_eq!(
        app.on_key(key(KeyCode::Char('q')), false),
        AppAction::Session(SessionAction::Quit)
    );
    assert!(app.should_quit());
}

#[test]
fn a_name_that_is_not_configured_opens_nothing() {
    let mut app = app_with(&["a"]);
    assert_eq!(app.open_connection("b", PageTabs::detached()), None);
    assert_eq!(names(&app), vec!["a"]);
    assert_eq!(app.open_connection("a", PageTabs::detached()), Some(SessionId(1)));
}

#[test]
fn progress_and_failure_reach_their_session() {
    let mut app = App::new(Config { connections: vec![connection("a")] });
    let session = app.open_connection("a", PageTabs::detached()).unwrap();
    let progress = |id| OpenEvent::Progress { session: SessionId(id), message: "dialing".to_string() };
    app.apply_open_event(progress(9));
    app.apply_open_event(progress(session.0));
    assert_eq!(
        *app.sessions()[0].state(),
        SessionState::Connecting { message: "dialing".to_string() }
    );
    app.apply_open_event(OpenEvent::Done { session, result: Err("refused".to_string()) });
    assert_eq!(
        *app.sessions()[0].state(),
        SessionState::Failed { message: "refused".to_string() }
    );
}

#[test]
fn the_footer_shows_the_status_or_the_keys_and_always_the_warning() {
    let mut app = App::new(Config { connections: vec![connection("a")] });
    assert_eq!(app.footer()[0].text, EMPTY_FOOTER);
    let session = app.open_connection("a", PageTabs::detached()).unwrap();
    assert!(app.footer()[0].text.ends_with(&format!("  {TAB_HINT}")));
    assert_eq!(app.footer().len(), 1);
    let unconfirmed = Connected { forward_confirmed: Some(false), local_port: Some(5) };
    app.apply_open_event(OpenEvent::Done { session, result: Ok(unconfirmed) });
    app.session_mut(0).set_error_status("bad".to_string());
    let footer = app.footer();
    assert_eq!((footer[0].kind, footer[0].text.as_str()), (StatusKind::Error, "bad"));
    assert_eq!(footer[2].kind, StatusKind::Warn);
    assert!(footer[2].text.contains("port 5;"));
}
