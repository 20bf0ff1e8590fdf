//! The application: its sessions, its keys, and the runs of its statements.
use crate::config::{Config, Connection};
use crate::pages::PageTabs;
use crate::text;
use keymap::{map_key, AppCommand, KeyCode, KeyEvent, KeyModifiers};
use message::{SessionResponse, WorkerResponse};
use session::{Session, SessionAction, SessionId};
use status::{Status, StatusKind};
use vstd::prelude::*;

pub mod keymap;
pub mod message;
pub mod run;
pub mod session;
pub mod status;
pub mod worker;

verus! {

pub const TAB_HINT: &'static str = "Ctrl+T open  Ctrl+W close  Ctrl+N/P switch";

pub const EMPTY_FOOTER: &'static str = "↑/↓ select  ⏎ open  q quit";

/// The pane that keys go to.
#[derive(Debug, Clone, Copy, PartialEq, Eq, Structural)]
pub enum Focus {
    Tree,
    Grid,
    Editor,
}

/// What a key does in the picker of connections.
#[derive(Debug, Clone, Copy, PartialEq, Eq, Structural)]
pub enum PickerCommand {
    MoveUp,
    MoveDown,
    First,
    Last,
}

/// What the application wants done.
#[derive(Debug, Clone, PartialEq, Eq)]
pub enum AppAction {
    Nothing,
    /// The picker was opened: show the connections.
    ShowPicker,
    Picker(PickerCommand),
    /// Open the connection that is selected in the picker.
    OpenSelected,
    /// The session was closed: shut its connection down.
    Close(SessionId),
    /// What the active session wants done.
    Session(SessionAction),
}

/// What is to be done with an answer.
#[derive(Debug)]
pub enum Routed<T, G> {
    /// There is no such session: the answer is dropped.
    Dropped,
    Tree(T),
    Grid(G),
    Session(SessionAction),
}

/// A connection that was made: whether its tunnel was seen to own its port, and which that is.
#[derive(Debug, Clone, Copy, PartialEq, Eq, Structural)]
pub struct Connected {
    pub forward_confirmed: Option<bool>,
    pub local_port: Option<u16>,
}

/// What is reported of a session that opens.
#[derive(Debug)]
pub enum OpenEvent {
    Progress { session: SessionId, message: String },
    Done { session: SessionId, result: Result<Connected, String> },
}

/// What is to be done after a report of a session that opens.
#[derive(Debug, Clone, PartialEq, Eq)]
pub enum OpenAction {
    Nothing,
    /// Keep the connection for the session, and do what it wants.
    Attach(SessionAction),
    /// The session was closed meanwhile: shut the connection down.
    Discard,
}

/// The application.
#[derive(Debug)]
pub struct App {
    sessions: Vec<Session>,
    active: usize,
    next_session_id: u64,
    config: Config,
    picker_open: bool,
    should_quit: bool,
}

/// An application as a value.
#[verifier::ext_equal]
pub struct AppView {
    pub sessions: Seq<session::SessionView>,
    pub active: int,
    pub next_id: int,
    pub config: Config,
    pub picker_open: bool,
    pub should_quit: bool,
}

/// The views of sessions.
pub open spec fn session_views(sessions: Seq<Session>) -> Seq<session::SessionView> {
    Seq::new(sessions.len(), |i: int| sessions[i]@)
}

impl View for App {
    type V = AppView;

    closed spec fn view(&self) -> AppView {
        AppView {
            sessions: session_views(self.sessions@),
            active: self.active as int,
            next_id: self.next_session_id as int,
            config: self.config,
            picker_open: self.picker_open,
            should_quit: self.should_quit,
        }
    }
}

impl AppView {
    /// Where there are sessions, one is active; ids are given in order, and none twice.
    pub open spec fn wf(self) -> bool {
        &&& self.active >= 0
        &&& self.sessions.len() > 0 ==> self.active < self.sessions.len()
        &&& self.next_id <= u64::MAX
        &&& forall|i: int| 0 <= i < self.sessions.len() ==> (#[trigger] self.sessions[i]).wf()
        &&& forall|i: int|
            0 <= i < self.sessions.len() ==> (#[trigger] self.sessions[i]).id.0 < self.next_id
        &&& forall|i: int, j: int|
            0 <= i < j < self.sessions.len() ==> (#[trigger] self.sessions[i]).id.0 < (
            #[trigger] self.sessions[j]).id.0
    }

    /// Whether every session can number another request.
    pub open spec fn has_room(self) -> bool {
        forall|i: int| 0 <= i < self.sessions.len() ==> (#[trigger] self.sessions[i]).run.has_room()
    }

    /// Whether there is a session with that id.
    pub open spec fn knows(self, id: SessionId) -> bool {
        exists|i: int| 0 <= i < self.sessions.len() && (#[trigger] self.sessions[i]).id == id
    }

    /// With another session in place of the one at `i`.
    pub open spec fn with_session(self, i: int, s: session::SessionView) -> AppView {
        AppView { sessions: self.sessions.update(i, s), ..self }
    }

    /// With another tab active, going round.
    pub open spec fn turned(self, forward: bool) -> AppView {
        let n = self.sessions.len() as int;
        AppView {
            active: if n == 0 {
                self.active
            } else if forward {
                if self.active + 1 < n {
                    self.active + 1
                } else {
                    0
                }
            } else if self.active > 0 {
                self.active - 1
            } else {
                n - 1
            },
            ..self
        }
    }

    /// Without the active session; the picker opens in place of the last one.
    pub open spec fn closed(self) -> AppView {
        if self.sessions.len() == 0 {
            self
        } else {
            let rest = self.sessions.remove(self.active);
            AppView {
                sessions: rest,
                active: if self.active < rest.len() {
                    self.active
                } else if rest.len() > 0 {
                    rest.len() - 1
                } else {
                    0
                },
                picker_open: self.picker_open || rest.len() == 0,
                ..self
            }
        }
    }
}

/// What a key does while the picker is open. Without a session there is nothing to go back to, and
/// the picker stays; with one, no key quits.
pub enum PickerKey {
    Move(PickerCommand),
    Open,
    Hide,
    Quit,
    Ignored,
}

/// What a key does while the picker is open.
pub open spec fn picker_binding(key: KeyEvent, no_sessions: bool) -> PickerKey {
    match key.code {
        KeyCode::Up => PickerKey::Move(PickerCommand::MoveUp),
        KeyCode::Down => PickerKey::Move(PickerCommand::MoveDown),
        KeyCode::Home => PickerKey::Move(PickerCommand::First),
        KeyCode::End => PickerKey::Move(PickerCommand::Last),
        KeyCode::Enter => PickerKey::Open,
        KeyCode::Esc => if no_sessions {
            PickerKey::Ignored
        } else {
            PickerKey::Hide
        },
        KeyCode::Char(c) => if c == 'k' {
            PickerKey::Move(PickerCommand::MoveUp)
        } else if c == 'j' {
            PickerKey::Move(PickerCommand::MoveDown)
        } else if c == 'g' {
            PickerKey::Move(PickerCommand::First)
        } else if c == 'G' {
            PickerKey::Move(PickerCommand::Last)
        } else if c == 't' && key.modifiers == KeyModifiers::Control && !no_sessions {
            PickerKey::Hide
        } else if no_sessions && (c == 'q' || (c == 'c' && key.modifiers
            == KeyModifiers::Control)) {
            PickerKey::Quit
        } else {
            PickerKey::Ignored
        },
        _ => PickerKey::Ignored,
    }
}

/// An application after a key.
pub open spec fn pressed(
    before: AppView,
    key: KeyEvent,
    grid_open: bool,
    after: AppView,
    action: AppAction,
) -> bool {
    if before.picker_open {
        match picker_binding(key, before.sessions.len() == 0) {
            PickerKey::Move(c) => after == before && action == AppAction::Picker(c),
            PickerKey::Open => after == before && action is OpenSelected,
            PickerKey::Hide => after == (AppView { picker_open: false, ..before })
                && action is Nothing,
            PickerKey::Quit => after == (AppView { should_quit: true, ..before })
                && action is Nothing,
            PickerKey::Ignored => after == before && action is Nothing,
        }
    } else if before.sessions.len() == 0 {
        let quits = key.code == KeyCode::Char('q') || (key.code == KeyCode::Char('c')
            && key.modifiers == KeyModifiers::Control);
        &&& after == (AppView { should_quit: before.should_quit || quits, ..before })
        &&& action is Nothing
    } else {
        let current = before.sessions[before.active];
        match keymap::binding(key, current.focus) {
            Some(AppCommand::OpenPicker) => after == (AppView { picker_open: true, ..before })
                && action is ShowPicker,
            Some(AppCommand::CloseTab) => after == before.closed() && action == AppAction::Close(
                current.id,
            ),
            Some(AppCommand::NextTab) => after == before.turned(true) && action is Nothing,
            Some(AppCommand::PrevTab) => after == before.turned(false) && action is Nothing,
            _ => {
                &&& action matches AppAction::Session(a)
                &&& session::keyed(
                    current,
                    key,
                    grid_open,
                    after.sessions[before.active],
                    a@,
                )
                &&& after == (AppView {
                    should_quit: before.should_quit || a is Quit,
                    ..before.with_session(before.active, after.sessions[before.active])
                })
            },
        }
    }
}

/// A key changes at most the active session: every other one stays as it is, unless the active one
/// is closed, which changes none of the others either.
pub proof fn law_keys_reach_only_the_active_session(
    before: AppView,
    key: KeyEvent,
    grid_open: bool,
    after: AppView,
    action: AppAction,
    i: int,
)
    requires
        before.wf(),
        pressed(before, key, grid_open, after, action),
        0 <= i < before.sessions.len(),
        i != before.active,
    ensures
        after.sessions.contains(before.sessions[i]),
{
    let s = before.sessions[i];
    if after.sessions.len() == before.sessions.len() {
        assert(after.sessions[i] == s);
    } else {
        let k = if i < before.active { i } else { i - 1 };
        assert(after.sessions == before.sessions.remove(before.active));
        assert(after.sessions[k] == s);
    }
}

/// While the picker is open, no key reaches a session.
pub proof fn law_picker_takes_every_key(
    before: AppView,
    key: KeyEvent,
    grid_open: bool,
    after: AppView,
    action: AppAction,
)
    requires
        before.picker_open,
        pressed(before, key, grid_open, after, action),
    ensures
        after.sessions == before.sessions,
        after.active == before.active,
        !(action is Session),
        before.sessions.len() > 0 ==> after.should_quit == before.should_quit,
{
}

/// Closing a session leaves the others, and a tab that is active, or the picker.
pub proof fn law_closing_leaves_something(v: AppView)
    requires
        v.wf(),
        v.sessions.len() > 0,
    ensures
        v.closed().wf(),
        v.closed().sessions.len() > 0 || v.closed().picker_open,
        !v.closed().knows(v.sessions[v.active].id),
{
    let rest = v.closed().sessions;
    assert forall|i: int| 0 <= i < rest.len() implies (#[trigger] rest[i]).wf() && rest[i].id.0
        < v.next_id && rest[i].id != v.sessions[v.active].id by {
        let k = if i < v.active { i } else { i + 1 };
        assert(rest[i] == v.sessions[k]);
        if k < v.active {
            assert(v.sessions[k].id.0 < v.sessions[v.active].id.0);
        } else {
            assert(v.sessions[v.active].id.0 < v.sessions[k].id.0);
        }
    }
    assert forall|i: int, j: int| 0 <= i < j < rest.len() implies (#[trigger] rest[i]).id.0 < (
    #[trigger] rest[j]).id.0 by {
        let x = if i < v.active { i } else { i + 1 };
        let y = if j < v.active { j } else { j + 1 };
        assert(rest[i] == v.sessions[x]);
        assert(rest[j] == v.sessions[y]);
    }
}

/// Tabs go round: forward and back are each other's opposite, and with as many steps as there are tabs
/// every one is reached, each step going to the neighbour or from one end to the other. Nothing but
/// the active tab changes.
pub proof fn law_tabs_go_round(v: AppView)
    requires
        v.wf(),
        v.sessions.len() > 0,
    ensures
        v.turned(true).turned(false) == v,
        v.turned(false).turned(true) == v,
        v.turned(true).active == (v.active + 1) % (v.sessions.len() as int),
        v.turned(true).sessions == v.sessions,
        v.turned(false).sessions == v.sessions,
        v.turned(true).picker_open == v.picker_open,
        v.turned(true).should_quit == v.should_quit,
{
    let n = v.sessions.len() as int;
    if v.active + 1 < n {
        assert((v.active + 1) % n == v.active + 1) by (nonlinear_arith)
            requires
                0 <= v.active + 1 < n,
        ;
    } else {
        assert(n % n == 0) by (nonlinear_arith)
            requires
                n > 0,
        ;
    }
}

/// Closing a session goes on with the one behind it, or with the one before it where it was the last;
/// the others stay in their order. Only after the very last one does the picker open.
pub proof fn law_closing_goes_on_with_a_neighbour(v: AppView, i: int)
    requires
        v.wf(),
        0 <= i < v.sessions.len(),
    ensures
        v.closed().sessions.len() == v.sessions.len() - 1,
        i < v.active ==> v.closed().sessions[i] == v.sessions[i],
        i > v.active ==> v.closed().sessions[i - 1] == v.sessions[i],
        v.active + 1 < v.sessions.len() ==> v.closed().sessions[v.closed().active]
            == v.sessions[v.active + 1],
        v.sessions.len() > 1 && v.active + 1 == v.sessions.len()
            ==> v.closed().sessions[v.closed().active] == v.sessions[v.active - 1],
        v.sessions.len() > 1 ==> v.closed().picker_open == v.picker_open,
        v.sessions.len() == 1 ==> v.closed().picker_open,
        v.closed().should_quit == v.should_quit,
        v.closed().next_id == v.next_id,
{
}

/// In the picker letters stand for the keys that move, Enter opens what is selected, and only where
/// there is a session to go back to does the picker close, only where there is none does a key quit.
pub proof fn law_picker_keys(m: KeyModifiers, n: KeyModifiers, key: KeyEvent, no_sessions: bool)
    ensures
        picker_binding(KeyEvent { code: KeyCode::Char('k'), modifiers: m }, no_sessions)
            == picker_binding(KeyEvent { code: KeyCode::Up, modifiers: n }, no_sessions),
        picker_binding(KeyEvent { code: KeyCode::Char('j'), modifiers: m }, no_sessions)
            == picker_binding(KeyEvent { code: KeyCode::Down, modifiers: n }, no_sessions),
        picker_binding(KeyEvent { code: KeyCode::Char('g'), modifiers: m }, no_sessions)
            == picker_binding(KeyEvent { code: KeyCode::Home, modifiers: n }, no_sessions),
        picker_binding(KeyEvent { code: KeyCode::Char('G'), modifiers: m }, no_sessions)
            == picker_binding(KeyEvent { code: KeyCode::End, modifiers: n }, no_sessions),
        picker_binding(key, no_sessions) == PickerKey::Move(PickerCommand::MoveUp) <==> key.code
            == KeyCode::Up || key.code == KeyCode::Char('k'),
        picker_binding(key, no_sessions) == PickerKey::Move(PickerCommand::MoveDown) <==> key.code
            == KeyCode::Down || key.code == KeyCode::Char('j'),
        picker_binding(key, no_sessions) == PickerKey::Move(PickerCommand::First) <==> key.code
            == KeyCode::Home || key.code == KeyCode::Char('g'),
        picker_binding(key, no_sessions) == PickerKey::Move(PickerCommand::Last) <==> key.code
            == KeyCode::End || key.code == KeyCode::Char('G'),
        picker_binding(key, no_sessions) is Open <==> key.code == KeyCode::Enter,
        picker_binding(key, no_sessions) is Hide <==> !no_sessions && (key.code == KeyCode::Esc || (
        key.code == KeyCode::Char('t') && key.modifiers == KeyModifiers::Control)),
        picker_binding(key, no_sessions) is Quit <==> no_sessions && (key.code == KeyCode::Char('q')
            || (key.code == KeyCode::Char('c') && key.modifiers == KeyModifiers::Control)),
{
}

/// The application is left only where that is asked for: by a session that quits, or where there is no
/// session, by `q` or Ctrl+C. Nothing takes that back.
pub proof fn law_the_application_is_left_when_asked(
    before: AppView,
    key: KeyEvent,
    grid_open: bool,
    after: AppView,
    action: AppAction,
)
    requires
        before.wf(),
        pressed(before, key, grid_open, after, action),
    ensures
        before.should_quit ==> after.should_quit,
        after.should_quit && !before.should_quit ==> {
            ||| action == AppAction::Session(SessionAction::Quit)
            ||| before.sessions.len() == 0 && (key.code == KeyCode::Char('q') || (key.code
                == KeyCode::Char('c') && key.modifiers == KeyModifiers::Control))
        },
        before.sessions.len() == 0 && (key.code == KeyCode::Char('q') || (key.code == KeyCode::Char(
            'c',
        ) && key.modifiers == KeyModifiers::Control)) ==> after.should_quit,
        action == AppAction::Session(SessionAction::Quit) ==> after.should_quit,
        after.config == before.config,
        after.next_id == before.next_id,
{
}

/// What the keys for tabs do: the picker is shown and opens, the active session is closed, and is the
/// one that is told to be; the next tab and the previous one are each other's opposite.
pub proof fn law_tab_keys(
    before: AppView,
    key: KeyEvent,
    grid_open: bool,
    after: AppView,
    action: AppAction,
)
    requires
        before.wf(),
        !before.picker_open,
        before.sessions.len() > 0,
        pressed(before, key, grid_open, after, action),
    ensures
        action is ShowPicker <==> after.picker_open && after.sessions.len()
            == before.sessions.len(),
        action matches AppAction::Close(id) ==> id == before.sessions[before.active].id
            && !after.knows(id) && after.sessions.len() + 1 == before.sessions.len(),
        after.sessions.len() != before.sessions.len() ==> action is Close,
        after.active != before.active && !(action is Close) ==> action is Nothing
            && after.sessions == before.sessions,
        key == (KeyEvent { code: KeyCode::Char('n'), modifiers: KeyModifiers::Control })
            ==> after.turned(false) == before,
        key == (KeyEvent { code: KeyCode::Char('p'), modifiers: KeyModifiers::Control })
            ==> after.turned(true) == before,
        key == (KeyEvent { code: KeyCode::Char('t'), modifiers: KeyModifiers::Control }) ==> action
            is ShowPicker,
        key == (KeyEvent { code: KeyCode::Char('w'), modifiers: KeyModifiers::Control }) ==> action
            is Close,
{
    law_closing_leaves_something(before);
    law_tabs_go_round(before);
}

/// The footer says what the status line of the active session says, where it says something, and else
/// which keys the focused pane has, and which the tabs have; it warns exactly where there is a tunnel to warn of, whatever else is shown, and the warning comes last.
pub proof fn law_footer_always_warns(v: AppView)
    requires
        v.wf(),
        v.sessions.len() > 0,
    ensures
        ({
            let s = v.sessions[v.active];
            let parts = footer_of(v);
            &&& parts.len() > 0
            &&& s.status matches Some(line) ==> parts[0] == line
            &&& s.status is None ==> parts[0].kind == StatusKind::Info && text::occurs(
                parts[0].text,
                "Ctrl+T open  Ctrl+W close  Ctrl+N/P switch"@,
            )
            &&& s.status is None && s.focus == Focus::Tree ==> text::occurs(
                parts[0].text,
                session::TREE_FOOTER@,
            )
            &&& s.status is None && s.focus == Focus::Grid ==> text::occurs(
                parts[0].text,
                session::GRID_FOOTER@,
            )
            &&& s.status is None && s.focus == Focus::Editor ==> text::occurs(
                parts[0].text,
                session::EDITOR_FOOTER@,
            )
            &&& session::tunnel_warning_of(s.state) matches Some(w) ==> parts.last() == (
            status::StatusView { kind: StatusKind::Warn, text: w })
            &&& session::tunnel_warning_of(s.state) is None ==> parts.len() == 1
        }),
{
    let s = v.sessions[v.active];
    if s.status is None {
        let first = footer_of(v)[0].text;
        text::law_occurs_between_two_parts(first, TAB_HINT@);
        let head = (match s.focus {
            Focus::Tree => session::TREE_FOOTER@,
            Focus::Grid => session::GRID_FOOTER@,
            Focus::Editor => session::EDITOR_FOOTER@,
        }) + "  "@;
        assert(first =~= head + TAB_HINT@ + Seq::<char>::empty());
        let keys = match s.focus {
            Focus::Tree => session::TREE_FOOTER@,
            Focus::Grid => session::GRID_FOOTER@,
            Focus::Editor => session::EDITOR_FOOTER@,
        };
        text::lemma_occurs_in(first, Seq::empty(), keys, "  "@ + TAB_HINT@);
    }
}

proof fn lemma_with_session_wf(v: AppView, i: int, s: session::SessionView)
    requires
        v.wf(),
        0 <= i < v.sessions.len(),
        s.wf(),
        s.id == v.sessions[i].id,
    ensures
        v.with_session(i, s).wf(),
{
    let w = v.with_session(i, s).sessions;
    assert forall|k: int| 0 <= k < w.len() implies (#[trigger] w[k]).wf() && w[k].id
        == v.sessions[k].id by {
        if k != i {
            assert(w[k] == v.sessions[k]);
        }
    }
    assert forall|a: int, b: int| 0 <= a < b < w.len() implies (#[trigger] w[a]).id.0 < (
    #[trigger] w[b]).id.0 by {
        assert(w[a].id == v.sessions[a].id);
        assert(w[b].id == v.sessions[b].id);
    }
}

/// An application after an answer: it goes to the session that it belongs to, and to no other.
pub open spec fn answered<T, G>(
    before: AppView,
    msg: SessionResponse<T, G>,
    displayed: bool,
    after: AppView,
    r: Routed<T, G>,
) -> bool {
    &&& !before.knows(msg.session) ==> after == before && r is Dropped
    &&& forall|i: int|
        0 <= i < before.sessions.len() && (#[trigger] before.sessions[i]).id == msg.session
            ==> match msg.response {
            WorkerResponse::Tree(t) => after == before && r == Routed::<T, G>::Tree(t),
            WorkerResponse::Grid(g) => after == before && r == Routed::<T, G>::Grid(g),
            WorkerResponse::Query(q) => {
                &&& r matches Routed::Session(a)
                &&& session::responded(
                    before.sessions[i],
                    q,
                    displayed,
                    after.sessions[i],
                    a@,
                )
                &&& after == before.with_session(i, after.sessions[i])
            },
        }
}

/// An application after a report of a session that opens.
pub open spec fn reported(
    before: AppView,
    ev: OpenEvent,
    after: AppView,
    action: OpenAction,
) -> bool {
    match ev {
        OpenEvent::Progress { session, message } => {
            &&& action is Nothing
            &&& !before.knows(session) ==> after == before
            &&& forall|i: int|
                0 <= i < before.sessions.len() && (#[trigger] before.sessions[i]).id == session
                    ==> after == before.with_session(
                    i,
                    if before.sessions[i].state is Connecting {
                        session::SessionView {
                            state: session::StateView::Connecting { message: message@ },
                            ..before.sessions[i]
                        }
                    } else {
                        before.sessions[i]
                    },
                )
        },
        OpenEvent::Done { session, result } => {
            &&& !before.knows(session) ==> after == before && (action is Discard <==> result is Ok)
                && (action is Nothing <==> result is Err)
            &&& forall|i: int|
                0 <= i < before.sessions.len() && (#[trigger] before.sessions[i]).id == session
                    ==> match result {
                    Ok(c) => {
                        &&& action == OpenAction::Attach(SessionAction::RefreshTree)
                        &&& after == before.with_session(
                            i,
                            session::SessionView {
                                state: session::StateView::Ready {
                                    forward_confirmed: c.forward_confirmed,
                                    local_port: c.local_port,
                                },
                                ..before.sessions[i]
                            },
                        )
                    },
                    Err(m) => {
                        &&& action is Nothing
                        &&& after == before.with_session(
                            i,
                            session::SessionView {
                                state: session::StateView::Failed { message: m@ },
                                ..before.sessions[i]
                            },
                        )
                    },
                }
        },
    }
}

/// An application after a tab was asked for, for the connection of a name.
pub open spec fn opened(
    before: AppView,
    name: Seq<char>,
    pages: crate::pages::tabs::TabsView,
    after: AppView,
    id: Option<SessionId>,
) -> bool {
    match id {
        None => {
            &&& after == before
            &&& !crate::config::is_configured(before.config, name)
        },
        Some(id) => {
            &&& id.0 == before.next_id
            &&& exists|c: Connection| #[trigger]
                crate::config::is_connection(before.config, name, c) && after == (AppView {
                    sessions: before.sessions.push(
                        session::session_view(id, c.name@, text::opt_view(c.group), pages),
                    ),
                    active: before.sessions.len() as int,
                    next_id: before.next_id + 1,
                    picker_open: false,
                    ..before
                })
        },
    }
}

/// An answer changes at most the session that it belongs to, and neither opens, closes nor activates
/// one; one for a session that is gone is dropped. Answers for the tree and the grid come through as
/// they are.
pub proof fn law_answers_reach_only_their_session<T, G>(
    before: AppView,
    msg: SessionResponse<T, G>,
    displayed: bool,
    after: AppView,
    r: Routed<T, G>,
    i: int,
)
    requires
        before.wf(),
        answered(before, msg, displayed, after, r),
    ensures
        after.sessions.len() == before.sessions.len(),
        after.active == before.active,
        after.picker_open == before.picker_open,
        after.should_quit == before.should_quit,
        0 <= i < before.sessions.len() && before.sessions[i].id != msg.session ==> after.sessions[i]
            == before.sessions[i],
        r is Dropped <==> !before.knows(msg.session),
        before.knows(msg.session) ==> (msg.response matches WorkerResponse::Tree(x) ==> r
            == Routed::<T, G>::Tree(x)),
        before.knows(msg.session) ==> (msg.response matches WorkerResponse::Grid(x) ==> r
            == Routed::<T, G>::Grid(x)),
        before.knows(msg.session) ==> (msg.response is Query <==> r is Session),
{
    if before.knows(msg.session) {
        let k = choose|k: int|
            0 <= k < before.sessions.len() && (#[trigger] before.sessions[k]).id == msg.session;
        assert(before.sessions[k].id == msg.session);
    }
}

/// A report of a session that opens changes at most what that session says of its state. One that is
/// connected stays so whatever progress is reported late; a connection is attached exactly where it
/// was made for a session that is there, which is then ready, and discarded where the session is gone,
/// which never comes back.
pub proof fn law_reports_reach_only_their_session(
    before: AppView,
    ev: OpenEvent,
    after: AppView,
    action: OpenAction,
    i: int,
)
    requires
        before.wf(),
        reported(before, ev, after, action),
    ensures
        after.sessions.len() == before.sessions.len(),
        after.active == before.active,
        ev matches OpenEvent::Done { session, result } ==> (action is Discard <==> result is Ok
            && !before.knows(session)),
        ev matches OpenEvent::Done { session, result } ==> (action is Attach <==> result is Ok
            && before.knows(session)),
        ev is Progress ==> action is Nothing,
        0 <= i < before.sessions.len() ==> ({
            let id = match ev {
                OpenEvent::Progress { session, message } => session,
                OpenEvent::Done { session, result } => session,
            };
            let s = before.sessions[i];
            &&& s.id != id ==> after.sessions[i] == s
            &&& after.sessions[i] == (session::SessionView {
                state: after.sessions[i].state,
                ..s
            })
            &&& ev is Progress && !(s.state is Connecting) ==> after.sessions[i] == s
            &&& s.id == id ==> (ev matches OpenEvent::Progress { session, message } ==> (s.state
                is Connecting ==> after.sessions[i].state == (session::StateView::Connecting {
                message: message@,
            })))
            &&& s.id == id ==> (ev matches OpenEvent::Done { session, result } ==> (
            after.sessions[i].state is Ready <==> result is Ok))
            &&& s.id == id ==> (ev matches OpenEvent::Done { session, result } ==> (
            result matches Ok(c) ==> after.sessions[i].state == (session::StateView::Ready {
                forward_confirmed: c.forward_confirmed,
                local_port: c.local_port,
            })))
            &&& s.id == id ==> (ev matches OpenEvent::Done { session, result } ==> (
            result matches Err(m) ==> after.sessions[i].state == (session::StateView::Failed {
                message: m@,
            })))
        }),
{
    let id = match ev {
        OpenEvent::Progress { session, message } => session,
        OpenEvent::Done { session, result } => session,
    };
    if before.knows(id) {
        let k = choose|k: int|
            0 <= k < before.sessions.len() && (#[trigger] before.sessions[k]).id == id;
        assert(before.sessions[k].id == id);
        if 0 <= i < k {
            assert(before.sessions[i].id.0 < before.sessions[k].id.0);
        } else if k < i < before.sessions.len() {
            assert(before.sessions[k].id.0 < before.sessions[i].id.0);
        }
    }
}

/// A tab is opened exactly for a connection that is configured. It comes behind the others, which stay
/// as they are, is the active one, and begins to connect with nothing running; its number is one that
/// no session had.
pub proof fn law_a_new_tab_is_the_active_one(
    before: AppView,
    name: Seq<char>,
    pages: crate::pages::tabs::TabsView,
    after: AppView,
    id: Option<SessionId>,
    i: int,
)
    requires
        before.wf(),
        before.next_id < u64::MAX,
        opened(before, name, pages, after, id),
    ensures
        id is Some <==> crate::config::is_configured(before.config, name),
        id is None ==> after == before,
        id matches Some(id) ==> {
            let s = after.sessions[after.active];
            &&& !before.knows(id)
            &&& after.sessions.len() == before.sessions.len() + 1
            &&& 0 <= i < before.sessions.len() ==> after.sessions[i] == before.sessions[i]
            &&& after.active == before.sessions.len()
            &&& s.id == id
            &&& s.name == name
            &&& s.pages == pages
            &&& s.state is Connecting
            &&& s.run.active is None
            &&& s.focus == Focus::Tree
            &&& s.status is None
            &&& !after.picker_open
            &&& after.next_id > before.next_id
        },
{
    if id is Some {
        let c = choose|c: Connection| #[trigger]
            crate::config::is_connection(before.config, name, c) && after == (AppView {
                sessions: before.sessions.push(
                    session::session_view(id->0, c.name@, text::opt_view(c.group), pages),
                ),
                active: before.sessions.len() as int,
                next_id: before.next_id + 1,
                picker_open: false,
                ..before
            });
        crate::config::law_name_stands_for_one_connection(before.config, name, c, c);
        assert(!before.knows(id->0)) by {
            if before.knows(id->0) {
                let k = choose|k: int|
                    0 <= k < before.sessions.len() && (#[trigger] before.sessions[k]).id == id->0;
                assert(before.sessions[k].id.0 < before.next_id);
            }
        }
    }
}

impl App {
    /// An application without sessions.
    pub fn new(config: Config) -> (a: App)
        ensures
            a@.wf(),
            a@ == (AppView {
                sessions: Seq::empty(),
                active: 0,
                next_id: 0,
                config,
                picker_open: false,
                should_quit: false,
            }),
    {
        let a = App {
            sessions: Vec::new(),
            active: 0,
            next_session_id: 0,
            config,
            picker_open: false,
            should_quit: false,
        };
        proof {
            assert(a@.sessions =~= Seq::empty());
        }
        a
    }

    pub fn sessions(&self) -> (s: &[Session])
        ensures
            session_views(s@) == self@.sessions,
    {
        self.sessions.as_slice()
    }

    pub fn active_index(&self) -> (i: usize)
        ensures
            i == self@.active,
    {
        self.active
    }

    pub fn config(&self) -> (c: &Config)
        ensures
            *c == self@.config,
    {
        &self.config
    }

    pub fn picker_open(&self) -> (b: bool)
        ensures
            b == self@.picker_open,
    {
        self.picker_open
    }

    pub fn should_quit(&self) -> (b: bool)
        ensures
            b == self@.should_quit,
    {
        self.should_quit
    }

    /// The session at `index`, to change.
    pub fn session_mut(&mut self, index: usize) -> (s: &mut Session)
        requires
            index < old(self)@.sessions.len(),
        ensures
            s@ == old(self)@.sessions[index as int],
            final(self)@ == old(self)@.with_session(index as int, final(s)@),
    {
        &mut self.sessions[index]
    }

    /// Where the session with an id stands.
    pub fn find(&self, id: SessionId) -> (found: Option<usize>)
        ensures
            match found {
                Some(i) => i < self@.sessions.len() && self@.sessions[i as int].id == id,
                None => !self@.knows(id),
            },
    {
        let n: usize = self.sessions.len();
        let mut i: usize = 0;
        while i < n
            invariant
                n == self.sessions@.len(),
                i <= n,
                forall|j: int| 0 <= j < i ==> (#[trigger] self@.sessions[j]).id != id,
            decreases n - i,
        {
            proof {
                assert(self@.sessions[i as int] == self.sessions@[i as int]@);
            }
            if self.sessions[i].id().0 == id.0 {
                return Some(i);
            }
            i = i + 1;
        }
        None
    }

    /// Opens a tab for a connection, with the given pages; a name that is not configured opens
    /// nothing.
    pub fn open_connection(&mut self, name: &str, pages: PageTabs) -> (id: Option<SessionId>)
        requires
            old(self)@.wf(),
            old(self)@.next_id < u64::MAX,
            pages@.wf(),
        ensures
            final(self)@.wf(),
            opened(old(self)@, name@, pages@, final(self)@, id),
    {
        let (conn_name, group) = match self.config.connection(name) {
            None => return None,
            Some(conn) => {
                proof {
                    assert(crate::config::is_connection(self@.config, name@, *conn));
                }
                let group: Option<String> = match &conn.group {
                    Some(g) => Some(g.clone()),
                    None => None,
                };
                (conn.name.clone(), group)
            },
        };
        let ghost before = self@;
        let ghost c = choose|c: Connection|
            crate::config::is_connection(before.config, name@, c) && c.name@ == conn_name@ && text::opt_view(
                c.group,
            ) == text::opt_view(group);
        let id = SessionId(self.next_session_id);
        let session: Session = Session::new_with_pages(id, conn_name, group, pages);
        let n: usize = self.sessions.len();
        self.sessions.push(session);
        self.next_session_id = self.next_session_id + 1;
        self.active = n;
        self.picker_open = false;
        proof {
            assert(self@.sessions =~= before.sessions.push(session@));
            assert(crate::config::is_connection(before.config, name@, c));
        }
        Some(id)
    }

    /// Hands an answer to the session that it belongs to, and to no other. `displayed` says whether
    /// that session's grid shows the result of the statement that is running.
    pub fn apply<T, G>(&mut self, msg: SessionResponse<T, G>, displayed: bool) -> (r: Routed<T, G>)
        requires
            old(self)@.wf(),
            old(self)@.has_room(),
        ensures
            final(self)@.wf(),
            answered(old(self)@, msg, displayed, final(self)@, r),
    {
        let index: usize = match self.find(msg.session) {
            Some(i) => i,
            None => return Routed::Dropped,
        };
        let ghost before = self@;
        proof {
            assert forall|i: int|
                0 <= i < before.sessions.len() && (#[trigger] before.sessions[i]).id
                    == msg.session implies i == index by {
                if i < index {
                    assert(before.sessions[i].id.0 < before.sessions[index as int].id.0);
                } else if index < i {
                    assert(before.sessions[index as int].id.0 < before.sessions[i].id.0);
                }
            }
        }
        match msg.response {
            WorkerResponse::Tree(t) => Routed::Tree(t),
            WorkerResponse::Grid(g) => Routed::Grid(g),
            WorkerResponse::Query(q) => {
                let a: SessionAction = self.session_mut(index).apply_query_response(q, displayed);
                proof {
                    let s = self@.sessions[index as int];
                    lemma_with_session_wf(before, index as int, s);
                }
                Routed::Session(a)
            },
        }
    }

    /// Takes up what is reported of a session that opens. A connection for a session that was closed
    /// meanwhile is discarded: it does not bring the session back.
    pub fn apply_open_event(&mut self, ev: OpenEvent) -> (action: OpenAction)
        requires
            old(self)@.wf(),
        ensures
            final(self)@.wf(),
            reported(old(self)@, ev, final(self)@, action),
    {
        let id: SessionId = match &ev {
            OpenEvent::Progress { session, message } => *session,
            OpenEvent::Done { session, result } => *session,
        };
        let ghost before = self@;
        let found: Option<usize> = self.find(id);
        proof {
            if found is Some {
                let index = found->0 as int;
                assert forall|i: int|
                    0 <= i < before.sessions.len() && (#[trigger] before.sessions[i]).id
                        == id implies i == index by {
                    if i < index {
                        assert(before.sessions[i].id.0 < before.sessions[index].id.0);
                    } else if index < i {
                        assert(before.sessions[index].id.0 < before.sessions[i].id.0);
                    }
                }
            }
        }
        match ev {
            OpenEvent::Progress { session, message } => {
                if let Some(i) = found {
                    self.session_mut(i).set_connecting_message(message);
                    proof {
                        lemma_with_session_wf(before, i as int, self@.sessions[i as int]);
                    }
                }
                OpenAction::Nothing
            },
            OpenEvent::Done { session, result } => match found {
                Some(i) => match result {
                    Ok(c) => {
                        let a: SessionAction = self.session_mut(i).on_connected(
                            c.forward_confirmed,
                            c.local_port,
                        );
                        proof {
                            lemma_with_session_wf(before, i as int, self@.sessions[i as int]);
                        }
                        OpenAction::Attach(a)
                    },
                    Err(message) => {
                        self.session_mut(i).on_failed(message);
                        proof {
                            lemma_with_session_wf(before, i as int, self@.sessions[i as int]);
                        }
                        OpenAction::Nothing
                    },
                },
                None => match result {
                    Ok(_) => OpenAction::Discard,
                    Err(_) => OpenAction::Nothing,
                },
            },
        }
    }

    /// Takes up a key. `grid_open` says whether the active session's grid shows anything.
    pub fn on_key(&mut self, key: KeyEvent, grid_open: bool) -> (action: AppAction)
        requires
            old(self)@.wf(),
            old(self)@.has_room(),
        ensures
            final(self)@.wf(),
            pressed(old(self)@, key, grid_open, final(self)@, action),
    {
        if self.picker_open {
            return self.picker_key(key);
        }
        if self.sessions.len() == 0 {
            match (key.code, key.modifiers) {
                (KeyCode::Char('q'), _) => {
                    self.should_quit = true;
                },
                (KeyCode::Char('c'), KeyModifiers::Control) => {
                    self.should_quit = true;
                },
                _ => {},
            }
            return AppAction::Nothing;
        }
        let ghost before = self@;
        proof {
            assert(before.sessions[before.active] == self.sessions@[self.active as int]@);
        }
        match map_key(key, self.sessions[self.active].focus()) {
            Some(AppCommand::OpenPicker) => {
                self.picker_open = true;
                AppAction::ShowPicker
            },
            Some(AppCommand::CloseTab) => match self.close_active() {
                Some(id) => AppAction::Close(id),
                None => AppAction::Nothing,
            },
            Some(AppCommand::NextTab) => {
                self.next_tab();
                AppAction::Nothing
            },
            Some(AppCommand::PrevTab) => {
                self.prev_tab();
                AppAction::Nothing
            },
            _ => {
                let index: usize = self.active;
                let a: SessionAction = self.session_mut(index).on_key(key, grid_open);
                proof {
                    lemma_with_session_wf(before, index as int, self@.sessions[index as int]);
                }
                match &a {
                    SessionAction::Quit => {
                        self.should_quit = true;
                    },
                    _ => {},
                }
                AppAction::Session(a)
            },
        }
    }

    fn picker_key(&mut self, key: KeyEvent) -> (action: AppAction)
        requires
            old(self)@.wf(),
            old(self)@.picker_open,
        ensures
            final(self)@.wf(),
            pressed(old(self)@, key, false, final(self)@, action),
    {
        let no_sessions: bool = self.sessions.len() == 0;
        match (key.code, key.modifiers) {
            (KeyCode::Up, _) | (KeyCode::Char('k'), _) => AppAction::Picker(PickerCommand::MoveUp),
            (KeyCode::Down, _) | (KeyCode::Char('j'), _) => AppAction::Picker(
                PickerCommand::MoveDown,
            ),
            (KeyCode::Home, _) | (KeyCode::Char('g'), _) => AppAction::Picker(PickerCommand::First),
            (KeyCode::End, _) | (KeyCode::Char('G'), _) => AppAction::Picker(PickerCommand::Last),
            (KeyCode::Enter, _) => AppAction::OpenSelected,
            (KeyCode::Esc, _) | (KeyCode::Char('t'), KeyModifiers::Control) => {
                if !no_sessions {
                    self.picker_open = false;
                }
                AppAction::Nothing
            },
            (KeyCode::Char('q'), _) | (KeyCode::Char('c'), KeyModifiers::Control) => {
                if no_sessions {
                    self.should_quit = true;
                }
                AppAction::Nothing
            },
            _ => AppAction::Nothing,
        }
    }

    /// Opens the picker where there is no session.
    pub fn ensure_picker_if_no_sessions(&mut self) -> (opened: bool)
        requires
            old(self)@.wf(),
        ensures
            final(self)@.wf(),
            opened == (old(self)@.sessions.len() == 0 && !old(self)@.picker_open),
            final(self)@ == (AppView {
                picker_open: old(self)@.picker_open || old(self)@.sessions.len() == 0,
                ..old(self)@
            }),
    {
        if self.sessions.len() == 0 && !self.picker_open {
            self.picker_open = true;
            true
        } else {
            false
        }
    }

    /// Closes the active session, and says which it was.
    pub fn close_active(&mut self) -> (id: Option<SessionId>)
        requires
            old(self)@.wf(),
        ensures
            final(self)@.wf(),
            final(self)@ == old(self)@.closed(),
            match id {
                Some(id) => old(self)@.sessions.len() > 0 && id == old(self)@.sessions[old(
                    self,
                )@.active].id,
                None => old(self)@.sessions.len() == 0,
            },
    {
        if self.sessions.len() == 0 {
            return None;
        }
        let ghost before = self@;
        proof {
            law_closing_leaves_something(before);
            assert(before.sessions[before.active] == self.sessions@[self.active as int]@);
        }
        let id: SessionId = self.sessions[self.active].id();
        let index: usize = self.active;
        self.sessions.remove(index);
        proof {
            assert(session_views(self.sessions@) =~= before.sessions.remove(before.active));
        }
        if self.active >= self.sessions.len() {
            self.active = if self.sessions.len() > 0 {
                self.sessions.len() - 1
            } else {
                0
            };
        }
        if self.sessions.len() == 0 {
            self.picker_open = true;
        }
        Some(id)
    }

    /// Goes to the tab behind, from the last one to the first.
    pub fn next_tab(&mut self)
        requires
            old(self)@.wf(),
        ensures
            final(self)@.wf(),
            final(self)@ == old(self)@.turned(true),
    {
        let n: usize = self.sessions.len();
        if n == 0 {
            return ;
        }
        if self.active < n - 1 {
            self.active = self.active + 1;
        } else {
            self.active = 0;
        }
    }

    /// Goes to the tab before, from the first one to the last.
    pub fn prev_tab(&mut self)
        requires
            old(self)@.wf(),
        ensures
            final(self)@.wf(),
            final(self)@ == old(self)@.turned(false),
    {
        let n: usize = self.sessions.len();
        if n == 0 {
            return ;
        }
        if self.active > 0 {
            self.active = self.active - 1;
        } else {
            self.active = n - 1;
        }
    }

    /// The parts of the footer, each with what it says about how it looks: the active session's
    /// status, or its keys; then a warning about its tunnel, whatever else is shown.
    pub fn footer(&self) -> (parts: Vec<Status>)
        requires
            self@.wf(),
        ensures
            status_views(parts@) == footer_of(self@),
    {
        let mut parts: Vec<Status> = Vec::new();
        if self.sessions.len() == 0 {
            parts.push(Status::info(EMPTY_FOOTER.to_owned()));
            proof {
                assert(status_views(parts@) =~= footer_of(self@));
            }
            return parts;
        }
        let session: &Session = &self.sessions[self.active];
        proof {
            assert(self@.sessions[self@.active] == session@);
        }
        match session.status() {
            Some(s) => parts.push(Status { kind: s.kind, text: s.text.clone() }),
            None => {
                let mut text: String = session.footer_text().to_owned();
                text.append("  ");
                text.append(TAB_HINT);
                parts.push(Status::info(text));
            },
        }
        match session.tunnel_warning() {
            Some(w) => {
                parts.push(Status::info("  ".to_owned()));
                parts.push(Status::warn(w));
            },
            None => {},
        }
        proof {
            assert(status_views(parts@) =~= footer_of(self@));
        }
        parts
    }
}

/// The views of statuses.
pub open spec fn status_views(parts: Seq<Status>) -> Seq<status::StatusView> {
    Seq::new(parts.len(), |i: int| parts[i]@)
}

/// The parts of the footer.
pub open spec fn footer_of(v: AppView) -> Seq<status::StatusView> {
    if v.sessions.len() == 0 {
        seq![status::StatusView { kind: StatusKind::Info, text: EMPTY_FOOTER@ }]
    } else {
        let s = v.sessions[v.active];
        let first = match s.status {
            Some(line) => line,
            None => status::StatusView {
                kind: StatusKind::Info,
                text: (match s.focus {
                    Focus::Tree => session::TREE_FOOTER@,
                    Focus::Grid => session::GRID_FOOTER@,
                    Focus::Editor => session::EDITOR_FOOTER@,
                }) + "  "@ + TAB_HINT@,
            },
        };
        match session::tunnel_warning_of(s.state) {
            Some(w) => seq![
                first,
                status::StatusView { kind: StatusKind::Info, text: "  "@ },
                status::StatusView { kind: StatusKind::Warn, text: w },
            ],
            None => seq![first],
        }
    }
}

} // verus!
