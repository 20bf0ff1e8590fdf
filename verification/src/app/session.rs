//! A session: one connection, its pages, and the run that is under way.
use super::keymap::{map_key, AppCommand, GridCommand, KeyEvent, RunKey, TreeCommand};
use super::run::{
    CancelOutcome, CancelRequest, QueryOutcome, QueryRequest, QueryResponse, RequestId, RunOutcome,
    RunState, RunSummary,
};
use super::status::{Status, StatusKind};
use super::Focus;
use crate::datasource::DataSourceError;
use crate::editor::{Motion, Position, RunTarget, RunUnit, SplitError};
use crate::pages::tabs::Candidate;
use crate::pages::{PageName, PageTabs, PagesError};
use crate::text;
use vstd::prelude::*;

verus! {

pub const TREE_FOOTER: &'static str =
    "↑/↓ move  →/← expand/collapse  ⏎ open/toggle  r refresh  . system  Tab grid  q quit";

pub const GRID_FOOTER: &'static str =
    "↑/↓ move  ←/→ scroll cols  PgUp/PgDn page  n/p next/prev page  r refresh  Esc/Tab tree  q quit";

pub const EDITOR_FOOTER: &'static str =
    "type to edit  Ctrl+R run cursor/selection  Ctrl+E run buffer  Ctrl+A select all  Esc clear selection  Ctrl+C cancel/quit  Tab tree/grid";

/// The longest title that is not cut.
pub const TITLE_MAX: usize = 40;

/// Tells sessions apart; never given twice.
#[derive(Debug, Clone, Copy, PartialEq, Eq, Hash, PartialOrd, Ord, Structural)]
pub struct SessionId(pub u64);

/// How far a session has come.
#[derive(Debug, Clone, PartialEq, Eq)]
pub enum SessionState {
    Connecting { message: String },
    /// It is connected: whether its tunnel was seen to own its port, and which port that is.
    Ready { forward_confirmed: Option<bool>, local_port: Option<u16> },
    Failed { message: String },
}

/// A session's state as a value.
pub enum StateView {
    Connecting { message: Seq<char> },
    Ready { forward_confirmed: Option<bool>, local_port: Option<u16> },
    Failed { message: Seq<char> },
}

impl View for SessionState {
    type V = StateView;

    open spec fn view(&self) -> StateView {
        match self {
            SessionState::Connecting { message } => StateView::Connecting { message: message@ },
            SessionState::Ready { forward_confirmed, local_port } => StateView::Ready {
                forward_confirmed: *forward_confirmed,
                local_port: *local_port,
            },
            SessionState::Failed { message } => StateView::Failed { message: message@ },
        }
    }
}

/// What a session wants done.
#[derive(Debug, Clone, PartialEq, Eq)]
pub enum SessionAction {
    Nothing,
    Quit,
    /// Open or toggle the selected row of the tree.
    Activate,
    /// Load the tree's root.
    RefreshTree,
    Tree(TreeCommand),
    Grid(GridCommand),
    /// Show the grid as loading under a title, and send the statement.
    Query { request: QueryRequest, title: String },
    Cancel(CancelRequest),
}

/// A session's wish as a value.
pub enum ActionView {
    Nothing,
    Quit,
    Activate,
    RefreshTree,
    Tree(TreeCommand),
    Grid(GridCommand),
    Query { id: RequestId, sql: Seq<char>, title: Seq<char> },
    Cancel(CancelRequest),
}

impl View for SessionAction {
    type V = ActionView;

    open spec fn view(&self) -> ActionView {
        match self {
            SessionAction::Nothing => ActionView::Nothing,
            SessionAction::Quit => ActionView::Quit,
            SessionAction::Activate => ActionView::Activate,
            SessionAction::RefreshTree => ActionView::RefreshTree,
            SessionAction::Tree(c) => ActionView::Tree(*c),
            SessionAction::Grid(c) => ActionView::Grid(*c),
            SessionAction::Query { request, title } => ActionView::Query {
                id: request.id,
                sql: request.sql@,
                title: title@,
            },
            SessionAction::Cancel(c) => ActionView::Cancel(*c),
        }
    }
}

/// A session.
#[derive(Debug)]
pub struct Session {
    id: SessionId,
    connection_name: String,
    group: Option<String>,
    pages: PageTabs,
    run: RunState,
    // The page that the run was started from. An error's place is shown only while that page is the
    // active one; closing a page shifts the others, and clears it.
    run_page: Option<usize>,
    status: Option<Status>,
    focus: Focus,
    state: SessionState,
}

/// A session as a value.
#[verifier::ext_equal]
pub struct SessionView {
    pub id: SessionId,
    pub name: Seq<char>,
    pub group: Option<Seq<char>>,
    pub pages: crate::pages::tabs::TabsView,
    pub run: super::run::RunView,
    pub run_page: Option<usize>,
    pub status: Option<super::status::StatusView>,
    pub focus: Focus,
    pub state: StateView,
}

impl View for Session {
    type V = SessionView;

    closed spec fn view(&self) -> SessionView {
        SessionView {
            id: self.id,
            name: self.connection_name@,
            group: text::opt_view(self.group),
            pages: self.pages@,
            run: self.run@,
            run_page: self.run_page,
            status: super::status::opt_status(self.status),
            focus: self.focus,
            state: self.state@,
        }
    }
}

/// An information on the status line.
pub open spec fn info_line(text: Seq<char>) -> Option<super::status::StatusView> {
    Some(super::status::StatusView { kind: StatusKind::Info, text })
}

/// An error on the status line.
pub open spec fn error_line(text: Seq<char>) -> Option<super::status::StatusView> {
    Some(super::status::StatusView { kind: StatusKind::Error, text })
}

/// The first line of a text, without its line break.
pub open spec fn first_line_of(s: Seq<char>) -> Seq<char> {
    if s.contains('\n') {
        let line = s.take(s.index_of_first('\n')->0);
        if line.len() > 0 && line.last() == '\r' {
            line.drop_last()
        } else {
            line
        }
    } else {
        s
    }
}

/// The title of a statement: its first line, cut if it is long.
pub open spec fn title_view(sql: Seq<char>) -> Seq<char> {
    let line = first_line_of(sql);
    if line.len() > TITLE_MAX {
        line.take(TITLE_MAX as int) + "…"@
    } else {
        line
    }
}

/// Where the next focus is, going round the panes; the grid is left out while it is not open.
pub open spec fn next_focus(focus: Focus, grid_open: bool) -> Focus {
    match focus {
        Focus::Tree => Focus::Editor,
        Focus::Editor => if grid_open {
            Focus::Grid
        } else {
            Focus::Tree
        },
        Focus::Grid => Focus::Tree,
    }
}

/// The byte offset in `text` of an error that the server placed at the character `pos`, counted
/// from 1, of the statement of `unit`; `None` if the text no longer holds that statement, or it has
/// no such character.
pub open spec fn error_offset_of(
    text: Seq<char>,
    unit: crate::editor::RunUnitView,
    pos: u32,
) -> Option<int> {
    if 1 <= pos <= unit.sql.len() && unit.span.fits(text) && unit.sql == text::byte_slice(
        text,
        unit.span.start as int,
        unit.span.end as int,
    ) {
        Some(unit.span.start + text::byte_offset(unit.sql, pos - 1))
    } else {
        None
    }
}

/// Where in the statement an error was found.
pub open spec fn position_in(e: DataSourceError) -> Option<u32> {
    match e {
        DataSourceError::Query { sql, source } => match source.position {
            Some(crate::datasource::ErrorPosition::Original(p)) => Some(p),
            _ => None,
        },
        _ => None,
    }
}

/// What the status line says while a statement runs.
pub open spec fn running_line(run: super::run::RunView) -> Option<super::status::StatusView> {
    let total = run.plan.len();
    if total <= 1 {
        info_line("running…"@)
    } else {
        let n = if run.index < total {
            (run.index + 1) as nat
        } else {
            total
        };
        info_line(
            "running statement "@ + text::decimal(n) + " of "@ + text::decimal(total) + "…"@,
        )
    }
}

/// "statement (ran) of (total)".
pub open spec fn counted(ran: int, total: int) -> Seq<char> {
    "statement "@ + text::decimal(ran as nat) + " of "@ + text::decimal(total as nat)
}

/// What the status line says after a run.
pub open spec fn summary_line(s: super::run::SummaryView) -> super::status::StatusView {
    match s.cancelled {
        Some(CancelOutcome::Interrupted) => super::status::StatusView {
            kind: StatusKind::Info,
            text: "cancelled — "@ + counted(s.ran, s.total) + " interrupted"@,
        },
        Some(CancelOutcome::CompletedFirst) => super::status::StatusView {
            kind: StatusKind::Warn,
            text: if s.ran < s.total {
                "cancel came too late — "@ + counted(s.ran, s.total)
                    + " completed; stopped before statement "@ + text::decimal((s.ran + 1) as nat)
            } else {
                "cancel came too late — "@ + counted(s.ran, s.total) + " completed"@
            },
        },
        None => match s.failed {
            Some(err) => super::status::StatusView {
                kind: StatusKind::Error,
                text: counted(s.ran, s.total) + " failed: "@ + err,
            },
            None => super::status::StatusView {
                kind: StatusKind::Info,
                text: "ran "@ + text::decimal(s.ran as nat) + " of "@ + text::decimal(
                    s.total as nat,
                ) + (match s.last_affected {
                    Some(n) => " · "@ + text::decimal(n as nat) + " rows affected"@,
                    None => Seq::empty(),
                }),
            },
        },
    }
}

impl SessionView {
    /// The invariant of a session.
    pub open spec fn wf(self) -> bool {
        &&& self.pages.wf()
        &&& self.run.wf()
    }

    /// The active page's buffer.
    pub open spec fn buffer(self) -> crate::editor::buffer::BufferView {
        self.pages.current().buffer
    }

    /// With the cursor of the active page at `pos`, and nothing selected.
    pub open spec fn at(self, pos: Position) -> SessionView {
        SessionView {
            pages: self.pages.with_current(
                crate::pages::tabs::PageView {
                    buffer: self.buffer().moved(pos, Motion::Move),
                    ..self.pages.current()
                },
            ),
            ..self
        }
    }

    /// Whether `after` is this session with the cursor at a byte offset of the text.
    pub open spec fn jumped(self, offset: int, after: SessionView) -> bool {
        let pos = after.buffer().cursor;
        crate::editor::buffer::is_position_at(self.buffer(), offset, pos) && after == self.at(pos)
    }

    /// Where to show an error of the statement that is running: only on the page that the run was
    /// started from, and only if the page still holds the statement.
    pub open spec fn error_place(self, e: DataSourceError) -> Option<int> {
        if self.run_page != Some(self.pages.active as usize) || self.run.index
            >= self.run.plan.len() {
            None
        } else {
            match position_in(e) {
                Some(pos) => error_offset_of(
                    self.buffer().text(),
                    self.run.plan[self.run.index],
                    pos,
                ),
                None => None,
            }
        }
    }
}

/// Whether `plan` is what planning a run of `target` gives.
pub open spec fn is_planned(
    b: crate::editor::buffer::BufferView,
    target: RunTarget,
    plan: Result<Vec<RunUnit>, SplitError>,
) -> bool {
    let split = crate::editor::split_view(b.text());
    &&& plan is Err <==> crate::editor::refuses(b, target, split)
    &&& plan matches Err(e) ==> e@ == split.error->0
    &&& plan matches Ok(units) ==> crate::editor::is_plan(b, target, split.statements, units@)
}

/// A session after a plan was made: what could not be split is shown, an empty plan is not run.
pub open spec fn begun(
    before: SessionView,
    plan: Result<Vec<RunUnit>, SplitError>,
    after: SessionView,
    action: ActionView,
) -> bool {
    match plan {
        Err(e) => {
            &&& (SessionView { status: error_line(e.message@), ..before }).jumped(
                e.span.start as int,
                after,
            )
            &&& action is Nothing
        },
        Ok(units) => if units@.len() == 0 {
            &&& after == (SessionView { status: info_line("nothing to run"@), ..before })
            &&& action is Nothing
        } else {
            let run = before.run.started(super::run::unit_views(units@));
            &&& after == (SessionView {
                run,
                run_page: Some(before.pages.active as usize),
                status: running_line(run),
                ..before
            })
            &&& action == (ActionView::Query {
                id: run.active->0,
                sql: units@[0].sql@,
                title: title_view(units@[0].sql@),
            })
        },
    }
}

/// A session after a run was asked for. A session that is not connected does nothing, and one that
/// runs something says so.
pub open spec fn run_started(
    before: SessionView,
    target: RunTarget,
    after: SessionView,
    action: ActionView,
) -> bool {
    if !(before.state is Ready) {
        after == before && action is Nothing
    } else if before.run.active is Some {
        after == (SessionView { status: info_line("a query is already running"@), ..before })
            && action is Nothing
    } else {
        exists|plan: Result<Vec<RunUnit>, SplitError>| #[trigger]
            is_planned(before.buffer(), target, plan) && begun(before, plan, after, action)
    }
}

/// What a run key runs: the selection if there is one, else the statement at the cursor; or the
/// whole buffer.
pub open spec fn target_of(key: RunKey, b: crate::editor::buffer::BufferView) -> RunTarget {
    match key {
        RunKey::CursorOrSelection => if b.selection() is Some {
            RunTarget::Selection
        } else {
            RunTarget::Cursor
        },
        RunKey::Buffer => RunTarget::Buffer,
    }
}

/// A session after a key, at most with its status line cleared: keys clear it, but for those that
/// write it, and but for the time that a statement runs.
pub open spec fn refreshed(before: SessionView, cmd: Option<AppCommand>) -> SessionView {
    let writes = match cmd {
        Some(AppCommand::Run(_)) => true,
        Some(AppCommand::CancelOrQuit) => true,
        _ => false,
    };
    if writes || before.run.active is Some {
        before
    } else {
        SessionView { status: None, ..before }
    }
}

/// A session after a key.
pub open spec fn keyed(
    before: SessionView,
    key: KeyEvent,
    grid_open: bool,
    after: SessionView,
    action: ActionView,
) -> bool {
    let cmd = super::keymap::binding(key, before.focus);
    let s = refreshed(before, cmd);
    match cmd {
        Some(AppCommand::Quit) => after == s && action is Quit,
        Some(AppCommand::ToggleFocus) => after == (SessionView {
            focus: next_focus(s.focus, grid_open),
            ..s
        }) && action is Nothing,
        Some(AppCommand::FocusTree) => after == (SessionView { focus: Focus::Tree, ..s })
            && action is Nothing,
        Some(AppCommand::Activate) => after == s && action is Activate,
        Some(AppCommand::Tree(c)) => after == s && action == ActionView::Tree(c),
        Some(AppCommand::Grid(c)) => after == s && action == ActionView::Grid(c),
        Some(AppCommand::Editor(c)) => {
            &&& crate::editor::state::commanded(s.buffer(), c, after.buffer())
            &&& after == (SessionView {
                pages: s.pages.with_current(
                    crate::pages::tabs::PageView { buffer: after.buffer(), ..s.pages.current() },
                ),
                ..s
            })
            &&& action is Nothing
        },
        Some(AppCommand::Run(k)) => run_started(s, target_of(k, s.buffer()), after, action),
        Some(AppCommand::CancelOrQuit) => match s.run.active {
            None => after == s && action is Quit,
            Some(id) => {
                &&& after == (SessionView {
                    run: super::run::RunView { cancel_requested: true, ..s.run },
                    status: info_line("cancelling…"@),
                    ..s
                })
                &&& action == (match s.run.query {
                    Some(query_id) => if s.state is Ready {
                        ActionView::Cancel(CancelRequest { id, query_id })
                    } else {
                        ActionView::Nothing
                    },
                    None => ActionView::Nothing,
                })
            },
        },
        _ => after == s && action is Nothing,
    }
}

/// A session after its run went on.
pub open spec fn went_on(
    before: SessionView,
    v: super::run::Verdict,
    displayed: bool,
    after: SessionView,
    action: ActionView,
) -> bool {
    let run = before.run.finished(v);
    match before.run.outcome(v) {
        super::run::OutcomeView::Next { id, sql } => {
            &&& after == (SessionView { run, status: running_line(run), ..before })
            &&& action == (ActionView::Query { id, sql, title: title_view(sql) })
        },
        super::run::OutcomeView::Done(s) => {
            let line = summary_line(s);
            &&& after == (SessionView {
                run,
                run_page: None,
                status: Some(
                    super::status::StatusView {
                        kind: line.kind,
                        text: if displayed {
                            line.text
                        } else {
                            line.text + " · result not shown (grid moved on)"@
                        },
                    },
                ),
                ..before
            })
            &&& action is Nothing
        },
    }
}

/// A session after something was reported of a statement. What is not of the statement that is
/// running changes nothing.
pub open spec fn responded(
    before: SessionView,
    r: QueryResponse,
    displayed: bool,
    after: SessionView,
    action: ActionView,
) -> bool {
    match r {
        QueryResponse::Started { id, query_id } => if before.run.owns(id) {
            &&& after == (SessionView {
                run: super::run::RunView { query: Some(query_id), ..before.run },
                ..before
            })
            &&& action == (if before.run.cancel_requested && before.state is Ready {
                ActionView::Cancel(CancelRequest { id, query_id })
            } else {
                ActionView::Nothing
            })
        } else {
            after == before && action is Nothing
        },
        QueryResponse::Finished { id, result } => if before.run.owns(id) {
            match result {
                Ok(_) => went_on(
                    before,
                    super::run::verdict_of(result),
                    displayed,
                    after,
                    action,
                ),
                Err(e) => match before.error_place(e) {
                    None => went_on(
                        before,
                        super::run::verdict_of(result),
                        displayed,
                        after,
                        action,
                    ),
                    Some(offset) => exists|mid: SessionView| #[trigger]
                        before.jumped(offset, mid) && went_on(
                            mid,
                            super::run::verdict_of(result),
                            displayed,
                            after,
                            action,
                        ),
                },
            }
        } else {
            after == before && action is Nothing
        },
        QueryResponse::CancelFailed { id, message } => {
            &&& after == (if before.run.owns(id) {
                SessionView { status: error_line(message@), ..before }
            } else {
                before
            })
            &&& action is Nothing
        },
    }
}

/// What is reported of a statement that is not running changes nothing in the session.
pub proof fn law_stale_reports_change_nothing(
    before: SessionView,
    r: QueryResponse,
    displayed: bool,
    after: SessionView,
    action: ActionView,
)
    requires
        responded(before, r, displayed, after, action),
        match r {
            QueryResponse::Started { id, .. } => !before.run.owns(id),
            QueryResponse::Finished { id, .. } => !before.run.owns(id),
            QueryResponse::CancelFailed { id, .. } => !before.run.owns(id),
        },
    ensures
        after == before,
        action is Nothing,
{
}

/// After a cancel was asked for, no report makes the session send another statement.
pub proof fn law_cancelled_run_sends_nothing(
    before: SessionView,
    r: QueryResponse,
    displayed: bool,
    after: SessionView,
    action: ActionView,
)
    requires
        before.wf(),
        before.run.cancel_requested,
        responded(before, r, displayed, after, action),
    ensures
        !(action is Query),
{
}

/// No report changes what a page holds, which page is active, or which page has the name it has:
/// at most the active page's cursor moves.
pub proof fn law_reports_keep_the_texts(
    before: SessionView,
    r: QueryResponse,
    displayed: bool,
    after: SessionView,
    action: ActionView,
    i: int,
)
    requires
        before.wf(),
        responded(before, r, displayed, after, action),
        0 <= i < before.pages.pages.len(),
    ensures
        after.pages.active == before.pages.active,
        after.pages.pages.len() == before.pages.pages.len(),
        after.pages.pages[i].buffer.lines == before.pages.pages[i].buffer.lines,
        after.pages.pages[i].name == before.pages.pages[i].name,
        i != before.pages.active ==> after.pages.pages[i] == before.pages.pages[i],
{
}

/// A session never starts a run, nor sends anything to the database, before it is connected.
pub proof fn law_only_connected_sessions_run(
    before: SessionView,
    key: KeyEvent,
    grid_open: bool,
    after: SessionView,
    action: ActionView,
)
    requires
        keyed(before, key, grid_open, after, action),
        !(before.state is Ready),
    ensures
        !(action is Query),
        !(action is Cancel),
        before.run.active is None ==> after.run == before.run,
{
}

/// The title of a statement is the beginning of it: its first line, which ends where a line break
/// stands or the statement ends, or, where that is longer than forty characters, the first forty and
/// an ellipsis.
pub proof fn law_title_is_the_beginning(sql: Seq<char>)
    ensures
        ({
            let t = title_view(sql);
            let n = t.len() as int;
            ||| {
                &&& n <= 40
                &&& n <= sql.len()
                &&& t == sql.take(n)
                &&& !t.contains('\n')
                &&& n == sql.len() || sql[n] == '\n' || (sql[n] == '\r' && n + 1 < sql.len()
                    && sql[n + 1] == '\n')
            }
            ||| {
                &&& n == 41
                &&& sql.len() > 40
                &&& t == sql.take(40).push('…')
                &&& !sql.take(41).contains('\n')
            }
        }),
{
    reveal_strlit("…");
    let line = first_line_of(sql);
    let m = line.len() as int;
    if sql.contains('\n') {
        sql.index_of_first_ensures('\n');
        let k = sql.index_of_first('\n')->0;
        assert(sql[k] == '\n');
        assert(line =~= sql.take(m));
        assert(!sql.take(k).contains('\n')) by {
            if sql.take(k).contains('\n') {
                let j = choose|j: int| 0 <= j < k && sql.take(k)[j] == '\n';
                assert(sql[j] == '\n');
            }
        }
        assert(!line.contains('\n')) by {
            if line.contains('\n') {
                let j = choose|j: int| 0 <= j < m && line[j] == '\n';
                assert(sql.take(k)[j] == '\n');
            }
        }
        if m < k {
            assert(sql.take(k).last() == sql[k - 1]);
        }
    } else {
        assert(line =~= sql.take(m));
    }
    if m > 40 {
        assert(title_view(sql) =~= sql.take(40).push('…'));
        assert(!sql.take(41).contains('\n')) by {
            if sql.take(41).contains('\n') {
                let j = choose|j: int| 0 <= j < 41 && sql.take(41)[j] == '\n';
                assert(line[j] == '\n');
            }
        }
    }
}

/// Tab goes round the panes: with the grid open through all three and back, without it between the
/// tree and the editor, and from the tree always to the editor.
pub proof fn law_focus_goes_round(focus: Focus, grid_open: bool)
    ensures
        next_focus(focus, grid_open) != focus,
        next_focus(next_focus(next_focus(focus, true), true), true) == focus,
        next_focus(next_focus(focus, true), true) != focus,
        next_focus(focus, false) != Focus::Grid,
        next_focus(Focus::Tree, grid_open) == Focus::Editor,
{
}

/// The server counts characters from 1. In a text that still holds the statement where it stood, the
/// place of an error is the byte offset of the character that the server means; in any other text,
/// and for a character that the statement does not have, there is none.
pub proof fn law_error_place_is_the_servers_character(
    before: Seq<char>,
    behind: Seq<char>,
    unit: crate::editor::RunUnitView,
    pos: u32,
)
    requires
        unit.span.start == text::byte_len(before),
        unit.span.end == text::byte_len(before + unit.sql),
    ensures
        1 <= pos <= unit.sql.len() ==> error_offset_of(before + unit.sql + behind, unit, pos)
            == Some(text::byte_len(before + unit.sql.take(pos - 1)) as int),
        pos == 0 || pos > unit.sql.len() ==> error_offset_of(
            before + unit.sql + behind,
            unit,
            pos,
        ) is None,
{
    let t = before + unit.sql + behind;
    let i = before.len() as int;
    let j = i + unit.sql.len();
    assert(t.take(i) =~= before);
    assert(t.take(j) =~= before + unit.sql);
    assert(t.subrange(i, j) =~= unit.sql);
    text::lemma_byte_slice(t, i, j);
    text::lemma_byte_offset_monotone(t, i, j);
    assert(unit.span.start == text::byte_offset(t, i));
    assert(unit.span.end == text::byte_offset(t, j));
    if 1 <= pos <= unit.sql.len() {
        text::lemma_byte_len_concat(before, unit.sql.take(pos - 1));
    }
}

/// Where an error has a place, the text holds the statement around it.
pub proof fn law_error_place_is_in_the_statement(
    text: Seq<char>,
    unit: crate::editor::RunUnitView,
    pos: u32,
) -> (k: int)
    requires
        error_offset_of(text, unit, pos) is Some,
    ensures
        1 <= pos <= unit.sql.len(),
        0 <= k,
        k + unit.sql.len() <= text.len(),
        text.subrange(k, k + unit.sql.len()) == unit.sql,
        text::byte_len(text.take(k)) == unit.span.start,
        error_offset_of(text, unit, pos) == Some(text::byte_len(text.take(k + pos - 1)) as int),
{
    let i = choose|k: int|
        0 <= k <= text.len() && unit.span.start == #[trigger] text::byte_offset(text, k);
    let j = choose|k: int|
        0 <= k <= text.len() && unit.span.end == #[trigger] text::byte_offset(text, k);
    if j < i {
        text::lemma_byte_offset_monotone(text, j, i);
    }
    text::lemma_byte_slice(text, i, j);
    assert(unit.sql == text.subrange(i, j));
    text::lemma_byte_offset_split(text, i, i + pos - 1);
    assert(text.subrange(i, i + pos - 1) =~= unit.sql.take(pos - 1));
    i
}

/// Whether a text names two numbers between three given parts.
pub open spec fn tells_numbers(
    text: Seq<char>,
    parts: (Seq<char>, Seq<char>, Seq<char>),
    numbers: (int, int),
    digits: (Seq<char>, Seq<char>),
) -> bool {
    &&& text == parts.0 + digits.0 + parts.1 + digits.1 + parts.2
    &&& text::is_number(digits.0) && text::number_of(digits.0) == numbers.0
    &&& text::is_number(digits.1) && text::number_of(digits.1) == numbers.1
}

/// While the statements of a plan run, the status line tells the number of the one that runs and how
/// many there are; a single one is not numbered.
pub proof fn law_running_statement_is_numbered(run: super::run::RunView) -> (digits: (
    Seq<char>,
    Seq<char>,
))
    requires
        run.wf(),
        run.active is Some,
    ensures
        running_line(run) matches Some(line) && line.kind == StatusKind::Info && (run.plan.len()
            == 1 ==> line.text == "running…"@) && (run.plan.len() > 1 ==> tells_numbers(
            line.text,
            ("running statement "@, " of "@, "…"@),
            (run.index + 1, run.plan.len() as int),
            digits,
        )),
{
    let a = text::decimal((run.index + 1) as nat);
    let b = text::decimal(run.plan.len());
    text::law_decimal_reads_back((run.index + 1) as nat);
    text::law_decimal_reads_back(run.plan.len());
    (a, b)
}

/// After a run the status line tells how it ended: a failure as an error, with the number of the
/// statement and its cause; an interruption; a cancel that came too late as a warning, with the number
/// of the statement that was not sent if there is one; else how many statements ran, and the number of
/// rows if one is known.
pub proof fn law_summary_tells_the_end(s: super::run::SummaryView) -> (digits: (
    Seq<char>,
    Seq<char>,
))
    requires
        0 <= s.ran,
        0 <= s.total,
    ensures
        ({
            let line = summary_line(s);
            let numbers = (s.ran, s.total);
            &&& line.kind == StatusKind::Error <==> s.cancelled is None && s.failed is Some
            &&& line.kind == StatusKind::Warn <==> s.cancelled == Some(
                CancelOutcome::CompletedFirst,
            )
            &&& s.cancelled == Some(CancelOutcome::Interrupted) ==> tells_numbers(
                line.text,
                ("cancelled — "@ + "statement "@, " of "@, " interrupted"@),
                numbers,
                digits,
            )
            &&& s.cancelled == Some(CancelOutcome::CompletedFirst) && s.ran >= s.total
                ==> tells_numbers(
                line.text,
                ("cancel came too late — "@ + "statement "@, " of "@, " completed"@),
                numbers,
                digits,
            )
            &&& s.cancelled == Some(CancelOutcome::CompletedFirst) && s.ran < s.total
                ==> exists|next: Seq<char>|
                text::is_number(next) && text::number_of(next) == s.ran + 1 && #[trigger]
                    tells_numbers(
                        line.text,
                        (
                            "cancel came too late — "@ + "statement "@,
                            " of "@,
                            " completed; stopped before statement "@ + next,
                        ),
                        numbers,
                        digits,
                    )
            &&& s.cancelled is None ==> (s.failed matches Some(err) ==> tells_numbers(
                line.text,
                ("statement "@, " of "@, " failed: "@ + err),
                numbers,
                digits,
            ))
            &&& s.cancelled is None && s.failed is None && s.last_affected is None
                ==> tells_numbers(
                line.text,
                ("ran "@, " of "@, Seq::empty()),
                numbers,
                digits,
            )
            &&& s.cancelled is None && s.failed is None ==> (s.last_affected matches Some(rows)
                ==> exists|n: Seq<char>|
                text::is_number(n) && text::number_of(n) == rows && #[trigger] tells_numbers(
                    line.text,
                    ("ran "@, " of "@, " · "@ + n + " rows affected"@),
                    numbers,
                    digits,
                ))
        }),
{
    let a = text::decimal(s.ran as nat);
    let b = text::decimal(s.total as nat);
    let digits = (a, b);
    let numbers = (s.ran, s.total);
    text::law_decimal_reads_back(s.ran as nat);
    text::law_decimal_reads_back(s.total as nat);
    let line = summary_line(s);
    let of = " of "@;
    match s.cancelled {
        Some(CancelOutcome::Interrupted) => {
            assert(line.text =~= "cancelled — "@ + "statement "@ + a + of + b + " interrupted"@);
        },
        Some(CancelOutcome::CompletedFirst) => {
            let head = "cancel came too late — "@ + "statement "@;
            if s.ran < s.total {
                let next = text::decimal((s.ran + 1) as nat);
                text::law_decimal_reads_back((s.ran + 1) as nat);
                let tail = " completed; stopped before statement "@ + next;
                assert(line.text =~= head + a + of + b + tail);
                assert(tells_numbers(line.text, (head, of, tail), numbers, digits));
            } else {
                assert(line.text =~= head + a + of + b + " completed"@);
            }
        },
        None => match s.failed {
            Some(err) => {
                assert(line.text =~= "statement "@ + a + of + b + (" failed: "@ + err));
            },
            None => {
                if s.last_affected is Some {
                    let n = text::decimal(s.last_affected->0 as nat);
                    text::law_decimal_reads_back(s.last_affected->0 as nat);
                    let tail = " · "@ + n + " rows affected"@;
                    assert(line.text =~= "ran "@ + a + of + b + tail);
                    assert(tells_numbers(line.text, ("ran "@, of, tail), numbers, digits));
                }
            },
        },
    }
    digits
}

/// A run key runs the whole page, or what is selected where something is, or the statement at the
/// cursor.
pub proof fn law_a_selection_is_what_runs(key: RunKey, b: crate::editor::buffer::BufferView)
    ensures
        target_of(key, b) == RunTarget::Buffer <==> key == RunKey::Buffer,
        target_of(key, b) == RunTarget::Selection <==> key == RunKey::CursorOrSelection
            && b.selection() is Some,
        target_of(key, b) == RunTarget::Cursor <==> key == RunKey::CursorOrSelection
            && b.selection() is None,
{
}

/// A key changes what it is for and nothing else: only an editing key changes a page, and only the
/// active one's buffer; only Tab and Esc move the focus; only running and cancelling touch the run;
/// no key connects or renames anything. The status line is cleared by a key that does not write it,
/// but for the time that a statement runs.
pub proof fn law_keys_change_what_they_are_for(
    before: SessionView,
    key: KeyEvent,
    grid_open: bool,
    after: SessionView,
    action: ActionView,
)
    requires
        before.wf(),
        keyed(before, key, grid_open, after, action),
    ensures
        ({
            let cmd = super::keymap::binding(key, before.focus);
            let edits = cmd matches Some(c) && c is Editor;
            let runs = cmd matches Some(c) && c is Run;
            let cancels = cmd == Some(AppCommand::CancelOrQuit);
            &&& after.id == before.id && after.name == before.name && after.group == before.group
                && after.state == before.state
            &&& after.pages.active == before.pages.active
            &&& !edits && !runs ==> after.pages == before.pages
            &&& forall|i: int|
                0 <= i < before.pages.pages.len() ==> (#[trigger] after.pages.pages[i]).name
                    == before.pages.pages[i].name && after.pages.pages[i].saved
                    == before.pages.pages[i].saved && (i != before.pages.active
                    ==> after.pages.pages[i] == before.pages.pages[i])
            &&& runs ==> after.buffer().lines == before.buffer().lines
            &&& cmd != Some(AppCommand::ToggleFocus) && cmd != Some(AppCommand::FocusTree)
                ==> after.focus == before.focus
            &&& !runs && !cancels ==> after.run == before.run && after.run_page == before.run_page
            &&& !runs && !cancels && before.run.active is None ==> after.status is None
            &&& !runs && !cancels && before.run.active is Some ==> after.status == before.status
            &&& action is Query ==> runs
            &&& action is Cancel ==> cancels
            &&& action is Quit ==> cmd == Some(AppCommand::Quit) || (cancels && before.run.active
                is None)
        }),
{
}

/// Cancelling asks for the statement that runs to be cancelled, by its number, as soon as the server's
/// number for it is known: at once, or when it is reported. It quits only where nothing runs.
pub proof fn law_cancel_reaches_the_running_statement(
    before: SessionView,
    key: KeyEvent,
    grid_open: bool,
    mid: SessionView,
    first: ActionView,
    query_id: crate::datasource::QueryId,
    displayed: bool,
    after: SessionView,
    second: ActionView,
)
    requires
        before.wf(),
        before.state is Ready,
        super::keymap::binding(key, before.focus) == Some(AppCommand::CancelOrQuit),
        keyed(before, key, grid_open, mid, first),
    ensures
        before.run.active is None ==> first is Quit,
        before.run.active is Some ==> !(first is Quit) && mid.run.cancel_requested && mid.run.active
            == before.run.active,
        before.run.active matches Some(id) ==> (before.run.query matches Some(q) ==> first
            == ActionView::Cancel(CancelRequest { id, query_id: q })),
        before.run.active matches Some(id) ==> (before.run.query is None ==> first is Nothing && (
        responded(mid, QueryResponse::Started { id, query_id }, displayed, after, second) ==> second
            == ActionView::Cancel(CancelRequest { id, query_id }))),
{
}

/// A run that is started sends the first statement of its plan, under the number of the statement that
/// then runs, and belongs to the page that was active; the title is that of the statement. What could
/// not be split is shown: its message as an error, the cursor at its beginning.
pub proof fn law_a_run_sends_its_first_statement(
    before: SessionView,
    plan: Result<Vec<RunUnit>, SplitError>,
    after: SessionView,
    action: ActionView,
)
    requires
        before.wf(),
        before.run.has_room(),
        begun(before, plan, after, action),
    ensures
        action matches ActionView::Query { id, sql, title } ==> {
            &&& plan matches Ok(units) && units@.len() > 0 && sql == units@[0].sql@
                && after.run.plan.len() == units@.len() && after.run.plan[0] == units@[0]@
            &&& after.run.owns(id)
            &&& after.run.index == 0
            &&& after.run_page == Some(before.pages.active as usize)
            &&& title == title_view(sql)
        },
        action is Query <==> (plan matches Ok(units) && units@.len() > 0),
        action is Query || action is Nothing,
        !(action is Query) ==> after.run == before.run,
        plan matches Err(e) ==> after.status == error_line(e.message@)
            && crate::editor::buffer::is_position_at(
            before.buffer(),
            e.span.start as int,
            after.buffer().cursor,
        ) && after.buffer().selection() is None && after.buffer().lines == before.buffer().lines,
{
}

/// One run at a time: while a statement runs, asking for another run starts none, changes neither the
/// run nor the pages, and is answered on the status line; a session that is not connected does not
/// answer at all.
pub proof fn law_one_run_at_a_time(
    before: SessionView,
    target: RunTarget,
    after: SessionView,
    action: ActionView,
)
    requires
        run_started(before, target, after, action),
        before.run.active is Some || !(before.state is Ready),
    ensures
        action is Nothing,
        after.run == before.run,
        after.pages == before.pages,
        after.run_page == before.run_page,
        before.state is Ready ==> after.status == info_line("a query is already running"@),
        !(before.state is Ready) ==> after == before,
{
}

/// A cancel that failed is told as an error, with its message, while the statement that it was meant
/// for still runs, and changes nothing else: the run goes on.
pub proof fn law_a_failed_cancel_is_told(
    before: SessionView,
    id: RequestId,
    message: String,
    displayed: bool,
    after: SessionView,
    action: ActionView,
)
    requires
        responded(
            before,
            QueryResponse::CancelFailed { id, message },
            displayed,
            after,
            action,
        ),
    ensures
        action is Nothing,
        after.run == before.run,
        after.pages == before.pages,
        before.run.owns(id) ==> (after.status matches Some(line) && line.kind == StatusKind::Error
            && line.text == message@),
        !before.run.owns(id) ==> after == before,
{
}

/// A report of the statement that runs takes the run on: after a success the next statement is sent,
/// and runs; after the last one, a failure or a cancel the run is over, and the status line tells its
/// end, with a note where its result is not shown.
pub proof fn law_reports_take_the_run_on(
    before: SessionView,
    v: super::run::Verdict,
    displayed: bool,
    after: SessionView,
    action: ActionView,
)
    requires
        before.wf(),
        before.run.active is Some,
        went_on(before, v, displayed, after, action),
    ensures
        action is Query || action is Nothing,
        action matches ActionView::Query { id, sql, title } ==> {
            &&& v is Rows || v is Affected
            &&& sql == before.run.plan[before.run.index + 1].sql
            &&& title == title_view(sql)
            &&& after.run.owns(id)
            &&& after.run.index == before.run.index + 1
            &&& after.run_page == before.run_page
            &&& after.status == running_line(after.run)
        },
        action is Nothing ==> after.run.active is None && after.run_page is None && after.status
            is Some,
        action is Nothing && displayed ==> (before.run.outcome(
            v,
        ) matches super::run::OutcomeView::Done(s) && after.status == Some(summary_line(s))),
        action is Nothing && !displayed ==> (before.run.outcome(
            v,
        ) matches super::run::OutcomeView::Done(s) && after.status->0.kind == summary_line(s).kind
            && after.status->0.text == summary_line(s).text
            + " · result not shown (grid moved on)"@),
        after.pages == before.pages,
        after.focus == before.focus,
{
}

/// An error is shown in a page only if it is the page that the run was started from, it still holds
/// the statement that failed, and the server said where in it; then the cursor goes to the character
/// that the server means.
pub proof fn law_errors_are_shown_where_they_are(before: SessionView, e: DataSourceError) -> (k: int)
    requires
        before.wf(),
        before.error_place(e) is Some,
    ensures
        before.run_page == Some(before.pages.active as usize),
        before.run.index < before.run.plan.len(),
        e matches DataSourceError::Query { sql, source } && source.position is Some && (
        source.position->0 matches crate::datasource::ErrorPosition::Original(pos) && {
            let statement = before.run.plan[before.run.index].sql;
            let text = before.buffer().text();
            &&& 1 <= pos <= statement.len()
            &&& 0 <= k
            &&& k + statement.len() <= text.len()
            &&& text.subrange(k, k + statement.len()) == statement
            &&& before.error_place(e) == Some(text::byte_len(text.take(k + pos - 1)) as int)
        }),
{
    let pos = position_in(e)->0;
    law_error_place_is_in_the_statement(
        before.buffer().text(),
        before.run.plan[before.run.index],
        pos,
    )
}

/// Going to a place puts the cursor there, selects nothing, and changes nothing else.
pub proof fn law_going_to_a_place_moves_only_the_cursor(
    before: SessionView,
    k: int,
    after: SessionView,
)
    requires
        before.wf(),
        0 <= k <= before.buffer().text().len(),
        before.jumped(text::byte_offset(before.buffer().text(), k) as int, after),
    ensures
        after.buffer().lines == before.buffer().lines,
        after.buffer().cursor_index() == k,
        after.buffer().selection() is None,
        after.run == before.run,
        after.status == before.status,
        forall|i: int|
            0 <= i < before.pages.pages.len() && i != before.pages.active ==> (
            #[trigger] after.pages.pages[i]) == before.pages.pages[i],
{
    let b = before.buffer();
    let pos = after.buffer().cursor;
    let i = b.index_of(pos);
    crate::editor::buffer::lemma_index_in_text(b, pos);
    assert(after.buffer() == b.moved(pos, Motion::Move));
    if i < k {
        text::lemma_byte_offset_monotone(b.text(), i + 1, k);
    } else if k < i {
        text::lemma_byte_offset_monotone(b.text(), k, i);
    }
    assert(after.buffer().index_of(pos) == i);
}

/// The first line of a text, without its line break.
fn first_line(s: &str) -> (line: &str)
    ensures
        line@ == first_line_of(s@),
{
    let chars: Vec<char> = text::chars_of(s);
    let n: usize = chars.len();
    let mut i: usize = 0;
    while i < n && chars[i] != '\n'
        invariant
            n == chars@.len(),
            chars@ == s@,
            i <= n,
            forall|j: int| 0 <= j < i ==> #[trigger] s@[j] != '\n',
        decreases n - i,
    {
        i = i + 1;
    }
    if i == n {
        proof {
            assert(!s@.contains('\n'));
        }
        return s;
    }
    let end: usize = if i > 0 && chars[i - 1] == '\r' {
        i - 1
    } else {
        i
    };
    proof {
        assert(s@[i as int] == '\n');
        assert(s@.contains('\n'));
        s@.index_of_first_ensures('\n');
        let k = s@.index_of_first('\n')->0;
        assert(k == i);
        assert(s@.subrange(0, end as int) =~= first_line_of(s@));
    }
    s.substring_char(0, end)
}

/// The title of a statement: its first line, cut if it is long.
pub fn title_of(sql: &str) -> (title: String)
    ensures
        title@ == title_view(sql@),
{
    let line: &str = first_line(sql);
    let n: usize = line.unicode_len();
    if n > TITLE_MAX {
        let head: &str = line.substring_char(0, TITLE_MAX);
        proof {
            assert(head@ =~= line@.take(TITLE_MAX as int));
        }
        let mut title: String = head.to_owned();
        title.append("…");
        title
    } else {
        line.to_owned()
    }
}

/// The byte offset in `text` of an error that the server placed at the character `pos`, counted
/// from 1, of the statement of `unit`.
pub fn error_offset(text: &str, unit: &RunUnit, pos: u32) -> (offset: Option<usize>)
    ensures
        match offset {
            Some(o) => error_offset_of(text@, unit@, pos) == Some(o as int),
            None => error_offset_of(text@, unit@, pos) is None,
        },
{
    if pos == 0 {
        return None;
    }
    let idx: usize = (pos - 1) as usize;
    let part: &str = match unit.span.try_slice(text) {
        Some(part) => part,
        None => return None,
    };
    if !text::same_text(part, unit.sql.as_str()) {
        return None;
    }
    let n: usize = part.unicode_len();
    if idx >= n {
        return None;
    }
    let head: &str = part.substring_char(0, idx);
    proof {
        let i = choose|k: int|
            0 <= k <= text@.len() && unit.span.start == #[trigger] text::byte_offset(text@, k);
        let j = choose|k: int|
            0 <= k <= text@.len() && unit.span.end == #[trigger] text::byte_offset(text@, k);
        if j < i {
            text::lemma_byte_offset_monotone(text@, j, i);
        }
        text::lemma_byte_slice(text@, i, j);
        text::lemma_byte_offset_split(text@, i, j);
        assert(head@ =~= unit.sql@.take(idx as int));
        text::lemma_byte_offset_monotone(unit.sql@, idx as int, unit.sql@.len() as int);
        assert(unit.sql@.take(unit.sql@.len() as int) =~= unit.sql@);
        text::lemma_byte_offset_monotone(text@, j, text@.len() as int);
    }
    Some(unit.span.start + text::byte_count(head))
}

/// What the status line says while a statement runs.
pub fn running_status(run: &RunState) -> (s: Status)
    requires
        run@.wf(),
    ensures
        Some(s@) == running_line(run@),
{
    let (n, total) = run.progress();
    if total <= 1 {
        Status::info("running…".to_owned())
    } else {
        let mut text: String = "running statement ".to_owned();
        text.append(text::decimal_string(n as u64).as_str());
        text.append(" of ");
        text.append(text::decimal_string(total as u64).as_str());
        text.append("…");
        Status::info(text)
    }
}

fn append_count(head: &str, ran: usize, total: usize) -> (text: String)
    ensures
        text@ == head@ + counted(ran as int, total as int),
{
    let mut text: String = head.to_owned();
    text.append("statement ");
    text.append(text::decimal_string(ran as u64).as_str());
    text.append(" of ");
    text.append(text::decimal_string(total as u64).as_str());
    proof {
        assert(text@ =~= head@ + counted(ran as int, total as int));
    }
    text
}

/// What the status line says after a run.
pub fn summary_status(summary: &RunSummary) -> (s: Status)
    ensures
        s@ == summary_line(summary@),
{
    let ran: usize = summary.ran;
    let total: usize = summary.total;
    match summary.cancelled {
        Some(CancelOutcome::Interrupted) => {
            let mut text: String = append_count("cancelled — ", ran, total);
            text.append(" interrupted");
            Status::info(text)
        },
        Some(CancelOutcome::CompletedFirst) => {
            let mut text: String = append_count("cancel came too late — ", ran, total);
            if ran < total {
                text.append(" completed; stopped before statement ");
                text.append(text::decimal_string(ran as u64 + 1).as_str());
            } else {
                text.append(" completed");
            }
            Status::warn(text)
        },
        None => match &summary.failed {
            Some(err) => {
                let mut text: String = append_count("", ran, total);
                proof {
                    reveal_strlit("");
                    assert(text@ =~= counted(ran as int, total as int));
                }
                text.append(" failed: ");
                text.append(err.as_str());
                Status::error(text)
            },
            None => {
                let mut text: String = "ran ".to_owned();
                text.append(text::decimal_string(ran as u64).as_str());
                text.append(" of ");
                text.append(text::decimal_string(total as u64).as_str());
                let ghost plain = text@;
                match summary.last_affected {
                    Some(n) => {
                        text.append(" · ");
                        text.append(text::decimal_string(n).as_str());
                        text.append(" rows affected");
                        proof {
                            assert(text@ =~= plain + (" · "@ + text::decimal(n as nat)
                                + " rows affected"@));
                        }
                    },
                    None => {
                        proof {
                            assert(text@ =~= plain + Seq::<char>::empty());
                        }
                    },
                }
                Status::info(text)
            },
        },
    }
}

/// What a session that opens says it is doing. `lock_busy` says whether another session is opening
/// its tunnel.
pub fn opening_message(name: &str, has_tunnel: bool, lock_busy: bool) -> (message: String)
    ensures
        message@ == (if has_tunnel && lock_busy {
            "waiting for another tab's SSH tunnel to finish opening…"@
        } else {
            "connecting to "@ + name@ + "…"@
        }),
{
    if has_tunnel && lock_busy {
        "waiting for another tab's SSH tunnel to finish opening…".to_owned()
    } else {
        let mut message: String = "connecting to ".to_owned();
        message.append(name);
        message.append("…");
        message
    }
}

/// How a tab's title looks.
#[derive(Debug, Clone, Copy, PartialEq, Eq, Structural)]
pub enum TitleLook {
    Plain,
    Dim,
    Alarming,
}

/// What a tab of an application says.
pub open spec fn tab_title_of(s: SessionView) -> (Seq<char>, TitleLook) {
    match s.state {
        StateView::Ready { forward_confirmed, local_port } => (
            if forward_confirmed == Some(false) {
                " ⚠ "@ + s.name + " "@
            } else {
                " "@ + s.name + " "@
            },
            TitleLook::Plain,
        ),
        StateView::Connecting { message } => (" … "@ + s.name + " "@, TitleLook::Dim),
        StateView::Failed { message } => (" ! "@ + s.name + " "@, TitleLook::Alarming),
    }
}

/// What the tabs of pages say; a page that holds something unsaved is marked.
pub open spec fn page_titles_of(pages: Seq<crate::pages::tabs::PageView>) -> Seq<Seq<char>> {
    Seq::new(
        pages.len(),
        |i: int|
            if pages[i].dirty() {
                " "@ + pages[i].title() + "* "@
            } else {
                " "@ + pages[i].title() + " "@
            },
    )
}

impl Session {
    /// A session that starts to connect, with what comes back of its pages.
    pub fn new(
        id: SessionId,
        connection_name: String,
        group: Option<String>,
        found: Option<Vec<Candidate>>,
    ) -> (s: Session)
        ensures
            s@.wf(),
            s@ == session_view(
                id,
                connection_name@,
                text::opt_view(group),
                match found {
                    Some(c) => crate::pages::tabs::restored(
                        crate::pages::tabs::candidate_views(c@),
                    ),
                    None => crate::pages::tabs::TabsView {
                        has_dir: false,
                        pages: seq![crate::pages::tabs::scratch_page()],
                        active: 0,
                    },
                },
            ),
    {
        Session::new_with_pages(id, connection_name, group, PageTabs::restore(found))
    }

    /// A session that starts to connect, with the given pages.
    pub fn new_with_pages(
        id: SessionId,
        connection_name: String,
        group: Option<String>,
        pages: PageTabs,
    ) -> (s: Session)
        requires
            pages@.wf(),
        ensures
            s@.wf(),
            s@ == session_view(id, connection_name@, text::opt_view(group), pages@),
    {
        Session {
            id,
            connection_name,
            group,
            pages,
            run: RunState::new(),
            run_page: None,
            status: None,
            focus: Focus::Tree,
            state: SessionState::Connecting { message: "connecting…".to_owned() },
        }
    }

    /// The session is connected, and loads its tree.
    pub fn on_connected(
        &mut self,
        forward_confirmed: Option<bool>,
        local_port: Option<u16>,
    ) -> (action: SessionAction)
        ensures
            final(self)@ == (SessionView {
                state: StateView::Ready { forward_confirmed, local_port },
                ..old(self)@
            }),
            action is RefreshTree,
    {
        self.state = SessionState::Ready { forward_confirmed, local_port };
        SessionAction::RefreshTree
    }

    pub fn on_failed(&mut self, message: String)
        ensures
            final(self)@ == (SessionView {
                state: StateView::Failed { message: message@ },
                ..old(self)@
            }),
    {
        self.state = SessionState::Failed { message };
    }

    /// Says what the session is doing, as long as it is not connected.
    pub fn set_connecting_message(&mut self, message: String)
        ensures
            final(self)@ == (if old(self)@.state is Connecting {
                SessionView { state: StateView::Connecting { message: message@ }, ..old(self)@ }
            } else {
                old(self)@
            }),
    {
        let connecting = match &self.state {
            SessionState::Connecting { .. } => true,
            _ => false,
        };
        if connecting {
            self.state = SessionState::Connecting { message };
        }
    }

    pub fn id(&self) -> (id: SessionId)
        ensures
            id == self@.id,
    {
        self.id
    }

    pub fn connection_name(&self) -> (name: &str)
        ensures
            name@ == self@.name,
    {
        self.connection_name.as_str()
    }

    pub fn group(&self) -> (group: Option<&str>)
        ensures
            match group {
                Some(g) => self@.group == Some(g@),
                None => self@.group is None,
            },
    {
        match &self.group {
            Some(g) => Some(g.as_str()),
            None => None,
        }
    }

    pub fn state(&self) -> (s: &SessionState)
        ensures
            s@ == self@.state,
    {
        &self.state
    }

    pub fn focus(&self) -> (f: Focus)
        ensures
            f == self@.focus,
    {
        self.focus
    }

    pub fn status(&self) -> (s: Option<&Status>)
        ensures
            match s {
                Some(status) => self@.status == Some(status@),
                None => self@.status is None,
            },
    {
        match &self.status {
            Some(s) => Some(s),
            None => None,
        }
    }

    /// The keys of the focused pane.
    pub fn footer_text(&self) -> (s: &'static str)
        ensures
            s@ == (match self@.focus {
                Focus::Tree => TREE_FOOTER@,
                Focus::Grid => GRID_FOOTER@,
                Focus::Editor => EDITOR_FOOTER@,
            }),
    {
        match self.focus {
            Focus::Tree => TREE_FOOTER,
            Focus::Grid => GRID_FOOTER,
            Focus::Editor => EDITOR_FOOTER,
        }
    }

    pub fn pages(&self) -> (p: &PageTabs)
        ensures
            p@ == self@.pages,
    {
        &self.pages
    }

    pub fn pages_mut(&mut self) -> (p: &mut PageTabs)
        ensures
            p@ == old(self)@.pages,
            final(self)@ == (SessionView { pages: final(p)@, ..old(self)@ }),
    {
        &mut self.pages
    }

    /// The run that is under way, or the last one.
    pub fn run(&self) -> (r: &RunState)
        ensures
            r@ == self@.run,
    {
        &self.run
    }

    /// The page that the run was started from.
    pub fn run_page(&self) -> (p: Option<usize>)
        ensures
            p == self@.run_page,
    {
        self.run_page
    }

    /// Whether the id is that of the statement that is running.
    pub fn owns(&self, id: RequestId) -> (b: bool)
        ensures
            b == self@.run.owns(id),
    {
        self.run.owns(id)
    }

    /// Whether a page holds something unsaved.
    pub fn is_dirty(&self) -> (b: bool)
        requires
            self@.wf(),
        ensures
            b == exists|i: int|
                0 <= i < self@.pages.pages.len() && (#[trigger] self@.pages.pages[i]).dirty(),
    {
        self.pages.any_dirty()
    }

    /// The titles of the pages that hold something unsaved.
    pub fn dirty_titles(&self) -> (titles: Vec<String>)
        requires
            self@.wf(),
        ensures
            text::views(titles@) == crate::pages::tabs::dirty_titles_of(
                self@.pages.pages,
                self@.pages.pages.len() as int,
            ),
    {
        self.pages.dirty_titles()
    }

    /// What the tabs of the pages say.
    pub fn page_titles(&self) -> (titles: Vec<String>)
        requires
            self@.wf(),
        ensures
            text::views(titles@) == page_titles_of(self@.pages.pages),
    {
        let pages = self.pages.tabs();
        let mut titles: Vec<String> = Vec::new();
        let n: usize = pages.len();
        let mut i: usize = 0;
        while i < n
            invariant
                self@.wf(),
                n == pages@.len(),
                i <= n,
                crate::pages::tabs::page_views(pages@) == self@.pages.pages,
                text::views(titles@) == page_titles_of(self@.pages.pages).take(i as int),
            decreases n - i,
        {
            proof {
                assert(self@.pages.pages[i as int] == pages@[i as int]@);
            }
            let mut title: String = " ".to_owned();
            title.append(pages[i].title());
            if pages[i].is_dirty() {
                title.append("* ");
            } else {
                title.append(" ");
            }
            let ghost before = titles@;
            titles.push(title);
            proof {
                assert(text::views(titles@) =~= text::views(before).push(title@));
                assert(page_titles_of(self@.pages.pages).take(i + 1) =~= page_titles_of(
                    self@.pages.pages,
                ).take(i as int).push(title@));
            }
            i = i + 1;
        }
        proof {
            assert(page_titles_of(self@.pages.pages).take(n as int) =~= page_titles_of(
                self@.pages.pages,
            ));
        }
        titles
    }

    /// Closes the active page, unless it holds something unsaved and `force` is not set.
    pub fn close_page(&mut self, force: bool) -> (r: Result<bool, PagesError>)
        requires
            old(self)@.wf(),
        ensures
            final(self)@.wf(),
            r == Ok::<bool, PagesError>(force || !old(self)@.pages.current().dirty()),
            final(self)@ == (if force || !old(self)@.pages.current().dirty() {
                SessionView {
                    pages: old(self)@.pages.without(old(self)@.pages.active),
                    run_page: None,
                    ..old(self)@
                }
            } else {
                old(self)@
            }),
            !force && final(self)@ != old(self)@ ==> match old(self)@.pages.current().saved {
                Some(saved) => old(self)@.buffer().text() == saved,
                None => old(self)@.buffer().text().len() == 0,
            },
    {
        match self.pages.close_active(force) {
            Ok(closed) => {
                if closed {
                    self.run_page = None;
                }
                Ok(closed)
            },
            Err(e) => Err(e),
        }
    }

    /// Takes up what became of deleting a page's file: its tab closes.
    pub fn delete_page(&mut self, name: &PageName, removed: Result<(), PagesError>) -> (r: Result<
        (),
        PagesError,
    >)
        requires
            old(self)@.wf(),
        ensures
            final(self)@.wf(),
            match removed {
                Ok(_) => {
                    &&& r is Ok
                    &&& final(self)@ == (SessionView {
                        pages: final(self)@.pages,
                        run_page: None,
                        ..old(self)@
                    })
                    &&& if old(self)@.pages.has(name@) {
                        exists|i: int| #[trigger]
                            old(self)@.pages.first_named(name@, i) && final(self)@.pages
                                == old(self)@.pages.without(i)
                    } else {
                        final(self)@.pages == old(self)@.pages
                    }
                },
                Err(e) => r == Err::<(), PagesError>(e) && final(self)@ == old(self)@,
            },
    {
        match self.pages.deleted(name, removed) {
            Ok(()) => {
                self.run_page = None;
                Ok(())
            },
            Err(e) => Err(e),
        }
    }

    pub fn set_error_status(&mut self, message: String)
        ensures
            final(self)@ == (SessionView { status: error_line(message@), ..old(self)@ }),
    {
        self.status = Some(Status::error(message));
    }

    pub fn set_info_status(&mut self, message: String)
        ensures
            final(self)@ == (SessionView { status: info_line(message@), ..old(self)@ }),
    {
        self.status = Some(Status::info(message));
    }

    /// Whether the session is connected.
    pub fn is_ready(&self) -> (b: bool)
        ensures
            b == self@.state is Ready,
    {
        match &self.state {
            SessionState::Ready { .. } => true,
            _ => false,
        }
    }

    /// The selected row of the tree was a table, and the grid has opened it.
    pub fn on_table_opened(&mut self)
        ensures
            final(self)@ == (SessionView { focus: Focus::Grid, ..old(self)@ }),
    {
        self.focus = Focus::Grid;
    }

    /// Takes up a key. `grid_open` says whether the grid shows anything.
    pub fn on_key(&mut self, key: KeyEvent, grid_open: bool) -> (action: SessionAction)
        requires
            old(self)@.wf(),
            old(self)@.run.has_room(),
        ensures
            final(self)@.wf(),
            keyed(old(self)@, key, grid_open, final(self)@, action@),
    {
        let cmd: Option<AppCommand> = map_key(key, self.focus);
        let writes = match cmd {
            Some(AppCommand::Run(_)) => true,
            Some(AppCommand::CancelOrQuit) => true,
            _ => false,
        };
        if !writes && !self.run.is_active() {
            self.status = None;
        }
        let ghost s = self@;
        match cmd {
            Some(AppCommand::Quit) => SessionAction::Quit,
            Some(AppCommand::ToggleFocus) => {
                self.focus = match self.focus {
                    Focus::Tree => Focus::Editor,
                    Focus::Editor => if grid_open {
                        Focus::Grid
                    } else {
                        Focus::Tree
                    },
                    Focus::Grid => Focus::Tree,
                };
                SessionAction::Nothing
            },
            Some(AppCommand::FocusTree) => {
                self.focus = Focus::Tree;
                SessionAction::Nothing
            },
            Some(AppCommand::Activate) => SessionAction::Activate,
            Some(AppCommand::Tree(c)) => SessionAction::Tree(c),
            Some(AppCommand::Grid(c)) => SessionAction::Grid(c),
            Some(AppCommand::Editor(c)) => {
                self.pages.command(c);
                SessionAction::Nothing
            },
            Some(AppCommand::Run(k)) => {
                let target: RunTarget = match k {
                    RunKey::CursorOrSelection => if self.pages.editor().buffer().selection().is_some() {
                        RunTarget::Selection
                    } else {
                        RunTarget::Cursor
                    },
                    RunKey::Buffer => RunTarget::Buffer,
                };
                self.start_run(target)
            },
            Some(AppCommand::CancelOrQuit) => {
                if !self.run.is_active() {
                    return SessionAction::Quit;
                }
                let cancel: Option<CancelRequest> = self.run.request_cancel();
                self.status = Some(Status::info("cancelling…".to_owned()));
                self.send_cancel(cancel)
            },
            _ => SessionAction::Nothing,
        }
    }

    fn send_cancel(&self, cancel: Option<CancelRequest>) -> (action: SessionAction)
        ensures
            action@ == (match cancel {
                Some(c) => if self@.state is Ready {
                    ActionView::Cancel(c)
                } else {
                    ActionView::Nothing
                },
                None => ActionView::Nothing,
            }),
    {
        match cancel {
            Some(c) => if self.is_ready() {
                SessionAction::Cancel(c)
            } else {
                SessionAction::Nothing
            },
            None => SessionAction::Nothing,
        }
    }

    /// Starts a run of what `target` names in the active page.
    pub fn start_run(&mut self, target: RunTarget) -> (action: SessionAction)
        requires
            old(self)@.wf(),
            old(self)@.run.has_room(),
        ensures
            final(self)@.wf(),
            run_started(old(self)@, target, final(self)@, action@),
    {
        if !self.is_ready() {
            return SessionAction::Nothing;
        }
        if self.run.is_active() {
            self.status = Some(Status::info("a query is already running".to_owned()));
            return SessionAction::Nothing;
        }
        let plan: Result<Vec<RunUnit>, SplitError> = crate::editor::plan_run(
            self.pages.editor().buffer(),
            target,
        );
        proof {
            assert(is_planned(self@.buffer(), target, plan));
        }
        self.begin_run(plan)
    }

    /// Starts the run of a plan. What could not be split is shown at its place, and an empty plan is
    /// not run.
    pub fn begin_run(&mut self, plan: Result<Vec<RunUnit>, SplitError>) -> (action: SessionAction)
        requires
            old(self)@.wf(),
            old(self)@.run.has_room(),
        ensures
            final(self)@.wf(),
            begun(old(self)@, plan, final(self)@, action@),
    {
        match plan {
            Err(e) => {
                self.status = Some(Status::error(e.message.clone()));
                self.jump_to(e.span.start);
                SessionAction::Nothing
            },
            Ok(units) => match self.run.start(units) {
                None => {
                    self.status = Some(Status::info("nothing to run".to_owned()));
                    SessionAction::Nothing
                },
                Some(request) => {
                    self.run_page = Some(self.pages.active_index());
                    self.status = Some(running_status(&self.run));
                    let title: String = title_of(request.sql.as_str());
                    SessionAction::Query { request, title }
                },
            },
        }
    }

    /// Puts the cursor of the active page at a byte offset of its text.
    fn jump_to(&mut self, offset: usize)
        requires
            old(self)@.wf(),
        ensures
            final(self)@.wf(),
            old(self)@.jumped(offset as int, final(self)@),
    {
        let ghost before = self@;
        let pos: Position = self.pages.editor().buffer().position_of(offset);
        self.pages.editor_mut().buffer_mut().move_to(pos, Motion::Move);
        proof {
            assert(before.buffer().clamped(pos) == pos);
            assert(self@.pages.pages[before.pages.active].buffer == before.buffer().moved(
                pos,
                Motion::Move,
            ));
        }
    }

    /// Takes up what was reported of a statement. `displayed` says whether the grid shows the
    /// result of the statement that is running.
    pub fn apply_query_response(&mut self, r: QueryResponse, displayed: bool) -> (action:
        SessionAction)
        requires
            old(self)@.wf(),
            old(self)@.run.has_room(),
        ensures
            final(self)@.wf(),
            responded(old(self)@, r, displayed, final(self)@, action@),
    {
        match r {
            QueryResponse::Started { id, query_id } => {
                let cancel: Option<CancelRequest> = self.run.on_started(id, query_id);
                self.send_cancel(cancel)
            },
            QueryResponse::Finished { id, result } => {
                if !self.run.owns(id) {
                    return SessionAction::Nothing;
                }
                match &result {
                    Err(e) => self.jump_to_error_position(e),
                    Ok(_) => {},
                }
                self.go_on(id, &result, displayed)
            },
            QueryResponse::CancelFailed { id, message } => {
                if self.run.owns(id) {
                    self.status = Some(Status::error(message));
                }
                SessionAction::Nothing
            },
        }
    }

    fn go_on(
        &mut self,
        id: RequestId,
        result: &Result<QueryOutcome, DataSourceError>,
        displayed: bool,
    ) -> (action: SessionAction)
        requires
            old(self)@.wf(),
            old(self)@.run.has_room(),
            old(self)@.run.owns(id),
        ensures
            final(self)@.wf(),
            went_on(
                old(self)@,
                super::run::verdict_of(*result),
                displayed,
                final(self)@,
                action@,
            ),
    {
        match self.run.on_finished(id, result) {
            Some(RunOutcome::Next(request)) => {
                self.status = Some(running_status(&self.run));
                let title: String = title_of(request.sql.as_str());
                SessionAction::Query { request, title }
            },
            Some(RunOutcome::Done(summary)) => {
                self.run_page = None;
                let mut status: Status = summary_status(&summary);
                if !displayed {
                    status.text.append(" · result not shown (grid moved on)");
                }
                self.status = Some(status);
                SessionAction::Nothing
            },
            None => SessionAction::Nothing,
        }
    }

    /// Shows the place of an error, if it can be shown.
    fn jump_to_error_position(&mut self, e: &DataSourceError)
        requires
            old(self)@.wf(),
        ensures
            final(self)@.wf(),
            match old(self)@.error_place(*e) {
                None => final(self)@ == old(self)@,
                Some(offset) => old(self)@.jumped(offset, final(self)@),
            },
            final(self)@.run == old(self)@.run,
    {
        let active: usize = self.pages.active_index();
        let same_page = match self.run_page {
            Some(page) => page == active,
            None => false,
        };
        if !same_page {
            return ;
        }
        let pos: u32 = match e.error_position() {
            Some(pos) => pos,
            None => return ,
        };
        let text: String = self.pages.editor().buffer().text();
        let found: Option<usize> = match self.run.current() {
            Some(unit) => error_offset(text.as_str(), unit, pos),
            None => None,
        };
        match found {
            Some(offset) => self.jump_to(offset),
            None => {},
        }
    }

    /// A warning about a tunnel that was not seen to own its port.
    pub fn tunnel_warning(&self) -> (w: Option<String>)
        ensures
            text::opt_view(w) == tunnel_warning_of(self@.state),
    {
        match &self.state {
            SessionState::Ready { forward_confirmed: Some(false), local_port } => {
                let port: u16 = match local_port {
                    Some(p) => *p,
                    None => 0,
                };
                let mut w: String =
                    "tunnel readiness unconfirmed — could not verify this ssh owns port ".to_owned();
                w.append(text::decimal_string(port as u64).as_str());
                w.append("; it may belong to another process");
                Some(w)
            },
            _ => None,
        }
    }

    /// What the session's tab says, and how it looks.
    pub fn tab_title(&self) -> (t: (String, TitleLook))
        ensures
            (t.0@, t.1) == tab_title_of(self@),
    {
        let (head, look) = match &self.state {
            SessionState::Ready { forward_confirmed: Some(false), .. } => (" ⚠ ", TitleLook::Plain),
            SessionState::Ready { .. } => (" ", TitleLook::Plain),
            SessionState::Connecting { .. } => (" … ", TitleLook::Dim),
            SessionState::Failed { .. } => (" ! ", TitleLook::Alarming),
        };
        let mut t: String = head.to_owned();
        t.append(self.connection_name.as_str());
        t.append(" ");
        (t, look)
    }
}

/// The warning about a tunnel that was not seen to own its port.
pub open spec fn tunnel_warning_of(state: StateView) -> Option<Seq<char>> {
    match state {
        StateView::Ready { forward_confirmed: Some(false), local_port } => Some(
            "tunnel readiness unconfirmed — could not verify this ssh owns port "@ + text::decimal(
                (match local_port {
                    Some(p) => p,
                    None => 0,
                }) as nat,
            ) + "; it may belong to another process"@,
        ),
        _ => None,
    }
}

/// The user is warned of a tunnel exactly where the session is connected through one that was not seen
/// to own its port; the warning names the port.
pub proof fn law_unconfirmed_tunnels_are_warned_of(state: StateView)
    ensures
        tunnel_warning_of(state) is Some <==> (state matches StateView::Ready {
            forward_confirmed,
            local_port,
        } && forward_confirmed == Some(false)),
        tunnel_warning_of(state) matches Some(w) ==> (state matches StateView::Ready {
            forward_confirmed,
            local_port,
        } && (local_port matches Some(port) ==> exists|digits: Seq<char>|
            text::is_number(digits) && text::number_of(digits) == port && w == #[trigger] (
            "tunnel readiness unconfirmed — could not verify this ssh owns port "@ + digits
                + "; it may belong to another process"@))),
{
    if state is Ready {
        if state->Ready_local_port is Some {
            let port = state->Ready_local_port->0;
            text::law_decimal_reads_back(port as nat);
        }
    }
}

/// A session's tab names its connection, and looks as the session is doing: plain when it is
/// connected, with a mark of its own for a tunnel that was not seen to own its port, dim while it
/// connects, and alarming where that failed.
pub proof fn law_tab_looks_as_the_session_does(s: SessionView)
    ensures
        text::occurs(tab_title_of(s).0, s.name),
        tab_title_of(s).1 == TitleLook::Plain <==> s.state is Ready,
        tab_title_of(s).1 == TitleLook::Dim <==> s.state is Connecting,
        tab_title_of(s).1 == TitleLook::Alarming <==> s.state is Failed,
        tab_title_of(s).0.len() == s.name.len() + 2 <==> s.state is Ready && tunnel_warning_of(
            s.state,
        ) is None,
{
    reveal_strlit(" ");
    reveal_strlit(" ⚠ ");
    reveal_strlit(" … ");
    reveal_strlit(" ! ");
    text::law_occurs_between_two_parts(tab_title_of(s).0, s.name);
}

/// A page's tab says its title, with a mark exactly if the page holds something unsaved.
pub proof fn law_unsaved_pages_are_marked(pages: Seq<crate::pages::tabs::PageView>, i: int)
    requires
        0 <= i < pages.len(),
    ensures
        page_titles_of(pages).len() == pages.len(),
        ({
            let shown = page_titles_of(pages)[i];
            let title = pages[i].title();
            &&& shown == seq![' '] + title + seq!['*', ' '] <==> pages[i].dirty()
            &&& shown == seq![' '] + title + seq![' '] <==> !pages[i].dirty()
        }),
{
    reveal_strlit(" ");
    reveal_strlit("* ");
    let shown = page_titles_of(pages)[i];
    let title = pages[i].title();
    assert(" "@ =~= seq![' ']);
    assert("* "@ =~= seq!['*', ' ']);
    assert((seq![' '] + title + seq!['*', ' ']).len() == title.len() + 3);
    assert((seq![' '] + title + seq![' ']).len() == title.len() + 2);
}

/// A session that starts to connect.
pub open spec fn session_view(
    id: SessionId,
    name: Seq<char>,
    group: Option<Seq<char>>,
    pages: crate::pages::tabs::TabsView,
) -> SessionView {
    SessionView {
        id,
        name,
        group,
        pages,
        run: super::run::RunView {
            plan: Seq::empty(),
            index: 0,
            active: None,
            query: None,
            cancel_requested: false,
            next_id: 0,
            ran: 0,
            last_affected: None,
        },
        run_page: None,
        status: None,
        focus: Focus::Tree,
        state: StateView::Connecting { message: "connecting…"@ },
    }
}

} // verus!
