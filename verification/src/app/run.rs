//! A run: the statements of a plan, one after the other, until one fails or the user cancels.
use crate::datasource::stream::Row;
use crate::datasource::{DataSourceError, QueryId};
use crate::editor::RunUnit;
use crate::text;
use vstd::prelude::*;

verus! {

/// Tells the requests of a session apart.
#[derive(Debug, Clone, Copy, PartialEq, Eq, Hash, PartialOrd, Ord, Structural)]
pub struct RequestId(pub u64);

/// A statement to run.
#[derive(Debug, Clone, PartialEq, Eq)]
pub struct QueryRequest {
    pub id: RequestId,
    pub sql: String,
}

/// The rows that were fetched of a result.
#[derive(Debug, Clone, PartialEq, Eq)]
pub struct Page {
    pub columns: Vec<String>,
    pub rows: Vec<Row>,
}

/// What a statement gave.
#[derive(Debug, Clone, PartialEq, Eq)]
pub enum QueryOutcome {
    Rows(Page),
    NoResultSet { rows_affected: u64 },
}

/// What is reported of a statement.
#[derive(Debug)]
pub enum QueryResponse {
    /// The statement runs, under an id by which it can be cancelled.
    Started { id: RequestId, query_id: QueryId },
    Finished { id: RequestId, result: Result<QueryOutcome, DataSourceError> },
    CancelFailed { id: RequestId, message: String },
}

/// How a run goes on after a statement.
#[derive(Debug, Clone, PartialEq, Eq)]
pub enum RunOutcome {
    Next(QueryRequest),
    Done(RunSummary),
}

/// How a run ended.
#[derive(Debug, Clone, PartialEq, Eq)]
pub struct RunSummary {
    pub ran: usize,
    pub total: usize,
    pub last_affected: Option<u64>,
    pub failed: Option<String>,
    pub cancelled: Option<CancelOutcome>,
}

/// What a cancel did to the statement that was running.
#[derive(Debug, Clone, Copy, PartialEq, Eq, Structural)]
pub enum CancelOutcome {
    /// The server aborted the statement.
    Interrupted,
    /// The statement was over before the cancel came; the run stopped there.
    CompletedFirst,
}

/// A cancel, bound to the request that it is meant for.
#[derive(Debug, Clone, Copy, PartialEq, Eq, Structural)]
pub struct CancelRequest {
    pub id: RequestId,
    pub query_id: QueryId,
}

/// The run of a plan, and what is left of the last one.
#[derive(Debug)]
pub struct RunState {
    plan: Vec<RunUnit>,
    index: usize,
    active_id: Option<RequestId>,
    active_query_id: Option<QueryId>,
    cancel_requested: bool,
    next_request_id: u64,
    ran: usize,
    last_affected: Option<u64>,
}

/// A run as a value.
#[verifier::ext_equal]
pub struct RunView {
    pub plan: Seq<crate::editor::RunUnitView>,
    pub index: int,
    pub active: Option<RequestId>,
    pub query: Option<QueryId>,
    pub cancel_requested: bool,
    pub next_id: int,
    pub ran: int,
    pub last_affected: Option<u64>,
}

/// What a statement came to, as far as its run is concerned.
pub enum Verdict {
    Rows,
    Affected(u64),
    Interrupted,
    Failed(Seq<char>),
}

/// A summary as a value.
pub struct SummaryView {
    pub ran: int,
    pub total: int,
    pub last_affected: Option<u64>,
    pub failed: Option<Seq<char>>,
    pub cancelled: Option<CancelOutcome>,
}

/// An outcome as a value.
pub enum OutcomeView {
    Next { id: RequestId, sql: Seq<char> },
    Done(SummaryView),
}

impl View for RunSummary {
    type V = SummaryView;

    open spec fn view(&self) -> SummaryView {
        SummaryView {
            ran: self.ran as int,
            total: self.total as int,
            last_affected: self.last_affected,
            failed: text::opt_view(self.failed),
            cancelled: self.cancelled,
        }
    }
}

impl View for RunOutcome {
    type V = OutcomeView;

    open spec fn view(&self) -> OutcomeView {
        match self {
            RunOutcome::Next(r) => OutcomeView::Next { id: r.id, sql: r.sql@ },
            RunOutcome::Done(s) => OutcomeView::Done(s@),
        }
    }
}

/// The view of an optional outcome.
pub open spec fn opt_outcome(o: Option<RunOutcome>) -> Option<OutcomeView> {
    match o {
        Some(o) => Some(o@),
        None => None,
    }
}

/// The views of units.
pub open spec fn unit_views(units: Seq<RunUnit>) -> Seq<crate::editor::RunUnitView> {
    Seq::new(units.len(), |i: int| units[i]@)
}

/// What a result comes to.
pub open spec fn verdict_of(r: Result<QueryOutcome, DataSourceError>) -> Verdict {
    match r {
        Ok(QueryOutcome::Rows(_)) => Verdict::Rows,
        Ok(QueryOutcome::NoResultSet { rows_affected }) => Verdict::Affected(rows_affected),
        Err(DataSourceError::Cancelled) => Verdict::Interrupted,
        Err(e) => Verdict::Failed(crate::datasource::error_chain_of(e)),
    }
}

impl View for RunState {
    type V = RunView;

    closed spec fn view(&self) -> RunView {
        RunView {
            plan: unit_views(self.plan@),
            index: self.index as int,
            active: self.active_id,
            query: self.active_query_id,
            cancel_requested: self.cancel_requested,
            next_id: self.next_request_id as int,
            ran: self.ran as int,
            last_affected: self.last_affected,
        }
    }
}

impl RunView {
    /// While a run is active, one of its statements is running, all before it have run, and its id
    /// was given out before.
    pub open spec fn wf(self) -> bool {
        &&& 0 <= self.index <= self.plan.len()
        &&& 0 <= self.next_id <= u64::MAX
        &&& (self.active matches Some(id) ==> {
            &&& self.index < self.plan.len()
            &&& self.ran == self.index
            &&& id.0 < self.next_id
        })
    }

    /// Whether another request can be numbered.
    pub open spec fn has_room(self) -> bool {
        self.next_id < u64::MAX
    }

    /// Whether the id is that of the statement that is running.
    pub open spec fn owns(self, id: RequestId) -> bool {
        self.active == Some(id)
    }

    /// The run of a plan, at its first statement.
    pub open spec fn started(self, plan: Seq<crate::editor::RunUnitView>) -> RunView {
        RunView {
            plan,
            index: 0,
            active: Some(RequestId(self.next_id as u64)),
            query: None,
            cancel_requested: false,
            next_id: self.next_id + 1,
            ran: 0,
            last_affected: None,
        }
    }

    /// The run after the statement that was running came to `v`.
    pub open spec fn finished(self, v: Verdict) -> RunView {
        let counted = RunView {
            ran: self.ran + 1,
            last_affected: match v {
                Verdict::Affected(n) => Some(n),
                _ => self.last_affected,
            },
            ..self
        };
        if v is Interrupted || v is Failed || self.cancel_requested {
            RunView { active: None, ..counted }
        } else if self.index + 1 >= self.plan.len() {
            RunView { active: None, index: self.index + 1, ..counted }
        } else {
            RunView {
                index: self.index + 1,
                active: Some(RequestId(self.next_id as u64)),
                query: None,
                cancel_requested: false,
                next_id: self.next_id + 1,
                ..counted
            }
        }
    }

    /// How the run goes on after the statement that was running came to `v`: a failure or a cancel
    /// ends it, else the next statement follows, if there is one.
    pub open spec fn outcome(self, v: Verdict) -> OutcomeView {
        let after = self.finished(v);
        if after.active is Some {
            OutcomeView::Next { id: after.active->0, sql: self.plan[self.index + 1].sql }
        } else {
            OutcomeView::Done(
                SummaryView {
                    ran: after.ran,
                    total: self.plan.len() as int,
                    last_affected: after.last_affected,
                    failed: match v {
                        Verdict::Failed(message) => Some(message),
                        _ => None,
                    },
                    cancelled: if v is Interrupted {
                        Some(CancelOutcome::Interrupted)
                    } else if v is Failed || !self.cancel_requested {
                        None
                    } else {
                        Some(CancelOutcome::CompletedFirst)
                    },
                },
            )
        }
    }
}

/// A requested cancel stops the whole run: whatever the statement in flight comes to, no further
/// one is sent.
pub proof fn law_cancel_never_advances(r: RunView, v: Verdict)
    requires
        r.wf(),
        r.active is Some,
        r.cancel_requested,
    ensures
        r.outcome(v) is Done,
        r.finished(v).active is None,
{
}

/// The ids of a session's requests only grow, within a run and from one to the next.
pub proof fn law_ids_grow(r: RunView, plan: Seq<crate::editor::RunUnitView>, v: Verdict)
    requires
        r.wf(),
        r.has_room(),
        plan.len() > 0,
    ensures
        r.started(plan).wf(),
        r.active is Some ==> (r.started(plan).active->0).0 > (r.active->0).0,
        r.active is Some ==> r.finished(v).wf(),
        r.active is Some && r.finished(v).active is Some ==> (r.finished(v).active->0).0
            > (r.active->0).0,
        r.active is Some ==> r.finished(v).next_id >= r.next_id,
        r.started(plan).next_id > r.next_id,
{
}

/// A run after its first statements came to `verdicts`, one after the other.
pub open spec fn after_all(r: RunView, verdicts: Seq<Verdict>) -> RunView
    decreases verdicts.len(),
{
    if verdicts.len() == 0 {
        r
    } else {
        after_all(r, verdicts.drop_last()).finished(verdicts.last())
    }
}

/// A plan whose statements all succeed is run from its first statement to its last, and nothing else
/// is: after `n` statements the next one is the one that runs, and after the last one the run is over,
/// with every statement counted.
pub proof fn law_whole_plan_runs(
    r: RunView,
    plan: Seq<crate::editor::RunUnitView>,
    verdicts: Seq<Verdict>,
)
    requires
        r.wf(),
        0 < plan.len(),
        r.next_id + plan.len() <= u64::MAX,
        verdicts.len() <= plan.len(),
        forall|i: int|
            0 <= i < verdicts.len() ==> (#[trigger] verdicts[i]) is Rows || verdicts[i] is Affected,
    ensures
        ({
            let s = after_all(r.started(plan), verdicts);
            let n = verdicts.len() as int;
            &&& s.wf()
            &&& s.plan == plan
            &&& s.index == n
            &&& s.ran == n
            &&& !s.cancel_requested
            &&& n < plan.len() ==> s.active == Some(RequestId((r.next_id + n) as u64)) && s.next_id
                == r.next_id + n + 1
            &&& n == plan.len() ==> s.active is None
            &&& n == plan.len() ==> (after_all(
                r.started(plan),
                verdicts.drop_last(),
            ).outcome(verdicts.last()) matches OutcomeView::Done(summary) && summary.ran == n
                && summary.total == n && summary.failed is None && summary.cancelled is None)
        }),
    decreases verdicts.len(),
{
    if verdicts.len() > 0 {
        let before = verdicts.drop_last();
        assert forall|i: int| 0 <= i < before.len() implies (#[trigger] before[i]) is Rows
            || before[i] is Affected by {
            assert(before[i] == verdicts[i]);
        }
        assert(verdicts[verdicts.len() - 1] == verdicts.last());
        law_whole_plan_runs(r, plan, before);
    }
}

/// A run sends its statements in order, each once: the one that follows is the next of the plan,
/// and only after one that succeeded.
pub proof fn law_statements_in_order(r: RunView, v: Verdict)
    requires
        r.wf(),
        r.active is Some,
    ensures
        r.outcome(v) matches OutcomeView::Next { id, sql } ==> {
            &&& v is Rows || v is Affected
            &&& sql == r.plan[r.index + 1].sql
            &&& r.finished(v).index == r.index + 1
            &&& r.finished(v).plan == r.plan
            &&& r.finished(v).owns(id)
            &&& id != r.active->0
        },
{
}

/// A summary never reports a failure and a cancel at once, and counts no more statements than the
/// plan has.
pub proof fn law_summary_is_consistent(r: RunView, v: Verdict)
    requires
        r.wf(),
        r.active is Some,
    ensures
        r.outcome(v) matches OutcomeView::Done(s) ==> {
            &&& s.failed is None || s.cancelled is None
            &&& 1 <= s.ran <= s.total
            &&& s.failed is None && s.cancelled is None ==> s.ran == s.total
        },
{
}

/// What a run ends with is told as it was: a statement that failed, with its error; one that was
/// interrupted; or a cancel that came after the statement was over. The statement that failed, or was
/// interrupted, stays the current one. Every statement that was sent is counted.
pub proof fn law_the_end_is_told_as_it_was(r: RunView, v: Verdict)
    requires
        r.wf(),
        r.active is Some,
    ensures
        v matches Verdict::Failed(m) ==> (r.outcome(v) matches OutcomeView::Done(s) && s.failed
            == Some(m) && s.cancelled is None && s.ran == r.index + 1 && s.total == r.plan.len())
            && r.finished(v).index == r.index,
        v is Interrupted ==> (r.outcome(v) matches OutcomeView::Done(s) && s.failed is None
            && s.cancelled == Some(CancelOutcome::Interrupted) && s.ran == r.index + 1 && s.total
            == r.plan.len()) && r.finished(v).index == r.index,
        (v is Rows || v is Affected) && r.cancel_requested ==> (r.outcome(
            v,
        ) matches OutcomeView::Done(s) && s.failed is None && s.cancelled == Some(
            CancelOutcome::CompletedFirst,
        ) && s.ran == r.index + 1 && s.total == r.plan.len()),
        (v is Rows || v is Affected) && !r.cancel_requested ==> (r.outcome(v) is Done <==> r.index
            + 1 == r.plan.len()),
        (v is Rows || v is Affected) && !r.cancel_requested ==> (r.outcome(
            v,
        ) matches OutcomeView::Done(s) ==> s.failed is None && s.cancelled is None),
        r.finished(v).plan == r.plan,
        r.finished(v).active is Some ==> !r.finished(v).cancel_requested && r.finished(v).query
            is None,
{
}

/// The number of rows that a run tells in the end is that of the last of its statements that told one.
pub proof fn law_the_last_number_of_rows_is_told(
    r: RunView,
    plan: Seq<crate::editor::RunUnitView>,
    verdicts: Seq<Verdict>,
    i: int,
    v: Verdict,
)
    requires
        forall|k: int| i < k < verdicts.len() ==> !((#[trigger] verdicts[k]) is Affected),
        -1 <= i < verdicts.len(),
        i >= 0 ==> verdicts[i] is Affected,
    ensures
        after_all(r.started(plan), verdicts).last_affected == (if i >= 0 {
            Some(verdicts[i]->Affected_0)
        } else {
            None
        }),
        after_all(r.started(plan), verdicts).outcome(v) matches OutcomeView::Done(s)
            ==> s.last_affected == (if v is Affected {
            Some(v->Affected_0)
        } else if i >= 0 {
            Some(verdicts[i]->Affected_0)
        } else {
            None
        }),
    decreases verdicts.len(),
{
    if verdicts.len() > 0 {
        let before = verdicts.drop_last();
        if i != verdicts.len() - 1 {
            assert forall|k: int| i < k < before.len() implies !((#[trigger] before[k])
                is Affected) by {
                assert(before[k] == verdicts[k]);
            }
            assert(!(verdicts[verdicts.len() - 1] is Affected));
            law_the_last_number_of_rows_is_told(r, plan, before, i, v);
        }
    }
}

/// A run that starts has nothing of the one before: no statement counted, no cancel asked for, no
/// query known, and its first statement is the one that runs.
pub proof fn law_a_run_starts_afresh(r: RunView, plan: Seq<crate::editor::RunUnitView>)
    requires
        r.wf(),
        r.has_room(),
        plan.len() > 0,
    ensures
        r.started(plan).plan == plan,
        r.started(plan).index == 0,
        r.started(plan).ran == 0,
        !r.started(plan).cancel_requested,
        r.started(plan).query is None,
        r.started(plan).last_affected is None,
        r.started(plan).active is Some,
        !(r.active matches Some(id) && r.started(plan).owns(id)),
{
}

/// What a result comes to: rows, a number of rows, a cancel that the server carried out, or a failure,
/// with everything that is known of its cause.
pub proof fn law_results_come_to_what_they_are(r: Result<QueryOutcome, DataSourceError>)
    ensures
        verdict_of(r) is Rows <==> (r matches Ok(o) && o is Rows),
        verdict_of(r) matches Verdict::Affected(n) ==> r == Ok::<QueryOutcome, DataSourceError>(
            QueryOutcome::NoResultSet { rows_affected: n },
        ),
        verdict_of(r) is Interrupted <==> (r matches Err(e) && e is Cancelled),
        verdict_of(r) is Failed <==> (r matches Err(e) && !(e is Cancelled)),
        verdict_of(r) matches Verdict::Failed(m) ==> m == crate::datasource::error_chain_of(
            r->Err_0,
        ),
{
}

fn is_request(a: Option<RequestId>, id: RequestId) -> (b: bool)
    ensures
        b == (a == Some(id)),
{
    match a {
        Some(x) => x.0 == id.0,
        None => false,
    }
}

impl RunState {
    /// No run.
    pub fn new() -> (s: Self)
        ensures
            s@.wf(),
            s@ == (RunView {
                plan: Seq::empty(),
                index: 0,
                active: None,
                query: None,
                cancel_requested: false,
                next_id: 0,
                ran: 0,
                last_affected: None,
            }),
    {
        let s = RunState {
            plan: Vec::new(),
            index: 0,
            active_id: None,
            active_query_id: None,
            cancel_requested: false,
            next_request_id: 0,
            ran: 0,
            last_affected: None,
        };
        proof {
            assert(s@.plan =~= Seq::empty());
        }
        s
    }

    /// Whether a statement is running.
    pub fn is_active(&self) -> (b: bool)
        ensures
            b == self@.active is Some,
    {
        self.active_id.is_some()
    }

    /// Whether another request can be numbered.
    pub fn can_number(&self) -> (b: bool)
        ensures
            b == self@.has_room(),
    {
        self.next_request_id < u64::MAX
    }

    /// The statement that is running, or that failed last.
    pub fn current(&self) -> (u: Option<&RunUnit>)
        requires
            self@.wf(),
        ensures
            u is Some <==> self@.index < self@.plan.len(),
            u is Some ==> u->0@ == self@.plan[self@.index],
    {
        if self.index < self.plan.len() {
            Some(&self.plan[self.index])
        } else {
            None
        }
    }

    /// The number of the statement that is running, and how many there are.
    pub fn progress(&self) -> (p: (usize, usize))
        requires
            self@.wf(),
        ensures
            p.1 == self@.plan.len(),
            p.0 == (if self@.index < self@.plan.len() {
                self@.index + 1
            } else {
                self@.plan.len() as int
            }),
    {
        let total: usize = self.plan.len();
        if self.index < total {
            (self.index + 1, total)
        } else {
            (total, total)
        }
    }

    /// Starts the run of a plan; a plan without statements starts nothing.
    pub fn start(&mut self, plan: Vec<RunUnit>) -> (r: Option<QueryRequest>)
        requires
            old(self)@.wf(),
            old(self)@.has_room(),
        ensures
            final(self)@.wf(),
            if plan@.len() == 0 {
                r is None && final(self)@ == old(self)@
            } else {
                r matches Some(req) && req.id.0 == old(self)@.next_id && req.sql@ == plan@[0].sql@
                    && final(self)@ == old(self)@.started(unit_views(plan@))
            },
    {
        if plan.len() == 0 {
            return None;
        }
        let sql: String = plan[0].sql.clone();
        self.plan = plan;
        self.index = 0;
        self.ran = 0;
        self.last_affected = None;
        self.cancel_requested = false;
        self.active_query_id = None;
        let id: RequestId = self.next_id();
        self.active_id = Some(id);
        Some(QueryRequest { id, sql })
    }

    /// Whether the id is that of the statement that is running.
    pub fn owns(&self, id: RequestId) -> (b: bool)
        ensures
            b == self@.owns(id),
    {
        is_request(self.active_id, id)
    }

    /// Learns under which id the statement runs; answers with the cancel that waited for it.
    pub fn on_started(&mut self, id: RequestId, qid: QueryId) -> (c: Option<CancelRequest>)
        requires
            old(self)@.wf(),
        ensures
            final(self)@.wf(),
            if old(self)@.owns(id) {
                &&& final(self)@ == (RunView { query: Some(qid), ..old(self)@ })
                &&& c == (if old(self)@.cancel_requested {
                    Some(CancelRequest { id, query_id: qid })
                } else {
                    None
                })
            } else {
                c is None && final(self)@ == old(self)@
            },
    {
        if !self.owns(id) {
            return None;
        }
        self.active_query_id = Some(qid);
        if self.cancel_requested {
            Some(CancelRequest { id, query_id: qid })
        } else {
            None
        }
    }

    /// Notes that the run is to stop; answers with the cancel, if it can be sent at once.
    pub fn request_cancel(&mut self) -> (c: Option<CancelRequest>)
        requires
            old(self)@.wf(),
        ensures
            final(self)@.wf(),
            match old(self)@.active {
                None => c is None && final(self)@ == old(self)@,
                Some(id) => {
                    &&& final(self)@ == (RunView { cancel_requested: true, ..old(self)@ })
                    &&& c == (match old(self)@.query {
                        Some(query_id) => Some(CancelRequest { id, query_id }),
                        None => None,
                    })
                },
            },
    {
        match self.active_id {
            None => None,
            Some(id) => {
                self.cancel_requested = true;
                match self.active_query_id {
                    Some(query_id) => Some(CancelRequest { id, query_id }),
                    None => None,
                }
            },
        }
    }

    /// Takes up what a statement gave, and says how the run goes on. What is not of the statement
    /// that is running changes nothing.
    pub fn on_finished(
        &mut self,
        id: RequestId,
        result: &Result<QueryOutcome, DataSourceError>,
    ) -> (o: Option<RunOutcome>)
        requires
            old(self)@.wf(),
            old(self)@.has_room(),
        ensures
            final(self)@.wf(),
            if old(self)@.owns(id) {
                &&& final(self)@ == old(self)@.finished(verdict_of(*result))
                &&& opt_outcome(o) == Some(old(self)@.outcome(verdict_of(*result)))
            } else {
                o is None && final(self)@ == old(self)@
            },
    {
        if !self.owns(id) {
            return None;
        }
        let total: usize = self.plan.len();
        self.ran = self.ran + 1;
        match result {
            Err(e) => {
                let interrupted = match e {
                    DataSourceError::Cancelled => true,
                    _ => false,
                };
                self.active_id = None;
                let (failed, cancelled) = if interrupted {
                    (None, Some(CancelOutcome::Interrupted))
                } else {
                    (Some(e.error_chain()), None)
                };
                Some(RunOutcome::Done(self.summary(total, failed, cancelled)))
            },
            Ok(outcome) => {
                match outcome {
                    QueryOutcome::NoResultSet { rows_affected } => {
                        self.last_affected = Some(*rows_affected);
                    },
                    QueryOutcome::Rows(_) => {},
                }
                if self.cancel_requested {
                    self.active_id = None;
                    return Some(
                        RunOutcome::Done(
                            self.summary(total, None, Some(CancelOutcome::CompletedFirst)),
                        ),
                    );
                }
                self.index = self.index + 1;
                if self.index >= total {
                    self.active_id = None;
                    Some(RunOutcome::Done(self.summary(total, None, None)))
                } else {
                    let id: RequestId = self.next_id();
                    self.active_id = Some(id);
                    self.active_query_id = None;
                    self.cancel_requested = false;
                    Some(RunOutcome::Next(QueryRequest { id, sql: self.plan[self.index].sql.clone() }))
                }
            },
        }
    }

    fn summary(
        &self,
        total: usize,
        failed: Option<String>,
        cancelled: Option<CancelOutcome>,
    ) -> (s: RunSummary)
        ensures
            s@ == (SummaryView {
                ran: self@.ran,
                total: total as int,
                last_affected: self@.last_affected,
                failed: text::opt_view(failed),
                cancelled,
            }),
    {
        RunSummary { ran: self.ran, total, last_affected: self.last_affected, failed, cancelled }
    }

    fn next_id(&mut self) -> (id: RequestId)
        requires
            old(self)@.has_room(),
        ensures
            id.0 == old(self)@.next_id,
            final(self)@ == (RunView { next_id: old(self)@.next_id + 1, ..old(self)@ }),
            final(self).plan == old(self).plan,
    {
        let id = RequestId(self.next_request_id);
        self.next_request_id = self.next_request_id + 1;
        id
    }
}

impl Default for RunState {
    fn default() -> (s: Self)
        ensures
            s@.wf(),
            s@ == (RunView {
                plan: Seq::empty(),
                index: 0,
                active: None,
                query: None,
                cancel_requested: false,
                next_id: 0,
                ran: 0,
                last_affected: None,
            }),
    {
        RunState::new()
    }
}

} // verus!
