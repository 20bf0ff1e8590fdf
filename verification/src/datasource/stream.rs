//! The rows of a query, as they come from the server.
use super::{DataSourceError, QueryId};
use crate::text;
use std::sync::Arc;
use vstd::prelude::*;

verus! {

/// One row of a result: its values as text, `None` for a null, and the names of its columns.
#[derive(Debug, Clone, PartialEq, Eq)]
pub struct Row {
    columns: Arc<Vec<String>>,
    values: Vec<Option<String>>,
}

/// A `Row` as a value.
pub struct RowView {
    pub columns: Seq<Seq<char>>,
    pub values: Seq<Option<Seq<char>>>,
}

/// The views of optional texts.
pub open spec fn opt_views(values: Seq<Option<String>>) -> Seq<Option<Seq<char>>> {
    Seq::new(values.len(), |i: int| text::opt_view(values[i]))
}

impl View for Row {
    type V = RowView;

    closed spec fn view(&self) -> RowView {
        RowView { columns: text::views(self.columns@), values: opt_views(self.values@) }
    }
}

impl Row {
    /// A row with the given columns and values.
    pub fn new(columns: Arc<Vec<String>>, values: Vec<Option<String>>) -> (r: Row)
        ensures
            r@.columns == text::views(columns@),
            r@.values == opt_views(values@),
    {
        Row { columns, values }
    }

    /// The names of the columns.
    pub fn columns(&self) -> (c: &[String])
        ensures
            text::views(c@) == self@.columns,
    {
        self.columns.as_slice()
    }

    /// The number of values.
    pub fn len(&self) -> (n: usize)
        ensures
            n == self@.values.len(),
    {
        self.values.len()
    }

    /// Whether there are no values.
    pub fn is_empty(&self) -> (b: bool)
        ensures
            b == (self@.values.len() == 0),
    {
        self.values.len() == 0
    }

    /// The value with an index; `None` for a null and for an index that no value has.
    pub fn get(&self, idx: usize) -> (v: Option<&str>)
        ensures
            v is Some <==> idx < self@.values.len() && self@.values[idx as int] is Some,
            v is Some ==> v->0@ == self@.values[idx as int]->0,
    {
        if idx < self.values.len() {
            match &self.values[idx] {
                Some(v) => Some(v.as_str()),
                None => None,
            }
        } else {
            None
        }
    }

    /// The index of the first column with a name.
    pub fn index_of(&self, name: &str) -> (idx: Option<usize>)
        ensures
            match idx {
                Some(i) => i < self@.columns.len() && self@.columns[i as int] == name@
                    && forall|j: int| 0 <= j < i ==> #[trigger] self@.columns[j] != name@,
                None => !self@.columns.contains(name@),
            },
    {
        let n: usize = self.columns.len();
        let mut i: usize = 0;
        while i < n
            invariant
                n == self.columns@.len(),
                i <= n,
                forall|j: int| 0 <= j < i ==> #[trigger] self@.columns[j] != name@,
            decreases n - i,
        {
            if text::same_text(self.columns[i].as_str(), name) {
                return Some(i);
            }
            i = i + 1;
        }
        None
    }

    /// The values.
    pub fn into_values(self) -> (v: Vec<Option<String>>)
        ensures
            opt_views(v@) == self@.values,
    {
        self.values
    }
}

/// A message of the server about a running query.
#[derive(Debug)]
pub enum ResultMessage {
    Columns(Arc<Vec<String>>),
    Row(Vec<Option<String>>),
    Complete { rows_affected: u64 },
    /// A message that says nothing about the result.
    Ignored,
}

/// How far the reading of a result has come.
#[derive(Debug, Clone, Copy, PartialEq, Eq, Structural)]
pub enum StreamState {
    Streaming,
    AfterComplete,
    Ended,
    Aborted,
}

/// The reading of one query's result.
#[derive(Debug)]
pub struct RowStream {
    query_id: QueryId,
    columns: Option<Arc<Vec<String>>>,
    rows_affected: Option<u64>,
    state: StreamState,
}

/// What a message of the server means for the reader.
#[derive(Debug)]
pub enum StreamStep {
    /// Nothing yet: wait for the next message.
    Again,
    Row(Row),
    Failed(DataSourceError),
    /// No more rows. The connection is idle if the stream is `Ended`.
    End,
}

/// A `RowStream` as a value.
pub struct StreamView {
    pub query_id: QueryId,
    pub columns: Option<Seq<Seq<char>>>,
    pub rows_affected: Option<u64>,
    pub state: StreamState,
}

impl View for RowStream {
    type V = StreamView;

    closed spec fn view(&self) -> StreamView {
        StreamView {
            query_id: self.query_id,
            columns: match self.columns {
                Some(c) => Some(text::views(c@)),
                None => None,
            },
            rows_affected: self.rows_affected,
            state: self.state,
        }
    }
}

/// The error for a statement that turned out to be several.
pub open spec fn is_multi_statement(e: DataSourceError) -> bool {
    e matches DataSourceError::MultipleStatements { method } && method@ == "execute"@
}

/// What `message` (or `None`, when the server is done) does to a stream and means for its reader.
///
/// A stream that ended or was aborted gives nothing more. A message for a second statement aborts
/// the stream, as an error does; only the server's "done" ends it.
pub open spec fn stepped(
    before: StreamView,
    message: Option<Result<ResultMessage, DataSourceError>>,
    after: StreamView,
    step: StreamStep,
) -> bool {
    if before.state is Ended || before.state is Aborted {
        after == before && step is End
    } else {
        match message {
            None => after == (StreamView { state: StreamState::Ended, ..before }) && step is End,
            Some(Err(e)) => after == (StreamView { state: StreamState::Aborted, ..before }) && step
                == StreamStep::Failed(e),
            Some(Ok(ResultMessage::Ignored)) => after == before && step is Again,
            Some(Ok(m)) => if before.state is AfterComplete {
                &&& after == (StreamView { state: StreamState::Aborted, ..before })
                &&& step matches StreamStep::Failed(e) && is_multi_statement(e)
            } else {
                match m {
                    ResultMessage::Columns(c) => after == (StreamView {
                        columns: Some(text::views(c@)),
                        ..before
                    }) && step is Again,
                    ResultMessage::Row(values) => {
                        &&& after == before
                        &&& step matches StreamStep::Row(row) && row@ == (RowView {
                            columns: before.columns->0,
                            values: opt_views(values@),
                        })
                    },
                    ResultMessage::Complete { rows_affected } => after == (StreamView {
                        rows_affected: Some(rows_affected),
                        state: StreamState::AfterComplete,
                        ..before
                    }) && step is Again,
                    ResultMessage::Ignored => false,
                }
            },
        }
    }
}

/// What `message` does to a stream whose rest is read and thrown away.
pub open spec fn drained_on(
    before: StreamView,
    message: Option<Result<ResultMessage, DataSourceError>>,
    after: StreamView,
) -> bool {
    if before.state is Aborted {
        after == (StreamView {
            state: if message matches Some(Ok(_)) {
                StreamState::Aborted
            } else {
                StreamState::Ended
            },
            ..before
        })
    } else {
        exists|step: StreamStep| #[trigger] stepped(before, message, after, step)
    }
}

/// Reading the rest of a result comes to an end: with the server's "done" at once, and with errors
/// after the second at the latest. Nothing else ends it: a connection is not taken for idle while the
/// server still sends.
pub proof fn law_draining_ends(
    before: StreamView,
    message: Option<Result<ResultMessage, DataSourceError>>,
    middle: StreamView,
    next: Option<Result<ResultMessage, DataSourceError>>,
    after: StreamView,
)
    requires
        !(before.state is Ended),
        drained_on(before, message, middle),
        !(middle.state is Ended) ==> drained_on(middle, next, after),
    ensures
        message is None ==> middle.state is Ended,
        (message matches Some(m) && m is Ok) ==> !(middle.state is Ended),
        (message matches Some(m) && m is Err) && (next matches Some(m) && m is Err) ==> middle.state
            is Ended || after.state is Ended,
        middle.query_id == before.query_id,
{
}

/// Whether a message is one that the server sends: it describes a row's columns before it sends the
/// row.
pub open spec fn in_order(
    before: StreamView,
    message: Option<Result<ResultMessage, DataSourceError>>,
) -> bool {
    match message {
        Some(Ok(ResultMessage::Row(_))) => before.state is Streaming ==> before.columns is Some,
        _ => true,
    }
}

/// What to do with a stream that is dropped.
#[derive(Debug, Clone, Copy, PartialEq, Eq, Structural)]
pub enum DropAction {
    /// It holds no connection.
    Nothing,
    /// Mark the query as no longer active and give the connection back.
    Release,
    /// Read what the server still sends in the background; cancel the query if that takes long.
    DrainInBackground { allow_cancel: bool },
}

/// What to do with a stream that is dropped, which holds the connection or does not, where there is or
/// is not a way to go on reading in the background.
pub open spec fn drop_action(state: StreamState, held: bool, can_drain: bool) -> DropAction {
    if !held {
        DropAction::Nothing
    } else if state is Ended || !can_drain {
        DropAction::Release
    } else {
        DropAction::DrainInBackground { allow_cancel: state is Streaming }
    }
}

/// A stream that holds no connection gives none back. One that has not been read to its end is read on
/// wherever that is possible, so that whoever is next does not get its rows; and only a query that still
/// sends rows is ever cancelled.
pub proof fn law_a_dropped_stream_is_read_to_its_end(
    state: StreamState,
    held: bool,
    can_drain: bool,
)
    ensures
        drop_action(state, held, can_drain) is Nothing <==> !held,
        drop_action(state, held, can_drain) is DrainInBackground <==> held && can_drain && state
            != StreamState::Ended,
        drop_action(state, held, can_drain) matches DropAction::DrainInBackground { allow_cancel }
            ==> (allow_cancel <==> state == StreamState::Streaming),
{
}

/// The number of the active query after `query` is done: 0 if it was that one, else unchanged.
pub fn clear_active(active: u64, query: QueryId) -> (r: u64)
    ensures
        r == (if active == query.0 {
            0
        } else {
            active
        }),
{
    if active == query.0 {
        0
    } else {
        active
    }
}

impl RowStream {
    /// The reading of a query that was just sent.
    pub fn new(query_id: QueryId) -> (s: RowStream)
        ensures
            s@ == (StreamView {
                query_id,
                columns: None,
                rows_affected: None,
                state: StreamState::Streaming,
            }),
    {
        RowStream { query_id, columns: None, rows_affected: None, state: StreamState::Streaming }
    }

    /// A reading that has come as far as `state`.
    pub fn resume(query_id: QueryId, state: StreamState) -> (s: RowStream)
        ensures
            s@ == (StreamView { query_id, columns: None, rows_affected: None, state }),
    {
        RowStream { query_id, columns: None, rows_affected: None, state }
    }

    pub fn query_id(&self) -> (q: QueryId)
        ensures
            q == self@.query_id,
    {
        self.query_id
    }

    /// The names of the columns, once they are known.
    pub fn columns(&self) -> (c: Option<&Arc<Vec<String>>>)
        ensures
            c is Some <==> self@.columns is Some,
            c is Some ==> text::views(c->0@) == self@.columns->0,
    {
        match &self.columns {
            Some(c) => Some(c),
            None => None,
        }
    }

    /// How many rows the statement affected, once it is complete.
    pub fn rows_affected(&self) -> (n: Option<u64>)
        ensures
            n == self@.rows_affected,
    {
        self.rows_affected
    }

    /// How far the reading has come.
    pub fn state(&self) -> (s: StreamState)
        ensures
            s == self@.state,
    {
        self.state
    }

    fn multi_statement(&mut self) -> (e: DataSourceError)
        ensures
            is_multi_statement(e),
            final(self)@ == (StreamView { state: StreamState::Aborted, ..old(self)@ }),
    {
        self.state = StreamState::Aborted;
        DataSourceError::MultipleStatements { method: "execute" }
    }

    /// Takes the server's next message.
    pub fn next(&mut self, message: Option<Result<ResultMessage, DataSourceError>>) -> (step:
        StreamStep)
        requires
            in_order(old(self)@, message),
        ensures
            stepped(old(self)@, message, final(self)@, step),
    {
        match self.state {
            StreamState::Ended | StreamState::Aborted => {
                return StreamStep::End;
            },
            _ => {},
        }
        match message {
            None => {
                self.state = StreamState::Ended;
                StreamStep::End
            },
            Some(Err(e)) => {
                self.state = StreamState::Aborted;
                StreamStep::Failed(e)
            },
            Some(Ok(m)) => match m {
                ResultMessage::Ignored => StreamStep::Again,
                ResultMessage::Columns(columns) => match self.state {
                    StreamState::Streaming => {
                        self.columns = Some(columns);
                        StreamStep::Again
                    },
                    _ => StreamStep::Failed(self.multi_statement()),
                },
                ResultMessage::Row(values) => match self.state {
                    StreamState::Streaming => {
                        let columns: Arc<Vec<String>> = match &self.columns {
                            Some(c) => share(c),
                            None => Arc::new(Vec::new()),
                        };
                        StreamStep::Row(Row { columns, values })
                    },
                    _ => StreamStep::Failed(self.multi_statement()),
                },
                ResultMessage::Complete { rows_affected } => match self.state {
                    StreamState::Streaming => {
                        self.rows_affected = Some(rows_affected);
                        self.state = StreamState::AfterComplete;
                        StreamStep::Again
                    },
                    _ => StreamStep::Failed(self.multi_statement()),
                },
            },
        }
    }

    /// Takes the server's next message while the rest of a result is read and thrown away; says
    /// whether the connection is idle now. After an error the first further error, or the server's
    /// "done", ends the reading: a closed connection gives errors for ever.
    pub fn finish(&mut self, message: Option<Result<ResultMessage, DataSourceError>>) -> (done:
        bool)
        requires
            in_order(old(self)@, message),
            !(old(self)@.state is Ended),
        ensures
            done == (final(self)@.state is Ended),
            drained_on(old(self)@, message, final(self)@),
    {
        match self.state {
            StreamState::Aborted => match message {
                Some(Ok(_)) => false,
                _ => {
                    self.state = StreamState::Ended;
                    true
                },
            },
            _ => {
                let step = self.next(message);
                proof {
                    assert(stepped(old(self)@, message, self@, step));
                }
                match self.state {
                    StreamState::Ended => true,
                    _ => false,
                }
            },
        }
    }

    /// What to do when the stream is dropped. `held` says whether it still holds the connection,
    /// `can_drain` whether there is a way to go on reading in the background. A query that is
    /// complete, or has failed, is not cancelled.
    pub fn on_drop(&self, held: bool, can_drain: bool) -> (action: DropAction)
        ensures
            action == drop_action(self@.state, held, can_drain),
    {
        if !held {
            return DropAction::Nothing;
        }
        match self.state {
            StreamState::Ended => DropAction::Release,
            _ => if !can_drain {
                DropAction::Release
            } else {
                let allow_cancel: bool = match self.state {
                    StreamState::Streaming => true,
                    _ => false,
                };
                DropAction::DrainInBackground { allow_cancel }
            },
        }
    }
}

/// Another handle to the same columns.
fn share(columns: &Arc<Vec<String>>) -> (c: Arc<Vec<String>>)
    ensures
        text::views(c@) == text::views(columns@),
{
    columns.clone()
}

/// Whether enough rows were taken, or none is left, or the query failed.
#[derive(Debug)]
pub enum TakeStep {
    More,
    Done,
    Failed(DataSourceError),
}

/// The rows that were taken after a step, and whether there are enough.
pub open spec fn taken(
    before: Seq<Row>,
    max: int,
    step: StreamStep,
    after: Seq<Row>,
    r: TakeStep,
) -> bool {
    match step {
        StreamStep::Again => after == before && r is More,
        StreamStep::Row(row) => after == before.push(row) && (if before.len() + 1 == max {
            r is Done
        } else {
            r is More
        }),
        StreamStep::Failed(e) => after == before && r == TakeStep::Failed(e),
        StreamStep::End => after == before && r is Done,
    }
}

/// Rows are taken as they come: none is lost or moved, each is added once, behind the others, never
/// more than asked for; and it ends exactly when there are enough, none is left, or the query failed,
/// with its error.
pub proof fn law_rows_are_taken_as_they_come(
    before: Seq<Row>,
    max: int,
    step: StreamStep,
    after: Seq<Row>,
    r: TakeStep,
)
    requires
        before.len() < max,
        taken(before, max, step, after, r),
    ensures
        after.len() <= max,
        before.len() <= after.len() <= before.len() + 1,
        after.take(before.len() as int) == before,
        after.len() == before.len() + 1 <==> step is Row,
        step matches StreamStep::Row(row) ==> after.last() == row,
        r is More <==> step is Again || (step is Row && after.len() < max),
        r is Failed <==> step is Failed,
        step matches StreamStep::Failed(e) ==> r == TakeStep::Failed(e),
{
    assert(after.take(before.len() as int) =~= before);
}

/// Takes rows until there are `max` of them: what a step of the stream means for that.
pub fn take(rows: &mut Vec<Row>, max: usize, step: StreamStep) -> (r: TakeStep)
    requires
        old(rows)@.len() < max,
    ensures
        taken(old(rows)@, max as int, step, final(rows)@, r),
{
    match step {
        StreamStep::Again => TakeStep::More,
        StreamStep::Row(row) => {
            rows.push(row);
            if rows.len() == max {
                TakeStep::Done
            } else {
                TakeStep::More
            }
        },
        StreamStep::Failed(e) => TakeStep::Failed(e),
        StreamStep::End => TakeStep::Done,
    }
}

/// A stream that was ended or aborted never gives a row or an error again.
pub proof fn law_stream_stays_over(
    before: StreamView,
    message: Option<Result<ResultMessage, DataSourceError>>,
    after: StreamView,
    step: StreamStep,
)
    requires
        stepped(before, message, after, step),
        before.state is Ended || before.state is Aborted,
    ensures
        after == before,
        step is End,
{
}

/// Every row that the server sends after it has described the columns comes out, in order, under those
/// columns, and nothing else does.
pub proof fn law_every_row_comes_out(
    states: Seq<StreamView>,
    columns: Arc<Vec<String>>,
    rows: Seq<Vec<Option<String>>>,
    steps: Seq<StreamStep>,
    i: int,
)
    requires
        states.len() == rows.len() + 2,
        steps.len() == rows.len() + 1,
        states[0].state is Streaming,
        stepped(states[0], Some(Ok(ResultMessage::Columns(columns))), states[1], steps[0]),
        forall|k: int|
            0 <= k < rows.len() ==> stepped(
                states[k + 1],
                Some(Ok(ResultMessage::Row(#[trigger] rows[k]))),
                states[k + 2],
                steps[k + 1],
            ),
        0 <= i < rows.len(),
    ensures
        steps[0] is Again,
        steps[i + 1] matches StreamStep::Row(row) && row@ == (RowView {
            columns: text::views(columns@),
            values: opt_views(rows[i]@),
        }),
        states[i + 2] == (StreamView { columns: Some(text::views(columns@)), ..states[0] }),
    decreases i,
{
    if i > 0 {
        law_every_row_comes_out(states, columns, rows, steps, i - 1);
    }
    assert(states[i + 1] == (StreamView { columns: Some(text::views(columns@)), ..states[0] }));
    assert(stepped(
        states[i + 1],
        Some(Ok(ResultMessage::Row(rows[i]))),
        states[i + 2],
        steps[i + 1],
    ));
}

/// A single statement, whatever it affected, is never reported as several: the server's "done"
/// right after its completion ends the stream.
pub proof fn law_single_statement_ends(
    before: StreamView,
    rows_affected: u64,
    middle: StreamView,
    first: StreamStep,
    after: StreamView,
    second: StreamStep,
)
    requires
        before.state is Streaming,
        stepped(
            before,
            Some(Ok(ResultMessage::Complete { rows_affected })),
            middle,
            first,
        ),
        stepped(middle, None, after, second),
    ensures
        first is Again,
        second is End,
        after.state is Ended,
        after.rows_affected == Some(rows_affected),
{
}

/// After a statement is complete, anything but "done" or a message without meaning is an error
/// that aborts the stream: the results of a second statement are never taken for the first one's.
pub proof fn law_second_statement_is_refused(
    before: StreamView,
    message: ResultMessage,
    after: StreamView,
    step: StreamStep,
)
    requires
        before.state is AfterComplete,
        !(message is Ignored),
        stepped(before, Some(Ok(message)), after, step),
    ensures
        after.state is Aborted,
        step matches StreamStep::Failed(e) && is_multi_statement(e),
{
}

/// What a message does to a stream, and no more: a row comes out only of a row that was sent while the
/// result was read, an error only of an error or of a second statement; what is known of the columns
/// changes only where they are described, and the number of rows only where it is told; only the
/// server's "done" ends the stream, and only an error aborts it.
pub proof fn law_messages_do_what_they_say(
    before: StreamView,
    message: Option<Result<ResultMessage, DataSourceError>>,
    after: StreamView,
    step: StreamStep,
)
    requires
        stepped(before, message, after, step),
    ensures
        after.query_id == before.query_id,
        step matches StreamStep::Row(row) ==> before.state is Streaming && (message matches Some(
            Ok(ResultMessage::Row(values)),
        ) && row@.values == opt_views(values@) && row@.columns == before.columns->0),
        before.state is Streaming && (message matches Some(Ok(m)) && m is Row) ==> step is Row,
        step is Failed ==> after.state is Aborted,
        (before.state is Streaming || before.state is AfterComplete) && (message matches Some(r)
            && r is Err) ==> step == StreamStep::Failed(message->0->Err_0),
        after.state is Aborted && !(before.state is Aborted) ==> step is Failed,
        after.state is Ended && !(before.state is Ended) ==> message is None && step is End,
        message is None && !(before.state is Aborted) ==> after.state is Ended,
        after.columns != before.columns ==> (message matches Some(Ok(ResultMessage::Columns(c)))
            && after.columns == Some(text::views(c@))),
        after.rows_affected != before.rows_affected || (after.state is AfterComplete
            && !(before.state is AfterComplete)) ==> (message matches Some(
            Ok(ResultMessage::Complete { rows_affected }),
        ) && after.rows_affected == Some(rows_affected) && after.state is AfterComplete),
        before.state is Streaming && (message matches Some(Ok(m)) && m is Complete) ==> after.state
            is AfterComplete,
{
}

} // verus!
