//! The rows of a query.
use ratwarren::datasource::stream::{
    clear_active, take, DropAction, ResultMessage, Row, RowStream, StreamState, StreamStep,
    TakeStep,
};
use ratwarren::datasource::{DataSourceError, QueryId};
use std::sync::Arc;

type Message = Result<ResultMessage, DataSourceError>;

/// A stream, what the server still sends, and which query is active.
struct Reading {
    stream: RowStream,
    messages: Vec<Message>,
    active: u64,
    polls: usize,
}

fn reading(query_id: u64, messages: Vec<Message>, state: StreamState) -> Reading {
    Reading {
        stream: RowStream::resume(QueryId(query_id), state),
        messages,
        active: query_id,
        polls: 0,
    }
}

fn columns(name: &str) -> Message {
    Ok(ResultMessage::Columns(Arc::new(vec![name.to_string()])))
}

fn row(value: &str) -> Message {
    Ok(ResultMessage::Row(vec![Some(value.to_string())]))
}

fn complete(rows_affected: u64) -> Message {
    Ok(ResultMessage::Complete { rows_affected })
}

impl Reading {
    fn poll(&mut self) -> Option<Message> {
        self.polls += 1;
        if self.messages.is_empty() { None } else { Some(self.messages.remove(0)) }
    }

    fn over(&self) -> bool {
        matches!(self.stream.state(), StreamState::Ended | StreamState::Aborted)
    }

    fn next(&mut self) -> Option<Result<Row, DataSourceError>> {
        loop {
            let message = if self.over() { None } else { self.poll() };
            let step = self.stream.next(message);
            if self.stream.state() == StreamState::Ended {
                self.active = clear_active(self.active, self.stream.query_id());
            }
            match step {
                StreamStep::Again => {}
                StreamStep::Row(row) => return Some(Ok(row)),
                StreamStep::Failed(e) => return Some(Err(e)),
                StreamStep::End => return None,
            }
        }
    }

    fn finish(&mut self) {
        if self.stream.state() == StreamState::Ended {
            return;
        }
        loop {
            let message = self.poll();
            if self.stream.finish(message) {
                self.active = clear_active(self.active, self.stream.query_id());
                return;
            }
        }
    }

    fn drop_without_runtime(self) -> u64 {
        match self.stream.on_drop(true, false) {
            DropAction::Release => clear_active(self.active, self.stream.query_id()),
            other => panic!("nothing else can be done, got {other:?}"),
        }
    }
}

fn is_multi_statement(r: &Option<Result<Row, DataSourceError>>) -> bool {
    matches!(r, Some(Err(DataSourceError::MultipleStatements { method: "execute" })))
}

#[test]
fn drop_mid_iteration_without_draining_clears_active_id() {
    let mut rs = reading(
        7,
        vec![columns("a"), row("1"), row("2"), row("3")],
        StreamState::Streaming,
    );
    assert!(matches!(rs.next(), Some(Ok(_))));
    assert_eq!(rs.active, 7);
    assert_eq!(rs.drop_without_runtime(), 0);
}

#[test]
fn reaching_complete_clears_active_id_and_ends_the_stream() {
    let mut rs = reading(3, vec![columns("a"), complete(5)], StreamState::Streaming);
    assert!(rs.next().is_none());
    assert_eq!(rs.stream.rows_affected(), Some(5));
    assert_eq!(rs.active, 0);
}

#[test]
fn stream_error_clears_active_id_and_is_returned_to_caller() {
    let mut rs = reading(9, vec![Err(DataSourceError::Cancelled)], StreamState::Streaming);
    assert!(matches!(rs.next(), Some(Err(DataSourceError::Cancelled))));
    assert_eq!(rs.drop_without_runtime(), 0);
}

#[test]
fn clear_active_does_not_clobber_a_newer_query_id() {
    let mut rs = reading(1, vec![], StreamState::Streaming);
    rs.active = 42;
    assert_eq!(rs.drop_without_runtime(), 42);
}

#[test]
fn columns_row_complete_then_columns_reports_multiple_statements() {
    let mut rs = reading(
        1,
        vec![columns("a"), row("1"), complete(1), columns("b")],
        StreamState::Streaming,
    );
    assert!(matches!(rs.next(), Some(Ok(_))));
    assert!(is_multi_statement(&rs.next()));
}

#[test]
fn two_completes_in_a_row_reports_multiple_statements() {
    let mut rs = reading(2, vec![complete(0), complete(0)], StreamState::Streaming);
    assert!(is_multi_statement(&rs.next()));
    assert_eq!(rs.stream.state(), StreamState::Aborted);
}

#[test]
fn single_complete_then_stream_end_reaches_ended_not_multiple_statements() {
    let mut rs = reading(3, vec![complete(0)], StreamState::Streaming);
    assert!(rs.next().is_none());
    assert_eq!(rs.stream.state(), StreamState::Ended);
    assert!(rs.next().is_none());
    assert_eq!(rs.active, 0);
}

#[test]
fn after_multiple_statements_error_state_is_aborted_and_next_returns_none() {
    let mut rs = reading(4, vec![complete(0), complete(0)], StreamState::Streaming);
    assert!(is_multi_statement(&rs.next()));
    assert_eq!(rs.stream.state(), StreamState::Aborted);
    assert!(rs.next().is_none());
}

#[test]
fn finish_drains_remaining_messages_from_streaming_and_reaches_ended() {
    let mut rs = reading(11, vec![columns("a"), row("1"), complete(1)], StreamState::Streaming);
    rs.finish();
    assert_eq!(rs.stream.state(), StreamState::Ended);
    assert_eq!(rs.active, 0);
}

#[test]
fn finish_from_after_complete_with_no_more_messages_reaches_ended() {
    let mut rs = reading(12, vec![], StreamState::AfterComplete);
    rs.finish();
    assert_eq!(rs.stream.state(), StreamState::Ended);
    assert_eq!(rs.active, 0);
}

#[test]
fn finish_from_aborted_drains_remaining_wire_bytes_and_reaches_ended() {
    let mut rs = reading(13, vec![row("leftover"), complete(0)], StreamState::Aborted);
    rs.finish();
    assert_eq!(rs.stream.state(), StreamState::Ended);
    assert_eq!(rs.active, 0);
    assert_eq!(rs.polls, 3);
}

#[test]
fn finish_on_an_already_ended_stream_is_a_no_op() {
    let mut rs = reading(14, vec![], StreamState::Ended);
    rs.finish();
    assert_eq!(rs.stream.state(), StreamState::Ended);
    assert_eq!(rs.active, 14);
}

#[test]
fn finish_from_aborted_breaks_on_a_stream_that_yields_err_forever() {
    let messages = (0..100).map(|_| Err(DataSourceError::Cancelled)).collect();
    let mut rs = reading(20, messages, StreamState::Aborted);
    rs.finish();
    assert_eq!(rs.polls, 1);
    assert_eq!(rs.stream.state(), StreamState::Ended);
    assert_eq!(rs.active, 0);
}

#[test]
fn take_stops_early_on_none_and_collects_available_rows() {
    let mut rs = reading(1, vec![columns("a"), row("1"), complete(1)], StreamState::Streaming);
    let mut rows: Vec<Row> = vec![];
    loop {
        let message = rs.poll();
        match take(&mut rows, 50, rs.stream.next(message)) {
            TakeStep::More => {}
            TakeStep::Done => break,
            TakeStep::Failed(e) => panic!("no error in this fixture, got {e:?}"),
        }
    }
    assert_eq!(rows.len(), 1);
    assert_eq!(rows[0].get(0), Some("1"));
}

#[test]
fn take_stops_at_its_limit() {
    let mut rs = reading(1, vec![columns("a"), row("1"), row("2")], StreamState::Streaming);
    let mut rows: Vec<Row> = vec![];
    let mut steps = 0;
    loop {
        steps += 1;
        let message = rs.poll();
        if let TakeStep::Done = take(&mut rows, 1, rs.stream.next(message)) {
            break;
        }
    }
    assert_eq!((rows.len(), steps), (1, 2));
}

#[test]
fn a_row_knows_its_columns() {
    let row = Row::new(
        Arc::new(vec!["a".to_string(), "b".to_string()]),
        vec![Some("1".to_string()), None],
    );
    assert_eq!(row.columns(), &["a".to_string(), "b".to_string()]);
    assert_eq!((row.len(), row.is_empty()), (2, false));
    assert_eq!((row.get(0), row.get(1), row.get(2)), (Some("1"), None, None));
    assert_eq!((row.index_of("b"), row.index_of("c")), (Some(1), None));
    assert_eq!(row.into_values(), vec![Some("1".to_string()), None]);
}

#[test]
fn only_a_query_that_still_runs_may_be_cancelled_when_its_stream_is_dropped() {
    let cases = [
        (StreamState::Streaming, true),
        (StreamState::AfterComplete, false),
        (StreamState::Aborted, false),
    ];
    for (state, allow_cancel) in cases {
        let rs = RowStream::resume(QueryId(1), state);
        assert_eq!(rs.on_drop(true, true), DropAction::DrainInBackground { allow_cancel });
        assert_eq!(rs.on_drop(true, false), DropAction::Release);
        assert_eq!(rs.on_drop(false, true), DropAction::Nothing);
    }
    let ended = RowStream::resume(QueryId(1), StreamState::Ended);
    assert_eq!(ended.on_drop(true, true), DropAction::Release);
    let fresh = RowStream::new(QueryId(5));
    assert_eq!((fresh.query_id(), fresh.state()), (QueryId(5), StreamState::Streaming));
    assert!(fresh.columns().is_none());
}
