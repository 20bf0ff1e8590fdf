//! What a session's worker decides between its calls to the database.
use super::run::{Page, QueryOutcome, QueryResponse, RequestId};
use crate::datasource::stream::Row;
use crate::datasource::{postgres, DataSourceError};
use vstd::prelude::*;

verus! {

/// How many rows of a result are fetched.
pub const FETCH_LIMIT: usize = 51;

/// How long to wait before a busy connection is tried again.
pub const BUSY_RETRY_DELAY_MS: u64 = 20;

/// How long a busy connection is tried.
pub const BUSY_RETRY_BUDGET_MS: u64 = 10_000;

/// How to go on after a call to the database.
#[derive(Debug)]
pub enum Retry<T> {
    /// Wait for [`BUSY_RETRY_DELAY_MS`] and call again.
    Again,
    Done(Result<T, DataSourceError>),
}

/// How to go on after a call to the database.
pub open spec fn retry_of<T>(result: Result<T, DataSourceError>, elapsed_ms: u64) -> Retry<T> {
    match result {
        Err(DataSourceError::Busy { name }) => if elapsed_ms < BUSY_RETRY_BUDGET_MS {
            Retry::Again
        } else {
            Retry::Done(
                Err(DataSourceError::BusyTimedOut { name, waited_ms: BUSY_RETRY_BUDGET_MS }),
            )
        },
        other => Retry::Done(other),
    }
}

/// A call is made again exactly if the connection was busy and ten seconds are not over; after them
/// the user is told which connection was busy, and for how long. Any other result is final, and comes
/// through as it is.
pub proof fn law_only_busy_calls_are_made_again<T>(
    result: Result<T, DataSourceError>,
    elapsed_ms: u64,
)
    ensures
        retry_of(result, elapsed_ms) is Again <==> elapsed_ms < 10_000 && (result matches Err(e)
            && e is Busy),
        !(result matches Err(e) && e is Busy) ==> retry_of(result, elapsed_ms) == Retry::Done(
            result,
        ),
        elapsed_ms >= 10_000 ==> (result matches Err(DataSourceError::Busy { name }) ==> retry_of(
            result,
            elapsed_ms,
        ) == Retry::<T>::Done(Err(DataSourceError::BusyTimedOut { name, waited_ms: 10_000 }))),
{
}

/// Whether a call is made again: only where the connection was busy, and only until the budget is
/// used up.
pub fn retry_on_busy<T>(result: Result<T, DataSourceError>, elapsed_ms: u64) -> (r: Retry<T>)
    ensures
        r == retry_of(result, elapsed_ms),
{
    match result {
        Err(DataSourceError::Busy { name }) => if elapsed_ms < BUSY_RETRY_BUDGET_MS {
            Retry::Again
        } else {
            Retry::Done(
                Err(DataSourceError::BusyTimedOut { name, waited_ms: BUSY_RETRY_BUDGET_MS }),
            )
        },
        other => Retry::Done(other),
    }
}

/// The statement that fetches a page of a table.
pub fn page_sql(schema: &str, table: &str, offset: u64) -> (sql: String)
    ensures
        sql@ == postgres::page_sql_of(schema@, table@, FETCH_LIMIT as u64, offset),
{
    postgres::select_page_sql(schema, table, FETCH_LIMIT as u64, offset)
}

/// The page of a table that was fetched.
pub fn page_of(columns: Option<Vec<String>>, taken: Result<Vec<Row>, DataSourceError>) -> (r: Result<
    Page,
    DataSourceError,
>)
    ensures
        match taken {
            Err(e) => r == Err::<Page, DataSourceError>(e),
            Ok(rows) => r matches Ok(page) && page.rows == rows && match columns {
                Some(c) => page.columns == c,
                None => page.columns@.len() == 0,
            },
        },
{
    match taken {
        Err(e) => Err(e),
        Ok(rows) => Ok(Page { columns: or_none(columns), rows }),
    }
}

fn or_none(columns: Option<Vec<String>>) -> (c: Vec<String>)
    ensures
        match columns {
            Some(given) => c == given,
            None => c@.len() == 0,
        },
{
    match columns {
        Some(c) => c,
        None => Vec::new(),
    }
}

/// What becomes of the rows that were not fetched.
#[derive(Debug, Clone, Copy, PartialEq, Eq, Structural)]
pub enum Rest {
    /// There are none: the stream ends here.
    Finish,
    /// There may be any number: they are left to be drained in the background.
    Abandon,
}

/// What a statement gave, and what becomes of the rows that were not fetched.
pub open spec fn is_outcome(
    columns: Option<Vec<String>>,
    affected: Option<u64>,
    taken: Result<Vec<Row>, DataSourceError>,
    r: (Result<QueryOutcome, DataSourceError>, Rest),
) -> bool {
    match taken {
        Err(e) => r == (Err::<QueryOutcome, DataSourceError>(e), Rest::Finish),
        Ok(rows) => {
            let no_columns = columns is None || columns->0@.len() == 0;
            &&& r.1 == (if rows@.len() < FETCH_LIMIT {
                Rest::Finish
            } else {
                Rest::Abandon
            })
            &&& rows@.len() < FETCH_LIMIT && no_columns ==> r.0 == Ok::<
                QueryOutcome,
                DataSourceError,
            >(QueryOutcome::NoResultSet {
                rows_affected: match affected {
                    Some(n) => n,
                    None => 0,
                },
            })
            &&& !(rows@.len() < FETCH_LIMIT && no_columns) ==> (r.0 matches Ok(
                QueryOutcome::Rows(page),
            ) && page.rows == rows && match columns {
                Some(c) => page.columns == c,
                None => page.columns@.len() == 0,
            })
        },
    }
}

/// No row that was fetched is lost, and no result is taken for another: a statement with columns gives
/// its rows, under them, one without gives the number of rows that it affected; the rest is given up
/// exactly where fifty-one rows or more came. An error comes through as it is.
pub proof fn law_fetched_rows_are_given(
    columns: Option<Vec<String>>,
    affected: Option<u64>,
    taken: Result<Vec<Row>, DataSourceError>,
    r: (Result<QueryOutcome, DataSourceError>, Rest),
)
    requires
        is_outcome(columns, affected, taken, r),
    ensures
        taken matches Err(e) ==> r.0 == Err::<QueryOutcome, DataSourceError>(e),
        taken is Ok ==> r.0 is Ok,
        taken matches Ok(rows) ==> (columns is Some && columns->0@.len() > 0 ==> (r.0 matches Ok(
            QueryOutcome::Rows(page),
        ) && page.rows == rows && page.columns == columns->0)),
        taken matches Ok(rows) ==> (affected matches Some(n) ==> (columns is None && rows@.len() < 51
            ==> r.0 == Ok::<QueryOutcome, DataSourceError>(
            QueryOutcome::NoResultSet { rows_affected: n },
        ))),
        r.0 matches Ok(QueryOutcome::Rows(page)) ==> (taken matches Ok(rows) && page.rows == rows),
        r.1 == Rest::Abandon <==> (taken matches Ok(rows) && rows@.len() >= 51),
{
}

/// What a statement gave. A result that was fetched up to the limit may go on without end, and is
/// abandoned; one without columns is not a result but a number of rows.
pub fn query_outcome(
    columns: Option<Vec<String>>,
    affected: Option<u64>,
    taken: Result<Vec<Row>, DataSourceError>,
) -> (r: (Result<QueryOutcome, DataSourceError>, Rest))
    ensures
        is_outcome(columns, affected, taken, r),
{
    match taken {
        Err(e) => (Err(e), Rest::Finish),
        Ok(rows) => {
            let columns: Vec<String> = or_none(columns);
            if rows.len() < FETCH_LIMIT {
                if columns.len() == 0 {
                    let rows_affected: u64 = match affected {
                        Some(n) => n,
                        None => 0,
                    };
                    (Ok(QueryOutcome::NoResultSet { rows_affected }), Rest::Finish)
                } else {
                    (Ok(QueryOutcome::Rows(Page { columns, rows })), Rest::Finish)
                }
            } else {
                (Ok(QueryOutcome::Rows(Page { columns, rows })), Rest::Abandon)
            }
        },
    }
}

/// What is reported of a cancel: nothing, unless it failed.
pub fn cancel_report(id: RequestId, cancelled: Result<(), DataSourceError>) -> (r: Option<
    QueryResponse,
>)
    ensures
        match cancelled {
            Ok(_) => r is None,
            Err(e) => r matches Some(QueryResponse::CancelFailed { id: i, message }) && i == id
                && message@ == crate::datasource::error_chain_of(e),
        },
{
    match cancelled {
        Ok(_) => None,
        Err(e) => Some(QueryResponse::CancelFailed { id, message: e.error_chain() }),
    }
}

} // verus!
