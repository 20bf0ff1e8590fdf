//! What a worker decides.
use ratwarren::app::run::{Page, QueryOutcome, QueryResponse, RequestId};
use ratwarren::app::worker::{
    cancel_report, page_of, page_sql, query_outcome, retry_on_busy, Rest, Retry,
    BUSY_RETRY_BUDGET_MS, BUSY_RETRY_DELAY_MS, FETCH_LIMIT,
};
use ratwarren::datasource::stream::Row;
use ratwarren::datasource::DataSourceError;
use std::sync::Arc;

fn rows(n: usize) -> Vec<Row> {
    let columns = Arc::new(vec!["a".to_string()]);
    (0..n).map(|i| Row::new(columns.clone(), vec![Some(i.to_string())])).collect()
}

fn columns() -> Option<Vec<String>> {
    Some(vec!["a".to_string()])
}

fn busy() -> DataSourceError {
    DataSourceError::Busy { name: "c".to_string() }
}

#[test]
fn only_a_busy_connection_is_tried_again_and_not_for_ever() {
    assert_eq!((BUSY_RETRY_DELAY_MS, BUSY_RETRY_BUDGET_MS), (20, 10_000));
    assert!(matches!(retry_on_busy::<u8>(Err(busy()), 0), Retry::Again));
    assert!(matches!(retry_on_busy::<u8>(Err(busy()), 9_999), Retry::Again));
    match retry_on_busy::<u8>(Err(busy()), 10_000) {
        Retry::Done(Err(DataSourceError::BusyTimedOut { name, waited_ms })) => {
            assert_eq!((name.as_str(), waited_ms), ("c", 10_000));
        }
        other => panic!("expected a timeout, got {other:?}"),
    }
    assert!(matches!(retry_on_busy(Ok(7u8), 0), Retry::Done(Ok(7))));
    assert!(matches!(
        retry_on_busy::<u8>(Err(DataSourceError::Cancelled), 0),
        Retry::Done(Err(DataSourceError::Cancelled))
    ));
}

#[test]
fn a_page_is_fetched_with_one_row_more_than_it_shows() {
    assert_eq!(
        page_sql("s", "t", 50),
        "SELECT * FROM \"s\".\"t\" LIMIT 51 OFFSET 50"
    );
    let page = page_of(columns(), Ok(rows(2))).unwrap();
    assert_eq!((page.columns.len(), page.rows.len()), (1, 2));
    assert_eq!(page_of(None, Ok(vec![])), Ok(Page { columns: vec![], rows: vec![] }));
    assert_eq!(page_of(columns(), Err(busy())), Err(busy()));
}

#[test]
fn a_statement_without_columns_gives_a_number_of_rows() {
    let (outcome, rest) = query_outcome(None, Some(3), Ok(vec![]));
    assert_eq!(outcome, Ok(QueryOutcome::NoResultSet { rows_affected: 3 }));
    assert_eq!(rest, Rest::Finish);
    let (outcome, _) = query_outcome(Some(vec![]), None, Ok(vec![]));
    assert_eq!(outcome, Ok(QueryOutcome::NoResultSet { rows_affected: 0 }));
}

#[test]
fn a_result_that_reaches_the_limit_is_abandoned() {
    for (n, expected) in [(0, Rest::Finish), (FETCH_LIMIT - 1, Rest::Finish), (FETCH_LIMIT, Rest::Abandon)] {
        let (outcome, rest) = query_outcome(columns(), Some(1), Ok(rows(n)));
        assert_eq!(rest, expected);
        match outcome {
            Ok(QueryOutcome::Rows(page)) => assert_eq!(page.rows.len(), n),
            other => panic!("expected rows, got {other:?}"),
        }
    }
    let (outcome, rest) = query_outcome(columns(), None, Err(busy()));
    assert_eq!((outcome, rest), (Err(busy()), Rest::Finish));
}

#[test]
fn a_cancel_is_reported_only_if_it_failed() {
    assert!(cancel_report(RequestId(1), Ok(())).is_none());
    match cancel_report(RequestId(1), Err(DataSourceError::Cancelled)) {
        Some(QueryResponse::CancelFailed { id, message }) => {
            assert_eq!(id, RequestId(1));
            assert_eq!(message, DataSourceError::Cancelled.message());
        }
        other => panic!("expected a report, got {other:?}"),
    }
}
