//! The connection to the database.
use ratwarren::config::{Connection, SshTunnel};
use ratwarren::datasource::introspect::{relkind_from_str, row_to_column, row_to_schema, row_to_table};
use ratwarren::datasource::postgres::{
    busy, cancel_result, cancel_wanted, explain_sql, explain_text, issue_query_id, map_query_error,
    quote_ident, select_page_sql, AbandonStats, AbandonedDrain, CancelReport, CancelSent,
    ConnectAction, ConnectEvent, ConnectOptions, Connecting, DrainAction, DrainEvent,
    TunnelOutcome,
};
use ratwarren::datasource::{
    Column, DataSourceError, ErrorPosition, PgError, QueryId, Schema, Table, TableKind,
};
use ratwarren::tunnel::TunnelError;

#[test]
fn quote_ident_wraps_in_double_quotes() {
    assert_eq!(quote_ident("foo"), "\"foo\"");
}

#[test]
fn quote_ident_doubles_embedded_quotes() {
    assert_eq!(quote_ident("foo\"bar"), "\"foo\"\"bar\"");
}

#[test]
fn quote_ident_handles_empty_string() {
    assert_eq!(quote_ident(""), "\"\"");
}

#[test]
fn select_page_sql_quotes_identifiers_needing_quoting_and_composes_limit_offset() {
    let sql = select_page_sql("my schema", "my.table\"name", 51, 100);
    assert_eq!(
        sql,
        "SELECT * FROM \"my schema\".\"my.table\"\"name\" LIMIT 51 OFFSET 100"
    );
}

#[test]
fn select_page_sql_with_plain_identifiers() {
    let sql = select_page_sql("public", "users", 51, 0);
    assert_eq!(sql, "SELECT * FROM \"public\".\"users\" LIMIT 51 OFFSET 0");
}

#[test]
fn relkind_maps_known_chars() {
    assert_eq!(relkind_from_str("r").unwrap(), TableKind::Table);
    assert_eq!(relkind_from_str("p").unwrap(), TableKind::PartitionedTable);
    assert_eq!(relkind_from_str("v").unwrap(), TableKind::View);
    assert_eq!(relkind_from_str("m").unwrap(), TableKind::MaterializedView);
    assert_eq!(relkind_from_str("f").unwrap(), TableKind::ForeignTable);
}

#[test]
fn relkind_rejects_unknown_char() {
    let err = relkind_from_str("i").unwrap_err();
    assert!(matches!(
        err,
        DataSourceError::UnexpectedRelkind { kind } if kind == "i"
    ));
}

fn pg(message: &str, code: Option<&str>) -> PgError {
    PgError {
        message: message.to_string(),
        causes: vec![],
        code: code.map(str::to_string),
        position: None,
    }
}

fn connection(tunnel: bool) -> Connection {
    Connection {
        name: "prod".to_string(),
        group: None,
        host: "db".to_string(),
        port: 6543,
        database: "app".to_string(),
        user: "me".to_string(),
        password: None,
        tunnel: if tunnel {
            Some(SshTunnel { host: "bastion".to_string(), user: None, port: None })
        } else {
            None
        },
    }
}

#[test]
fn rows_of_the_catalog_become_values() {
    assert_eq!(
        row_to_schema("public".to_string(), false),
        Schema { name: "public".to_string(), is_system: false }
    );
    assert_eq!(
        row_to_table("t".to_string(), "v"),
        Ok(Table { name: "t".to_string(), kind: TableKind::View })
    );
    assert!(matches!(
        row_to_table("t".to_string(), "S"),
        Err(DataSourceError::UnexpectedRelkind { kind }) if kind == "S"
    ));
    let column: Column =
        row_to_column("c".to_string(), "int4".to_string(), true, None, 2, false);
    assert_eq!((column.ordinal, column.is_nullable), (2, true));
}

#[test]
fn a_connection_without_a_tunnel_is_dialed_where_it_says() {
    let conn = connection(false);
    let options = ConnectOptions::default();
    let mut state = Connecting::Start;
    match state.next(&conn, Some("pw"), &options, ConnectEvent::Begin) {
        ConnectAction::Dial(s) => {
            assert_eq!((s.host.as_str(), s.port), ("db", 6543));
            assert_eq!((s.user.as_str(), s.dbname.as_str()), ("me", "app"));
            assert_eq!(s.password.as_deref(), Some("pw"));
            assert_eq!(s.application_name, "ratwarren");
            assert_eq!(s.connect_timeout_ms, 10_000);
        }
        other => panic!("expected to dial, got {other:?}"),
    }
    match state.next(&conn, None, &options, ConnectEvent::Refused(pg("refused", None))) {
        ConnectAction::Failed(DataSourceError::Connect { name, addr, .. }) => {
            assert_eq!((name.as_str(), addr.as_str()), ("prod", "db:6543"));
        }
        other => panic!("expected a refusal, got {other:?}"),
    }
}

#[test]
fn a_connection_with_a_tunnel_is_dialed_at_its_end() {
    let conn = connection(true);
    let options = ConnectOptions::default();
    let mut state = Connecting::Start;
    match state.next(&conn, None, &options, ConnectEvent::Begin) {
        ConnectAction::OpenTunnel(spec) => assert_eq!(spec.remote_host(), "db"),
        other => panic!("expected to open the tunnel, got {other:?}"),
    }
    assert!(matches!(
        state.next(&conn, None, &options, ConnectEvent::Connected),
        ConnectAction::Wait
    ));
    let opened = ConnectEvent::Tunnel(TunnelOutcome::Opened { local_port: 4000 });
    match state.next(&conn, None, &options, opened) {
        ConnectAction::Dial(s) => {
            assert_eq!((s.host.as_str(), s.port, s.password), ("127.0.0.1", 4000, None));
        }
        other => panic!("expected to dial, got {other:?}"),
    }
    match state.next(&conn, None, &options, ConnectEvent::Connected) {
        ConnectAction::Ready { host, port } => {
            assert_eq!((host.as_str(), port), ("127.0.0.1", 4000));
        }
        other => panic!("expected to be ready, got {other:?}"),
    }
}

#[test]
fn a_refusal_is_put_down_to_a_tunnel_that_died() {
    let conn = connection(true);
    let options = ConnectOptions::default();
    let down = TunnelError::SshExited { status: "255".to_string(), stderr: String::new() };
    for alive in [Ok(()), Err(down.clone())] {
        let mut state = Connecting::Start;
        state.next(&conn, None, &options, ConnectEvent::Begin);
        let opened = ConnectEvent::Tunnel(TunnelOutcome::Opened { local_port: 4000 });
        state.next(&conn, None, &options, opened);
        let refused = ConnectEvent::Refused(pg("refused", None));
        assert!(matches!(
            state.next(&conn, None, &options, refused),
            ConnectAction::CheckTunnel
        ));
        let dead = alive.is_err();
        match state.next(&conn, None, &options, ConnectEvent::TunnelAlive(alive)) {
            ConnectAction::Failed(DataSourceError::TunnelDown { source, .. }) => {
                assert!(dead);
                assert_eq!(source, down);
            }
            ConnectAction::Failed(DataSourceError::Connect { addr, .. }) => {
                assert!(!dead);
                assert_eq!(addr, "127.0.0.1:4000");
            }
            other => panic!("expected a failure, got {other:?}"),
        }
    }
}

#[test]
fn a_tunnel_that_does_not_open_ends_the_connecting() {
    let conn = connection(true);
    let options = ConnectOptions::default();
    let mut state = Connecting::Start;
    state.next(&conn, None, &options, ConnectEvent::Begin);
    match state.next(&conn, None, &options, ConnectEvent::Tunnel(TunnelOutcome::Panicked)) {
        ConnectAction::Failed(e) => {
            assert_eq!(e, DataSourceError::TunnelTaskPanicked { name: "prod".to_string() });
        }
        other => panic!("expected a failure, got {other:?}"),
    }
    let mut state = Connecting::Start;
    state.next(&conn, None, &options, ConnectEvent::Begin);
    let failed = TunnelOutcome::Failed(TunnelError::Wait { cause: "x".to_string() });
    match state.next(&conn, None, &options, ConnectEvent::Tunnel(failed)) {
        ConnectAction::Failed(DataSourceError::Tunnel { name, .. }) => assert_eq!(name, "prod"),
        other => panic!("expected a failure, got {other:?}"),
    }
    let mut bad = connection(true);
    bad.tunnel.as_mut().unwrap().host = "-oProxyCommand=x".to_string();
    let mut state = Connecting::Start;
    assert!(matches!(
        state.next(&bad, None, &options, ConnectEvent::Begin),
        ConnectAction::Failed(DataSourceError::Tunnel { .. })
    ));
}

#[test]
fn a_cancelled_query_is_told_apart_from_one_that_failed() {
    assert_eq!(map_query_error("SELECT 1", pg("x", Some("57014"))), DataSourceError::Cancelled);
    match map_query_error("SELECT 1", pg("x", Some("42601"))) {
        DataSourceError::Query { sql, source } => {
            assert_eq!((sql.as_str(), source.message.as_str()), ("SELECT 1", "x"));
        }
        other => panic!("expected Query, got {other:?}"),
    }
    assert!(matches!(map_query_error("q", pg("x", None)), DataSourceError::Query { .. }));
}

#[test]
fn only_the_active_query_is_cancelled() {
    assert!(cancel_wanted(4, QueryId(4)));
    assert!(!cancel_wanted(5, QueryId(4)));
    assert_eq!(cancel_result("c", 5, CancelSent::Delivered), (true, Ok(())));
    let (pause, failed) = cancel_result("c", 5, CancelSent::Failed(pg("x", None)));
    assert!(!pause);
    assert!(matches!(failed, Err(DataSourceError::CancelFailed { .. })));
    assert_eq!(
        cancel_result("c", 5, CancelSent::TimedOut),
        (true, Err(DataSourceError::CancelTimedOut { name: "c".to_string(), timeout_ms: 5 }))
    );
}

#[test]
fn ids_of_queries_follow_each_other() {
    assert_eq!(issue_query_id(1), (QueryId(1), 2));
    assert_eq!(issue_query_id(u64::MAX), (QueryId(u64::MAX), 0));
}

#[test]
fn a_plan_is_asked_for_and_joined() {
    assert_eq!(explain_sql("SELECT 1"), "EXPLAIN (FORMAT TEXT) SELECT 1");
    assert_eq!(explain_text(&vec![]), "");
    assert_eq!(explain_text(&vec!["a".to_string(), "b".to_string()]), "a\nb");
    assert_eq!(busy("x").message(), "connection \"x\" is busy with another query");
}

#[test]
fn an_abandoned_query_is_cancelled_three_times_at_most_and_released_only_at_its_end() {
    let options = ConnectOptions::default();
    let mut stats = AbandonStats::default();
    let (mut drain, action) = AbandonedDrain::start(QueryId(9), true, &options, &mut stats);
    assert_eq!(action, DrainAction::WaitFor { ms: 100 });
    let reports = [CancelReport::Delivered, CancelReport::Failed, CancelReport::TimedOut];
    let mut after = vec![];
    for report in reports {
        assert_eq!(
            drain.next(DrainEvent::TookTooLong, &options, &mut stats),
            DrainAction::TakeGate
        );
        let gate = DrainEvent::GateTaken { active: 9, elapsed_ms: 130 };
        assert_eq!(
            drain.next(gate, &options, &mut stats),
            DrainAction::SendCancel { timeout_ms: 1_000 }
        );
        after.push(drain.next(DrainEvent::CancelSent(report), &options, &mut stats));
    }
    assert_eq!(
        after,
        vec![
            DrainAction::SettleThenWaitFor { settle_ms: 25, ms: 1_000 },
            DrainAction::WaitFor { ms: 1_000 },
            DrainAction::SettleThenDrainToEnd { settle_ms: 25 },
        ]
    );
    assert_eq!(drain.next(DrainEvent::Drained, &options, &mut stats), DrainAction::Release);
    assert_eq!((stats.abandons(), stats.first_cancels()), (1, 1));
    assert_eq!(stats.first_cancel_delay(), 130);
    assert_eq!(stats.multi_attempt_abandons(), 1);
    assert_eq!((stats.cancel_send_failures(), stats.cancel_timeouts()), (1, 1));
    assert_eq!(stats.cancel_gave_up(), 1);
}

#[test]
fn an_abandoned_query_that_another_has_followed_is_not_cancelled() {
    let options = ConnectOptions::default();
    let mut stats = AbandonStats::default();
    let (mut drain, _) = AbandonedDrain::start(QueryId(9), true, &options, &mut stats);
    drain.next(DrainEvent::TookTooLong, &options, &mut stats);
    let gate = DrainEvent::GateTaken { active: 10, elapsed_ms: 130 };
    assert_eq!(drain.next(gate, &options, &mut stats), DrainAction::DrainToEnd);
    assert_eq!(stats.first_cancels(), 0);
    let (_, action) = AbandonedDrain::start(QueryId(9), false, &options, &mut stats);
    assert_eq!(action, DrainAction::DrainToEnd);
}

#[test]
fn quoted_identifiers_stay_apart() {
    let all = ["a", "a\"", "\"a", "\"", "\"\"", "a\"b", "a\"\"b", ""];
    for x in all {
        for y in all {
            assert_eq!(quote_ident(x) == quote_ident(y), x == y, "{x:?} and {y:?}");
        }
    }
}

#[test]
fn an_error_names_its_causes_and_its_place() {
    let mut source = pg("db error", Some("42601"));
    source.causes = vec!["ERROR: syntax error".to_string()];
    source.position = Some(ErrorPosition::Original(8));
    let e = DataSourceError::Query { sql: "SELECT ?".to_string(), source: source.clone() };
    assert_eq!(e.error_position(), Some(8));
    assert!(e.error_chain().ends_with(": db error: ERROR: syntax error"));
    source.position = Some(ErrorPosition::Internal { position: 3, query: "q".to_string() });
    let e = DataSourceError::Query { sql: "SELECT ?".to_string(), source };
    assert_eq!(e.error_position(), None);
    assert_eq!(DataSourceError::Cancelled.error_position(), None);
}
