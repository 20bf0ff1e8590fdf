//! The Postgres connection: how it is made, what is sent over it, and how a query is given up.
use super::{DataSourceError, PgError, QueryId};
use crate::config::Connection;
use crate::text;
use crate::tunnel::{TunnelError, TunnelOptions, TunnelSpec};
use vstd::prelude::*;

verus! {

/// How to connect, and how patient to be with the server; times are in milliseconds.
///
/// `cancel_settle_ms` is a pause after a cancel request: the server never says whether one has
/// arrived, and one that arrives late hits the next query. `abandon_cancel_timeout_ms` bounds each
/// of the cancel requests for a query that was given up.
#[derive(Debug, Clone, PartialEq, Eq)]
pub struct ConnectOptions {
    pub connect_timeout_ms: u64,
    pub application_name: String,
    pub tunnel: TunnelOptions,
    pub cancel_timeout_ms: u64,
    pub abandon_grace_ms: u64,
    pub cancel_settle_ms: u64,
    pub abandon_cancel_timeout_ms: u64,
    pub cancel_escalate_ms: u64,
}

impl Default for ConnectOptions {
    fn default() -> (o: Self)
        ensures
            o.connect_timeout_ms == 10_000,
            o.application_name@ == "ratwarren"@,
            o.tunnel.ssh_program@ == "ssh"@,
            o.tunnel.ready_timeout_ms == crate::tunnel::DEFAULT_READY_TIMEOUT_MS,
            o.tunnel.probe_interval_ms == crate::tunnel::DEFAULT_PROBE_INTERVAL_MS,
            o.tunnel.probe_connect_timeout_ms == crate::tunnel::DEFAULT_PROBE_CONNECT_TIMEOUT_MS,
            o.tunnel.port_attempts == crate::tunnel::DEFAULT_PORT_ATTEMPTS,
            o.cancel_timeout_ms == 5_000,
            o.abandon_grace_ms == 100,
            o.cancel_settle_ms == 25,
            o.abandon_cancel_timeout_ms == 1_000,
            o.cancel_escalate_ms == 1_000,
    {
        ConnectOptions {
            connect_timeout_ms: 10_000,
            application_name: "ratwarren".to_owned(),
            tunnel: TunnelOptions::default(),
            cancel_timeout_ms: 5_000,
            abandon_grace_ms: 100,
            cancel_settle_ms: 25,
            abandon_cancel_timeout_ms: 1_000,
            cancel_escalate_ms: 1_000,
        }
    }
}

/// How to reach the server of a connection.
#[derive(Debug, Clone, PartialEq, Eq)]
pub enum Dial {
    Direct { host: String, port: u16 },
    ThroughTunnel(TunnelSpec),
}

/// How the opening of a connection's tunnel ended.
#[derive(Debug, Clone, PartialEq, Eq)]
pub enum TunnelOutcome {
    Opened { local_port: u16 },
    Failed(TunnelError),
    Panicked,
}

/// What the driver needs to connect; the time is in milliseconds.
#[derive(Debug, Clone, PartialEq, Eq)]
pub struct PgSettings {
    pub host: String,
    pub port: u16,
    pub user: String,
    pub dbname: String,
    pub application_name: String,
    pub connect_timeout_ms: u64,
    pub password: Option<String>,
}

/// How to reach the server: directly, or through the connection's tunnel if it has one.
pub fn plan_dial(conn: &Connection) -> (r: Result<Dial, DataSourceError>)
    ensures
        match conn@.tunnel {
            None => r matches Ok(Dial::Direct { host, port }) && host@ == conn@.host && port
                == conn@.port,
            Some(t) => match crate::tunnel::parts_fault(t, conn@.host, conn@.port) {
                Some(fault) => r matches Err(DataSourceError::Tunnel { name, source }) && name@
                    == conn@.name && crate::tunnel::is_invalid_field(source, conn@.name, fault),
                None => r matches Ok(Dial::ThroughTunnel(spec)) && spec@ == (
                crate::tunnel::TunnelSpecView {
                    name: conn@.name,
                    ssh_host: t.host,
                    ssh_user: t.user,
                    ssh_port: t.port,
                    remote_host: conn@.host,
                    remote_port: conn@.port,
                }),
            },
        },
{
    match TunnelSpec::from_connection(conn) {
        Err(source) => Err(DataSourceError::Tunnel { name: conn.name.clone(), source }),
        Ok(Some(spec)) => Ok(Dial::ThroughTunnel(spec)),
        Ok(None) => Ok(Dial::Direct { host: conn.host.clone(), port: conn.port }),
    }
}

/// The address to dial once the tunnel is open, or why there is none.
pub fn dial_tunnel(name: &str, outcome: TunnelOutcome) -> (r: Result<
    (String, u16),
    DataSourceError,
>)
    ensures
        match outcome {
            TunnelOutcome::Opened { local_port } => r matches Ok((host, port)) && host@
                == "127.0.0.1"@ && port == local_port,
            TunnelOutcome::Failed(e) => r matches Err(DataSourceError::Tunnel { name: n, source })
                && n@ == name@ && source == e,
            TunnelOutcome::Panicked => r matches Err(
                DataSourceError::TunnelTaskPanicked { name: n },
            ) && n@ == name@,
        },
{
    match outcome {
        TunnelOutcome::Opened { local_port } => Ok(("127.0.0.1".to_owned(), local_port)),
        TunnelOutcome::Failed(source) => Err(
            DataSourceError::Tunnel { name: name.to_owned(), source },
        ),
        TunnelOutcome::Panicked => Err(
            DataSourceError::TunnelTaskPanicked { name: name.to_owned() },
        ),
    }
}

/// What the driver needs to connect to the dialed address.
pub fn pg_settings(
    conn: &Connection,
    password: Option<&str>,
    options: &ConnectOptions,
    host: &str,
    port: u16,
) -> (s: PgSettings)
    ensures
        dials(s, conn@, password, *options, host@, port),
{
    let password: Option<String> = match password {
        Some(p) => Some(p.to_owned()),
        None => None,
    };
    PgSettings {
        host: host.to_owned(),
        port,
        user: conn.user.clone(),
        dbname: conn.database.clone(),
        application_name: options.application_name.clone(),
        connect_timeout_ms: options.connect_timeout_ms,
        password,
    }
}

/// The error for a server that could not be reached. Where a tunnel was used, `tunnel_alive` says
/// how it is doing: one that has died is the cause to report.
pub fn connect_failure(
    name: &str,
    host: &str,
    port: u16,
    source: PgError,
    tunnel_alive: Option<Result<(), TunnelError>>,
) -> (e: DataSourceError)
    ensures
        match tunnel_alive {
            Some(Err(down)) => e matches DataSourceError::TunnelDown { name: n, source: t } && n@
                == name@ && t == down,
            _ => e matches DataSourceError::Connect { name: n, addr, source: s } && n@ == name@
                && addr@ == host@ + ":"@ + text::decimal(port as nat) && s == source,
        },
{
    match tunnel_alive {
        Some(Err(down)) => DataSourceError::TunnelDown { name: name.to_owned(), source: down },
        _ => {
            let mut addr: String = host.to_owned();
            addr.append(":");
            addr.append(text::decimal_string(port as u64).as_str());
            DataSourceError::Connect { name: name.to_owned(), addr, source }
        },
    }
}

/// What is reported while a connection is made.
#[derive(Debug)]
pub enum ConnectEvent {
    Begin,
    /// How the opening of the tunnel ended.
    Tunnel(TunnelOutcome),
    Connected,
    Refused(PgError),
    /// How the tunnel is doing.
    TunnelAlive(Result<(), TunnelError>),
}

/// What to do next to make a connection.
#[derive(Debug)]
pub enum ConnectAction {
    OpenTunnel(TunnelSpec),
    Dial(PgSettings),
    /// Ask how the tunnel is doing.
    CheckTunnel,
    /// The connection is made, to that address.
    Ready { host: String, port: u16 },
    Failed(DataSourceError),
    /// The event was not expected; go on waiting.
    Wait,
}

/// How far the making of a connection has come.
#[derive(Debug)]
pub enum Connecting {
    Start,
    OpeningTunnel,
    Dialing { host: String, port: u16, tunnel: bool },
    /// The server refused; the tunnel is asked before it is blamed.
    CheckingTunnel { host: String, port: u16, source: PgError },
    Over,
}

/// Whether the settings are those for a connection at an address.
pub open spec fn dials(
    s: PgSettings,
    conn: crate::config::ConnectionView,
    password: Option<&str>,
    options: ConnectOptions,
    host: Seq<char>,
    port: u16,
) -> bool {
    &&& s.host@ == host
    &&& s.port == port
    &&& s.user@ == conn.user
    &&& s.dbname@ == conn.database
    &&& s.application_name@ == options.application_name@
    &&& s.connect_timeout_ms == options.connect_timeout_ms
    &&& s.password is Some <==> password is Some
    &&& s.password is Some ==> s.password->0@ == password->0@
}

/// Whether the connection is made to an address from here.
pub open spec fn dialing(
    after: Connecting,
    action: ConnectAction,
    conn: crate::config::ConnectionView,
    password: Option<&str>,
    options: ConnectOptions,
    host: Seq<char>,
    port: u16,
    tunnel: bool,
) -> bool {
    &&& after matches Connecting::Dialing { host: h, port: p, tunnel: t } && h@ == host && p
        == port && t == tunnel
    &&& action matches ConnectAction::Dial(s) && dials(s, conn, password, options, host, port)
}

/// How the making of a connection goes on. A connection with a tunnel is dialed at the tunnel's end,
/// any other one where it says; a refusal is put down to the tunnel if that has died.
pub open spec fn connecting(
    before: Connecting,
    conn: crate::config::ConnectionView,
    password: Option<&str>,
    options: ConnectOptions,
    event: ConnectEvent,
    after: Connecting,
    action: ConnectAction,
) -> bool {
    match (before, event) {
        (Connecting::Start, ConnectEvent::Begin) => match conn.tunnel {
            None => dialing(
                after,
                action,
                conn,
                password,
                options,
                conn.host,
                conn.port,
                false,
            ),
            Some(t) => match crate::tunnel::parts_fault(t, conn.host, conn.port) {
                Some(fault) => {
                    &&& after is Over
                    &&& action matches ConnectAction::Failed(
                        DataSourceError::Tunnel { name, source },
                    ) && name@ == conn.name && crate::tunnel::is_invalid_field(
                        source,
                        conn.name,
                        fault,
                    )
                },
                None => {
                    &&& after is OpeningTunnel
                    &&& action matches ConnectAction::OpenTunnel(spec) && spec@ == (
                    crate::tunnel::TunnelSpecView {
                        name: conn.name,
                        ssh_host: t.host,
                        ssh_user: t.user,
                        ssh_port: t.port,
                        remote_host: conn.host,
                        remote_port: conn.port,
                    })
                },
            },
        },
        (Connecting::OpeningTunnel, ConnectEvent::Tunnel(outcome)) => match outcome {
            TunnelOutcome::Opened { local_port } => dialing(
                after,
                action,
                conn,
                password,
                options,
                "127.0.0.1"@,
                local_port,
                true,
            ),
            TunnelOutcome::Failed(e) => {
                &&& after is Over
                &&& action matches ConnectAction::Failed(DataSourceError::Tunnel { name, source })
                    && name@ == conn.name && source == e
            },
            TunnelOutcome::Panicked => {
                &&& after is Over
                &&& action matches ConnectAction::Failed(
                    DataSourceError::TunnelTaskPanicked { name },
                ) && name@ == conn.name
            },
        },
        (Connecting::Dialing { host, port, tunnel }, ConnectEvent::Connected) => {
            &&& after is Over
            &&& action == (ConnectAction::Ready { host, port })
        },
        (Connecting::Dialing { host, port, tunnel }, ConnectEvent::Refused(source)) => if tunnel {
            &&& after == (Connecting::CheckingTunnel { host, port, source })
            &&& action is CheckTunnel
        } else {
            &&& after is Over
            &&& action matches ConnectAction::Failed(e) && is_refusal(
                e,
                conn.name,
                host@,
                port,
                source,
            )
        },
        (
            Connecting::CheckingTunnel { host, port, source },
            ConnectEvent::TunnelAlive(alive),
        ) => {
            &&& after is Over
            &&& action matches ConnectAction::Failed(e) && match alive {
                Ok(_) => is_refusal(e, conn.name, host@, port, source),
                Err(down) => e matches DataSourceError::TunnelDown { name, source: t } && name@
                    == conn.name && t == down,
            }
        },
        _ => after == before && action is Wait,
    }
}

/// Whether the error says that the server at an address refused.
pub open spec fn is_refusal(
    e: DataSourceError,
    name: Seq<char>,
    host: Seq<char>,
    port: u16,
    source: PgError,
) -> bool {
    e matches DataSourceError::Connect { name: n, addr, source: s } && n@ == name && addr@ == host
        + ":"@ + text::decimal(port as nat) && s == source
}

/// A connection with a tunnel is never dialed but through it: not before it is open, and then at its
/// own end.
pub proof fn law_tunnel_is_never_bypassed(
    before: Connecting,
    conn: crate::config::ConnectionView,
    password: Option<&str>,
    options: ConnectOptions,
    event: ConnectEvent,
    after: Connecting,
    action: ConnectAction,
)
    requires
        conn.tunnel is Some,
        connecting(before, conn, password, options, event, after, action),
    ensures
        action matches ConnectAction::Dial(s) ==> s.host@ == "127.0.0.1"@ && event == (
        ConnectEvent::Tunnel(TunnelOutcome::Opened { local_port: s.port })),
{
}

/// A connection is dialed as it is configured: as its user, to its database, with the password that was
/// found, and without a tunnel at its own host and port.
pub proof fn law_a_connection_is_dialed_as_configured(
    before: Connecting,
    conn: crate::config::ConnectionView,
    password: Option<&str>,
    options: ConnectOptions,
    event: ConnectEvent,
    after: Connecting,
    action: ConnectAction,
)
    requires
        connecting(before, conn, password, options, event, after, action),
    ensures
        action matches ConnectAction::Dial(s) ==> {
            &&& s.user@ == conn.user
            &&& s.dbname@ == conn.database
            &&& s.application_name@ == options.application_name@
            &&& s.connect_timeout_ms == options.connect_timeout_ms
            &&& s.password is Some <==> password is Some
            &&& s.password matches Some(p) ==> p@ == password->0@
            &&& conn.tunnel is None && before is Start ==> s.host@ == conn.host && s.port
                == conn.port
            &&& after matches Connecting::Dialing { host, port, tunnel } && host@ == s.host@ && port
                == s.port
        },
{
}

/// A connection is made only when the server has accepted it, and at the address that was dialed; once
/// it is made or has failed, nothing more is done. Only an event that answers what was asked for has
/// an effect.
pub proof fn law_a_connection_is_made_when_accepted(
    before: Connecting,
    conn: crate::config::ConnectionView,
    password: Option<&str>,
    options: ConnectOptions,
    event: ConnectEvent,
    after: Connecting,
    action: ConnectAction,
)
    requires
        connecting(before, conn, password, options, event, after, action),
    ensures
        action is Ready <==> before is Dialing && event is Connected,
        before matches Connecting::Dialing { host, port, tunnel } ==> (
        action matches ConnectAction::Ready { host: h, port: p } ==> h == host && p == port),
        action is Ready || action is Failed ==> after is Over,
        before is Over ==> action is Wait && after is Over,
        action is Wait ==> after == before,
        before is Start && event is Begin || before is OpeningTunnel && event is Tunnel || before
            is Dialing && (event is Connected || event is Refused) || before is CheckingTunnel
            && event is TunnelAlive ==> !(action is Wait),
{
}

/// The connection that an error is about.
pub open spec fn blamed_connection(e: DataSourceError) -> Option<Seq<char>> {
    match e {
        DataSourceError::Tunnel { name, source } => Some(name@),
        DataSourceError::TunnelDown { name, source } => Some(name@),
        DataSourceError::TunnelTaskPanicked { name } => Some(name@),
        DataSourceError::Connect { name, addr, source } => Some(name@),
        _ => None,
    }
}

/// Whether an address is a host, a colon, and the digits of a port.
pub open spec fn is_address(addr: Seq<char>, host: Seq<char>, port: int, digits: Seq<char>) -> bool {
    addr == host + seq![':'] + digits && text::is_number(digits) && text::number_of(digits) == port
}

/// A connection that is not made fails with an error about it. The server is blamed, at the address
/// that was dialed and with what it said, where it refused and no tunnel has died; a tunnel that has
/// died is blamed itself.
pub proof fn law_a_refusal_is_put_down_to_its_cause(
    before: Connecting,
    conn: crate::config::ConnectionView,
    password: Option<&str>,
    options: ConnectOptions,
    event: ConnectEvent,
    after: Connecting,
    action: ConnectAction,
)
    requires
        connecting(before, conn, password, options, event, after, action),
    ensures
        action matches ConnectAction::Failed(e) ==> blamed_connection(e) == Some(conn.name),
        before matches Connecting::CheckingTunnel { host, port, source } ==> (
        event matches ConnectEvent::TunnelAlive(Err(down)) ==> (
        action matches ConnectAction::Failed(DataSourceError::TunnelDown { name, source: t }) && t
            == down)),
        before matches Connecting::CheckingTunnel { host, port, source } ==> (
        event matches ConnectEvent::TunnelAlive(Ok(_)) ==> (action matches ConnectAction::Failed(
            DataSourceError::Connect { name, addr, source: s },
        ) && s == source && exists|digits: Seq<char>| #[trigger]
            is_address(addr@, host@, port as int, digits))),
        before matches Connecting::Dialing { host, port, tunnel } ==> (
        event matches ConnectEvent::Refused(source) ==> (!tunnel ==> (
        action matches ConnectAction::Failed(DataSourceError::Connect { name, addr, source: s })
            && s == source && exists|digits: Seq<char>| #[trigger]
            is_address(addr@, host@, port as int, digits)))),
        before matches Connecting::Dialing { host, port, tunnel } ==> (event is Refused && tunnel
            ==> action is CheckTunnel && after is CheckingTunnel),
{
    if before is Dialing {
        lemma_address(before->Dialing_host@, before->Dialing_port);
    }
    if before is CheckingTunnel {
        lemma_address(before->CheckingTunnel_host@, before->CheckingTunnel_port);
    }
}

proof fn lemma_address(host: Seq<char>, port: u16)
    ensures
        is_address(
            host + ":"@ + text::decimal(port as nat),
            host,
            port as int,
            text::decimal(port as nat),
        ),
{
    reveal_strlit(":");
    text::law_decimal_reads_back(port as nat);
    assert(":"@ =~= seq![':']);
}

impl Connecting {
    /// Takes up an event, and says what to do next.
    pub fn next(
        &mut self,
        conn: &Connection,
        password: Option<&str>,
        options: &ConnectOptions,
        event: ConnectEvent,
    ) -> (action: ConnectAction)
        ensures
            connecting(*old(self), conn@, password, *options, event, *final(self), action),
    {
        let mut before: Connecting = Connecting::Over;
        std::mem::swap(self, &mut before);
        match (before, event) {
            (Connecting::Start, ConnectEvent::Begin) => match plan_dial(conn) {
                Err(e) => ConnectAction::Failed(e),
                Ok(Dial::ThroughTunnel(spec)) => {
                    *self = Connecting::OpeningTunnel;
                    ConnectAction::OpenTunnel(spec)
                },
                Ok(Dial::Direct { host, port }) => self.dial(
                    conn,
                    password,
                    options,
                    host,
                    port,
                    false,
                ),
            },
            (Connecting::OpeningTunnel, ConnectEvent::Tunnel(outcome)) => match dial_tunnel(
                conn.name.as_str(),
                outcome,
            ) {
                Err(e) => ConnectAction::Failed(e),
                Ok((host, port)) => self.dial(conn, password, options, host, port, true),
            },
            (Connecting::Dialing { host, port, tunnel }, ConnectEvent::Connected) => {
                ConnectAction::Ready { host, port }
            },
            (Connecting::Dialing { host, port, tunnel }, ConnectEvent::Refused(source)) => {
                if tunnel {
                    *self = Connecting::CheckingTunnel { host, port, source };
                    ConnectAction::CheckTunnel
                } else {
                    ConnectAction::Failed(
                        connect_failure(conn.name.as_str(), host.as_str(), port, source, None),
                    )
                }
            },
            (
                Connecting::CheckingTunnel { host, port, source },
                ConnectEvent::TunnelAlive(alive),
            ) => ConnectAction::Failed(
                connect_failure(conn.name.as_str(), host.as_str(), port, source, Some(alive)),
            ),
            (other, _) => {
                *self = other;
                ConnectAction::Wait
            },
        }
    }

    fn dial(
        &mut self,
        conn: &Connection,
        password: Option<&str>,
        options: &ConnectOptions,
        host: String,
        port: u16,
        tunnel: bool,
    ) -> (action: ConnectAction)
        ensures
            dialing(
                *final(self),
                action,
                conn@,
                password,
                *options,
                host@,
                port,
                tunnel,
            ),
    {
        let settings: PgSettings = pg_settings(conn, password, options, host.as_str(), port);
        *self = Connecting::Dialing { host, port, tunnel };
        ConnectAction::Dial(settings)
    }
}

/// The error for a connection that another query is using.
pub fn busy(name: &str) -> (e: DataSourceError)
    ensures
        e matches DataSourceError::Busy { name: n } && n@ == name@,
{
    DataSourceError::Busy { name: name.to_owned() }
}

/// The server's code for a query that was cancelled.
pub const QUERY_CANCELED: &'static str = "57014";

/// Whether `e` is the error of a query that the server refused with `source`.
pub open spec fn is_query_error(sql: Seq<char>, source: PgError, e: DataSourceError) -> bool {
    if source.code is Some && source.code->0@ == QUERY_CANCELED@ {
        e is Cancelled
    } else {
        e matches DataSourceError::Query { sql: s, source: p } && s@ == sql && p == source
    }
}

/// A query counts as cancelled exactly if the server says so, by its code; else nothing of what the
/// server said is lost.
pub proof fn law_only_the_servers_code_means_cancelled(
    sql: Seq<char>,
    source: PgError,
    e: DataSourceError,
)
    requires
        is_query_error(sql, source, e),
    ensures
        e is Cancelled <==> (source.code matches Some(code) && code@ == "57014"@),
        !(e is Cancelled) ==> (e matches DataSourceError::Query { sql: s, source: p } && s@ == sql
            && p == source),
{
}

/// The error of a query: a cancelled one is told apart from one that failed.
pub fn map_query_error(sql: &str, source: PgError) -> (e: DataSourceError)
    ensures
        is_query_error(sql@, source, e),
{
    let cancelled: bool = match &source.code {
        Some(code) => text::same_text(code.as_str(), QUERY_CANCELED),
        None => false,
    };
    if cancelled {
        DataSourceError::Cancelled
    } else {
        DataSourceError::Query { sql: sql.to_owned(), source }
    }
}

/// The next query's number, and the one after it.
pub fn issue_query_id(next_id: u64) -> (r: (QueryId, u64))
    ensures
        r.0 == QueryId(next_id),
        r.1 == (if next_id == u64::MAX {
            0
        } else {
            (next_id + 1) as u64
        }),
        r.1 != r.0.0,
{
    (
        QueryId(next_id),
        if next_id == u64::MAX {
            0
        } else {
            next_id + 1
        },
    )
}

/// The statement that asks for a query's plan.
pub fn explain_sql(sql: &str) -> (s: String)
    ensures
        s@ == "EXPLAIN (FORMAT TEXT) "@ + sql@,
{
    let mut s: String = "EXPLAIN (FORMAT TEXT) ".to_owned();
    s.append(sql);
    s
}

/// The lines of a plan as one text.
pub fn explain_text(lines: &Vec<String>) -> (s: String)
    ensures
        s@ == (if lines@.len() == 0 {
            Seq::empty()
        } else {
            text::joined(text::views(lines@))
        }),
{
    if lines.len() == 0 {
        String::new()
    } else {
        text::join_lines(lines)
    }
}

/// How a cancel request ended.
#[derive(Debug, Clone, PartialEq, Eq)]
pub enum CancelSent {
    Delivered,
    Failed(PgError),
    TimedOut,
}

/// Whether a cancel request for a query is still to be sent: only while that query is active.
pub fn cancel_wanted(active: u64, query: QueryId) -> (wanted: bool)
    ensures
        wanted == (active == query.0),
{
    active == query.0
}

/// Whether `r` is what a cancel request came to, and whether to pause after it.
pub open spec fn is_cancel_result(
    name: Seq<char>,
    timeout_ms: u64,
    sent: CancelSent,
    r: (bool, Result<(), DataSourceError>),
) -> bool {
    match sent {
        CancelSent::Delivered => r.0 && r.1 is Ok,
        CancelSent::Failed(e) => !r.0 && (r.1 matches Err(
            DataSourceError::CancelFailed { name: n, source },
        ) && n@ == name && source == e),
        CancelSent::TimedOut => r.0 && (r.1 matches Err(
            DataSourceError::CancelTimedOut { name: n, timeout_ms: t },
        ) && n@ == name && t == timeout_ms),
    }
}

/// A cancel succeeds exactly if its request was delivered. There is a pause after every request that
/// may have reached the server, one that timed out among them, and none after one that failed.
pub proof fn law_a_pause_follows_what_may_have_arrived(
    name: Seq<char>,
    timeout_ms: u64,
    sent: CancelSent,
    r: (bool, Result<(), DataSourceError>),
)
    requires
        is_cancel_result(name, timeout_ms, sent, r),
    ensures
        r.1 is Ok <==> sent is Delivered,
        r.0 <==> sent is Delivered || sent is TimedOut,
        r.1 matches Err(DataSourceError::CancelFailed { name: n, source }) ==> sent
            == CancelSent::Failed(source),
        r.1 is Err ==> r.1->Err_0 is CancelFailed || r.1->Err_0 is CancelTimedOut,
{
}

/// What a cancel request came to, and whether to pause before the connection is used again: after
/// one that was not delivered there is nothing to wait for.
pub fn cancel_result(name: &str, timeout_ms: u64, sent: CancelSent) -> (r: (
    bool,
    Result<(), DataSourceError>,
))
    ensures
        is_cancel_result(name@, timeout_ms, sent, r),
{
    match sent {
        CancelSent::Delivered => (true, Ok(())),
        CancelSent::Failed(source) => (
            false,
            Err(DataSourceError::CancelFailed { name: name.to_owned(), source }),
        ),
        CancelSent::TimedOut => (
            true,
            Err(DataSourceError::CancelTimedOut { name: name.to_owned(), timeout_ms }),
        ),
    }
}

pub const ABANDON_MAX_CANCEL_ATTEMPTS: u32 = 3;

/// Counts of what became of queries that were given up before they were read to the end.
#[derive(Debug, Clone, Copy, PartialEq, Eq, Structural)]
pub struct AbandonStats {
    pub abandons: u64,
    pub first_cancels: u64,
    pub first_cancel_delay_ms: u64,
    pub multi_attempt_abandons: u64,
    pub cancel_send_failures: u64,
    pub cancel_timeouts: u64,
    pub cancel_gave_up: u64,
}

impl Default for AbandonStats {
    fn default() -> (s: Self)
        ensures
            s == (AbandonStats {
                abandons: 0,
                first_cancels: 0,
                first_cancel_delay_ms: 0,
                multi_attempt_abandons: 0,
                cancel_send_failures: 0,
                cancel_timeouts: 0,
                cancel_gave_up: 0,
            }),
    {
        AbandonStats {
            abandons: 0,
            first_cancels: 0,
            first_cancel_delay_ms: 0,
            multi_attempt_abandons: 0,
            cancel_send_failures: 0,
            cancel_timeouts: 0,
            cancel_gave_up: 0,
        }
    }
}

/// One more; a counter starts again at 0.
pub open spec fn bumped(n: u64) -> u64 {
    if n == u64::MAX {
        0
    } else {
        (n + 1) as u64
    }
}

fn bump(n: u64) -> (r: u64)
    ensures
        r == bumped(n),
{
    if n == u64::MAX {
        0
    } else {
        n + 1
    }
}

impl AbandonStats {
    pub fn abandons(&self) -> (n: u64)
        ensures
            n == self.abandons,
    {
        self.abandons
    }

    pub fn first_cancels(&self) -> (n: u64)
        ensures
            n == self.first_cancels,
    {
        self.first_cancels
    }

    /// The time from giving up to the first cancel request, in milliseconds.
    pub fn first_cancel_delay(&self) -> (ms: u64)
        ensures
            ms == self.first_cancel_delay_ms,
    {
        self.first_cancel_delay_ms
    }

    pub fn multi_attempt_abandons(&self) -> (n: u64)
        ensures
            n == self.multi_attempt_abandons,
    {
        self.multi_attempt_abandons
    }

    pub fn cancel_send_failures(&self) -> (n: u64)
        ensures
            n == self.cancel_send_failures,
    {
        self.cancel_send_failures
    }

    pub fn cancel_timeouts(&self) -> (n: u64)
        ensures
            n == self.cancel_timeouts,
    {
        self.cancel_timeouts
    }

    pub fn cancel_gave_up(&self) -> (n: u64)
        ensures
            n == self.cancel_gave_up,
    {
        self.cancel_gave_up
    }
}

/// The reading to the end of a query that was given up: how many times it took too long.
#[derive(Debug, Clone, Copy, PartialEq, Eq, Structural)]
pub struct AbandonedDrain {
    pub query: QueryId,
    pub attempt: u32,
}

/// What happened while the rest of a query was read.
#[derive(Debug, Clone, Copy, PartialEq, Eq, Structural)]
pub enum DrainEvent {
    /// The query was read to its end.
    Drained,
    /// The wait was over and the query not yet read to its end.
    TookTooLong,
    /// With nothing else being sent: the number of the active query, and the time since the query
    /// was given up.
    GateTaken { active: u64, elapsed_ms: u64 },
    /// A cancel request was sent, or was not.
    CancelSent(CancelReport),
}

/// How a cancel request for a query that was given up ended.
#[derive(Debug, Clone, Copy, PartialEq, Eq, Structural)]
pub enum CancelReport {
    Delivered,
    Failed,
    TimedOut,
}

/// How to go on after a cancel request.
#[derive(Debug, Clone, Copy, PartialEq, Eq, Structural)]
pub enum DrainAction {
    /// Read on, but no longer than this before saying so.
    WaitFor { ms: u64 },
    /// Read on, for as long as it takes.
    DrainToEnd,
    /// Make sure that nothing is being sent, and look which query is active.
    TakeGate,
    /// Send a cancel request; wait no longer than this for it.
    SendCancel { timeout_ms: u64 },
    /// Pause, then do the next thing.
    SettleThenWaitFor { settle_ms: u64, ms: u64 },
    SettleThenDrainToEnd { settle_ms: u64 },
    /// Mark the query as no longer active and give the connection back.
    Release,
}

/// What to do with a query's rest after `event`, and what it adds to the counts.
///
/// The connection is given back only once the query was read to its end: whoever used it before
/// would take the rest for its own result. Only the number of cancel requests is bounded.
pub open spec fn drained(
    before: (AbandonedDrain, AbandonStats),
    options: ConnectOptions,
    event: DrainEvent,
    after: (AbandonedDrain, AbandonStats),
    action: DrainAction,
) -> bool {
    let (d, s) = before;
    match event {
        DrainEvent::Drained => after == before && action == DrainAction::Release,
        DrainEvent::TookTooLong => {
            &&& after.0 == (AbandonedDrain { attempt: (d.attempt + 1) as u32, ..d })
            &&& after.1 == (AbandonStats {
                multi_attempt_abandons: if d.attempt == 1 {
                    bumped(s.multi_attempt_abandons)
                } else {
                    s.multi_attempt_abandons
                },
                ..s
            })
            &&& action == DrainAction::TakeGate
        },
        DrainEvent::GateTaken { active, elapsed_ms } => if active != d.query.0 {
            after == before && action == DrainAction::DrainToEnd
        } else {
            &&& after.0 == d
            &&& after.1 == (if d.attempt == 1 {
                AbandonStats {
                    first_cancels: bumped(s.first_cancels),
                    first_cancel_delay_ms: elapsed_ms,
                    ..s
                }
            } else {
                s
            })
            &&& action == (DrainAction::SendCancel {
                timeout_ms: options.abandon_cancel_timeout_ms,
            })
        },
        DrainEvent::CancelSent(report) => {
            let last = d.attempt >= ABANDON_MAX_CANCEL_ATTEMPTS;
            &&& after.0 == d
            &&& after.1 == (AbandonStats {
                cancel_send_failures: if report is Failed {
                    bumped(s.cancel_send_failures)
                } else {
                    s.cancel_send_failures
                },
                cancel_timeouts: if report is TimedOut {
                    bumped(s.cancel_timeouts)
                } else {
                    s.cancel_timeouts
                },
                cancel_gave_up: if last {
                    bumped(s.cancel_gave_up)
                } else {
                    s.cancel_gave_up
                },
                ..s
            })
            &&& action == (match (report is Failed, last) {
                (true, true) => DrainAction::DrainToEnd,
                (true, false) => DrainAction::WaitFor { ms: options.cancel_escalate_ms },
                (false, true) => DrainAction::SettleThenDrainToEnd {
                    settle_ms: options.cancel_settle_ms,
                },
                (false, false) => DrainAction::SettleThenWaitFor {
                    settle_ms: options.cancel_settle_ms,
                    ms: options.cancel_escalate_ms,
                },
            })
        },
    }
}

impl AbandonedDrain {
    /// Starts to read the rest of a query. One that may not be cancelled is read for as long as it
    /// takes.
    pub fn start(
        query: QueryId,
        allow_cancel: bool,
        options: &ConnectOptions,
        stats: &mut AbandonStats,
    ) -> (r: (AbandonedDrain, DrainAction))
        ensures
            r.0 == (AbandonedDrain { query, attempt: 0 }),
            r.1 == (if allow_cancel {
                DrainAction::WaitFor { ms: options.abandon_grace_ms }
            } else {
                DrainAction::DrainToEnd
            }),
            *final(stats) == (AbandonStats {
                abandons: bumped(old(stats).abandons),
                ..*old(stats)
            }),
    {
        stats.abandons = bump(stats.abandons);
        let action: DrainAction = if allow_cancel {
            DrainAction::WaitFor { ms: options.abandon_grace_ms }
        } else {
            DrainAction::DrainToEnd
        };
        (AbandonedDrain { query, attempt: 0 }, action)
    }

    /// What to do after an event.
    pub fn next(&mut self, event: DrainEvent, options: &ConnectOptions, stats: &mut AbandonStats) -> (
    action: DrainAction)
        requires
            event is TookTooLong ==> old(self).attempt < u32::MAX,
        ensures
            drained(
                (*old(self), *old(stats)),
                *options,
                event,
                (*final(self), *final(stats)),
                action,
            ),
    {
        match event {
            DrainEvent::Drained => DrainAction::Release,
            DrainEvent::TookTooLong => {
                self.attempt = self.attempt + 1;
                if self.attempt == 2 {
                    stats.multi_attempt_abandons = bump(stats.multi_attempt_abandons);
                }
                DrainAction::TakeGate
            },
            DrainEvent::GateTaken { active, elapsed_ms } => {
                if active != self.query.0 {
                    return DrainAction::DrainToEnd;
                }
                if self.attempt == 1 {
                    stats.first_cancels = bump(stats.first_cancels);
                    stats.first_cancel_delay_ms = elapsed_ms;
                }
                DrainAction::SendCancel { timeout_ms: options.abandon_cancel_timeout_ms }
            },
            DrainEvent::CancelSent(report) => {
                match report {
                    CancelReport::Delivered => {},
                    CancelReport::Failed => {
                        stats.cancel_send_failures = bump(stats.cancel_send_failures);
                    },
                    CancelReport::TimedOut => {
                        stats.cancel_timeouts = bump(stats.cancel_timeouts);
                    },
                }
                let last: bool = self.attempt >= ABANDON_MAX_CANCEL_ATTEMPTS;
                if last {
                    stats.cancel_gave_up = bump(stats.cancel_gave_up);
                }
                match report {
                    CancelReport::Failed => if last {
                        DrainAction::DrainToEnd
                    } else {
                        DrainAction::WaitFor { ms: options.cancel_escalate_ms }
                    },
                    _ => if last {
                        DrainAction::SettleThenDrainToEnd { settle_ms: options.cancel_settle_ms }
                    } else {
                        DrainAction::SettleThenWaitFor {
                            settle_ms: options.cancel_settle_ms,
                            ms: options.cancel_escalate_ms,
                        }
                    },
                }
            },
        }
    }
}

/// The connection of a query that was given up is released when the query was read to its end,
/// and at no other time.
pub proof fn law_released_only_when_drained(
    before: (AbandonedDrain, AbandonStats),
    options: ConnectOptions,
    event: DrainEvent,
    after: (AbandonedDrain, AbandonStats),
    action: DrainAction,
)
    requires
        drained(before, options, event, after, action),
    ensures
        action is Release <==> event is Drained,
{
}

/// What is counted, and when: each count goes up on its own occasion alone. The first cancel request is
/// counted when it is sent, with the time that it took; the second attempt of a query, a request that
/// failed, one that timed out, and giving up after the third, when they happen.
pub proof fn law_each_count_has_its_occasion(
    before: (AbandonedDrain, AbandonStats),
    options: ConnectOptions,
    event: DrainEvent,
    after: (AbandonedDrain, AbandonStats),
    action: DrainAction,
)
    requires
        drained(before, options, event, after, action),
        before.0.attempt < u32::MAX,
    ensures
        after.0.query == before.0.query,
        after.0.attempt == before.0.attempt + (if event is TookTooLong {
            1int
        } else {
            0int
        }),
        after.1.abandons == before.1.abandons,
        after.1.first_cancels != before.1.first_cancels <==> action is SendCancel
            && before.0.attempt == 1,
        action is SendCancel && before.0.attempt == 1 ==> (event matches DrainEvent::GateTaken {
            active,
            elapsed_ms,
        } && after.1.first_cancel_delay_ms == elapsed_ms),
        !(action is SendCancel && before.0.attempt == 1) ==> after.1.first_cancel_delay_ms
            == before.1.first_cancel_delay_ms,
        after.1.multi_attempt_abandons != before.1.multi_attempt_abandons <==> before.0.attempt == 1
            && after.0.attempt == 2,
        after.1.cancel_send_failures != before.1.cancel_send_failures <==> event
            == DrainEvent::CancelSent(CancelReport::Failed),
        after.1.cancel_timeouts != before.1.cancel_timeouts <==> event == DrainEvent::CancelSent(
            CancelReport::TimedOut,
        ),
        after.1.cancel_gave_up != before.1.cancel_gave_up <==> event is CancelSent
            && before.0.attempt >= 3,
{
}

/// How long is waited: before a cancel request that may have reached the server is followed by
/// anything, the settling time, and after one that did not, not at all; before another attempt, the
/// time to escalate; for a cancel request, its own. After the third attempt, for as long as it takes.
pub proof fn law_waits_are_the_configured_ones(
    before: (AbandonedDrain, AbandonStats),
    options: ConnectOptions,
    event: DrainEvent,
    after: (AbandonedDrain, AbandonStats),
    action: DrainAction,
)
    requires
        drained(before, options, event, after, action),
    ensures
        match action {
            DrainAction::WaitFor { ms } => ms == options.cancel_escalate_ms && event
                == DrainEvent::CancelSent(CancelReport::Failed) && before.0.attempt < 3,
            DrainAction::SettleThenWaitFor { settle_ms, ms } => settle_ms
                == options.cancel_settle_ms && ms == options.cancel_escalate_ms && event
                is CancelSent && event != DrainEvent::CancelSent(CancelReport::Failed)
                && before.0.attempt < 3,
            DrainAction::SettleThenDrainToEnd { settle_ms } => settle_ms
                == options.cancel_settle_ms && event is CancelSent && event
                != DrainEvent::CancelSent(CancelReport::Failed) && before.0.attempt >= 3,
            DrainAction::DrainToEnd => (event == DrainEvent::CancelSent(CancelReport::Failed)
                && before.0.attempt >= 3) || (event matches DrainEvent::GateTaken {
                active,
                elapsed_ms,
            } && active != before.0.query.0),
            DrainAction::SendCancel { timeout_ms } => timeout_ms
                == options.abandon_cancel_timeout_ms && event is GateTaken,
            DrainAction::TakeGate => event is TookTooLong,
            DrainAction::Release => event is Drained,
        },
{
}

/// Whether an event is one that doing what was asked for can lead to.
pub open spec fn answers(action: DrainAction, event: DrainEvent) -> bool {
    match action {
        DrainAction::WaitFor { .. } => event is Drained || event is TookTooLong,
        DrainAction::SettleThenWaitFor { .. } => event is Drained || event is TookTooLong,
        DrainAction::DrainToEnd => event is Drained,
        DrainAction::SettleThenDrainToEnd { .. } => event is Drained,
        DrainAction::TakeGate => event is GateTaken,
        DrainAction::SendCancel { .. } => event is CancelSent,
        DrainAction::Release => false,
    }
}

/// Whether a query that was given up is drained like this: `drains[k]` and `actions[k]` are what
/// the first `k` events led to, and each event answers the action before it.
pub open spec fn is_drain_run(
    query: QueryId,
    allow_cancel: bool,
    options: ConnectOptions,
    drains: Seq<(AbandonedDrain, AbandonStats)>,
    actions: Seq<DrainAction>,
    events: Seq<DrainEvent>,
) -> bool {
    &&& drains.len() == events.len() + 1
    &&& actions.len() == events.len() + 1
    &&& drains[0].0 == (AbandonedDrain { query, attempt: 0 })
    &&& actions[0] == (if allow_cancel {
        DrainAction::WaitFor { ms: options.abandon_grace_ms }
    } else {
        DrainAction::DrainToEnd
    })
    &&& forall|k: int|
        0 <= k < events.len() ==> answers(actions[k], #[trigger] events[k]) && drained(
            drains[k],
            options,
            events[k],
            drains[k + 1],
            actions[k + 1],
        )
}

/// How many of the first `n` actions send a cancel request.
pub open spec fn cancels_sent(actions: Seq<DrainAction>, n: int) -> nat
    decreases n,
{
    if n <= 0 {
        0
    } else {
        cancels_sent(actions, n - 1) + (if actions[n - 1] is SendCancel {
            1nat
        } else {
            0nat
        })
    }
}

/// However a query that was given up is drained, the number of cancel requests that are sent for it
/// is bounded, and there are none where it may not be cancelled. So is the number of attempts that
/// are counted.
pub proof fn law_cancel_requests_are_bounded(
    query: QueryId,
    allow_cancel: bool,
    options: ConnectOptions,
    drains: Seq<(AbandonedDrain, AbandonStats)>,
    actions: Seq<DrainAction>,
    events: Seq<DrainEvent>,
)
    requires
        is_drain_run(query, allow_cancel, options, drains, actions, events),
    ensures
        cancels_sent(actions, actions.len() as int) <= ABANDON_MAX_CANCEL_ATTEMPTS,
        cancels_sent(actions, actions.len() as int) <= 3,
        !allow_cancel ==> cancels_sent(actions, actions.len() as int) == 0,
        drains.last().0.attempt <= ABANDON_MAX_CANCEL_ATTEMPTS,
{
    lemma_cancels_so_far(
        query,
        allow_cancel,
        options,
        drains,
        actions,
        events,
        events.len() as int,
    );
}

/// The cancel requests that were sent up to an action, each after an attempt of its own.
proof fn lemma_cancels_so_far(
    query: QueryId,
    allow_cancel: bool,
    options: ConnectOptions,
    drains: Seq<(AbandonedDrain, AbandonStats)>,
    actions: Seq<DrainAction>,
    events: Seq<DrainEvent>,
    k: int,
)
    requires
        is_drain_run(query, allow_cancel, options, drains, actions, events),
        0 <= k <= events.len(),
    ensures
        ({
            let sent = cancels_sent(actions, k + 1);
            let attempt = drains[k].0.attempt;
            &&& sent <= attempt <= ABANDON_MAX_CANCEL_ATTEMPTS
            &&& actions[k] is WaitFor || actions[k] is SettleThenWaitFor ==> attempt
                < ABANDON_MAX_CANCEL_ATTEMPTS
            &&& actions[k] is TakeGate ==> sent < attempt
            &&& !allow_cancel ==> sent == 0 && (actions[k] is DrainToEnd || actions[k] is Release)
        }),
    decreases k,
{
    reveal_with_fuel(cancels_sent, 2);
    if k > 0 {
        lemma_cancels_so_far(query, allow_cancel, options, drains, actions, events, k - 1);
        assert(answers(actions[k - 1], events[k - 1]));
        assert(drained(drains[k - 1], options, events[k - 1], drains[k], actions[k]));
    }
}

/// A cancel request is sent only while the query that was given up is the active one: it cannot
/// hit another.
pub proof fn law_cancel_hits_only_its_query(
    before: (AbandonedDrain, AbandonStats),
    options: ConnectOptions,
    event: DrainEvent,
    after: (AbandonedDrain, AbandonStats),
    action: DrainAction,
)
    requires
        drained(before, options, event, after, action),
        action is SendCancel,
    ensures
        event matches DrainEvent::GateTaken { active, elapsed_ms } && active == before.0.query.0,
{
}

/// A name with every double quote doubled.
pub open spec fn escaped(ident: Seq<char>) -> Seq<char>
    decreases ident.len(),
{
    if ident.len() == 0 {
        Seq::empty()
    } else if ident.last() == '"' {
        escaped(ident.drop_last()) + seq!['"', '"']
    } else {
        escaped(ident.drop_last()).push(ident.last())
    }
}

/// A name as an identifier of SQL: in double quotes, those within it doubled.
pub open spec fn quoted_ident(ident: Seq<char>) -> Seq<char> {
    seq!['"'] + escaped(ident) + seq!['"']
}

/// Quotes a name for SQL.
pub fn quote_ident(ident: &str) -> (q: String)
    ensures
        q@ == quoted_ident(ident@),
{
    let mut q: String = String::new();
    q.push('"');
    proof {
        assert(ident@.take(0) =~= Seq::<char>::empty());
        assert(q@ =~= seq!['"'] + escaped(ident@.take(0)));
    }
    for c in it: ident.chars()
        invariant
            it.seq() == ident@,
            q@ == seq!['"'] + escaped(ident@.take(it.index() as int)),
    {
        proof {
            let i = it.index() as int;
            assert(ident@.take(i + 1).drop_last() =~= ident@.take(i));
            assert(ident@.take(i + 1).last() == ident@[i]);
        }
        let ghost before = q@;
        if c == '"' {
            q.push('"');
        }
        q.push(c);
        proof {
            assert(q@ =~= seq!['"'] + escaped(ident@.take(it.index() + 1)));
        }
    }
    q.push('"');
    proof {
        assert(ident@.take(ident@.len() as int) =~= ident@);
        assert(q@ =~= quoted_ident(ident@));
    }
    q
}

/// Two names are quoted alike only if they are the same name.
pub proof fn law_quote_ident_injective(a: Seq<char>, b: Seq<char>)
    requires
        quoted_ident(a) == quoted_ident(b),
    ensures
        a == b,
{
    let q = quoted_ident(a);
    assert(escaped(a) =~= q.subrange(1, q.len() - 1));
    assert(escaped(b) =~= q.subrange(1, q.len() - 1));
    lemma_escaped_injective(a, b);
}

proof fn lemma_escaped_injective(a: Seq<char>, b: Seq<char>)
    requires
        escaped(a) == escaped(b),
    ensures
        a == b,
    decreases a.len(),
{
    let e = escaped(a);
    if a.len() == 0 {
        if b.len() > 0 {
            assert(escaped(b).len() > 0);
        }
        assert(a =~= b);
    } else {
        assert(e.len() > 0);
        assert(b.len() > 0) by {
            if b.len() == 0 {
                assert(escaped(b) == Seq::<char>::empty());
            }
        }
        assert(e.last() == a.last());
        assert(e.last() == b.last());
        let n = if a.last() == '"' { 2int } else { 1int };
        assert(escaped(a.drop_last()) =~= e.take(e.len() - n));
        assert(escaped(b.drop_last()) =~= e.take(e.len() - n));
        lemma_escaped_injective(a.drop_last(), b.drop_last());
        assert(a =~= a.drop_last().push(a.last()));
        assert(b =~= b.drop_last().push(b.last()));
    }
}

/// The text of the query for a part of a table's rows.
pub open spec fn page_sql_of(schema: Seq<char>, table: Seq<char>, limit: u64, offset: u64) -> Seq<
    char,
> {
    "SELECT * FROM "@ + quoted_ident(schema) + "."@ + quoted_ident(table) + " LIMIT "@
        + text::decimal(limit as nat) + " OFFSET "@ + text::decimal(offset as nat)
}

/// The query for a part of a table's rows.
pub fn select_page_sql(schema: &str, table: &str, limit: u64, offset: u64) -> (sql: String)
    ensures
        sql@ == page_sql_of(schema@, table@, limit, offset),
{
    let mut sql: String = "SELECT * FROM ".to_owned();
    sql.append(quote_ident(schema).as_str());
    sql.append(".");
    sql.append(quote_ident(table).as_str());
    sql.append(" LIMIT ");
    sql.append(text::decimal_string(limit).as_str());
    sql.append(" OFFSET ");
    sql.append(text::decimal_string(offset).as_str());
    sql
}

/// Reads an identifier as the server does, from behind its opening double quote: two double quotes
/// stand for one, and one ends it. Gives the name and what follows.
pub open spec fn read_ident(s: Seq<char>) -> Option<(Seq<char>, Seq<char>)>
    decreases s.len(),
{
    if s.len() == 0 {
        None
    } else if s[0] == '"' && (s.len() == 1 || s[1] != '"') {
        Some((Seq::empty(), s.skip(1)))
    } else {
        let n: int = if s[0] == '"' {
            2
        } else {
            1
        };
        match read_ident(s.skip(n)) {
            Some((name, rest)) => Some((seq![s[0]] + name, rest)),
            None => None,
        }
    }
}

/// A quoted name is read back by the server as the name, whatever characters it holds, and what stands
/// behind it is read as standing behind it: no name can end its quotes early.
pub proof fn law_quoted_names_are_read_back(ident: Seq<char>, rest: Seq<char>)
    requires
        rest.len() == 0 || rest[0] != '"',
    ensures
        quoted_ident(ident)[0] == '"',
        read_ident((quoted_ident(ident) + rest).skip(1)) == Some((ident, rest)),
{
    lemma_escaped_read_back(ident, rest);
    assert((quoted_ident(ident) + rest).skip(1) =~= escaped(ident) + seq!['"'] + rest);
}

proof fn lemma_escaped_concat(a: Seq<char>, b: Seq<char>)
    ensures
        escaped(a + b) == escaped(a) + escaped(b),
    decreases b.len(),
{
    if b.len() == 0 {
        assert(a + b =~= a);
        assert(escaped(a) + escaped(b) =~= escaped(a));
    } else {
        assert((a + b).drop_last() =~= a + b.drop_last());
        lemma_escaped_concat(a, b.drop_last());
        assert(escaped(a + b) =~= escaped(a) + escaped(b));
    }
}

proof fn lemma_escaped_read_back(ident: Seq<char>, rest: Seq<char>)
    requires
        rest.len() == 0 || rest[0] != '"',
    ensures
        read_ident(escaped(ident) + seq!['"'] + rest) == Some((ident, rest)),
    decreases ident.len(),
{
    let s = escaped(ident) + seq!['"'] + rest;
    if ident.len() == 0 {
        assert(s =~= seq!['"'] + rest);
        assert(s.skip(1) =~= rest);
        assert(ident =~= Seq::<char>::empty());
    } else {
        let c = ident[0];
        let tail = ident.drop_first();
        let first = seq![c];
        assert(ident =~= first + tail);
        lemma_escaped_concat(first, tail);
        assert(first.drop_last() =~= Seq::<char>::empty());
        assert(escaped(first.drop_last()) =~= Seq::<char>::empty());
        let head = if c == '"' { seq!['"', '"'] } else { first };
        assert(escaped(first) =~= head);
        lemma_escaped_read_back(tail, rest);
        let n = head.len() as int;
        assert(s.skip(n) =~= escaped(tail) + seq!['"'] + rest);
        assert(s[0] == c);
        if c == '"' {
            assert(s[1] == '"');
        }
    }
}

/// Whether what follows the names in a query for a part of a table bounds the rows: how many, and how
/// many to leave out before them.
pub open spec fn bounds_rows(
    s: Seq<char>,
    limit: int,
    offset: int,
    digits: (Seq<char>, Seq<char>),
) -> bool {
    &&& s == " LIMIT "@ + digits.0 + " OFFSET "@ + digits.1
    &&& text::is_number(digits.0) && text::number_of(digits.0) == limit
    &&& text::is_number(digits.1) && text::number_of(digits.1) == offset
}

/// The query for a part of a table reads as what it is for: everything from the table in the schema,
/// under exactly these names, no more rows than the limit, from behind the offset.
pub proof fn law_page_query_reads_as_asked(
    schema: Seq<char>,
    table: Seq<char>,
    limit: u64,
    offset: u64,
) -> (parts: (Seq<char>, Seq<char>, (Seq<char>, Seq<char>)))
    ensures
        page_sql_of(schema, table, limit, offset) == "SELECT * FROM "@ + seq!['"'] + parts.0,
        read_ident(parts.0) == Some((schema, seq!['.', '"'] + parts.1)),
        read_ident(parts.1) matches Some((name, rest)) && name == table && bounds_rows(
            rest,
            limit as int,
            offset as int,
            parts.2,
        ),
{
    reveal_strlit(".");
    reveal_strlit(" LIMIT ");
    let l = text::decimal(limit as nat);
    let o = text::decimal(offset as nat);
    text::law_decimal_reads_back(limit as nat);
    text::law_decimal_reads_back(offset as nat);
    let bounds = " LIMIT "@ + l + " OFFSET "@ + o;
    let second = quoted_ident(table) + bounds;
    let behind = seq!['.'] + second;
    let first = quoted_ident(schema) + behind;
    law_quoted_names_are_read_back(table, bounds);
    law_quoted_names_are_read_back(schema, behind);
    assert(behind =~= seq!['.', '"'] + second.skip(1));
    assert(page_sql_of(schema, table, limit, offset) =~= "SELECT * FROM "@ + seq!['"']
        + first.skip(1));
    (first.skip(1), second.skip(1), (l, o))
}

/// Two queries for parts of tables are the same only if they ask for the same part of the same table.
pub proof fn law_page_queries_tell_parts_apart(
    schema: Seq<char>,
    table: Seq<char>,
    limit: u64,
    offset: u64,
    other_schema: Seq<char>,
    other_table: Seq<char>,
    other_limit: u64,
    other_offset: u64,
)
    requires
        page_sql_of(schema, table, limit, offset) == page_sql_of(
            other_schema,
            other_table,
            other_limit,
            other_offset,
        ),
    ensures
        schema == other_schema,
        table == other_table,
        limit == other_limit,
        offset == other_offset,
{
    let a = law_page_query_reads_as_asked(schema, table, limit, offset);
    let b = law_page_query_reads_as_asked(other_schema, other_table, other_limit, other_offset);
    let q = page_sql_of(schema, table, limit, offset);
    let n = "SELECT * FROM "@.len() + 1;
    assert(a.0 =~= q.skip(n as int));
    assert(b.0 =~= q.skip(n as int));
    let behind = (read_ident(a.0)->0).1;
    assert(a.1 =~= behind.skip(2));
    assert(b.1 =~= behind.skip(2));
    let rest = (read_ident(a.1)->0).1;
    reveal_strlit(" LIMIT ");
    reveal_strlit(" OFFSET ");
    let tail = rest.skip(7);
    assert(tail =~= a.2.0 + seq![' '] + ("OFFSET "@ + a.2.1)) by {
        reveal_strlit("OFFSET ");
        assert(" OFFSET "@ =~= seq![' '] + "OFFSET "@);
    }
    assert(tail =~= b.2.0 + seq![' '] + ("OFFSET "@ + b.2.1)) by {
        reveal_strlit("OFFSET ");
        assert(" OFFSET "@ =~= seq![' '] + "OFFSET "@);
    }
    assert(!a.2.0.contains(' ') && !b.2.0.contains(' '));
    text::lemma_first_separator(a.2.0, "OFFSET "@ + a.2.1, b.2.0, "OFFSET "@ + b.2.1, ' ');
    let k = "OFFSET "@.len() as int;
    assert(a.2.1 =~= ("OFFSET "@ + a.2.1).skip(k));
    assert(b.2.1 =~= ("OFFSET "@ + b.2.1).skip(k));
}

} // verus!
