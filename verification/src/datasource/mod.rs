//! The database: its schemas, tables and rows, and what can go wrong with it.
use crate::text;
use crate::tunnel::TunnelError;
use vstd::prelude::*;

pub mod introspect;
pub mod postgres;
pub mod stream;

pub use introspect::relkind_from_str;
pub use postgres::{quote_ident, select_page_sql, AbandonStats, ConnectOptions};
pub use stream::{Row, RowStream};

verus! {

/// A query that was sent to the server; no two of one connection have the same number.
#[derive(Debug, Clone, Copy, PartialEq, Eq, Hash, Structural)]
pub struct QueryId(pub u64);

/// A schema of the database.
#[derive(Debug, Clone, PartialEq, Eq)]
pub struct Schema {
    pub name: String,
    pub is_system: bool,
}

/// A table, or what can be read like one.
#[derive(Debug, Clone, PartialEq, Eq)]
pub struct Table {
    pub name: String,
    pub kind: TableKind,
}

/// What a table is.
#[derive(Debug, Clone, Copy, PartialEq, Eq, Structural)]
pub enum TableKind {
    Table,
    PartitionedTable,
    View,
    MaterializedView,
    ForeignTable,
}

/// A column of a table.
#[derive(Debug, Clone, PartialEq, Eq)]
pub struct Column {
    pub name: String,
    pub data_type: String,
    pub is_nullable: bool,
    pub default_expr: Option<String>,
    pub ordinal: i16,
    pub is_primary_key: bool,
}

/// Where in a statement the server found an error.
#[derive(Debug, Clone, PartialEq, Eq)]
pub enum ErrorPosition {
    /// In the statement that was sent, counted in characters from 1.
    Original(u32),
    /// In a statement that the server ran by itself.
    Internal { position: u32, query: String },
}

/// An error of the database driver: its text, the texts of what caused it, and what the server said.
#[derive(Debug, Clone, PartialEq, Eq)]
pub struct PgError {
    pub message: String,
    pub causes: Vec<String>,
    pub code: Option<String>,
    pub position: Option<ErrorPosition>,
}

/// What can go wrong with a connection or a query; times are in milliseconds.
#[derive(Debug, Clone, PartialEq, Eq)]
pub enum DataSourceError {
    Tunnel { name: String, source: TunnelError },
    TunnelDown { name: String, source: TunnelError },
    TunnelTaskPanicked { name: String },
    Connect { name: String, addr: String, source: PgError },
    Closed { name: String, reason: Option<String> },
    Query { sql: String, source: PgError },
    Cancelled,
    Busy { name: String },
    BusyTimedOut { name: String, waited_ms: u64 },
    MultipleStatements { method: &'static str },
    CancelFailed { name: String, source: PgError },
    CancelTimedOut { name: String, timeout_ms: u64 },
    Decode { column: String, source: PgError },
    UnexpectedRelkind { kind: String },
}

/// Why a connection was closed, as the end of a message.
pub open spec fn reason_of(reason: Option<Seq<char>>) -> Seq<char> {
    match reason {
        Some(r) => if text::trimmed(r).len() > 0 {
            ": "@ + text::trimmed(r)
        } else {
            Seq::empty()
        },
        None => Seq::empty(),
    }
}

/// Why a connection was closed, as the end of a message.
pub fn reason_suffix(reason: &Option<String>) -> (s: String)
    ensures
        s@ == reason_of(text::opt_view(*reason)),
{
    match reason {
        Some(r) => {
            let t: &str = text::trim(r.as_str());
            if t.is_empty() {
                String::new()
            } else {
                let mut s: String = ": ".to_owned();
                s.append(t);
                s
            }
        },
        None => String::new(),
    }
}

/// The text of an error.
pub open spec fn message_of(e: DataSourceError) -> Seq<char> {
    match e {
        DataSourceError::Tunnel { name, source } => "connection "@ + text::quoted(name@)
            + ": failed to open the SSH tunnel"@,
        DataSourceError::TunnelDown { name, source } => "connection "@ + text::quoted(name@)
            + ": the SSH tunnel is no longer running"@,
        DataSourceError::TunnelTaskPanicked { name } => "connection "@ + text::quoted(name@)
            + ": the SSH tunnel setup task panicked"@,
        DataSourceError::Connect { name, addr, source } => "connection "@ + text::quoted(name@)
            + ": failed to connect to postgres at "@ + addr@,
        DataSourceError::Closed { name, reason } => "connection "@ + text::quoted(name@)
            + ": the postgres connection is closed"@ + reason_of(text::opt_view(reason)),
        DataSourceError::Query { sql, source } => "query failed: "@ + source.message@,
        DataSourceError::Cancelled => "query was cancelled"@,
        DataSourceError::Busy { name } => "connection "@ + text::quoted(name@)
            + " is busy with another query"@,
        DataSourceError::BusyTimedOut { name, waited_ms } => "connection "@ + text::quoted(name@)
            + " was still busy after "@ + text::decimal(waited_ms as nat) + "ms"@,
        DataSourceError::MultipleStatements { method } => "`"@ + method@
            + "` requires a single SQL statement; the server executed more than one and the extra results were discarded"@,
        DataSourceError::CancelFailed { name, source } => "connection "@ + text::quoted(name@)
            + ": failed to deliver the cancel request"@,
        DataSourceError::CancelTimedOut { name, timeout_ms } => "connection "@ + text::quoted(name@)
            + ": the cancel request timed out after "@ + text::decimal(timeout_ms as nat) + "ms"@,
        DataSourceError::Decode { column, source } => "failed to decode column "@ + text::quoted(
            column@,
        ) + " as UTF-8 text"@,
        DataSourceError::UnexpectedRelkind { kind } => "postgres returned an unexpected relkind "@
            + text::quoted(kind@),
    }
}

/// `text`, and behind it the first `n` of `causes`, each after a colon.
pub open spec fn with_causes(text: Seq<char>, causes: Seq<Seq<char>>, n: int) -> Seq<char>
    decreases n,
{
    if n <= 0 {
        text
    } else {
        with_causes(text, causes, n - 1) + ": "@ + causes[n - 1]
    }
}

/// The texts of a driver's error and of what caused it.
pub open spec fn pg_causes(e: PgError) -> Seq<Seq<char>> {
    seq![e.message@] + text::views(e.causes@)
}

/// The texts of what caused an error.
pub open spec fn causes_of(e: DataSourceError) -> Seq<Seq<char>> {
    match e {
        DataSourceError::Tunnel { name, source } => crate::tunnel::chain_of(source),
        DataSourceError::TunnelDown { name, source } => crate::tunnel::chain_of(source),
        DataSourceError::Connect { name, addr, source } => pg_causes(source),
        DataSourceError::Query { sql, source } => pg_causes(source),
        DataSourceError::CancelFailed { name, source } => pg_causes(source),
        DataSourceError::Decode { column, source } => pg_causes(source),
        _ => Seq::empty(),
    }
}

/// The text of an error and, each after a colon, the texts of what caused it.
pub open spec fn error_chain_of(e: DataSourceError) -> Seq<char> {
    with_causes(message_of(e), causes_of(e), causes_of(e).len() as int)
}

/// The text of an error with what caused it begins with the text of the error and tells every cause,
/// each behind a colon, in order; the last one ends it.
pub proof fn law_every_cause_is_told(text: Seq<char>, causes: Seq<Seq<char>>, i: int, n: int)
    requires
        0 <= i < n <= causes.len(),
    ensures
        with_causes(text, causes, n).len() >= text.len(),
        with_causes(text, causes, n).take(text.len() as int) == text,
        crate::text::occurs(with_causes(text, causes, n), ": "@ + causes[i]),
        i == n - 1 ==> with_causes(text, causes, n) == with_causes(text, causes, i) + ": "@
            + causes[i],
    decreases n,
{
    let before = with_causes(text, causes, n - 1);
    let whole = with_causes(text, causes, n);
    if n > 1 {
        law_every_cause_is_told(text, causes, if i < n - 1 { i } else { n - 2 }, n - 1);
    }
    assert(before.take(text.len() as int) =~= text);
    assert(whole.take(text.len() as int) =~= before.take(text.len() as int));
    let needle = ": "@ + causes[i];
    crate::text::law_occurs_between_two_parts(whole, needle);
    if i == n - 1 {
        assert(whole =~= before + needle + Seq::<char>::empty());
    } else {
        crate::text::law_occurs_between_two_parts(before, needle);
        let (x, y) = choose|x: Seq<char>, y: Seq<char>| before == #[trigger] (x + needle + y);
        assert(whole =~= x + needle + (y + ": "@ + causes[n - 1]));
    }
}

/// What the server said, and what caused it, is told with the error of a query.
pub proof fn law_the_server_is_quoted(e: DataSourceError, i: int)
    requires
        e matches DataSourceError::Query { sql, source } && 0 <= i < source.causes@.len(),
    ensures
        e matches DataSourceError::Query { sql, source } && crate::text::occurs(
            error_chain_of(e),
            ": "@ + source.message@,
        ) && crate::text::occurs(error_chain_of(e), ": "@ + source.causes@[i]@),
{
    let c = causes_of(e);
    let source = e->Query_source;
    assert(c[0] == source.message@);
    assert(c[i + 1] == source.causes@[i]@);
    law_every_cause_is_told(message_of(e), c, 0, c.len() as int);
    law_every_cause_is_told(message_of(e), c, i + 1, c.len() as int);
}

/// The reason for which a connection was closed is given, trimmed, where there is one that is not
/// blank.
pub proof fn law_a_reason_is_given_where_there_is_one(reason: Option<Seq<char>>)
    ensures
        reason_of(reason).len() == 0 <==> (reason matches Some(r) ==> text::blank(r)),
        reason matches Some(r) ==> !text::blank(r) ==> reason_of(reason) == ": "@ + text::trimmed(r),
{
    reveal_strlit(": ");
    if reason is Some {
        text::law_trimming_takes_off_white_space(reason->0);
    }
}

/// The text of an error tells what it is about: the connection, the address, what the server said, the
/// time in milliseconds, the column.
pub proof fn law_errors_tell_what_they_are_about(e: DataSourceError)
    ensures
        match e {
            DataSourceError::Tunnel { name, source } => text::occurs(
                message_of(e),
                text::quoted(name@),
            ),
            DataSourceError::TunnelDown { name, source } => text::occurs(
                message_of(e),
                text::quoted(name@),
            ),
            DataSourceError::TunnelTaskPanicked { name } => text::occurs(
                message_of(e),
                text::quoted(name@),
            ),
            DataSourceError::Connect { name, addr, source } => text::occurs(
                message_of(e),
                text::quoted(name@),
            ) && text::occurs(message_of(e), addr@),
            DataSourceError::Closed { name, reason } => text::occurs(
                message_of(e),
                text::quoted(name@),
            ) && text::occurs(message_of(e), reason_of(text::opt_view(reason))),
            DataSourceError::Query { sql, source } => text::occurs(message_of(e), source.message@),
            DataSourceError::Cancelled => true,
            DataSourceError::Busy { name } => text::occurs(message_of(e), text::quoted(name@)),
            DataSourceError::BusyTimedOut { name, waited_ms } => text::occurs(
                message_of(e),
                text::quoted(name@),
            ) && text::occurs(message_of(e), text::decimal(waited_ms as nat) + "ms"@),
            DataSourceError::MultipleStatements { method } => text::occurs(message_of(e), method@),
            DataSourceError::CancelFailed { name, source } => text::occurs(
                message_of(e),
                text::quoted(name@),
            ),
            DataSourceError::CancelTimedOut { name, timeout_ms } => text::occurs(
                message_of(e),
                text::quoted(name@),
            ) && text::occurs(message_of(e), text::decimal(timeout_ms as nat) + "ms"@),
            DataSourceError::Decode { column, source } => text::occurs(
                message_of(e),
                text::quoted(column@),
            ),
            DataSourceError::UnexpectedRelkind { kind } => text::occurs(
                message_of(e),
                text::quoted(kind@),
            ),
        },
{
    let m = message_of(e);
    let none = Seq::<char>::empty();
    let head = "connection "@;
    match e {
        DataSourceError::Tunnel { name, source } => {
            text::lemma_occurs_in(
                m,
                head,
                text::quoted(name@),
                ": failed to open the SSH tunnel"@,
            );
        },
        DataSourceError::TunnelDown { name, source } => {
            text::lemma_occurs_in(
                m,
                head,
                text::quoted(name@),
                ": the SSH tunnel is no longer running"@,
            );
        },
        DataSourceError::TunnelTaskPanicked { name } => {
            text::lemma_occurs_in(
                m,
                head,
                text::quoted(name@),
                ": the SSH tunnel setup task panicked"@,
            );
        },
        DataSourceError::Connect { name, addr, source } => {
            let q = text::quoted(name@);
            let mid = ": failed to connect to postgres at "@;
            text::lemma_occurs_in(m, head, q, mid + addr@);
            text::lemma_occurs_in(m, head + q + mid, addr@, none);
        },
        DataSourceError::Closed { name, reason } => {
            let q = text::quoted(name@);
            let mid = ": the postgres connection is closed"@;
            let tail = reason_of(text::opt_view(reason));
            text::lemma_occurs_in(m, head, q, mid + tail);
            text::lemma_occurs_in(m, head + q + mid, tail, none);
        },
        DataSourceError::Query { sql, source } => {
            text::lemma_occurs_in(m, "query failed: "@, source.message@, none);
        },
        DataSourceError::Cancelled => {},
        DataSourceError::Busy { name } => {
            text::lemma_occurs_in(m, head, text::quoted(name@), " is busy with another query"@);
        },
        DataSourceError::BusyTimedOut { name, waited_ms } => {
            let q = text::quoted(name@);
            let mid = " was still busy after "@;
            let time = text::decimal(waited_ms as nat) + "ms"@;
            text::lemma_occurs_in(m, head, q, mid + time);
            text::lemma_occurs_in(m, head + q + mid, time, none);
        },
        DataSourceError::MultipleStatements { method } => {
            text::lemma_occurs_in(
                m,
                "`"@,
                method@,
                "` requires a single SQL statement; the server executed more than one and the extra results were discarded"@,
            );
        },
        DataSourceError::CancelFailed { name, source } => {
            text::lemma_occurs_in(
                m,
                head,
                text::quoted(name@),
                ": failed to deliver the cancel request"@,
            );
        },
        DataSourceError::CancelTimedOut { name, timeout_ms } => {
            let q = text::quoted(name@);
            let mid = ": the cancel request timed out after "@;
            let time = text::decimal(timeout_ms as nat) + "ms"@;
            text::lemma_occurs_in(m, head, q, mid + time);
            text::lemma_occurs_in(m, head + q + mid, time, none);
        },
        DataSourceError::Decode { column, source } => {
            text::lemma_occurs_in(
                m,
                "failed to decode column "@,
                text::quoted(column@),
                " as UTF-8 text"@,
            );
        },
        DataSourceError::UnexpectedRelkind { kind } => {
            text::lemma_occurs_in(
                m,
                "postgres returned an unexpected relkind "@,
                text::quoted(kind@),
                none,
            );
        },
    }
}

/// What caused the error of a tunnel is told with it: the tunnel's own error, and what caused that.
pub proof fn law_the_tunnels_error_is_told(e: DataSourceError)
    ensures
        e matches DataSourceError::Tunnel { name, source } ==> text::occurs(
            error_chain_of(e),
            ": "@ + crate::tunnel::message_of(source),
        ),
        e matches DataSourceError::TunnelDown { name, source } ==> text::occurs(
            error_chain_of(e),
            ": "@ + crate::tunnel::message_of(source),
        ),
        e matches DataSourceError::Tunnel { name, source } ==> (
        source matches TunnelError::Spawn { program, cause } ==> text::occurs(
            error_chain_of(e),
            ": "@ + cause@,
        )),
        e matches DataSourceError::Connect { name, addr, source } ==> text::occurs(
            error_chain_of(e),
            ": "@ + source.message@,
        ),
{
    let c = causes_of(e);
    if c.len() > 0 {
        law_every_cause_is_told(message_of(e), c, 0, c.len() as int);
    }
    if c.len() > 1 {
        law_every_cause_is_told(message_of(e), c, 1, c.len() as int);
    }
}

/// `head`, a quoted name, and `tail`.
fn about(head: &str, name: &String, tail: &str) -> (s: String)
    ensures
        s@ == head@ + text::quoted(name@) + tail@,
{
    let mut s: String = head.to_owned();
    s.append(text::quote(name.as_str()).as_str());
    s.append(tail);
    s
}

/// Appends texts, each after a colon.
pub fn append_causes(s: String, causes: &Vec<String>) -> (r: String)
    ensures
        r@ == with_causes(s@, text::views(causes@), causes@.len() as int),
{
    let mut r: String = s;
    let n: usize = causes.len();
    let mut i: usize = 0;
    while i < n
        invariant
            n == causes@.len(),
            i <= n,
            r@ == with_causes(s@, text::views(causes@), i as int),
        decreases n - i,
    {
        r.append(": ");
        r.append(causes[i].as_str());
        i = i + 1;
    }
    r
}

impl PgError {
    /// The texts of the error and of what caused it.
    fn texts(&self) -> (t: Vec<String>)
        ensures
            text::views(t@) == pg_causes(*self),
    {
        let mut t: Vec<String> = Vec::new();
        t.push(self.message.clone());
        let n: usize = self.causes.len();
        let mut i: usize = 0;
        proof {
            assert(text::views(t@) =~= seq![self.message@] + text::views(self.causes@).take(0));
        }
        while i < n
            invariant
                n == self.causes@.len(),
                i <= n,
                text::views(t@) == seq![self.message@] + text::views(self.causes@).take(
                    i as int,
                ),
            decreases n - i,
        {
            let ghost before = text::views(t@);
            let cause: String = self.causes[i].clone();
            t.push(cause);
            proof {
                assert(text::views(t@) =~= before.push(self.causes@[i as int]@));
                assert(text::views(self.causes@).take(i + 1) =~= text::views(self.causes@).take(
                    i as int,
                ).push(text::views(self.causes@)[i as int]));
                assert(text::views(t@) =~= seq![self.message@] + text::views(self.causes@).take(
                    i + 1,
                ));
            }
            i = i + 1;
        }
        proof {
            assert(text::views(self.causes@).take(n as int) =~= text::views(self.causes@));
        }
        t
    }
}

impl DataSourceError {
    /// Where in the statement that was sent the server found the error.
    pub fn error_position(&self) -> (p: Option<u32>)
        ensures
            p == (match *self {
                DataSourceError::Query { sql, source } => match source.position {
                    Some(ErrorPosition::Original(p)) => Some(p),
                    _ => None,
                },
                _ => None,
            }),
    {
        match self {
            DataSourceError::Query { sql, source } => match &source.position {
                Some(ErrorPosition::Original(p)) => Some(*p),
                _ => None,
            },
            _ => None,
        }
    }

    /// The text of the error.
    pub fn message(&self) -> (s: String)
        ensures
            s@ == message_of(*self),
    {
        match self {
            DataSourceError::Tunnel { name, source } => about(
                "connection ",
                name,
                ": failed to open the SSH tunnel",
            ),
            DataSourceError::TunnelDown { name, source } => about(
                "connection ",
                name,
                ": the SSH tunnel is no longer running",
            ),
            DataSourceError::TunnelTaskPanicked { name } => about(
                "connection ",
                name,
                ": the SSH tunnel setup task panicked",
            ),
            DataSourceError::Connect { name, addr, source } => {
                let mut s: String = about(
                    "connection ",
                    name,
                    ": failed to connect to postgres at ",
                );
                s.append(addr.as_str());
                s
            },
            DataSourceError::Closed { name, reason } => {
                let mut s: String = about("connection ", name, ": the postgres connection is closed");
                s.append(reason_suffix(reason).as_str());
                s
            },
            DataSourceError::Query { sql, source } => {
                let mut s: String = "query failed: ".to_owned();
                s.append(source.message.as_str());
                s
            },
            DataSourceError::Cancelled => "query was cancelled".to_owned(),
            DataSourceError::Busy { name } => about(
                "connection ",
                name,
                " is busy with another query",
            ),
            DataSourceError::BusyTimedOut { name, waited_ms } => {
                let mut s: String = about("connection ", name, " was still busy after ");
                s.append(text::decimal_string(*waited_ms).as_str());
                s.append("ms");
                s
            },
            DataSourceError::MultipleStatements { method } => {
                let mut s: String = "`".to_owned();
                s.append(method);
                s.append(
                    "` requires a single SQL statement; the server executed more than one and the extra results were discarded",
                );
                s
            },
            DataSourceError::CancelFailed { name, source } => about(
                "connection ",
                name,
                ": failed to deliver the cancel request",
            ),
            DataSourceError::CancelTimedOut { name, timeout_ms } => {
                let mut s: String = about(
                    "connection ",
                    name,
                    ": the cancel request timed out after ",
                );
                s.append(text::decimal_string(*timeout_ms).as_str());
                s.append("ms");
                s
            },
            DataSourceError::Decode { column, source } => about(
                "failed to decode column ",
                column,
                " as UTF-8 text",
            ),
            DataSourceError::UnexpectedRelkind { kind } => {
                let mut s: String = "postgres returned an unexpected relkind ".to_owned();
                s.append(text::quote(kind.as_str()).as_str());
                s
            },
        }
    }

    /// The text of the error and, each after a colon, the texts of what caused it.
    pub fn error_chain(&self) -> (s: String)
        ensures
            s@ == error_chain_of(*self),
    {
        let head: String = self.message();
        let causes: Vec<String> = match self {
            DataSourceError::Tunnel { name, source } => source.chain(),
            DataSourceError::TunnelDown { name, source } => source.chain(),
            DataSourceError::Connect { name, addr, source } => source.texts(),
            DataSourceError::Query { sql, source } => source.texts(),
            DataSourceError::CancelFailed { name, source } => source.texts(),
            DataSourceError::Decode { column, source } => source.texts(),
            _ => Vec::new(),
        };
        proof {
            assert(text::views(causes@) =~= causes_of(*self));
        }
        append_causes(head, &causes)
    }
}

} // verus!
