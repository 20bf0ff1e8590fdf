//! SSH tunnels: which ones can be opened, with what command, and how an attempt goes on.
use crate::config::{Connection, SshTunnel};
use crate::text;
use vstd::prelude::*;

pub mod command;

verus! {

pub const DEFAULT_READY_TIMEOUT_MS: u64 = 15_000;

pub const DEFAULT_PROBE_INTERVAL_MS: u64 = 50;

pub const DEFAULT_PROBE_CONNECT_TIMEOUT_MS: u64 = 250;

pub const DEFAULT_PORT_ATTEMPTS: u32 = 3;

pub const STDERR_CAPTURE_LIMIT: usize = 8192;

pub const READY_SETTLE_DELAY_MS: u64 = 20;

pub const PRE_SPAWN_LIVENESS_PROBE_TIMEOUT_MS: u64 = 75;

pub const STDERR_DRAIN_BUDGET_MS: u64 = 50;

pub const STDERR_DRAIN_POLL_INTERVAL_MS: u64 = 5;

/// A tunnel that can be opened.
#[derive(Debug, Clone, PartialEq, Eq)]
pub struct TunnelSpec {
    name: String,
    ssh_host: String,
    ssh_user: Option<String>,
    ssh_port: Option<u16>,
    remote_host: String,
    remote_port: u16,
}

/// A `TunnelSpec` as a value.
pub struct TunnelSpecView {
    pub name: Seq<char>,
    pub ssh_host: Seq<char>,
    pub ssh_user: Option<Seq<char>>,
    pub ssh_port: Option<u16>,
    pub remote_host: Seq<char>,
    pub remote_port: u16,
}

impl View for TunnelSpec {
    type V = TunnelSpecView;

    closed spec fn view(&self) -> TunnelSpecView {
        TunnelSpecView {
            name: self.name@,
            ssh_host: self.ssh_host@,
            ssh_user: text::opt_view(self.ssh_user),
            ssh_port: self.ssh_port,
            remote_host: self.remote_host@,
            remote_port: self.remote_port,
        }
    }
}

/// Why a tunnel cannot be opened, or does not live.
#[derive(Debug, Clone, PartialEq, Eq)]
pub enum TunnelError {
    InvalidField { name: String, field: &'static str, reason: &'static str },
    PortReservation { cause: String },
    PortOccupied { local_port: u16 },
    Spawn { program: String, cause: String },
    SshExited { status: String, stderr: String },
    ReadyTimeout { local_port: u16, timeout_ms: u64, stderr: String },
    Wait { cause: String },
}

/// The field of a tunnel that breaks a rule, and the rule: the first one in order. What goes to ssh
/// as an argument must not look like an option, a port or a login name; what goes into a
/// forwarding must keep to its field.
pub open spec fn parts_fault(
    t: crate::config::SshTunnelView,
    remote_host: Seq<char>,
    remote_port: u16,
) -> Option<(Seq<char>, Seq<char>)> {
    if text::blank(t.host) {
        Some(("tunnel.host"@, "must not be empty"@))
    } else if t.host[0] == '-' {
        Some(("tunnel.host"@, "must not start with '-'"@))
    } else if t.host.contains(':') {
        Some(("tunnel.host"@, "must not contain ':'"@))
    } else if t.host.contains('@') {
        Some(("tunnel.host"@, "must not contain '@' — put the login name in `user` instead"@))
    } else if t.user is Some && text::blank(t.user->0) {
        Some(("tunnel.user"@, "must not be empty"@))
    } else if t.user is Some && t.user->0[0] == '-' {
        Some(("tunnel.user"@, "must not start with '-'"@))
    } else if t.port == Some(0u16) {
        Some(("tunnel.port"@, "must not be 0"@))
    } else if text::blank(remote_host) {
        Some(("host"@, "must not be empty"@))
    } else if remote_host.contains(':') && !text::ipv6_literal(remote_host) {
        Some(("host"@, "must not contain ':' unless it is an IPv6 literal"@))
    } else if remote_host.contains('[') || remote_host.contains(']') {
        Some(("host"@, "must not contain '[' or ']'"@))
    } else if remote_port == 0 {
        Some(("port"@, "must not be 0"@))
    } else {
        None
    }
}

/// `e` reports that a field of the tunnel called `name` breaks a rule.
pub open spec fn is_invalid_field(
    e: TunnelError,
    name: Seq<char>,
    fault: (Seq<char>, Seq<char>),
) -> bool {
    e matches TunnelError::InvalidField { name: n, field, reason } && n@ == name && field@
        == fault.0 && reason@ == fault.1
}

/// A connection that follows the rules of the configuration, whose host holds no bracket, has a
/// tunnel that can be opened.
pub proof fn law_valid_connection_has_tunnel(c: crate::config::ConnectionView)
    requires
        crate::config::connection_fault(c) is None,
        c.tunnel is Some,
        !c.host.contains('['),
        !c.host.contains(']'),
    ensures
        parts_fault(c.tunnel->0, c.host, c.port) is None,
{
}

/// The ssh destination of a tunnel that can be opened is never read as an option.
pub proof fn law_destination_is_no_option(
    spec: TunnelSpecView,
    t: crate::config::SshTunnelView,
)
    requires
        parts_fault(t, spec.remote_host, spec.remote_port) is None,
        spec.ssh_host == t.host,
        spec.ssh_user == t.user,
    ensures
        command::destination_of(spec).len() > 0,
        command::destination_of(spec)[0] != '-',
{
    reveal_strlit("@");
}

/// A tunnel can be opened exactly if ssh's host is not blank, does not begin with a hyphen and holds
/// no colon and no at sign; a user, if there is one, is not blank and does not begin with a hyphen; no
/// port is 0; and the connection's host is not blank, holds no brackets, and no colon unless it is an
/// IPv6 address.
pub proof fn law_which_tunnels_can_be_opened(
    t: crate::config::SshTunnelView,
    remote_host: Seq<char>,
    remote_port: u16,
)
    ensures
        parts_fault(t, remote_host, remote_port) is None <==> {
            &&& exists|i: int| 0 <= i < t.host.len() && !text::is_white_space(#[trigger] t.host[i])
            &&& t.host[0] != '-'
            &&& forall|i: int| 0 <= i < t.host.len() ==> #[trigger] t.host[i] != ':' && t.host[i] != '@'
            &&& t.user matches Some(user) ==> user[0] != '-' && exists|i: int|
                0 <= i < user.len() && !text::is_white_space(#[trigger] user[i])
            &&& t.port != Some(0u16)
            &&& exists|i: int|
                0 <= i < remote_host.len() && !text::is_white_space(#[trigger] remote_host[i])
            &&& text::ipv6_literal(remote_host) || forall|i: int|
                0 <= i < remote_host.len() ==> #[trigger] remote_host[i] != ':'
            &&& forall|i: int|
                0 <= i < remote_host.len() ==> #[trigger] remote_host[i] != '[' && remote_host[i] != ']'
            &&& remote_port != 0
        },
{
    if parts_fault(t, remote_host, remote_port) is None {
        assert forall|i: int| 0 <= i < t.host.len() implies #[trigger] t.host[i] != ':' && t.host[i]
            != '@' by {
            assert(t.host.contains(t.host[i]));
        }
        assert forall|i: int| 0 <= i < remote_host.len() implies #[trigger] remote_host[i] != '['
            && remote_host[i] != ']' && (!text::ipv6_literal(remote_host) ==> remote_host[i]
            != ':') by {
            assert(remote_host.contains(remote_host[i]));
        }
    }
}

/// The field that is blamed is one that breaks a rule.
pub proof fn law_the_blamed_field_is_at_fault(
    t: crate::config::SshTunnelView,
    remote_host: Seq<char>,
    remote_port: u16,
)
    ensures
        parts_fault(t, remote_host, remote_port) matches Some((field, _)) ==> {
            ||| field == "tunnel.host"@ && (text::blank(t.host) || t.host[0] == '-'
                || t.host.contains(':') || t.host.contains('@'))
            ||| field == "tunnel.user"@ && (t.user matches Some(user) && (text::blank(user)
                || user[0] == '-'))
            ||| field == "tunnel.port"@ && t.port == Some(0u16)
            ||| field == "host"@ && (text::blank(remote_host) || remote_host.contains(':')
                || remote_host.contains('[') || remote_host.contains(']'))
            ||| field == "port"@ && remote_port == 0
        },
{
}

/// A tunnel that can be opened has a command line that no other tunnel has.
pub proof fn law_open_tunnels_are_told_apart(
    a: TunnelSpecView,
    p: u16,
    b: TunnelSpecView,
    q: u16,
    s: crate::config::SshTunnelView,
    t: crate::config::SshTunnelView,
)
    requires
        a.ssh_host == s.host && a.ssh_user == s.user && a.ssh_port == s.port,
        b.ssh_host == t.host && b.ssh_user == t.user && b.ssh_port == t.port,
        parts_fault(s, a.remote_host, a.remote_port) is None,
        parts_fault(t, b.remote_host, b.remote_port) is None,
        command::argv_of(a, p) == command::argv_of(b, q),
    ensures
        p == q,
        s == t,
        a.remote_host == b.remote_host,
        a.remote_port == b.remote_port,
{
    command::law_command_lines_tell_tunnels_apart(a, p, b, q);
}

fn invalid(name: &str, field: &'static str, reason: &'static str) -> (e: TunnelError)
    ensures
        is_invalid_field(e, name@, (field@, reason@)),
{
    TunnelError::InvalidField { name: name.to_owned(), field, reason }
}

impl TunnelSpec {
    /// The tunnel of a connection, if it has one.
    pub fn from_connection(conn: &Connection) -> (r: Result<Option<TunnelSpec>, TunnelError>)
        ensures
            conn@.tunnel is None ==> r matches Ok(None),
            conn@.tunnel matches Some(t) ==> match parts_fault(t, conn@.host, conn@.port) {
                Some(fault) => r is Err && is_invalid_field(r->Err_0, conn@.name, fault),
                None => r matches Ok(Some(spec)) && spec@ == (TunnelSpecView {
                    name: conn@.name,
                    ssh_host: t.host,
                    ssh_user: t.user,
                    ssh_port: t.port,
                    remote_host: conn@.host,
                    remote_port: conn@.port,
                }),
            },
    {
        match &conn.tunnel {
            None => Ok(None),
            Some(tunnel) => match TunnelSpec::from_parts(
                conn.name.as_str(),
                tunnel,
                conn.host.as_str(),
                conn.port,
            ) {
                Ok(spec) => Ok(Some(spec)),
                Err(e) => Err(e),
            },
        }
    }

    /// Checks the parts of a tunnel; every command line is built from a tunnel that passed.
    pub fn from_parts(
        name: &str,
        tunnel: &SshTunnel,
        remote_host: &str,
        remote_port: u16,
    ) -> (r: Result<TunnelSpec, TunnelError>)
        ensures
            match parts_fault(tunnel@, remote_host@, remote_port) {
                Some(fault) => r is Err && is_invalid_field(r->Err_0, name@, fault),
                None => r is Ok && r->Ok_0@ == (TunnelSpecView {
                    name: name@,
                    ssh_host: tunnel@.host,
                    ssh_user: tunnel@.user,
                    ssh_port: tunnel@.port,
                    remote_host: remote_host@,
                    remote_port,
                }),
            },
    {
        if text::is_blank(tunnel.host.as_str()) {
            return Err(invalid(name, "tunnel.host", "must not be empty"));
        }
        if text::starts_with_char(tunnel.host.as_str(), '-') {
            return Err(invalid(name, "tunnel.host", "must not start with '-'"));
        }
        if text::has_char(tunnel.host.as_str(), ':') {
            return Err(invalid(name, "tunnel.host", "must not contain ':'"));
        }
        if text::has_char(tunnel.host.as_str(), '@') {
            return Err(
                invalid(
                    name,
                    "tunnel.host",
                    "must not contain '@' — put the login name in `user` instead",
                ),
            );
        }
        if let Some(user) = &tunnel.user {
            if text::is_blank(user.as_str()) {
                return Err(invalid(name, "tunnel.user", "must not be empty"));
            }
            if text::starts_with_char(user.as_str(), '-') {
                return Err(invalid(name, "tunnel.user", "must not start with '-'"));
            }
        }
        if let Some(port) = tunnel.port {
            if port == 0 {
                return Err(invalid(name, "tunnel.port", "must not be 0"));
            }
        }
        if text::is_blank(remote_host) {
            return Err(invalid(name, "host", "must not be empty"));
        }
        if text::has_char(remote_host, ':') && !text::is_ipv6(remote_host) {
            return Err(
                invalid(name, "host", "must not contain ':' unless it is an IPv6 literal"),
            );
        }
        if text::has_char(remote_host, '[') || text::has_char(remote_host, ']') {
            return Err(invalid(name, "host", "must not contain '[' or ']'"));
        }
        if remote_port == 0 {
            return Err(invalid(name, "port", "must not be 0"));
        }
        let ssh_user: Option<String> = match &tunnel.user {
            Some(user) => Some(user.clone()),
            None => None,
        };
        Ok(
            TunnelSpec {
                name: name.to_owned(),
                ssh_host: tunnel.host.clone(),
                ssh_user,
                ssh_port: tunnel.port,
                remote_host: remote_host.to_owned(),
                remote_port,
            },
        )
    }

    pub fn name(&self) -> (s: &str)
        ensures
            s@ == self@.name,
    {
        self.name.as_str()
    }

    pub fn ssh_host(&self) -> (s: &str)
        ensures
            s@ == self@.ssh_host,
    {
        self.ssh_host.as_str()
    }

    pub fn ssh_user(&self) -> (s: Option<&str>)
        ensures
            s is Some <==> self@.ssh_user is Some,
            s is Some ==> s->0@ == self@.ssh_user->0,
    {
        match &self.ssh_user {
            Some(user) => Some(user.as_str()),
            None => None,
        }
    }

    pub fn ssh_port(&self) -> (p: Option<u16>)
        ensures
            p == self@.ssh_port,
    {
        self.ssh_port
    }

    pub fn remote_host(&self) -> (s: &str)
        ensures
            s@ == self@.remote_host,
    {
        self.remote_host.as_str()
    }

    pub fn remote_port(&self) -> (p: u16)
        ensures
            p == self@.remote_port,
    {
        self.remote_port
    }

    /// The arguments for ssh.
    pub fn ssh_argv(&self, local_port: u16) -> (argv: Vec<String>)
        ensures
            text::views(argv@) == command::argv_of(self@, local_port),
    {
        command::ssh_argv(self, local_port)
    }
}

/// How a tunnel is opened; times are in milliseconds.
#[derive(Debug, Clone, PartialEq, Eq)]
pub struct TunnelOptions {
    pub ssh_program: String,
    pub ready_timeout_ms: u64,
    pub probe_interval_ms: u64,
    pub probe_connect_timeout_ms: u64,
    pub port_attempts: u32,
}

impl Default for TunnelOptions {
    fn default() -> (o: Self)
        ensures
            o.ssh_program@ == "ssh"@,
            o.ready_timeout_ms == DEFAULT_READY_TIMEOUT_MS,
            o.probe_interval_ms == DEFAULT_PROBE_INTERVAL_MS,
            o.probe_connect_timeout_ms == DEFAULT_PROBE_CONNECT_TIMEOUT_MS,
            o.port_attempts == DEFAULT_PORT_ATTEMPTS,
            o.ready_timeout_ms == 15_000,
            o.probe_interval_ms == 50,
            o.probe_connect_timeout_ms == 250,
            o.port_attempts == 3,
    {
        TunnelOptions {
            ssh_program: "ssh".to_owned(),
            ready_timeout_ms: DEFAULT_READY_TIMEOUT_MS,
            probe_interval_ms: DEFAULT_PROBE_INTERVAL_MS,
            probe_connect_timeout_ms: DEFAULT_PROBE_CONNECT_TIMEOUT_MS,
            port_attempts: DEFAULT_PORT_ATTEMPTS,
        }
    }
}

/// What is kept of what ssh writes after a further line, where `before` and `after` are what was kept
/// and whether something was left out. A line that does not fit with its line break is cut at the
/// limit, at a character boundary, and from then on nothing is added.
pub open spec fn captured(
    before: (Seq<char>, bool),
    line: Seq<char>,
    after: (Seq<char>, bool),
) -> bool {
    let room = STDERR_CAPTURE_LIMIT - text::byte_len(before.0);
    if before.1 {
        after.0 == before.0 && after.1
    } else if text::byte_len(line) < room {
        after.0 == before.0 + line + seq!['\n'] && !after.1
    } else {
        &&& after.1
        &&& exists|k: int|
            {
                &&& 0 <= k <= line.len()
                &&& #[trigger] text::byte_offset(line, k) <= room
                &&& k < line.len() ==> room < text::byte_offset(line, k + 1)
                &&& after.0 == before.0 + line.take(k)
            }
    }
}

/// What is kept is the beginning of what was written: nothing of it is ever lost or changed, what is
/// added is the beginning of the line and its line break, in all at most 8192 bytes are kept, and
/// something is marked as left out exactly if not all of the line was added.
pub proof fn law_the_beginning_is_kept(
    before: (Seq<char>, bool),
    line: Seq<char>,
    after: (Seq<char>, bool),
) -> (added: Seq<char>)
    requires
        text::byte_len(before.0) <= 8192,
        captured(before, line, after),
    ensures
        after.0 == before.0 + added,
        text::byte_len(after.0) <= 8192,
        added.len() <= line.len() + 1,
        added == line.push('\n').take(added.len() as int),
        before.1 ==> added.len() == 0 && after.1,
        !before.1 ==> (!after.1 <==> added == line.push('\n')),
        !before.1 && after.1 && added.len() < line.len() ==> text::byte_len(
            before.0 + line.take(added.len() as int + 1),
        ) > 8192,
        !before.1 && text::byte_len(before.0) + text::byte_len(line) + 1 <= 8192 ==> !after.1,
{
    let whole = line.push('\n');
    if before.1 {
        assert(after.0 =~= before.0 + Seq::<char>::empty());
        assert(whole.take(0) =~= Seq::<char>::empty());
        Seq::empty()
    } else if !after.1 {
        assert(after.0 =~= before.0 + whole);
        assert(whole.take(whole.len() as int) =~= whole);
        assert(whole =~= line + seq!['\n']);
        text::lemma_byte_len_concat(before.0, whole);
        text::lemma_byte_len_concat(line, seq!['\n']);
        text::lemma_byte_len_one('\n');
        assert(text::char_width('\n') == 1);
        whole
    } else {
        let room = STDERR_CAPTURE_LIMIT - text::byte_len(before.0);
        let k = choose|k: int|
            {
                &&& 0 <= k <= line.len()
                &&& #[trigger] text::byte_offset(line, k) <= room
                &&& k < line.len() ==> room < text::byte_offset(line, k + 1)
                &&& after.0 == before.0 + line.take(k)
            };
        text::lemma_byte_len_concat(before.0, line.take(k));
        if k < line.len() {
            text::lemma_byte_len_concat(before.0, line.take(k + 1));
        }
        assert(line.take(k) =~= whole.take(k));
        line.take(k)
    }
}

/// What ssh has written to its standard error: the beginning, up to a limit.
#[derive(Debug, Clone, PartialEq, Eq)]
pub struct StderrCapture {
    text: String,
    truncated: bool,
}

impl Default for StderrCapture {
    fn default() -> (c: Self)
        ensures
            c.wf(),
            c.kept().len() == 0,
            !c.is_truncated(),
    {
        proof {
            text::lemma_byte_len_bounds(Seq::<char>::empty());
        }
        StderrCapture { text: String::new(), truncated: false }
    }
}

impl StderrCapture {
    /// What was kept.
    pub closed spec fn kept(&self) -> Seq<char> {
        self.text@
    }

    /// Whether something was left out.
    pub closed spec fn is_truncated(&self) -> bool {
        self.truncated
    }

    /// No more is kept than the limit allows.
    pub open spec fn wf(&self) -> bool {
        text::byte_len(self.kept()) <= STDERR_CAPTURE_LIMIT
    }

    /// Adds a line. One that does not fit with its line break is cut at the limit, at a character
    /// boundary, and from then on nothing is added.
    pub fn push_line(&mut self, line: &str)
        requires
            old(self).wf(),
        ensures
            final(self).wf(),
            captured(
                (old(self).kept(), old(self).is_truncated()),
                line@,
                (final(self).kept(), final(self).is_truncated()),
            ),
    {
        if self.truncated {
            return;
        }
        let used: usize = text::byte_count(self.text.as_str());
        let remaining: usize = STDERR_CAPTURE_LIMIT - used;
        let ghost before = self.text@;
        if text::byte_count(line) < remaining {
            self.text.append(line);
            self.text.push('\n');
            proof {
                assert(self.text@ =~= before + line@ + seq!['\n']);
                text::lemma_byte_len_concat(before + line@, seq!['\n']);
                text::lemma_byte_len_concat(before, line@);
                text::lemma_byte_len_one('\n');
                assert(text::char_width('\n') == 1);
            }
        } else {
            let k: usize = text::chars_within(line, remaining);
            self.text.append(line.substring_char(0, k));
            self.truncated = true;
            proof {
                assert(line@.subrange(0, k as int) =~= line@.take(k as int));
                text::lemma_byte_len_concat(before, line@.take(k as int));
            }
        }
    }

    /// What was kept, without white space at the end, and a note if something was left out.
    pub fn captured_text(&self) -> (s: String)
        ensures
            s@ == text::trimmed_end(self.kept()) + (if self.is_truncated() {
                " (truncated)"@
            } else {
                Seq::empty()
            }),
    {
        let mut s: String = text::trim_end(self.text.as_str()).to_owned();
        if self.truncated {
            s.append(" (truncated)");
        } else {
            proof {
                assert(s@ + Seq::<char>::empty() =~= s@);
            }
        }
        s
    }
}

/// Whether a text in lower case says that a port is taken.
pub open spec fn port_is_taken(lower: Seq<char>) -> bool {
    text::occurs(lower, "address already in use"@) || text::occurs(lower, "cannot listen to port"@)
}

/// Whether ssh says that the local port of the forwarding is taken.
pub open spec fn bind_failure(stderr: Seq<char>) -> bool {
    port_is_taken(text::lowercase(stderr))
}

/// Whether the text that ssh wrote, in lower case, says that the local port is taken.
pub fn says_port_is_taken(lower: &str) -> (taken: bool)
    ensures
        taken == port_is_taken(lower@),
{
    text::contains_text(lower, "address already in use") || text::contains_text(
        lower,
        "cannot listen to port",
    )
}

/// Whether ssh exited because the local port of the forwarding is taken.
pub fn is_forward_bind_failure(stderr: &str) -> (taken: bool)
    ensures
        taken == bind_failure(stderr@),
        text::all_ascii(stderr@) ==> taken == port_is_taken(text::ascii_lowered(stderr@)),
{
    says_port_is_taken(text::to_lowercase(stderr).as_str())
}

/// A line that ssh wrote, as text and without its line break. What is no UTF-8 in it is replaced: ssh
/// passes on what servers say in whatever encoding.
pub fn line_text(bytes: &Vec<u8>) -> (line: String)
    ensures
        line@ == text::without_breaks(text::lossy(bytes@)),
        vstd::utf8::valid_utf8(bytes@) ==> line@ == text::without_breaks(
            vstd::utf8::decode_utf8(bytes@),
        ),
{
    let whole: String = text::from_utf8_lossy(bytes);
    text::trim_breaks(whole.as_str()).to_owned()
}

/// Whether a line that ssh wrote says that ssh itself listens on the local port.
pub open spec fn says_forwarding(line: Seq<char>, local_port: u16) -> bool {
    &&& text::occurs(line, "Local forwarding listening on "@)
    &&& text::occurs(line, " port "@ + text::decimal(local_port as nat) + "."@)
}

/// The line with which ssh reports a forwarding confirms the port it names, and no other: not one
/// whose digits begin with, or end in, those of the port.
pub proof fn law_a_line_confirms_the_port_it_names(
    before: Seq<char>,
    address: Seq<char>,
    named: u16,
    behind: Seq<char>,
    local_port: u16,
)
    requires
        !before.contains('p'),
        !address.contains('p'),
        !behind.contains('p'),
    ensures
        says_forwarding(
            before + "Local forwarding listening on "@ + address + " port "@ + text::decimal(
                named as nat,
            ) + "."@ + behind,
            local_port,
        ) <==> named == local_port,
{
    let phrase = "Local forwarding listening on "@;
    let digits = text::decimal(named as nat);
    let wanted = text::decimal(local_port as nat);
    let head = before + phrase + address;
    let line = head + " port "@ + digits + "."@ + behind;
    let needle = " port "@ + wanted + "."@;
    text::law_decimal_reads_back(named as nat);
    text::law_decimal_reads_back(local_port as nat);
    assert(text::occurs(line, phrase)) by {
        text::law_occurs_between_two_parts(line, phrase);
        assert(line =~= before + phrase + (address + " port "@ + digits + "."@ + behind));
    }
    if named == local_port {
        text::law_occurs_between_two_parts(line, needle);
        assert(line =~= head + needle + behind);
    }
    if text::occurs(line, needle) {
        text::law_occurs_between_two_parts(line, needle);
        let (x, y) = choose|x: Seq<char>, y: Seq<char>| line == #[trigger] (x + needle + y);
        lemma_head_without_p(before, address);
        lemma_needle_places(head, digits, behind, x, wanted, y);
    }
}

/// Before the port there is no `p`.
proof fn lemma_head_without_p(before: Seq<char>, address: Seq<char>)
    requires
        !before.contains('p'),
        !address.contains('p'),
    ensures
        !(before + "Local forwarding listening on "@ + address).contains('p'),
{
    reveal_strlit("Local forwarding listening on ");
    let phrase = "Local forwarding listening on "@;
    let head = before + phrase + address;
    assert forall|j: int| 0 <= j < head.len() implies head[j] != 'p' by {
        if j < before.len() {
            assert(before.contains(before[j]));
        } else if j < before.len() + phrase.len() {
            lemma_phrase_characters(j - before.len());
        } else {
            assert(address.contains(address[j - before.len() - phrase.len()]));
        }
    }
}

/// Where only one `p` stands in a line, two ways to read a port behind it are the same.
proof fn lemma_needle_places(
    head: Seq<char>,
    digits: Seq<char>,
    behind: Seq<char>,
    x: Seq<char>,
    wanted: Seq<char>,
    y: Seq<char>,
)
    requires
        !head.contains('p'),
        !behind.contains('p'),
        text::is_number(digits),
        text::is_number(wanted),
        head + " port "@ + digits + "."@ + behind == x + (" port "@ + wanted + "."@) + y,
    ensures
        digits == wanted,
{
    reveal_strlit(" port ");
    reveal_strlit(".");
    let line = head + " port "@ + digits + "."@ + behind;
    let again = x + (" port "@ + wanted + "."@) + y;
    let h = head.len() as int;
    let j = x.len() as int + 1;
    assert(line.len() == h + 7 + digits.len() + behind.len());
    assert(again.len() == x.len() + 7 + wanted.len() + y.len());
    assert(again[j] == " port "@[1]);
    assert(line[j] == 'p');
    assert(j == h + 1) by {
        if j < h {
            assert(head.contains(head[j]));
        } else if j < h + 6 {
            assert(line[j] == " port "@[j - h]);
            assert(j == h || j == h + 1 || j == h + 2 || j == h + 3 || j == h + 4 || j == h + 5);
        } else if j < h + 6 + digits.len() {
            assert(line[j] == digits[j - h - 6]);
        } else if j == h + 6 + digits.len() {
            assert(line[j] == '.');
        } else {
            let k = j - h - 7 - digits.len();
            assert(line[j] == behind[k]);
            assert(behind.contains(behind[k]));
        }
    }
    assert(line.skip(h + 6) =~= digits + seq!['.'] + behind);
    assert(again.skip(h + 6) =~= wanted + seq!['.'] + y);
    assert(!digits.contains('.') && !wanted.contains('.'));
    text::lemma_first_separator(digits, behind, wanted, y, '.');
}

proof fn lemma_phrase_characters(i: int)
    requires
        0 <= i < 30,
    ensures
        "Local forwarding listening on "@[i] != 'p',
{
    reveal_strlit("Local forwarding listening on ");
}

/// A line without the report of a forwarding confirms no port.
pub proof fn law_other_lines_confirm_nothing(line: Seq<char>, local_port: u16)
    requires
        forall|before: Seq<char>, behind: Seq<char>|
            line != #[trigger] (before + "Local forwarding listening on "@ + behind),
    ensures
        !says_forwarding(line, local_port),
{
    text::law_occurs_between_two_parts(line, "Local forwarding listening on "@);
}

/// A port counts as taken exactly if one of two things is said somewhere in what ssh wrote.
pub proof fn law_a_taken_port_is_said_to_be(lower: Seq<char>)
    ensures
        port_is_taken(lower) <==> {
            ||| exists|before: Seq<char>, behind: Seq<char>|
                lower == #[trigger] (before + "address already in use"@ + behind)
            ||| exists|before: Seq<char>, behind: Seq<char>|
                lower == #[trigger] (before + "cannot listen to port"@ + behind)
        },
{
    text::law_occurs_between_two_parts(lower, "address already in use"@);
    text::law_occurs_between_two_parts(lower, "cannot listen to port"@);
}

/// Whether a line that ssh wrote says that ssh itself listens on the local port. Only this line
/// tells: a port that answers may belong to another process.
pub fn confirms_forward(line: &str, local_port: u16) -> (confirmed: bool)
    ensures
        confirmed == says_forwarding(line@, local_port),
{
    let mut place: String = " port ".to_owned();
    place.append(text::decimal_string(local_port as u64).as_str());
    place.append(".");
    text::contains_text(line, "Local forwarding listening on ") && text::contains_text(
        line,
        place.as_str(),
    )
}

/// What ssh wrote, as the end of a message.
pub open spec fn suffix_of(stderr: Seq<char>) -> Seq<char> {
    let t = text::trimmed(stderr);
    if t.len() == 0 {
        Seq::empty()
    } else {
        ": "@ + t
    }
}

/// What ssh wrote, as the end of a message.
pub fn stderr_suffix(stderr: &str) -> (s: String)
    ensures
        s@ == suffix_of(stderr@),
{
    let t: &str = text::trim(stderr);
    if t.is_empty() {
        String::new()
    } else {
        let mut s: String = ": ".to_owned();
        s.append(t);
        s
    }
}

/// How many attempts to open a tunnel are left.
#[derive(Debug, Clone, Copy, PartialEq, Eq, Structural)]
pub struct OpenAttempts {
    pub left: u32,
}

/// What happened while a tunnel was being opened.
#[derive(Debug, PartialEq, Eq)]
pub enum OpenStep {
    /// A local port was picked, or none could be.
    Reserved(Result<u16, String>),
    /// Something does, or does not, already listen on the picked port.
    Probed { local_port: u16, occupied: bool },
    /// ssh could not be started.
    SpawnFailed(TunnelError),
    /// ssh was started, and forwards or does not.
    Waited(Result<(), TunnelError>),
}

/// What to do next to open a tunnel.
#[derive(Debug, Clone, PartialEq, Eq)]
pub enum OpenAction {
    ReservePort,
    ProbePort(u16),
    SpawnAndWait(u16),
    Opened,
    Failed(TunnelError),
}

impl OpenAttempts {
    /// The start: at least one attempt.
    pub fn new(port_attempts: u32) -> (a: Self)
        ensures
            a.left == (if port_attempts == 0 {
                1
            } else {
                port_attempts
            }),
    {
        OpenAttempts {
            left: if port_attempts == 0 {
                1
            } else {
                port_attempts
            },
        }
    }

    /// Whether an error is one that another port may cure: the port is taken.
    pub open spec fn worth_retrying(e: TunnelError) -> bool {
        match e {
            TunnelError::PortOccupied { .. } => true,
            TunnelError::SshExited { status, stderr } => bind_failure(stderr@),
            _ => false,
        }
    }

    /// The attempt failed in a way that another port may cure: goes on while attempts are left.
    fn retry(&mut self, e: TunnelError) -> (action: OpenAction)
        requires
            old(self).left > 0,
        ensures
            retried(*old(self), *final(self), e, action),
    {
        self.left = self.left - 1;
        if self.left == 0 {
            OpenAction::Failed(e)
        } else {
            OpenAction::ReservePort
        }
    }

    /// What to do after a step. A port that is taken costs an attempt; every other failure ends
    /// the opening.
    pub fn next(&mut self, step: OpenStep) -> (action: OpenAction)
        requires
            old(self).left > 0,
        ensures
            opening(*old(self), step, *final(self), action),
            !(action is Failed) ==> final(self).left > 0,
    {
        match step {
            OpenStep::Reserved(Ok(port)) => OpenAction::ProbePort(port),
            OpenStep::Reserved(Err(cause)) => OpenAction::Failed(
                TunnelError::PortReservation { cause },
            ),
            OpenStep::Probed { local_port, occupied } => if occupied {
                self.retry(TunnelError::PortOccupied { local_port })
            } else {
                OpenAction::SpawnAndWait(local_port)
            },
            OpenStep::SpawnFailed(e) => OpenAction::Failed(e),
            OpenStep::Waited(Ok(())) => OpenAction::Opened,
            OpenStep::Waited(Err(e)) => {
                let again: bool = match &e {
                    TunnelError::SshExited { status, stderr } => is_forward_bind_failure(
                        stderr.as_str(),
                    ),
                    _ => false,
                };
                if again {
                    self.retry(e)
                } else {
                    OpenAction::Failed(e)
                }
            },
        }
    }
}

/// An attempt was used up by `e`: the last one ends the opening with it, another one goes on.
pub open spec fn retried(
    before: OpenAttempts,
    after: OpenAttempts,
    e: TunnelError,
    action: OpenAction,
) -> bool {
    &&& after.left == before.left - 1
    &&& action == if before.left == 1 {
        OpenAction::Failed(e)
    } else {
        OpenAction::ReservePort
    }
}

/// How the opening of a tunnel goes on after a step. A port that is taken costs an attempt; every
/// other failure ends the opening.
pub open spec fn opening(
    before: OpenAttempts,
    step: OpenStep,
    after: OpenAttempts,
    action: OpenAction,
) -> bool {
    match step {
        OpenStep::Reserved(Ok(port)) => action == OpenAction::ProbePort(port) && after == before,
        OpenStep::Reserved(Err(cause)) => action == OpenAction::Failed(
            TunnelError::PortReservation { cause },
        ) && after == before,
        OpenStep::Probed { local_port, occupied } => if occupied {
            retried(before, after, TunnelError::PortOccupied { local_port }, action)
        } else {
            action == OpenAction::SpawnAndWait(local_port) && after == before
        },
        OpenStep::SpawnFailed(e) => action == OpenAction::Failed(e) && after == before,
        OpenStep::Waited(Ok(())) => action == OpenAction::Opened && after == before,
        OpenStep::Waited(Err(e)) => if e is SshExited && OpenAttempts::worth_retrying(e) {
            retried(before, after, e, action)
        } else {
            action == OpenAction::Failed(e) && after == before
        },
    }
}

/// A tunnel is open exactly when ssh forwards. ssh is started only on a port that was found free, and
/// on that port. Another port is tried only where one was taken, as found before ssh was started or
/// said by ssh, and an attempt is left; else a failure ends the opening, as it was reported.
pub proof fn law_a_tunnel_is_opened_on_a_free_port(
    before: OpenAttempts,
    step: OpenStep,
    after: OpenAttempts,
    action: OpenAction,
)
    requires
        before.left > 0,
        opening(before, step, after, action),
    ensures
        action is Opened <==> (step matches OpenStep::Waited(r) && r is Ok),
        action matches OpenAction::SpawnAndWait(port) ==> step == (OpenStep::Probed {
            local_port: port,
            occupied: false,
        }),
        action matches OpenAction::ProbePort(port) ==> step == OpenStep::Reserved(Ok(port)),
        action is ReservePort ==> before.left > 1 && {
            ||| step matches OpenStep::Probed { local_port, occupied } && occupied
            ||| step matches OpenStep::Waited(Err(TunnelError::SshExited { status, stderr }))
                && bind_failure(stderr@)
        },
        (step matches OpenStep::Probed { local_port, occupied } && occupied) && before.left > 1
            ==> action is ReservePort,
        (step matches OpenStep::Waited(Err(TunnelError::SshExited { status, stderr }))
            && bind_failure(stderr@)) && before.left > 1 ==> action is ReservePort,
        after.left != before.left ==> after.left == before.left - 1 && (action is ReservePort
            || action is Failed),
        step matches OpenStep::SpawnFailed(e) ==> action == OpenAction::Failed(e),
        (step matches OpenStep::Waited(r) && r is Err) && !(action is ReservePort) ==> action
            == OpenAction::Failed(step->Waited_0->Err_0),
{
}

/// Opening a tunnel comes to an end: a port that is taken leaves fewer attempts, and the last one
/// ends it.
pub proof fn law_attempts_run_out(
    before: OpenAttempts,
    after: OpenAttempts,
    e: TunnelError,
    action: OpenAction,
)
    requires
        before.left > 0,
        retried(before, after, e, action),
    ensures
        after.left < before.left,
        action is ReservePort <==> after.left > 0,
        action == OpenAction::Failed(e) <==> after.left == 0,
{
}

/// How the ssh process is doing.
#[derive(Debug, Clone, PartialEq, Eq)]
pub enum ChildStatus {
    Running,
    Exited { status: String },
    Unknown { cause: String },
}

/// What to do next while waiting for ssh to forward.
#[derive(Debug, Clone, PartialEq, Eq)]
pub enum WaitAction {
    /// Try to connect to the local port.
    Probe,
    /// Wait a moment, then look once more whether ssh is still running.
    Settle,
    /// Wait for the probe interval, then look whether ssh is running.
    Sleep,
    /// The tunnel is ready.
    Ready,
    /// Collect what ssh wrote and report that it exited.
    Exited { status: String },
    /// Report that ssh could not be waited for.
    WaitFailed { cause: String },
    /// Collect what ssh wrote, stop it, and report the timeout.
    TimedOut,
}

/// What to do once it is known how ssh is doing.
pub open spec fn action_for(status: ChildStatus, connected: bool) -> WaitAction {
    match status {
        ChildStatus::Running => if connected {
            WaitAction::Ready
        } else {
            WaitAction::Probe
        },
        ChildStatus::Exited { status } => WaitAction::Exited { status },
        ChildStatus::Unknown { cause } => WaitAction::WaitFailed { cause },
    }
}

/// What to do once the local port was tried.
pub open spec fn action_after_probe(
    connected: bool,
    elapsed_ms: u64,
    ready_timeout_ms: u64,
) -> WaitAction {
    if connected {
        WaitAction::Settle
    } else if elapsed_ms >= ready_timeout_ms {
        WaitAction::TimedOut
    } else {
        WaitAction::Sleep
    }
}

/// A tunnel counts as ready only if its port answered and ssh was still running after that: a port that
/// answers while ssh is gone belongs to another process. The wait times out exactly if the port has not
/// answered when the time is over, and time that is over stays over.
pub proof fn law_a_tunnel_is_ready_while_ssh_runs(
    status: ChildStatus,
    connected: bool,
    elapsed_ms: u64,
    later_ms: u64,
    ready_timeout_ms: u64,
)
    ensures
        action_for(status, connected) is Ready <==> status is Running && connected,
        action_for(status, connected) is Exited <==> status is Exited,
        status matches ChildStatus::Exited { status: s } ==> action_for(status, connected) == (
        WaitAction::Exited { status: s }),
        status matches ChildStatus::Unknown { cause } ==> action_for(status, connected) == (
        WaitAction::WaitFailed { cause }),
        action_for(status, connected) is Probe <==> status is Running && !connected,
        !(action_after_probe(connected, elapsed_ms, ready_timeout_ms) is Ready),
        action_after_probe(connected, elapsed_ms, ready_timeout_ms) is Settle <==> connected,
        action_after_probe(connected, elapsed_ms, ready_timeout_ms) is TimedOut <==> !connected
            && ready_timeout_ms <= elapsed_ms,
        elapsed_ms <= later_ms && action_after_probe(connected, elapsed_ms, ready_timeout_ms)
            is TimedOut ==> action_after_probe(connected, later_ms, ready_timeout_ms) is TimedOut,
{
}

/// What to do once it is known how ssh is doing. `connected` says whether its port has already
/// answered: a port that answers while ssh is gone belongs to another process.
pub fn after_status(status: ChildStatus, connected: bool) -> (action: WaitAction)
    ensures
        action == action_for(status, connected),
{
    match status {
        ChildStatus::Running => if connected {
            WaitAction::Ready
        } else {
            WaitAction::Probe
        },
        ChildStatus::Exited { status } => WaitAction::Exited { status },
        ChildStatus::Unknown { cause } => WaitAction::WaitFailed { cause },
    }
}

/// What to do once the local port was tried: it answered, or it did not and there is time left, or
/// there is none.
pub fn after_probe(connected: bool, elapsed_ms: u64, ready_timeout_ms: u64) -> (action: WaitAction)
    ensures
        action == action_after_probe(connected, elapsed_ms, ready_timeout_ms),
{
    if connected {
        WaitAction::Settle
    } else if elapsed_ms >= ready_timeout_ms {
        WaitAction::TimedOut
    } else {
        WaitAction::Sleep
    }
}

/// Whether a tunnel that was opened still lives; `stderr` is what ssh wrote.
pub fn check_alive(status: ChildStatus, stderr: String) -> (r: Result<(), TunnelError>)
    ensures
        r == (match status {
            ChildStatus::Running => Ok::<(), TunnelError>(()),
            ChildStatus::Exited { status } => Err(TunnelError::SshExited { status, stderr }),
            ChildStatus::Unknown { cause } => Err(TunnelError::Wait { cause }),
        }),
{
    match status {
        ChildStatus::Running => Ok(()),
        ChildStatus::Exited { status } => Err(TunnelError::SshExited { status, stderr }),
        ChildStatus::Unknown { cause } => Err(TunnelError::Wait { cause }),
    }
}

/// Whether to wait longer for the reader of ssh's standard error: until it has finished or the
/// budget is used up.
pub fn keep_draining(elapsed_ms: u64, budget_ms: u64, reader_finished: bool) -> (wait: bool)
    ensures
        wait == (elapsed_ms < budget_ms && !reader_finished),
{
    elapsed_ms < budget_ms && !reader_finished
}

/// The text of an error.
pub open spec fn message_of(e: TunnelError) -> Seq<char> {
    match e {
        TunnelError::InvalidField { name, field, reason } => "connection "@ + text::quoted(name@)
            + ": `"@ + field@ + "` "@ + reason@,
        TunnelError::PortReservation { cause } => "failed to reserve a local port on 127.0.0.1"@,
        TunnelError::PortOccupied { local_port } => "reserved local port "@ + text::decimal(
            local_port as nat,
        ) + " on 127.0.0.1 is already in use by another process"@,
        TunnelError::Spawn { program, cause } => "failed to spawn "@ + program@
            + ": is OpenSSH installed and on PATH?"@,
        TunnelError::SshExited { status, stderr } => "ssh exited ("@ + status@ + ")"@ + suffix_of(
            stderr@,
        ),
        TunnelError::ReadyTimeout { local_port, timeout_ms, stderr } => "timed out after "@
            + text::seconds(timeout_ms) + "s waiting for 127.0.0.1:"@ + text::decimal(
            local_port as nat,
        ) + " to accept connections"@ + suffix_of(stderr@),
        TunnelError::Wait { cause } => "failed to wait on the ssh process"@,
    }
}

/// The text of an error tells what it is about: the connection, its field and what is wrong with it;
/// the port; the program; how ssh exited; and, trimmed, what ssh wrote.
pub proof fn law_tunnel_errors_tell_what_they_are_about(e: TunnelError)
    ensures
        match e {
            TunnelError::InvalidField { name, field, reason } => text::occurs(
                message_of(e),
                text::quoted(name@),
            ) && text::occurs(message_of(e), field@) && text::occurs(message_of(e), reason@),
            TunnelError::PortOccupied { local_port } => text::occurs(
                message_of(e),
                seq![' '] + text::decimal(local_port as nat) + seq![' '],
            ),
            TunnelError::Spawn { program, cause } => text::occurs(message_of(e), program@),
            TunnelError::SshExited { status, stderr } => text::occurs(
                message_of(e),
                seq!['('] + status@ + seq![')'],
            ) && text::occurs(message_of(e), text::trimmed(stderr@)),
            TunnelError::ReadyTimeout { local_port, timeout_ms, stderr } => text::occurs(
                message_of(e),
                text::seconds(timeout_ms),
            ) && text::occurs(
                message_of(e),
                seq![':'] + text::decimal(local_port as nat) + seq![' '],
            ) && text::occurs(message_of(e), text::trimmed(stderr@)),
            _ => true,
        },
{
    let m = message_of(e);
    let none = Seq::<char>::empty();
    match e {
        TunnelError::InvalidField { name, field, reason } => {
            let q = text::quoted(name@);
            text::lemma_occurs_in(m, "connection "@, q, ": `"@ + field@ + "` "@ + reason@);
            text::lemma_occurs_in(m, "connection "@ + q + ": `"@, field@, "` "@ + reason@);
            text::lemma_occurs_in(m, "connection "@ + q + ": `"@ + field@ + "` "@, reason@, none);
        },
        TunnelError::PortOccupied { local_port } => {
            reveal_strlit("reserved local port ");
            reveal_strlit(" on 127.0.0.1 is already in use by another process");
            let d = text::decimal(local_port as nat);
            let head = "reserved local port "@;
            let tail = " on 127.0.0.1 is already in use by another process"@;
            assert(head =~= head.drop_last() + seq![' ']);
            assert(tail =~= seq![' '] + tail.drop_first());
            text::lemma_occurs_in(m, head.drop_last(), seq![' '] + d + seq![' '], tail.drop_first());
        },
        TunnelError::Spawn { program, cause } => {
            text::lemma_occurs_in(
                m,
                "failed to spawn "@,
                program@,
                ": is OpenSSH installed and on PATH?"@,
            );
        },
        TunnelError::SshExited { status, stderr } => {
            reveal_strlit("ssh exited (");
            reveal_strlit(")");
            let head = "ssh exited ("@;
            assert(head =~= head.drop_last() + seq!['(']);
            assert(")"@ =~= seq![')']);
            text::lemma_occurs_in(
                m,
                head.drop_last(),
                seq!['('] + status@ + seq![')'],
                suffix_of(stderr@),
            );
            lemma_suffix_occurs(m, head + status@ + ")"@, stderr@);
        },
        TunnelError::ReadyTimeout { local_port, timeout_ms, stderr } => {
            reveal_strlit("s waiting for 127.0.0.1:");
            reveal_strlit(" to accept connections");
            let d = text::decimal(local_port as nat);
            let s = text::seconds(timeout_ms);
            let mid = "s waiting for 127.0.0.1:"@;
            let tail = " to accept connections"@;
            let end = suffix_of(stderr@);
            text::lemma_occurs_in(m, "timed out after "@, s, mid + d + tail + end);
            assert(mid =~= mid.drop_last() + seq![':']);
            assert(tail =~= seq![' '] + tail.drop_first());
            text::lemma_occurs_in(
                m,
                "timed out after "@ + s + mid.drop_last(),
                seq![':'] + d + seq![' '],
                tail.drop_first() + end,
            );
            lemma_suffix_occurs(m, "timed out after "@ + s + mid + d + tail, stderr@);
        },
        _ => {},
    }
}

proof fn lemma_suffix_occurs(m: Seq<char>, head: Seq<char>, stderr: Seq<char>)
    requires
        m == head + suffix_of(stderr),
    ensures
        text::occurs(m, text::trimmed(stderr)),
{
    let t = text::trimmed(stderr);
    let none = Seq::<char>::empty();
    if t.len() == 0 {
        text::lemma_occurs_in(m, m, t, none);
    } else {
        text::lemma_occurs_in(m, head + ": "@, t, none);
    }
}

/// The text of an error, and of what caused it.
pub open spec fn chain_of(e: TunnelError) -> Seq<Seq<char>> {
    match e {
        TunnelError::PortReservation { cause } => seq![message_of(e), cause@],
        TunnelError::Spawn { program, cause } => seq![message_of(e), cause@],
        TunnelError::Wait { cause } => seq![message_of(e), cause@],
        _ => seq![message_of(e)],
    }
}

impl TunnelError {
    /// The text of the error.
    pub fn message(&self) -> (s: String)
        ensures
            s@ == message_of(*self),
    {
        match self {
            TunnelError::InvalidField { name, field, reason } => {
                let mut s: String = "connection ".to_owned();
                s.append(text::quote(name.as_str()).as_str());
                s.append(": `");
                s.append(field);
                s.append("` ");
                s.append(reason);
                s
            },
            TunnelError::PortReservation { cause } => {
                "failed to reserve a local port on 127.0.0.1".to_owned()
            },
            TunnelError::PortOccupied { local_port } => {
                let mut s: String = "reserved local port ".to_owned();
                s.append(text::decimal_string(*local_port as u64).as_str());
                s.append(" on 127.0.0.1 is already in use by another process");
                s
            },
            TunnelError::Spawn { program, cause } => {
                let mut s: String = "failed to spawn ".to_owned();
                s.append(program.as_str());
                s.append(": is OpenSSH installed and on PATH?");
                s
            },
            TunnelError::SshExited { status, stderr } => {
                let mut s: String = "ssh exited (".to_owned();
                s.append(status.as_str());
                s.append(")");
                s.append(stderr_suffix(stderr.as_str()).as_str());
                s
            },
            TunnelError::ReadyTimeout { local_port, timeout_ms, stderr } => {
                let mut s: String = "timed out after ".to_owned();
                s.append(text::seconds_text(*timeout_ms).as_str());
                s.append("s waiting for 127.0.0.1:");
                s.append(text::decimal_string(*local_port as u64).as_str());
                s.append(" to accept connections");
                s.append(stderr_suffix(stderr.as_str()).as_str());
                s
            },
            TunnelError::Wait { cause } => "failed to wait on the ssh process".to_owned(),
        }
    }

    /// The text of the error, and of what caused it.
    pub fn chain(&self) -> (texts: Vec<String>)
        ensures
            text::views(texts@) == chain_of(*self),
    {
        let mut texts: Vec<String> = Vec::new();
        texts.push(self.message());
        match self {
            TunnelError::PortReservation { cause } => texts.push(cause.clone()),
            TunnelError::Spawn { program, cause } => texts.push(cause.clone()),
            TunnelError::Wait { cause } => texts.push(cause.clone()),
            _ => {},
        }
        proof {
            assert(text::views(texts@) =~= chain_of(*self));
        }
        texts
    }
}

} // verus!
