//! The connections a user has configured, and the rules they must follow.
use crate::text;
use vstd::prelude::*;

pub mod paths;

verus! {

pub const DEFAULT_POSTGRES_PORT: u16 = 5432;

pub const CONFIG_FILE_NAME: &'static str = "config.toml";

pub const KEYRING_SERVICE: &'static str = "ratwarren";

/// All configured connections, in the order of the file.
#[derive(Debug, Clone, PartialEq, Eq)]
pub struct Config {
    pub connections: Vec<Connection>,
}

/// One database to connect to.
///
/// `host` is the address of Postgres as seen by whoever opens the connection to it: this machine
/// without a tunnel, the bastion with one. `group` is a flat label.
#[derive(Debug, Clone, PartialEq, Eq)]
pub struct Connection {
    pub name: String,
    pub group: Option<String>,
    pub host: String,
    pub port: u16,
    pub database: String,
    pub user: String,
    pub password: Option<SecretRef>,
    pub tunnel: Option<SshTunnel>,
}

/// The connections with one label; `None` is the label of those without a group.
#[derive(Debug, Clone, PartialEq, Eq)]
pub struct ConnectionGroup<'a> {
    pub label: Option<&'a str>,
    pub connections: Vec<&'a Connection>,
}

/// Where a password is kept.
#[derive(Debug, Clone, PartialEq, Eq)]
pub enum SecretRef {
    Keyring { account: Option<String> },
}

/// An SSH bastion to connect through: an ssh destination, and the login name and port to use
/// where ssh's own configuration is not to decide.
#[derive(Debug, Clone, PartialEq, Eq)]
pub struct SshTunnel {
    pub host: String,
    pub user: Option<String>,
    pub port: Option<u16>,
}

/// What is wrong with a configuration, or with the way to it.
#[derive(Debug, Clone, PartialEq, Eq)]
pub enum ConfigError {
    NoConfigDir,
    NoDataDir,
    Read { path: String, cause: String },
    Write { path: String, cause: String },
    Parse(String),
    Serialize(String),
    EmptyField { name: String, field: &'static str },
    ZeroPort { name: String, field: &'static str },
    InvalidField { name: String, field: &'static str, reason: &'static str },
    DuplicateConnectionName { name: String },
}

/// A `ConfigError` as a value.
pub enum ConfigErrorView {
    NoConfigDir,
    NoDataDir,
    Read { path: Seq<char>, cause: Seq<char> },
    Write { path: Seq<char>, cause: Seq<char> },
    Parse(Seq<char>),
    Serialize(Seq<char>),
    EmptyField { name: Seq<char>, field: Seq<char> },
    ZeroPort { name: Seq<char>, field: Seq<char> },
    InvalidField { name: Seq<char>, field: Seq<char>, reason: Seq<char> },
    DuplicateConnectionName { name: Seq<char> },
}

impl View for ConfigError {
    type V = ConfigErrorView;

    open spec fn view(&self) -> ConfigErrorView {
        match self {
            ConfigError::NoConfigDir => ConfigErrorView::NoConfigDir,
            ConfigError::NoDataDir => ConfigErrorView::NoDataDir,
            ConfigError::Read { path, cause } => ConfigErrorView::Read {
                path: path@,
                cause: cause@,
            },
            ConfigError::Write { path, cause } => ConfigErrorView::Write {
                path: path@,
                cause: cause@,
            },
            ConfigError::Parse(m) => ConfigErrorView::Parse(m@),
            ConfigError::Serialize(m) => ConfigErrorView::Serialize(m@),
            ConfigError::EmptyField { name, field } => ConfigErrorView::EmptyField {
                name: name@,
                field: field@,
            },
            ConfigError::ZeroPort { name, field } => ConfigErrorView::ZeroPort {
                name: name@,
                field: field@,
            },
            ConfigError::InvalidField { name, field, reason } => ConfigErrorView::InvalidField {
                name: name@,
                field: field@,
                reason: reason@,
            },
            ConfigError::DuplicateConnectionName { name } => {
                ConfigErrorView::DuplicateConnectionName { name: name@ }
            },
        }
    }
}

/// An `SshTunnel` as a value.
pub struct SshTunnelView {
    pub host: Seq<char>,
    pub user: Option<Seq<char>>,
    pub port: Option<u16>,
}

impl View for SshTunnel {
    type V = SshTunnelView;

    open spec fn view(&self) -> SshTunnelView {
        SshTunnelView { host: self.host@, user: text::opt_view(self.user), port: self.port }
    }
}

/// A `Connection` as a value; the password is the account it is kept under, if one is named.
pub struct ConnectionView {
    pub name: Seq<char>,
    pub group: Option<Seq<char>>,
    pub host: Seq<char>,
    pub port: u16,
    pub database: Seq<char>,
    pub user: Seq<char>,
    pub password: Option<Option<Seq<char>>>,
    pub tunnel: Option<SshTunnelView>,
}

impl View for Connection {
    type V = ConnectionView;

    open spec fn view(&self) -> ConnectionView {
        ConnectionView {
            name: self.name@,
            group: text::opt_view(self.group),
            host: self.host@,
            port: self.port,
            database: self.database@,
            user: self.user@,
            password: match self.password {
                Some(SecretRef::Keyring { account }) => Some(text::opt_view(account)),
                None => None,
            },
            tunnel: match self.tunnel {
                Some(t) => Some(t@),
                None => None,
            },
        }
    }
}

/// What is wrong with a bastion and the host behind it, the first rule that is broken.
pub open spec fn tunnel_fault(name: Seq<char>, t: SshTunnelView, host: Seq<char>) -> Option<
    ConfigErrorView,
> {
    if text::blank(t.host) {
        Some(ConfigErrorView::EmptyField { name, field: "tunnel.host"@ })
    } else if t.host[0] == '-' {
        Some(
            ConfigErrorView::InvalidField {
                name,
                field: "tunnel.host"@,
                reason: "must not start with '-'"@,
            },
        )
    } else if t.host.contains(':') {
        Some(
            ConfigErrorView::InvalidField {
                name,
                field: "tunnel.host"@,
                reason: "must not contain ':'"@,
            },
        )
    } else if t.host.contains('@') {
        Some(
            ConfigErrorView::InvalidField {
                name,
                field: "tunnel.host"@,
                reason: "must not contain '@' — put the login name in `user` instead"@,
            },
        )
    } else if t.user is Some && text::blank(t.user->0) {
        Some(ConfigErrorView::EmptyField { name, field: "tunnel.user"@ })
    } else if t.user is Some && t.user->0[0] == '-' {
        Some(
            ConfigErrorView::InvalidField {
                name,
                field: "tunnel.user"@,
                reason: "must not start with '-'"@,
            },
        )
    } else if t.port == Some(0u16) {
        Some(ConfigErrorView::ZeroPort { name, field: "tunnel.port"@ })
    } else if host.contains(':') && !text::ipv6_literal(host) {
        Some(
            ConfigErrorView::InvalidField {
                name,
                field: "host"@,
                reason: "must not contain ':' unless it is an IPv6 literal"@,
            },
        )
    } else {
        None
    }
}

/// What is wrong with a connection, the first rule that is broken: no field may be blank, no port
/// may be 0, and the bastion and the host behind it must be fit for an ssh command line.
pub open spec fn connection_fault(c: ConnectionView) -> Option<ConfigErrorView> {
    if text::blank(c.name) {
        Some(ConfigErrorView::EmptyField { name: c.name, field: "name"@ })
    } else if c.group is Some && text::blank(c.group->0) {
        Some(ConfigErrorView::EmptyField { name: c.name, field: "group"@ })
    } else if text::blank(c.host) {
        Some(ConfigErrorView::EmptyField { name: c.name, field: "host"@ })
    } else if text::blank(c.database) {
        Some(ConfigErrorView::EmptyField { name: c.name, field: "database"@ })
    } else if text::blank(c.user) {
        Some(ConfigErrorView::EmptyField { name: c.name, field: "user"@ })
    } else if c.port == 0 {
        Some(ConfigErrorView::ZeroPort { name: c.name, field: "port"@ })
    } else if c.tunnel is Some && tunnel_fault(c.name, c.tunnel->0, c.host) is Some {
        tunnel_fault(c.name, c.tunnel->0, c.host)
    } else if c.password is Some && c.password->0 is Some && text::blank(c.password->0->0) {
        Some(ConfigErrorView::EmptyField { name: c.name, field: "password.account"@ })
    } else {
        None
    }
}

/// What is wrong with the first `n` connections: the first one that is faulty by itself, or that
/// has the name of one before it.
pub open spec fn config_fault(conns: Seq<Connection>, n: int) -> Option<ConfigErrorView>
    decreases n,
{
    if n <= 0 {
        None
    } else {
        let c = conns[n - 1]@;
        if config_fault(conns, n - 1) is Some {
            config_fault(conns, n - 1)
        } else if connection_fault(c) is Some {
            connection_fault(c)
        } else if exists|j: int| 0 <= j < n - 1 && (#[trigger] conns[j])@.name == c.name {
            Some(ConfigErrorView::DuplicateConnectionName { name: c.name })
        } else {
            None
        }
    }
}

proof fn lemma_config_fault_prefix(conns: Seq<Connection>, k: int, n: int)
    requires
        0 <= k <= n,
        config_fault(conns, k) is Some,
    ensures
        config_fault(conns, n) == config_fault(conns, k),
    decreases n,
{
    if k < n {
        lemma_config_fault_prefix(conns, k, n - 1);
    }
}

/// In a configuration without fault no connection is faulty and no two have one name.
pub proof fn law_valid_config(conns: Seq<Connection>)
    requires
        config_fault(conns, conns.len() as int) is None,
    ensures
        forall|i: int| 0 <= i < conns.len() ==> connection_fault((#[trigger] conns[i])@) is None,
        forall|i: int, j: int|
            0 <= i < j < conns.len() ==> (#[trigger] conns[i])@.name != (#[trigger] conns[j])@.name,
{
    assert forall|i: int| 0 <= i < conns.len() implies connection_fault(
        (#[trigger] conns[i])@,
    ) is None by {
        if config_fault(conns, i + 1) is Some {
            lemma_config_fault_prefix(conns, i + 1, conns.len() as int);
        }
        if config_fault(conns, i) is Some {
            lemma_config_fault_prefix(conns, i, conns.len() as int);
        }
    }
    assert forall|i: int, j: int| 0 <= i < j < conns.len() implies (#[trigger] conns[i])@.name != (
    #[trigger] conns[j])@.name by {
        if config_fault(conns, j + 1) is Some {
            lemma_config_fault_prefix(conns, j + 1, conns.len() as int);
        }
        if config_fault(conns, j) is Some {
            lemma_config_fault_prefix(conns, j, conns.len() as int);
        }
    }
}

/// Whether there is something in a text besides white space.
pub open spec fn has_content(s: Seq<char>) -> bool {
    exists|i: int| 0 <= i < s.len() && !text::is_white_space(#[trigger] s[i])
}

/// A connection is accepted exactly if its name, host, database and user have content, so do its group
/// and its password's account where they are given, its port is not 0, and what it says of a bastion
/// is fit for an ssh command line: a host that has content, does not begin with a hyphen and holds
/// neither a colon nor an at sign, a user that has content and does not begin with a hyphen, a port
/// that is not 0, and behind it a host without a colon or an IPv6 address.
pub proof fn law_which_connections_are_accepted(c: ConnectionView)
    ensures
        connection_fault(c) is None <==> {
            &&& has_content(c.name)
            &&& c.group matches Some(group) ==> has_content(group)
            &&& has_content(c.host)
            &&& has_content(c.database)
            &&& has_content(c.user)
            &&& c.port != 0
            &&& c.password matches Some(Some(account)) ==> has_content(account)
            &&& c.tunnel matches Some(t) ==> {
                &&& has_content(t.host)
                &&& t.host[0] != '-'
                &&& forall|i: int|
                    0 <= i < t.host.len() ==> #[trigger] t.host[i] != ':' && t.host[i] != '@'
                &&& t.user matches Some(user) ==> has_content(user) && user[0] != '-'
                &&& t.port != Some(0u16)
                &&& text::ipv6_literal(c.host) || forall|i: int|
                    0 <= i < c.host.len() ==> #[trigger] c.host[i] != ':'
            }
        },
{
    if c.tunnel is Some {
        let t = c.tunnel->0;
        if connection_fault(c) is None {
            assert forall|i: int| 0 <= i < t.host.len() implies #[trigger] t.host[i] != ':'
                && t.host[i] != '@' by {
                assert(t.host.contains(t.host[i]));
            }
            if !text::ipv6_literal(c.host) {
                assert forall|i: int| 0 <= i < c.host.len() implies #[trigger] c.host[i] != ':' by {
                    assert(c.host.contains(c.host[i]));
                }
            }
        }
    }
}

/// Whether a field of a connection, by its name in the file, is a text that has no content.
pub open spec fn is_empty_field(c: ConnectionView, field: Seq<char>) -> bool {
    ||| field == "name"@ && !has_content(c.name)
    ||| field == "group"@ && (c.group matches Some(group) && !has_content(group))
    ||| field == "host"@ && !has_content(c.host)
    ||| field == "database"@ && !has_content(c.database)
    ||| field == "user"@ && !has_content(c.user)
    ||| field == "tunnel.host"@ && (c.tunnel matches Some(t) && !has_content(t.host))
    ||| field == "tunnel.user"@ && (c.tunnel matches Some(t) && t.user matches Some(user)
        && !has_content(user))
    ||| field == "password.account"@ && (c.password matches Some(Some(account)) && !has_content(
        account,
    ))
}

/// The error for a connection names the connection, and a field that is at fault in the way that the
/// error says.
pub proof fn law_the_error_blames_a_faulty_field(c: ConnectionView)
    ensures
        connection_fault(c) matches Some(e) ==> match e {
            ConfigErrorView::EmptyField { name, field } => name == c.name && is_empty_field(
                c,
                field,
            ),
            ConfigErrorView::ZeroPort { name, field } => name == c.name && ((field == "port"@
                && c.port == 0) || (field == "tunnel.port"@ && (c.tunnel matches Some(t) && t.port
                == Some(0u16)))),
            ConfigErrorView::InvalidField { name, field, reason } => name == c.name && (
            c.tunnel matches Some(t) && {
                ||| field == "tunnel.host"@ && reason == "must not start with '-'"@ && t.host[0]
                    == '-'
                ||| field == "tunnel.host"@ && reason == "must not contain ':'"@ && t.host.contains(
                    ':',
                )
                ||| field == "tunnel.host"@ && reason
                    == "must not contain '@' — put the login name in `user` instead"@
                    && t.host.contains('@')
                ||| field == "tunnel.user"@ && reason == "must not start with '-'"@ && (
                t.user matches Some(user) && user[0] == '-')
                ||| field == "host"@ && reason == "must not contain ':' unless it is an IPv6 literal"@
                    && c.host.contains(':')
            }),
            _ => false,
        },
{
}

/// A configuration is accepted exactly if each of its connections is and no two have one name. Else
/// the error is that of the first connection that is refused by itself or has the name of one before
/// it.
pub proof fn law_the_first_fault_is_reported(conns: Seq<Connection>, n: int)
    requires
        0 <= n <= conns.len(),
    ensures
        config_fault(conns, n) is None <==> (forall|i: int|
            0 <= i < n ==> connection_fault((#[trigger] conns[i])@) is None) && (forall|i: int, j: int|
            0 <= i < j < n ==> (#[trigger] conns[i])@.name != (#[trigger] conns[j])@.name),
        config_fault(conns, n) matches Some(e) ==> exists|i: int| #[trigger]
            is_first_fault(conns, i, e) && i < n,
    decreases n,
{
    if n > 0 {
        law_the_first_fault_is_reported(conns, n - 1);
        if config_fault(conns, n) is Some && config_fault(conns, n - 1) is None {
            assert(is_first_fault(conns, n - 1, config_fault(conns, n)->0));
        }
    }
}

/// Whether `e` is the error of the connection at `i`, and all before it are in order.
pub open spec fn is_first_fault(conns: Seq<Connection>, i: int, e: ConfigErrorView) -> bool {
    &&& 0 <= i < conns.len()
    &&& forall|j: int| 0 <= j < i ==> connection_fault((#[trigger] conns[j])@) is None
    &&& forall|j: int, k: int|
        0 <= j < k < i ==> (#[trigger] conns[j])@.name != (#[trigger] conns[k])@.name
    &&& match connection_fault(conns[i]@) {
        Some(own) => e == own,
        None => e == (ConfigErrorView::DuplicateConnectionName { name: conns[i]@.name })
            && exists|j: int| 0 <= j < i && (#[trigger] conns[j])@.name == conns[i]@.name,
    }
}

/// The group label of a connection.
pub open spec fn label_of(c: Connection) -> Option<Seq<char>> {
    text::opt_view(c.group)
}

/// The labels of the first `n` connections, each once, in the order of their first appearance.
pub open spec fn labels(conns: Seq<Connection>, n: int) -> Seq<Option<Seq<char>>>
    decreases n,
{
    if n <= 0 {
        Seq::empty()
    } else {
        let before = labels(conns, n - 1);
        if before.contains(label_of(conns[n - 1])) {
            before
        } else {
            before.push(label_of(conns[n - 1]))
        }
    }
}

/// Those of the first `n` connections that have the label, in their order.
pub open spec fn members(conns: Seq<Connection>, label: Option<Seq<char>>, n: int) -> Seq<
    Connection,
>
    decreases n,
{
    if n <= 0 {
        Seq::empty()
    } else if label_of(conns[n - 1]) == label {
        members(conns, label, n - 1).push(conns[n - 1])
    } else {
        members(conns, label, n - 1)
    }
}

/// The label of a group, as a value.
pub open spec fn group_label(g: ConnectionGroup<'_>) -> Option<Seq<char>> {
    match g.label {
        Some(l) => Some(l@),
        None => None,
    }
}

/// `g` holds the first `n` connections' members with its label.
pub open spec fn is_group(conns: Seq<Connection>, g: ConnectionGroup<'_>, n: int) -> bool {
    let m = members(conns, group_label(g), n);
    &&& g.connections@.len() == m.len()
    &&& forall|k: int| 0 <= k < m.len() ==> *(#[trigger] g.connections@[k]) == m[k]
}

proof fn lemma_members_without_label(conns: Seq<Connection>, label: Option<Seq<char>>, n: int)
    requires
        0 <= n,
        !labels(conns, n).contains(label),
    ensures
        members(conns, label, n).len() == 0,
    decreases n,
{
    if n > 0 {
        let before = labels(conns, n - 1);
        let here = label_of(conns[n - 1]);
        if before.contains(label) {
            let k = before.index_of(label);
            assert(labels(conns, n)[k] == label);
        }
        if here == label {
            if !before.contains(here) {
                assert(labels(conns, n)[before.len() as int] == here);
            }
        }
        lemma_members_without_label(conns, label, n - 1);
    }
}

proof fn lemma_labels_distinct(conns: Seq<Connection>, n: int)
    requires
        0 <= n,
    ensures
        labels(conns, n).no_duplicates(),
    decreases n,
{
    if n > 0 {
        lemma_labels_distinct(conns, n - 1);
    }
}

/// Every connection is in the group of its label, and in no other.
pub proof fn law_every_connection_grouped(conns: Seq<Connection>, i: int)
    requires
        0 <= i < conns.len(),
    ensures
        labels(conns, conns.len() as int).no_duplicates(),
        labels(conns, conns.len() as int).contains(label_of(conns[i])),
        members(conns, label_of(conns[i]), conns.len() as int).contains(conns[i]),
        forall|label: Option<Seq<char>>, c: Connection|
            #[trigger] members(conns, label, conns.len() as int).contains(c) ==> label_of(c)
                == label,
{
    lemma_labels_distinct(conns, conns.len() as int);
    lemma_grouped_upto(conns, i, conns.len() as int);
    assert forall|label: Option<Seq<char>>, c: Connection|
        #[trigger] members(conns, label, conns.len() as int).contains(c) implies label_of(c)
        == label by {
        lemma_member_label(conns, label, conns.len() as int, c);
    }
}

proof fn lemma_grouped_upto(conns: Seq<Connection>, i: int, n: int)
    requires
        0 <= i < n <= conns.len(),
    ensures
        labels(conns, n).contains(label_of(conns[i])),
        members(conns, label_of(conns[i]), n).contains(conns[i]),
    decreases n,
{
    let label = label_of(conns[i]);
    let before = labels(conns, n - 1);
    let old_members = members(conns, label, n - 1);
    if i == n - 1 {
        if !before.contains(label) {
            assert(labels(conns, n)[before.len() as int] == label);
        }
        assert(members(conns, label, n)[old_members.len() as int] == conns[i]);
    } else {
        lemma_grouped_upto(conns, i, n - 1);
        let k = before.index_of(label);
        assert(labels(conns, n)[k] == label);
        let m = old_members.index_of(conns[i]);
        assert(members(conns, label, n)[m] == conns[i]);
    }
}

proof fn lemma_member_label(conns: Seq<Connection>, label: Option<Seq<char>>, n: int, c: Connection)
    requires
        members(conns, label, n).contains(c),
    ensures
        label_of(c) == label,
    decreases n,
{
    if n > 0 {
        if label_of(conns[n - 1]) == label {
            let before = members(conns, label, n - 1);
            let k = members(conns, label, n).index_of(c);
            if k < before.len() {
                assert(before[k] == c);
                lemma_member_label(conns, label, n - 1, c);
            }
        } else {
            lemma_member_label(conns, label, n - 1, c);
        }
    }
}

/// Groups come in the order in which their first connections stand in the file: a connection whose
/// label no connection before it has comes right behind the groups of those before it.
pub proof fn law_groups_come_in_file_order(conns: Seq<Connection>, i: int, n: int)
    requires
        0 <= i < n <= conns.len(),
        forall|j: int| 0 <= j < i ==> label_of(#[trigger] conns[j]) != label_of(conns[i]),
    ensures
        labels(conns, i).len() < labels(conns, n).len(),
        labels(conns, n)[labels(conns, i).len() as int] == label_of(conns[i]),
        labels(conns, n).take(labels(conns, i).len() as int) == labels(conns, i),
    decreases n,
{
    let before = labels(conns, n - 1);
    let k = labels(conns, i).len() as int;
    if i < n - 1 {
        law_groups_come_in_file_order(conns, i, n - 1);
        assert(labels(conns, n).take(k) =~= before.take(k));
    } else {
        if before.contains(label_of(conns[i])) {
            lemma_label_of_some(conns, i, label_of(conns[i]));
        }
        assert(labels(conns, n).take(k) =~= before);
    }
}

proof fn lemma_label_of_some(conns: Seq<Connection>, n: int, label: Option<Seq<char>>)
    requires
        0 <= n <= conns.len(),
        labels(conns, n).contains(label),
    ensures
        exists|j: int| 0 <= j < n && label_of(#[trigger] conns[j]) == label,
    decreases n,
{
    if n > 0 {
        let before = labels(conns, n - 1);
        if label_of(conns[n - 1]) != label {
            let k = labels(conns, n).index_of(label);
            assert(before[k] == label);
            lemma_label_of_some(conns, n - 1, label);
        }
    }
}

/// Within a group the connections come in the order of the file, each as often as it stands there.
pub proof fn law_group_members_come_in_file_order(
    conns: Seq<Connection>,
    label: Option<Seq<char>>,
    i: int,
    n: int,
)
    requires
        0 <= i < n <= conns.len(),
    ensures
        ({
            let k = members(conns, label, i).len() as int;
            &&& label_of(conns[i]) == label ==> k < members(conns, label, n).len() && members(
                conns,
                label,
                n,
            )[k] == conns[i] && members(conns, label, i + 1).len() == k + 1
            &&& label_of(conns[i]) != label ==> members(conns, label, i + 1).len() == k
        }),
    decreases n,
{
    if i < n - 1 {
        law_group_members_come_in_file_order(conns, label, i, n - 1);
    }
}

/// The account name that a connection's password has in the keyring: the configured one, or
/// `user@host:port/database`. No password, no account.
pub open spec fn account_of(c: ConnectionView) -> Option<Seq<char>> {
    match c.password {
        None => None,
        Some(Some(account)) => Some(account),
        Some(None) => Some(
            c.user + "@"@ + c.host + ":"@ + text::decimal(c.port as nat) + "/"@ + c.database,
        ),
    }
}

/// Whether `account` reads as the place of a connection: user, at sign, host, colon, the digits of the
/// port, slash, database.
pub open spec fn names_place(account: Seq<char>, c: ConnectionView, digits: Seq<char>) -> bool {
    &&& account == c.user + seq!['@'] + c.host + seq![':'] + digits + seq!['/'] + c.database
    &&& text::is_number(digits)
    &&& text::number_of(digits) == c.port
}

/// A password's account is the configured one, or names the user, host, port and database. There is
/// none exactly where there is no password. Accounts that name places differ where the places differ
/// in one of the four alone.
pub proof fn law_account_names_its_place(a: ConnectionView, b: ConnectionView)
    ensures
        account_of(a) is None <==> a.password is None,
        a.password matches Some(Some(account)) ==> account_of(a) == Some(account),
        a.password == Some(None::<Seq<char>>) ==> exists|digits: Seq<char>| #[trigger]
            names_place(account_of(a)->0, a, digits),
        a.password == Some(None::<Seq<char>>) && b.password == a.password && account_of(a)
            == account_of(b) ==> {
            &&& a.host == b.host && a.port == b.port && a.database == b.database ==> a.user
                == b.user
            &&& a.user == b.user && a.port == b.port && a.database == b.database ==> a.host
                == b.host
            &&& a.user == b.user && a.host == b.host && a.database == b.database ==> a.port
                == b.port
            &&& a.user == b.user && a.host == b.host && a.port == b.port ==> a.database
                == b.database
        },
{
    reveal_strlit("@");
    reveal_strlit(":");
    reveal_strlit("/");
    let x = text::decimal(a.port as nat);
    let y = text::decimal(b.port as nat);
    text::law_decimal_reads_back(a.port as nat);
    text::law_decimal_reads_back(b.port as nat);
    if a.password == Some(None::<Seq<char>>) {
        let s = account_of(a)->0;
        assert(s =~= a.user + seq!['@'] + a.host + seq![':'] + x + seq!['/'] + a.database);
        assert(names_place(s, a, x));
        if b.password == a.password && account_of(a) == account_of(b) {
            let u = account_of(b)->0;
            assert(u =~= b.user + seq!['@'] + b.host + seq![':'] + y + seq!['/'] + b.database);
            let n = a.user.len() as int;
            let h = a.host.len() as int;
            if a.host == b.host && a.port == b.port && a.database == b.database {
                assert(a.user =~= s.take(n));
                assert(b.user =~= u.take(n));
            }
            if a.user == b.user && a.port == b.port && a.database == b.database {
                assert(a.host =~= s.subrange(n + 1, n + 1 + h));
                assert(b.host =~= u.subrange(n + 1, n + 1 + h));
            }
            if a.user == b.user && a.host == b.host && a.database == b.database {
                assert(x =~= s.subrange(n + h + 2, n + h + 2 + x.len()));
                assert(y =~= u.subrange(n + h + 2, n + h + 2 + x.len()));
            }
            if a.user == b.user && a.host == b.host && a.port == b.port {
                assert(a.database =~= s.skip(n + h + 3 + x.len()));
                assert(b.database =~= u.skip(n + h + 3 + x.len()));
            }
        }
    }
}

impl Default for Config {
    fn default() -> (c: Self)
        ensures
            c.connections@.len() == 0,
    {
        Config { connections: Vec::new() }
    }
}

fn empty_field(name: &String, field: &'static str) -> (e: ConfigError)
    ensures
        e@ == (ConfigErrorView::EmptyField { name: name@, field: field@ }),
{
    ConfigError::EmptyField { name: name.clone(), field }
}

fn zero_port(name: &String, field: &'static str) -> (e: ConfigError)
    ensures
        e@ == (ConfigErrorView::ZeroPort { name: name@, field: field@ }),
{
    ConfigError::ZeroPort { name: name.clone(), field }
}

fn invalid_field(name: &String, field: &'static str, reason: &'static str) -> (e: ConfigError)
    ensures
        e@ == (ConfigErrorView::InvalidField { name: name@, field: field@, reason: reason@ }),
{
    ConfigError::InvalidField { name: name.clone(), field, reason }
}

impl Connection {
    /// Checks the rules in order and reports the first one that is broken.
    pub fn validate(&self) -> (r: Result<(), ConfigError>)
        ensures
            r is Ok <==> connection_fault(self@) is None,
            r matches Err(e) ==> connection_fault(self@) == Some(e@),
    {
        if text::is_blank(self.name.as_str()) {
            return Err(empty_field(&self.name, "name"));
        }
        if let Some(group) = &self.group {
            if text::is_blank(group.as_str()) {
                return Err(empty_field(&self.name, "group"));
            }
        }
        if text::is_blank(self.host.as_str()) {
            return Err(empty_field(&self.name, "host"));
        }
        if text::is_blank(self.database.as_str()) {
            return Err(empty_field(&self.name, "database"));
        }
        if text::is_blank(self.user.as_str()) {
            return Err(empty_field(&self.name, "user"));
        }
        if self.port == 0 {
            return Err(zero_port(&self.name, "port"));
        }
        if let Some(tunnel) = &self.tunnel {
            if let Some(fault) = self.check_tunnel(tunnel) {
                return Err(fault);
            }
        }
        if let Some(SecretRef::Keyring { account: Some(account) }) = &self.password {
            if text::is_blank(account.as_str()) {
                return Err(empty_field(&self.name, "password.account"));
            }
        }
        Ok(())
    }

    fn check_tunnel(&self, tunnel: &SshTunnel) -> (fault: Option<ConfigError>)
        ensures
            fault is Some <==> tunnel_fault(self.name@, tunnel@, self.host@) is Some,
            fault matches Some(e) ==> tunnel_fault(self.name@, tunnel@, self.host@) == Some(e@),
    {
        if text::is_blank(tunnel.host.as_str()) {
            return Some(empty_field(&self.name, "tunnel.host"));
        }
        if text::starts_with_char(tunnel.host.as_str(), '-') {
            return Some(invalid_field(&self.name, "tunnel.host", "must not start with '-'"));
        }
        if text::has_char(tunnel.host.as_str(), ':') {
            return Some(invalid_field(&self.name, "tunnel.host", "must not contain ':'"));
        }
        if text::has_char(tunnel.host.as_str(), '@') {
            return Some(
                invalid_field(
                    &self.name,
                    "tunnel.host",
                    "must not contain '@' — put the login name in `user` instead",
                ),
            );
        }
        if let Some(user) = &tunnel.user {
            if text::is_blank(user.as_str()) {
                return Some(empty_field(&self.name, "tunnel.user"));
            }
            if text::starts_with_char(user.as_str(), '-') {
                return Some(invalid_field(&self.name, "tunnel.user", "must not start with '-'"));
            }
        }
        if let Some(port) = tunnel.port {
            if port == 0 {
                return Some(zero_port(&self.name, "tunnel.port"));
            }
        }
        if text::has_char(self.host.as_str(), ':') && !text::is_ipv6(self.host.as_str()) {
            return Some(
                invalid_field(
                    &self.name,
                    "host",
                    "must not contain ':' unless it is an IPv6 literal",
                ),
            );
        }
        None
    }

    /// The account to look the password up under; `None` if no password is configured.
    pub fn keyring_account(&self) -> (account: Option<String>)
        ensures
            text::opt_view(account) == account_of(self@),
    {
        match &self.password {
            Some(SecretRef::Keyring { account: Some(a) }) => Some(a.clone()),
            Some(SecretRef::Keyring { account: None }) => {
                let mut s: String = self.user.clone();
                s.append("@");
                s.append(self.host.as_str());
                s.append(":");
                s.append(text::decimal_string(self.port as u64).as_str());
                s.append("/");
                s.append(self.database.as_str());
                Some(s)
            },
            None => None,
        }
    }

    /// The keyring service that all passwords are kept under.
    pub fn keyring_service(&self) -> (service: &'static str)
        ensures
            service@ == KEYRING_SERVICE@,
    {
        KEYRING_SERVICE
    }
}

/// Whether a connection of that name is configured.
pub open spec fn is_configured(config: Config, name: Seq<char>) -> bool {
    exists|i: int|
        0 <= i < config.connections@.len() && (#[trigger] config.connections@[i]).name@ == name
}

/// Whether `c` is the first connection of that name.
pub open spec fn is_connection(config: Config, name: Seq<char>, c: Connection) -> bool {
    exists|i: int|
        0 <= i < config.connections@.len() && c == #[trigger] config.connections@[i] && c.name@
            == name && forall|j: int|
            0 <= j < i ==> (#[trigger] config.connections@[j]).name@ != name
}

/// A name stands for at most one connection, and for one exactly if it is configured.
pub proof fn law_name_stands_for_one_connection(
    config: Config,
    name: Seq<char>,
    a: Connection,
    b: Connection,
)
    requires
        is_connection(config, name, a),
        is_connection(config, name, b),
    ensures
        a == b,
        is_configured(config, name),
{
    let i = choose|i: int|
        0 <= i < config.connections@.len() && a == #[trigger] config.connections@[i] && a.name@
            == name && forall|j: int|
            0 <= j < i ==> (#[trigger] config.connections@[j]).name@ != name;
    let k = choose|k: int|
        0 <= k < config.connections@.len() && b == #[trigger] config.connections@[k] && b.name@
            == name && forall|j: int|
            0 <= j < k ==> (#[trigger] config.connections@[j]).name@ != name;
    assert(config.connections@[i].name@ == name);
    assert(config.connections@[k].name@ == name);
    assert(i == k);
}

/// In an accepted configuration every connection is found under its name.
pub proof fn law_connections_are_found_by_name(config: Config, i: int)
    requires
        config_fault(config.connections@, config.connections@.len() as int) is None,
        0 <= i < config.connections@.len(),
    ensures
        is_connection(config, config.connections@[i].name@, config.connections@[i]),
{
    let conns = config.connections@;
    law_valid_config(conns);
    assert forall|j: int| 0 <= j < i implies (#[trigger] conns[j]).name@ != conns[i].name@ by {
        assert(conns[j]@.name != conns[i]@.name);
    }
}

impl Config {
    /// Checks every connection in order, and that no name occurs twice.
    pub fn validate(&self) -> (r: Result<(), ConfigError>)
        ensures
            r is Ok <==> config_fault(
                self.connections@,
                self.connections@.len() as int,
            ) is None,
            r matches Err(e) ==> config_fault(self.connections@, self.connections@.len() as int)
                == Some(e@),
    {
        let n: usize = self.connections.len();
        let mut i: usize = 0;
        while i < n
            invariant
                n == self.connections@.len(),
                i <= n,
                config_fault(self.connections@, i as int) is None,
            decreases n - i,
        {
            let connection: &Connection = &self.connections[i];
            if let Err(e) = connection.validate() {
                proof {
                    lemma_config_fault_prefix(self.connections@, i + 1, n as int);
                }
                return Err(e);
            }
            let mut j: usize = 0;
            while j < i
                invariant
                    n == self.connections@.len(),
                    i < n,
                    j <= i,
                    connection == self.connections@[i as int],
                    config_fault(self.connections@, i as int) is None,
                    connection_fault(connection@) is None,
                    forall|k: int|
                        0 <= k < j ==> (#[trigger] self.connections@[k])@.name
                            != connection@.name,
                decreases i - j,
            {
                if text::same_text(self.connections[j].name.as_str(), connection.name.as_str()) {
                    proof {
                        assert(self.connections@[j as int]@.name == connection@.name);
                        lemma_config_fault_prefix(self.connections@, i + 1, n as int);
                    }
                    return Err(
                        ConfigError::DuplicateConnectionName { name: connection.name.clone() },
                    );
                }
                j = j + 1;
            }
            i = i + 1;
        }
        Ok(())
    }

    /// The connection with a name.
    pub fn connection(&self, name: &str) -> (c: Option<&Connection>)
        ensures
            match c {
                Some(c) => is_connection(*self, name@, *c),
                None => !is_configured(*self, name@),
            },
    {
        let n: usize = self.connections.len();
        let mut i: usize = 0;
        while i < n
            invariant
                n == self.connections@.len(),
                i <= n,
                forall|j: int| 0 <= j < i ==> (#[trigger] self.connections@[j]).name@ != name@,
            decreases n - i,
        {
            if text::same_text(self.connections[i].name.as_str(), name) {
                return Some(&self.connections[i]);
            }
            i = i + 1;
        }
        None
    }

    /// The connections by group, ready to show from top to bottom: groups in the order of their
    /// first connection, "no group" being a group like any other; connections in file order.
    pub fn grouped(&self) -> (groups: Vec<ConnectionGroup<'_>>)
        ensures
            groups@.len() == labels(self.connections@, self.connections@.len() as int).len(),
            forall|g: int|
                0 <= g < groups@.len() ==> group_label(#[trigger] groups@[g]) == labels(
                    self.connections@,
                    self.connections@.len() as int,
                )[g],
            forall|g: int|
                0 <= g < groups@.len() ==> is_group(
                    self.connections@,
                    #[trigger] groups@[g],
                    self.connections@.len() as int,
                ),
    {
        let mut groups: Vec<ConnectionGroup<'_>> = Vec::new();
        let n: usize = self.connections.len();
        let mut i: usize = 0;
        while i < n
            invariant
                n == self.connections@.len(),
                i <= n,
                groups@.len() == labels(self.connections@, i as int).len(),
                forall|g: int|
                    0 <= g < groups@.len() ==> group_label(#[trigger] groups@[g]) == labels(
                        self.connections@,
                        i as int,
                    )[g],
                forall|g: int|
                    0 <= g < groups@.len() ==> is_group(
                        self.connections@,
                        #[trigger] groups@[g],
                        i as int,
                    ),
            decreases n - i,
        {
            let connection: &Connection = &self.connections[i];
            let ghost conns = self.connections@;
            let ghost label = label_of(*connection);
            let ghost before = labels(conns, i as int);
            let ghost old_groups = groups@;
            proof {
                lemma_labels_distinct(conns, i as int);
            }
            let count: usize = groups.len();
            let mut k: usize = 0;
            while k < count && !same_label(&groups[k], connection)
                invariant
                    count == groups@.len(),
                    k <= count,
                    groups@ == old_groups,
                    label == label_of(*connection),
                    forall|g: int| 0 <= g < k ==> group_label(#[trigger] groups@[g]) != label,
                decreases count - k,
            {
                k = k + 1;
            }
            if k < count {
                proof {
                    assert(before[k as int] == label);
                    assert(before.contains(label));
                }
                let mut group: ConnectionGroup<'_> = groups.remove(k);
                group.connections.push(connection);
                groups.insert(k, group);
                proof {
                    assert forall|g: int| 0 <= g < groups@.len() implies group_label(
                        #[trigger] groups@[g],
                    ) == before[g] && is_group(conns, groups@[g], i + 1) by {
                        assert(group_label(old_groups[g]) == before[g]);
                        assert(is_group(conns, old_groups[g], i as int));
                        if g != k {
                            assert(before[g] != before[k as int]);
                        }
                    }
                }
            } else {
                proof {
                    assert(!before.contains(label)) by {
                        if before.contains(label) {
                            let g = before.index_of(label);
                            assert(group_label(groups@[g]) == label);
                        }
                    }
                    lemma_members_without_label(conns, label, i as int);
                }
                let mut connections: Vec<&Connection> = Vec::new();
                connections.push(connection);
                let label_text: Option<&str> = match &connection.group {
                    Some(l) => Some(l.as_str()),
                    None => None,
                };
                groups.push(ConnectionGroup { label: label_text, connections });
                proof {
                    assert forall|g: int| 0 <= g < groups@.len() implies group_label(
                        #[trigger] groups@[g],
                    ) == before.push(label)[g] && is_group(conns, groups@[g], i + 1) by {
                        if g < before.len() {
                            assert(group_label(old_groups[g]) == before[g]);
                            assert(is_group(conns, old_groups[g], i as int));
                            assert(before.contains(before[g]));
                        }
                    }
                }
            }
            i = i + 1;
        }
        groups
    }
}

fn same_label(group: &ConnectionGroup<'_>, connection: &Connection) -> (same: bool)
    ensures
        same == (group_label(*group) == label_of(*connection)),
{
    match (&group.label, &connection.group) {
        (Some(a), Some(b)) => text::same_text(a, b.as_str()),
        (None, None) => true,
        _ => false,
    }
}

/// The text of an error.
pub open spec fn message_of(e: ConfigErrorView) -> Seq<char> {
    match e {
        ConfigErrorView::NoConfigDir => {
            "could not determine a config directory for this platform"@
        },
        ConfigErrorView::NoDataDir => "could not determine a data directory for this platform"@,
        ConfigErrorView::Read { path, cause } => "failed to read config file "@ + path,
        ConfigErrorView::Write { path, cause } => "failed to write config file "@ + path,
        ConfigErrorView::Parse(m) => "invalid TOML: "@ + m,
        ConfigErrorView::Serialize(m) => "failed to serialize config: "@ + m,
        ConfigErrorView::EmptyField { name, field } => "connection "@ + text::quoted(name) + ": `"@
            + field + "` must not be empty"@,
        ConfigErrorView::ZeroPort { name, field } => "connection "@ + text::quoted(name) + ": `"@
            + field + "` must not be 0"@,
        ConfigErrorView::InvalidField { name, field, reason } => "connection "@ + text::quoted(name)
            + ": `"@ + field + "` "@ + reason,
        ConfigErrorView::DuplicateConnectionName { name } => "duplicate connection name "@
            + text::quoted(name),
    }
}

/// The text of an error tells what it is about: the file, the cause, or the connection, its field and
/// what is wrong with it.
pub proof fn law_config_errors_tell_what_they_are_about(e: ConfigErrorView)
    ensures
        match e {
            ConfigErrorView::Read { path, cause } => text::occurs(message_of(e), path),
            ConfigErrorView::Write { path, cause } => text::occurs(message_of(e), path),
            ConfigErrorView::Parse(m) => text::occurs(message_of(e), m),
            ConfigErrorView::Serialize(m) => text::occurs(message_of(e), m),
            ConfigErrorView::EmptyField { name, field } => text::occurs(
                message_of(e),
                text::quoted(name),
            ) && text::occurs(message_of(e), seq!['`'] + field + seq!['`']),
            ConfigErrorView::ZeroPort { name, field } => text::occurs(
                message_of(e),
                text::quoted(name),
            ) && text::occurs(message_of(e), seq!['`'] + field + seq!['`']),
            ConfigErrorView::InvalidField { name, field, reason } => text::occurs(
                message_of(e),
                text::quoted(name),
            ) && text::occurs(message_of(e), seq!['`'] + field + seq!['`']) && text::occurs(
                message_of(e),
                reason,
            ),
            ConfigErrorView::DuplicateConnectionName { name } => text::occurs(
                message_of(e),
                text::quoted(name),
            ),
            _ => true,
        },
{
    let m = message_of(e);
    let none = Seq::<char>::empty();
    match e {
        ConfigErrorView::Read { path, cause } => {
            text::lemma_occurs_in(m, "failed to read config file "@, path, none);
        },
        ConfigErrorView::Write { path, cause } => {
            text::lemma_occurs_in(m, "failed to write config file "@, path, none);
        },
        ConfigErrorView::Parse(cause) => {
            text::lemma_occurs_in(m, "invalid TOML: "@, cause, none);
        },
        ConfigErrorView::Serialize(cause) => {
            text::lemma_occurs_in(m, "failed to serialize config: "@, cause, none);
        },
        ConfigErrorView::EmptyField { name, field } => {
            reveal_strlit("` must not be empty");
            lemma_field_sentence(name, field, "` must not be empty"@);
        },
        ConfigErrorView::ZeroPort { name, field } => {
            reveal_strlit("` must not be 0");
            lemma_field_sentence(name, field, "` must not be 0"@);
        },
        ConfigErrorView::InvalidField { name, field, reason } => {
            reveal_strlit("` ");
            lemma_field_sentence(name, field, "` "@ + reason);
            let head = "connection "@ + text::quoted(name) + ": `"@ + field + "` "@;
            text::lemma_occurs_in(m, head, reason, none);
            assert(m =~= "connection "@ + text::quoted(name) + ": `"@ + field + ("` "@ + reason));
        },
        ConfigErrorView::DuplicateConnectionName { name } => {
            text::lemma_occurs_in(m, "duplicate connection name "@, text::quoted(name), none);
        },
        _ => {},
    }
}

proof fn lemma_field_sentence(name: Seq<char>, field: Seq<char>, rest: Seq<char>)
    requires
        rest.len() > 0,
        rest[0] == '`',
    ensures
        ({
            let m = "connection "@ + text::quoted(name) + ": `"@ + field + rest;
            text::occurs(m, text::quoted(name)) && text::occurs(m, seq!['`'] + field + seq!['`'])
        }),
{
    reveal_strlit(": `");
    let tail = rest.drop_first();
    assert(rest =~= seq!['`'] + tail);
    let m = "connection "@ + text::quoted(name) + ": `"@ + field + rest;
    text::lemma_occurs_in(m, "connection "@, text::quoted(name), ": `"@ + field + rest);
    let head = "connection "@ + text::quoted(name) + seq![':', ' '];
    assert(": `"@ =~= seq![':', ' '] + seq!['`']);
    text::lemma_occurs_in(m, head, seq!['`'] + field + seq!['`'], tail);
}

/// `head`, then a text.
fn headed(head: &str, tail: &String) -> (s: String)
    ensures
        s@ == head@ + tail@,
{
    let mut s: String = head.to_owned();
    s.append(tail.as_str());
    s
}

/// A sentence about a field of a connection.
fn field_sentence(name: &String, field: &str, rest: &str) -> (s: String)
    ensures
        s@ == "connection "@ + text::quoted(name@) + ": `"@ + field@ + rest@,
{
    let mut s: String = "connection ".to_owned();
    s.append(text::quote(name.as_str()).as_str());
    s.append(": `");
    s.append(field);
    s.append(rest);
    s
}

impl ConfigError {
    /// The text of the error.
    pub fn message(&self) -> (s: String)
        ensures
            s@ == message_of(self@),
    {
        match self {
            ConfigError::NoConfigDir => {
                "could not determine a config directory for this platform".to_owned()
            },
            ConfigError::NoDataDir => {
                "could not determine a data directory for this platform".to_owned()
            },
            ConfigError::Read { path, cause } => headed("failed to read config file ", path),
            ConfigError::Write { path, cause } => headed("failed to write config file ", path),
            ConfigError::Parse(m) => headed("invalid TOML: ", m),
            ConfigError::Serialize(m) => headed("failed to serialize config: ", m),
            ConfigError::EmptyField { name, field } => field_sentence(
                name,
                field,
                "` must not be empty",
            ),
            ConfigError::ZeroPort { name, field } => field_sentence(name, field, "` must not be 0"),
            ConfigError::InvalidField { name, field, reason } => {
                let mut s: String = field_sentence(name, field, "` ");
                s.append(reason);
                s
            },
            ConfigError::DuplicateConnectionName { name } => {
                let mut s: String = "duplicate connection name ".to_owned();
                s.append(text::quote(name.as_str()).as_str());
                s
            },
        }
    }
}

/// The outcome of reading a file.
#[derive(Debug, Clone, PartialEq, Eq)]
pub enum ReadOutcome {
    Text(String),
    NotFound { cause: String },
    Failed { cause: String },
}

/// How to go on with a configuration file.
#[derive(Debug, Clone, PartialEq, Eq)]
pub enum LoadStep {
    /// Parse its text.
    Parse(String),
    /// There is no file, and none was named: start without connections.
    FirstRun,
    Failed(ConfigError),
}

/// What to make of a configuration file that was read like this. A file that is missing is an error
/// only where the user named it.
pub open spec fn is_step(
    path: Seq<char>,
    explicit: bool,
    read: ReadOutcome,
    step: LoadStep,
) -> bool {
    match read {
        ReadOutcome::Text(t) => step == LoadStep::Parse(t),
        ReadOutcome::NotFound { cause } => if explicit {
            step matches LoadStep::Failed(e) && e@ == (ConfigErrorView::Read { path, cause: cause@ })
        } else {
            step == LoadStep::FirstRun
        },
        ReadOutcome::Failed { cause } => step matches LoadStep::Failed(e) && e@ == (
        ConfigErrorView::Read { path, cause: cause@ }),
    }
}

/// What becomes of a configuration that was parsed: one that breaks a rule is refused.
pub open spec fn is_parsed(parsed: Result<Config, String>, r: Result<Config, ConfigError>) -> bool {
    match parsed {
        Err(m) => r == Err::<Config, ConfigError>(ConfigError::Parse(m)),
        Ok(c) => match config_fault(c.connections@, c.connections@.len() as int) {
            None => r == Ok::<Config, ConfigError>(c),
            Some(fault) => r is Err && r->Err_0@ == fault,
        },
    }
}

/// What becomes of a configuration that is to be written: one that breaks a rule is refused.
pub open spec fn is_written(
    config: Config,
    written: Result<String, String>,
    r: Result<String, ConfigError>,
) -> bool {
    match config_fault(config.connections@, config.connections@.len() as int) {
        Some(fault) => r is Err && r->Err_0@ == fault,
        None => match written {
            Ok(t) => r == Ok::<String, ConfigError>(t),
            Err(m) => r == Err::<String, ConfigError>(ConfigError::Serialize(m)),
        },
    }
}

/// What is loaded after a step; `parsed` is what parsing the text gave, where there is one.
pub open spec fn is_loaded(
    step: LoadStep,
    parsed: Result<Config, String>,
    r: Result<Config, ConfigError>,
) -> bool {
    match step {
        LoadStep::Parse(_) => is_parsed(parsed, r),
        LoadStep::FirstRun => r matches Ok(c) && c.connections@.len() == 0,
        LoadStep::Failed(e) => r == Err::<Config, ConfigError>(e),
    }
}

/// Every configuration that is let through to be written is handed back unchanged when it is parsed.
pub proof fn law_written_config_is_accepted(
    config: Config,
    written: Result<String, String>,
    saved: Result<String, ConfigError>,
    parsed: Result<Config, ConfigError>,
)
    requires
        is_written(config, written, saved),
        saved is Ok,
        is_parsed(Ok(config), parsed),
    ensures
        written is Ok,
        saved->Ok_0 == written->Ok_0,
        parsed == Ok::<Config, ConfigError>(config),
{
}

/// A configuration that was saved is loaded again as it was, with every connection in its place, if
/// the file still holds the text that was written and `parse` reads from a text what `write` wrote
/// into it. Without a file at a place that nobody named, the configuration is empty.
pub proof fn law_saved_config_comes_back(
    config: Config,
    path: Seq<char>,
    explicit: bool,
    write: spec_fn(Config) -> Result<String, String>,
    parse: spec_fn(Seq<char>) -> Result<Config, String>,
    saved: Result<String, ConfigError>,
    read: ReadOutcome,
    step: LoadStep,
    parsed: Result<Config, String>,
    loaded: Result<Config, ConfigError>,
)
    requires
        is_written(config, write(config), saved),
        write(config) matches Ok(t) ==> parse(t@) == Ok::<Config, String>(config),
        is_step(path, explicit, read, step),
        step matches LoadStep::Parse(t) ==> parsed == parse(t@),
        is_loaded(step, parsed, loaded),
    ensures
        (saved matches Ok(t) && read matches ReadOutcome::Text(u) && u@ == t@) ==> loaded == Ok::<
            Config,
            ConfigError,
        >(config),
        read is NotFound && !explicit ==> (loaded matches Ok(c) && c.connections@.len() == 0),
{
}

/// What is loaded follows the rules: each connection is accepted and no two have one name. Loading
/// fails where the file cannot be read, is missing though the user named it, cannot be parsed, or
/// holds what breaks a rule, and nowhere else.
pub proof fn law_loaded_config_follows_the_rules(
    path: Seq<char>,
    explicit: bool,
    read: ReadOutcome,
    step: LoadStep,
    parsed: Result<Config, String>,
    r: Result<Config, ConfigError>,
)
    requires
        is_step(path, explicit, read, step),
        is_loaded(step, parsed, r),
    ensures
        r matches Ok(c) ==> {
            &&& forall|i: int|
                0 <= i < c.connections@.len() ==> connection_fault(
                    (#[trigger] c.connections@[i])@,
                ) is None
            &&& forall|i: int, j: int|
                0 <= i < j < c.connections@.len() ==> (#[trigger] c.connections@[i])@.name != (
                #[trigger] c.connections@[j])@.name
        },
        read is Failed || (read is NotFound && explicit) ==> r is Err && r->Err_0@ is Read,
        read is Text && parsed is Err ==> r == Err::<Config, ConfigError>(
            ConfigError::Parse(parsed->Err_0),
        ),
        r is Ok && read is Text ==> r == Ok::<Config, ConfigError>(parsed->Ok_0),
        r is Err ==> {
            ||| read is Failed
            ||| read is NotFound && explicit
            ||| read is Text && parsed is Err
            ||| read is Text && parsed is Ok && config_fault(
                parsed->Ok_0.connections@,
                parsed->Ok_0.connections@.len() as int,
            ) is Some
        },
{
    if r is Ok {
        law_valid_config((r->Ok_0).connections@);
    }
}

impl Config {
    /// What to make of a configuration file. A file that is missing is an error only where the user
    /// named it.
    pub fn load_resolved(path: &str, explicit: bool, read: ReadOutcome) -> (step: LoadStep)
        ensures
            is_step(path@, explicit, read, step),
    {
        match read {
            ReadOutcome::Text(t) => LoadStep::Parse(t),
            ReadOutcome::NotFound { cause } => if explicit {
                LoadStep::Failed(ConfigError::Read { path: path.to_owned(), cause })
            } else {
                LoadStep::FirstRun
            },
            ReadOutcome::Failed { cause } => LoadStep::Failed(
                ConfigError::Read { path: path.to_owned(), cause },
            ),
        }
    }

    /// What to make of the configuration file at the default place: a missing one means a first run.
    pub fn load_from(path: &str, read: ReadOutcome) -> (step: LoadStep)
        ensures
            is_step(path@, false, read, step),
    {
        Config::load_resolved(path, false, read)
    }

    /// Loads the configuration after a step; `parse` reads one from a text.
    pub fn finish_load<F>(step: LoadStep, parse: F) -> (r: Result<Config, ConfigError>) where
        F: FnOnce(&str) -> Result<Config, String>

        requires
            step matches LoadStep::Parse(t) ==> forall|s: &str|
                s@ == t@ ==> #[trigger] parse.requires((s,)),
        ensures
            match step {
                LoadStep::Parse(t) => exists|s: &str, parsed: Result<Config, String>|
                    s@ == t@ && #[trigger] parse.ensures((s,), parsed) && is_loaded(step, parsed, r),
                _ => forall|parsed: Result<Config, String>| #[trigger] is_loaded(step, parsed, r),
            },
    {
        match step {
            LoadStep::Parse(t) => {
                let s: &str = t.as_str();
                let parsed: Result<Config, String> = parse(s);
                proof {
                    assert(parse.ensures((s,), parsed));
                }
                Config::parse_toml(parsed)
            },
            LoadStep::FirstRun => Ok(Config::default()),
            LoadStep::Failed(e) => Err(e),
        }
    }

    /// A configuration that was parsed, if it follows the rules.
    pub fn parse_toml(parsed: Result<Config, String>) -> (r: Result<Config, ConfigError>)
        ensures
            is_parsed(parsed, r),
    {
        match parsed {
            Err(m) => Err(ConfigError::Parse(m)),
            Ok(config) => match config.validate() {
                Ok(()) => Ok(config),
                Err(e) => Err(e),
            },
        }
    }

    /// The text to write for the configuration, if it follows the rules; `written` is what
    /// serializing it gave.
    pub fn to_toml(&self, written: Result<String, String>) -> (r: Result<String, ConfigError>)
        ensures
            is_written(*self, written, r),
    {
        match self.validate() {
            Err(e) => Err(e),
            Ok(()) => match written {
                Ok(t) => Ok(t),
                Err(m) => Err(ConfigError::Serialize(m)),
            },
        }
    }
}

} // verus!
