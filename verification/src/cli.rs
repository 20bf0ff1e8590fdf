//! The command line.
use crate::config::{Config, Connection};
use crate::text;
use vstd::prelude::*;

verus! {

/// What the program was called for.
#[derive(Debug, Clone, PartialEq, Eq)]
pub enum Invocation {
    Run { name: Option<String> },
    SetPassword { name: String },
    Help,
    BadUsage(String),
}

/// An invocation as a value.
pub enum InvocationView {
    Run { name: Option<Seq<char>> },
    SetPassword { name: Seq<char> },
    Help,
    BadUsage(Seq<char>),
}

impl View for Invocation {
    type V = InvocationView;

    open spec fn view(&self) -> InvocationView {
        match self {
            Invocation::Run { name } => InvocationView::Run { name: text::opt_view(*name) },
            Invocation::SetPassword { name } => InvocationView::SetPassword { name: name@ },
            Invocation::Help => InvocationView::Help,
            Invocation::BadUsage(m) => InvocationView::BadUsage(m@),
        }
    }
}

pub const USAGE: &'static str =
    "usage: ratwarren [<connection>]\n       ratwarren --set-password <connection>\n       ratwarren --help";

/// What the arguments ask for; the first one is the program's name.
pub open spec fn invocation_of(args: Seq<Seq<char>>) -> InvocationView {
    if args.len() < 2 {
        InvocationView::Run { name: None }
    } else if args[1] == "--help"@ || args[1] == "-h"@ {
        InvocationView::Help
    } else if args[1] == "--set-password"@ {
        if args.len() == 2 {
            InvocationView::BadUsage("--set-password requires a connection name"@)
        } else if args.len() == 3 {
            InvocationView::SetPassword { name: args[2] }
        } else {
            InvocationView::BadUsage("--set-password takes exactly one connection name"@)
        }
    } else if args[1].len() > 0 && args[1][0] == '-' {
        InvocationView::BadUsage("unknown flag: "@ + args[1])
    } else if args.len() == 2 {
        InvocationView::Run { name: Some(args[1]) }
    } else {
        InvocationView::BadUsage("too many arguments"@)
    }
}

/// What is asked for follows from the arguments alone: nothing more than the program's name starts it,
/// so does one argument that is no flag, which names the connection; a password is set for the one
/// argument behind `--set-password`; help is asked for by the first argument; and everything else is
/// refused, an unknown flag by its name.
pub proof fn law_arguments_are_read_one_way(args: Seq<Seq<char>>, name: Seq<char>)
    ensures
        invocation_of(args) == (InvocationView::Run { name: None }) <==> args.len() < 2,
        invocation_of(args) == (InvocationView::Run { name: Some(name) }) <==> args.len() == 2
            && args[1] == name && !(name.len() > 0 && name[0] == '-'),
        invocation_of(args) == (InvocationView::SetPassword { name }) <==> args.len() == 3
            && args[1] == "--set-password"@ && args[2] == name,
        invocation_of(args) is Help <==> args.len() >= 2 && (args[1] == "--help"@ || args[1]
            == "-h"@),
        invocation_of(args) is BadUsage <==> args.len() >= 2 && {
            ||| args[1] == "--set-password"@ && args.len() != 3
            ||| args[1].len() > 0 && args[1][0] == '-' && args[1] != "--set-password"@ && args[1]
                != "--help"@ && args[1] != "-h"@
            ||| !(args[1].len() > 0 && args[1][0] == '-') && args.len() > 2
        },
        args.len() >= 2 && args[1].len() > 0 && args[1][0] == '-' && args[1] != "--set-password"@
            && args[1] != "--help"@ && args[1] != "-h"@ ==> {
            let m = invocation_of(args)->BadUsage_0;
            m == "unknown flag: "@ + m.skip(m.len() - args[1].len()) && m.skip(
                m.len() - args[1].len(),
            ) == args[1]
        },
{
    reveal_strlit("--set-password");
    reveal_strlit("--help");
    reveal_strlit("-h");
    reveal_strlit("unknown flag: ");
    if args.len() >= 2 {
        let m = "unknown flag: "@ + args[1];
        assert(m.skip(m.len() - args[1].len()) =~= args[1]);
    }
}

/// Reads the arguments; the first one is the program's name.
pub fn parse_args(args: Vec<String>) -> (inv: Invocation)
    ensures
        inv@ == invocation_of(text::views(args@)),
{
    let n: usize = args.len();
    if n < 2 {
        return Invocation::Run { name: None };
    }
    let first: &str = args[1].as_str();
    proof {
        assert(text::views(args@)[1] == args@[1]@);
    }
    if text::same_text(first, "--help") || text::same_text(first, "-h") {
        return Invocation::Help;
    }
    if text::same_text(first, "--set-password") {
        return if n == 2 {
            Invocation::BadUsage("--set-password requires a connection name".to_owned())
        } else if n == 3 {
            Invocation::SetPassword { name: args[2].clone() }
        } else {
            Invocation::BadUsage("--set-password takes exactly one connection name".to_owned())
        };
    }
    if text::starts_with_char(first, '-') {
        let mut message: String = "unknown flag: ".to_owned();
        message.append(first);
        return Invocation::BadUsage(message);
    }
    if n == 2 {
        Invocation::Run { name: Some(first.to_owned()) }
    } else {
        Invocation::BadUsage("too many arguments".to_owned())
    }
}

/// Whether `r` says with which connection to start.
pub open spec fn starts_with(
    config: Config,
    name: Option<Seq<char>>,
    r: Result<Option<String>, ()>,
) -> bool {
    match name {
        Some(n) => if crate::config::is_configured(config, n) {
            r matches Ok(Some(m)) && m@ == n
        } else {
            r is Err
        },
        None => if config.connections@.len() == 1 {
            r matches Ok(Some(m)) && m@ == config.connections@[0].name@
        } else {
            r matches Ok(None)
        },
    }
}

/// The program never starts with a connection that is not configured, nor with another than the one
/// that was named; it refuses exactly a name that is not configured.
pub proof fn law_only_configured_connections_are_started(
    config: Config,
    name: Option<Seq<char>>,
    r: Result<Option<String>, ()>,
)
    requires
        starts_with(config, name, r),
    ensures
        r matches Ok(Some(m)) ==> crate::config::is_configured(config, m@) && (name matches Some(n)
            ==> n == m@),
        r is Err <==> (name matches Some(n) && !crate::config::is_configured(config, n)),
        r matches Ok(None) ==> name is None && config.connections@.len() != 1,
{
    if config.connections@.len() == 1 {
        assert(crate::config::is_configured(config, config.connections@[0].name@));
    }
}

/// With which connection to start: the one that was named, which must be configured; else the only
/// one there is; else none, and the user picks one.
pub fn resolve_starting_connection(config: &Config, name: Option<String>) -> (r: Result<
    Option<String>,
    (),
>)
    ensures
        starts_with(*config, text::opt_view(name), r),
{
    match name {
        Some(name) => match config.connection(name.as_str()) {
            Some(_) => Ok(Some(name)),
            None => Err(()),
        },
        None => if config.connections.len() == 1 {
            Ok(Some(config.connections[0].name.clone()))
        } else {
            Ok(None)
        },
    }
}

/// The lines that tell a user which connections there are, or how to configure one.
pub open spec fn available_of(config: Config, path: Option<Seq<char>>) -> Seq<Seq<char>> {
    if config.connections@.len() == 0 {
        seq![
            "no connections configured"@,
            match path {
                Some(p) => "add one at "@ + p + ", for example:"@,
                None => "add one to your config file, for example:"@,
            },
            ""@,
            "  [[connections]]"@,
            "  name = \"prod\""@,
            "  host = \"localhost\""@,
            "  database = \"app\""@,
            "  user = \"app_user\""@,
        ]
    } else {
        seq!["usage: ratwarren <connection-name>"@, "available connections:"@] + Seq::new(
            config.connections@.len(),
            |i: int| "  "@ + config.connections@[i].name@,
        )
    }
}

/// The user is told of every connection, one line each, in the order of the file; where there is none,
/// of the file to configure one in.
pub proof fn law_every_connection_is_listed(config: Config, path: Option<Seq<char>>, i: int)
    requires
        0 <= i < config.connections@.len(),
    ensures
        available_of(config, path).len() == config.connections@.len() + 2,
        ({
            let line = available_of(config, path)[i + 2];
            let name = config.connections@[i].name@;
            line.len() == name.len() + 2 && line.skip(2) == name
        }),
{
    reveal_strlit("  ");
    let line = available_of(config, path)[i + 2];
    assert(line.skip(2) =~= config.connections@[i].name@);
}

/// Without a connection, the user is told which file to configure one in.
pub proof fn law_the_file_is_named(config: Config, path: Seq<char>)
    requires
        config.connections@.len() == 0,
    ensures
        exists|i: int|
            0 <= i < available_of(config, Some(path)).len() && text::occurs(
                #[trigger] available_of(config, Some(path))[i],
                path,
            ),
{
    let line = available_of(config, Some(path))[1];
    text::law_occurs_between_two_parts(line, path);
    assert(line == "add one at "@ + path + ", for example:"@);
}

/// The lines that tell a user which connections there are, or how to configure one in the file at
/// `path`.
pub fn available(config: &Config, path: Option<String>) -> (lines: Vec<String>)
    ensures
        text::views(lines@) == available_of(*config, text::opt_view(path)),
{
    let mut lines: Vec<String> = Vec::new();
    let n: usize = config.connections.len();
    if n == 0 {
        lines.push("no connections configured".to_owned());
        match path {
            Some(p) => {
                let mut line: String = "add one at ".to_owned();
                line.append(p.as_str());
                line.append(", for example:");
                lines.push(line);
            },
            None => {
                lines.push("add one to your config file, for example:".to_owned());
            },
        }
        lines.push("".to_owned());
        lines.push("  [[connections]]".to_owned());
        lines.push("  name = \"prod\"".to_owned());
        lines.push("  host = \"localhost\"".to_owned());
        lines.push("  database = \"app\"".to_owned());
        lines.push("  user = \"app_user\"".to_owned());
        proof {
            assert(text::views(lines@) =~= available_of(*config, text::opt_view(path)));
        }
        return lines;
    }
    lines.push("usage: ratwarren <connection-name>".to_owned());
    lines.push("available connections:".to_owned());
    let ghost all = available_of(*config, text::opt_view(path));
    proof {
        assert(text::views(lines@) =~= all.take(2));
    }
    let mut i: usize = 0;
    while i < n
        invariant
            n == config.connections@.len(),
            n > 0,
            i <= n,
            all == available_of(*config, text::opt_view(path)),
            text::views(lines@) == all.take(i + 2),
        decreases n - i,
    {
        let mut line: String = "  ".to_owned();
        line.append(config.connections[i].name.as_str());
        let ghost before = lines@;
        lines.push(line);
        proof {
            assert(text::views(lines@) =~= text::views(before).push(line@));
            assert(all[i + 2] == line@);
            assert(all.take(i + 3) =~= all.take(i + 2).push(line@));
        }
        i = i + 1;
    }
    proof {
        assert(all.take(n + 2) =~= all);
    }
    lines
}

/// Where a password is to be stored.
#[derive(Debug, Clone, PartialEq, Eq)]
pub enum PasswordPlace {
    /// No such connection is configured.
    Unknown,
    /// The connection has no password in the configuration.
    NoPassword { message: String },
    Keyring { service: &'static str, account: String },
}

/// Where the password of a connection is to be stored.
pub fn password_place(config: &Config, name: &str) -> (place: PasswordPlace)
    ensures
        place is Unknown <==> !crate::config::is_configured(*config, name@),
        forall|c: Connection| #[trigger]
            crate::config::is_connection(*config, name@, c) ==> match crate::config::account_of(c@) {
                Some(a) => place matches PasswordPlace::Keyring { service, account } && account@
                    == a && service@ == crate::config::KEYRING_SERVICE@,
                None => place matches PasswordPlace::NoPassword { message } && message@
                    == "connection "@ + text::quoted(name@)
                    + " has no `password` entry in the config; add [connections.password] / source = \"keyring\" first"@,
            },
{
    match config.connection(name) {
        None => PasswordPlace::Unknown,
        Some(conn) => {
            proof {
                assert forall|c: Connection| #[trigger]
                    crate::config::is_connection(*config, name@, c) implies c == *conn by {
                    crate::config::law_name_stands_for_one_connection(*config, name@, c, *conn);
                }
                crate::config::law_name_stands_for_one_connection(*config, name@, *conn, *conn);
            }
            match conn.keyring_account() {
                Some(account) => PasswordPlace::Keyring {
                    service: conn.keyring_service(),
                    account,
                },
                None => {
                    let mut message: String = "connection ".to_owned();
                    message.append(text::quote(name).as_str());
                    message.append(
                        " has no `password` entry in the config; add [connections.password] / source = \"keyring\" first",
                    );
                    PasswordPlace::NoPassword { message }
                },
            }
        },
    }
}

/// What is said after a password was stored.
pub fn stored_message(name: &str, service: &str, account: &str) -> (message: String)
    ensures
        message@ == "stored password for connection "@ + text::quoted(name@) + " (service "@
            + text::quoted(service@) + ", account "@ + text::quoted(account@) + ")"@,
{
    let mut message: String = "stored password for connection ".to_owned();
    message.append(text::quote(name).as_str());
    message.append(" (service ");
    message.append(text::quote(service).as_str());
    message.append(", account ");
    message.append(text::quote(account).as_str());
    message.append(")");
    message
}

} // verus!
