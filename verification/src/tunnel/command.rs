//! The ssh command line of a tunnel.
use super::TunnelSpec;
use crate::text;
use vstd::prelude::*;

verus! {

/// The host in a forwarding: an IPv6 address in brackets, for ssh separates the fields by colons.
pub open spec fn forward_host_of(host: Seq<char>) -> Seq<char> {
    if text::ipv6_literal(host) {
        seq!['['] + host + seq![']']
    } else {
        host
    }
}

/// The forwarding from a local port to the database: `127.0.0.1:local:host:port`.
pub open spec fn forwarding(spec: super::TunnelSpecView, local_port: u16) -> Seq<char> {
    "127.0.0.1:"@ + text::decimal(local_port as nat) + ":"@ + forward_host_of(spec.remote_host)
        + ":"@ + text::decimal(spec.remote_port as nat)
}

/// The ssh destination: `user@host`, or the host.
pub open spec fn destination_of(spec: super::TunnelSpecView) -> Seq<char> {
    match spec.ssh_user {
        Some(user) => user + "@"@ + spec.ssh_host,
        None => spec.ssh_host,
    }
}

/// The arguments for ssh: forward one port and run nothing, fail rather than go on without the
/// forwarding or ask a question; everything else is left to ssh's own configuration.
pub open spec fn argv_of(spec: super::TunnelSpecView, local_port: u16) -> Seq<Seq<char>> {
    let fixed = seq![
        "-v"@,
        "-N"@,
        "-o"@,
        "ExitOnForwardFailure=yes"@,
        "-o"@,
        "BatchMode=yes"@,
        "-L"@,
        forwarding(spec, local_port),
    ];
    let port = match spec.ssh_port {
        Some(p) => seq!["-p"@, text::decimal(p as nat)],
        None => Seq::empty(),
    };
    fixed + port + seq![destination_of(spec)]
}

/// Whether a forwarding reads as one from a port of this machine to a port of a host: four fields
/// with colons between them, the host in brackets if it holds colons itself.
pub open spec fn reads_as(
    f: Seq<char>,
    local_port: int,
    host: Seq<char>,
    remote_port: int,
    fields: (Seq<char>, Seq<char>, Seq<char>),
) -> bool {
    &&& f == "127.0.0.1"@ + seq![':'] + fields.0 + seq![':'] + fields.1 + seq![':'] + fields.2
    &&& text::is_number(fields.0) && text::number_of(fields.0) == local_port
    &&& fields.1 == host || fields.1 == seq!['['] + host + seq![']']
    &&& text::is_number(fields.2) && text::number_of(fields.2) == remote_port
}

/// The forwarding names its ends: the local port, the connection's host, and behind the last colon the
/// connection's port, each of which reads back as the number it is.
pub proof fn law_forwarding_names_its_ends(spec: super::TunnelSpecView, local_port: u16)
    ensures
        exists|fields: (Seq<char>, Seq<char>, Seq<char>)| #[trigger]
            reads_as(
                forwarding(spec, local_port),
                local_port as int,
                spec.remote_host,
                spec.remote_port as int,
                fields,
            ),
{
    reveal_strlit("127.0.0.1:");
    reveal_strlit("127.0.0.1");
    reveal_strlit(":");
    let local = text::decimal(local_port as nat);
    let host = forward_host_of(spec.remote_host);
    let port = text::decimal(spec.remote_port as nat);
    text::law_decimal_reads_back(local_port as nat);
    text::law_decimal_reads_back(spec.remote_port as nat);
    assert(forwarding(spec, local_port) =~= "127.0.0.1"@ + seq![':'] + local + seq![':'] + host
        + seq![':'] + port);
    assert(reads_as(
        forwarding(spec, local_port),
        local_port as int,
        spec.remote_host,
        spec.remote_port as int,
        (local, host, port),
    ));
}

/// The fields of a forwarding keep apart: in a tunnel that can be opened, whose host holds a colon only
/// as an IPv6 address, no field holds a colon outside brackets, so ssh reads the four fields that were
/// written.
pub proof fn law_forwarding_keeps_its_fields_apart(spec: super::TunnelSpecView, local_port: u16)
    requires
        spec.remote_host.contains(':') ==> text::ipv6_literal(spec.remote_host),
    ensures
        exists|fields: (Seq<char>, Seq<char>, Seq<char>)| #[trigger]
            reads_as(
                forwarding(spec, local_port),
                local_port as int,
                spec.remote_host,
                spec.remote_port as int,
                fields,
            ) && !fields.0.contains(':') && !fields.2.contains(':') && (!fields.1.contains(':') || (
            fields.1[0] == '[' && fields.1.last() == ']' && fields.1.subrange(
                1,
                fields.1.len() - 1,
            ) == spec.remote_host)) && (fields.1 == spec.remote_host || text::ipv6_literal(
                spec.remote_host,
            )),
{
    reveal_strlit("127.0.0.1:");
    reveal_strlit("127.0.0.1");
    reveal_strlit(":");
    let local = text::decimal(local_port as nat);
    let host = forward_host_of(spec.remote_host);
    let port = text::decimal(spec.remote_port as nat);
    text::law_decimal_reads_back(local_port as nat);
    text::law_decimal_reads_back(spec.remote_port as nat);
    assert(forwarding(spec, local_port) =~= "127.0.0.1"@ + seq![':'] + local + seq![':'] + host
        + seq![':'] + port);
    if text::ipv6_literal(spec.remote_host) {
        assert(host.subrange(1, host.len() - 1) =~= spec.remote_host);
    }
    assert(reads_as(
        forwarding(spec, local_port),
        local_port as int,
        spec.remote_host,
        spec.remote_port as int,
        (local, host, port),
    ));
}

/// Tunnels that go to different ends never have the same forwarding: neither where they differ in the
/// local port or the connection's port, nor in the host, which holds no brackets in a tunnel that can
/// be opened.
pub proof fn law_forwardings_tell_their_ends_apart(
    a: super::TunnelSpecView,
    p: u16,
    b: super::TunnelSpecView,
    q: u16,
)
    requires
        forwarding(a, p) == forwarding(b, q),
    ensures
        p == q,
        a.remote_port == b.remote_port,
        !a.remote_host.contains('[') && !b.remote_host.contains('[') ==> a.remote_host
            == b.remote_host,
{
    reveal_strlit("127.0.0.1:");
    reveal_strlit(":");
    let (pd, qd) = (text::decimal(p as nat), text::decimal(q as nat));
    let (ad, bd) = (text::decimal(a.remote_port as nat), text::decimal(b.remote_port as nat));
    let (ah, bh) = (forward_host_of(a.remote_host), forward_host_of(b.remote_host));
    text::law_decimal_reads_back(p as nat);
    text::law_decimal_reads_back(q as nat);
    text::law_decimal_reads_back(a.remote_port as nat);
    text::law_decimal_reads_back(b.remote_port as nat);
    assert(!pd.contains(':') && !qd.contains(':') && !ad.contains(':') && !bd.contains(':'));
    let (ax, bx) = (pd + seq![':'] + ah, qd + seq![':'] + bh);
    let (al, bl) = ("127.0.0.1:"@ + ax, "127.0.0.1:"@ + bx);
    assert(forwarding(a, p) =~= al + seq![':'] + ad);
    assert(forwarding(b, q) =~= bl + seq![':'] + bd);
    text::lemma_last_separator(al, ad, bl, bd, ':');
    assert(ax =~= al.skip(10));
    assert(bx =~= bl.skip(10));
    text::lemma_first_separator(pd, ah, qd, bh, ':');
    if !a.remote_host.contains('[') && !b.remote_host.contains('[') {
        if ah.len() > 0 && ah[0] == '[' {
            assert(a.remote_host =~= ah.subrange(1, ah.len() - 1)) by {
                if !text::ipv6_literal(a.remote_host) {
                    assert(a.remote_host.contains(ah[0]));
                }
            }
            assert(b.remote_host =~= bh.subrange(1, bh.len() - 1)) by {
                if !text::ipv6_literal(b.remote_host) {
                    assert(b.remote_host.contains(bh[0]));
                }
            }
        }
    }
}

/// Tunnels that differ never have the same command line: not in the local port, the connection's
/// port or host, nor in ssh's port, host or user, where the tunnels can be opened.
pub proof fn law_command_lines_tell_tunnels_apart(
    a: super::TunnelSpecView,
    p: u16,
    b: super::TunnelSpecView,
    q: u16,
)
    requires
        argv_of(a, p) == argv_of(b, q),
    ensures
        p == q,
        a.remote_port == b.remote_port,
        a.ssh_port == b.ssh_port,
        !a.remote_host.contains('[') && !b.remote_host.contains('[') ==> a.remote_host
            == b.remote_host,
        !a.ssh_host.contains('@') && !b.ssh_host.contains('@') ==> a.ssh_host == b.ssh_host
            && a.ssh_user == b.ssh_user,
{
    reveal_strlit("@");
    let (x, y) = (argv_of(a, p), argv_of(b, q));
    assert(x[7] == forwarding(a, p));
    assert(y[7] == forwarding(b, q));
    law_forwardings_tell_their_ends_apart(a, p, b, q);
    assert(x.len() == 9 <==> a.ssh_port is None);
    assert(y.len() == 9 <==> b.ssh_port is None);
    if a.ssh_port is Some {
        assert(x[9] == text::decimal(a.ssh_port->0 as nat));
        assert(y[9] == text::decimal(b.ssh_port->0 as nat));
        text::law_decimal_reads_back(a.ssh_port->0 as nat);
        text::law_decimal_reads_back(b.ssh_port->0 as nat);
    }
    assert(x.last() == destination_of(a));
    assert(y.last() == destination_of(b));
    if !a.ssh_host.contains('@') && !b.ssh_host.contains('@') {
        let d = destination_of(a);
        if a.ssh_user is Some {
            assert(d =~= a.ssh_user->0 + seq!['@'] + a.ssh_host);
            assert(d[a.ssh_user->0.len() as int] == '@');
        }
        if b.ssh_user is Some {
            assert(d =~= b.ssh_user->0 + seq!['@'] + b.ssh_host);
            assert(d[b.ssh_user->0.len() as int] == '@');
        }
        if a.ssh_user is Some && b.ssh_user is Some {
            text::lemma_last_separator(a.ssh_user->0, a.ssh_host, b.ssh_user->0, b.ssh_host, '@');
        }
    }
}

/// What a command line asks of ssh: the forwarding behind `-L`, no command, to fail rather than go on
/// without the forwarding or ask a question, the port behind `-p` if the tunnel gives one, and last
/// the destination, which is the host, or ends in `@` and the host.
pub proof fn law_command_line_asks_for_the_tunnel(spec: super::TunnelSpecView, local_port: u16)
    ensures
        ({
            let argv = argv_of(spec, local_port);
            let host = spec.ssh_host;
            &&& argv.contains("-N"@)
            &&& exists|i: int|
                0 <= i < argv.len() - 2 && #[trigger] argv[i] == "-L"@ && argv[i + 1] == forwarding(
                    spec,
                    local_port,
                )
            &&& exists|i: int|
                0 <= i < argv.len() - 2 && #[trigger] argv[i] == "-o"@ && argv[i + 1]
                    == "ExitOnForwardFailure=yes"@
            &&& exists|i: int|
                0 <= i < argv.len() - 2 && #[trigger] argv[i] == "-o"@ && argv[i + 1]
                    == "BatchMode=yes"@
            &&& spec.ssh_port matches Some(port) ==> exists|i: int|
                0 <= i < argv.len() - 2 && #[trigger] argv[i] == "-p"@ && text::is_number(
                    argv[i + 1],
                ) && text::number_of(argv[i + 1]) == port
            &&& spec.ssh_user is None ==> argv.last() == host
            &&& spec.ssh_user matches Some(user) ==> argv.last() == user + seq!['@'] + host
        }),
{
    reveal_strlit("@");
    let argv = argv_of(spec, local_port);
    assert(argv[1] == "-N"@);
    assert(argv[2] == "-o"@);
    assert(argv[3] == "ExitOnForwardFailure=yes"@);
    assert(argv[4] == "-o"@);
    assert(argv[5] == "BatchMode=yes"@);
    assert(argv[6] == "-L"@);
    assert(argv[7] == forwarding(spec, local_port));
    if spec.ssh_port is Some {
        assert(argv[8] == "-p"@);
        text::law_decimal_reads_back(spec.ssh_port->0 as nat);
    }
    if spec.ssh_user is Some {
        assert(argv.last() =~= spec.ssh_user->0 + seq!['@'] + spec.ssh_host);
    }
}

pub(crate) fn ssh_argv(spec: &TunnelSpec, local_port: u16) -> (argv: Vec<String>)
    ensures
        text::views(argv@) == argv_of(spec@, local_port),
{
    let mut argv: Vec<String> = Vec::new();
    argv.push("-v".to_owned());
    argv.push("-N".to_owned());
    argv.push("-o".to_owned());
    argv.push("ExitOnForwardFailure=yes".to_owned());
    argv.push("-o".to_owned());
    argv.push("BatchMode=yes".to_owned());
    argv.push("-L".to_owned());
    argv.push(forward_spec(spec, local_port));
    if let Some(port) = spec.ssh_port() {
        argv.push("-p".to_owned());
        argv.push(text::decimal_string(port as u64));
    }
    argv.push(destination(spec));
    proof {
        assert(text::views(argv@) =~= argv_of(spec@, local_port));
    }
    argv
}

pub(crate) fn forward_spec(spec: &TunnelSpec, local_port: u16) -> (s: String)
    ensures
        s@ == forwarding(spec@, local_port),
{
    let mut s: String = "127.0.0.1:".to_owned();
    s.append(text::decimal_string(local_port as u64).as_str());
    s.append(":");
    s.append(forward_host(spec.remote_host()).as_str());
    s.append(":");
    s.append(text::decimal_string(spec.remote_port() as u64).as_str());
    s
}

pub(crate) fn destination(spec: &TunnelSpec) -> (s: String)
    ensures
        s@ == destination_of(spec@),
{
    match spec.ssh_user() {
        Some(user) => {
            let mut s: String = user.to_owned();
            s.append("@");
            s.append(spec.ssh_host());
            s
        },
        None => spec.ssh_host().to_owned(),
    }
}

fn forward_host(remote_host: &str) -> (s: String)
    ensures
        s@ == forward_host_of(remote_host@),
{
    if text::is_ipv6(remote_host) {
        let mut s: String = String::new();
        s.push('[');
        s.append(remote_host);
        s.push(']');
        proof {
            assert(s@ =~= seq!['['] + remote_host@ + seq![']']);
        }
        s
    } else {
        remote_host.to_owned()
    }
}

} // verus!
