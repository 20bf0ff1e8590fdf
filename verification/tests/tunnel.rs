//! SSH tunnels.
use ratwarren::config::{Connection, SshTunnel};
use ratwarren::tunnel::{
    after_probe, after_status, check_alive, confirms_forward, is_forward_bind_failure,
    keep_draining, line_text, stderr_suffix,
    ChildStatus, OpenAction, OpenAttempts, OpenStep, StderrCapture, TunnelError, TunnelSpec,
    WaitAction, STDERR_CAPTURE_LIMIT,
};

fn valid_tunnel() -> SshTunnel {
    SshTunnel {
        host: "bastion.example.com".to_string(),
        user: Some("alice".to_string()),
        port: Some(2222),
    }
}

fn assert_invalid_field(result: Result<TunnelSpec, TunnelError>, expected_field: &str) {
    match result.expect_err("expected validation to reject this input") {
        TunnelError::InvalidField { field, .. } => {
            assert_eq!(field, expected_field);
        }
        other => panic!("expected InvalidField, got {other:?}"),
    }
}

#[test]
fn rejects_empty_tunnel_host() {
    let mut tunnel = valid_tunnel();
    tunnel.host = "".to_string();
    let result = TunnelSpec::from_parts("conn", &tunnel, "dbhost", 5432);
    assert_invalid_field(result, "tunnel.host");
}

#[test]
fn rejects_whitespace_only_tunnel_host() {
    let mut tunnel = valid_tunnel();
    tunnel.host = "   ".to_string();
    let result = TunnelSpec::from_parts("conn", &tunnel, "dbhost", 5432);
    assert_invalid_field(result, "tunnel.host");
}

#[test]
fn rejects_tunnel_host_starting_with_dash() {
    let mut tunnel = valid_tunnel();
    tunnel.host = "-oProxyCommand=touch /tmp/pwned".to_string();
    let result = TunnelSpec::from_parts("conn", &tunnel, "dbhost", 5432);
    assert_invalid_field(result, "tunnel.host");
}

#[test]
fn rejects_tunnel_host_containing_colon() {
    let mut tunnel = valid_tunnel();
    tunnel.host = "bastion:22".to_string();
    let result = TunnelSpec::from_parts("conn", &tunnel, "dbhost", 5432);
    assert_invalid_field(result, "tunnel.host");
}

#[test]
fn rejects_tunnel_host_containing_at() {
    let mut tunnel = valid_tunnel();
    tunnel.host = "user@bastion".to_string();
    let result = TunnelSpec::from_parts("conn", &tunnel, "dbhost", 5432);
    assert_invalid_field(result, "tunnel.host");
}

#[test]
fn rejects_empty_tunnel_user() {
    let mut tunnel = valid_tunnel();
    tunnel.user = Some("".to_string());
    let result = TunnelSpec::from_parts("conn", &tunnel, "dbhost", 5432);
    assert_invalid_field(result, "tunnel.user");
}

#[test]
fn rejects_whitespace_only_tunnel_user() {
    let mut tunnel = valid_tunnel();
    tunnel.user = Some("   ".to_string());
    let result = TunnelSpec::from_parts("conn", &tunnel, "dbhost", 5432);
    assert_invalid_field(result, "tunnel.user");
}

#[test]
fn rejects_tunnel_user_starting_with_dash() {
    let mut tunnel = valid_tunnel();
    tunnel.user = Some("-oProxyCommand=touch /tmp/pwned".to_string());
    let result = TunnelSpec::from_parts("conn", &tunnel, "dbhost", 5432);
    assert_invalid_field(result, "tunnel.user");
}

#[test]
fn accepts_email_style_tunnel_user() {
    let mut tunnel = valid_tunnel();
    tunnel.user = Some("alice@example.com".to_string());
    let spec = TunnelSpec::from_parts("conn", &tunnel, "dbhost", 5432)
        .expect("email-style login names are a legitimate SSO/LDAP username");
    assert_eq!(spec.ssh_user(), Some("alice@example.com"));
}

#[test]
fn rejects_zero_tunnel_port() {
    let mut tunnel = valid_tunnel();
    tunnel.port = Some(0);
    let result = TunnelSpec::from_parts("conn", &tunnel, "dbhost", 5432);
    assert_invalid_field(result, "tunnel.port");
}

#[test]
fn accepts_nonzero_tunnel_port() {
    let mut tunnel = valid_tunnel();
    tunnel.port = Some(22);
    let spec = TunnelSpec::from_parts("conn", &tunnel, "dbhost", 5432)
        .expect("nonzero tunnel port is valid");
    assert_eq!(spec.ssh_port(), Some(22));
}

#[test]
fn accepts_none_tunnel_port() {
    let mut tunnel = valid_tunnel();
    tunnel.port = None;
    let spec =
        TunnelSpec::from_parts("conn", &tunnel, "dbhost", 5432).expect("None port is valid");
    assert_eq!(spec.ssh_port(), None);
}

#[test]
fn rejects_empty_remote_host() {
    let tunnel = valid_tunnel();
    let result = TunnelSpec::from_parts("conn", &tunnel, "", 5432);
    assert_invalid_field(result, "host");
}

#[test]
fn rejects_remote_host_with_colon_that_is_not_valid_ipv6() {
    let tunnel = valid_tunnel();
    let result = TunnelSpec::from_parts("conn", &tunnel, "db:5432", 5432);
    assert_invalid_field(result, "host");
}

#[test]
fn accepts_remote_host_that_is_a_valid_ipv6_literal() {
    let tunnel = valid_tunnel();
    let spec = TunnelSpec::from_parts("conn", &tunnel, "::1", 5432)
        .expect("bare IPv6 literal is valid");
    assert_eq!(spec.remote_host(), "::1");

    let spec = TunnelSpec::from_parts("conn", &tunnel, "2001:db8::1", 5432)
        .expect("full IPv6 literal is valid");
    assert_eq!(spec.remote_host(), "2001:db8::1");
}

#[test]
fn rejects_remote_host_containing_brackets() {
    let tunnel = valid_tunnel();
    let result = TunnelSpec::from_parts("conn", &tunnel, "[::1]", 5432);
    assert_invalid_field(result, "host");
}

#[test]
fn rejects_zero_remote_port() {
    let tunnel = valid_tunnel();
    let result = TunnelSpec::from_parts("conn", &tunnel, "dbhost", 0);
    assert_invalid_field(result, "port");
}

#[test]
fn accepts_nonzero_remote_port() {
    let tunnel = valid_tunnel();
    let spec = TunnelSpec::from_parts("conn", &tunnel, "dbhost", 5432)
        .expect("nonzero remote port is valid");
    assert_eq!(spec.remote_port(), 5432);
}

fn connection_without_tunnel() -> Connection {
    Connection {
        name: "local".to_string(),
        group: None,
        host: "localhost".to_string(),
        port: 5432,
        database: "app".to_string(),
        user: "app_user".to_string(),
        password: None,
        tunnel: None,
    }
}

#[test]
fn from_connection_returns_none_when_tunnel_is_none() {
    let conn = connection_without_tunnel();
    let result = TunnelSpec::from_connection(&conn).expect("no tunnel is not an error");
    assert!(result.is_none());
}

#[test]
fn from_connection_maps_fields_from_connection_and_tunnel() {
    let mut conn = connection_without_tunnel();
    conn.name = "prod".to_string();
    conn.host = "dbhost".to_string();
    conn.port = 6543;
    conn.tunnel = Some(valid_tunnel());

    let spec = TunnelSpec::from_connection(&conn)
        .expect("valid tunnel should not error")
        .expect("tunnel is Some");

    assert_eq!(spec.name(), "prod");
    assert_eq!(spec.remote_host(), "dbhost");
    assert_eq!(spec.remote_port(), 6543);
    assert_eq!(spec.ssh_host(), "bastion.example.com");
    assert_eq!(spec.ssh_user(), Some("alice"));
    assert_eq!(spec.ssh_port(), Some(2222));
}

#[test]
fn detects_address_already_in_use_case_insensitively() {
    assert!(is_forward_bind_failure(
        "bind: Address already in use\r\nchannel_setup_fwd_listener_tcpip"
    ));
    assert!(is_forward_bind_failure("ADDRESS ALREADY IN USE"));
}

#[test]
fn detects_cannot_listen_to_port_case_insensitively() {
    assert!(is_forward_bind_failure(
        "Warning: cannot listen to port: 40000"
    ));
    assert!(is_forward_bind_failure("CANNOT LISTEN TO PORT"));
}

#[test]
fn does_not_match_unrelated_stderr() {
    assert!(!is_forward_bind_failure(
        "Permission denied (publickey).\r\n"
    ));
    assert!(!is_forward_bind_failure(""));
}


struct FakeMachine {
    ports: Vec<(u16, bool)>,
    waits: Vec<Result<(), TunnelError>>,
    spawned: Vec<u16>,
}

fn open(machine: &mut FakeMachine, attempts: u32) -> Result<u16, TunnelError> {
    let mut state = OpenAttempts::new(attempts);
    let mut action = OpenAction::ReservePort;
    let mut occupied = false;
    loop {
        let step = match action {
            OpenAction::ReservePort => {
                let (port, taken) = machine.ports.remove(0);
                occupied = taken;
                OpenStep::Reserved(Ok(port))
            }
            OpenAction::ProbePort(local_port) => OpenStep::Probed { local_port, occupied },
            OpenAction::SpawnAndWait(port) => {
                machine.spawned.push(port);
                OpenStep::Waited(machine.waits.remove(0))
            }
            OpenAction::Opened => return Ok(*machine.spawned.last().unwrap()),
            OpenAction::Failed(e) => return Err(e),
        };
        action = state.next(step);
    }
}

fn exited(stderr: &str) -> TunnelError {
    TunnelError::SshExited { status: "exit status: 255".to_string(), stderr: stderr.to_string() }
}

#[test]
fn open_with_port_source_exhausts_retries_when_reserved_port_stays_occupied() {
    let mut machine =
        FakeMachine { ports: vec![(4000, true); 3], waits: vec![], spawned: vec![] };
    assert_eq!(open(&mut machine, 3), Err(TunnelError::PortOccupied { local_port: 4000 }));
    assert!(machine.spawned.is_empty());
    assert!(machine.ports.is_empty());
}

#[test]
fn open_with_port_source_retries_past_an_occupied_first_attempt() {
    let timeout = TunnelError::ReadyTimeout {
        local_port: 4001,
        timeout_ms: 2000,
        stderr: String::new(),
    };
    let mut machine = FakeMachine {
        ports: vec![(4000, true), (4001, false)],
        waits: vec![Err(timeout.clone())],
        spawned: vec![],
    };
    assert_eq!(open(&mut machine, 2), Err(timeout));
    assert_eq!(machine.spawned, vec![4001]);
}

#[test]
fn a_port_that_is_lost_to_another_process_costs_an_attempt() {
    let mut machine = FakeMachine {
        ports: vec![(4000, false), (4001, false)],
        waits: vec![Err(exited("bind: Address already in use")), Ok(())],
        spawned: vec![],
    };
    assert_eq!(open(&mut machine, 2), Ok(4001));
    assert_eq!(machine.spawned, vec![4000, 4001]);
}

#[test]
fn any_other_failure_ends_the_opening() {
    let mut machine = FakeMachine {
        ports: vec![(4000, false), (4001, false)],
        waits: vec![Err(exited("Permission denied (publickey)."))],
        spawned: vec![],
    };
    assert_eq!(open(&mut machine, 5), Err(exited("Permission denied (publickey).")));
    let mut state = OpenAttempts::new(0);
    assert_eq!(
        state.next(OpenStep::Reserved(Err("no ports".to_string()))),
        OpenAction::Failed(TunnelError::PortReservation { cause: "no ports".to_string() })
    );
    let spawn = TunnelError::Spawn { program: "ssh".to_string(), cause: "gone".to_string() };
    assert_eq!(state.next(OpenStep::SpawnFailed(spawn.clone())), OpenAction::Failed(spawn));
}

#[test]
fn no_attempts_means_one() {
    let mut machine =
        FakeMachine { ports: vec![(4000, true); 2], waits: vec![], spawned: vec![] };
    assert_eq!(open(&mut machine, 0), Err(TunnelError::PortOccupied { local_port: 4000 }));
    assert_eq!(machine.ports.len(), 1);
}

#[test]
fn a_port_that_answers_counts_only_while_ssh_lives() {
    let gone = || ChildStatus::Exited { status: "exit status: 1".to_string() };
    assert_eq!(after_status(ChildStatus::Running, false), WaitAction::Probe);
    assert_eq!(after_status(ChildStatus::Running, true), WaitAction::Ready);
    assert_eq!(
        after_status(gone(), true),
        WaitAction::Exited { status: "exit status: 1".to_string() }
    );
    assert_eq!(
        after_status(ChildStatus::Unknown { cause: "x".to_string() }, false),
        WaitAction::WaitFailed { cause: "x".to_string() }
    );
    assert_eq!(after_probe(true, 5000, 1000), WaitAction::Settle);
    assert_eq!(after_probe(false, 999, 1000), WaitAction::Sleep);
    assert_eq!(after_probe(false, 1000, 1000), WaitAction::TimedOut);
}

#[test]
fn check_alive_reports_how_ssh_ended() {
    assert_eq!(check_alive(ChildStatus::Running, "x".to_string()), Ok(()));
    assert_eq!(
        check_alive(ChildStatus::Exited { status: "s".to_string() }, "bye".to_string()),
        Err(TunnelError::SshExited { status: "s".to_string(), stderr: "bye".to_string() })
    );
    assert_eq!(
        check_alive(ChildStatus::Unknown { cause: "c".to_string() }, String::new()),
        Err(TunnelError::Wait { cause: "c".to_string() })
    );
    assert!(keep_draining(49, 50, false));
    assert!(!keep_draining(50, 50, false));
    assert!(!keep_draining(0, 50, true));
}

#[test]
fn stderr_is_kept_up_to_the_limit_and_cut_at_a_character() {
    let mut capture = StderrCapture::default();
    capture.push_line("one");
    capture.push_line("two");
    assert_eq!(capture.captured_text(), "one\ntwo");

    let mut capture = StderrCapture::default();
    capture.push_line(&"a".repeat(STDERR_CAPTURE_LIMIT - 2));
    capture.push_line("é");
    capture.push_line("more");
    let text = capture.captured_text();
    assert!(text.ends_with("a (truncated)"), "got the end {:?}", &text[text.len() - 20..]);
}

#[test]
fn a_suffix_is_shown_only_where_ssh_wrote_something() {
    assert_eq!(stderr_suffix(""), "");
    assert_eq!(stderr_suffix("bad"), ": bad");
}

#[test]
fn only_the_line_about_the_local_port_confirms_the_forwarding() {
    let line = "debug1: Local forwarding listening on 127.0.0.1 port 4000.";
    assert!(confirms_forward(line, 4000));
    assert!(!confirms_forward(line, 400));
    assert!(!confirms_forward(line, 40_000));
    assert!(!confirms_forward("debug1: Connection established to 127.0.0.1 port 4000.", 4000));
}

#[test]
fn a_line_of_ssh_is_text_whatever_its_bytes_are() {
    assert_eq!(line_text(&"caf\u{e9}\r\n".as_bytes().to_vec()), "caf\u{e9}");
    assert_eq!(line_text(&b"caf\xe9\n".to_vec()), "caf\u{fffd}");
    assert_eq!(line_text(&vec![]), "");
}
