//! The command line of ssh.
use ratwarren::config::SshTunnel;
use ratwarren::tunnel::TunnelSpec;

fn destination(spec: &TunnelSpec) -> String {
    match spec.ssh_user() {
        Some(user) => format!("{user}@{}", spec.ssh_host()),
        None => spec.ssh_host().to_string(),
    }
}

fn spec(user: Option<&str>, ssh_port: Option<u16>, remote_host: &str) -> TunnelSpec {
    TunnelSpec::from_parts(
        "conn",
        &SshTunnel {
            host: "bastion.example.com".to_string(),
            user: user.map(str::to_string),
            port: ssh_port,
        },
        remote_host,
        5432,
    )
    .expect("spec should be valid")
}

#[test]
fn full_spec_produces_expected_argv() {
    let spec = spec(Some("alice"), Some(2222), "dbhost");

    assert_eq!(
        spec.ssh_argv(40000),
        vec![
            "-v".to_string(),
            "-N".to_string(),
            "-o".to_string(),
            "ExitOnForwardFailure=yes".to_string(),
            "-o".to_string(),
            "BatchMode=yes".to_string(),
            "-L".to_string(),
            "127.0.0.1:40000:dbhost:5432".to_string(),
            "-p".to_string(),
            "2222".to_string(),
            "alice@bastion.example.com".to_string(),
        ]
    );
}

#[test]
fn minimal_spec_omits_user_prefix_and_port_flag() {
    let spec = spec(None, None, "dbhost");

    assert_eq!(
        spec.ssh_argv(40000),
        vec![
            "-v".to_string(),
            "-N".to_string(),
            "-o".to_string(),
            "ExitOnForwardFailure=yes".to_string(),
            "-o".to_string(),
            "BatchMode=yes".to_string(),
            "-L".to_string(),
            "127.0.0.1:40000:dbhost:5432".to_string(),
            "bastion.example.com".to_string(),
        ]
    );
}

#[test]
fn only_ssh_user_set_adds_user_prefix_but_no_port_flag() {
    let spec = spec(Some("alice"), None, "dbhost");
    let argv = spec.ssh_argv(40000);

    assert!(argv.contains(&"alice@bastion.example.com".to_string()));
    assert!(!argv.contains(&"-p".to_string()));
    assert_eq!(argv.last(), Some(&"alice@bastion.example.com".to_string()));
}

#[test]
fn only_ssh_port_set_adds_port_flag_with_bare_destination() {
    let spec = spec(None, Some(2222), "dbhost");
    let argv = spec.ssh_argv(40000);

    assert_eq!(
        argv,
        vec![
            "-v".to_string(),
            "-N".to_string(),
            "-o".to_string(),
            "ExitOnForwardFailure=yes".to_string(),
            "-o".to_string(),
            "BatchMode=yes".to_string(),
            "-L".to_string(),
            "127.0.0.1:40000:dbhost:5432".to_string(),
            "-p".to_string(),
            "2222".to_string(),
            "bastion.example.com".to_string(),
        ]
    );
}

#[test]
fn ipv6_remote_host_is_bracketed_in_forward_spec() {
    let spec = spec(None, None, "::1");
    let argv = spec.ssh_argv(40000);

    let l_index = argv.iter().position(|s| s == "-L").expect("-L present");
    assert_eq!(argv[l_index + 1], "127.0.0.1:40000:[::1]:5432");
}

#[test]
fn destination_is_always_the_last_argv_element() {
    let specs = vec![
        spec(Some("alice"), Some(2222), "dbhost"),
        spec(None, None, "dbhost"),
        spec(Some("alice"), None, "dbhost"),
        spec(None, Some(2222), "dbhost"),
        spec(None, None, "::1"),
    ];

    for spec in specs {
        let argv = spec.ssh_argv(40000);
        assert_eq!(argv.last(), Some(&destination(&spec)));
    }
}

#[test]
fn exactly_two_dash_o_flags_and_no_others() {
    let spec = spec(Some("alice"), Some(2222), "dbhost");
    let argv = spec.ssh_argv(40000);

    let o_count = argv.iter().filter(|s| s.as_str() == "-o").count();
    assert_eq!(o_count, 2);

    let known_flags = ["-v", "-N", "-o", "-L", "-p"];
    let known_flag_values = [
        "ExitOnForwardFailure=yes",
        "BatchMode=yes",
        "127.0.0.1:40000:dbhost:5432",
        "2222",
    ];
    for arg in &argv {
        let is_flag = known_flags.contains(&arg.as_str());
        let is_value = known_flag_values.contains(&arg.as_str());
        let is_destination = arg == &destination(&spec);
        assert!(
            is_flag || is_value || is_destination,
            "unexpected argv element: {arg:?}"
        );
    }
}
