//! The command line.
use ratwarren::cli::{
    available, parse_args, password_place, resolve_starting_connection, stored_message, Invocation,
    PasswordPlace,
};
use ratwarren::config::{Config, Connection, SecretRef};

fn args(items: &[&str]) -> Vec<String> {
    items.iter().map(|s| s.to_string()).collect()
}

#[test]
fn no_args_runs_with_no_connection_name() {
    assert!(matches!(
        parse_args(args(&["ratwarren"])),
        Invocation::Run { name: None }
    ));
}

#[test]
fn one_plain_arg_runs_with_that_connection_name() {
    match parse_args(args(&["ratwarren", "prod"])) {
        Invocation::Run { name: Some(n) } => assert_eq!(n, "prod"),
        other => panic!(
            "expected Run{{name: Some(_)}}, got a different variant: {}",
            matches_desc(&other)
        ),
    }
}

#[test]
fn help_flag_is_recognized_long_and_short() {
    assert!(matches!(
        parse_args(args(&["ratwarren", "--help"])),
        Invocation::Help
    ));
    assert!(matches!(
        parse_args(args(&["ratwarren", "-h"])),
        Invocation::Help
    ));
}

#[test]
fn set_password_with_a_name_is_recognized() {
    match parse_args(args(&["ratwarren", "--set-password", "foo"])) {
        Invocation::SetPassword { name } => assert_eq!(name, "foo"),
        other => panic!(
            "expected SetPassword, got a different variant: {}",
            matches_desc(&other)
        ),
    }
}

#[test]
fn set_password_alone_is_bad_usage() {
    assert!(matches!(
        parse_args(args(&["ratwarren", "--set-password"])),
        Invocation::BadUsage(_)
    ));
}

#[test]
fn set_password_with_two_names_is_bad_usage() {
    assert!(matches!(
        parse_args(args(&["ratwarren", "--set-password", "foo", "bar"])),
        Invocation::BadUsage(_)
    ));
}

#[test]
fn unknown_flag_is_bad_usage() {
    assert!(matches!(
        parse_args(args(&["ratwarren", "--bogus"])),
        Invocation::BadUsage(_)
    ));
}

#[test]
fn two_plain_args_is_bad_usage() {
    assert!(matches!(
        parse_args(args(&["ratwarren", "foo", "bar"])),
        Invocation::BadUsage(_)
    ));
}

#[test]
fn empty_string_connection_name_is_treated_as_a_literal_valid_name() {
    match parse_args(args(&["ratwarren", ""])) {
        Invocation::Run { name: Some(n) } => assert_eq!(n, ""),
        other => panic!(
            "expected Run{{name: Some(\"\")}}, got a different variant: {}",
            matches_desc(&other)
        ),
    }
}

#[test]
fn set_password_with_a_flag_shaped_name_is_treated_as_a_literal_connection_name() {
    match parse_args(args(&["ratwarren", "--set-password", "--help"])) {
        Invocation::SetPassword { name } => assert_eq!(name, "--help"),
        other => panic!(
            "expected SetPassword{{name: \"--help\"}}, got a different variant: {}",
            matches_desc(&other)
        ),
    }
}

#[test]
fn a_flag_appearing_after_a_positional_name_is_not_reinterpreted_as_set_password() {
    assert!(matches!(
        parse_args(args(&["ratwarren", "foo", "--set-password"])),
        Invocation::BadUsage(_)
    ));
}

fn matches_desc(inv: &Invocation) -> &'static str {
    match inv {
        Invocation::Run { .. } => "Run",
        Invocation::SetPassword { .. } => "SetPassword",
        Invocation::Help => "Help",
        Invocation::BadUsage(_) => "BadUsage",
    }
}

fn connection(name: &str, password: bool) -> Connection {
    Connection {
        name: name.to_string(),
        group: None,
        host: "db".to_string(),
        port: 5432,
        database: "app".to_string(),
        user: "me".to_string(),
        password: if password { Some(SecretRef::Keyring { account: None }) } else { None },
        tunnel: None,
    }
}

fn config(names: &[&str]) -> Config {
    Config { connections: names.iter().map(|n| connection(n, false)).collect() }
}

#[test]
fn bad_usage_says_why() {
    let said = |items: &[&str]| match parse_args(args(items)) {
        Invocation::BadUsage(message) => message,
        other => panic!("expected bad usage, got {other:?}"),
    };
    assert_eq!(said(&["r", "--bogus"]), "unknown flag: --bogus");
    assert_eq!(said(&["r", "a", "b"]), "too many arguments");
    assert_eq!(said(&["r", "--set-password"]), "--set-password requires a connection name");
    assert_eq!(
        said(&["r", "--set-password", "a", "b"]),
        "--set-password takes exactly one connection name"
    );
    assert_eq!(parse_args(vec![]), Invocation::Run { name: None });
}

#[test]
fn a_named_connection_must_exist_and_an_only_one_needs_no_name() {
    let two = config(&["a", "b"]);
    let named = |n: &str| Some(n.to_string());
    assert_eq!(resolve_starting_connection(&two, named("b")), Ok(named("b")));
    assert_eq!(resolve_starting_connection(&two, named("c")), Err(()));
    assert_eq!(resolve_starting_connection(&two, None), Ok(None));
    assert_eq!(resolve_starting_connection(&config(&["a"]), None), Ok(named("a")));
    assert_eq!(resolve_starting_connection(&config(&[]), None), Ok(None));
}

#[test]
fn a_user_is_told_what_is_configured_or_how_to_configure_it() {
    assert_eq!(
        available(&config(&["a", "b"]), None),
        vec!["usage: ratwarren <connection-name>", "available connections:", "  a", "  b"]
    );
    let lines = available(&config(&[]), Some("/c.toml".to_string()));
    assert_eq!(lines[0], "no connections configured");
    assert_eq!(lines[1], "add one at /c.toml, for example:");
    assert_eq!(lines.len(), 8);
    assert_eq!(
        available(&config(&[]), None)[1],
        "add one to your config file, for example:"
    );
}

#[test]
fn a_password_is_stored_only_for_a_connection_that_has_one() {
    let config =
        Config { connections: vec![connection("a", true), connection("b", false)] };
    assert_eq!(
        password_place(&config, "a"),
        PasswordPlace::Keyring { service: "ratwarren", account: "me@db:5432/app".to_string() }
    );
    match password_place(&config, "b") {
        PasswordPlace::NoPassword { message } => assert_eq!(
            message,
            "connection \"b\" has no `password` entry in the config; add [connections.password] \
             / source = \"keyring\" first"
        ),
        other => panic!("expected a message, got {other:?}"),
    }
    assert_eq!(password_place(&config, "c"), PasswordPlace::Unknown);
    assert_eq!(
        stored_message("a", "s", "x"),
        "stored password for connection \"a\" (service \"s\", account \"x\")"
    );
}
