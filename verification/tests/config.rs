//! The configuration.
use ratwarren::config::{
    Config, ConfigError, Connection, ConnectionGroup, LoadStep, ReadOutcome, SecretRef, SshTunnel,
    DEFAULT_POSTGRES_PORT, KEYRING_SERVICE,
};

fn full_connection() -> Connection {
    Connection {
        name: "prod".to_string(),
        group: Some("production".to_string()),
        host: "db.internal".to_string(),
        port: 6543,
        database: "app".to_string(),
        user: "app_user".to_string(),
        password: Some(SecretRef::Keyring {
            account: Some("prod-account".to_string()),
        }),
        tunnel: Some(SshTunnel {
            host: "bastion".to_string(),
            user: Some("deploy".to_string()),
            port: Some(2222),
        }),
    }
}

fn minimal_connection() -> Connection {
    Connection {
        name: "local".to_string(),
        group: None,
        host: "localhost".to_string(),
        port: DEFAULT_POSTGRES_PORT,
        database: "app".to_string(),
        user: "app_user".to_string(),
        password: None,
        tunnel: None,
    }
}

fn connection_with_group(name: &str, group: Option<&str>) -> Connection {
    let mut connection = minimal_connection();
    connection.name = name.to_string();
    connection.group = group.map(str::to_string);
    connection
}

#[test]
fn grouped_orders_buckets_by_first_appearance() {
    let a = connection_with_group("a", Some("group1"));
    let b = connection_with_group("b", None);
    let c = connection_with_group("c", Some("group2"));
    let d = connection_with_group("d", Some("group1"));

    let config = Config {
        connections: vec![a.clone(), b.clone(), c.clone(), d.clone()],
    };

    let groups = config.grouped();
    let labels: Vec<Option<&str>> = groups.iter().map(|g| g.label).collect();
    assert_eq!(labels, vec![Some("group1"), None, Some("group2")]);

    let group1 = groups
        .iter()
        .find(|g| g.label == Some("group1"))
        .expect("group1 present");
    assert_eq!(group1.connections, vec![&a, &d]);
}

#[test]
fn grouped_places_the_ungrouped_bucket_at_its_first_appearance() {
    let a = connection_with_group("a", None);
    let b = connection_with_group("b", Some("group1"));

    let config = Config {
        connections: vec![a, b],
    };

    let groups = config.grouped();
    assert_eq!(groups[0].label, None);
}

#[test]
fn grouped_is_empty_for_a_config_with_no_connections() {
    let config = Config::default();

    assert!(config.grouped().is_empty());
}

#[test]
fn grouped_treats_labels_as_byte_exact() {
    let a = connection_with_group("a", Some("prod"));
    let b = connection_with_group("b", Some("Prod"));

    let config = Config {
        connections: vec![a, b],
    };

    let groups = config.grouped();
    assert_eq!(groups.len(), 2);
}

#[test]
fn grouped_single_connection_with_a_group_is_its_own_bucket() {
    let a = connection_with_group("a", Some("solo"));

    let config = Config {
        connections: vec![a.clone()],
    };

    let groups = config.grouped();
    assert_eq!(groups.len(), 1);
    assert_eq!(groups[0].label, Some("solo"));
    assert_eq!(groups[0].connections, vec![&a]);
}

#[test]
fn grouped_puts_all_connections_sharing_one_group_in_a_single_bucket() {
    let a = connection_with_group("a", Some("shared"));
    let b = connection_with_group("b", Some("shared"));
    let c = connection_with_group("c", Some("shared"));

    let config = Config {
        connections: vec![a.clone(), b.clone(), c.clone()],
    };

    let groups = config.grouped();
    assert_eq!(groups.len(), 1);
    assert_eq!(groups[0].label, Some("shared"));
    assert_eq!(groups[0].connections, vec![&a, &b, &c]);
}

#[test]
fn grouped_does_not_confuse_a_group_label_with_a_connections_name() {
    let alpha_named = connection_with_group("alpha", None);
    let beta_grouped_alpha = connection_with_group("beta", Some("alpha"));

    let config = Config {
        connections: vec![alpha_named.clone(), beta_grouped_alpha.clone()],
    };

    let groups = config.grouped();
    assert_eq!(groups.len(), 2);

    let ungrouped = groups
        .iter()
        .find(|g| g.label.is_none())
        .expect("ungrouped bucket present");
    assert_eq!(ungrouped.connections, vec![&alpha_named]);

    let alpha_group = groups
        .iter()
        .find(|g| g.label == Some("alpha"))
        .expect("\"alpha\" group present");
    assert_eq!(alpha_group.connections, vec![&beta_grouped_alpha]);
}

#[test]
fn grouped_handles_a_long_alternating_sequence_without_off_by_one_errors() {
    let connections: Vec<Connection> = vec![
        connection_with_group("c0", Some("g1")),
        connection_with_group("c1", None),
        connection_with_group("c2", Some("g2")),
        connection_with_group("c3", Some("g1")),
        connection_with_group("c4", None),
        connection_with_group("c5", Some("g3")),
        connection_with_group("c6", Some("g2")),
        connection_with_group("c7", None),
        connection_with_group("c8", Some("g1")),
    ];

    let config = Config {
        connections: connections.clone(),
    };

    let groups = config.grouped();
    let labels: Vec<Option<&str>> = groups.iter().map(|g| g.label).collect();
    assert_eq!(labels, vec![Some("g1"), None, Some("g2"), Some("g3")]);

    let names_for = |label: Option<&str>| -> Vec<&str> {
        groups
            .iter()
            .find(|g| g.label == label)
            .expect("group present")
            .connections
            .iter()
            .map(|c| c.name.as_str())
            .collect()
    };

    assert_eq!(names_for(Some("g1")), vec!["c0", "c3", "c8"]);
    assert_eq!(names_for(None), vec!["c1", "c4", "c7"]);
    assert_eq!(names_for(Some("g2")), vec!["c2", "c6"]);
    assert_eq!(names_for(Some("g3")), vec!["c5"]);
}

#[test]
fn grouped_does_not_assume_its_input_has_been_validated() {
    let a = connection_with_group("a", Some(""));
    let b = connection_with_group("b", Some(""));
    let c = connection_with_group("c", None);

    let config = Config {
        connections: vec![a.clone(), b.clone(), c.clone()],
    };

    let groups = config.grouped();
    let labels: Vec<Option<&str>> = groups.iter().map(|g| g.label).collect();
    assert_eq!(labels, vec![Some(""), None]);
    assert_eq!(groups[0].connections, vec![&a, &b]);
    assert_eq!(groups[1].connections, vec![&c]);
}

#[test]
fn connection_group_equality_is_sensitive_to_member_order() {
    let a = minimal_connection();
    let mut b = minimal_connection();
    b.name = "other".to_string();

    let forward = ConnectionGroup {
        label: Some("g"),
        connections: vec![&a, &b],
    };
    let reversed = ConnectionGroup {
        label: Some("g"),
        connections: vec![&b, &a],
    };
    let same_order = ConnectionGroup {
        label: Some("g"),
        connections: vec![&a, &b],
    };

    assert_ne!(
        forward, reversed,
        "PartialEq must be order-sensitive, not set-equality"
    );
    assert_eq!(forward, same_order);
}

#[test]
fn validate_rejects_duplicate_connection_names() {
    let mut a = minimal_connection();
    a.name = "dup".to_string();
    let mut b = full_connection();
    b.name = "dup".to_string();

    let config = Config {
        connections: vec![a, b],
    };

    let err = config.validate().expect_err("duplicate names are invalid");
    assert!(matches!(
        err,
        ConfigError::DuplicateConnectionName { name } if name == "dup"
    ));
}

#[test]
fn validate_rejects_duplicate_names_across_different_groups() {
    let mut a = minimal_connection();
    a.name = "dup".to_string();
    a.group = Some("group1".to_string());
    let mut b = full_connection();
    b.name = "dup".to_string();
    b.group = Some("group2".to_string());

    let config = Config {
        connections: vec![a, b],
    };

    let err = config
        .validate()
        .expect_err("duplicate names across different groups are invalid");
    assert!(matches!(
        err,
        ConfigError::DuplicateConnectionName { name } if name == "dup"
    ));
}

#[test]
fn validate_rejects_empty_name() {
    let mut connection = minimal_connection();
    connection.name = "  ".to_string();
    let config = Config {
        connections: vec![connection],
    };

    let err = config.validate().expect_err("empty name is invalid");
    assert!(matches!(err, ConfigError::EmptyField { field: "name", .. }));
}

#[test]
fn validate_rejects_empty_group() {
    let mut connection = minimal_connection();
    connection.group = Some("".to_string());
    let config = Config {
        connections: vec![connection],
    };

    let err = config.validate().expect_err("empty group is invalid");
    assert!(matches!(
        err,
        ConfigError::EmptyField { field: "group", .. }
    ));
}

#[test]
fn validate_rejects_whitespace_only_group() {
    let mut connection = minimal_connection();
    connection.group = Some("  ".to_string());
    let config = Config {
        connections: vec![connection],
    };

    let err = config
        .validate()
        .expect_err("whitespace-only group is invalid");
    assert!(matches!(
        err,
        ConfigError::EmptyField { field: "group", .. }
    ));
}

#[test]
fn validate_rejects_empty_host() {
    let mut connection = minimal_connection();
    connection.host = "".to_string();
    let config = Config {
        connections: vec![connection],
    };

    let err = config.validate().expect_err("empty host is invalid");
    assert!(matches!(err, ConfigError::EmptyField { field: "host", .. }));
}

#[test]
fn validate_rejects_empty_database() {
    let mut connection = minimal_connection();
    connection.database = "".to_string();
    let config = Config {
        connections: vec![connection],
    };

    let err = config.validate().expect_err("empty database is invalid");
    assert!(matches!(
        err,
        ConfigError::EmptyField {
            field: "database",
            ..
        }
    ));
}

#[test]
fn validate_rejects_empty_user() {
    let mut connection = minimal_connection();
    connection.user = "".to_string();
    let config = Config {
        connections: vec![connection],
    };

    let err = config.validate().expect_err("empty user is invalid");
    assert!(matches!(err, ConfigError::EmptyField { field: "user", .. }));
}

#[test]
fn validate_rejects_zero_port() {
    let mut connection = minimal_connection();
    connection.port = 0;
    let config = Config {
        connections: vec![connection],
    };

    let err = config.validate().expect_err("port 0 is invalid");
    assert!(matches!(err, ConfigError::ZeroPort { field: "port", .. }));
}

#[test]
fn validate_rejects_tunnel_with_empty_host() {
    let mut connection = minimal_connection();
    connection.tunnel = Some(SshTunnel {
        host: "".to_string(),
        user: None,
        port: None,
    });
    let config = Config {
        connections: vec![connection],
    };

    let err = config.validate().expect_err("empty tunnel host is invalid");
    assert!(matches!(
        err,
        ConfigError::EmptyField {
            field: "tunnel.host",
            ..
        }
    ));
}

#[test]
fn validate_rejects_tunnel_host_starting_with_dash() {
    let mut connection = minimal_connection();
    connection.tunnel = Some(SshTunnel {
        host: "-oProxyCommand=touch /tmp/pwned".to_string(),
        user: None,
        port: None,
    });
    let config = Config {
        connections: vec![connection],
    };

    let err = config
        .validate()
        .expect_err("tunnel host starting with '-' is invalid");
    assert!(matches!(
        err,
        ConfigError::InvalidField {
            field: "tunnel.host",
            ..
        }
    ));
}

#[test]
fn validate_rejects_tunnel_host_containing_colon() {
    let mut connection = minimal_connection();
    connection.tunnel = Some(SshTunnel {
        host: "bastion:22".to_string(),
        user: None,
        port: None,
    });
    let config = Config {
        connections: vec![connection],
    };

    let err = config
        .validate()
        .expect_err("tunnel host containing ':' is invalid");
    assert!(matches!(
        err,
        ConfigError::InvalidField {
            field: "tunnel.host",
            ..
        }
    ));
}

#[test]
fn validate_rejects_host_with_colon_when_tunnel_present_and_host_not_ipv6() {
    let mut connection = minimal_connection();
    connection.host = "db.internal:5432".to_string();
    connection.tunnel = Some(SshTunnel {
        host: "bastion".to_string(),
        user: None,
        port: None,
    });
    let config = Config {
        connections: vec![connection],
    };

    let err = config
        .validate()
        .expect_err("colon-containing non-IPv6 host with a tunnel is invalid");
    assert!(matches!(
        err,
        ConfigError::InvalidField { field: "host", .. }
    ));
}

#[test]
fn validate_accepts_ipv6_literal_host_when_tunnel_present() {
    let mut connection = minimal_connection();
    connection.host = "::1".to_string();
    connection.tunnel = Some(SshTunnel {
        host: "bastion".to_string(),
        user: None,
        port: None,
    });
    let config = Config {
        connections: vec![connection],
    };

    config
        .validate()
        .expect("an IPv6 literal host with a tunnel is valid");
}

#[test]
fn validate_accepts_host_with_colon_when_no_tunnel_present() {
    let mut connection = minimal_connection();
    connection.host = "not-ipv6:but-no-tunnel".to_string();
    connection.tunnel = None;
    let config = Config {
        connections: vec![connection],
    };

    config
        .validate()
        .expect("host colon check only applies when a tunnel is configured");
}

#[test]
fn validate_rejects_tunnel_with_empty_user() {
    let mut connection = minimal_connection();
    connection.tunnel = Some(SshTunnel {
        host: "bastion".to_string(),
        user: Some("  ".to_string()),
        port: None,
    });
    let config = Config {
        connections: vec![connection],
    };

    let err = config.validate().expect_err("blank tunnel user is invalid");
    assert!(matches!(
        err,
        ConfigError::EmptyField {
            field: "tunnel.user",
            ..
        }
    ));
}

#[test]
fn validate_rejects_tunnel_user_starting_with_dash() {
    let mut connection = minimal_connection();
    connection.tunnel = Some(SshTunnel {
        host: "bastion".to_string(),
        user: Some("-oProxyCommand=touch /tmp/pwned".to_string()),
        port: None,
    });
    let config = Config {
        connections: vec![connection],
    };

    let err = config
        .validate()
        .expect_err("tunnel user starting with '-' is invalid");
    assert!(matches!(
        err,
        ConfigError::InvalidField {
            field: "tunnel.user",
            ..
        }
    ));
}

#[test]
fn validate_rejects_tunnel_with_zero_port() {
    let mut connection = minimal_connection();
    connection.tunnel = Some(SshTunnel {
        host: "bastion".to_string(),
        user: None,
        port: Some(0),
    });
    let config = Config {
        connections: vec![connection],
    };

    let err = config.validate().expect_err("tunnel port 0 is invalid");
    assert!(matches!(
        err,
        ConfigError::ZeroPort {
            field: "tunnel.port",
            ..
        }
    ));
}

#[test]
fn validate_rejects_empty_keyring_account() {
    let mut connection = minimal_connection();
    connection.password = Some(SecretRef::Keyring {
        account: Some("  ".to_string()),
    });
    let config = Config {
        connections: vec![connection],
    };

    let err = config
        .validate()
        .expect_err("blank keyring account is invalid");
    assert!(matches!(
        err,
        ConfigError::EmptyField {
            field: "password.account",
            ..
        }
    ));
}

#[test]
fn keyring_account_is_none_without_a_password() {
    let connection = minimal_connection();
    assert_eq!(connection.keyring_account(), None);
}

#[test]
fn keyring_account_uses_explicit_account_when_present() {
    let mut connection = minimal_connection();
    connection.password = Some(SecretRef::Keyring {
        account: Some("explicit-account".to_string()),
    });

    assert_eq!(
        connection.keyring_account(),
        Some("explicit-account".to_string())
    );
}

#[test]
fn keyring_account_derives_default_when_account_is_none() {
    let mut connection = minimal_connection();
    connection.password = Some(SecretRef::Keyring { account: None });

    assert_eq!(
        connection.keyring_account(),
        Some(format!(
            "{}@{}:{}/{}",
            connection.user, connection.host, connection.port, connection.database
        ))
    );
}

#[test]
fn keyring_service_is_the_shared_constant() {
    let connection = minimal_connection();
    assert_eq!(connection.keyring_service(), KEYRING_SERVICE);
}

fn not_found() -> ReadOutcome {
    ReadOutcome::NotFound { cause: "No such file or directory".to_string() }
}

#[test]
fn load_from_nonexistent_path_returns_default_config() {
    assert_eq!(Config::load_from("/tmp/does-not-exist.toml", not_found()), LoadStep::FirstRun);
    assert_eq!(Config::default(), Config { connections: vec![] });
}

#[test]
fn load_with_missing_explicit_env_override_path_is_an_error() {
    let step = Config::load_resolved("/tmp/does-not-exist.toml", true, not_found());
    match step {
        LoadStep::Failed(err) => {
            assert!(matches!(err, ConfigError::Read { .. }));
            assert_eq!(err.message(), "failed to read config file /tmp/does-not-exist.toml");
        }
        other => panic!("missing explicit override path should be an error, got {other:?}"),
    }
}

#[test]
fn a_file_that_cannot_be_read_is_an_error_named_or_not() {
    for explicit in [true, false] {
        let read = ReadOutcome::Failed { cause: "Permission denied".to_string() };
        assert_eq!(
            Config::load_resolved("/etc/x.toml", explicit, read),
            LoadStep::Failed(ConfigError::Read {
                path: "/etc/x.toml".to_string(),
                cause: "Permission denied".to_string()
            })
        );
    }
}

#[test]
fn a_file_that_was_read_is_parsed() {
    assert_eq!(
        Config::load_from("c.toml", ReadOutcome::Text("connections = []".to_string())),
        LoadStep::Parse("connections = []".to_string())
    );
}

#[test]
fn only_a_valid_config_is_parsed_or_written() {
    let valid = Config { connections: vec![full_connection(), minimal_connection()] };
    assert_eq!(Config::parse_toml(Ok(valid.clone())), Ok(valid.clone()));
    assert_eq!(valid.to_toml(Ok("text".to_string())), Ok("text".to_string()));
    assert_eq!(
        valid.to_toml(Err("no".to_string())),
        Err(ConfigError::Serialize("no".to_string()))
    );
    assert_eq!(
        Config::parse_toml(Err("line 1".to_string())),
        Err(ConfigError::Parse("line 1".to_string()))
    );

    let twice = Config { connections: vec![minimal_connection(), minimal_connection()] };
    let fault = ConfigError::DuplicateConnectionName { name: "local".to_string() };
    assert_eq!(Config::parse_toml(Ok(twice.clone())), Err(fault.clone()));
    assert_eq!(twice.to_toml(Ok("text".to_string())), Err(fault));
}

#[test]
fn connection_finds_the_first_of_a_name_and_nothing_else() {
    let mut second = full_connection();
    second.name = "local".to_string();
    let config = Config { connections: vec![minimal_connection(), second] };
    assert_eq!(config.connection("local"), Some(&config.connections[0]));
    assert_eq!(config.connection("Local"), None);
}

#[test]
fn every_connection_is_in_exactly_one_group() {
    let config = Config {
        connections: vec![
            connection_with_group("a", Some("x")),
            connection_with_group("b", None),
            connection_with_group("c", Some("x")),
        ],
    };
    let groups = config.grouped();
    let total: usize = groups.iter().map(|g| g.connections.len()).sum();
    assert_eq!(total, 3);
    assert_eq!(groups[0].connections[1].name, "c");
    assert_eq!(groups[1].label, None);
}

#[test]
fn every_error_says_what_is_wrong() {
    let name = "a \"b\"".to_string();
    let said: Vec<String> = vec![
        ConfigError::NoConfigDir.message(),
        ConfigError::NoDataDir.message(),
        ConfigError::Write { path: "p".to_string(), cause: "c".to_string() }.message(),
        ConfigError::Parse("x".to_string()).message(),
        ConfigError::Serialize("x".to_string()).message(),
        ConfigError::EmptyField { name: name.clone(), field: "host" }.message(),
        ConfigError::ZeroPort { name: name.clone(), field: "port" }.message(),
        ConfigError::InvalidField { name: name.clone(), field: "host", reason: "is odd" }.message(),
        ConfigError::DuplicateConnectionName { name }.message(),
    ];
    assert_eq!(
        said,
        vec![
            "could not determine a config directory for this platform",
            "could not determine a data directory for this platform",
            "failed to write config file p",
            "invalid TOML: x",
            "failed to serialize config: x",
            "connection \"a \\\"b\\\"\": `host` must not be empty",
            "connection \"a \\\"b\\\"\": `port` must not be 0",
            "connection \"a \\\"b\\\"\": `host` is odd",
            "duplicate connection name \"a \\\"b\\\"\"",
        ]
    );
}

#[test]
fn a_missing_file_means_an_empty_configuration() {
    let missing = || ReadOutcome::NotFound { cause: "gone".to_string() };
    let parse = |_: &str| -> Result<Config, String> { panic!("there is no text") };
    let step = Config::load_from("/etc/x.toml", missing());
    assert_eq!(Config::finish_load(step, parse).unwrap(), Config::default());
    assert!(Config::default().connections.is_empty());
    let step = Config::load_resolved("/etc/x.toml", true, missing());
    assert!(matches!(Config::finish_load(step, parse), Err(ConfigError::Read { .. })));
}

#[test]
fn a_saved_configuration_comes_back_as_it_was() {
    let config = Config { connections: vec![full_connection(), minimal_connection()] };
    let text = config.to_toml(Ok("the text".to_string())).unwrap();
    let step = Config::load_from("/etc/x.toml", ReadOutcome::Text(text));
    let loaded = Config::finish_load(step, |text: &str| {
        assert_eq!(text, "the text");
        Ok(config.clone())
    });
    assert_eq!(loaded.unwrap(), config);
}

#[test]
fn a_loaded_configuration_follows_the_rules() {
    let step = || LoadStep::Parse("the text".to_string());
    let twice = Config { connections: vec![minimal_connection(), minimal_connection()] };
    assert_eq!(
        Config::finish_load(step(), |_: &str| Ok(twice.clone())),
        Err(ConfigError::DuplicateConnectionName { name: "local".to_string() })
    );
    assert_eq!(
        Config::finish_load(step(), |_: &str| Err("odd".to_string())),
        Err(ConfigError::Parse("odd".to_string()))
    );
}
