//! Where a password comes from.
use ratwarren::config::{Connection, SecretRef};
use ratwarren::secret::{
    after_timeout, classify, password_in_line, resolve_with, will_look_up_keyring, EntryKey, EntryStep,
    KeyringFailure, KeyringWait, PasswordEntry, Resolved,
};

fn connection_without_password() -> Connection {
    Connection {
        name: "test".to_string(),
        group: None,
        host: "localhost".to_string(),
        port: 5432,
        database: "app".to_string(),
        user: "app_user".to_string(),
        password: None,
        tunnel: None,
    }
}

fn connection_with_keyring_password() -> Connection {
    let mut conn = connection_without_password();
    conn.password = Some(SecretRef::Keyring {
        account: Some("test-account".to_string()),
    });
    conn
}

#[test]
fn env_var_takes_precedence_over_keyring() {
    let conn = connection_with_keyring_password();
    let resolved = resolve_with(&conn, Some("from-env".to_string()), |_, _| {
        panic!("keyring lookup must not be attempted when the env var is set")
    });
    assert_eq!(resolved.password(), Some("from-env"));
}

#[test]
fn empty_env_var_falls_through_to_keyring() {
    let conn = connection_with_keyring_password();
    let resolved = resolve_with(&conn, Some(String::new()), |_, _| {
        Ok("from-keyring".to_string())
    });
    assert_eq!(resolved.password(), Some("from-keyring"));
}

#[test]
fn no_password_configured_and_no_env_var_is_not_configured() {
    let conn = connection_without_password();
    let resolved = resolve_with(&conn, None, |_, _| {
        panic!("keyring lookup must not be attempted without a configured password")
    });
    assert!(matches!(resolved, Resolved::NotConfigured));
    assert_eq!(resolved.password(), None);
    assert_eq!(resolved.note(), None);
}

#[test]
fn keyring_lookup_success_is_used_when_no_env_var() {
    let conn = connection_with_keyring_password();
    let resolved = resolve_with(&conn, None, |service, account| {
        assert_eq!(service, conn.keyring_service());
        assert_eq!(account, "test-account");
        Ok("secret".to_string())
    });
    assert_eq!(resolved.password(), Some("secret"));
    assert_eq!(resolved.note(), None);
}

#[test]
fn keyring_lookup_failure_is_unavailable_with_a_note() {
    let conn = connection_with_keyring_password();
    let resolved = resolve_with(&conn, None, |_, _| Err("no entry".to_string()));
    assert!(matches!(resolved, Resolved::Unavailable { .. }));
    assert_eq!(resolved.password(), None);
    let note = resolved.note().expect("Unavailable must carry a note");
    assert!(
        note.contains("no entry"),
        "the note must surface the actual lookup failure reason, got {note:?}"
    );
}

#[test]
fn lookup_is_called_with_exactly_the_connections_keyring_service_and_account() {
    let conn = connection_with_keyring_password();
    let expected_service = conn.keyring_service();
    let expected_account = conn.keyring_account().expect("test setup: account is Some");
    let resolved = resolve_with(&conn, None, |service, account| {
        assert_eq!(service, expected_service);
        assert_eq!(account, expected_account);
        Ok("secret".to_string())
    });
    assert_eq!(resolved.password(), Some("secret"));
}

#[test]
fn debug_never_prints_the_password_from_env() {
    let resolved = Resolved::FromEnv("hunter2".to_string());
    let debug = resolved.debug_text();
    assert!(!debug.contains("hunter2"));
}

#[test]
fn debug_never_prints_the_password_from_keyring() {
    let resolved = Resolved::FromKeyring("supersecret".to_string());
    let debug = resolved.debug_text();
    assert!(
        !debug.contains("supersecret"),
        "Resolved's hand-written Debug impl must never leak the password, got {debug:?}"
    );
}

#[test]
fn the_keyring_is_asked_only_where_there_is_something_to_ask_for() {
    let with = connection_with_keyring_password();
    let without = connection_without_password();
    assert!(will_look_up_keyring(&with, &None));
    assert!(will_look_up_keyring(&with, &Some(String::new())));
    assert!(!will_look_up_keyring(&with, &Some("x".to_string())));
    assert!(!will_look_up_keyring(&without, &None));
}

#[test]
fn a_failure_of_the_keyring_is_put_into_words() {
    assert_eq!(classify(Ok("p".to_string())), Ok("p".to_string()));
    let reason = |f| classify(Err(f)).unwrap_err();
    assert_eq!(reason(KeyringFailure::NoEntry), "no entry in the OS keyring");
    assert_eq!(reason(KeyringFailure::NoDefaultStore), "this machine has no usable OS keyring");
    assert_eq!(reason(KeyringFailure::Other("locked".to_string())), "locked");
}

#[test]
fn the_wait_for_the_keyring_is_announced_once_and_ends() {
    match after_timeout(false) {
        KeyringWait::Notice { message, wait_ms } => {
            assert!(message.starts_with("note: still waiting for the OS keyring"));
            assert_eq!(wait_ms, 57_000);
        }
        other => panic!("expected a notice, got {other:?}"),
    }
    assert_eq!(
        after_timeout(true),
        KeyringWait::GiveUp { reason: "timed out waiting for the OS keyring".to_string() }
    );
}

#[test]
fn a_password_that_is_read_loses_its_line_break_and_nothing_else() {
    assert_eq!(password_in_line(" p w \r\n"), Some(" p w ".to_string()));
    assert_eq!(password_in_line("p"), Some("p".to_string()));
    assert_eq!(password_in_line("\r\n\n"), None);
    assert_eq!(password_in_line(""), None);
}

#[test]
fn a_password_that_is_typed_can_be_corrected_and_given_up() {
    let plain = |c| EntryKey::Char { c, control: false };
    let mut entry = PasswordEntry::new();
    assert!(matches!(entry.key(EntryKey::Backspace), EntryStep::More));
    for key in [plain('a'), plain('c'), EntryKey::Other, EntryKey::Backspace, plain('é')] {
        assert!(matches!(entry.key(key), EntryStep::More));
    }
    match entry.key(EntryKey::Enter) {
        EntryStep::Done(p) => assert_eq!(p.as_deref(), Some("aé")),
        _ => panic!("Enter ends the entry"),
    }
    let mut empty = PasswordEntry::new();
    assert!(matches!(empty.key(EntryKey::Enter), EntryStep::Done(None)));
    assert!(matches!(entry.key(EntryKey::Escape), EntryStep::Cancelled));
    let ctrl_c = EntryKey::Char { c: 'c', control: true };
    assert!(matches!(entry.key(ctrl_c), EntryStep::Cancelled));
}

#[test]
fn what_is_shown_does_not_tell_passwords_apart() {
    assert_eq!(Resolved::FromEnv("a".to_string()).debug_text(), "Resolved::FromEnv(..)");
    assert_eq!(
        Resolved::FromKeyring("a".to_string()).debug_text(),
        Resolved::FromKeyring("b".to_string()).debug_text()
    );
    assert_eq!(
        Resolved::FromEnv("a".to_string()).note(),
        Some("using the password from RATWARREN_PASSWORD".to_string())
    );
}
