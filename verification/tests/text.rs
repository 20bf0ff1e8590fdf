//! Texts.
use ratwarren::text::{
    byte_count, chars_of, chars_within, contains_text, decimal_string, has_char, is_blank,
    join_lines, same_text, split_lines, starts_with_char, trim, trim_breaks, trim_end, width_of,
};
use ratwarren::tunnel::{is_forward_bind_failure, TunnelError};

#[test]
fn blank_is_white_space_for_every_character() {
    for c in (0..=0x10_ffffu32).filter_map(char::from_u32) {
        assert_eq!(is_blank(&c.to_string()), c.is_whitespace(), "{:#x}", c as u32);
    }
    assert!(is_blank(""));
    assert!(!is_blank("  x "));
}

#[test]
fn a_character_is_as_wide_as_its_encoding() {
    for c in ['a', '\u{7f}', '\u{80}', 'é', '\u{7ff}', '\u{800}', '€', '\u{ffff}', '🦀'] {
        assert_eq!(width_of(c), c.len_utf8());
        assert_eq!(byte_count(&c.to_string()), c.len_utf8());
    }
}

#[test]
fn trimming_takes_white_space_only_from_the_ends() {
    for s in ["", " ", " a b ", "\u{a0}x\u{3000}", "\r\nline\n", "é "] {
        assert_eq!(trim(s), s.trim());
        assert_eq!(trim_end(s), s.trim_end());
    }
}

#[test]
fn lines_are_split_and_joined_at_line_feeds() {
    for s in ["", "a", "a\nb", "a\n", "\n\n", "a\r\nb"] {
        let lines = split_lines(s);
        let expected: Vec<String> = s.split('\n').map(str::to_string).collect();
        assert_eq!(lines, expected);
        assert_eq!(join_lines(&lines), s);
    }
}

#[test]
fn numbers_are_written_in_decimal() {
    for n in [0, 7, 9, 10, 99, 100, 12_345, u64::MAX] {
        assert_eq!(decimal_string(n), n.to_string());
    }
}

#[test]
fn searching_a_text() {
    assert!(contains_text("abcabd", "abd"));
    assert!(contains_text("abc", ""));
    assert!(!contains_text("ab", "abc"));
    assert!(has_char("a:b", ':'));
    assert!(!has_char("ab", ':'));
    assert!(starts_with_char("-x", '-'));
    assert!(!starts_with_char("", '-'));
    assert!(same_text("é", "é"));
    assert!(!same_text("é", "e"));
    assert_eq!(chars_of("aé"), vec!['a', 'é']);
}

#[test]
fn characters_that_fit_into_a_number_of_bytes() {
    let s = "aé🦀";
    let fitting: Vec<usize> = (0..9).map(|n| chars_within(s, n)).collect();
    assert_eq!(fitting, vec![0, 1, 1, 2, 2, 2, 2, 3, 3]);
}

#[test]
fn capitals_are_no_hindrance() {
    assert!(is_forward_bind_failure("BIND: Address ALREADY in Use"));
}

#[test]
fn a_time_is_shown_in_seconds() {
    let timeout = TunnelError::ReadyTimeout {
        local_port: 4000,
        timeout_ms: 10_050,
        stderr: " no route \n".to_string(),
    };
    let message = timeout.message();
    assert!(message.contains("10.1s") || message.contains("10.0s"), "got {message:?}");
    assert!(message.ends_with(": no route"), "got {message:?}");
}

#[test]
fn whole_seconds_end_in_a_zero() {
    let timeout = TunnelError::ReadyTimeout {
        local_port: 4000,
        timeout_ms: 15_000,
        stderr: String::new(),
    };
    assert_eq!(
        timeout.message(),
        "timed out after 15.0s waiting for 127.0.0.1:4000 to accept connections"
    );
}

#[test]
fn only_line_breaks_at_the_end_are_trimmed() {
    assert_eq!(trim_breaks("a\r\n"), "a");
    assert_eq!(trim_breaks("\na \n\n"), "\na ");
    assert_eq!(trim_breaks("\r\n"), "");
}
