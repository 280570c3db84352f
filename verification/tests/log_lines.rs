use lime_bit::log_lines::{message_of, LineBuffer};

#[test]
fn complete_lines_become_messages() {
    let mut b = LineBuffer::new();
    assert_eq!(b.push(b"first li"), Vec::<String>::new());
    assert_eq!(b.push(b"ne\n  second  \n\n   \nthi"), vec!["first line", "second"]);
    assert_eq!(b.push(b"rd\n"), vec!["third"]);
    assert_eq!(b.push(b""), Vec::<String>::new());
}

#[test]
fn invalid_utf8_is_replaced() {
    let mut b = LineBuffer::new();
    assert_eq!(b.push(b"a\xffb\n"), vec!["a\u{fffd}b"]);
}

#[test]
fn blank_messages_are_dropped() {
    assert_eq!(message_of("  \t "), None);
    assert_eq!(message_of(" x "), Some("x".to_string()));
}

#[test]
fn valid_utf8_lines_keep_their_characters() {
    let mut b = LineBuffer::new();
    assert_eq!(b.push("  h\u{e9}llo \u{2713}\n".as_bytes()), vec!["h\u{e9}llo \u{2713}"]);
}
