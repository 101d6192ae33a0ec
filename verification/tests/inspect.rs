use agent_shell_core::inspect::{
    contains_escape, contains_output_text, ends_with_truncated_escape, hex_dump,
    last_cursor_pos, session_id, RenderPath,
};
use agent_shell_core::protocol::Response;

/// Assert that a response is ok.
fn assert_ok(resp: &Response) {
    assert!(resp.ok, "expected ok: true, got: {:?}", resp);
}

/// Assert that a response is an error, whose message (if any) holds
/// `expected_error`.
fn assert_error(resp: &Response, expected_error: &str) {
    assert!(!resp.ok, "expected ok: false, got: {:?}", resp);
    if let Some(ref err) = resp.error {
        assert!(
            err.contains(expected_error),
            "expected error containing '{}', got '{}'",
            expected_error,
            err
        );
    }
}

/// Assert raw bytes contain the given escape sequence.
fn assert_contains_escape(bytes: &[u8], needle: &[u8], label: &str) {
    assert!(!needle.is_empty(), "{}: empty escape sequence", label);
    assert!(
        contains_escape(bytes, needle),
        "{}: expected byte sequence {:?} not found.\nTail hex: {}\nTail text: {:?}",
        label,
        needle,
        hex_dump(&bytes[bytes.len().saturating_sub(80)..]),
        String::from_utf8_lossy(&bytes[bytes.len().saturating_sub(200)..]),
    );
}

/// Assert raw bytes, read as UTF-8 with invalid sequences replaced,
/// contain the given text.
fn assert_contains_text(bytes: &[u8], text: &str, label: &str) {
    let output = String::from_utf8_lossy(bytes);
    assert!(
        contains_output_text(bytes, text),
        "{}: expected text '{}' not found. Output tail: {:?}",
        label,
        text,
        &output[..output.len().min(500)],
    );
}

/// Assert bytes do not end with a bare `ESC` or with `ESC [`.
fn assert_no_truncated_escape(bytes: &[u8], label: &str) {
    if ends_with_truncated_escape(bytes) {
        panic!(
            "{}: output ends with a truncated escape sequence.\nTail hex: {}\nTail text: {:?}",
            label,
            hex_dump(&bytes[bytes.len().saturating_sub(40)..]),
            String::from_utf8_lossy(&bytes[bytes.len().saturating_sub(100)..]),
        );
    }
}

#[test]
fn response_assertions() {
    assert_ok(&Response::ok());
    assert_error(&Response::err("session not found: abc"), "session not found");
    let mut bare = Response::ok();
    bare.ok = false;
    assert_error(&bare, "anything");
}

#[test]
fn output_assertions() {
    let out = b"\x1b[1;31mred\x1b[0m plain \xfftext";
    assert_contains_escape(out, b"\x1b[1;31m", "bold red");
    assert_contains_escape(out, b"\x1b[0m", "reset");
    assert_contains_text(out, "red", "text");
    assert_contains_text(out, "\u{fffd}text", "replaced byte");
    assert_no_truncated_escape(out, "complete");
    assert_no_truncated_escape(b"", "empty");
    assert_no_truncated_escape(b"\x1bM", "two-byte escape");
    assert!(ends_with_truncated_escape(b"tail\x1b"));
    assert!(ends_with_truncated_escape(b"tail\x1b["));
}

#[test]
fn last_cursor_position() {
    assert_eq!(last_cursor_pos(b"\x1b[3;7Hx\x1b[10;20Hy"), Some((10, 20)));
    assert_eq!(last_cursor_pos(b"\x1b[H"), Some((1, 1)));
    assert_eq!(last_cursor_pos(b"\x1b[5H"), Some((5, 1)));
    assert_eq!(last_cursor_pos(b"\x1b[;9H"), Some((1, 9)));
    assert_eq!(last_cursor_pos(b"\x1b[31m"), None);
    assert_eq!(last_cursor_pos(b""), None);
    assert_eq!(last_cursor_pos(b"\x1b[2;3"), None);
    assert_eq!(last_cursor_pos(b"\x1b[99999999999999999999999;2H"), Some((1, 2)));
}

#[test]
fn truncated_escapes() {
    assert!(ends_with_truncated_escape(b"abc\x1b"));
    assert!(ends_with_truncated_escape(b"abc\x1b["));
    assert!(!ends_with_truncated_escape(b"abc\x1b[m"));
    assert!(!ends_with_truncated_escape(b""));
}

#[test]
fn escape_and_text_search() {
    assert!(contains_escape(b"a\x1b[1mb", b"\x1b[1m"));
    assert!(!contains_escape(b"a\x1b[1", b"\x1b[1m"));
    assert!(contains_output_text(b"hello \xffworld", "world"));
    assert!(!contains_output_text(b"hello", "world"));
}

#[test]
fn hex_dumps() {
    assert_eq!(hex_dump(b"\x00\xab\x1b"), "00 ab 1b");
    assert_eq!(hex_dump(b""), "");
    let long = vec![0x11u8; 300];
    let dump = hex_dump(&long);
    assert_eq!(dump.len(), 200 * 3 - 1);
}

#[test]
fn session_id_of_response() {
    let mut r = Response::ok();
    r.session_id = Some("abcd".to_string());
    assert_eq!(session_id(&r), "abcd");
    let _ = RenderPath::ReadScreen;
}
