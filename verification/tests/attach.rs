use agent_shell_core::attach::{
    accept_frame_len, frame_payload, initial_output, strip_dsr, MAX_FRAME_BYTES,
    MAX_HANDSHAKE_RESPONSE_BYTES,
};
use agent_shell_core::protocol::Response;
use agent_shell_core::server::handshake_response;

#[test]
fn strip_dsr_removes_query() {
    assert_eq!(strip_dsr(b"a\x1b[6nb"), b"ab");
}

#[test]
fn strip_dsr_keeps_other_sequences() {
    assert_eq!(strip_dsr(b"\x1b[31mred"), b"\x1b[31mred");
}

#[test]
fn strip_dsr_passes_plain_text() {
    assert_eq!(strip_dsr(b"no escapes at all"), b"no escapes at all");
}

#[test]
fn initial_output_decodes_and_strips() {
    let resp = handshake_response(b"\x1b[H\x1b[6nscreen");
    assert!(resp.ok);
    assert_eq!(initial_output(&resp), b"\x1b[Hscreen");
}

#[test]
fn initial_output_empty_without_output() {
    let resp = Response::ok();
    assert!(initial_output(&resp).is_empty());
    let mut bad = Response::ok();
    bad.output = Some("%%%".to_string());
    assert!(initial_output(&bad).is_empty());
}

#[test]
fn frame_prefixes_big_endian_length() {
    let frame = frame_payload(b"hello");
    assert_eq!(frame, b"\x00\x00\x00\x05hello");
    let big = vec![7u8; 0x1_0203];
    let frame = frame_payload(&big);
    assert_eq!(&frame[..4], &[0x00, 0x01, 0x02, 0x03]);
    assert_eq!(frame.len(), 4 + big.len());
}

#[test]
fn frame_length_limit() {
    assert_eq!(MAX_FRAME_BYTES, 16 * 1024 * 1024);
    assert_eq!(MAX_HANDSHAKE_RESPONSE_BYTES, 16 * 1024 * 1024);
    assert_eq!(accept_frame_len([0, 0, 1, 0]), Some(256));
    assert_eq!(accept_frame_len([0x01, 0, 0, 0]), Some(16 * 1024 * 1024));
    assert_eq!(accept_frame_len([0x01, 0, 0, 1]), None);
}
