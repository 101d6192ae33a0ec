use agent_shell_core::pattern::{prompt_pattern, wait_pattern, Pattern};
use agent_shell_core::ringbuf::RingBuffer;
use agent_shell_core::server::{
    attach_drain, attach_input, client_expired, create_response, empty_send_response, output_read_response, prompt_seen,
    read_response, readonly_exit_key, screen_response, send_done_response, send_overflow_response,
    send_payload, send_refusal, send_timeout_response, session_response, wait_step,
    wait_timeout_response, writable_detach_key, AttachInput, SendTracker, SendVerdict, FAST_DONE_MS, STABLE_MS,
};

#[test]
fn send_refusals() {
    let r = send_refusal(true, Some(3)).expect("refused");
    assert!(!r.ok);
    assert_eq!(r.error.as_deref(), Some("session is being destroyed"));
    let r = send_refusal(false, Some(3)).expect("refused");
    assert_eq!(r.error.as_deref(), Some("session exited"));
    assert_eq!(r.exit_code, Some(3));
    assert!(send_refusal(false, None).is_none());
}

#[test]
fn send_payloads() {
    assert_eq!(send_payload("ls", None), Ok(Some(b"ls\n".to_vec())));
    assert_eq!(send_payload("", None), Ok(None));
    assert_eq!(send_payload("", Some("c")), Ok(Some(vec![0x03])));
    assert_eq!(
        send_payload("ls", Some("c")),
        Err("cannot specify both --ctrl and text".to_string())
    );
    assert_eq!(send_payload("", Some("q")), Err("unknown control char: q".to_string()));
}

#[test]
fn send_answers() {
    let r = empty_send_response(7);
    assert!(r.ok);
    assert_eq!(r.seq, Some(7));
    assert_eq!(r.output.as_deref(), Some(""));
    assert_eq!(r.elapsed_ms, Some(0));

    let mut rb = RingBuffer::new(4096);
    rb.write(b"before");
    let start = rb.write_cursor();
    rb.write(b"after\xff");
    let r = send_done_response(&rb, start, 2, 40, Some(0));
    assert!(r.ok);
    assert_eq!(r.output.as_deref(), Some("after\u{fffd}"));
    assert_eq!(r.exited, Some(true));
    assert_eq!(r.exit_code, Some(0));
    assert_eq!(r.gap, None);

    let r = send_timeout_response(&rb, start, 2, 90);
    assert!(!r.ok);
    assert_eq!(r.error.as_deref(), Some("timeout"));
    assert_eq!(r.output.as_deref(), Some("after\u{fffd}"));

    let r = send_overflow_response(2, 500, 10);
    assert_eq!(r.error.as_deref(), Some("buffer_overflow"));
    assert_eq!(r.lost_bytes, Some(500));
    assert!(r.output.is_none());
}

#[test]
fn read_answers_report_gaps() {
    let mut rb = RingBuffer::new(4096);
    rb.write(&vec![b'q'; 5000]);
    let r = read_response(&rb, 0);
    assert!(r.ok);
    assert_eq!(r.gap, Some(true));
    assert_eq!(r.lost_bytes, Some(904));
    assert_eq!(r.output.as_ref().map(|s| s.len()), Some(4096));
    let r = output_read_response(&rb, 4990, Some(1));
    assert_eq!(r.output.as_deref(), Some("qqqqqqqqqq"));
    assert_eq!(r.gap, None);
    assert_eq!(r.exit_code, Some(1));
}

#[test]
fn tracker_ready_on_prompt_or_exit() {
    let mut t = SendTracker::new(0);
    assert_eq!(t.observe(10, 0, false, true, false, (false, 0)), SendVerdict::Ready);
    let mut t = SendTracker::new(0);
    assert_eq!(t.observe(10, 0, false, false, true, (false, 0)), SendVerdict::Ready);
}

#[test]
fn tracker_waits_for_output_to_settle() {
    let mut t = SendTracker::new(10);
    // New output while a command runs: keep waiting.
    assert_eq!(t.observe(10, 20, false, false, false, (false, 0)), SendVerdict::Pending);
    // Shell back in the foreground, nothing new: the settling clock starts.
    assert_eq!(t.observe(20, 20, true, false, false, (false, 0)), SendVerdict::Pending);
    assert_eq!(t.stable_since, Some(20));
    assert_eq!(
        t.observe(20 + STABLE_MS - 1, 20, true, false, false, (false, 0)),
        SendVerdict::Pending
    );
    assert_eq!(t.observe(20 + STABLE_MS, 20, true, false, false, (false, 0)), SendVerdict::Ready);
}

#[test]
fn tracker_fast_command() {
    let mut t = SendTracker::new(0);
    assert_eq!(t.observe(FAST_DONE_MS - 1, 5, true, false, false, (false, 0)), SendVerdict::Pending);
    assert_eq!(t.observe(FAST_DONE_MS, 6, true, false, false, (false, 0)), SendVerdict::Ready);
    // No new output at all never counts as done by the shell alone.
    let mut t = SendTracker::new(0);
    assert_eq!(t.observe(5000, 0, true, false, false, (false, 0)), SendVerdict::Pending);
}

#[test]
fn tracker_overflow_ends_wait() {
    let mut t = SendTracker::new(0);
    assert_eq!(t.observe(10, 3, true, true, true, (true, 77)), SendVerdict::Overflow(77));
    assert_eq!(t.last_wc, 0);
    assert!(SendTracker::timed_out(100, 100));
    assert!(!SendTracker::timed_out(99, 100));
}

#[test]
fn prompt_detection_reads_new_output() {
    let mut rb = RingBuffer::new(4096);
    rb.write(b"$ ");
    let start = rb.write_cursor();
    let p = Pattern::compile(r"\$ $").unwrap();
    assert!(!prompt_seen(&rb, start, Some(&p)));
    rb.write(b"done\n$ ");
    assert!(prompt_seen(&rb, start, Some(&p)));
    assert!(!prompt_seen(&rb, start, None));
}

#[test]
fn wait_steps() {
    let mut rb = RingBuffer::new(4096);
    let p = wait_pattern("a.c", true).unwrap();
    rb.write(b"abc");
    assert!(wait_step(&rb, 0, &p, None, 5).is_none());
    let r = wait_step(&rb, 0, &p, Some(4), 6).expect("exited");
    assert!(!r.ok);
    assert_eq!(r.error.as_deref(), Some("session exited"));
    assert_eq!(r.exit_code, Some(4));
    assert_eq!(r.output.as_deref(), Some("abc"));
    rb.write(b" a.c!");
    let r = wait_step(&rb, 0, &p, None, 7).expect("matched");
    assert!(r.ok);
    assert_eq!(r.output.as_deref(), Some("abc a.c!"));
    assert_eq!(r.elapsed_ms, Some(7));
    let r = wait_timeout_response(30000);
    assert_eq!(r.error.as_deref(), Some("timeout"));
}

#[test]
fn patterns() {
    assert!(Pattern::compile("(").unwrap_err().starts_with("invalid regex: "));
    let p = wait_pattern("1+1", true).unwrap();
    assert_eq!(p.as_str(), r"1\+1");
    assert!(p.is_match("so 1+1=2"));
    assert!(!p.is_match("11"));
    assert!(wait_pattern("(", false).is_err());
    assert!(prompt_pattern(None).unwrap().is_none());
    assert!(prompt_pattern(Some("")).unwrap().is_none());
    assert_eq!(prompt_pattern(Some(">>> ")).unwrap().unwrap().as_str(), ">>> ");
    assert!(prompt_pattern(Some("[")).is_err());
}

#[test]
fn simple_answers() {
    let r = session_response("abc");
    assert!(r.ok);
    assert_eq!(r.session_id.as_deref(), Some("abc"));
    let r = create_response("abc", Some("/r/abc.jsonl".to_string()));
    assert_eq!(r.prompt_detected, Some(None));
    assert_eq!(r.recording.as_deref(), Some("/r/abc.jsonl"));
    let r = screen_response(vec!["l1".to_string()], (0, 2));
    assert_eq!(r.screen, Some(vec!["l1".to_string()]));
    assert_eq!(r.cursor, Some((0, 2)));
}

#[test]
fn attach_keys_and_drain() {
    assert!(readonly_exit_key(b"ab\x03"));
    assert!(readonly_exit_key(b"\x04"));
    assert!(!readonly_exit_key(b"q"));
    assert!(writable_detach_key(b"\x03"));
    assert!(!writable_detach_key(b"\x04"));

    let mut rb = RingBuffer::new(4096);
    rb.write(b"xyz");
    let (data, cursor) = attach_drain(&rb, 1);
    assert_eq!(data, b"yz");
    assert_eq!(cursor, 3);
    let (data, cursor) = attach_drain(&rb, 3);
    assert!(data.is_empty());
    assert_eq!(cursor, 3);
}

#[test]
fn idle_clients_expire_after_ten_minutes() {
    assert!(!client_expired(599));
    assert!(client_expired(600));
    assert!(client_expired(6000));
}

#[test]
fn attach_input_decisions() {
    assert_eq!(attach_input(false, b"ls\n"), AttachInput::Forward);
    assert_eq!(attach_input(false, b"\x04"), AttachInput::Forward);
    assert_eq!(attach_input(false, b"a\x03b"), AttachInput::End);
    assert_eq!(attach_input(true, b"ls\n"), AttachInput::Ignore);
    assert_eq!(attach_input(true, b"\x04"), AttachInput::End);
    assert_eq!(attach_input(true, b"x\x03"), AttachInput::End);
    assert_eq!(attach_input(false, b""), AttachInput::Forward);
    assert_eq!(attach_input(true, b""), AttachInput::Ignore);
}
