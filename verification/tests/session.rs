use agent_shell_core::config::SessionConfig;
use agent_shell_core::session::{
    child_pids, ctrl_byte, exit_outcome, group_target, needs_default_term, new_session_id,
    next_seq, parse_i32, session_id_from_uuid, parse_pid, recording_file_name, resolve_argv, resolve_settings,
    shell_pgid_or_child, text_payload, ExitProbe, FgProbe, FgTracker, DEFAULT_TIMEOUT_MS,
};

#[test]
fn argv_priority() {
    let a = resolve_argv(Some(vec!["vim".to_string(), "f".to_string()]), Some("x".to_string()), "/bin/bash");
    assert_eq!(a, vec!["vim".to_string(), "f".to_string()]);
    let a = resolve_argv(Some(vec![]), Some("python3".to_string()), "/bin/bash");
    assert_eq!(a, vec!["python3".to_string()]);
    let a = resolve_argv(None, None, "/bin/bash");
    assert_eq!(a, vec!["/bin/bash".to_string()]);
}

#[test]
fn settings_from_config() {
    let config = SessionConfig::default();
    let s = resolve_settings(&config, None, Some(100), Some(10), None);
    assert_eq!((s.rows, s.cols, s.buffer_size, s.record), (24, 100, 4096, false));
    let s = resolve_settings(&config, Some(50), None, None, Some(true));
    assert_eq!((s.rows, s.cols, s.buffer_size, s.record), (50, 80, 524288, true));
}

#[test]
fn default_term_only_when_unset() {
    assert!(needs_default_term(&[]));
    assert!(needs_default_term(&["PATH".to_string()]));
    assert!(!needs_default_term(&["PATH".to_string(), "TERM".to_string()]));
}

#[test]
fn shell_pgid_fallback() {
    assert_eq!(shell_pgid_or_child(1234, 99), 1234);
    assert_eq!(shell_pgid_or_child(0, 99), 99);
}

#[test]
fn session_ids_are_short_hex() {
    let id = new_session_id();
    assert_eq!(id.chars().count(), 8);
    assert!(id.chars().all(|c| c.is_ascii_hexdigit() && !c.is_ascii_uppercase()));
    assert_ne!(new_session_id(), new_session_id());
    assert_eq!(recording_file_name("abcd1234"), "abcd1234.jsonl");
}

#[test]
fn control_keys() {
    assert_eq!(ctrl_byte("c"), Ok(0x03));
    assert_eq!(ctrl_byte("d"), Ok(0x04));
    assert_eq!(ctrl_byte("z"), Ok(0x1a));
    assert_eq!(ctrl_byte("\\"), Ok(0x1c));
    assert_eq!(ctrl_byte("x"), Err("unknown control char: x".to_string()));
}

#[test]
fn text_gets_a_newline() {
    assert_eq!(text_payload("ls -la"), b"ls -la\n");
    assert_eq!(text_payload("é"), "é\n".as_bytes());
}

#[test]
fn sequence_numbers_increase() {
    let mut seq = 0u64;
    assert_eq!(next_seq(&mut seq), 1);
    assert_eq!(next_seq(&mut seq), 2);
    assert_eq!(seq, 2);
}

#[test]
fn foreground_tracking() {
    let mut t = FgTracker::new(100);
    assert!(t.fg_at_shell());
    assert!(!t.fg_returned_to_shell());
    assert_eq!(t.observe(FgProbe::Group(200)), 200);
    assert!(!t.fg_at_shell());
    assert_eq!(t.observe(FgProbe::Group(100)), 100);
    assert!(t.fg_returned_to_shell());
    assert_eq!(t.observe(FgProbe::Failed), 100);
    assert!(!t.fg_returned_to_shell());
    t.observe(FgProbe::Group(300));
    assert_eq!(t.observe(FgProbe::NoTerminal), 300);
    assert_eq!(t.prev_fg_pgid, 100);
}

#[test]
fn exit_status_codes() {
    assert_eq!(exit_outcome(ExitProbe::Running), None);
    assert_eq!(exit_outcome(ExitProbe::Exited { success: true, code: 0 }), Some((0, true)));
    assert_eq!(exit_outcome(ExitProbe::Exited { success: false, code: 2 }), Some((2, true)));
    assert_eq!(exit_outcome(ExitProbe::Failed), Some((1, false)));
}

#[test]
fn kill_targets() {
    assert_eq!(group_target(42), Some(-42));
    assert_eq!(group_target(0), None);
    assert_eq!(group_target(-3), None);
}

#[test]
fn pid_parsing() {
    assert_eq!(parse_pid(" 1234\n"), Some(1234));
    assert_eq!(parse_pid("-7"), Some(-7));
    assert_eq!(parse_pid("+7"), Some(7));
    assert_eq!(parse_pid("abc"), None);
    assert_eq!(parse_pid(""), None);
    assert_eq!(parse_pid("2147483648"), None);
    assert_eq!(parse_i32("-2147483648"), Some(i32::MIN));
    assert_eq!(parse_i32("-"), None);
}

#[test]
fn pgrep_output() {
    assert_eq!(child_pids("12\n34\n"), vec![12, 34]);
    assert_eq!(child_pids(" 5 \r\n\nx\n0\n-3\n77"), vec![5, 77]);
    assert!(child_pids("").is_empty());
}

#[test]
fn default_timeout() {
    assert_eq!(DEFAULT_TIMEOUT_MS, 30000);
}

#[test]
fn session_id_is_uuid_prefix() {
    assert_eq!(session_id_from_uuid("0f1e2d3c-aaaa-bbbb-cccc-000011112222"), "0f1e2d3c");
}
