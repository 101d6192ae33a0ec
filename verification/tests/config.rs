use agent_shell_core::config::{Config, DaemonConfig, RecordingConfig, SessionConfig};

#[test]
fn default_config() {
    let config = Config::default();
    assert_eq!(config.session.default_buffer_size, 524288);
    assert_eq!(config.session.default_program, "/bin/bash");
    assert_eq!(config.session.default_rows, 24);
    assert_eq!(config.session.default_cols, 80);
    assert!(!config.session.record_by_default);
}

#[test]
fn default_sections() {
    let d = DaemonConfig::default();
    assert_eq!(d.socket_path, "");
    assert!(d.auto_start);
    let s = SessionConfig::default();
    assert_eq!(s.default_prompt, "");
    let r = RecordingConfig::default();
    assert_eq!(r.dir, "~/.agent-shell/recordings");
    assert_eq!(r.retention_days, 30);
}

#[test]
fn configured_paths() {
    let mut config = Config::default();
    assert!(config.configured_socket_path().is_none());
    assert!(config.configured_recording_dir().is_none());
    config.daemon.socket_path = "/tmp/test.sock".to_string();
    assert_eq!(config.configured_socket_path().as_deref(), Some("/tmp/test.sock"));
    config.recording.dir = "/var/rec".to_string();
    assert_eq!(config.configured_recording_dir().as_deref(), Some("/var/rec"));
    config.recording.dir = "~/elsewhere".to_string();
    let expanded = config.configured_recording_dir().unwrap();
    assert!(expanded.ends_with("/elsewhere") || expanded == "~/elsewhere");
}
