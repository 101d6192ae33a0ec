use agent_shell_core::cli::{
    attach_is_readonly, command_to_request, daemon_absent, parse_env_pair, picker_candidates,
    session_label, Command,
};
use agent_shell_core::protocol::{Request, SessionInfo};

fn make_create(shell: Option<&str>) -> Request {
    command_to_request(
        Command::Create {
            name: None,
            shell: shell.map(|s| s.to_string()),
            cwd: None,
            envs: None,
            prompt: None,
            rows: None,
            cols: None,
            buffer_size: None,
            record: false,
        },
        None,
    )
}

fn info(id: &str, name: Option<&str>, program: Option<&str>, cwd: Option<&str>, exited: bool) -> SessionInfo {
    SessionInfo {
        id: id.to_string(),
        name: name.map(|s| s.to_string()),
        program: program.map(|s| s.to_string()),
        cwd: cwd.map(|s| s.to_string()),
        prompt: None,
        exited,
        exit_code: if exited { Some(0) } else { None },
        pid: 1,
        created_at: 0,
        buffer_size: 4096,
        recording: false,
    }
}

#[test]
fn no_shell_passes_none_args() {
    match make_create(None) {
        Request::Create { args, program, .. } => {
            assert_eq!(args, None);
            assert_eq!(program, None);
        }
        _ => panic!("expected Create"),
    }
}

#[test]
fn shell_becomes_single_argv() {
    match make_create(Some("/bin/zsh")) {
        Request::Create { args, .. } => {
            assert_eq!(args, Some(vec!["/bin/zsh".to_string()]));
        }
        _ => panic!("expected Create"),
    }
}

#[test]
fn create_fills_cwd_env_and_record() {
    let req = command_to_request(
        Command::Create {
            name: Some("w".to_string()),
            shell: None,
            cwd: None,
            envs: Some(vec!["A=1".to_string(), "B=x=y".to_string(), "junk".to_string()]),
            prompt: None,
            rows: Some(30),
            cols: None,
            buffer_size: None,
            record: true,
        },
        Some("/home/me".to_string()),
    );
    match req {
        Request::Create { name, cwd, env, rows, record, .. } => {
            assert_eq!(name.as_deref(), Some("w"));
            assert_eq!(cwd.as_deref(), Some("/home/me"));
            let env = env.expect("env map");
            assert_eq!(env.len(), 2);
            assert_eq!(env.get("A").map(|s| s.as_str()), Some("1"));
            assert_eq!(env.get("B").map(|s| s.as_str()), Some("x=y"));
            assert_eq!(rows, Some(30));
            assert_eq!(record, Some(true));
        }
        _ => panic!("expected Create"),
    }
}

#[test]
fn send_and_attach_flags() {
    match command_to_request(
        Command::Send {
            session: "s1".to_string(),
            text: None,
            ctrl: Some("c".to_string()),
            nowait: true,
            timeout: Some(5),
            idle_timeout: None,
            client_id: None,
        },
        None,
    ) {
        Request::Send { session_id, text, ctrl, nowait, timeout_ms, .. } => {
            assert_eq!(session_id, "s1");
            assert_eq!(text, "");
            assert_eq!(ctrl.as_deref(), Some("c"));
            assert_eq!(nowait, Some(true));
            assert_eq!(timeout_ms, Some(5));
        }
        _ => panic!("expected Send"),
    }
    let attach = command_to_request(Command::Attach { session: None, writable: false }, None);
    match &attach {
        Request::Attach { session_id, writable } => {
            assert_eq!(session_id, "");
            assert_eq!(*writable, None);
        }
        _ => panic!("expected Attach"),
    }
    assert!(attach_is_readonly(&attach));
    let rw = command_to_request(Command::Attach { session: Some("x".to_string()), writable: true }, None);
    assert!(!attach_is_readonly(&rw));
}

#[test]
fn mouse_button_is_always_sent() {
    match command_to_request(
        Command::Mouse {
            session: "s".to_string(),
            action: "click".to_string(),
            x: 1,
            y: 2,
            button: "left".to_string(),
            direction: None,
            count: None,
            to_x: None,
            to_y: None,
            steps: None,
        },
        None,
    ) {
        Request::Mouse { button, x, y, .. } => {
            assert_eq!(button.as_deref(), Some("left"));
            assert_eq!((x, y), (1, 2));
        }
        _ => panic!("expected Mouse"),
    }
}

#[test]
fn env_pair_splits_at_first_equals() {
    assert_eq!(parse_env_pair("K=V"), Some(("K".to_string(), "V".to_string())));
    assert_eq!(parse_env_pair("K=a=b"), Some(("K".to_string(), "a=b".to_string())));
    assert_eq!(parse_env_pair("=v"), Some((String::new(), "v".to_string())));
    assert_eq!(parse_env_pair("novalue"), None);
}

#[test]
fn label_shows_basename_and_placeholders() {
    let s = info("abcd1234", Some("work"), Some("/usr/bin/zsh"), Some("/tmp"), false);
    assert_eq!(session_label(&s), "abcd1234 (work, zsh, /tmp)");
    let s = info("ffff0000", None, None, None, false);
    assert_eq!(session_label(&s), "ffff0000 (<unnamed>, ?, ?)");
    let s = info("x", None, Some("bash"), None, true);
    assert_eq!(session_label(&s), "x (<unnamed>, bash, ?)");
}

#[test]
fn picker_skips_exited_unless_asked() {
    let sessions = vec![
        info("a", None, None, None, false),
        info("b", None, None, None, true),
        info("c", None, None, None, false),
    ];
    assert_eq!(picker_candidates(&sessions, false), vec![0, 2]);
    assert_eq!(picker_candidates(&sessions, true), vec![0, 1, 2]);
}

#[test]
fn daemon_absent_errors() {
    assert!(daemon_absent("connect: Connection refused (os error 111)"));
    assert!(daemon_absent("connect: No such file or directory (os error 2)"));
    assert!(!daemon_absent("connect: Permission denied (os error 13)"));
}
