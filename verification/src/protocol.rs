//! IPC messages between the CLI and the daemon.
use vstd::prelude::*;
use vstd::string::*;

verus! {

/// IPC request from CLI to daemon.
#[derive(Debug, Clone)]
#[allow(inconsistent_fields)]
pub enum Request {
    Create {
        name: Option<String>,
        program: Option<String>,
        args: Option<Vec<String>>,
        cwd: Option<String>,
        env: Option<std::collections::HashMap<String, String>>,
        prompt: Option<String>,
        rows: Option<u16>,
        cols: Option<u16>,
        buffer_size: Option<usize>,
        record: Option<bool>,
    },
    Destroy { session_id: String },
    Send {
        session_id: String,
        text: String,
        ctrl: Option<String>,
        nowait: Option<bool>,
        timeout_ms: Option<u64>,
        idle_timeout_ms: Option<u64>,
        client_id: Option<String>,
    },
    Read { session_id: String, client_id: Option<String>, screen: Option<bool> },
    Wait {
        session_id: String,
        pattern: String,
        fixed: Option<bool>,
        timeout_ms: Option<u64>,
        client_id: Option<String>,
    },
    SetPrompt { session_id: String, prompt: Option<String> },
    List,
    Attach { session_id: String, writable: Option<bool> },
    Resize { session_id: String, rows: u16, cols: u16 },
    Mouse {
        session_id: String,
        action: String,
        x: u16,
        y: u16,
        button: Option<String>,
        direction: Option<String>,
        count: Option<u16>,
        to_x: Option<u16>,
        to_y: Option<u16>,
        steps: Option<u16>,
    },
    Stop,
}

/// Session metadata for `list` command.
#[derive(Debug, Clone)]
pub struct SessionInfo {
    pub id: String,
    pub name: Option<String>,
    pub program: Option<String>,
    pub cwd: Option<String>,
    pub prompt: Option<String>,
    pub exited: bool,
    pub exit_code: Option<i32>,
    pub pid: u32,
    pub created_at: u64,
    pub buffer_size: usize,
    pub recording: bool,
}

/// IPC response from daemon to CLI.
#[derive(Debug, Clone)]
pub struct Response {
    pub ok: bool,
    pub seq: Option<u64>,
    pub output: Option<String>,
    pub elapsed_ms: Option<u64>,
    pub exited: Option<bool>,
    pub exit_code: Option<i32>,
    pub error: Option<String>,
    pub session_id: Option<String>,
    pub prompt_detected: Option<Option<String>>,
    pub sessions: Option<Vec<SessionInfo>>,
    pub screen: Option<Vec<String>>,
    pub cursor: Option<(usize, usize)>,
    pub gap: Option<bool>,
    pub lost_bytes: Option<u64>,
    pub recording: Option<String>,
}

/// A response as values: its strings by their characters.
pub struct ResponseView {
    pub ok: bool,
    pub seq: Option<u64>,
    pub output: Option<Seq<char>>,
    pub elapsed_ms: Option<u64>,
    pub exited: Option<bool>,
    pub exit_code: Option<i32>,
    pub error: Option<Seq<char>>,
    pub session_id: Option<Seq<char>>,
    pub prompt_detected: Option<Option<Seq<char>>>,
    pub sessions: Option<Seq<SessionInfo>>,
    pub screen: Option<Seq<Seq<char>>>,
    pub cursor: Option<(usize, usize)>,
    pub gap: Option<bool>,
    pub lost_bytes: Option<u64>,
    pub recording: Option<Seq<char>>,
}

pub open spec fn text_view(s: Option<String>) -> Option<Seq<char>> {
    match s {
        Some(t) => Some(t@),
        None => None,
    }
}

/// A response with the given status and no other field.
pub open spec fn bare_view(ok: bool) -> ResponseView {
    ResponseView {
        ok,
        seq: None,
        output: None,
        elapsed_ms: None,
        exited: None,
        exit_code: None,
        error: None,
        session_id: None,
        prompt_detected: None,
        sessions: None,
        screen: None,
        cursor: None,
        gap: None,
        lost_bytes: None,
        recording: None,
    }
}

impl View for Response {
    type V = ResponseView;

    open spec fn view(&self) -> ResponseView {
        ResponseView {
            ok: self.ok,
            seq: self.seq,
            output: text_view(self.output),
            elapsed_ms: self.elapsed_ms,
            exited: self.exited,
            exit_code: self.exit_code,
            error: text_view(self.error),
            session_id: text_view(self.session_id),
            prompt_detected: match self.prompt_detected {
                Some(p) => Some(text_view(p)),
                None => None,
            },
            sessions: match self.sessions {
                Some(v) => Some(v@),
                None => None,
            },
            screen: match self.screen {
                Some(v) => Some(v@.map_values(|t: String| t@)),
                None => None,
            },
            cursor: self.cursor,
            gap: self.gap,
            lost_bytes: self.lost_bytes,
            recording: text_view(self.recording),
        }
    }
}

impl Response {
    /// Whether every field but `ok` and `error` is absent.
    pub open spec fn is_bare(&self) -> bool {
        &&& self.seq is None
        &&& self.output is None
        &&& self.elapsed_ms is None
        &&& self.exited is None
        &&& self.exit_code is None
        &&& self.session_id is None
        &&& self.prompt_detected is None
        &&& self.sessions is None
        &&& self.screen is None
        &&& self.cursor is None
        &&& self.gap is None
        &&& self.lost_bytes is None
        &&& self.recording is None
    }

    /// A successful response with no payload.
    pub fn ok() -> (r: Self)
        ensures
            r.ok,
            r.error is None,
            r.is_bare(),
    {
        Response {
            ok: true,
            seq: None,
            output: None,
            elapsed_ms: None,
            exited: None,
            exit_code: None,
            error: None,
            session_id: None,
            prompt_detected: None,
            sessions: None,
            screen: None,
            cursor: None,
            gap: None,
            lost_bytes: None,
            recording: None,
        }
    }

    /// A failed response carrying `error`.
    pub fn err(error: &str) -> (r: Self)
        ensures
            !r.ok,
            r.error matches Some(e) && e@ == error@,
            r.is_bare(),
    {
        Response {
            ok: false,
            error: Some(String::from_str(error)),
            seq: None,
            output: None,
            elapsed_ms: None,
            exited: None,
            exit_code: None,
            session_id: None,
            prompt_detected: None,
            sessions: None,
            screen: None,
            cursor: None,
            gap: None,
            lost_bytes: None,
            recording: None,
        }
    }
}

} // verus!
