//! Configuration: daemon, session and recording settings with their
//! defaults, and the choice between configured and default paths.
use crate::text::{str_eq, string_of};
use vstd::prelude::*;
use vstd::string::*;

verus! {

#[derive(Debug, Clone)]
pub struct DaemonConfig {
    /// Empty means `<base dir>/daemon.sock`.
    pub socket_path: String,
    pub auto_start: bool,
}

impl DaemonConfig {
    fn default_socket_path() -> (s: String)
        ensures
            s@ == Seq::<char>::empty(),
    {
        String::new()
    }

    fn default_auto_start() -> (b: bool)
        ensures
            b,
    {
        true
    }
}

impl Default for DaemonConfig {
    fn default() -> (c: Self)
        ensures
            c.socket_path@ == Seq::<char>::empty(),
            c.auto_start,
    {
        DaemonConfig {
            socket_path: Self::default_socket_path(),
            auto_start: Self::default_auto_start(),
        }
    }
}

#[derive(Debug, Clone)]
pub struct SessionConfig {
    pub default_buffer_size: usize,
    /// Default program to launch when `create` is called without an explicit
    /// program / argv. Typically a shell such as `/bin/bash` or `/bin/zsh`,
    /// but can be any executable (e.g. `/usr/bin/python3`, `vim`, …).
    pub default_program: String,
    pub default_rows: u16,
    pub default_cols: u16,
    pub default_prompt: String,
    pub record_by_default: bool,
}

impl SessionConfig {
    fn default_buffer_size() -> (n: usize)
        ensures
            n == 524288,
    {
        524288
    }

    fn default_program() -> (s: String)
        ensures
            s@ == "/bin/bash"@,
    {
        string_of("/bin/bash")
    }

    fn default_rows() -> (n: u16)
        ensures
            n == 24,
    {
        24
    }

    fn default_cols() -> (n: u16)
        ensures
            n == 80,
    {
        80
    }
}

impl Default for SessionConfig {
    fn default() -> (c: Self)
        ensures
            c.default_buffer_size == 524288,
            c.default_program@ == "/bin/bash"@,
            c.default_rows == 24,
            c.default_cols == 80,
            c.default_prompt@ == Seq::<char>::empty(),
            !c.record_by_default,
    {
        SessionConfig {
            default_buffer_size: Self::default_buffer_size(),
            default_program: Self::default_program(),
            default_rows: Self::default_rows(),
            default_cols: Self::default_cols(),
            default_prompt: String::new(),
            record_by_default: false,
        }
    }
}

#[derive(Debug, Clone)]
pub struct RecordingConfig {
    pub dir: String,
    /// Delete recording files older than this many days. Set to 0 or omit to
    /// disable automatic cleanup. Default: 30 days.
    pub retention_days: u64,
}

impl RecordingConfig {
    fn default_dir() -> (s: String)
        ensures
            s@ == "~/.agent-shell/recordings"@,
    {
        string_of("~/.agent-shell/recordings")
    }

    fn default_retention_days() -> (n: u64)
        ensures
            n == 30,
    {
        30
    }
}

impl Default for RecordingConfig {
    fn default() -> (c: Self)
        ensures
            c.dir@ == "~/.agent-shell/recordings"@,
            c.retention_days == 30,
    {
        RecordingConfig {
            dir: Self::default_dir(),
            retention_days: Self::default_retention_days(),
        }
    }
}

#[derive(Debug, Clone)]
pub struct Config {
    pub daemon: DaemonConfig,
    pub session: SessionConfig,
    pub recording: RecordingConfig,
}

impl Default for Config {
    fn default() -> (c: Self)
        ensures
            c.daemon.socket_path@ == Seq::<char>::empty(),
            c.daemon.auto_start,
            c.session.default_buffer_size == 524288,
            c.session.default_program@ == "/bin/bash"@,
            c.session.default_rows == 24,
            c.session.default_cols == 80,
            c.session.default_prompt@ == Seq::<char>::empty(),
            !c.session.record_by_default,
            c.recording.dir@ == "~/.agent-shell/recordings"@,
            c.recording.retention_days == 30,
    {
        Config {
            daemon: DaemonConfig::default(),
            session: SessionConfig::default(),
            recording: RecordingConfig::default(),
        }
    }
}

/// Whether `s` is `~` alone or starts with `~/`: the form whose tilde
/// stands for the home directory.
pub open spec fn home_relative(s: Seq<char>) -> bool {
    s.len() > 0 && s[0] == '~' && (s.len() == 1 || s[1] == '/')
}

/// `shellexpand::tilde`: replaces a leading `~` (alone or before `/`) by the
/// home directory when one is known. Any other text comes back unchanged;
/// for `~` or `~/...` the result is the text unchanged or some directory
/// followed by the text after the tilde (the directory comes from the
/// environment and is not named here).
#[verifier::external_body]
fn expand_tilde(s: &str) -> (r: String)
    ensures
        !home_relative(s@) ==> r@ == s@,
        home_relative(s@) ==> (r@ == s@ || exists|home: Seq<char>| r@ == home + s@.drop_first()),
{
    shellexpand::tilde(s).to_string()
}

impl Config {
    /// The socket path given in the configuration, tilde-expanded; `None`
    /// when it is empty and the default location applies.
    pub fn configured_socket_path(&self) -> (r: Option<String>)
        ensures
            self.daemon.socket_path@.len() == 0 ==> r is None,
            self.daemon.socket_path@.len() > 0 ==> (r matches Some(p) && (!home_relative(
                self.daemon.socket_path@,
            ) ==> p@ == self.daemon.socket_path@) && (home_relative(self.daemon.socket_path@) ==> (
            p@ == self.daemon.socket_path@ || exists|home: Seq<char>|
                p@ == home + self.daemon.socket_path@.drop_first()))),
    {
        if self.daemon.socket_path.as_str().unicode_len() == 0 {
            None
        } else {
            Some(expand_tilde(self.daemon.socket_path.as_str()))
        }
    }

    /// The recording directory given in the configuration, tilde-expanded;
    /// `None` when it is the default one, whose location follows the base
    /// directory instead.
    pub fn configured_recording_dir(&self) -> (r: Option<String>)
        ensures
            self.recording.dir@ == "~/.agent-shell/recordings"@ ==> r is None,
            self.recording.dir@ != "~/.agent-shell/recordings"@ ==> (r matches Some(p) && (
            !home_relative(self.recording.dir@) ==> p@ == self.recording.dir@) && (home_relative(
                self.recording.dir@,
            ) ==> (p@ == self.recording.dir@ || exists|home: Seq<char>|
                p@ == home + self.recording.dir@.drop_first()))),
    {
        if str_eq(self.recording.dir.as_str(), "~/.agent-shell/recordings") {
            None
        } else {
            Some(expand_tilde(self.recording.dir.as_str()))
        }
    }
}

} // verus!
