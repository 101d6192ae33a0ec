//! The decisions a PTY session makes around its process: which argv and
//! settings it starts with, what it writes for text and control keys, how
//! it tracks the foreground process group and the exit status, and which
//! processes its kill signals go to.
use crate::config::SessionConfig;
use crate::ringbuf::MIN_BUFFER_SIZE;
use crate::text::{push_char, str_eq, string_of};
use crate::vte_grid::{is_white, is_whitespace_char, trim_end};
use vstd::prelude::*;
use vstd::string::*;
use vstd::utf8::encode_utf8;

verus! {

/// Default send/wait timeout in milliseconds.
pub const DEFAULT_TIMEOUT_MS: u64 = 30000;

/// The views of a list of strings.
pub open spec fn views(v: Seq<String>) -> Seq<Seq<char>> {
    v.map_values(|s: String| s@)
}

/// The argv a session launches: `args` when given and non-empty, otherwise
/// the single `program`, otherwise the configured default program.
pub open spec fn spec_argv(
    args: Option<Seq<Seq<char>>>,
    program: Option<Seq<char>>,
    default_program: Seq<char>,
) -> Seq<Seq<char>> {
    match args {
        Some(a) if a.len() > 0 => a,
        _ => match program {
            Some(p) => seq![p],
            None => seq![default_program],
        },
    }
}

pub open spec fn opt_views(v: Option<Vec<String>>) -> Option<Seq<Seq<char>>> {
    match v {
        Some(a) => Some(views(a@)),
        None => None,
    }
}

pub open spec fn opt_view(v: Option<String>) -> Option<Seq<char>> {
    match v {
        Some(s) => Some(s@),
        None => None,
    }
}

/// Resolves the argv to spawn. Priority: args > program > default.
pub fn resolve_argv(args: Option<Vec<String>>, program: Option<String>, default_program: &str) -> (argv:
    Vec<String>)
    ensures
        views(argv@) == spec_argv(opt_views(args), opt_view(program), default_program@),
        argv@.len() >= 1,
{
    match args {
        Some(a) if a.len() > 0 => a,
        _ => {
            let exe = match program {
                Some(p) => p,
                None => string_of(default_program),
            };
            let argv = vec![exe];
            assert(views(argv@) =~= seq![argv@[0]@]);
            argv
        },
    }
}

/// The geometry, buffer size and recording choice a session starts with.
#[derive(Debug, Clone, Copy, PartialEq, Eq, Structural)]
pub struct SessionSettings {
    pub rows: u16,
    pub cols: u16,
    pub buffer_size: usize,
    pub record: bool,
}

/// Fills what the request leaves open from the configuration; the buffer
/// is never smaller than `MIN_BUFFER_SIZE`.
pub fn resolve_settings(
    config: &SessionConfig,
    rows: Option<u16>,
    cols: Option<u16>,
    buffer_size: Option<usize>,
    record: Option<bool>,
) -> (s: SessionSettings)
    ensures
        s.rows == (match rows {
            Some(r) => r,
            None => config.default_rows,
        }),
        s.cols == (match cols {
            Some(c) => c,
            None => config.default_cols,
        }),
        s.buffer_size == (match buffer_size {
            Some(b) => if b > MIN_BUFFER_SIZE {
                b
            } else {
                MIN_BUFFER_SIZE
            },
            None => if config.default_buffer_size > MIN_BUFFER_SIZE {
                config.default_buffer_size
            } else {
                MIN_BUFFER_SIZE
            },
        }),
        s.record == (match record {
            Some(r) => r,
            None => config.record_by_default,
        }),
{
    let rows = match rows {
        Some(r) => r,
        None => config.default_rows,
    };
    let cols = match cols {
        Some(c) => c,
        None => config.default_cols,
    };
    let requested = match buffer_size {
        Some(b) => b,
        None => config.default_buffer_size,
    };
    let buffer_size = if requested > MIN_BUFFER_SIZE {
        requested
    } else {
        MIN_BUFFER_SIZE
    };
    let record = match record {
        Some(r) => r,
        None => config.record_by_default,
    };
    SessionSettings { rows, cols, buffer_size, record }
}

/// Whether the child gets `TERM=xterm-256color`: when the caller's
/// environment does not set `TERM` itself.
pub fn needs_default_term(env_keys: &[String]) -> (r: bool)
    ensures
        r == !(exists|i: int| 0 <= i < env_keys@.len() && #[trigger] env_keys@[i]@ == "TERM"@),
{
    let mut i: usize = 0;
    while i < env_keys.len()
        invariant
            0 <= i <= env_keys@.len(),
            forall|k: int| 0 <= k < i ==> #[trigger] env_keys@[k]@ != "TERM"@,
        decreases env_keys@.len() - i,
    {
        if str_eq(env_keys[i].as_str(), "TERM") {
            return false;
        }
        i = i + 1;
    }
    true
}

/// The shell's process group: the probed one, or the child's pid when the
/// probe never saw a group (0).
pub fn shell_pgid_or_child(probed: i32, child_pid: u32) -> (r: i32)
    ensures
        probed != 0 ==> r == probed,
        probed == 0 ==> r == child_pid as i32,
{
    if probed != 0 {
        probed
    } else {
        child_pid as i32
    }
}

pub open spec fn is_lower_hex(c: char) -> bool {
    ('0' <= c && c <= '9') || ('a' <= c && c <= 'f')
}

/// `Uuid::new_v4().to_string()`: a random UUID in its hyphenated form, 36
/// characters whose first eight are lowercase hexadecimal digits.
#[verifier::external_body]
fn new_uuid_string() -> (r: String)
    ensures
        r@.len() == 36,
        forall|i: int| 0 <= i < 8 ==> is_lower_hex(#[trigger] r@[i]),
{
    uuid::Uuid::new_v4().to_string()
}

/// A session id from a UUID string: its first eight characters.
pub fn session_id_from_uuid(uuid: &str) -> (id: String)
    requires
        uuid@.len() >= 8,
    ensures
        id@ == uuid@.subrange(0, 8),
{
    string_of(uuid.substring_char(0, 8))
}

/// A fresh session id: the first eight characters of a random UUID.
pub fn new_session_id() -> (id: String)
    ensures
        id@.len() == 8,
        forall|i: int| 0 <= i < 8 ==> is_lower_hex(#[trigger] id@[i]),
{
    let full = new_uuid_string();
    session_id_from_uuid(full.as_str())
}

/// The file name of a session's recording: `<id>.jsonl`.
pub fn recording_file_name(id: &str) -> (r: String)
    ensures
        r@ == id@ + ".jsonl"@,
{
    let mut s = string_of(id);
    s.append(".jsonl");
    s
}

/// The control key named by `ctrl`, as the byte the terminal sends.
pub open spec fn spec_ctrl_byte(ctrl: Seq<char>) -> Option<u8> {
    if ctrl == "c"@ {
        Some(0x03)
    } else if ctrl == "d"@ {
        Some(0x04)
    } else if ctrl == "z"@ {
        Some(0x1a)
    } else if ctrl == "\\"@ {
        Some(0x1c)
    } else {
        None
    }
}

/// Maps a control-key name to its byte: `c` (ETX, SIGINT), `d` (EOT,
/// EOF), `z` (SUB, SIGTSTP), `\` (FS, SIGQUIT); anything else is refused
/// with `unknown control char: <name>`.
pub fn ctrl_byte(ctrl: &str) -> (r: Result<u8, String>)
    ensures
        r is Ok <==> spec_ctrl_byte(ctrl@) is Some,
        r matches Ok(b) ==> spec_ctrl_byte(ctrl@) == Some(b),
        r matches Err(msg) ==> msg@ == "unknown control char: "@ + ctrl@,
{
    if str_eq(ctrl, "c") {
        Ok(0x03)
    } else if str_eq(ctrl, "d") {
        Ok(0x04)
    } else if str_eq(ctrl, "z") {
        Ok(0x1a)
    } else if str_eq(ctrl, "\\") {
        Ok(0x1c)
    } else {
        let mut msg = String::from_str("unknown control char: ");
        msg.append(ctrl);
        Err(msg)
    }
}

/// What `send` writes for text: its UTF-8 bytes and a newline.
pub fn text_payload(text: &str) -> (r: Vec<u8>)
    ensures
        r@ == encode_utf8(text@).push(0x0a),
{
    let bytes = text.as_bytes();
    let mut out: Vec<u8> = Vec::with_capacity(bytes.len());
    let mut k: usize = 0;
    while k < bytes.len()
        invariant
            0 <= k <= bytes@.len(),
            bytes@ == encode_utf8(text@),
            out@ == bytes@.subrange(0, k as int),
        decreases bytes@.len() - k,
    {
        out.push(bytes[k]);
        k = k + 1;
        assert(out@ =~= bytes@.subrange(0, k as int));
    }
    out.push(0x0a);
    assert(out@ =~= bytes@.push(0x0a));
    out
}

/// Allocates the next send sequence number.
pub fn next_seq(send_seq: &mut u64) -> (r: u64)
    requires
        *old(send_seq) < u64::MAX,
    ensures
        r == *old(send_seq) + 1,
        *final(send_seq) == r,
{
    *send_seq = *send_seq + 1;
    *send_seq
}

/// What a probe of the terminal's foreground process group found.
#[derive(Debug, Clone, Copy, PartialEq, Eq, Structural)]
pub enum FgProbe {
    /// The PTY has no file descriptor to ask.
    NoTerminal,
    /// `tcgetpgrp` failed.
    Failed,
    /// The foreground process group.
    Group(i32),
}

/// The foreground process group as a session tracks it.
#[derive(Debug, Clone, Copy, PartialEq, Eq, Structural)]
pub struct FgTracker {
    pub shell_pgid: i32,
    pub current_fg_pgid: i32,
    pub prev_fg_pgid: i32,
}

impl FgTracker {
    /// A tracker for a shell that is in the foreground.
    pub fn new(shell_pgid: i32) -> (t: Self)
        ensures
            t.shell_pgid == shell_pgid,
            t.current_fg_pgid == shell_pgid,
            t.prev_fg_pgid == shell_pgid,
    {
        FgTracker { shell_pgid, current_fg_pgid: shell_pgid, prev_fg_pgid: shell_pgid }
    }

    /// Takes in a probe: without a terminal nothing changes; otherwise the
    /// current group becomes the previous one and the probed group (the
    /// current one again when the probe failed) the current one. Returns
    /// the current group.
    pub fn observe(&mut self, probe: FgProbe) -> (r: i32)
        ensures
            final(self).shell_pgid == old(self).shell_pgid,
            r == final(self).current_fg_pgid,
            match probe {
                FgProbe::NoTerminal => *final(self) == *old(self),
                FgProbe::Failed => final(self).prev_fg_pgid == old(self).current_fg_pgid
                    && final(self).current_fg_pgid == old(self).current_fg_pgid,
                FgProbe::Group(g) => final(self).prev_fg_pgid == old(self).current_fg_pgid
                    && final(self).current_fg_pgid == g,
            },
    {
        match probe {
            FgProbe::NoTerminal => self.current_fg_pgid,
            FgProbe::Failed => {
                self.prev_fg_pgid = self.current_fg_pgid;
                self.current_fg_pgid
            },
            FgProbe::Group(g) => {
                self.prev_fg_pgid = self.current_fg_pgid;
                self.current_fg_pgid = g;
                g
            },
        }
    }

    /// Whether the shell holds the foreground.
    pub fn fg_at_shell(&self) -> (r: bool)
        ensures
            r == (self.current_fg_pgid == self.shell_pgid),
    {
        self.current_fg_pgid == self.shell_pgid
    }

    /// Whether the foreground has just come back to the shell from another
    /// group.
    pub fn fg_returned_to_shell(&self) -> (r: bool)
        ensures
            r == (self.current_fg_pgid == self.shell_pgid && self.prev_fg_pgid != self.shell_pgid),
    {
        self.current_fg_pgid == self.shell_pgid && self.prev_fg_pgid != self.shell_pgid
    }
}

/// A probe that finds the shell's group again, after another group held
/// the foreground, is seen as the foreground returning to the shell; a
/// probe that finds the shell's group while the shell already held it is
/// not.
pub proof fn lemma_return_to_shell(before: FgTracker, after: FgTracker, g: i32)
    requires
        after.shell_pgid == before.shell_pgid,
        after.prev_fg_pgid == before.current_fg_pgid,
        after.current_fg_pgid == g,
        g == before.shell_pgid,
    ensures
        (after.current_fg_pgid == after.shell_pgid && after.prev_fg_pgid != after.shell_pgid)
            <==> before.current_fg_pgid != before.shell_pgid,
{
}

/// What a non-blocking wait on the child found.
#[derive(Debug, Clone, Copy, PartialEq, Eq, Structural)]
pub enum ExitProbe {
    /// Still running.
    Running,
    /// Exited: whether it succeeded, and its exit code.
    Exited { success: bool, code: u32 },
    /// The wait failed (the child was already reaped).
    Failed,
}

/// The exit code a probe settles, and whether the recording is closed
/// with it: 0 for success, the exit code otherwise (closing the
/// recording); 1 when the wait failed (the recording stays); nothing while
/// the child runs.
pub fn exit_outcome(probe: ExitProbe) -> (r: Option<(i32, bool)>)
    ensures
        match probe {
            ExitProbe::Running => r is None,
            ExitProbe::Exited { success, code } => r == Some(
                (
                    if success {
                        0i32
                    } else {
                        code as i32
                    },
                    true,
                ),
            ),
            ExitProbe::Failed => r == Some((1i32, false)),
        },
{
    match probe {
        ExitProbe::Running => None,
        ExitProbe::Exited { success, code } => {
            let c: i32 = if success {
                0
            } else {
                code as i32
            };
            Some((c, true))
        },
        ExitProbe::Failed => Some((1, false)),
    }
}

/// The process group a kill signal goes to: the shell's group, named by
/// its negated id; none for an id that is not positive (kill(0) would
/// reach the caller's own group).
pub fn group_target(shell_pgid: i32) -> (r: Option<i32>)
    ensures
        shell_pgid > 0 ==> r == Some((-shell_pgid) as i32),
        shell_pgid <= 0 ==> r is None,
{
    if shell_pgid > 0 {
        Some(-shell_pgid)
    } else {
        None
    }
}

// ---- Reading process ids out of text. ----

pub open spec fn trim_start(s: Seq<char>) -> Seq<char>
    decreases s.len(),
{
    if s.len() > 0 && is_white(s[0]) {
        trim_start(s.drop_first())
    } else {
        s
    }
}

/// `str::trim`: without leading and trailing whitespace.
pub open spec fn trim(s: Seq<char>) -> Seq<char> {
    trim_end(trim_start(s))
}

pub open spec fn is_digit_char(c: char) -> bool {
    '0' <= c && c <= '9'
}

/// The value of a string of decimal digit characters.
pub open spec fn char_digits_value(s: Seq<char>) -> nat
    decreases s.len(),
{
    if s.len() == 0 {
        0
    } else {
        char_digits_value(s.drop_last()) * 10 + (s.last() as u32 - 48) as nat
    }
}

pub open spec fn all_digit_chars(s: Seq<char>) -> bool {
    forall|i: int| 0 <= i < s.len() ==> is_digit_char(#[trigger] s[i])
}

/// The value of a run of digits under a sign, when it is one or more
/// digits and fits in an `i32`.
pub open spec fn signed_value(negative: bool, digits: Seq<char>) -> Option<i32> {
    if digits.len() == 0 || !all_digit_chars(digits) {
        None
    } else if negative {
        if char_digits_value(digits) > 0x8000_0000 {
            None
        } else {
            Some((-char_digits_value(digits)) as i32)
        }
    } else {
        if char_digits_value(digits) > 0x7fff_ffff {
            None
        } else {
            Some(char_digits_value(digits) as i32)
        }
    }
}

/// What `str::parse::<i32>` gives: an optional sign (not on its own)
/// followed by one or more decimal digits whose value is in range.
pub open spec fn spec_parse_i32(s: Seq<char>) -> Option<i32> {
    signed_value(
        s.len() > 1 && s[0] == '-',
        if s.len() > 1 && (s[0] == '+' || s[0] == '-') {
            s.drop_first()
        } else {
            s
        },
    )
}

proof fn lemma_char_digits_prefix(s: Seq<char>, k: int)
    requires
        0 <= k <= s.len(),
        forall|i: int| 0 <= i < s.len() ==> is_digit_char(#[trigger] s[i]),
    ensures
        char_digits_value(s) >= char_digits_value(s.subrange(0, k)),
    decreases s.len(),
{
    if k < s.len() {
        assert(s.drop_last().subrange(0, k) =~= s.subrange(0, k));
        lemma_char_digits_prefix(s.drop_last(), k);
    } else {
        assert(s.subrange(0, k) =~= s);
    }
}

/// The digits part of `s` as `str::parse::<i32>` sees it.
pub open spec fn digits_part(s: Seq<char>) -> Seq<char> {
    if s.len() > 1 && (s[0] == '+' || s[0] == '-') {
        s.drop_first()
    } else {
        s
    }
}

proof fn lemma_nondigit_none(s: Seq<char>, idx: int)
    requires
        0 <= idx < digits_part(s).len(),
        !is_digit_char(digits_part(s)[idx]),
    ensures
        spec_parse_i32(s) is None,
{
    assert(!all_digit_chars(digits_part(s)));
}

proof fn lemma_overflow_none(s: Seq<char>, k: int)
    requires
        0 <= k <= digits_part(s).len(),
        forall|i: int| 0 <= i < k ==> is_digit_char(#[trigger] digits_part(s)[i]),
        char_digits_value(digits_part(s).subrange(0, k)) > (if s.len() > 1 && s[0] == '-' {
            0x8000_0000int
        } else {
            0x7fff_ffffint
        }),
    ensures
        spec_parse_i32(s) is None,
{
    let d = digits_part(s);
    if all_digit_chars(d) {
        lemma_char_digits_prefix(d, k);
    }
}

/// Parses `s` as `str::parse::<i32>` would.
pub fn parse_i32(s: &str) -> (r: Option<i32>)
    ensures
        r == spec_parse_i32(s@),
{
    let n = s.unicode_len();
    if n == 0 {
        return None;
    }
    let first = s.get_char(0);
    let negative = n > 1 && first == '-';
    let start: usize = if n > 1 && (first == '+' || first == '-') {
        1
    } else {
        0
    };
    let ghost digits = digits_part(s@);
    assert(digits =~= s@.subrange(start as int, n as int));
    let limit: u64 = if negative {
        0x8000_0000
    } else {
        0x7fff_ffff
    };
    let mut acc: u64 = 0;
    let mut k: usize = start;
    while k < n
        invariant
            start <= k <= n,
            n == s@.len(),
            digits == digits_part(s@),
            digits == s@.subrange(start as int, n as int),
            forall|i: int| 0 <= i < k - start ==> is_digit_char(#[trigger] digits[i]),
            acc as nat == char_digits_value(digits.subrange(0, k - start)),
            acc <= limit,
            negative == (s@.len() > 1 && s@[0] == '-'),
            limit == (if negative {
                0x8000_0000u64
            } else {
                0x7fff_ffffu64
            }),
        decreases n - k,
    {
        let c = s.get_char(k);
        assert(digits[k - start] == c);
        if !('0' <= c && c <= '9') {
            proof {
                lemma_nondigit_none(s@, k - start);
            }
            return None;
        }
        let ghost prev = digits.subrange(0, k - start);
        acc = acc * 10 + (c as u32 - 48) as u64;
        k = k + 1;
        assert(digits.subrange(0, k - start).drop_last() =~= prev);
        if acc > limit {
            proof {
                lemma_overflow_none(s@, k - start);
            }
            return None;
        }
    }
    assert(digits.subrange(0, k - start) =~= digits);
    if start == n {
        return None;
    }
    assert(all_digit_chars(digits));
    if negative {
        Some((0 - acc as i64) as i32)
    } else {
        Some(acc as i32)
    }
}

/// The bounds of `s` without its leading and trailing whitespace.
fn trimmed(s: &str) -> (r: &str)
    ensures
        r@ == trim(s@),
{
    let n = s.unicode_len();
    let mut a: usize = 0;
    assert(s@.subrange(0, n as int) =~= s@);
    while a < n && is_whitespace_char(s.get_char(a))
        invariant
            0 <= a <= n,
            n == s@.len(),
            trim_start(s@) == trim_start(s@.subrange(a as int, n as int)),
        decreases n - a,
    {
        assert(s@.subrange(a as int, n as int).drop_first() =~= s@.subrange(a + 1, n as int));
        a = a + 1;
    }
    assert(trim_start(s@.subrange(a as int, n as int)) == s@.subrange(a as int, n as int));
    let mut e: usize = n;
    while e > a && is_whitespace_char(s.get_char(e - 1))
        invariant
            a <= e <= n,
            n == s@.len(),
            trim(s@) == trim_end(s@.subrange(a as int, e as int)),
        decreases e - a,
    {
        assert(s@.subrange(a as int, e as int).drop_last() =~= s@.subrange(a as int, e - 1));
        e = e - 1;
    }
    s.substring_char(a, e)
}

/// Reads a process id file: the text without surrounding whitespace,
/// parsed as an `i32`.
pub fn parse_pid(text: &str) -> (r: Option<i32>)
    ensures
        r == spec_parse_i32(trim(text@)),
{
    parse_i32(trimmed(text))
}

/// The pieces of `s` between newlines, in order.
pub open spec fn segments(s: Seq<char>) -> Seq<Seq<char>>
    decreases s.len(),
{
    if s.len() == 0 {
        seq![Seq::empty()]
    } else if s.last() == '\n' {
        segments(s.drop_last()).push(Seq::empty())
    } else {
        let prev = segments(s.drop_last());
        prev.update(prev.len() - 1, prev.last().push(s.last()))
    }
}

proof fn lemma_segments_nonempty(s: Seq<char>)
    ensures
        segments(s).len() >= 1,
    decreases s.len(),
{
    if s.len() > 0 {
        lemma_segments_nonempty(s.drop_last());
    }
}

/// The positive ids among the lines of `text` (each trimmed and parsed as
/// an `i32`; lines that do not parse are skipped), in order.
pub open spec fn pids_of(lines: Seq<Seq<char>>) -> Seq<i32>
    decreases lines.len(),
{
    if lines.len() == 0 {
        Seq::empty()
    } else {
        let rest = pids_of(lines.drop_last());
        match spec_parse_i32(trim(lines.last())) {
            Some(p) if p > 0 => rest.push(p),
            _ => rest,
        }
    }
}

/// The child process ids that `pgrep -P` printed, one per line.
pub fn child_pids(text: &str) -> (r: Vec<i32>)
    ensures
        r@ == pids_of(segments(text@)),
{
    let n = text.unicode_len();
    let mut out: Vec<i32> = Vec::new();
    let mut start: usize = 0;
    let mut k: usize = 0;
    proof {
        assert(text@.subrange(0, 0) =~= Seq::<char>::empty());
    }
    while k < n
        invariant
            0 <= start <= k <= n,
            n == text@.len(),
            segments(text@.subrange(0, k as int)).len() >= 1,
            segments(text@.subrange(0, k as int)).last() == text@.subrange(start as int, k as int),
            out@ == pids_of(segments(text@.subrange(0, k as int)).drop_last()),
        decreases n - k,
    {
        let ghost segs = segments(text@.subrange(0, k as int));
        let c = text.get_char(k);
        assert(text@.subrange(0, k + 1).drop_last() =~= text@.subrange(0, k as int));
        if c == '\n' {
            let piece = trimmed(text.substring_char(start, k));
            match parse_i32(piece) {
                Some(p) => {
                    if p > 0 {
                        out.push(p);
                    }
                },
                None => {},
            }
            k = k + 1;
            start = k;
            proof {
                let next = segments(text@.subrange(0, k as int));
                assert(next == segs.push(Seq::empty()));
                assert(next.drop_last() =~= segs);
                assert(segs =~= segs.drop_last().push(segs.last()));
                assert(text@.subrange(start as int, k as int) =~= Seq::<char>::empty());
            }
        } else {
            k = k + 1;
            proof {
                let next = segments(text@.subrange(0, k as int));
                assert(next == segs.update(segs.len() - 1, segs.last().push(c)));
                assert(next.drop_last() =~= segs.drop_last());
                assert(text@.subrange(start as int, k as int) =~= text@.subrange(
                    start as int,
                    k - 1,
                ).push(c));
            }
        }
    }
    let piece = trimmed(text.substring_char(start, n));
    let ghost segs = segments(text@.subrange(0, n as int));
    assert(text@.subrange(0, n as int) =~= text@);
    assert(segs =~= segs.drop_last().push(segs.last()));
    match parse_i32(piece) {
        Some(p) => {
            if p > 0 {
                out.push(p);
            }
        },
        None => {},
    }
    out
}

} // verus!
