//! The daemon's decisions on each request: when a request is refused, what
//! a `send` writes and when it is done, when a `wait` ends, what each
//! answer holds, and what an attached client is sent.
use crate::attach::{output_view, spec_initial_output, spec_strip_dsr};
use crate::encoding::{base64_encoded, encode_base64};
use crate::pattern::{regex_match, utf8_lossy, lossy_text, Pattern};
use crate::protocol::{bare_view, Response, ResponseView};
use crate::ringbuf::{spec_read, RingBuffer, RingView};
use crate::session::{ctrl_byte, spec_ctrl_byte, text_payload};
use crate::text::string_of;
use vstd::prelude::*;
use vstd::string::*;
use vstd::utf8::encode_utf8;

verus! {

/// A read's gap bookkeeping added to a response: `gap` and `lost_bytes`
/// when bytes were skipped, nothing otherwise.
pub open spec fn with_gap(v: ResponseView, gap: bool, lost: nat) -> ResponseView {
    if gap {
        ResponseView { gap: Some(true), lost_bytes: Some(lost as u64), ..v }
    } else {
        v
    }
}

/// The exit status added to a response, when the process has exited.
pub open spec fn with_exit(v: ResponseView, exit_code: Option<i32>) -> ResponseView {
    match exit_code {
        Some(code) => ResponseView { exited: Some(true), exit_code: Some(code), ..v },
        None => v,
    }
}

/// The text of what a read from `from` gives.
pub open spec fn read_text(v: RingView, from: u64) -> Seq<char> {
    utf8_lossy(spec_read(v, from as nat).0)
}

fn set_gap(resp: &mut Response, gap: bool, lost: u64)
    ensures
        final(resp)@ == with_gap(old(resp)@, gap, lost as nat),
{
    if gap {
        resp.gap = Some(true);
        resp.lost_bytes = Some(lost);
    }
}

fn set_exit(resp: &mut Response, exit_code: Option<i32>)
    ensures
        final(resp)@ == with_exit(old(resp)@, exit_code),
{
    if let Some(code) = exit_code {
        resp.exited = Some(true);
        resp.exit_code = Some(code);
    }
}

/// A response with the given status and no other field.
fn bare(ok: bool) -> (r: Response)
    ensures
        r@ == bare_view(ok),
{
    let mut r = Response::ok();
    r.ok = ok;
    r
}

/// A failed response carrying `error`.
fn failure(error: &str) -> (r: Response)
    ensures
        r@ == (ResponseView { error: Some(error@), ..bare_view(false) }),
{
    let mut r = bare(false);
    r.error = Some(string_of(error));
    r
}

/// Why a send is refused before anything is written: the session is
/// being destroyed, or its process has exited (the answer then carries the
/// exit code).
pub fn send_refusal(destroying: bool, exited: Option<i32>) -> (r: Option<Response>)
    ensures
        destroying ==> (r matches Some(resp) && resp@ == (ResponseView {
            error: Some("session is being destroyed"@),
            ..bare_view(false)
        })),
        !destroying && exited is Some ==> (r matches Some(resp) && resp@ == (ResponseView {
            error: Some("session exited"@),
            exit_code: exited,
            ..bare_view(false)
        })),
        !destroying && exited is None ==> r is None,
{
    if destroying {
        return Some(failure("session is being destroyed"));
    }
    match exited {
        Some(code) => {
            let mut r = failure("session exited");
            r.exit_code = Some(code);
            Some(r)
        },
        None => None,
    }
}

/// What a send writes to the PTY: a control key's byte, or the text and a
/// newline; nothing when both are absent. Both at once, or an unknown
/// control key, is refused with the message given back.
pub fn send_payload(text: &str, ctrl: Option<&str>) -> (r: Result<Option<Vec<u8>>, String>)
    ensures
        match ctrl {
            Some(c) => if text@.len() > 0 {
                r matches Err(msg) && msg@ == "cannot specify both --ctrl and text"@
            } else {
                match spec_ctrl_byte(c@) {
                    Some(b) => r matches Ok(Some(v)) && v@ == seq![b],
                    None => r matches Err(msg) && msg@ == "unknown control char: "@ + c@,
                }
            },
            None => if text@.len() > 0 {
                r matches Ok(Some(v)) && v@ == encode_utf8(text@).push(0x0a)
            } else {
                r matches Ok(None)
            },
        },
{
    match ctrl {
        Some(c) => {
            if text.unicode_len() > 0 {
                return Err(String::from_str("cannot specify both --ctrl and text"));
            }
            match ctrl_byte(c) {
                Ok(b) => {
                    let v = vec![b];
                    assert(v@ =~= seq![b]);
                    Ok(Some(v))
                },
                Err(e) => Err(e),
            }
        },
        None => {
            if text.unicode_len() > 0 {
                Ok(Some(text_payload(text)))
            } else {
                Ok(None)
            }
        },
    }
}

/// The answer to a send with nothing to write: done at once, no output.
pub fn empty_send_response(seq: u64) -> (r: Response)
    ensures
        r@ == (ResponseView {
            seq: Some(seq),
            output: Some(Seq::empty()),
            elapsed_ms: Some(0),
            ..bare_view(true)
        }),
{
    let mut r = bare(true);
    r.seq = Some(seq);
    r.output = Some(String::new());
    r.elapsed_ms = Some(0);
    r
}

/// What the output read from `from` gives: the text, and the gap
/// bookkeeping when bytes were lost.
pub fn read_response(rb: &RingBuffer, from: u64) -> (r: Response)
    requires
        rb.wf(),
    ensures
        r@ == with_gap(
            ResponseView { output: Some(read_text(rb.view(), from)), ..bare_view(true) },
            spec_read(rb.view(), from as nat).1,
            spec_read(rb.view(), from as nat).2,
        ),
{
    let (bytes, gap, lost) = rb.read(from);
    let mut r = bare(true);
    r.output = Some(lossy_text(bytes.as_slice()));
    set_gap(&mut r, gap, lost);
    r
}

/// The answer to a send that is done: what was written since the send
/// started, with the exit status when the process has exited.
pub fn send_done_response(
    rb: &RingBuffer,
    start_cursor: u64,
    seq: u64,
    elapsed_ms: u64,
    exit_code: Option<i32>,
) -> (r: Response)
    requires
        rb.wf(),
    ensures
        r@ == with_exit(
            with_gap(
                ResponseView {
                    seq: Some(seq),
                    output: Some(read_text(rb.view(), start_cursor)),
                    elapsed_ms: Some(elapsed_ms),
                    ..bare_view(true)
                },
                spec_read(rb.view(), start_cursor as nat).1,
                spec_read(rb.view(), start_cursor as nat).2,
            ),
            exit_code,
        ),
{
    let (bytes, gap, lost) = rb.read(start_cursor);
    let mut r = bare(true);
    r.seq = Some(seq);
    r.output = Some(lossy_text(bytes.as_slice()));
    r.elapsed_ms = Some(elapsed_ms);
    set_gap(&mut r, gap, lost);
    set_exit(&mut r, exit_code);
    r
}

/// The answer to a send that timed out: a failure carrying what was
/// written since the send started.
pub fn send_timeout_response(rb: &RingBuffer, start_cursor: u64, seq: u64, elapsed_ms: u64) -> (r:
    Response)
    requires
        rb.wf(),
    ensures
        r@ == with_gap(
            ResponseView {
                seq: Some(seq),
                error: Some("timeout"@),
                output: Some(read_text(rb.view(), start_cursor)),
                elapsed_ms: Some(elapsed_ms),
                ..bare_view(false)
            },
            spec_read(rb.view(), start_cursor as nat).1,
            spec_read(rb.view(), start_cursor as nat).2,
        ),
{
    let (bytes, gap, lost) = rb.read(start_cursor);
    let mut r = failure("timeout");
    r.seq = Some(seq);
    r.output = Some(lossy_text(bytes.as_slice()));
    r.elapsed_ms = Some(elapsed_ms);
    set_gap(&mut r, gap, lost);
    r
}

/// The answer to a send whose output overran the buffer while it waited.
pub fn send_overflow_response(seq: u64, lost: u64, elapsed_ms: u64) -> (r: Response)
    ensures
        r@ == (ResponseView {
            seq: Some(seq),
            error: Some("buffer_overflow"@),
            lost_bytes: Some(lost),
            elapsed_ms: Some(elapsed_ms),
            ..bare_view(false)
        }),
{
    let mut r = failure("buffer_overflow");
    r.seq = Some(seq);
    r.lost_bytes = Some(lost);
    r.elapsed_ms = Some(elapsed_ms);
    r
}

/// Whether the session's prompt regex matches the output written since
/// `start_cursor` (never without a prompt regex or new output).
pub fn prompt_seen(rb: &RingBuffer, start_cursor: u64, prompt: Option<&Pattern>) -> (r: bool)
    requires
        rb.wf(),
    ensures
        r == match prompt {
            Some(p) => rb.view().written.len() > start_cursor && regex_match(
                p@,
                read_text(rb.view(), start_cursor),
            ),
            None => false,
        },
{
    match prompt {
        Some(p) => {
            if rb.write_cursor() > start_cursor {
                let (bytes, _, _) = rb.read(start_cursor);
                p.matches_output(bytes.as_slice())
            } else {
                false
            }
        },
        None => false,
    }
}

/// Output counts as settled this long after the last new byte.
pub const STABLE_MS: u64 = 150;

/// A command counts as done this long after the send, once the shell is in
/// the foreground again and something was written.
pub const FAST_DONE_MS: u64 = 200;

/// What one look at a waiting send concludes.
#[derive(Debug, Clone, Copy, PartialEq, Eq, Structural)]
pub enum SendVerdict {
    /// The output overran the buffer: this many bytes were lost.
    Overflow(u64),
    /// The command is done.
    Ready,
    /// Keep waiting.
    Pending,
}

/// What a send that waits for its command remembers between looks: where
/// its output starts, the write cursor last seen, and since when (in
/// milliseconds after the send) the output has not changed while the
/// shell held the foreground.
pub struct SendTracker {
    pub start_cursor: u64,
    pub last_wc: u64,
    pub stable_since: Option<u64>,
}

impl SendTracker {
    pub fn new(start_cursor: u64) -> (t: Self)
        ensures
            t.start_cursor == start_cursor,
            t.last_wc == start_cursor,
            t.stable_since is None,
    {
        SendTracker { start_cursor, last_wc: start_cursor, stable_since: None }
    }

    /// Whether the send's deadline has passed.
    pub fn timed_out(elapsed_ms: u64, timeout_ms: u64) -> (r: bool)
        ensures
            r == (elapsed_ms >= timeout_ms),
    {
        elapsed_ms >= timeout_ms
    }

    /// One look, `now_ms` after the send started: an overflow ends the wait
    /// at once; otherwise new output restarts the settling clock, and a
    /// look with the shell in the foreground and nothing new starts it if
    /// it is not running. The command is done when the prompt regex
    /// matched, the process exited, or the shell is in the foreground with
    /// new output that has settled or after `FAST_DONE_MS`.
    pub fn observe(
        &mut self,
        now_ms: u64,
        wc: u64,
        fg_at_shell: bool,
        prompt_matched: bool,
        exited: bool,
        overflow: (bool, u64),
    ) -> (v: SendVerdict)
        ensures
            final(self).start_cursor == old(self).start_cursor,
            overflow.0 ==> v == SendVerdict::Overflow(overflow.1) && *final(self) == *old(self),
            !overflow.0 ==> {
                &&& wc != old(self).last_wc ==> final(self).last_wc == wc
                    && final(self).stable_since is None
                &&& wc == old(self).last_wc && fg_at_shell ==> final(self).last_wc == wc
                    && final(self).stable_since == (match old(self).stable_since {
                    Some(t) => Some(t),
                    None => Some(now_ms),
                })
                &&& wc == old(self).last_wc && !fg_at_shell ==> *final(self) == *old(self)
                &&& (v == SendVerdict::Ready) == (prompt_matched || exited || (fg_at_shell && wc
                    > old(self).start_cursor && ((final(self).stable_since matches Some(t) && now_ms
                    >= t + STABLE_MS) || now_ms >= FAST_DONE_MS)))
                &&& v != SendVerdict::Ready ==> v == SendVerdict::Pending
            },
    {
        if overflow.0 {
            return SendVerdict::Overflow(overflow.1);
        }
        if wc != self.last_wc {
            self.stable_since = None;
            self.last_wc = wc;
        } else if fg_at_shell {
            if self.stable_since.is_none() {
                self.stable_since = Some(now_ms);
            }
        }
        let has_new_output = wc > self.start_cursor;
        let output_stable = match self.stable_since {
            Some(t) => now_ms >= t && now_ms - t >= STABLE_MS,
            None => false,
        };
        if prompt_matched || exited || (fg_at_shell && has_new_output && output_stable) || (
        fg_at_shell && has_new_output && now_ms >= FAST_DONE_MS) {
            SendVerdict::Ready
        } else {
            SendVerdict::Pending
        }
    }
}

/// The answer to a wait that ran out of time.
pub fn wait_timeout_response(elapsed_ms: u64) -> (r: Response)
    ensures
        r@ == (ResponseView {
            error: Some("timeout"@),
            elapsed_ms: Some(elapsed_ms),
            ..bare_view(false)
        }),
{
    let mut r = failure("timeout");
    r.elapsed_ms = Some(elapsed_ms);
    r
}

/// One look of a wait at the output since the client's cursor: when new
/// output matches the pattern, success with that text (and the exit
/// status if the process has exited); otherwise, when the process has
/// exited, a failure with the exit code and the text; otherwise nothing
/// yet. Whenever an answer comes back the client's cursor moves to the
/// write cursor.
pub fn wait_step(
    rb: &RingBuffer,
    cursor: u64,
    pattern: &Pattern,
    exit_code: Option<i32>,
    elapsed_ms: u64,
) -> (r: Option<Response>)
    requires
        rb.wf(),
    ensures
        ({
            let matched = rb.view().written.len() > cursor && regex_match(
                pattern@,
                read_text(rb.view(), cursor),
            );
            &&& matched ==> (r matches Some(resp) && resp@ == with_exit(
                ResponseView {
                    output: Some(read_text(rb.view(), cursor)),
                    elapsed_ms: Some(elapsed_ms),
                    ..bare_view(true)
                },
                exit_code,
            ))
            &&& !matched && exit_code is Some ==> (r matches Some(resp) && resp@ == (ResponseView {
                error: Some("session exited"@),
                exit_code: exit_code,
                output: Some(read_text(rb.view(), cursor)),
                elapsed_ms: Some(elapsed_ms),
                ..bare_view(false)
            }))
            &&& !matched && exit_code is None ==> r is None
        }),
{
    if rb.write_cursor() > cursor {
        let (bytes, _, _) = rb.read(cursor);
        let text = lossy_text(bytes.as_slice());
        if pattern.is_match(text.as_str()) {
            let mut r = bare(true);
            r.output = Some(text);
            r.elapsed_ms = Some(elapsed_ms);
            set_exit(&mut r, exit_code);
            return Some(r);
        }
    }
    match exit_code {
        Some(code) => {
            let (bytes, _, _) = rb.read(cursor);
            let mut r = failure("session exited");
            r.exit_code = Some(code);
            r.output = Some(lossy_text(bytes.as_slice()));
            r.elapsed_ms = Some(elapsed_ms);
            Some(r)
        },
        None => None,
    }
}

/// The answer that names a session: success with its id.
pub fn session_response(session_id: &str) -> (r: Response)
    ensures
        r@ == (ResponseView { session_id: Some(session_id@), ..bare_view(true) }),
{
    let mut r = bare(true);
    r.session_id = Some(string_of(session_id));
    r
}

/// The answer to a create: the new session's id, no prompt detected yet,
/// and the recording's path when it records.
pub fn create_response(session_id: &str, recording: Option<String>) -> (r: Response)
    ensures
        r@ == (ResponseView {
            session_id: Some(session_id@),
            prompt_detected: Some(None),
            recording: match recording {
                Some(p) => Some(p@),
                None => None,
            },
            ..bare_view(true)
        }),
{
    let mut r = bare(true);
    r.session_id = Some(string_of(session_id));
    r.prompt_detected = Some(None);
    r.recording = recording;
    r
}

/// The answer to a screen read: the visible lines and the cursor.
pub fn screen_response(lines: Vec<String>, cursor: (usize, usize)) -> (r: Response)
    ensures
        r@ == (ResponseView {
            screen: Some(lines@.map_values(|t: String| t@)),
            cursor: Some(cursor),
            ..bare_view(true)
        }),
{
    let mut r = bare(true);
    r.screen = Some(lines);
    r.cursor = Some(cursor);
    r
}

/// The answer to an output read: the text since the reader's cursor, the
/// gap bookkeeping, and the exit status once the process has exited.
pub fn output_read_response(rb: &RingBuffer, from: u64, exit_code: Option<i32>) -> (r: Response)
    requires
        rb.wf(),
    ensures
        r@ == with_exit(
            with_gap(
                ResponseView { output: Some(read_text(rb.view(), from)), ..bare_view(true) },
                spec_read(rb.view(), from as nat).1,
                spec_read(rb.view(), from as nat).2,
            ),
            exit_code,
        ),
{
    let mut r = read_response(rb, from);
    set_exit(&mut r, exit_code);
    r
}

/// The handshake an attaching client receives: success, with the
/// terminal's redraw in base64 as its output; what the client writes from
/// it is the redraw with its DSR queries removed.
pub fn handshake_response(redraw: &[u8]) -> (r: Response)
    ensures
        r@ == (ResponseView { output: Some(base64_encoded(redraw@)), ..bare_view(true) }),
        r.output matches Some(t) && crate::encoding::base64_decoded(t@) == Some(redraw@),
        spec_initial_output(output_view(r)) == spec_strip_dsr(redraw@),
{
    let mut r = bare(true);
    r.output = Some(encode_base64(redraw));
    r
}

/// Whether `data` holds `byte`.
pub fn contains_byte(data: &[u8], byte: u8) -> (r: bool)
    ensures
        r == data@.contains(byte),
{
    let mut i: usize = 0;
    while i < data.len()
        invariant
            0 <= i <= data@.len(),
            forall|k: int| 0 <= k < i ==> data@[k] != byte,
        decreases data@.len() - i,
    {
        if data[i] == byte {
            assert(data@[i as int] == byte);
            return true;
        }
        i = i + 1;
    }
    false
}

/// Whether a read-only attach ends on this input: Ctrl-C or Ctrl-D.
pub fn readonly_exit_key(data: &[u8]) -> (r: bool)
    ensures
        r == (data@.contains(0x03u8) || data@.contains(0x04u8)),
{
    contains_byte(data, 0x03) || contains_byte(data, 0x04)
}

/// Whether a writable attach detaches on this input, on the daemon's side:
/// Ctrl-C, which is then not forwarded.
pub fn writable_detach_key(data: &[u8]) -> (r: bool)
    ensures
        r == data@.contains(0x03u8),
{
    contains_byte(data, 0x03)
}

/// What the daemon does with a chunk of input from an attached client.
#[derive(Clone, Copy, Debug, PartialEq, Eq, Structural)]
pub enum AttachInput {
    /// Write the chunk to the session's terminal.
    Forward,
    /// End the attach; the chunk is not written.
    End,
    /// Drop the chunk and go on.
    Ignore,
}

/// The daemon's answer to a chunk of attach input: a read-only attach ends
/// on Ctrl-C or Ctrl-D and drops everything else; a writable one ends on
/// Ctrl-C, without forwarding it, and forwards everything else.
pub fn attach_input(readonly: bool, chunk: &[u8]) -> (r: AttachInput)
    ensures
        (r == AttachInput::Forward) == (!readonly && !chunk@.contains(0x03u8)),
        (r == AttachInput::End) == (chunk@.contains(0x03u8) || (readonly && chunk@.contains(
            0x04u8,
        ))),
        (r == AttachInput::Ignore) == (readonly && !chunk@.contains(0x03u8) && !chunk@.contains(
            0x04u8,
        )),
{
    if readonly {
        if readonly_exit_key(chunk) {
            AttachInput::End
        } else {
            AttachInput::Ignore
        }
    } else if writable_detach_key(chunk) {
        AttachInput::End
    } else {
        AttachInput::Forward
    }
}

/// What an attach loop forwards from the buffer: the bytes since its
/// cursor when there are new ones, and its cursor moved to the write
/// cursor; nothing, and the cursor unchanged, otherwise.
pub fn attach_drain(rb: &RingBuffer, cursor: u64) -> (r: (Vec<u8>, u64))
    requires
        rb.wf(),
    ensures
        rb.view().written.len() > cursor ==> r.0@ == spec_read(rb.view(), cursor as nat).0
            && r.1 == rb.view().written.len(),
        rb.view().written.len() <= cursor ==> r.0@.len() == 0 && r.1 == cursor,
{
    let wc = rb.write_cursor();
    if wc > cursor {
        let (data, _, _) = rb.read(cursor);
        (data, wc)
    } else {
        (Vec::new(), cursor)
    }
}

/// A client's read cursor is dropped after this many seconds without use.
pub const CLIENT_IDLE_LIMIT_SECS: u64 = 600;

/// Whether a client idle for `idle_secs` seconds is dropped.
pub fn client_expired(idle_secs: u64) -> (r: bool)
    ensures
        r == (idle_secs >= CLIENT_IDLE_LIMIT_SECS),
{
    idle_secs >= CLIENT_IDLE_LIMIT_SECS
}

} // verus!
