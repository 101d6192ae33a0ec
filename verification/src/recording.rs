//! Recording records: the metadata header and the events of an NDJSON
//! recording, and the payload of a resize event.
use crate::encoding::{base64_decoded, base64_encoded, encode_base64};
use crate::text::{decimal, push_decimal, string_of};
use vstd::prelude::*;

verus! {

/// Metadata header written as the first line of a recording file.
/// Identifies the terminal geometry and program at session creation time.
/// The `dir` field is always `"meta"` — replay uses this to distinguish
/// header lines from data events.
#[derive(Debug, Clone)]
pub struct RecordingHeader {
    /// Always "meta".
    pub dir: String,
    /// Unix timestamp in milliseconds at session creation.
    pub ts: u64,
    /// Terminal rows at session creation.
    pub rows: u16,
    /// Terminal columns at session creation.
    pub cols: u16,
    /// argv[0] of the launched program.
    pub program: String,
}

/// A single recording event.
#[derive(Debug, Clone)]
pub struct RecordingEvent {
    /// Unix timestamp in milliseconds
    pub ts: u64,
    /// Direction: "in" (written to PTY), "out" (PTY output) or "resize"
    pub dir: String,
    /// Base64-encoded raw bytes
    pub data: String,
}

/// `rows,cols` in decimal: the bytes a resize event carries.
pub open spec fn spec_resize_payload(rows: u16, cols: u16) -> Seq<u8> {
    decimal(rows as nat) + seq![0x2cu8] + decimal(cols as nat)
}

/// The payload of a resize event: the new dimensions as `"{rows},{cols}"`.
pub fn resize_payload(rows: u16, cols: u16) -> (r: Vec<u8>)
    ensures
        r@ == spec_resize_payload(rows, cols),
{
    let mut out: Vec<u8> = Vec::new();
    push_decimal(&mut out, rows as u128);
    out.push(0x2c);
    push_decimal(&mut out, cols as u128);
    assert(out@ =~= spec_resize_payload(rows, cols));
    out
}

/// The event recorded for `bytes` going in direction `dir` at `ts`: the
/// bytes in base64, which decodes back to exactly them.
pub fn make_event(ts: u64, dir: &str, bytes: &[u8]) -> (e: RecordingEvent)
    ensures
        e.ts == ts,
        e.dir@ == dir@,
        e.data@ == base64_encoded(bytes@),
        base64_decoded(e.data@) == Some(bytes@),
{
    RecordingEvent { ts, dir: string_of(dir), data: encode_base64(bytes) }
}

/// The metadata header of a recording made at `ts`.
pub fn make_header(ts: u64, rows: u16, cols: u16, program: &str) -> (h: RecordingHeader)
    ensures
        h.dir@ == "meta"@,
        h.ts == ts,
        h.rows == rows,
        h.cols == cols,
        h.program@ == program@,
{
    RecordingHeader { dir: string_of("meta"), ts, rows, cols, program: string_of(program) }
}

} // verus!
