//! Client-side helpers of the attach handshake and of the length-prefixed
//! framing shared by every IPC exchange.
use crate::encoding::{base64_decoded, decode_base64, decoded_or_empty};
use crate::protocol::Response;
use vstd::prelude::*;

verus! {

/// Largest handshake response a client accepts.
pub const MAX_HANDSHAKE_RESPONSE_BYTES: usize = 16 * 1024 * 1024;

/// Largest frame body either side accepts.
pub const MAX_FRAME_BYTES: usize = 16 * 1024 * 1024;

/// `\x1b[6n` at index `i` of `s`.
pub open spec fn dsr_at(s: Seq<u8>, i: int) -> bool {
    0 <= i && i + 4 <= s.len() && s[i] == 0x1b && s[i + 1] == 0x5b && s[i + 2] == 0x36 && s[i
        + 3] == 0x6e
}

/// `s` with every DSR query (`\x1b[6n`) removed, scanning left to right.
pub open spec fn spec_strip_dsr(s: Seq<u8>) -> Seq<u8>
    decreases s.len(),
{
    if s.len() == 0 {
        Seq::empty()
    } else if dsr_at(s, 0) {
        spec_strip_dsr(s.skip(4))
    } else {
        seq![s[0]] + spec_strip_dsr(s.skip(1))
    }
}

/// Remove DSR (Device Status Report, ESC[6n) sequences from a byte stream.
/// These cause the client terminal to emit CPR responses that, in writable
/// attach mode, get forwarded to the PTY and misinterpreted as keystrokes.
pub fn strip_dsr(data: &[u8]) -> (out: Vec<u8>)
    ensures
        out@ == spec_strip_dsr(data@),
{
    let mut out: Vec<u8> = Vec::with_capacity(data.len());
    let mut i: usize = 0;
    assert(data@.skip(0) =~= data@);
    while i < data.len()
        invariant
            0 <= i <= data@.len(),
            out@ + spec_strip_dsr(data@.skip(i as int)) == spec_strip_dsr(data@),
        decreases data@.len() - i,
    {
        let ghost rest = data@.skip(i as int);
        let ghost before = out@;
        if data.len() - i >= 4 && data[i] == 0x1b && data[i + 1] == 0x5b && data[i + 2] == 0x36
            && data[i + 3] == 0x6e {
            assert(dsr_at(rest, 0));
            assert(rest.skip(4) =~= data@.skip(i + 4));
            i = i + 4;
        } else {
            assert(!dsr_at(rest, 0));
            out.push(data[i]);
            assert(rest.skip(1) =~= data@.skip(i + 1));
            i = i + 1;
            assert(out@ + spec_strip_dsr(data@.skip(i as int)) =~= before + (seq![rest[0]]
                + spec_strip_dsr(rest.skip(1))));
        }
    }
    assert(out@ + spec_strip_dsr(data@.skip(i as int)) =~= out@);
    out
}

/// The terminal bytes carried by an attach handshake: its base64 `output`
/// decoded with DSR queries removed; nothing when it has no output or the
/// output does not decode.
pub open spec fn spec_initial_output(output: Option<Seq<char>>) -> Seq<u8> {
    match output {
        Some(text) => spec_strip_dsr(decoded_or_empty(text)),
        None => Seq::empty(),
    }
}

pub open spec fn output_view(resp: Response) -> Option<Seq<char>> {
    match resp.output {
        Some(s) => Some(s@),
        None => None,
    }
}

/// The bytes to write to the client terminal before streaming starts.
pub fn initial_output(resp: &Response) -> (out: Vec<u8>)
    ensures
        out@ == spec_initial_output(output_view(*resp)),
{
    match &resp.output {
        Some(s) => match decode_base64(s.as_str()) {
            Some(bytes) => strip_dsr(bytes.as_slice()),
            None => {
                assert(spec_strip_dsr(Seq::<u8>::empty()) =~= Seq::<u8>::empty());
                Vec::new()
            },
        },
        None => Vec::new(),
    }
}

/// Big-endian bytes of the low 32 bits of `n`.
pub open spec fn be32(n: nat) -> Seq<u8> {
    let v = n % 0x1_0000_0000;
    seq![
        ((v / 0x100_0000) % 256) as u8,
        ((v / 0x1_0000) % 256) as u8,
        ((v / 0x100) % 256) as u8,
        (v % 256) as u8,
    ]
}

/// The value of four big-endian bytes.
pub open spec fn be32_value(b: [u8; 4]) -> nat {
    b[0] as nat * 0x100_0000 + b[1] as nat * 0x1_0000 + b[2] as nat * 0x100 + b[3] as nat
}

/// A frame: the payload's length as a big-endian `u32` (its low 32 bits,
/// as `as u32` keeps them), then the payload.
pub fn frame_payload(data: &[u8]) -> (frame: Vec<u8>)
    ensures
        frame@ == be32(data@.len()) + data@,
{
    let n: u64 = (data.len() as u64) % 0x1_0000_0000;
    let mut frame: Vec<u8> = Vec::new();
    frame.push(((n / 0x100_0000) % 256) as u8);
    frame.push(((n / 0x1_0000) % 256) as u8);
    frame.push(((n / 0x100) % 256) as u8);
    frame.push((n % 256) as u8);
    let mut k: usize = 0;
    while k < data.len()
        invariant
            0 <= k <= data@.len(),
            frame@ == be32(data@.len()) + data@.subrange(0, k as int),
        decreases data@.len() - k,
    {
        frame.push(data[k]);
        k = k + 1;
        assert(frame@ =~= be32(data@.len()) + data@.subrange(0, k as int));
    }
    assert(data@.subrange(0, k as int) =~= data@);
    frame
}

/// The body length announced by a frame header, when it is within
/// `MAX_FRAME_BYTES`; `None` for a longer one, which is refused.
pub fn accept_frame_len(header: [u8; 4]) -> (r: Option<usize>)
    ensures
        r matches Some(n) ==> n == be32_value(header) && n <= MAX_FRAME_BYTES,
        r is None ==> be32_value(header) > MAX_FRAME_BYTES,
{
    let len: u64 = header[0] as u64 * 0x100_0000 + header[1] as u64 * 0x1_0000 + header[2] as u64
        * 0x100 + header[3] as u64;
    if len > 16 * 1024 * 1024 {
        None
    } else {
        Some(len as usize)
    }
}


/// Terminal output without an escape byte passes DSR stripping unchanged.
pub proof fn lemma_strip_dsr_without_escape(s: Seq<u8>)
    requires
        forall|i: int| 0 <= i < s.len() ==> s[i] != 0x1b,
    ensures
        spec_strip_dsr(s) == s,
    decreases s.len(),
{
    if s.len() > 0 {
        let t = s.skip(1);
        assert forall|i: int| 0 <= i < t.len() implies t[i] != 0x1b by {
            assert(t[i] == s[i + 1]);
        }
        lemma_strip_dsr_without_escape(t);
        assert(s =~= seq![s[0]] + t);
    }
}

} // verus!
