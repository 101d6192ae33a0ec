//! Byte-stream transformations used when a recording is replayed to a
//! terminal, and the decisions of the replay loop.
use crate::csi::{
    csi_end, find_byte, first_param, is_param_byte, lemma_csi_end_bounds, lemma_find_byte_bounds,
    read_two_params, scan_byte, scan_csi_end, second_param,
};
use crate::encoding::{base64_decoded, decode_base64, decoded_or_empty};
use crate::recording::{spec_resize_payload, RecordingEvent, RecordingHeader};
use crate::text::{
    is_digit,
    all_digits, decimal, digits_value, lemma_decimal_digits, lemma_decimal_nonempty,
    parse_u16_at, push_decimal, spec_parse_u16, str_eq,
};
use vstd::prelude::*;

verus! {

/// `\x1b[6n` (DSR) at the start of `s`.
pub open spec fn starts_with_dsr(s: Seq<u8>) -> bool {
    s.len() >= 4 && s[0] == 0x1b && s[1] == 0x5b && s[2] == 0x36 && s[3] == 0x6e
}

/// The position of the first String Terminator (`ESC \`) that starts at
/// index `from` or later, or `None`.
pub open spec fn find_st(s: Seq<u8>, from: int) -> Option<int>
    decreases s.len() - from,
{
    if from < 0 || from + 1 >= s.len() {
        None
    } else if s[from] == 0x1b && s[from + 1] == 0x5c {
        Some(from)
    } else {
        find_st(s, from + 1)
    }
}

/// `s` with every DSR query (`\x1b[6n`) and every DCS string
/// (`\x1bP ... \x1b\`) removed; a DCS without terminator loses only its
/// two-byte introducer.
pub open spec fn spec_filter_query(s: Seq<u8>) -> Seq<u8>
    decreases s.len(),
{
    if s.len() == 0 {
        Seq::empty()
    } else if starts_with_dsr(s) {
        spec_filter_query(s.skip(4))
    } else if s.len() >= 2 && s[0] == 0x1b && s[1] == 0x50 {
        match find_st(s, 2) {
            Some(p) => if 0 <= p && p + 2 <= s.len() {
                spec_filter_query(s.skip(p + 2))
            } else {
                Seq::empty()
            },
            None => spec_filter_query(s.skip(2)),
        }
    } else {
        seq![s[0]] + spec_filter_query(s.skip(1))
    }
}

proof fn lemma_find_st_shift(s: Seq<u8>, i: int, from: int)
    requires
        0 <= i <= s.len(),
        0 <= from,
    ensures
        find_st(s.skip(i), from) == (match find_st(s, from + i) {
            Some(p) => Some(p - i),
            None => None::<int>,
        }),
    decreases s.len() - (from + i),
{
    if from + i + 1 < s.len() {
        if !(s[from + i] == 0x1b && s[from + i + 1] == 0x5c) {
            lemma_find_st_shift(s, i, from + 1);
        }
    }
}

proof fn lemma_find_st_bounds(s: Seq<u8>, from: int)
    requires
        0 <= from,
    ensures
        find_st(s, from) matches Some(p) ==> from <= p && p + 1 < s.len() && s[p] == 0x1b && s[p
            + 1] == 0x5c,
    decreases s.len() - from,
{
    if from + 1 < s.len() && !(s[from] == 0x1b && s[from + 1] == 0x5c) {
        lemma_find_st_bounds(s, from + 1);
    }
}

/// Remove terminal query sequences from a byte buffer before writing to the
/// replay terminal.
///
/// Sequences removed:
/// - `\x1b[6n`          DSR (Device Status Report) — triggers CPR response
/// - `\x1bP...\x1b\\`  DCS (Device Control String) — triggers DCS response
///
/// OSC title sequences (`\x1b]0;...\x07`) are intentionally kept: they set
/// the window title but do not cause the terminal to write to stdin.
pub fn filter_query_sequences(buf: &[u8]) -> (out: Vec<u8>)
    ensures
        out@ == spec_filter_query(buf@),
{
    let mut out: Vec<u8> = Vec::with_capacity(buf.len());
    let mut i: usize = 0;
    assert(buf@.skip(0) =~= buf@);
    while i < buf.len()
        invariant
            0 <= i <= buf@.len(),
            out@ + spec_filter_query(buf@.skip(i as int)) == spec_filter_query(buf@),
        decreases buf@.len() - i,
    {
        let ghost rest = buf@.skip(i as int);
        if buf[i] == 0x1b && buf.len() - i > 3 && buf[i + 1] == 0x5b && buf[i + 2] == 0x36 && buf[i
            + 3] == 0x6e {
            assert(rest.skip(4) =~= buf@.skip(i + 4));
            i = i + 4;
            continue;
        }
        if buf[i] == 0x1b && i + 1 < buf.len() && buf[i + 1] == 0x50 {
            // Find the String Terminator: ESC '\'
            let mut k = i + 2;
            proof {
                lemma_find_st_shift(buf@, i as int, 2);
            }
            while buf.len() - k > 1 && !(buf[k] == 0x1b && buf[k + 1] == 0x5c)
                invariant
                    i + 2 <= k <= buf@.len(),
                    i + 1 < buf@.len(),
                    find_st(buf@, i + 2) == find_st(buf@, k as int),
                decreases buf@.len() - k,
            {
                k = k + 1;
            }
            let found = buf.len() - k > 1;
            proof {
                lemma_find_st_bounds(buf@, i + 2);
            }
            if found {
                assert(find_st(buf@, k as int) == Some(k as int));
                assert(rest.skip(k - i + 2) =~= buf@.skip(k + 2));
                i = k + 2;
                continue;
            }
            // No terminator: skip just the two-byte ESC P header.

            assert(find_st(buf@, k as int) is None);
            assert(rest.skip(2) =~= buf@.skip(i + 2));
            i = i + 2;
            continue;
        }
        out.push(buf[i]);
        assert(rest.skip(1) =~= buf@.skip(i + 1));
        i = i + 1;
        assert(out@ + spec_filter_query(buf@.skip(i as int)) =~= spec_filter_query(buf@));
    }
    assert(out@ + spec_filter_query(buf@.skip(i as int)) =~= out@);
    out
}

/// `s` with every `\r\r\n` collapsed to `\r\n`, scanning left to right.
pub open spec fn spec_normalize_crlf(s: Seq<u8>) -> Seq<u8>
    decreases s.len(),
{
    if s.len() == 0 {
        Seq::empty()
    } else if s.len() >= 3 && s[0] == 0x0d && s[1] == 0x0d && s[2] == 0x0a {
        seq![0x0du8, 0x0au8] + spec_normalize_crlf(s.skip(3))
    } else {
        seq![s[0]] + spec_normalize_crlf(s.skip(1))
    }
}

/// Normalise PTY double-CR line endings produced by inline TUI apps.
///
/// When a program running in a PTY writes `\r\n`, the PTY line discipline
/// (ONLCR) translates the `\n` to `\r\n`, yielding `\r\r\n` in the output
/// stream that gets recorded. This function collapses every `\r\r\n` →
/// `\r\n` so the bytes replayed to the terminal are what the application
/// originally intended.
pub fn normalize_crlf(buf: &[u8]) -> (out: Vec<u8>)
    ensures
        out@ == spec_normalize_crlf(buf@),
{
    let mut out: Vec<u8> = Vec::with_capacity(buf.len());
    let mut i: usize = 0;
    assert(buf@.skip(0) =~= buf@);
    while i < buf.len()
        invariant
            0 <= i <= buf@.len(),
            out@ + spec_normalize_crlf(buf@.skip(i as int)) == spec_normalize_crlf(buf@),
        decreases buf@.len() - i,
    {
        let ghost rest = buf@.skip(i as int);
        let ghost before = out@;
        if buf.len() - i > 2 && buf[i] == 0x0d && buf[i + 1] == 0x0d && buf[i + 2] == 0x0a {
            out.push(0x0d);
            out.push(0x0a);
            assert(rest.skip(3) =~= buf@.skip(i + 3));
            i = i + 3;
            assert(out@ + spec_normalize_crlf(buf@.skip(i as int)) =~= before + (seq![0x0du8, 0x0au8]
                + spec_normalize_crlf(rest.skip(3))));
            continue;
        }
        out.push(buf[i]);
        assert(rest.skip(1) =~= buf@.skip(i + 1));
        i = i + 1;
        assert(out@ + spec_normalize_crlf(buf@.skip(i as int)) =~= before + (seq![rest[0]]
            + spec_normalize_crlf(rest.skip(1))));
    }
    assert(out@ + spec_normalize_crlf(buf@.skip(i as int)) =~= out@);
    out
}

/// The first index at or after `k` holding ESC, CR or LF, or the length.
pub open spec fn run_stop(s: Seq<u8>, k: int) -> int
    decreases s.len() - k,
{
    if k < 0 || k >= s.len() {
        if k < 0 {
            0
        } else {
            s.len() as int
        }
    } else if s[k] == 0x1b || s[k] == 0x0d || s[k] == 0x0a {
        k
    } else {
        run_stop(s, k + 1)
    }
}

proof fn lemma_run_stop_bounds(s: Seq<u8>, k: int)
    requires
        0 <= k <= s.len(),
    ensures
        k <= run_stop(s, k) <= s.len(),
    decreases s.len() - k,
{
    if k < s.len() && !(s[k] == 0x1b || s[k] == 0x0d || s[k] == 0x0a) {
        lemma_run_stop_bounds(s, k + 1);
    }
}

/// What the size heuristic has gathered so far: the scroll-region bottom,
/// the largest cursor-position column, and the longest SGR-bracketed run.
pub struct SizeEvidence {
    pub rows: Option<u16>,
    pub max_col: u16,
    pub max_run: u16,
}

/// How the CSI sequence `s[i..=j]` (final byte at `j`) updates the evidence.
pub open spec fn evidence_step(s: Seq<u8>, i: int, j: int, e: SizeEvidence) -> SizeEvidence {
    let fb = s[j];
    if fb == 0x72 && e.rows is None {
        match second_param(s, i + 2, j) {
            Some(bottom) => if bottom > 0 {
                SizeEvidence { rows: Some(bottom), ..e }
            } else {
                e
            },
            None => e,
        }
    } else if fb == 0x48 || fb == 0x66 {
        match second_param(s, i + 2, j) {
            Some(col) => if col > e.max_col {
                SizeEvidence { max_col: col, ..e }
            } else {
                e
            },
            None => e,
        }
    } else if fb == 0x6d {
        let k = run_stop(s, j + 1);
        if k < s.len() && s[k] == 0x1b {
            let run = ((k - (j + 1)) % 65536) as u16;
            if run > e.max_run {
                SizeEvidence { max_run: run, ..e }
            } else {
                e
            }
        } else {
            e
        }
    } else {
        e
    }
}

/// The evidence gathered from the CSI sequences of `s` from index `i` on.
pub open spec fn evidence_from(s: Seq<u8>, i: int, e: SizeEvidence) -> SizeEvidence
    decreases s.len() - i,
{
    if i < 0 || i >= s.len() {
        e
    } else if s[i] != 0x1b || i + 1 >= s.len() || s[i + 1] != 0x5b {
        evidence_from(s, i + 1, e)
    } else {
        let j = csi_end(s, i + 2);
        if j >= s.len() || j < i + 2 {
            e
        } else {
            evidence_from(s, j + 1, evidence_step(s, i, j, e))
        }
    }
}

/// Terminal size inferred from raw output: rows from the first scroll
/// region's bottom, cols from the larger of the widest cursor-position
/// column and the longest SGR-bracketed run, with 24 and 80 standing in for
/// whichever is missing; `None` when both are.
pub open spec fn spec_heuristic_size(s: Seq<u8>) -> Option<(u16, u16)> {
    let e = evidence_from(s, 0, SizeEvidence { rows: None, max_col: 0, max_run: 0 });
    let cols = if e.max_run > e.max_col {
        e.max_run
    } else {
        e.max_col
    };
    match e.rows {
        Some(r) => if cols > 0 {
            Some((r, cols))
        } else {
            Some((r, 80u16))
        },
        None => if cols > 0 {
            Some((24u16, cols))
        } else {
            None
        },
    }
}

/// `s[a..b]` is a run that follows an SGR sequence (`s[a - 1]` is its
/// final `m`) and ends at the next escape (`s[b]` is ESC), with no ESC, CR
/// or LF inside.
pub open spec fn sgr_run(s: Seq<u8>, a: int, b: int) -> bool {
    &&& 1 <= a <= b < s.len()
    &&& s[a - 1] == 0x6d
    &&& s[b] == 0x1b
    &&& forall|k: int| a <= k < b ==> #[trigger] s[k] != 0x1b && s[k] != 0x0d && s[k] != 0x0a
}

/// `s[i..=j]` is a cursor-position sequence (`ESC [ row ; col H`, or `f`)
/// whose column parameter is `col`.
pub open spec fn cup_at(s: Seq<u8>, i: int, j: int, col: u16) -> bool {
    &&& 0 <= i && i + 2 <= j < s.len()
    &&& s[i] == 0x1b && s[i + 1] == 0x5b
    &&& j == csi_end(s, i + 2)
    &&& (s[j] == 0x48 || s[j] == 0x66)
    &&& second_param(s, i + 2, j) == Some(col)
}

/// `s[i..=j]` is a scroll-region sequence (`ESC [ top ; bottom r`) whose
/// bottom is `rows`, not 0.
pub open spec fn region_at(s: Seq<u8>, i: int, j: int, rows: u16) -> bool {
    &&& 0 <= i && i + 2 <= j < s.len()
    &&& s[i] == 0x1b && s[i + 1] == 0x5b
    &&& j == csi_end(s, i + 2)
    &&& s[j] == 0x72
    &&& rows > 0
    &&& second_param(s, i + 2, j) == Some(rows)
}

/// Whether `col` comes from the output: a cursor-position column, or the
/// length (modulo 2^16) of an SGR-bracketed run.
pub open spec fn column_evidence(s: Seq<u8>, col: u16) -> bool {
    ||| exists|i: int, j: int| cup_at(s, i, j, col)
    ||| exists|a: int, b: int| sgr_run(s, a, b) && col == ((b - a) % 65536) as u16
}

proof fn lemma_run_stop_clean(s: Seq<u8>, a: int)
    requires
        0 <= a <= s.len(),
    ensures
        forall|k: int| a <= k < run_stop(s, a) ==> #[trigger] s[k] != 0x1b && s[k] != 0x0d && s[k]
            != 0x0a,
        run_stop(s, a) < s.len() ==> (s[run_stop(s, a)] == 0x1b || s[run_stop(s, a)] == 0x0d
            || s[run_stop(s, a)] == 0x0a),
    decreases s.len() - a,
{
    lemma_run_stop_bounds(s, a);
    if a < s.len() && !(s[a] == 0x1b || s[a] == 0x0d || s[a] == 0x0a) {
        lemma_run_stop_clean(s, a + 1);
    }
}

proof fn lemma_evidence_sound(s: Seq<u8>, i: int, e: SizeEvidence)
    requires
        0 <= i,
        e.max_col == 0 || column_evidence(s, e.max_col),
        e.max_run == 0 || column_evidence(s, e.max_run),
        e.rows matches Some(r) ==> exists|a: int, b: int| region_at(s, a, b, r),
    ensures
        ({
            let f = evidence_from(s, i, e);
            &&& f.max_col == 0 || column_evidence(s, f.max_col)
            &&& f.max_run == 0 || column_evidence(s, f.max_run)
            &&& f.rows matches Some(r) ==> exists|a: int, b: int| region_at(s, a, b, r)
        }),
    decreases s.len() - i,
{
    if i < 0 || i >= s.len() {
    } else if s[i] != 0x1b || i + 1 >= s.len() || s[i + 1] != 0x5b {
        lemma_evidence_sound(s, i + 1, e);
    } else {
        let j = csi_end(s, i + 2);
        if j >= s.len() || j < i + 2 {
        } else {
            let e2 = evidence_step(s, i, j, e);
            let fb = s[j];
            if fb == 0x72 && e.rows is None {
                if e2.rows is Some {
                    assert(region_at(s, i, j, e2.rows->0));
                }
            } else if fb == 0x48 || fb == 0x66 {
                if e2.max_col != e.max_col {
                    assert(cup_at(s, i, j, e2.max_col));
                }
            } else if fb == 0x6d {
                let k = run_stop(s, j + 1);
                lemma_run_stop_bounds(s, j + 1);
                lemma_run_stop_clean(s, j + 1);
                if k < s.len() && s[k] == 0x1b && e2.max_run != e.max_run {
                    assert(sgr_run(s, j + 1, k));
                }
            }
            lemma_evidence_sound(s, j + 1, e2);
        }
    }
}

/// The inferred size comes from the output. The column count is 80
/// (nothing seen) or a cursor-position column, or the length of a run of
/// bytes between an SGR sequence and the next escape with no CR or LF in
/// it; the row count is 24 (nothing seen) or the bottom of a scroll region.
pub proof fn lemma_inferred_size(s: Seq<u8>)
    ensures
        spec_heuristic_size(s) matches Some((r, c)) ==> c == 80 || column_evidence(s, c),
        spec_heuristic_size(s) matches Some((r, c)) ==> r == 24 || exists|a: int, b: int|
            region_at(s, a, b, r),
{
    lemma_evidence_sound(s, 0, SizeEvidence { rows: None, max_col: 0, max_run: 0 });
}

/// Heuristic terminal size inference from raw PTY output bytes.
///
/// Strategy:
/// - rows: the `bottom` value from the first `\x1b[{top};{bottom}r` scroll
///   region sequence (TUI apps set this to the terminal height on startup).
/// - cols: the maximum `col` value seen in any `\x1b[{row};{col}H` cursor
///   position sequence, or the longest run of bytes between an SGR
///   sequence and the next escape, whichever is larger (vim pads filler
///   lines and the status bar to the full width).
///
/// Returns `None` if neither can be determined.
pub fn heuristic_size(bytes: &[u8]) -> (r: Option<(u16, u16)>)
    ensures
        r == spec_heuristic_size(bytes@),
{
    let mut rows: Option<u16> = None;
    let mut max_col: u16 = 0;
    let mut max_padded_run: u16 = 0;
    let ghost init = SizeEvidence { rows: None, max_col: 0, max_run: 0 };
    let mut i: usize = 0;
    while i < bytes.len()
        invariant
            0 <= i <= bytes@.len(),
            evidence_from(bytes@, i as int, SizeEvidence { rows, max_col, max_run: max_padded_run })
                == evidence_from(bytes@, 0, init),
        decreases bytes@.len() - i,
    {
        if bytes[i] != 0x1b || bytes.len() - i <= 1 || bytes[i + 1] != 0x5b {
            i = i + 1;
            continue;
        }
        let param_start = i + 2;
        let j = scan_csi_end(bytes, param_start);
        if j >= bytes.len() {
            i = bytes.len();
            continue;
        }
        let ghost e = SizeEvidence { rows, max_col, max_run: max_padded_run };
        let final_byte = bytes[j];
        if final_byte == 0x72 && rows.is_none() {
            let (_, bottom) = read_two_params(bytes, param_start, j);
            if let Some(b) = bottom {
                if b > 0 {
                    rows = Some(b);
                }
            }
        } else if final_byte == 0x48 || final_byte == 0x66 {
            let (_, col) = read_two_params(bytes, param_start, j);
            if let Some(c) = col {
                if c > max_col {
                    max_col = c;
                }
            }
        } else if final_byte == 0x6d {
            let run_start = j + 1;
            let mut k = run_start;
            proof {
                lemma_run_stop_bounds(bytes@, run_start as int);
            }
            while k < bytes.len() && bytes[k] != 0x1b && bytes[k] != 0x0d && bytes[k] != 0x0a
                invariant
                    run_start <= k <= bytes@.len(),
                    run_stop(bytes@, k as int) == run_stop(bytes@, run_start as int),
                decreases bytes@.len() - k,
            {
                k = k + 1;
            }
            if k < bytes.len() && bytes[k] == 0x1b {
                let run_len = ((k - run_start) % 65536) as u16;
                if run_len > max_padded_run {
                    max_padded_run = run_len;
                }
            }
        }
        assert(SizeEvidence { rows, max_col, max_run: max_padded_run } == evidence_step(
            bytes@,
            i as int,
            j as int,
            e,
        ));
        i = j + 1;
    }
    let cols = if max_padded_run > max_col {
        max_padded_run
    } else {
        max_col
    };
    match rows {
        Some(r) => if cols > 0 {
            Some((r, cols))
        } else {
            Some((r, 80))
        },
        None => if cols > 0 {
            Some((24, cols))
        } else {
            None
        },
    }
}

/// `a + b`, saturating at the largest `u16`.
pub open spec fn sat_add_u16(a: u16, b: int) -> u16 {
    if a + b > 65535 {
        65535
    } else {
        (a + b) as u16
    }
}

/// `ESC [ a ; b final`
pub open spec fn two_param_csi(a: nat, b: nat, final_byte: u8) -> Seq<u8> {
    seq![0x1bu8, 0x5bu8] + decimal(a) + seq![0x3bu8] + decimal(b) + seq![final_byte]
}

pub open spec fn param_or_one(p: Option<u16>) -> u16 {
    match p {
        Some(v) => v,
        None => 1,
    }
}

/// The replacement for the complete CSI sequence `s[i..=j]`.
pub open spec fn remap_piece(s: Seq<u8>, i: int, j: int, row_offset: u16, col_offset: u16) -> Seq<
    u8,
> {
    let fb = s[j];
    let first = param_or_one(first_param(s, i + 2, j));
    let second = param_or_one(second_param(s, i + 2, j));
    if fb == 0x48 || fb == 0x66 {
        two_param_csi(
            sat_add_u16(first, row_offset - 1) as nat,
            sat_add_u16(second, col_offset - 1) as nat,
            fb,
        )
    } else if fb == 0x72 {
        two_param_csi(
            sat_add_u16(first, row_offset - 1) as nat,
            sat_add_u16(second, row_offset - 1) as nat,
            0x72,
        )
    } else {
        s.subrange(i, j + 1)
    }
}

/// The rewriting of `s` from index `i` on: absolute cursor positions
/// (`H`, `f`) and scroll regions (`r`) moved by the offsets, everything else
/// copied, and a truncated sequence at the end copied as it stands.
pub open spec fn remap_from(s: Seq<u8>, i: int, row_offset: u16, col_offset: u16) -> Seq<u8>
    decreases s.len() - i,
{
    if i < 0 || i >= s.len() {
        Seq::empty()
    } else if s[i] != 0x1b || i + 1 >= s.len() || s[i + 1] != 0x5b {
        seq![s[i]] + remap_from(s, i + 1, row_offset, col_offset)
    } else {
        let j = csi_end(s, i + 2);
        if j >= s.len() || j < i + 2 {
            s.subrange(i, s.len() as int)
        } else {
            remap_piece(s, i, j, row_offset, col_offset) + remap_from(
                s,
                j + 1,
                row_offset,
                col_offset,
            )
        }
    }
}

pub open spec fn spec_remap_coordinates(s: Seq<u8>, row_offset: u16, col_offset: u16) -> Seq<u8> {
    if row_offset == 1 && col_offset == 1 {
        s
    } else {
        remap_from(s, 0, row_offset, col_offset)
    }
}

/// Appends `buf[lo..hi]` to `out`.
fn push_range(out: &mut Vec<u8>, buf: &[u8], lo: usize, hi: usize)
    requires
        lo <= hi <= buf@.len(),
    ensures
        final(out)@ == old(out)@ + buf@.subrange(lo as int, hi as int),
{
    let mut k = lo;
    while k < hi
        invariant
            lo <= k <= hi <= buf@.len(),
            out@ == old(out)@ + buf@.subrange(lo as int, k as int),
        decreases hi - k,
    {
        out.push(buf[k]);
        k = k + 1;
        assert(out@ =~= old(out)@ + buf@.subrange(lo as int, k as int));
    }
}

/// Appends `ESC [ a ; b final` to `out`.
fn push_two_param_csi(out: &mut Vec<u8>, a: u16, b: u16, final_byte: u8)
    ensures
        final(out)@ == old(out)@ + two_param_csi(a as nat, b as nat, final_byte),
{
    out.push(0x1b);
    out.push(0x5b);
    push_decimal(out, a as u128);
    out.push(0x3b);
    push_decimal(out, b as u128);
    out.push(final_byte);
    assert(out@ =~= old(out)@ + two_param_csi(a as nat, b as nat, final_byte));
}

/// Appends the replacement for the complete CSI sequence `buf[i..=j]`.
fn push_remapped_csi(
    out: &mut Vec<u8>,
    buf: &[u8],
    i: usize,
    j: usize,
    row_offset: u16,
    col_offset: u16,
)
    requires
        i + 2 <= j < buf@.len(),
        row_offset >= 1,
        col_offset >= 1,
    ensures
        final(out)@ == old(out)@ + remap_piece(buf@, i as int, j as int, row_offset, col_offset),
{
    let final_byte = buf[j];
    let (first, second) = read_two_params(buf, i + 2, j);
    let row = match first {
        Some(v) => v,
        None => 1,
    };
    let col = match second {
        Some(v) => v,
        None => 1,
    };
    if final_byte == 0x48 || final_byte == 0x66 {
        push_two_param_csi(
            out,
            row.saturating_add(row_offset - 1),
            col.saturating_add(col_offset - 1),
            final_byte,
        );
    } else if final_byte == 0x72 {
        push_two_param_csi(
            out,
            row.saturating_add(row_offset - 1),
            col.saturating_add(row_offset - 1),
            0x72,
        );
    } else {
        push_range(out, buf, i, j + 1);
    }
}

/// Rewrite absolute terminal coordinates in `buf` so that the content is
/// rendered inside a viewport that starts at (`row_offset`, `col_offset`)
/// (both 1-based, same convention as VT100).
///
/// | Sequence          | Transformation                                      |
/// |-------------------|-----------------------------------------------------|
/// | `CSI row ; col H` | row += row_offset-1, col += col_offset-1  (CUP)    |
/// | `CSI row ; col f` | same as H  (HVP)                                   |
/// | `CSI top ; bot r` | top += row_offset-1, bot += row_offset-1 (DECSTBM) |
///
/// All other bytes (SGR, erase, mode set/reset, relative moves, text) are
/// passed through unchanged. Passing (1, 1) is a no-op.
pub fn remap_coordinates(buf: &[u8], row_offset: u16, col_offset: u16) -> (out: Vec<u8>)
    requires
        row_offset >= 1,
        col_offset >= 1,
    ensures
        out@ == spec_remap_coordinates(buf@, row_offset, col_offset),
{
    if row_offset == 1 && col_offset == 1 {
        let mut copy: Vec<u8> = Vec::with_capacity(buf.len());
        push_range(&mut copy, buf, 0, buf.len());
        assert(buf@.subrange(0, buf@.len() as int) =~= buf@);
        return copy;
    }
    let mut out: Vec<u8> = Vec::with_capacity(buf.len());
    let mut i: usize = 0;
    while i < buf.len()
        invariant
            0 <= i <= buf@.len(),
            row_offset >= 1,
            col_offset >= 1,
            out@ + remap_from(buf@, i as int, row_offset, col_offset) == remap_from(
                buf@,
                0,
                row_offset,
                col_offset,
            ),
        decreases buf@.len() - i,
    {
        let ghost before = out@;
        if buf[i] != 0x1b || buf.len() - i <= 1 || buf[i + 1] != 0x5b {
            out.push(buf[i]);
            i = i + 1;
            assert(out@ + remap_from(buf@, i as int, row_offset, col_offset) =~= before + (seq![
                buf@[i - 1],
            ] + remap_from(buf@, i as int, row_offset, col_offset)));
            continue;
        }
        let j = scan_csi_end(buf, i + 2);
        if j >= buf.len() {
            push_range(&mut out, buf, i, buf.len());
            assert(out@ + remap_from(buf@, buf@.len() as int, row_offset, col_offset) =~= before
                + remap_from(buf@, i as int, row_offset, col_offset));
            i = buf.len();
            continue;
        }
        push_remapped_csi(&mut out, buf, i, j, row_offset, col_offset);
        assert(out@ + remap_from(buf@, j + 1, row_offset, col_offset) =~= before + remap_from(
            buf@,
            i as int,
            row_offset,
            col_offset,
        ));
        i = j + 1;
    }
    assert(out@ + remap_from(buf@, i as int, row_offset, col_offset) =~= out@);
    out
}

/// Events whose timestamps differ by less than this threshold (in real time,
/// before speed scaling) are merged into a single write + flush.
///
/// The PTY may split a single logical output frame across two consecutive
/// reads, producing two recording events 0–2 ms apart. Flushing between
/// them would show the terminal a truncated escape sequence.
pub const MERGE_THRESHOLD_MS: u64 = 5;

/// `ESC [ ? 1 0 4 9 h`: switch to the alternate screen.
pub open spec fn alt_screen_enter() -> Seq<u8> {
    seq![0x1bu8, 0x5bu8, 0x3fu8, 0x31u8, 0x30u8, 0x34u8, 0x39u8, 0x68u8]
}

/// Whether `needle` occurs in `s` as a contiguous run.
pub open spec fn contains_run(s: Seq<u8>, needle: Seq<u8>) -> bool {
    exists|i: int| 0 <= i && i + needle.len() <= s.len() && #[trigger] s.subrange(i, i + needle.len()) == needle
}

/// Whether the output switches to the alternate screen.
pub fn contains_alt_screen_enter(bytes: &[u8]) -> (r: bool)
    ensures
        r == contains_run(bytes@, alt_screen_enter()),
{
    let marker: [u8; 8] = [0x1b, 0x5b, 0x3f, 0x31, 0x30, 0x34, 0x39, 0x68];
    assert(marker@ =~= alt_screen_enter());
    if bytes.len() < 8 {
        return false;
    }
    let mut i: usize = 0;
    while i <= bytes.len() - 8
        invariant
            marker@ == alt_screen_enter(),
            bytes@.len() >= 8,
            0 <= i <= bytes@.len() - 7,
            forall|k: int| 0 <= k < i ==> #[trigger] bytes@.subrange(k, k + 8) != alt_screen_enter(),
        decreases bytes@.len() - i,
    {
        let mut j: usize = 0;
        while j < 8 && bytes[i + j] == marker[j]
            invariant
                0 <= j <= 8,
                i + 8 <= bytes@.len(),
                i + 8 <= bytes.len(),
                forall|m: int| 0 <= m < j ==> bytes@[i + m] == marker@[m],
            decreases 8 - j,
        {
            j = j + 1;
        }
        if j == 8 {
            assert(bytes@.subrange(i as int, i + 8) =~= alt_screen_enter());
            return true;
        }
        assert(bytes@.subrange(i as int, i + 8)[j as int] != alt_screen_enter()[j as int]);
        i = i + 1;
    }
    assert forall|k: int| 0 <= k && k + 8 <= bytes@.len() implies #[trigger] bytes@.subrange(
        k,
        k + 8,
    ) != alt_screen_enter() by {}
    false
}

pub open spec fn is_out_event(e: RecordingEvent) -> bool {
    e.dir@ == "out"@
}

/// Whether a recording's output uses the alternate screen: some `out`
/// event's decoded bytes hold `ESC[?1049h`.
pub open spec fn spec_uses_alt_screen(events: Seq<RecordingEvent>) -> bool {
    exists|i: int|
        0 <= i < events.len() && is_out_event(#[trigger] events[i]) && contains_run(
            decoded_or_empty(events[i].data@),
            alt_screen_enter(),
        )
}

/// Detect whether a recording's output byte stream uses alternate screen
/// (i.e. contains `ESC[?1049h`). Replay uses this to choose between
/// re-rendering through a terminal emulator (alt-screen programs like
/// vim/htop) and raw passthrough (inline TUI programs).
pub fn recording_uses_alt_screen(events: &[RecordingEvent]) -> (r: bool)
    ensures
        r == spec_uses_alt_screen(events@),
{
    let mut i: usize = 0;
    while i < events.len()
        invariant
            0 <= i <= events@.len(),
            forall|k: int|
                0 <= k < i ==> !(is_out_event(#[trigger] events@[k]) && contains_run(
                    decoded_or_empty(events@[k].data@),
                    alt_screen_enter(),
                )),
        decreases events@.len() - i,
    {
        let ev = &events[i];
        if str_eq(ev.dir.as_str(), "out") {
            let found = match decode_base64(ev.data.as_str()) {
                Some(bytes) => contains_alt_screen_enter(bytes.as_slice()),
                None => {
                    assert(!contains_run(Seq::<u8>::empty(), alt_screen_enter()));
                    false
                },
            };
            if found {
                return true;
            }
        }
        i = i + 1;
    }
    false
}

/// The decoded bytes of the `out` events among `events[..k]`, in order.
pub open spec fn output_of(events: Seq<RecordingEvent>, k: int) -> Seq<u8>
    decreases k,
{
    if k <= 0 {
        Seq::empty()
    } else if is_out_event(events[k - 1]) {
        output_of(events, k - 1) + decoded_or_empty(events[k - 1].data@)
    } else {
        output_of(events, k - 1)
    }
}

/// What a raw dump of a recording writes: every `out` event's bytes, in
/// order; an event whose data does not decode contributes nothing.
pub fn dump_output(events: &[RecordingEvent]) -> (out: Vec<u8>)
    ensures
        out@ == output_of(events@, events@.len() as int),
{
    let mut out: Vec<u8> = Vec::new();
    let mut i: usize = 0;
    while i < events.len()
        invariant
            0 <= i <= events@.len(),
            out@ == output_of(events@, i as int),
        decreases events@.len() - i,
    {
        let ev = &events[i];
        if str_eq(ev.dir.as_str(), "out") {
            match decode_base64(ev.data.as_str()) {
                Some(bytes) => {
                    let ghost before = out@;
                    let mut k: usize = 0;
                    while k < bytes.len()
                        invariant
                            0 <= k <= bytes@.len(),
                            out@ == before + bytes@.subrange(0, k as int),
                        decreases bytes@.len() - k,
                    {
                        out.push(bytes[k]);
                        k = k + 1;
                        assert(out@ =~= before + bytes@.subrange(0, k as int));
                    }
                    assert(bytes@.subrange(0, k as int) =~= bytes@);
                },
                None => {
                    assert(out@ + Seq::<u8>::empty() =~= out@);
                },
            }
        }
        i = i + 1;
    }
    out
}

/// The header, if it is a metadata header (`dir` is `"meta"`); `None` for
/// a data event read as a header (recordings without a header).
pub fn header_if_meta(header: RecordingHeader) -> (r: Option<RecordingHeader>)
    ensures
        header.dir@ == "meta"@ ==> r == Some(header),
        header.dir@ != "meta"@ ==> r is None,
{
    if str_eq(header.dir.as_str(), "meta") {
        Some(header)
    } else {
        None
    }
}

/// The last index of the group of events that starts at `i`: consecutive
/// events join while each follows the previous by less than the merge
/// threshold (a timestamp going backwards counts as no delay).
pub open spec fn group_end(ts: Seq<u64>, i: int) -> int
    decreases ts.len() - i,
{
    if i < 0 || i + 1 >= ts.len() {
        i
    } else if (if ts[i + 1] >= ts[i] {
        ts[i + 1] - ts[i]
    } else {
        0
    }) < MERGE_THRESHOLD_MS {
        group_end(ts, i + 1)
    } else {
        i
    }
}

proof fn lemma_group_end_bounds(ts: Seq<u64>, i: int)
    requires
        0 <= i < ts.len(),
    ensures
        i <= group_end(ts, i) < ts.len(),
    decreases ts.len() - i,
{
    if i + 1 < ts.len() && (if ts[i + 1] >= ts[i] {
        ts[i + 1] - ts[i]
    } else {
        0
    }) < MERGE_THRESHOLD_MS {
        lemma_group_end_bounds(ts, i + 1);
    }
}

pub open spec fn timestamps(events: Seq<RecordingEvent>) -> Seq<u64> {
    events.map_values(|e: RecordingEvent| e.ts)
}

/// The index of the last event of the burst that starts at event `i`.
pub fn merge_group_end(events: &[RecordingEvent], i: usize) -> (j: usize)
    requires
        i < events@.len(),
    ensures
        j == group_end(timestamps(events@), i as int),
        i <= j < events@.len(),
{
    let ghost ts = timestamps(events@);
    proof {
        lemma_group_end_bounds(ts, i as int);
    }
    let mut j = i;
    while j < events.len() - 1 && events[j + 1].ts.saturating_sub(events[j].ts)
        < MERGE_THRESHOLD_MS
        invariant
            i <= j < events@.len(),
            ts == timestamps(events@),
            group_end(ts, j as int) == group_end(ts, i as int),
        decreases events@.len() - j,
    {
        j = j + 1;
    }
    j
}

/// The size a replay starts at: the header's size when the recording has
/// resize events (the emulator follows them); otherwise the larger of the
/// header's and the inferred size in each dimension; the inferred size, or
/// 24 x 80, when there is no header.
pub open spec fn spec_replay_size(
    header: Option<(u16, u16)>,
    has_resize_events: bool,
    heuristic: Option<(u16, u16)>,
) -> (u16, u16) {
    match header {
        Some((hr, hc)) => if has_resize_events {
            (hr, hc)
        } else {
            match heuristic {
                Some((r, c)) => (if hr > r {
                    hr
                } else {
                    r
                }, if hc > c {
                    hc
                } else {
                    c
                }),
                None => (hr, hc),
            }
        },
        None => match heuristic {
            Some(size) => size,
            None => (24, 80),
        },
    }
}

pub fn replay_size(
    header: Option<(u16, u16)>,
    has_resize_events: bool,
    heuristic: Option<(u16, u16)>,
) -> (r: (u16, u16))
    ensures
        r == spec_replay_size(header, has_resize_events, heuristic),
{
    match header {
        Some((hr, hc)) => if has_resize_events {
            (hr, hc)
        } else {
            match heuristic {
                Some((r, c)) => (if hr > r {
                    hr
                } else {
                    r
                }, if hc > c {
                    hc
                } else {
                    c
                }),
                None => (hr, hc),
            }
        },
        None => match heuristic {
            Some(size) => size,
            None => (24, 80),
        },
    }
}

/// `rows,cols` as a resize event carries them: exactly two comma-separated
/// fields, each a `u16` as `str::parse` reads it.
pub open spec fn spec_parse_resize(b: Seq<u8>) -> Option<(u16, u16)> {
    let n = b.len() as int;
    let p = find_byte(b, 0x2c, 0, n);
    if p >= n || find_byte(b, 0x2c, p + 1, n) < n {
        None
    } else {
        match (spec_parse_u16(b.subrange(0, p)), spec_parse_u16(b.subrange(p + 1, n))) {
            (Some(r), Some(c)) => Some((r, c)),
            _ => None,
        }
    }
}

/// Reads the dimensions of a resize event's payload.
pub fn parse_resize_payload(bytes: &[u8]) -> (r: Option<(u16, u16)>)
    ensures
        r == spec_parse_resize(bytes@),
{
    let n = bytes.len();
    let p = scan_byte(bytes, 0x2c, 0, n);
    if p >= n {
        return None;
    }
    let q = scan_byte(bytes, 0x2c, p + 1, n);
    if q < n {
        return None;
    }
    match (parse_u16_at(bytes, 0, p), parse_u16_at(bytes, p + 1, n)) {
        (Some(r), Some(c)) => Some((r, c)),
        _ => None,
    }
}

/// What one event asks of the replay.
#[derive(Debug)]
pub enum ReplayAction {
    /// Terminal output to render.
    Output(Vec<u8>),
    /// A change of terminal size.
    Resize(u16, u16),
    /// Nothing (input events only pace the replay).
    Skip,
}

/// `out` events give their decoded bytes (nothing when the data does not
/// decode); `resize` events whose payload decodes and reads as `rows,cols`
/// give the new size; every other event gives nothing to do.
pub open spec fn spec_event_action(e: RecordingEvent) -> Option<Result<Seq<u8>, (u16, u16)>> {
    if e.dir@ == "out"@ {
        Some(Ok(decoded_or_empty(e.data@)))
    } else if e.dir@ == "resize"@ {
        match base64_decoded(e.data@) {
            Some(b) => match spec_parse_resize(b) {
                Some(size) => Some(Err(size)),
                None => None,
            },
            None => None,
        }
    } else {
        None
    }
}

pub open spec fn action_view(a: ReplayAction) -> Option<Result<Seq<u8>, (u16, u16)>> {
    match a {
        ReplayAction::Output(b) => Some(Ok(b@)),
        ReplayAction::Resize(r, c) => Some(Err((r, c))),
        ReplayAction::Skip => None,
    }
}

/// What the replay loop does with one event.
pub fn event_action(e: &RecordingEvent) -> (a: ReplayAction)
    ensures
        action_view(a) == spec_event_action(*e),
{
    if str_eq(e.dir.as_str(), "out") {
        match decode_base64(e.data.as_str()) {
            Some(bytes) => ReplayAction::Output(bytes),
            None => ReplayAction::Output(Vec::new()),
        }
    } else if str_eq(e.dir.as_str(), "resize") {
        match decode_base64(e.data.as_str()) {
            Some(bytes) => match parse_resize_payload(bytes.as_slice()) {
                Some((r, c)) => ReplayAction::Resize(r, c),
                None => ReplayAction::Skip,
            },
            None => ReplayAction::Skip,
        }
    } else {
        ReplayAction::Skip
    }
}

proof fn lemma_digits_value_decimal(n: nat)
    ensures
        digits_value(decimal(n)) == n,
        all_digits(decimal(n)),
    decreases n,
{
    lemma_decimal_digits(n);
    let d = decimal(n);
    if n >= 10 {
        lemma_digits_value_decimal(n / 10);
        assert(d.drop_last() =~= decimal(n / 10));
        assert(n % 10 < 10 && (n / 10) * 10 + n % 10 == n) by (nonlinear_arith);
        assert(d.last() == (48 + n % 10) as u8);
        assert((d.last() - 48) as nat == n % 10);
        assert(digits_value(d) == digits_value(d.drop_last()) * 10 + (d.last() - 48) as nat);
        assert(digits_value(d.drop_last()) == n / 10);
        assert forall|i: int| 0 <= i < d.len() implies is_digit(#[trigger] d[i]) by {}
    } else {
        assert(d.drop_last() =~= Seq::<u8>::empty());
        assert(d.last() == (48 + n) as u8);
        assert(digits_value(d) == digits_value(d.drop_last()) * 10 + (d.last() - 48) as nat);
        assert(digits_value(d.drop_last()) == 0);
        assert forall|i: int| 0 <= i < d.len() implies is_digit(#[trigger] d[i]) by {}
    }
}

proof fn lemma_parse_decimal(n: u16)
    ensures
        spec_parse_u16(decimal(n as nat)) == Some(n),
{
    lemma_digits_value_decimal(n as nat);
    lemma_decimal_nonempty(n as nat);
    lemma_decimal_digits(n as nat);
}

proof fn lemma_find_no_comma(s: Seq<u8>, lo: int, hi: int)
    requires
        0 <= lo <= hi <= s.len(),
        forall|k: int| lo <= k < hi ==> s[k] != 0x2c,
    ensures
        find_byte(s, 0x2c, lo, hi) == hi,
    decreases hi - lo,
{
    if lo < hi {
        lemma_find_no_comma(s, lo + 1, hi);
    }
}

/// A resize event's payload reads back as the size it was written for.
pub proof fn lemma_resize_payload_roundtrip(rows: u16, cols: u16)
    ensures
        spec_parse_resize(spec_resize_payload(rows, cols)) == Some((rows, cols)),
{
    let b = spec_resize_payload(rows, cols);
    let dr = decimal(rows as nat);
    let dc = decimal(cols as nat);
    lemma_decimal_digits(rows as nat);
    lemma_decimal_digits(cols as nat);
    let n = b.len() as int;
    let p = dr.len() as int;
    assert(b[p] == 0x2c);
    lemma_find_no_comma(b, 0, p);
    assert(find_byte(b, 0x2c, 0, p) == p);
    assert forall|k: int| 0 <= k < p implies b[k] != 0x2c by {
        assert(b[k] == dr[k]);
    }
    lemma_find_no_comma(b, 0, p);
    // find_byte(b, ',', 0, n) stops at p
    assert(find_byte(b, 0x2c, 0, n) == p) by {
        lemma_find_prefix(b, 0, p, n);
    }
    assert forall|k: int| p + 1 <= k < n implies b[k] != 0x2c by {
        assert(b[k] == dc[k - p - 1]);
    }
    lemma_find_no_comma(b, p + 1, n);
    assert(b.subrange(0, p) =~= dr);
    assert(b.subrange(p + 1, n) =~= dc);
    lemma_parse_decimal(rows);
    lemma_parse_decimal(cols);
}

proof fn lemma_find_prefix(s: Seq<u8>, lo: int, p: int, hi: int)
    requires
        0 <= lo <= p < hi <= s.len(),
        forall|k: int| lo <= k < p ==> s[k] != 0x2c,
        s[p] == 0x2c,
    ensures
        find_byte(s, 0x2c, lo, hi) == p,
    decreases p - lo,
{
    if lo < p {
        lemma_find_prefix(s, lo + 1, p, hi);
    }
}


/// Whether any event is a resize event.
pub open spec fn spec_has_resize(events: Seq<RecordingEvent>) -> bool {
    exists|i: int| 0 <= i < events.len() && #[trigger] events[i].dir@ == "resize"@
}

/// Whether the recording holds resize events.
pub fn has_resize_events(events: &[RecordingEvent]) -> (r: bool)
    ensures
        r == spec_has_resize(events@),
{
    let mut i: usize = 0;
    while i < events.len()
        invariant
            0 <= i <= events@.len(),
            forall|k: int| 0 <= k < i ==> #[trigger] events@[k].dir@ != "resize"@,
        decreases events@.len() - i,
    {
        if str_eq(events[i].dir.as_str(), "resize") {
            assert(events@[i as int].dir@ == "resize"@);
            return true;
        }
        i = i + 1;
    }
    false
}

/// The size a replay starts at, from the header (if any), whether the
/// recording has resize events, and the size inferred from all output.
pub fn replay_start_size(header: Option<&RecordingHeader>, events: &[RecordingEvent]) -> (r: (
    u16,
    u16,
))
    ensures
        r == spec_replay_size(
            match header {
                Some(h) => Some((h.rows, h.cols)),
                None => None,
            },
            spec_has_resize(events@),
            spec_heuristic_size(output_of(events@, events@.len() as int)),
        ),
{
    let all_out = dump_output(events);
    let heuristic = heuristic_size(all_out.as_slice());
    let has_resize = has_resize_events(events);
    let dims = match header {
        Some(h) => Some((h.rows, h.cols)),
        None => None,
    };
    replay_size(dims, has_resize, heuristic)
}

/// One thing a replay does for a group of events.
#[derive(Debug)]
pub enum ReplayStep {
    /// Feed these bytes to the terminal emulator and write its redraw.
    Render(Vec<u8>),
    /// Write these bytes as they are.
    Write(Vec<u8>),
    /// Resize the emulator (and the terminal, when output is one).
    Resize(u16, u16),
}

/// A replay step as values.
pub enum StepView {
    Render(Seq<u8>),
    Write(Seq<u8>),
    Resize(u16, u16),
}

pub open spec fn step_view(s: ReplayStep) -> StepView {
    match s {
        ReplayStep::Render(b) => StepView::Render(b@),
        ReplayStep::Write(b) => StepView::Write(b@),
        ReplayStep::Resize(r, c) => StepView::Resize(r, c),
    }
}

pub open spec fn steps_view(v: Seq<ReplayStep>) -> Seq<StepView> {
    v.map_values(|s: ReplayStep| step_view(s))
}

/// The size a resize event's data carries, when it decodes and reads as
/// `rows,cols`.
pub open spec fn resize_of(data: Seq<char>) -> Option<(u16, u16)> {
    match base64_decoded(data) {
        Some(b) => spec_parse_resize(b),
        None => None,
    }
}

/// The output pending and the steps taken after the events `i..k` of a
/// group: output accumulates; a resize event first renders what is
/// pending (alternate-screen replays only), then resizes when its size
/// reads; other events only pace the replay.
pub open spec fn fold_group(events: Seq<RecordingEvent>, i: int, k: int, alt: bool) -> (
    Seq<u8>,
    Seq<StepView>,
)
    decreases k - i,
{
    if k <= i {
        (Seq::empty(), Seq::empty())
    } else {
        let (buf, steps) = fold_group(events, i, k - 1, alt);
        let e = events[k - 1];
        if e.dir@ == "out"@ {
            (buf + decoded_or_empty(e.data@), steps)
        } else if e.dir@ == "resize"@ {
            let (buf2, steps2) = if alt && buf.len() > 0 {
                (Seq::empty(), steps.push(StepView::Render(buf)))
            } else {
                (buf, steps)
            };
            match resize_of(e.data@) {
                Some((r, c)) => (buf2, steps2.push(StepView::Resize(r, c))),
                None => (buf2, steps2),
            }
        } else {
            (buf, steps)
        }
    }
}

/// The steps for the group of events `i..=j`: those of the fold, then the
/// output still pending, if any: rendered through the emulator for an
/// alternate-screen recording, otherwise written with terminal queries
/// removed and doubled carriage returns collapsed.
pub open spec fn group_steps(events: Seq<RecordingEvent>, i: int, j: int, alt: bool) -> Seq<
    StepView,
> {
    let (buf, steps) = fold_group(events, i, j + 1, alt);
    if buf.len() == 0 {
        steps
    } else if alt {
        steps.push(StepView::Render(buf))
    } else {
        steps.push(StepView::Write(spec_normalize_crlf(spec_filter_query(buf))))
    }
}

fn append_bytes(out: &mut Vec<u8>, bytes: &[u8])
    ensures
        final(out)@ == old(out)@ + bytes@,
{
    let mut k: usize = 0;
    while k < bytes.len()
        invariant
            0 <= k <= bytes@.len(),
            out@ == old(out)@ + bytes@.subrange(0, k as int),
        decreases bytes@.len() - k,
    {
        out.push(bytes[k]);
        k = k + 1;
        assert(out@ =~= old(out)@ + bytes@.subrange(0, k as int));
    }
    assert(bytes@.subrange(0, k as int) =~= bytes@);
}

/// The group of events that starts at `i` (a burst whose events follow
/// each other within the merge threshold) and what the replay does for
/// it; returns the group's last index and the steps.
pub fn plan_replay_group(events: &[RecordingEvent], i: usize, alt: bool) -> (r: (
    usize,
    Vec<ReplayStep>,
))
    requires
        i < events@.len(),
    ensures
        r.0 == group_end(timestamps(events@), i as int),
        i <= r.0 < events@.len(),
        steps_view(r.1@) == group_steps(events@, i as int, r.0 as int, alt),
{
    let j = merge_group_end(events, i);
    let mut buf: Vec<u8> = Vec::new();
    let mut steps: Vec<ReplayStep> = Vec::new();
    let mut k: usize = i;
    while k <= j
        invariant
            i <= k <= j + 1,
            j < events@.len(),
            (buf@, steps_view(steps@)) == fold_group(events@, i as int, k as int, alt),
        decreases j + 1 - k,
    {
        let ev = &events[k];
        let ghost before_steps = steps@;
        if str_eq(ev.dir.as_str(), "out") {
            match decode_base64(ev.data.as_str()) {
                Some(bytes) => append_bytes(&mut buf, bytes.as_slice()),
                None => {
                    assert(buf@ + Seq::<u8>::empty() =~= buf@);
                },
            }
        } else if str_eq(ev.dir.as_str(), "resize") {
            if alt && buf.len() > 0 {
                let pending = buf;
                buf = Vec::new();
                steps.push(ReplayStep::Render(pending));
                assert(steps_view(steps@) =~= steps_view(before_steps).push(
                    StepView::Render(pending@),
                ));
            }
            let ghost mid_steps = steps@;
            match decode_base64(ev.data.as_str()) {
                Some(bytes) => match parse_resize_payload(bytes.as_slice()) {
                    Some((r, c)) => {
                        steps.push(ReplayStep::Resize(r, c));
                        assert(steps_view(steps@) =~= steps_view(mid_steps).push(
                            StepView::Resize(r, c),
                        ));
                    },
                    None => {},
                },
                None => {},
            }
        }
        k = k + 1;
    }
    let ghost before_steps = steps@;
    if buf.len() > 0 {
        if alt {
            steps.push(ReplayStep::Render(buf));
        } else {
            let filtered = filter_query_sequences(buf.as_slice());
            let normalized = normalize_crlf(filtered.as_slice());
            steps.push(ReplayStep::Write(normalized));
        }
        assert(steps_view(steps@) =~= steps_view(before_steps).push(step_view(steps@.last())));
    }
    (j, steps)
}


/// Passing the offsets (1, 1) leaves the stream byte for byte unchanged.
pub proof fn lemma_remap_identity(s: Seq<u8>)
    ensures
        spec_remap_coordinates(s, 1, 1) == s,
{
}

pub open spec fn has_double_cr(s: Seq<u8>) -> bool {
    exists|i: int| 0 <= i && i + 3 <= s.len() && #[trigger] s[i] == 0x0d && s[i + 1] == 0x0d && s[i + 2] == 0x0a
}

/// A stream without `\r\r\n` passes normalisation unchanged.
pub proof fn lemma_normalize_without_double_cr(s: Seq<u8>)
    requires
        !has_double_cr(s),
    ensures
        spec_normalize_crlf(s) == s,
    decreases s.len(),
{
    if s.len() > 0 {
        assert(!(s.len() >= 3 && s[0] == 0x0d && s[1] == 0x0d && s[2] == 0x0a)) by {
            if s.len() >= 3 && s[0] == 0x0d && s[1] == 0x0d && s[2] == 0x0a {
                assert(s[0] == 0x0d);
            }
        }
        let t = s.skip(1);
        assert(!has_double_cr(t)) by {
            if has_double_cr(t) {
                let i = choose|i: int| 0 <= i && i + 3 <= t.len() && #[trigger] t[i] == 0x0d && t[i + 1] == 0x0d && t[i + 2] == 0x0a;
                assert(s[i + 1] == 0x0d && s[i + 2] == 0x0d && s[i + 3] == 0x0a);
            }
        }
        lemma_normalize_without_double_cr(t);
        assert(s =~= seq![s[0]] + t);
    }
}

/// Normalisation never lengthens a stream.
pub proof fn lemma_normalize_not_longer(s: Seq<u8>)
    ensures
        spec_normalize_crlf(s).len() <= s.len(),
    decreases s.len(),
{
    if s.len() > 0 {
        if s.len() >= 3 && s[0] == 0x0d && s[1] == 0x0d && s[2] == 0x0a {
            lemma_normalize_not_longer(s.skip(3));
        } else {
            lemma_normalize_not_longer(s.skip(1));
        }
    }
}

/// Output without an escape byte passes the query filter unchanged.
pub proof fn lemma_filter_without_escape(s: Seq<u8>)
    requires
        forall|i: int| 0 <= i < s.len() ==> s[i] != 0x1b,
    ensures
        spec_filter_query(s) == s,
    decreases s.len(),
{
    if s.len() > 0 {
        let t = s.skip(1);
        assert forall|i: int| 0 <= i < t.len() implies t[i] != 0x1b by {
            assert(t[i] == s[i + 1]);
        }
        lemma_filter_without_escape(t);
        assert(s =~= seq![s[0]] + t);
    }
}

/// The bytes of the `out` events among `events[i..k]`, in order.
pub open spec fn group_output(events: Seq<RecordingEvent>, i: int, k: int) -> Seq<u8>
    decreases k - i,
{
    if k <= i {
        Seq::empty()
    } else if events[k - 1].dir@ == "out"@ {
        group_output(events, i, k - 1) + decoded_or_empty(events[k - 1].data@)
    } else {
        group_output(events, i, k - 1)
    }
}

/// The bytes handed to the emulator by the render steps, in order.
pub open spec fn rendered(steps: Seq<StepView>) -> Seq<u8>
    decreases steps.len(),
{
    if steps.len() == 0 {
        Seq::empty()
    } else {
        match steps.last() {
            StepView::Render(b) => rendered(steps.drop_last()) + b,
            _ => rendered(steps.drop_last()),
        }
    }
}

proof fn lemma_fold_accounts(events: Seq<RecordingEvent>, i: int, k: int)
    requires
        i <= k,
    ensures
        rendered(fold_group(events, i, k, true).1) + fold_group(events, i, k, true).0
            == group_output(events, i, k),
    decreases k - i,
{
    if k > i {
        lemma_fold_accounts(events, i, k - 1);
        let (buf, steps) = fold_group(events, i, k - 1, true);
        let e = events[k - 1];
        if e.dir@ == "out"@ {
            assert(rendered(steps) + (buf + decoded_or_empty(e.data@)) =~= (rendered(steps) + buf)
                + decoded_or_empty(e.data@));
        } else if e.dir@ == "resize"@ {
            let (buf2, steps2) = if buf.len() > 0 {
                (Seq::<u8>::empty(), steps.push(StepView::Render(buf)))
            } else {
                (buf, steps)
            };
            if buf.len() > 0 {
                assert(steps2.drop_last() =~= steps);
                assert(rendered(steps2) == rendered(steps) + buf);
                assert(rendered(steps2) + buf2 =~= rendered(steps) + buf);
            }
            match resize_of(e.data@) {
                Some((r, c)) => {
                    let s3 = steps2.push(StepView::Resize(r, c));
                    assert(s3.drop_last() =~= steps2);
                },
                None => {},
            }
        }
    }
}

/// For an alternate-screen replay, the render steps of a group hand the
/// emulator every output byte of the group's events exactly once, in
/// order: merging a burst loses and repeats nothing.
pub proof fn lemma_group_renders_all_output(events: Seq<RecordingEvent>, i: int, j: int)
    requires
        i <= j,
    ensures
        rendered(group_steps(events, i, j, true)) == group_output(events, i, j + 1),
{
    lemma_fold_accounts(events, i, j + 1);
    let (buf, steps) = fold_group(events, i, j + 1, true);
    if buf.len() > 0 {
        let s2 = steps.push(StepView::Render(buf));
        assert(s2.drop_last() =~= steps);
    } else {
        assert(rendered(steps) + buf =~= rendered(steps));
    }
}

/// What a replay reads back of a recorded event: the bytes of an output
/// event, and the size of a resize event recorded with its payload.
pub proof fn lemma_recorded_events_replay(e: RecordingEvent, bytes: Seq<u8>, rows: u16, cols: u16)
    ensures
        e.dir@ == "out"@ && base64_decoded(e.data@) == Some(bytes) ==> spec_event_action(e) == Some(
            Ok::<Seq<u8>, (u16, u16)>(bytes),
        ),
        e.dir@ == "resize"@ && base64_decoded(e.data@) == Some(spec_resize_payload(rows, cols))
            ==> spec_event_action(e) == Some(Err::<Seq<u8>, (u16, u16)>((rows, cols))),
{
    lemma_resize_payload_roundtrip(rows, cols);
    reveal_strlit("out");
    reveal_strlit("resize");
    assert("resize"@.len() != "out"@.len());
    if e.dir@ == "resize"@ && base64_decoded(e.data@) == Some(spec_resize_payload(rows, cols)) {
        assert(e.dir@ != "out"@);
        assert(base64_decoded(e.data@)->0 == spec_resize_payload(rows, cols));
        assert(spec_parse_resize(spec_resize_payload(rows, cols)) == Some((rows, cols)));
    }
}


pub open spec fn has_dcs_introducer(s: Seq<u8>) -> bool {
    exists|i: int| 0 <= i && i + 1 < s.len() && #[trigger] s[i] == 0x1b && s[i + 1] == 0x50
}

/// On output without a DCS introducer (`ESC P`), the query filter and DSR
/// stripping agree: both delete each `ESC [ 6 n`, left to right, and keep
/// every other byte in order.
pub proof fn lemma_filter_agrees_with_strip_dsr(s: Seq<u8>)
    requires
        !has_dcs_introducer(s),
    ensures
        spec_filter_query(s) == crate::attach::spec_strip_dsr(s),
    decreases s.len(),
{
    if s.len() > 0 {
        assert(!(s.len() >= 2 && s[0] == 0x1b && s[1] == 0x50)) by {
            if s.len() >= 2 && s[0] == 0x1b && s[1] == 0x50 {
                assert(s[0] == 0x1b);
            }
        }
        assert(starts_with_dsr(s) == crate::attach::dsr_at(s, 0));
        let k: int = if starts_with_dsr(s) {
            4
        } else {
            1
        };
        let t = s.skip(k);
        assert(!has_dcs_introducer(t)) by {
            if has_dcs_introducer(t) {
                let i = choose|i: int| 0 <= i && i + 1 < t.len() && #[trigger] t[i] == 0x1b && t[i + 1] == 0x50;
                assert(s[i + k] == 0x1b && s[i + k + 1] == 0x50);
            }
        }
        lemma_filter_agrees_with_strip_dsr(t);
    }
}

/// Whether input typed during a replay stops it: Ctrl-D or `q`.
pub fn replay_stop_input(data: &[u8]) -> (r: bool)
    ensures
        r == (data@.contains(0x04u8) || data@.contains(0x71u8)),
{
    crate::server::contains_byte(data, 0x04) || crate::server::contains_byte(data, 0x71)
}

// ---- Remapping twice is remapping once by the combined offsets. ----

proof fn lemma_csi_end_at(s: Seq<u8>, a: int, e: int)
    requires
        0 <= a <= e <= s.len(),
        forall|m: int| a <= m < e ==> is_param_byte(#[trigger] s[m]),
        e < s.len() ==> !is_param_byte(s[e]),
    ensures
        csi_end(s, a) == e,
    decreases e - a,
{
    if a < e {
        lemma_csi_end_at(s, a + 1, e);
    }
}

proof fn lemma_csi_end_shift(x: Seq<u8>, b: Seq<u8>, m: int)
    requires
        0 <= m <= b.len(),
    ensures
        csi_end(x + b, x.len() + m) == x.len() + csi_end(b, m),
    decreases b.len() - m,
{
    if m < b.len() {
        assert((x + b)[x.len() + m] == b[m]);
        if is_param_byte(b[m]) {
            lemma_csi_end_shift(x, b, m + 1);
        }
    }
}

proof fn lemma_find_byte_shift(x: Seq<u8>, b: Seq<u8>, c: u8, lo: int, hi: int)
    requires
        0 <= lo <= hi <= b.len(),
    ensures
        find_byte(x + b, c, x.len() + lo, x.len() + hi) == x.len() + find_byte(b, c, lo, hi),
    decreases hi - lo,
{
    if lo < hi {
        assert((x + b)[x.len() + lo] == b[lo]);
        if b[lo] != c {
            lemma_find_byte_shift(x, b, c, lo + 1, hi);
        }
    }
}

proof fn lemma_find_semicolon_at(s: Seq<u8>, lo: int, p: int, hi: int)
    requires
        0 <= lo <= p < hi <= s.len(),
        forall|k: int| lo <= k < p ==> s[k] != 0x3b,
        s[p] == 0x3b,
    ensures
        find_byte(s, 0x3b, lo, hi) == p,
    decreases p - lo,
{
    if lo < p {
        lemma_find_semicolon_at(s, lo + 1, p, hi);
    }
}

proof fn lemma_piece_shift(x: Seq<u8>, b: Seq<u8>, i: int, j: int, ro: u16, co: u16)
    requires
        0 <= i,
        i + 2 <= j < b.len(),
    ensures
        remap_piece(x + b, x.len() + i, x.len() + j, ro, co) == remap_piece(b, i, j, ro, co),
{
    let t = x + b;
    let n = x.len() as int;
    lemma_find_byte_bounds(b, 0x3b, i + 2, j);
    lemma_find_byte_shift(x, b, 0x3b, i + 2, j);
    let p = find_byte(b, 0x3b, i + 2, j);
    assert(t.subrange(n + i + 2, n + p) =~= b.subrange(i + 2, p));
    if p < j {
        assert(t.subrange(n + p + 1, n + j) =~= b.subrange(p + 1, j));
    }
    assert(t.subrange(n + i, n + j + 1) =~= b.subrange(i, j + 1));
    assert(t[n + j] == b[j]);
}

proof fn lemma_remap_shift(x: Seq<u8>, b: Seq<u8>, i: int, ro: u16, co: u16)
    requires
        0 <= i <= b.len(),
    ensures
        remap_from(x + b, x.len() + i, ro, co) == remap_from(b, i, ro, co),
    decreases b.len() - i,
{
    let t = x + b;
    let n = x.len() as int;
    if i < b.len() {
        assert(t[n + i] == b[i]);
        if i + 1 < b.len() {
            assert(t[n + i + 1] == b[i + 1]);
        }
        if b[i] != 0x1b || i + 1 >= b.len() || b[i + 1] != 0x5b {
            lemma_remap_shift(x, b, i + 1, ro, co);
        } else {
            lemma_csi_end_shift(x, b, i + 2);
            lemma_csi_end_bounds(b, i + 2);
            let j = csi_end(b, i + 2);
            if j >= b.len() {
                assert(t.subrange(n + i, t.len() as int) =~= b.subrange(i, b.len() as int));
            } else {
                lemma_piece_shift(x, b, i, j, ro, co);
                lemma_remap_shift(x, b, j + 1, ro, co);
            }
        }
    }
}

proof fn lemma_remap_first(s: Seq<u8>, k: int, ro: u16, co: u16)
    requires
        0 <= k < s.len(),
    ensures
        remap_from(s, k, ro, co).len() > 0,
        remap_from(s, k, ro, co)[0] == s[k],
{
    if !(s[k] != 0x1b || k + 1 >= s.len() || s[k + 1] != 0x5b) {
        lemma_csi_end_bounds(s, k + 2);
        let j = csi_end(s, k + 2);
        if j < s.len() {
            let piece = remap_piece(s, k, j, ro, co);
            assert(piece.len() > 0 && piece[0] == 0x1b);
        }
    }
}

pub open spec fn compose_offset(a: u16, b: u16) -> u16 {
    (a + b - 1) as u16
}

proof fn lemma_piece_twice(
    s: Seq<u8>,
    k: int,
    j: int,
    b: Seq<u8>,
    r1: u16,
    c1: u16,
    r2: u16,
    c2: u16,
)
    requires
        0 <= k,
        k + 2 <= j < s.len(),
        s[k] == 0x1b,
        s[k + 1] == 0x5b,
        j == csi_end(s, k + 2),
        r1 >= 1,
        c1 >= 1,
        r2 >= 1,
        c2 >= 1,
        r1 + r2 - 1 <= 65535,
        c1 + c2 - 1 <= 65535,
    ensures
        remap_from(remap_piece(s, k, j, r1, c1) + b, 0, r2, c2) == remap_piece(
            s,
            k,
            j,
            compose_offset(r1, r2),
            compose_offset(c1, c2),
        ) + remap_from(b, 0, r2, c2),
{
    let piece = remap_piece(s, k, j, r1, c1);
    let t = piece + b;
    let fb = s[j];
    lemma_csi_end_bounds(s, k + 2);
    if fb == 0x48 || fb == 0x66 || fb == 0x72 {
        let first = param_or_one(first_param(s, k + 2, j));
        let second = param_or_one(second_param(s, k + 2, j));
        let a = sat_add_u16(first, r1 - 1);
        let c = if fb == 0x72 {
            sat_add_u16(second, r1 - 1)
        } else {
            sat_add_u16(second, c1 - 1)
        };
        let da = decimal(a as nat);
        let dc = decimal(c as nat);
        assert(piece == two_param_csi(a as nat, c as nat, fb));
        lemma_decimal_digits(a as nat);
        lemma_decimal_digits(c as nat);
        lemma_decimal_nonempty(a as nat);
        lemma_decimal_nonempty(c as nat);
        let p: int = 2 + da.len() as int;
        let e: int = p + 1 + dc.len() as int;
        assert(piece.len() == e + 1);
        assert forall|m: int| 2 <= m < p implies t[m] == da[m - 2] by {}
        assert forall|m: int| p + 1 <= m < e implies t[m] == dc[m - p - 1] by {}
        assert(t[p] == 0x3b);
        assert(t[e] == fb);
        assert forall|m: int| 2 <= m < e implies is_param_byte(#[trigger] t[m]) by {
            if m < p {
                assert(t[m] == da[m - 2]);
            } else if m > p {
                assert(t[m] == dc[m - p - 1]);
            }
        }
        lemma_csi_end_at(t, 2, e);
        assert forall|m: int| 2 <= m < p implies t[m] != 0x3b by {
            assert(t[m] == da[m - 2]);
        }
        lemma_find_semicolon_at(t, 2, p, e);
        assert(t.subrange(2, p) =~= da);
        assert(t.subrange(p + 1, e) =~= dc);
        lemma_parse_decimal(a);
        lemma_parse_decimal(c);
        assert(t[0] == 0x1b && t[1] == 0x5b);
        assert(remap_from(t, 0, r2, c2) == remap_piece(t, 0, e, r2, c2) + remap_from(
            t,
            e + 1,
            r2,
            c2,
        ));
        lemma_remap_shift(piece, b, 0, r2, c2);
        assert(piece + b == t);
    } else {
        assert(piece == s.subrange(k, j + 1));
        let e = j - k;
        assert forall|m: int| 2 <= m < e implies is_param_byte(#[trigger] t[m]) by {
            assert(t[m] == s[k + m]);
        }
        assert(t[e] == s[j]);
        lemma_csi_end_at(t, 2, e);
        assert(t[0] == 0x1b && t[1] == 0x5b);
        assert(t.subrange(0, e + 1) =~= piece);
        lemma_remap_shift(piece, b, 0, r2, c2);
    }
}

proof fn lemma_remap_twice_from(s: Seq<u8>, k: int, r1: u16, c1: u16, r2: u16, c2: u16)
    requires
        0 <= k <= s.len(),
        r1 >= 1,
        c1 >= 1,
        r2 >= 1,
        c2 >= 1,
        r1 + r2 - 1 <= 65535,
        c1 + c2 - 1 <= 65535,
    ensures
        remap_from(remap_from(s, k, r1, c1), 0, r2, c2) == remap_from(
            s,
            k,
            compose_offset(r1, r2),
            compose_offset(c1, c2),
        ),
    decreases s.len() - k,
{
    let rr = compose_offset(r1, r2);
    let cc = compose_offset(c1, c2);
    if k < s.len() {
        if s[k] != 0x1b || k + 1 >= s.len() || s[k + 1] != 0x5b {
            let rest = remap_from(s, k + 1, r1, c1);
            let t = seq![s[k]] + rest;
            lemma_remap_twice_from(s, k + 1, r1, c1, r2, c2);
            lemma_remap_shift(seq![s[k]], rest, 0, r2, c2);
            assert(rest.skip(0) == rest);
            if k + 1 < s.len() {
                lemma_remap_first(s, k + 1, r1, c1);
                assert(t[1] == s[k + 1]);
            } else {
                assert(rest.len() == 0);
            }
            assert(t[0] == s[k]);
            assert(remap_from(t, 0, r2, c2) == seq![s[k]] + remap_from(t, 1, r2, c2));
        } else {
            lemma_csi_end_bounds(s, k + 2);
            let j = csi_end(s, k + 2);
            if j >= s.len() {
                let a = s.subrange(k, s.len() as int);
                assert forall|m: int| 2 <= m < a.len() implies is_param_byte(#[trigger] a[m]) by {
                    assert(a[m] == s[k + m]);
                }
                lemma_csi_end_at(a, 2, a.len() as int);
                assert(a.subrange(0, a.len() as int) =~= a);
            } else {
                lemma_remap_twice_from(s, j + 1, r1, c1, r2, c2);
                lemma_piece_twice(s, k, j, remap_from(s, j + 1, r1, c1), r1, c1, r2, c2);
            }
        }
    }
}

/// Remapping by one pair of offsets and then by another is remapping once
/// by the combined offsets (offsets are 1-based, so they combine as
/// `a + b - 1`), as long as the combined offsets fit in a `u16`.
pub proof fn lemma_remap_compose(s: Seq<u8>, r1: u16, c1: u16, r2: u16, c2: u16)
    requires
        r1 >= 1,
        c1 >= 1,
        r2 >= 1,
        c2 >= 1,
        r1 + r2 - 1 <= 65535,
        c1 + c2 - 1 <= 65535,
    ensures
        spec_remap_coordinates(spec_remap_coordinates(s, r1, c1), r2, c2)
            == spec_remap_coordinates(s, compose_offset(r1, r2), compose_offset(c1, c2)),
{
    if !(r1 == 1 && c1 == 1) && !(r2 == 1 && c2 == 1) {
        lemma_remap_twice_from(s, 0, r1, c1, r2, c2);
    }
}

} // verus!
