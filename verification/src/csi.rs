//! Scanning helpers for CSI escape sequences (`ESC [ params final`).
use crate::text::{parse_u16_at, spec_parse_u16};
use vstd::prelude::*;

verus! {

pub open spec fn is_param_byte(b: u8) -> bool {
    0x20 <= b <= 0x3f
}

/// The index of the first byte at or after `j` that is not a parameter
/// byte, or the length of `s` when there is none.
pub open spec fn csi_end(s: Seq<u8>, j: int) -> int
    decreases s.len() - j,
{
    if j >= s.len() || j < 0 {
        if j < 0 {
            0
        } else {
            s.len() as int
        }
    } else if is_param_byte(s[j]) {
        csi_end(s, j + 1)
    } else {
        j
    }
}

/// The index of the first byte `b` in `s[lo..hi]`, or `hi` when there is none.
pub open spec fn find_byte(s: Seq<u8>, b: u8, lo: int, hi: int) -> int
    decreases hi - lo,
{
    if lo >= hi {
        hi
    } else if s[lo] == b {
        lo
    } else {
        find_byte(s, b, lo + 1, hi)
    }
}

pub proof fn lemma_csi_end_bounds(s: Seq<u8>, j: int)
    requires
        0 <= j <= s.len(),
    ensures
        j <= csi_end(s, j) <= s.len(),
        forall|k: int| j <= k < csi_end(s, j) ==> is_param_byte(#[trigger] s[k]),
        csi_end(s, j) < s.len() ==> !is_param_byte(s[csi_end(s, j)]),
    decreases s.len() - j,
{
    if j < s.len() && is_param_byte(s[j]) {
        lemma_csi_end_bounds(s, j + 1);
    }
}

pub proof fn lemma_find_byte_bounds(s: Seq<u8>, b: u8, lo: int, hi: int)
    requires
        0 <= lo <= hi <= s.len(),
    ensures
        lo <= find_byte(s, b, lo, hi) <= hi,
        find_byte(s, b, lo, hi) < hi ==> s[find_byte(s, b, lo, hi)] == b,
    decreases hi - lo,
{
    if lo < hi && s[lo] != b {
        lemma_find_byte_bounds(s, b, lo + 1, hi);
    }
}

/// Index of the first byte at or after `j` that is not a CSI parameter byte.
pub fn scan_csi_end(buf: &[u8], j: usize) -> (r: usize)
    requires
        j <= buf@.len(),
    ensures
        r == csi_end(buf@, j as int),
        j <= r <= buf@.len(),
{
    proof {
        lemma_csi_end_bounds(buf@, j as int);
    }
    let mut k = j;
    while k < buf.len() && buf[k] >= 0x20 && buf[k] <= 0x3f
        invariant
            j <= k <= buf@.len(),
            csi_end(buf@, k as int) == csi_end(buf@, j as int),
        decreases buf@.len() - k,
    {
        k = k + 1;
    }
    k
}

/// Index of the first `b` in `buf[lo..hi]`, or `hi`.
pub fn scan_byte(buf: &[u8], b: u8, lo: usize, hi: usize) -> (r: usize)
    requires
        lo <= hi <= buf@.len(),
    ensures
        r == find_byte(buf@, b, lo as int, hi as int),
        lo <= r <= hi,
{
    proof {
        lemma_find_byte_bounds(buf@, b, lo as int, hi as int);
    }
    let mut k = lo;
    while k < hi && buf[k] != b
        invariant
            lo <= k <= hi <= buf@.len(),
            find_byte(buf@, b, k as int, hi as int) == find_byte(buf@, b, lo as int, hi as int),
        decreases hi - k,
    {
        k = k + 1;
    }
    k
}

/// The number before the first `;` of a parameter string, as
/// `splitn(2, ';')` followed by `parse::<u16>` reads it.
pub open spec fn first_param(s: Seq<u8>, lo: int, hi: int) -> Option<u16> {
    spec_parse_u16(s.subrange(lo, find_byte(s, 0x3b, lo, hi)))
}

/// The text after the first `;` of a parameter string, parsed as a `u16`;
/// `None` when there is no `;` or the text is not such a number.
pub open spec fn second_param(s: Seq<u8>, lo: int, hi: int) -> Option<u16> {
    let p = find_byte(s, 0x3b, lo, hi);
    if p < hi {
        spec_parse_u16(s.subrange(p + 1, hi))
    } else {
        None
    }
}

/// Reads the two leading parameters of `buf[lo..hi]`.
pub fn read_two_params(buf: &[u8], lo: usize, hi: usize) -> (r: (Option<u16>, Option<u16>))
    requires
        lo <= hi <= buf@.len(),
    ensures
        r.0 == first_param(buf@, lo as int, hi as int),
        r.1 == second_param(buf@, lo as int, hi as int),
{
    let p = scan_byte(buf, 0x3b, lo, hi);
    let first = parse_u16_at(buf, lo, p);
    let second = if p < hi {
        parse_u16_at(buf, p + 1, hi)
    } else {
        None
    };
    (first, second)
}

} // verus!
