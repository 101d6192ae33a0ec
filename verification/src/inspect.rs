//! Inspecting terminal output as a test harness does: the last cursor
//! position it sets, whether it ends in a cut-off escape sequence, whether
//! it holds given bytes or text, and hex dumps.
use crate::csi::find_byte;
use crate::pattern::{lossy_text, utf8_lossy};
use crate::protocol::Response;
use crate::text::{all_digits, digits_value, is_digit, lemma_digits_value_prefix, push_char, string_of};
use vstd::prelude::*;
use vstd::string::*;

verus! {

/// Which data path a render check reads.
#[derive(Debug, Clone, Copy)]
pub enum RenderPath {
    /// Attach raw stream: raw bytes must hold the full escape sequences.
    Attach,
    /// `read`: the output field must hold the full escape sequences.
    ReadRaw,
    /// `read --screen`: the parsed screen text and cursor position.
    ReadScreen,
}

pub open spec fn is_cup_byte(b: u8) -> bool {
    is_digit(b) || b == 0x3b
}

/// The first index at or after `j` whose byte is neither a digit nor `;`.
pub open spec fn cup_end(s: Seq<u8>, j: int) -> int
    decreases s.len() - j,
{
    if j < 0 || j >= s.len() {
        if j < 0 {
            0
        } else {
            s.len() as int
        }
    } else if is_cup_byte(s[j]) {
        cup_end(s, j + 1)
    } else {
        j
    }
}

proof fn lemma_cup_end_bounds(s: Seq<u8>, j: int)
    requires
        0 <= j <= s.len(),
    ensures
        j <= cup_end(s, j) <= s.len(),
        forall|k: int| j <= k < cup_end(s, j) ==> is_cup_byte(#[trigger] s[k]),
        cup_end(s, j) < s.len() ==> !is_cup_byte(s[cup_end(s, j)]),
    decreases s.len() - j,
{
    if j < s.len() && is_cup_byte(s[j]) {
        lemma_cup_end_bounds(s, j + 1);
    }
}

/// Whether `ESC [ digits-and-semicolons H` starts at `i`.
pub open spec fn cup_at(s: Seq<u8>, i: int) -> bool {
    0 <= i && i + 2 < s.len() && s[i] == 0x1b && s[i + 1] == 0x5b && cup_end(s, i + 2) < s.len()
        && s[cup_end(s, i + 2)] == 0x48
}

/// A coordinate field as `str::parse::<usize>` reads it, 1 when it does not.
pub open spec fn field_value(f: Seq<u8>) -> usize {
    if f.len() > 0 && all_digits(f) && digits_value(f) <= usize::MAX {
        digits_value(f) as usize
    } else {
        1
    }
}

/// The row and column of the sequence at `i`: its first two
/// `;`-separated fields, 1 for a missing or unreadable one.
pub open spec fn cup_value(s: Seq<u8>, i: int) -> (usize, usize) {
    let j = cup_end(s, i + 2);
    let p = find_byte(s, 0x3b, i + 2, j);
    let row = field_value(s.subrange(i + 2, p));
    let col = if p < j {
        field_value(s.subrange(p + 1, find_byte(s, 0x3b, p + 1, j)))
    } else {
        1
    };
    (row, col)
}

/// The position set by the last cursor-position sequence starting at or
/// before `i`.
pub open spec fn last_cup_from(s: Seq<u8>, i: int) -> Option<(usize, usize)>
    decreases i + 1,
{
    if i < 0 {
        None
    } else if cup_at(s, i) {
        Some(cup_value(s, i))
    } else {
        last_cup_from(s, i - 1)
    }
}

/// Reads `s[lo..hi]` (digits only) as `str::parse::<usize>` would, 1 when
/// it does not parse.
fn parse_field(s: &[u8], lo: usize, hi: usize) -> (r: usize)
    requires
        lo <= hi <= s@.len(),
        forall|k: int| lo <= k < hi ==> is_digit(#[trigger] s@[k]),
    ensures
        r == field_value(s@.subrange(lo as int, hi as int)),
{
    let ghost f = s@.subrange(lo as int, hi as int);
    assert(all_digits(f));
    if lo == hi {
        return 1;
    }
    let mut acc: u128 = 0;
    let mut k: usize = lo;
    while k < hi
        invariant
            lo <= k <= hi <= s@.len(),
            f == s@.subrange(lo as int, hi as int),
            all_digits(f),
            acc as nat == digits_value(s@.subrange(lo as int, k as int)),
            acc <= usize::MAX,
        decreases hi - k,
    {
        let ghost prev = s@.subrange(lo as int, k as int);
        assert(is_digit(f[k - lo]));
        acc = acc * 10 + (s[k] - 48) as u128;
        k = k + 1;
        assert(s@.subrange(lo as int, k as int).drop_last() =~= prev);
        if acc > usize::MAX as u128 {
            proof {
                assert(f.subrange(0, k - lo) =~= s@.subrange(lo as int, k as int));
                lemma_digits_value_prefix(f, k - lo);
            }
            return 1;
        }
    }
    assert(s@.subrange(lo as int, k as int) =~= f);
    acc as usize
}

fn scan_cup_end(s: &[u8], j: usize) -> (r: usize)
    requires
        j <= s@.len(),
    ensures
        r == cup_end(s@, j as int),
{
    proof {
        lemma_cup_end_bounds(s@, j as int);
    }
    let mut k = j;
    while k < s.len() && ((48 <= s[k] && s[k] <= 57) || s[k] == 0x3b)
        invariant
            j <= k <= s@.len(),
            cup_end(s@, k as int) == cup_end(s@, j as int),
        decreases s@.len() - k,
    {
        k = k + 1;
    }
    k
}

fn scan_semicolon(s: &[u8], lo: usize, hi: usize) -> (r: usize)
    requires
        lo <= hi <= s@.len(),
    ensures
        r == find_byte(s@, 0x3b, lo as int, hi as int),
        lo <= r <= hi,
        forall|k: int| lo <= k < r ==> s@[k] != 0x3b,
{
    let mut k = lo;
    while k < hi && s[k] != 0x3b
        invariant
            lo <= k <= hi,
            hi <= s@.len(),
            find_byte(s@, 0x3b, k as int, hi as int) == find_byte(s@, 0x3b, lo as int, hi as int),
            forall|m: int| lo <= m < k ==> s@[m] != 0x3b,
        decreases hi - k,
    {
        k = k + 1;
    }
    k
}

/// Find the last CSI cursor-position sequence `ESC[row;colH` in a byte
/// slice. Returns `(row, col)` (1-based) or `None`.
pub fn last_cursor_pos(bytes: &[u8]) -> (r: Option<(usize, usize)>)
    ensures
        r == last_cup_from(bytes@, bytes@.len() - 1),
{
    let n = bytes.len();
    if n == 0 {
        return None;
    }
    let mut i: usize = n - 1;
    loop
        invariant
            0 <= i < n,
            n == bytes@.len(),
            last_cup_from(bytes@, bytes@.len() - 1) == last_cup_from(bytes@, i as int),
        decreases i,
    {
        if n >= 2 && i < n - 2 && bytes[i] == 0x1b && bytes[i + 1] == 0x5b {
            let j = scan_cup_end(bytes, i + 2);
            proof {
                lemma_cup_end_bounds(bytes@, i + 2);
            }
            if j < n && bytes[j] == 0x48 {
                let p = scan_semicolon(bytes, i + 2, j);
                let row = parse_field(bytes, i + 2, p);
                let col = if p < j {
                    let q = scan_semicolon(bytes, p + 1, j);
                    parse_field(bytes, p + 1, q)
                } else {
                    1
                };
                return Some((row, col));
            }
        }
        assert(!cup_at(bytes@, i as int));
        if i == 0 {
            assert(last_cup_from(bytes@, -1) is None);
            return None;
        }
        i = i - 1;
    }
}

/// Whether output ends in a cut-off escape sequence: a bare `ESC`, or
/// `ESC [` without its final byte.
pub fn ends_with_truncated_escape(bytes: &[u8]) -> (r: bool)
    ensures
        r == ((bytes@.len() >= 1 && bytes@.last() == 0x1b) || (bytes@.len() >= 2
            && bytes@[bytes@.len() - 2] == 0x1b && bytes@.last() == 0x5b)),
{
    let n = bytes.len();
    (n >= 1 && bytes[n - 1] == 0x1b) || (n >= 2 && bytes[n - 2] == 0x1b && bytes[n - 1] == 0x5b)
}

/// Whether `needle` occurs in `hay` as a contiguous run.
pub open spec fn holds_run(hay: Seq<u8>, needle: Seq<u8>) -> bool {
    exists|i: int|
        0 <= i && i + needle.len() <= hay.len() && #[trigger] hay.subrange(i, i + needle.len())
            == needle
}

/// Whether raw bytes hold the given escape sequence (a window of the
/// needle's length equal to it).
pub fn contains_escape(bytes: &[u8], needle: &[u8]) -> (r: bool)
    requires
        needle@.len() > 0,
    ensures
        r == holds_run(bytes@, needle@),
{
    let n = bytes.len();
    let m = needle.len();
    if m > n {
        return false;
    }
    let mut i: usize = 0;
    while i <= n - m
        invariant
            0 <= i <= n - m + 1,
            0 < m <= n,
            n == bytes@.len(),
            m == needle@.len(),
            forall|k: int| 0 <= k < i ==> #[trigger] bytes@.subrange(k, k + m) != needle@,
        decreases n - m + 1 - i,
    {
        let mut j: usize = 0;
        while j < m && bytes[i + j] == needle[j]
            invariant
                0 <= j <= m,
                i + m <= n,
                n == bytes@.len(),
                m == needle@.len(),
                forall|q: int| 0 <= q < j ==> bytes@[i + q] == needle@[q],
            decreases m - j,
        {
            j = j + 1;
        }
        if j == m {
            assert(bytes@.subrange(i as int, i + m) =~= needle@);
            return true;
        }
        assert(bytes@.subrange(i as int, i + m)[j as int] != needle@[j as int]);
        i = i + 1;
    }
    false
}

/// Whether `needle` occurs in `hay`.
pub open spec fn holds_text(hay: Seq<char>, needle: Seq<char>) -> bool {
    exists|i: int|
        0 <= i && i + needle.len() <= hay.len() && #[trigger] hay.subrange(i, i + needle.len())
            == needle
}

fn find_chars(hay: &str, needle: &str) -> (r: bool)
    ensures
        r == holds_text(hay@, needle@),
{
    let n = hay.unicode_len();
    let m = needle.unicode_len();
    if m > n {
        return false;
    }
    let mut i: usize = 0;
    while i <= n - m
        invariant
            0 <= i <= n - m + 1,
            m <= n,
            n == hay@.len(),
            m == needle@.len(),
            forall|k: int| 0 <= k < i ==> #[trigger] hay@.subrange(k, k + m) != needle@,
        decreases n - m + 1 - i,
    {
        let mut j: usize = 0;
        while j < m && hay.get_char(i + j) == needle.get_char(j)
            invariant
                0 <= j <= m,
                i + m <= n,
                n == hay@.len(),
                m == needle@.len(),
                forall|q: int| 0 <= q < j ==> hay@[i + q] == needle@[q],
            decreases m - j,
        {
            j = j + 1;
        }
        if j == m {
            assert(hay@.subrange(i as int, i + m) =~= needle@);
            return true;
        }
        assert(hay@.subrange(i as int, i + m)[j as int] != needle@[j as int]);
        i = i + 1;
    }
    false
}

/// Whether output, read as UTF-8 with invalid sequences replaced, holds
/// the given text.
pub fn contains_output_text(bytes: &[u8], text: &str) -> (r: bool)
    ensures
        r == holds_text(utf8_lossy(bytes@), text@),
{
    let output = lossy_text(bytes);
    find_chars(output.as_str(), text)
}

/// The session id a response names.
pub fn session_id(resp: &Response) -> (r: String)
    requires
        resp.session_id is Some,
    ensures
        resp.session_id matches Some(id) && r@ == id@,
{
    match &resp.session_id {
        Some(id) => string_of(id.as_str()),
        None => String::new(),
    }
}

/// The lowercase hexadecimal digit for `d` (below 16).
pub open spec fn hex_digit(d: nat) -> char {
    if d < 10 {
        (48 + d) as char
    } else {
        (87 + d) as char
    }
}

/// A byte as two lowercase hexadecimal digits.
pub open spec fn hex_byte(b: u8) -> Seq<char> {
    seq![hex_digit((b / 16) as nat), hex_digit((b % 16) as nat)]
}

/// The bytes in hex, separated by single spaces.
pub open spec fn hex_join(bs: Seq<u8>) -> Seq<char>
    decreases bs.len(),
{
    if bs.len() == 0 {
        Seq::empty()
    } else if bs.len() == 1 {
        hex_byte(bs[0])
    } else {
        hex_join(bs.drop_last()) + seq![' '] + hex_byte(bs.last())
    }
}

fn hex_digit_char(d: u8) -> (c: char)
    requires
        d < 16,
    ensures
        c == hex_digit(d as nat),
{
    if d < 10 {
        ((48 + d) as u8) as char
    } else {
        ((87 + d) as u8) as char
    }
}

/// Hex dump of the first 200 bytes.
pub fn hex_dump(data: &[u8]) -> (r: String)
    ensures
        r@ == hex_join(data@.take(if data@.len() < 200 {
            data@.len() as int
        } else {
            200
        })),
{
    let limit: usize = if data.len() < 200 {
        data.len()
    } else {
        200
    };
    let mut out = String::new();
    let mut k: usize = 0;
    while k < limit
        invariant
            0 <= k <= limit,
            limit <= data@.len(),
            out@ == hex_join(data@.take(k as int)),
        decreases limit - k,
    {
        let b = data[k];
        let ghost before = out@;
        if k > 0 {
            push_char(&mut out, ' ');
        }
        push_char(&mut out, hex_digit_char(b / 16));
        push_char(&mut out, hex_digit_char(b % 16));
        proof {
            let t = data@.take(k + 1);
            assert(t.drop_last() =~= data@.take(k as int));
            assert(t.last() == b);
            if k == 0 {
                assert(out@ =~= hex_byte(b));
            } else {
                assert(out@ =~= before + seq![' '] + hex_byte(b));
            }
        }
        k = k + 1;
    }
    out
}

} // verus!
