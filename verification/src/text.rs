//! Small byte and text helpers shared by the escape-sequence encoders and
//! parsers: decimal rendering, decimal parsing with the rules of `u16`'s
//! `FromStr`, string comparison and string building.
use vstd::prelude::*;
use vstd::string::*;

verus! {

/// ASCII decimal digits of `n`, without leading zeros (`"0"` for zero).
pub open spec fn decimal(n: nat) -> Seq<u8>
    decreases n,
{
    if n < 10 {
        seq![(48 + n) as u8]
    } else {
        decimal(n / 10).push((48 + n % 10) as u8)
    }
}

/// The same digits as characters.
pub open spec fn decimal_chars(n: nat) -> Seq<char> {
    decimal(n).map_values(|b: u8| b as char)
}

pub proof fn lemma_decimal_nonempty(n: nat)
    ensures
        decimal(n).len() >= 1,
    decreases n,
{
    if n >= 10 {
        lemma_decimal_nonempty(n / 10);
    }
}

/// Appends the decimal digits of `n` to `out`.
pub fn push_decimal(out: &mut Vec<u8>, n: u128)
    ensures
        final(out)@ == old(out)@ + decimal(n as nat),
    decreases n,
{
    if n >= 10 {
        push_decimal(out, n / 10);
    }
    out.push((48 + n % 10) as u8);
    proof {
        if n < 10 {
            assert(old(out)@.push((48 + n % 10) as u8) =~= old(out)@ + decimal(n as nat));
        } else {
            assert((old(out)@ + decimal((n / 10) as nat)).push((48 + n % 10) as u8)
                =~= old(out)@ + decimal(n as nat));
        }
    }
}

/// Appends one character to a string.
#[verifier::external_body]
pub(crate) fn push_char(s: &mut String, c: char)
    ensures
        final(s)@ == old(s)@.push(c),
{
    s.push(c);
}

/// Appends the decimal digits of `n` to `s`.
pub fn push_decimal_str(s: &mut String, n: u64)
    ensures
        final(s)@ == old(s)@ + decimal_chars(n as nat),
{
    let mut digits: Vec<u8> = Vec::new();
    push_decimal(&mut digits, n as u128);
    let mut k: usize = 0;
    while k < digits.len()
        invariant
            0 <= k <= digits@.len(),
            digits@ == decimal(n as nat),
            s@ == old(s)@ + decimal_chars(n as nat).subrange(0, k as int),
        decreases digits@.len() - k,
    {
        proof {
            assert(48 <= digits@[k as int] <= 57) by {
                lemma_decimal_digits(n as nat);
            }
        }
        push_char(s, digits[k] as char);
        k = k + 1;
        assert(s@ =~= old(s)@ + decimal_chars(n as nat).subrange(0, k as int));
    }
    assert(decimal_chars(n as nat).subrange(0, k as int) =~= decimal_chars(n as nat));
}

pub proof fn lemma_decimal_digits(n: nat)
    ensures
        forall|i: int| 0 <= i < decimal(n).len() ==> 48 <= #[trigger] decimal(n)[i] <= 57,
    decreases n,
{
    if n >= 10 {
        lemma_decimal_digits(n / 10);
        let prev = decimal(n / 10);
        assert forall|i: int| 0 <= i < decimal(n).len() implies 48 <= #[trigger] decimal(n)[i] <= 57 by {
            if i < prev.len() {
                assert(decimal(n)[i] == prev[i]);
            }
        }
    }
}

/// Whether two string slices hold the same characters.
pub fn str_eq(a: &str, b: &str) -> (r: bool)
    ensures
        r == (a@ == b@),
{
    let la = a.unicode_len();
    let lb = b.unicode_len();
    if la != lb {
        return false;
    }
    let mut k: usize = 0;
    while k < la
        invariant
            la == a@.len(),
            lb == b@.len(),
            la == lb,
            0 <= k <= la,
            forall|i: int| 0 <= i < k ==> a@[i] == b@[i],
        decreases la - k,
    {
        if a.get_char(k) != b.get_char(k) {
            return false;
        }
        k = k + 1;
    }
    assert(a@ =~= b@);
    true
}

/// A string holding the given text.
pub fn string_of(s: &str) -> (r: String)
    ensures
        r@ == s@,
{
    String::from_str(s)
}

pub open spec fn is_digit(b: u8) -> bool {
    48 <= b <= 57
}

pub open spec fn all_digits(s: Seq<u8>) -> bool {
    forall|i: int| 0 <= i < s.len() ==> is_digit(#[trigger] s[i])
}

/// The value of a string of decimal digits.
pub open spec fn digits_value(s: Seq<u8>) -> nat
    decreases s.len(),
{
    if s.len() == 0 {
        0
    } else {
        digits_value(s.drop_last()) * 10 + (s.last() - 48) as nat
    }
}

/// What `str::parse::<u16>` gives on ASCII text: an optional `+` (not on its
/// own) followed by one or more decimal digits whose value fits in 16 bits.
pub open spec fn spec_parse_u16(s: Seq<u8>) -> Option<u16> {
    let digits = if s.len() > 1 && s[0] == 43 {
        s.drop_first()
    } else {
        s
    };
    if digits.len() == 0 || !all_digits(digits) || digits_value(digits) > 65535 {
        None
    } else {
        Some(digits_value(digits) as u16)
    }
}

pub proof fn lemma_digits_value_prefix(s: Seq<u8>, k: int)
    requires
        0 <= k <= s.len(),
        all_digits(s),
    ensures
        digits_value(s) >= digits_value(s.subrange(0, k)),
    decreases s.len(),
{
    if k < s.len() {
        assert(s.drop_last() =~= s.subrange(0, s.len() - 1));
        assert(s.drop_last().subrange(0, k) =~= s.subrange(0, k));
        assert(all_digits(s.drop_last()));
        lemma_digits_value_prefix(s.drop_last(), k);
    } else {
        assert(s.subrange(0, k) =~= s);
    }
}

/// Parses `buf[lo..hi]` as `str::parse::<u16>` would.
pub fn parse_u16_at(buf: &[u8], lo: usize, hi: usize) -> (r: Option<u16>)
    requires
        lo <= hi <= buf@.len(),
    ensures
        r == spec_parse_u16(buf@.subrange(lo as int, hi as int)),
{
    let ghost s = buf@.subrange(lo as int, hi as int);
    let mut start = lo;
    if hi - lo > 1 && buf[lo] == 43 {
        start = lo + 1;
    }
    let ghost digits = buf@.subrange(start as int, hi as int);
    assert(digits =~= (if s.len() > 1 && s[0] == 43 {
        s.drop_first()
    } else {
        s
    }));
    if start == hi {
        return None;
    }
    let mut acc: u32 = 0;
    let mut k: usize = start;
    while k < hi
        invariant
            lo <= start <= k <= hi <= buf@.len(),
            digits == buf@.subrange(start as int, hi as int),
            s == buf@.subrange(lo as int, hi as int),
            digits == (if s.len() > 1 && s[0] == 43 {
                s.drop_first()
            } else {
                s
            }),
            all_digits(buf@.subrange(start as int, k as int)),
            acc as nat == digits_value(buf@.subrange(start as int, k as int)),
            acc <= 65535,
        decreases hi - k,
    {
        let b = buf[k];
        if b < 48 || b > 57 {
            assert(!is_digit(digits[k - start]));
            assert(!all_digits(digits));
            assert(spec_parse_u16(s).is_none());
            return None;
        }
        let ghost prev = buf@.subrange(start as int, k as int);
        acc = acc * 10 + (b - 48) as u32;
        k = k + 1;
        proof {
            let cur = buf@.subrange(start as int, k as int);
            assert(cur.drop_last() =~= prev);
            assert(all_digits(cur));
        }
        if acc > 65535 {
            proof {
                if all_digits(digits) {
                    assert(digits.subrange(0, k - start) =~= buf@.subrange(
                        start as int,
                        k as int,
                    ));
                    lemma_digits_value_prefix(digits, k - start);
                    assert(digits_value(digits) > 65535);
                }
                assert(spec_parse_u16(s).is_none());
            }
            return None;
        }
    }
    assert(buf@.subrange(start as int, k as int) =~= digits);
    Some(acc as u16)
}

} // verus!
