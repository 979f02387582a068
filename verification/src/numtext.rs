//! Decimal text for attribute values.
//!
//! The toolkit's attribute protocol carries numbers as decimal byte strings
//! ("`20`", "`-3`", and width-by-height pairs such as "`75x0`").  This module
//! holds the verified conversions between machine integers and those byte
//! strings, together with the round-trip laws the typed accessors rely on.

use vstd::prelude::*;

verus! {

/// Every byte of `s` is a decimal digit, and there is at least one.
pub open spec fn is_digit_bytes(s: Seq<u8>) -> bool {
    s.len() > 0 && forall|i: int| 0 <= i < s.len() ==> 48 <= #[trigger] s[i] <= 57
}

/// The number a digit string denotes, read most significant first.
pub open spec fn dec_val(s: Seq<u8>) -> int
    decreases s.len(),
{
    if s.len() == 0 {
        0
    } else {
        10 * dec_val(s.drop_last()) + (s.last() - 48)
    }
}

/// The canonical digit string of `n`: no leading zeros, most significant
/// digit first.
pub open spec fn dec_digits(n: nat) -> Seq<u8>
    decreases n,
{
    if n < 10 {
        seq![(48 + n) as u8]
    } else {
        dec_digits(n / 10).push((48 + n % 10) as u8)
    }
}

/// The canonical decimal representation of a signed number: a minus sign
/// followed by the digits of the magnitude, or the digits alone.
pub open spec fn dec_rep(n: int) -> Seq<u8> {
    if n < 0 {
        seq![45u8] + dec_digits((-n) as nat)
    } else {
        dec_digits(n as nat)
    }
}

/// The canonical digit string consists of digits, denotes `n`, and holds
/// neither a NUL nor the pair separator `x`.
pub proof fn lemma_dec_digits_val(n: nat)
    ensures
        is_digit_bytes(dec_digits(n)),
        dec_val(dec_digits(n)) == n,
        forall|i: int| 0 <= i < dec_digits(n).len() ==> #[trigger] dec_digits(n)[i] != 0,
        forall|i: int| 0 <= i < dec_digits(n).len() ==> #[trigger] dec_digits(n)[i] != 120,
    decreases n,
{
    if n < 10 {
        let s = dec_digits(n);
        assert(s.drop_last() =~= Seq::<u8>::empty());
        assert(dec_val(Seq::<u8>::empty()) == 0);
        assert(s.last() == (48 + n) as u8);
        assert(dec_val(s) == n);
    } else {
        lemma_dec_digits_val(n / 10);
        assert(dec_digits(n).drop_last() =~= dec_digits(n / 10));
        assert(dec_val(dec_digits(n)) == 10 * (n / 10) + n % 10);
        assert(10 * (n / 10) + n % 10 == n) by (nonlinear_arith);
    }
}

/// Append the digits of `n` to `out`.
pub fn push_dec_digits(n: u64, out: &mut Vec<u8>)
    ensures
        final(out)@ == old(out)@ + dec_digits(n as nat),
    decreases n,
{
    if n < 10 {
        out.push(48 + n as u8);
        assert(out@ =~= old(out)@ + dec_digits(n as nat));
    } else {
        assert(n as nat / 10 < n as nat) by (nonlinear_arith)
            requires
                n >= 10,
        ;
        push_dec_digits(n / 10, out);
        out.push(48 + (n % 10) as u8);
        assert(out@ =~= old(out)@ + dec_digits(n as nat));
    }
}

/// The digit string of an unsigned number.
pub fn format_u64(n: u64) -> (r: Vec<u8>)
    ensures
        r@ == dec_digits(n as nat),
{
    let mut out: Vec<u8> = Vec::new();
    push_dec_digits(n, &mut out);
    out
}

/// The decimal representation of a signed number.
pub fn format_i32(n: i32) -> (r: Vec<u8>)
    ensures
        r@ == dec_rep(n as int),
{
    let mut out: Vec<u8> = Vec::new();
    if n < 0 {
        out.push(45);
        let m: u64 = (-(n as i64)) as u64;
        push_dec_digits(m, &mut out);
        assert(out@ =~= dec_rep(n as int));
    } else {
        push_dec_digits(n as u64, &mut out);
    }
    out
}

/// Reading one more digit multiplies the prefix value by ten and adds it.
proof fn lemma_dec_val_step(s: Seq<u8>, i: int)
    requires
        0 <= i < s.len(),
    ensures
        dec_val(s.take(i + 1)) == 10 * dec_val(s.take(i)) + (s[i] - 48),
{
    assert(s.take(i + 1).drop_last() =~= s.take(i));
    assert(s.take(i + 1).last() == s[i]);
}

/// A digit string's value never falls below the value of any prefix.
proof fn lemma_dec_val_prefix_le(s: Seq<u8>, i: int)
    requires
        0 <= i <= s.len(),
        forall|j: int| 0 <= j < s.len() ==> 48 <= #[trigger] s[j] <= 57,
    ensures
        dec_val(s.take(i)) <= dec_val(s),
        dec_val(s) >= 0,
    decreases s.len() - i,
{
    if i == s.len() {
        assert(s.take(i) =~= s);
        lemma_dec_val_nonneg(s);
    } else {
        lemma_dec_val_step(s, i);
        lemma_dec_val_prefix_le(s, i + 1);
        assert(dec_val(s.take(i)) <= 10 * dec_val(s.take(i))) by {
            lemma_dec_val_nonneg(s.take(i));
        }
    }
}

/// A prefix of digits denotes a non-negative value.
proof fn lemma_dec_val_nonneg(s: Seq<u8>)
    requires
        forall|j: int| 0 <= j < s.len() ==> 48 <= #[trigger] s[j] <= 57,
    ensures
        dec_val(s) >= 0,
    decreases s.len(),
{
    if s.len() > 0 {
        lemma_dec_val_nonneg(s.drop_last());
    }
}

/// What `parse_u64` returns: the denoted value, if the bytes are all digits
/// and the value fits.
pub open spec fn parse_u64_spec(s: Seq<u8>) -> Option<u64> {
    if is_digit_bytes(s) && dec_val(s) <= u64::MAX {
        Some(dec_val(s) as u64)
    } else {
        None
    }
}

/// Parse an unsigned decimal byte string.  Fails on an empty string, on any
/// non-digit byte, and on overflow.
pub fn parse_u64(s: &[u8]) -> (r: Option<u64>)
    ensures
        r == parse_u64_spec(s@),
{
    let n = s.len();
    if n == 0 {
        return None;
    }
    let mut acc: u64 = 0;
    let mut i: usize = 0;
    while i < n
        invariant
            0 <= i <= n == s@.len(),
            forall|j: int| 0 <= j < i ==> 48 <= #[trigger] s@[j] <= 57,
            acc == dec_val(s@.take(i as int)),
        decreases n - i,
    {
        let b = s[i];
        if b < 48 || b > 57 {
            return None;
        }
        let d = (b - 48) as u64;
        proof {
            lemma_dec_val_step(s@, i as int);
        }
        if acc > (u64::MAX - d) / 10 {
            proof {
                let t = s@.take(i + 1);
                assert(dec_val(t) == 10 * acc + d);
                assert(10 * acc + d > u64::MAX) by (nonlinear_arith)
                    requires
                        acc > (u64::MAX - d) / 10,
                        d <= 9,
                ;
                if is_digit_bytes(s@) {
                    lemma_dec_val_prefix_le(s@, i + 1);
                }
            }
            return None;
        }
        acc = acc * 10 + d;
        i = i + 1;
    }
    proof {
        assert(s@.take(n as int) =~= s@);
    }
    Some(acc)
}

/// What `parse_i32` returns: an optional leading minus sign, digits, and a
/// value in `i32`'s range.
pub open spec fn parse_i32_spec(s: Seq<u8>) -> Option<i32> {
    if s.len() > 0 && s[0] == 45 {
        if is_digit_bytes(s.drop_first()) && -dec_val(s.drop_first()) >= i32::MIN {
            Some((-dec_val(s.drop_first())) as i32)
        } else {
            None
        }
    } else if is_digit_bytes(s) && dec_val(s) <= i32::MAX {
        Some(dec_val(s) as i32)
    } else {
        None
    }
}

/// Parse a signed decimal byte string.
pub fn parse_i32(s: &[u8]) -> (r: Option<i32>)
    ensures
        r == parse_i32_spec(s@),
{
    let n = s.len();
    if n > 0 && s[0] == 45 {
        let rest = &s[1..n];
        assert(rest@ =~= s@.drop_first());
        match parse_u64(rest) {
            Some(v) => {
                proof {
                    lemma_dec_val_nonneg(rest@);
                }
                if v <= 0x8000_0000u64 {
                    Some((-(v as i64)) as i32)
                } else {
                    None
                }
            },
            None => None,
        }
    } else {
        match parse_u64(s) {
            Some(v) => {
                proof {
                    lemma_dec_val_nonneg(s@);
                }
                if v <= 0x7fff_ffffu64 {
                    Some(v as i32)
                } else {
                    None
                }
            },
            None => None,
        }
    }
}

/// `k` is the position of the first pair separator (`x`) in `s`.
pub open spec fn first_sep_at(s: Seq<u8>, k: int) -> bool {
    0 <= k < s.len() && s[k] == 120 && forall|j: int| 0 <= j < k ==> s[j] != 120
}

/// What `parse_int_pair` returns: the two signed numbers around the first
/// `x` separator, if both halves parse.
pub open spec fn parse_int_pair_spec(s: Seq<u8>) -> Option<(i32, i32)> {
    if exists|k: int| first_sep_at(s, k) {
        let k = choose|k: int| first_sep_at(s, k);
        match (parse_i32_spec(s.take(k)), parse_i32_spec(s.skip(k + 1))) {
            (Some(a), Some(b)) => Some((a, b)),
            _ => None,
        }
    } else {
        None
    }
}

/// The first-separator position is unique.
proof fn lemma_first_sep_unique(s: Seq<u8>, k1: int, k2: int)
    requires
        first_sep_at(s, k1),
        first_sep_at(s, k2),
    ensures
        k1 == k2,
{
    if k1 < k2 {
        assert(s[k1] != 120);
    }
    if k2 < k1 {
        assert(s[k2] != 120);
    }
}

/// Parse a `WxH`-shaped pair of signed decimal numbers.
pub fn parse_int_pair(s: &[u8]) -> (r: Option<(i32, i32)>)
    ensures
        r == parse_int_pair_spec(s@),
{
    let n = s.len();
    let mut i: usize = 0;
    while i < n
        invariant
            0 <= i <= n == s@.len(),
            forall|j: int| 0 <= j < i ==> s@[j] != 120,
        decreases n - i,
    {
        if s[i] == 120 {
            proof {
                assert(first_sep_at(s@, i as int));
                let k = choose|k: int| first_sep_at(s@, k);
                lemma_first_sep_unique(s@, k, i as int);
            }
            let left = &s[0..i];
            let right = &s[i + 1..n];
            assert(left@ =~= s@.take(i as int));
            assert(right@ =~= s@.skip(i + 1));
            let a = parse_i32(left);
            let b = parse_i32(right);
            return match (a, b) {
                (Some(a), Some(b)) => Some((a, b)),
                _ => None,
            };
        }
        i = i + 1;
    }
    proof {
        if exists|k: int| first_sep_at(s@, k) {
            let k = choose|k: int| first_sep_at(s@, k);
            assert(s@[k] != 120);
        }
    }
    None
}

/// Round trip for unsigned numbers: parsing the canonical digits gives the
/// number back.
pub proof fn lemma_parse_format_u64(n: u64)
    ensures
        parse_u64_spec(dec_digits(n as nat)) == Some(n),
{
    lemma_dec_digits_val(n as nat);
}

/// Round trip for signed numbers: parsing the canonical representation gives
/// the number back.
pub proof fn lemma_parse_format_i32(n: i32)
    ensures
        parse_i32_spec(dec_rep(n as int)) == Some(n),
{
    if n < 0 {
        lemma_dec_digits_val((-(n as int)) as nat);
        assert(dec_rep(n as int).drop_first() =~= dec_digits((-(n as int)) as nat));
    } else {
        lemma_dec_digits_val(n as nat);
        let s = dec_rep(n as int);
        assert(48 <= s[0] <= 57);
    }
}

/// Round trip for pairs: parsing `<a>x<b>` in canonical form gives both
/// numbers back.
pub proof fn lemma_parse_format_pair(a: i32, b: i32)
    ensures
        parse_int_pair_spec(dec_rep(a as int) + seq![120u8] + dec_rep(b as int)) == Some((a, b)),
{
    let left = dec_rep(a as int);
    let right = dec_rep(b as int);
    let s = left + seq![120u8] + right;
    let k = left.len() as int;
    assert forall|j: int| 0 <= j < k implies s[j] != 120 by {
        if a < 0 {
            lemma_dec_digits_val((-(a as int)) as nat);
            if j > 0 {
                assert(s[j] == dec_digits((-(a as int)) as nat)[j - 1]);
            }
        } else {
            lemma_dec_digits_val(a as nat);
        }
    }
    assert(first_sep_at(s, k));
    let kc = choose|k0: int| first_sep_at(s, k0);
    lemma_first_sep_unique(s, kc, k);
    assert(s.take(k) =~= left);
    assert(s.skip(k + 1) =~= right);
    lemma_parse_format_i32(a);
    lemma_parse_format_i32(b);
}

} // verus!
