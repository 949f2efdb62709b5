//! Decimal rendering and parsing of unsigned 64-bit integers, used by the CSV
//! and text codecs for every numeric field.

use vstd::prelude::*;

verus! {

use crate::strutil::ascii_bytes_to_string;

/// The character for a single decimal digit value.
pub open spec fn digit_char(d: int) -> char
    recommends
        0 <= d <= 9,
{
    ((d + 48) as u8) as char
}

/// Whether a character is a decimal digit.
pub open spec fn is_digit(c: char) -> bool {
    48 <= c as u32 <= 57
}

/// The numeric value of a decimal digit character.
pub open spec fn digit_val(c: char) -> int
    recommends
        is_digit(c),
{
    c as u32 - 48
}

/// Whether a sequence consists of decimal digits only.
pub open spec fn all_digits(s: Seq<char>) -> bool {
    forall|i: int| 0 <= i < s.len() ==> is_digit(#[trigger] s[i])
}

/// The numeric value of a sequence of decimal digit characters.
pub open spec fn dec_val(s: Seq<char>) -> int
    recommends
        all_digits(s),
    decreases s.len(),
{
    if s.len() == 0 {
        0
    } else {
        dec_val(s.drop_last()) * 10 + digit_val(s.last())
    }
}

/// The canonical decimal rendering of a natural number: no sign, no leading
/// zeros (except for zero itself).
pub open spec fn dec_str(n: nat) -> Seq<char>
    decreases n,
{
    if n < 10 {
        seq![digit_char(n as int)]
    } else {
        dec_str(n / 10).push(digit_char((n % 10) as int))
    }
}

/// What parsing an unsigned 64-bit integer from a string yields: an optional
/// leading plus sign followed by at least one digit, with a value that fits.
pub open spec fn spec_parse_u64(s: Seq<char>) -> Option<u64> {
    let digits = if s.len() > 0 && s[0] == '+' {
        s.subrange(1, s.len() as int)
    } else {
        s
    };
    if digits.len() > 0 && all_digits(digits) && dec_val(digits) <= u64::MAX {
        Some(dec_val(digits) as u64)
    } else {
        None
    }
}

/// The canonical rendering consists of digits, is nonempty, and never starts
/// with a sign.
pub proof fn lemma_dec_str_digits(n: nat)
    ensures
        dec_str(n).len() >= 1,
        all_digits(dec_str(n)),
        dec_str(n)[0] != '+',
    decreases n,
{
    if n < 10 {
        assert(is_digit(digit_char(n as int)));
        assert(digit_char(n as int) != '+');
    } else {
        lemma_dec_str_digits(n / 10);
        assert(is_digit(digit_char((n % 10) as int)));
        assert(dec_str(n)[0] == dec_str(n / 10)[0]);
    }
}

/// The canonical rendering of a number evaluates back to that number.
pub proof fn lemma_dec_val_dec_str(n: nat)
    ensures
        dec_val(dec_str(n)) == n,
    decreases n,
{
    if n < 10 {
        let s = seq![digit_char(n as int)];
        assert(dec_str(n) =~= s);
        assert(s.drop_last() =~= Seq::<char>::empty());
        assert(dec_val(s.drop_last()) == 0);
        assert(dec_val(s) == dec_val(s.drop_last()) * 10 + digit_val(s.last()));
        assert(digit_val(digit_char(n as int)) == n);
    } else {
        lemma_dec_val_dec_str(n / 10);
        let s = dec_str(n);
        assert(s.drop_last() =~= dec_str(n / 10));
        assert(s.last() == digit_char((n % 10) as int));
        assert(dec_val(s) == dec_val(s.drop_last()) * 10 + digit_val(s.last()));
        assert(digit_val(digit_char((n % 10) as int)) == n % 10);
    }
}

/// Parsing the canonical rendering of a value recovers that value.
pub proof fn lemma_parse_dec_str(x: u64)
    ensures
        spec_parse_u64(dec_str(x as nat)) == Some(x),
{
    lemma_dec_str_digits(x as nat);
    lemma_dec_val_dec_str(x as nat);
}

/// Extending a digit sequence never decreases its value.
proof fn lemma_dec_val_prefix(s: Seq<char>, i: int)
    requires
        all_digits(s),
        0 <= i <= s.len(),
    ensures
        dec_val(s) >= dec_val(s.subrange(0, i)),
    decreases s.len() - i,
{
    if i == s.len() {
        assert(s.subrange(0, i) =~= s);
    } else {
        lemma_dec_val_prefix(s, i + 1);
        assert(s.subrange(0, i + 1).drop_last() =~= s.subrange(0, i));
        assert(dec_val(s.subrange(0, i + 1)) == dec_val(s.subrange(0, i)) * 10 + digit_val(
            s[i],
        ));
        assert(dec_val(s.subrange(0, i)) * 10 >= dec_val(s.subrange(0, i))) by {
            assert(dec_val(s.subrange(0, i)) >= 0) by {
                lemma_dec_val_nonneg(s.subrange(0, i));
            }
        }
    }
}

/// The value of a digit sequence is never negative.
proof fn lemma_dec_val_nonneg(s: Seq<char>)
    requires
        all_digits(s),
    ensures
        dec_val(s) >= 0,
    decreases s.len(),
{
    if s.len() > 0 {
        lemma_dec_val_nonneg(s.drop_last());
    }
}

/// Parse an unsigned 64-bit integer from a string: an optional leading plus
/// sign followed by decimal digits whose value fits in 64 bits.
pub fn parse_u64(s: &str) -> (r: Option<u64>)
    ensures
        r == spec_parse_u64(s@),
{
    let len = s.unicode_len();
    let start: usize = if len > 0 && s.get_char(0) == '+' {
        1
    } else {
        0
    };
    let ghost digits = if s@.len() > 0 && s@[0] == '+' {
        s@.subrange(1, s@.len() as int)
    } else {
        s@
    };
    assert(digits =~= s@.subrange(start as int, s@.len() as int));
    if len == start {
        return None;
    }
    let mut acc: u64 = 0;
    let mut i: usize = start;
    while i < len
        invariant
            start <= i <= len,
            len == s@.len(),
            digits == (if s@.len() > 0 && s@[0] == '+' {
                s@.subrange(1, s@.len() as int)
            } else {
                s@
            }),
            digits =~= s@.subrange(start as int, s@.len() as int),
            all_digits(digits.subrange(0, i - start)),
            acc == dec_val(digits.subrange(0, i - start)),
        decreases len - i,
    {
        let c = s.get_char(i);
        let cv = c as u32;
        if cv < 48 || cv > 57 {
            assert(digits[i - start] == s@[i as int]);
            assert(!is_digit(digits[i - start]));
            assert(!all_digits(digits));
            assert(spec_parse_u64(s@) is None);
            return None;
        }
        let d = (cv - 48) as u64;
        proof {
            assert(digits.subrange(0, i + 1 - start).drop_last() =~= digits.subrange(
                0,
                i - start,
            ));
        }
        if acc > 0xFFFF_FFFF_FFFF_FFFFu64 / 10 || (acc == 0xFFFF_FFFF_FFFF_FFFFu64 / 10 && d
            > 0xFFFF_FFFF_FFFF_FFFFu64 % 10) {
            proof {
                assert(dec_val(digits.subrange(0, i + 1 - start)) > u64::MAX);
                if all_digits(digits) {
                    lemma_dec_val_prefix(digits, i + 1 - start);
                    assert(dec_val(digits) > u64::MAX);
                }
                assert(spec_parse_u64(s@) is None);
            }
            return None;
        }
        acc = acc * 10 + d;
        i = i + 1;
    }
    proof {
        assert(digits.subrange(0, len - start) =~= digits);
    }
    Some(acc)
}

/// Render an unsigned 64-bit integer in decimal.
pub fn u64_to_dec_string(x: u64) -> (r: String)
    ensures
        r@ == dec_str(x as nat),
{
    let mut rev: Vec<u8> = Vec::new();
    if x == 0 {
        rev.push(48);
        proof {
            assert(rev@.reverse() =~= seq![48u8]);
            assert(rev@.reverse().map_values(|b: u8| b as char) =~= dec_str(0));
        }
    }
    let mut v = x;
    while v > 0
        invariant
            forall|k: int| 0 <= k < rev@.len() ==> 48 <= #[trigger] rev@[k] <= 57,
            v > 0 ==> dec_str(x as nat) =~= dec_str(v as nat) + rev@.reverse().map_values(
                |b: u8| b as char,
            ),
            v == 0 ==> dec_str(x as nat) =~= rev@.reverse().map_values(|b: u8| b as char),
        decreases v,
    {
        let ghost old_rev = rev@;
        let ghost old_v = v;
        let d = (v % 10) as u8;
        rev.push(d + 48);
        v = v / 10;
        proof {
            let mapped = |b: u8| b as char;
            assert(rev@.reverse() =~= seq![(d + 48) as u8] + old_rev.reverse());
            assert(rev@.reverse().map_values(mapped) =~= seq![digit_char(d as int)]
                + old_rev.reverse().map_values(mapped));
            if old_v < 10 {
                assert(dec_str(old_v as nat) =~= seq![digit_char(d as int)]);
            } else {
                assert(dec_str(old_v as nat) =~= dec_str(v as nat).push(digit_char(d as int)));
                assert(dec_str(v as nat).push(digit_char(d as int)) =~= dec_str(v as nat)
                    + seq![digit_char(d as int)]);
            }
        }
    }
    let mut out: Vec<u8> = Vec::new();
    let mut i: usize = rev.len();
    while i > 0
        invariant
            0 <= i <= rev@.len(),
            forall|k: int| 0 <= k < rev@.len() ==> 48 <= #[trigger] rev@[k] <= 57,
            out@ =~= rev@.subrange(i as int, rev@.len() as int).reverse(),
        decreases i,
    {
        let ghost old_out = out@;
        i = i - 1;
        out.push(rev[i]);
        proof {
            assert(out@ =~= rev@.subrange(i as int, rev@.len() as int).reverse());
        }
    }
    proof {
        assert(rev@.subrange(0, rev@.len() as int) =~= rev@);
        assert(out@ =~= rev@.reverse());
        assert(out@.map_values(|b: u8| b as char) =~= dec_str(x as nat));
        assert(forall|k: int| 0 <= k < out@.len() ==> out@[k] < 128);
    }
    let r = ascii_bytes_to_string(out);
    proof {
        assert(r@ =~= dec_str(x as nat));
    }
    r
}

} // verus!
