//! Decimal coercion for integer-typed fields: parsing a textual value into
//! a signed 64-bit integer, and serializing such an integer back to text.
//!
//! The grammar matches the usual decimal form: an optional `+` or `-` sign
//! followed by one or more ASCII digits, with the value required to fit in
//! the signed 64-bit range.

use vstd::prelude::*;
use vstd::arithmetic::div_mod::lemma_fundamental_div_mod;

use crate::text::chars_string;

verus! {

pub open spec fn is_digit(c: char) -> bool {
    '0' <= c && c <= '9'
}

pub open spec fn digit_val(c: char) -> int {
    (c as u32) - 48
}

pub open spec fn all_digits(s: Seq<char>) -> bool {
    forall|i: int| 0 <= i < s.len() ==> is_digit(#[trigger] s[i])
}

/// The numeric value of a sequence of decimal digits, most significant first.
pub open spec fn digits_value(s: Seq<char>) -> int
    decreases s.len(),
{
    if s.len() == 0 {
        0
    } else {
        digits_value(s.drop_last()) * 10 + digit_val(s.last())
    }
}

/// The integer denoted by a decimal text: an optional sign followed by one
/// or more digits; `None` when the text is not of that shape.
pub open spec fn int_text_value(s: Seq<char>) -> Option<int> {
    if s.len() > 0 && (s[0] == '-' || s[0] == '+') {
        let d = s.skip(1);
        if d.len() > 0 && all_digits(d) {
            if s[0] == '-' {
                Some(-digits_value(d))
            } else {
                Some(digits_value(d))
            }
        } else {
            None
        }
    } else {
        if s.len() > 0 && all_digits(s) {
            Some(digits_value(s))
        } else {
            None
        }
    }
}

/// The value of a decimal text when it denotes an integer in the signed
/// 64-bit range; `None` on a malformed text or one out of range.
pub open spec fn i64_text_value(s: Seq<char>) -> Option<int> {
    match int_text_value(s) {
        Some(v) => if i64::MIN <= v <= i64::MAX {
            Some(v)
        } else {
            None
        },
        None => None,
    }
}

proof fn lemma_digits_nonneg(s: Seq<char>)
    requires
        all_digits(s),
    ensures
        digits_value(s) >= 0,
    decreases s.len(),
{
    if s.len() > 0 {
        assert(all_digits(s.drop_last()));
        lemma_digits_nonneg(s.drop_last());
    }
}

/// Extending a digit sequence never shrinks its value.
proof fn lemma_digits_prefix(s: Seq<char>, i: int)
    requires
        all_digits(s),
        0 <= i <= s.len(),
    ensures
        digits_value(s.take(i)) <= digits_value(s),
    decreases s.len() - i,
{
    if i == s.len() {
        assert(s.take(i) =~= s);
    } else {
        assert(all_digits(s.take(i))) by {
            assert(forall|j: int| 0 <= j < i ==> s.take(i)[j] == s[j]);
        }
        lemma_digits_nonneg(s.take(i));
        assert(s.take(i + 1).drop_last() =~= s.take(i));
        assert(s.take(i + 1).last() == s[i]);
        assert(digits_value(s.take(i + 1)) == digits_value(s.take(i)) * 10 + digit_val(s[i]));
        lemma_digits_prefix(s, i + 1);
    }
}

/// Parse a decimal text as a signed 64-bit integer; the result is exactly
/// what the decimal grammar assigns to the text.
pub fn parse_i64(s: &str) -> (r: Option<i64>)
    ensures
        match r {
            Some(v) => i64_text_value(s@) == Some(v as int),
            None => i64_text_value(s@) is None,
        },
{
    let n = s.unicode_len();
    if n == 0 {
        return None;
    }
    let c0 = s.get_char(0);
    let neg = c0 == '-';
    let mut i: usize = if c0 == '-' || c0 == '+' {
        1
    } else {
        0
    };
    let ghost start = i as int;
    if i >= n {
        // a bare sign has no digits
        return None;
    }
    let ghost digits = s@.skip(start);
    assert(digits.len() > 0);
    let mut acc: u64 = 0;
    while i < n
        invariant
            n == s@.len(),
            start <= i <= n,
            0 <= start <= 1,
            digits == s@.skip(start),
            start == 1 ==> (s@[0] == '-' || s@[0] == '+'),
            start == 0 ==> !(s@[0] == '-' || s@[0] == '+'),
            neg == (s@[0] == '-'),
            digits.len() > 0,
            all_digits(digits.take(i - start)),
            acc == digits_value(digits.take(i - start)),
        decreases n - i,
    {
        let c = s.get_char(i);
        let u = c as u32;
        if !(48 <= u && u <= 57) {
            // a non-digit character: the text is malformed
            assert(digits[i - start] == c);
            assert(!all_digits(digits));
            return None;
        }
        let d = (u - 48) as u64;
        assert(is_digit(c) && digit_val(c) == d);
        proof {
            assert(digits.take(i + 1 - start).drop_last() =~= digits.take(i - start));
            assert(digits.take(i + 1 - start).last() == digits[i - start]);
        }
        if acc > 1844674407370955161 || (acc == 1844674407370955161 && d > 5) {
            // the accumulated magnitude already exceeds the 64-bit range
            proof {
                let j = i + 1 - start;
                assert(all_digits(digits.take(j)));
                assert(digits_value(digits.take(j)) == acc * 10 + d);
                assert(acc * 10 + d > 9223372036854775808);
                if all_digits(digits) {
                    lemma_digits_prefix(digits, j);
                    assert(digits_value(digits) > 9223372036854775808);
                }
                if start == 0 {
                    assert(digits =~= s@);
                } else {
                    assert(digits =~= s@.skip(1));
                }
            }
            return None;
        }
        acc = acc * 10 + d;
        i = i + 1;
    }
    proof {
        assert(digits.take(n - start) =~= digits);
        assert(all_digits(digits));
        assert(digits_value(digits) == acc);
        if start == 0 {
            assert(digits =~= s@);
            assert(int_text_value(s@) == Some(acc as int));
        } else {
            assert(digits =~= s@.skip(1));
            if neg {
                assert(int_text_value(s@) == Some(-(acc as int)));
            } else {
                assert(int_text_value(s@) == Some(acc as int));
            }
        }
    }
    if neg {
        if acc <= 9223372036854775807u64 {
            Some(-(acc as i64))
        } else if acc == 9223372036854775808u64 {
            Some(i64::MIN)
        } else {
            None
        }
    } else {
        if acc <= 9223372036854775807u64 {
            Some(acc as i64)
        } else {
            None
        }
    }
}

/// The character for one decimal digit value.
pub open spec fn digit_char(d: int) -> char {
    ((48 + d) as u32) as char
}

/// The decimal digits of a non-negative integer, most significant first,
/// without leading zeros (a single `0` for zero).
pub open spec fn dec_digits(n: int) -> Seq<char>
    decreases n,
{
    if n < 10 {
        seq![digit_char(if n >= 0 { n } else { 0 })]
    } else {
        dec_digits(n / 10).push(digit_char(n % 10))
    }
}

/// The decimal text of an integer: a `-` sign for negative values, then
/// the digits of the magnitude.
pub open spec fn int_text(v: int) -> Seq<char> {
    if v < 0 {
        seq!['-'] + dec_digits(-v)
    } else {
        dec_digits(v)
    }
}

fn push_dec_digits(n: u64, out: &mut Vec<char>)
    ensures
        final(out)@ == old(out)@ + dec_digits(n as int),
    decreases n,
{
    if n < 10 {
        let b: u8 = 48 + (n as u8);
        out.push(b as char);
        proof {
            assert(out@ =~= old(out)@ + dec_digits(n as int));
        }
    } else {
        push_dec_digits(n / 10, out);
        let b: u8 = 48 + ((n % 10) as u8);
        out.push(b as char);
        proof {
            assert(out@ =~= old(out)@ + dec_digits(n as int));
        }
    }
}

/// Serialize a signed 64-bit integer to its decimal text.
pub fn i64_string(v: i64) -> (r: String)
    ensures
        r@ == int_text(v as int),
{
    let mut chars: Vec<char> = Vec::new();
    if v < 0 {
        chars.push('-');
    }
    let mag: u64 = if v == i64::MIN {
        9223372036854775808u64
    } else if v < 0 {
        (-v) as u64
    } else {
        v as u64
    };
    push_dec_digits(mag, &mut chars);
    proof {
        if v < 0 {
            assert(chars@ =~= int_text(v as int));
        } else {
            assert(chars@ =~= int_text(v as int));
        }
    }
    chars_string(&chars)
}

proof fn lemma_dec_digits_are_digits(n: int)
    requires
        n >= 0,
    ensures
        dec_digits(n).len() > 0,
        all_digits(dec_digits(n)),
    decreases n,
{
    if n >= 10 {
        lemma_dec_digits_are_digits(n / 10);
        assert(is_digit(digit_char(n % 10)));
        assert(forall|i: int|
            0 <= i < dec_digits(n).len() - 1 ==> dec_digits(n)[i] == dec_digits(n / 10)[i]);
    }
}

proof fn lemma_dec_digits_value(n: int)
    requires
        n >= 0,
    ensures
        digits_value(dec_digits(n)) == n,
    decreases n,
{
    if n < 10 {
        let s = seq![digit_char(n)];
        assert(dec_digits(n) == s);
        assert(s.drop_last() =~= Seq::<char>::empty());
        assert(digits_value(s.drop_last()) == 0);
        assert(s.last() == digit_char(n));
        assert(digits_value(s) == 0 * 10 + digit_val(digit_char(n)));
        assert(digit_val(digit_char(n)) == n);
    } else {
        lemma_dec_digits_value(n / 10);
        let s = dec_digits(n);
        assert(s.drop_last() =~= dec_digits(n / 10));
        assert(s.last() == digit_char(n % 10));
        assert(digit_val(digit_char(n % 10)) == n % 10);
        lemma_fundamental_div_mod(n, 10);
    }
}

/// Round trip: the decimal text of an integer in the signed 64-bit range
/// parses back to that same integer.
pub proof fn lemma_int_text_round_trip(v: int)
    requires
        i64::MIN <= v <= i64::MAX,
    ensures
        i64_text_value(int_text(v)) == Some(v),
{
    if v < 0 {
        lemma_dec_digits_are_digits(-v);
        lemma_dec_digits_value(-v);
        let s = int_text(v);
        assert(s[0] == '-');
        assert(s.skip(1) =~= dec_digits(-v));
    } else {
        lemma_dec_digits_are_digits(v);
        lemma_dec_digits_value(v);
        let s = int_text(v);
        assert(s =~= dec_digits(v));
        assert(is_digit(s[0]));
        assert(!(s[0] == '-' || s[0] == '+'));
    }
}

} // verus!
