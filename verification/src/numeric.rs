//! Parsing of decimal-string encoded unsigned integers.
//!
//! Transaction amounts and gas prices arrive as decimal-digit strings of
//! arbitrary width. The detector needs them as numbers, with a defined
//! fallback-to-zero contract: a string that is empty, holds a non-digit
//! character, or encodes a value wider than `u128` counts as numeric 0,
//! never as an error.

use vstd::prelude::*;

verus! {

/// A decimal digit `'0'..='9'`.
pub open spec fn is_dec_digit(c: char) -> bool {
    '0' <= c && c <= '9'
}

/// Numeric value of one decimal digit.
pub open spec fn digit_value(c: char) -> int {
    c as int - '0' as int
}

/// Every character of `s` is a decimal digit.
pub open spec fn all_dec_digits(s: Seq<char>) -> bool {
    forall|i: int| 0 <= i < s.len() ==> is_dec_digit(#[trigger] s[i])
}

/// Mathematical value of a digit string, most significant digit first.
pub open spec fn dec_value(s: Seq<char>) -> int
    decreases s.len(),
{
    if s.len() == 0 {
        0
    } else {
        10 * dec_value(s.drop_last()) + digit_value(s.last())
    }
}

/// The value a decimal-string field stands for: the encoded number when the
/// string is a nonempty run of digits whose value fits in `u128`, and 0
/// otherwise.
pub open spec fn parse_u128_or_zero(s: Seq<char>) -> u128 {
    if s.len() > 0 && all_dec_digits(s) && dec_value(s) <= u128::MAX {
        dec_value(s) as u128
    } else {
        0
    }
}

/// A digit string's value is nonnegative.
pub proof fn lemma_dec_value_nonneg(s: Seq<char>)
    requires
        all_dec_digits(s),
    ensures
        dec_value(s) >= 0,
    decreases s.len(),
{
    if s.len() > 0 {
        assert(all_dec_digits(s.drop_last()));
        lemma_dec_value_nonneg(s.drop_last());
    }
}

/// Extending a digit string cannot decrease its value: the value of a prefix
/// is a lower bound on the value of the whole string.
pub proof fn lemma_dec_value_prefix(s: Seq<char>, i: int)
    requires
        all_dec_digits(s),
        0 <= i <= s.len(),
    ensures
        dec_value(s.take(i)) <= dec_value(s),
    decreases s.len() - i,
{
    if i == s.len() {
        assert(s.take(i) =~= s);
    } else {
        lemma_dec_value_prefix(s, i + 1);
        assert(s.take(i + 1).drop_last() =~= s.take(i));
        assert(s.take(i + 1).last() == s[i]);
        assert(all_dec_digits(s.take(i)));
        lemma_dec_value_nonneg(s.take(i));
        assert(dec_value(s.take(i + 1)) == 10 * dec_value(s.take(i)) + digit_value(s[i]));
    }
}

/// A string with any non-digit character stands for 0, whatever else it
/// holds: unparsable fields silently degrade to 0.
pub proof fn lemma_unparsable_is_zero(s: Seq<char>)
    requires
        exists|i: int| 0 <= i < s.len() && !is_dec_digit(s[i]),
    ensures
        parse_u128_or_zero(s) == 0,
{
}

/// Parse a decimal-digit string as a `u128`, with fallback to 0 on an empty
/// string, a non-digit character, or overflow.
pub fn parse_decimal_u128(s: &str) -> (r: u128)
    ensures
        r == parse_u128_or_zero(s@),
{
    let n = s.unicode_len();
    if n == 0 {
        return 0;
    }
    let mut acc: u128 = 0;
    let mut i: usize = 0;
    while i < n
        invariant
            0 < n == s@.len(),
            0 <= i <= n,
            forall|k: int| 0 <= k < i ==> is_dec_digit(#[trigger] s@[k]),
            acc == dec_value(s@.take(i as int)),
        decreases n - i,
    {
        let c = s.get_char(i);
        let cv = c as u32;
        if cv < 48 || cv > 57 {
            assert(!is_dec_digit(s@[i as int]));
            return 0;
        }
        let d: u32 = cv - 48;
        proof {
            assert(s@.take(i + 1).drop_last() =~= s@.take(i as int));
            assert(s@.take(i + 1).last() == s@[i as int]);
            assert(all_dec_digits(s@.take(i as int)));
            lemma_dec_value_nonneg(s@.take(i as int));
        }
        if acc > (u128::MAX - d as u128) / 10 {
            proof {
                assert(dec_value(s@.take(i + 1)) == 10 * (acc as int) + d);
                assert(dec_value(s@.take(i + 1)) > u128::MAX);
                if all_dec_digits(s@) {
                    lemma_dec_value_prefix(s@, i + 1);
                    assert(dec_value(s@) > u128::MAX);
                }
            }
            return 0;
        }
        acc = acc * 10 + d as u128;
        i = i + 1;
    }
    proof {
        assert(s@.take(n as int) =~= s@);
    }
    acc
}

} // verus!
