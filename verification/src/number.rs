//! Decimal numbers as a user writes them.

use vstd::prelude::*;
use crate::text::chars_of;

verus! {

/// Whether `c` is a decimal digit.
pub open spec fn is_digit(c: char) -> bool {
    '0' <= c <= '9'
}

/// Whether `s` holds decimal digits only.
pub open spec fn all_digits(s: Seq<char>) -> bool {
    forall|i: int| 0 <= i < s.len() ==> is_digit(#[trigger] s[i])
}

/// The number that the digits `s` write, the empty sequence writing 0.
pub open spec fn digits_value(s: Seq<char>) -> nat
    decreases s.len(),
{
    if s.len() == 0 {
        0
    } else {
        (digits_value(s.drop_last()) * 10 + (s.last() as u32 - '0' as u32)) as nat
    }
}

/// `s` without a plus sign at its start.
pub open spec fn unsigned_part(s: Seq<char>) -> Seq<char> {
    if s.len() > 0 && s[0] == '+' {
        s.drop_first()
    } else {
        s
    }
}

/// The number that `s` writes: an optional plus sign, then one digit or
/// more and nothing else, of a value that fits the machine's word. `None`
/// for every other text.
pub open spec fn parsed_number(s: Seq<char>) -> Option<usize> {
    let digits = unsigned_part(s);
    if digits.len() > 0 && all_digits(digits) && digits_value(digits) <= usize::MAX {
        Some(digits_value(digits) as usize)
    } else {
        None
    }
}

/// The value of digits is at least the value of any of their prefixes.
proof fn lemma_prefix_value(s: Seq<char>, k: int)
    requires
        all_digits(s),
        0 <= k <= s.len(),
    ensures
        digits_value(s.subrange(0, k)) <= digits_value(s),
    decreases s.len() - k,
{
    if k == s.len() {
        assert(s.subrange(0, k) =~= s);
    } else {
        lemma_prefix_value(s.drop_last(), k);
        assert(s.drop_last().subrange(0, k) =~= s.subrange(0, k));
        assert(is_digit(s.last()));
    }
}

/// Reads `token` as a number.
pub fn parse_number(token: &str) -> (number: Option<usize>)
    ensures
        number == parsed_number(token@),
{
    let chars = chars_of(token);
    let n: usize = chars.len();
    let first: usize = if n > 0 && chars[0] == '+' {
        1
    } else {
        0
    };
    if first == n {
        return None;
    }
    let ghost digits = unsigned_part(chars@);
    assert(digits =~= chars@.subrange(first as int, n as int));
    let mut value: usize = 0;
    let mut i: usize = first;
    while i < n
        invariant
            first <= i <= n == chars@.len(),
            chars@ == token@,
            digits == unsigned_part(chars@),
            digits == chars@.subrange(first as int, n as int),
            all_digits(digits.subrange(0, i - first)),
            value == digits_value(digits.subrange(0, i - first)),
        decreases n - i,
    {
        let c = chars[i];
        if !('0' <= c && c <= '9') {
            assert(!is_digit(digits[i - first]));
            return None;
        }
        let digit: usize = (c as u32 - '0' as u32) as usize;
        proof {
            let next = digits.subrange(0, i + 1 - first);
            assert(next.drop_last() =~= digits.subrange(0, i - first));
            assert(next.last() == c);
            assert forall|j: int| 0 <= j < next.len() implies is_digit(#[trigger] next[j]) by {
                if j < i - first {
                    assert(digits.subrange(0, i - first)[j] == next[j]);
                }
            }
            if all_digits(digits) {
                lemma_prefix_value(digits, i + 1 - first);
            }
        }
        if value > (usize::MAX - digit) / 10 {
            return None;
        }
        value = value * 10 + digit;
        i += 1;
    }
    assert(digits.subrange(0, n - first) =~= digits);
    Some(value)
}

} // verus!
