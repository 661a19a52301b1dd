//! Reading a signed decimal numeral as a 64-bit integer.

use vstd::prelude::*;

use crate::error::UnmillisError;
use crate::extract::{
    extract_numeral, is_digit, lemma_noise_tolerance, not_ascii_digit, numeral_of, sign_left_by,
};

verus! {

/// The value of an ASCII digit.
pub open spec fn digit_value(c: char) -> int {
    (c as u32) as int - ('0' as u32) as int
}

/// The value of a run of digits, read in base ten.
pub open spec fn digits_value(d: Seq<char>) -> int
    decreases d.len(),
{
    if d.len() == 0 {
        0
    } else {
        digits_value(d.drop_last()) * 10 + digit_value(d.last())
    }
}

/// One or more ASCII digits and nothing else.
pub open spec fn all_digits(d: Seq<char>) -> bool {
    d.len() > 0 && forall|i: int| 0 <= i < d.len() ==> is_digit(#[trigger] d[i])
}

/// The integer that a decimal numeral denotes: an optional sign, then one or
/// more digits.
pub open spec fn decimal_value(s: Seq<char>) -> Option<int> {
    if s.len() > 0 && s[0] == '-' && all_digits(s.drop_first()) {
        Some(-digits_value(s.drop_first()))
    } else if s.len() > 0 && s[0] == '+' && all_digits(s.drop_first()) {
        Some(digits_value(s.drop_first()))
    } else if all_digits(s) {
        Some(digits_value(s))
    } else {
        None
    }
}

/// What a numeral reads as, where its value fits a signed 64-bit integer.
pub open spec fn i64_value(s: Seq<char>) -> Option<i64> {
    match decimal_value(s) {
        Some(v) => if i64::MIN <= v <= i64::MAX {
            Some(v as i64)
        } else {
            None
        },
        None => None,
    }
}

proof fn lemma_digits_value_nonneg(d: Seq<char>)
    requires
        forall|i: int| 0 <= i < d.len() ==> is_digit(#[trigger] d[i]),
    ensures
        digits_value(d) >= 0,
    decreases d.len(),
{
    if d.len() > 0 {
        lemma_digits_value_nonneg(d.drop_last());
    }
}

/// Reading more digits never gives a smaller value.
proof fn lemma_digits_value_prefix(d: Seq<char>, k: int)
    requires
        0 <= k <= d.len(),
        forall|i: int| 0 <= i < d.len() ==> is_digit(#[trigger] d[i]),
    ensures
        digits_value(d.subrange(0, k)) <= digits_value(d),
    decreases d.len(),
{
    if k == d.len() {
        assert(d.subrange(0, k) =~= d);
    } else {
        let p = d.drop_last();
        lemma_digits_value_prefix(p, k);
        lemma_digits_value_nonneg(p);
        assert(p.subrange(0, k) =~= d.subrange(0, k));
    }
}

/// Parses `s` in base ten as a signed 64-bit integer: an optional `-` or `+`,
/// then one or more digits, and nothing else.
pub fn parse_i64(s: &str) -> (r: Option<i64>)
    ensures
        r == i64_value(s@),
{
    let n = s.unicode_len();
    if n == 0 {
        return None;
    }
    let c0 = s.get_char(0);
    let neg = c0 == '-';
    let first: usize = if c0 == '-' || c0 == '+' {
        1
    } else {
        0
    };
    if first == n {
        return None;
    }
    let ghost body = s@.subrange(first as int, n as int);
    assert(first == 1 ==> body =~= s@.drop_first());
    assert(first == 0 ==> body =~= s@);
    let mut acc: i64 = 0;
    let mut i: usize = first;
    while i < n
        invariant
            first <= i <= n,
            n == s@.len(),
            first == 0 || first == 1,
            first == 1 <==> (c0 == '-' || c0 == '+'),
            c0 == s@[0],
            neg == (c0 == '-'),
            body == s@.subrange(first as int, n as int),
            first == 1 ==> body == s@.drop_first(),
            first == 0 ==> body == s@,
            forall|j: int| first <= j < i ==> is_digit(#[trigger] s@[j]),
            neg ==> acc == -digits_value(s@.subrange(first as int, i as int)),
            !neg ==> acc == digits_value(s@.subrange(first as int, i as int)),
        decreases n - i,
    {
        let c = s.get_char(i);
        if not_ascii_digit(c) {
            assert(!is_digit(body[i - first]));
            return None;
        }
        let d = (c as u32 - '0' as u32) as i64;
        let ghost prev = s@.subrange(first as int, i as int);
        let ghost next = s@.subrange(first as int, i + 1);
        assert(next.drop_last() =~= prev);
        assert(digits_value(next) == digits_value(prev) * 10 + d);
        let step = if neg {
            match acc.checked_mul(10) {
                Some(t) => t.checked_sub(d),
                None => None,
            }
        } else {
            match acc.checked_mul(10) {
                Some(t) => t.checked_add(d),
                None => None,
            }
        };
        match step {
            Some(v) => {
                acc = v;
            },
            None => {
                proof {
                    lemma_digits_value_nonneg(prev);
                    if all_digits(body) {
                        lemma_digits_value_prefix(body, i + 1 - first);
                        assert(body.subrange(0, i + 1 - first) =~= next);
                        assert(0 <= d <= 9);
                        if neg {
                            assert(-digits_value(next) < i64::MIN);
                            assert(decimal_value(s@) == Some(-digits_value(body)));
                        } else {
                            assert(digits_value(next) > i64::MAX);
                            assert(decimal_value(s@) == Some(digits_value(body)));
                        }
                    }
                }
                return None;
            },
        }
        i = i + 1;
    }
    assert(s@.subrange(first as int, i as int) =~= body);
    Some(acc)
}

/// Reads the millisecond timestamp hidden in `val`: the noise around the
/// numeral is thrown away and what is left is parsed as a signed 64-bit integer.
pub fn parse_timestamp_millis(val: &str) -> (r: Result<i64, UnmillisError>)
    ensures
        match r {
            Ok(m) => i64_value(numeral_of(val@)) == Some(m),
            Err(UnmillisError::ParseFailure { numeral }) => i64_value(numeral_of(val@)) is None
                && numeral@ == numeral_of(val@),
            Err(UnmillisError::OutOfRange { .. }) => false,
        },
{
    let numeral = extract_numeral(val);
    match parse_i64(numeral) {
        Some(m) => Ok(m),
        None => Err(UnmillisError::ParseFailure { numeral: String::from_str(numeral) }),
    }
}

/// A run of digits amid noise reads as its value, negated where a hyphen
/// stands right before it; other hyphens before it are noise.
pub proof fn lemma_signed_numeral_in_noise(lead: Seq<char>, digits: Seq<char>, trail: Seq<char>)
    requires
        forall|i: int| 0 <= i < lead.len() ==> !is_digit(#[trigger] lead[i]),
        all_digits(digits),
        forall|i: int| 0 <= i < trail.len() ==> !is_digit(#[trigger] trail[i]),
    ensures
        decimal_value(numeral_of(lead + digits + trail)) == Some(
            if lead.len() > 0 && lead.last() == '-' {
                -digits_value(digits)
            } else {
                digits_value(digits)
            },
        ),
{
    lemma_noise_tolerance(lead, digits, trail);
    let body = sign_left_by(lead) + digits;
    if lead.len() > 0 && lead.last() == '-' {
        assert(body.drop_first() =~= digits);
    } else {
        assert(body =~= digits);
        assert(is_digit(digits[0]));
    }
}

} // verus!
