//! Locating the numeral inside a noisy argument.

use vstd::prelude::*;

verus! {

/// An ASCII decimal digit.
pub open spec fn is_digit(c: char) -> bool {
    '0' <= c && c <= '9'
}

/// Where a numeral starts: at a digit, or at a hyphen right before a digit.
pub open spec fn starts_numeral(s: Seq<char>) -> bool {
    s.len() > 0 && (is_digit(s[0]) || (s[0] == '-' && s.len() > 1 && is_digit(s[1])))
}

/// Drops leading characters up to the first digit, keeping only a hyphen
/// that stands right before it.
pub open spec fn trim_leading_noise(s: Seq<char>) -> Seq<char>
    decreases s.len(),
{
    if s.len() > 0 && !starts_numeral(s) {
        trim_leading_noise(s.drop_first())
    } else {
        s
    }
}

/// Drops trailing characters back to the last digit.
pub open spec fn trim_trailing_noise(s: Seq<char>) -> Seq<char>
    decreases s.len(),
{
    if s.len() > 0 && !is_digit(s.last()) {
        trim_trailing_noise(s.drop_last())
    } else {
        s
    }
}

/// The numeral that a raw argument holds: everything before its first digit
/// thrown away but a hyphen right before that digit, and the characters after
/// its last digit thrown away.
pub open spec fn numeral_of(s: Seq<char>) -> Seq<char> {
    trim_trailing_noise(trim_leading_noise(s))
}

/// The opposite of an ASCII digit test.
pub fn not_ascii_digit(ch: char) -> (r: bool)
    ensures
        r == !is_digit(ch),
{
    !('0' <= ch && ch <= '9')
}

/// Strips the noise around the numeral in `val`, keeping a hyphen that stands
/// right before its first digit.
pub fn extract_numeral(val: &str) -> (r: &str)
    ensures
        r@ == numeral_of(val@),
{
    let n = val.unicode_len();
    let mut start: usize = 0;
    assert(val@.subrange(0, n as int) =~= val@);
    while start < n
        invariant_except_break
            start <= n,
            n == val@.len(),
            trim_leading_noise(val@) == trim_leading_noise(val@.subrange(start as int, n as int)),
        ensures
            start <= n,
            trim_leading_noise(val@) == val@.subrange(start as int, n as int),
        decreases n - start,
    {
        let c = val.get_char(start);
        if !not_ascii_digit(c) {
            break;
        }
        if c == '-' && start + 1 < n && !not_ascii_digit(val.get_char(start + 1)) {
            break;
        }
        assert(val@.subrange(start as int, n as int).drop_first() =~= val@.subrange(
            start + 1,
            n as int,
        ));
        start = start + 1;
    }
    let ghost lead = val@.subrange(start as int, n as int);
    let mut end: usize = n;
    while end > start
        invariant_except_break
            start <= end <= n,
            n == val@.len(),
            lead == val@.subrange(start as int, n as int),
            trim_trailing_noise(lead) == trim_trailing_noise(
                val@.subrange(start as int, end as int),
            ),
        ensures
            start <= end <= n,
            trim_trailing_noise(lead) == val@.subrange(start as int, end as int),
        decreases end - start,
    {
        let c = val.get_char(end - 1);
        if !not_ascii_digit(c) {
            break;
        }
        assert(val@.subrange(start as int, end as int).drop_last() =~= val@.subrange(
            start as int,
            end - 1,
        ));
        end = end - 1;
    }
    val.substring_char(start, end)
}

/// The sign that a digit-free prefix leaves before the digits that follow it.
pub open spec fn sign_left_by(lead: Seq<char>) -> Seq<char> {
    if lead.len() > 0 && lead.last() == '-' {
        seq!['-']
    } else {
        seq![]
    }
}

proof fn lemma_trim_leading_prefix(lead: Seq<char>, rest: Seq<char>)
    requires
        forall|i: int| 0 <= i < lead.len() ==> !is_digit(#[trigger] lead[i]),
        rest.len() > 0,
        is_digit(rest[0]),
    ensures
        trim_leading_noise(lead + rest) == sign_left_by(lead) + rest,
    decreases lead.len(),
{
    let s = lead + rest;
    assert(starts_numeral(rest));
    assert(trim_leading_noise(rest) == rest);
    if lead.len() == 0 {
        assert(s =~= rest);
        assert(sign_left_by(lead) + rest =~= rest);
    } else if lead.len() == 1 {
        assert(s.drop_first() =~= rest);
        assert(s[1] == rest[0]);
        if lead[0] == '-' {
            assert(starts_numeral(s));
            assert(s =~= seq!['-'] + rest);
        } else {
            assert(!starts_numeral(s));
            assert(!is_digit(lead[0]));
            assert(sign_left_by(lead) + rest =~= rest);
        }
    } else {
        assert(s[0] == lead[0] && s[1] == lead[1]);
        assert(!is_digit(lead[0]) && !is_digit(lead[1]));
        assert(!starts_numeral(s));
        assert(s.drop_first() =~= lead.drop_first() + rest);
        lemma_trim_leading_prefix(lead.drop_first(), rest);
        assert(lead.drop_first().last() == lead.last());
    }
}

proof fn lemma_trim_trailing_suffix(body: Seq<char>, trail: Seq<char>)
    requires
        body.len() > 0,
        is_digit(body.last()),
        forall|i: int| 0 <= i < trail.len() ==> !is_digit(#[trigger] trail[i]),
    ensures
        trim_trailing_noise(body + trail) == body,
    decreases trail.len(),
{
    if trail.len() == 0 {
        assert(body + trail =~= body);
    } else {
        assert((body + trail).drop_last() =~= body + trail.drop_last());
        lemma_trim_trailing_suffix(body, trail.drop_last());
    }
}

/// Noise around a run of digits is thrown away: all that stands before it but
/// a hyphen right before its first digit, and all that stands after it.
pub proof fn lemma_noise_tolerance(lead: Seq<char>, digits: Seq<char>, trail: Seq<char>)
    requires
        forall|i: int| 0 <= i < lead.len() ==> !is_digit(#[trigger] lead[i]),
        digits.len() > 0,
        forall|i: int| 0 <= i < digits.len() ==> is_digit(#[trigger] digits[i]),
        forall|i: int| 0 <= i < trail.len() ==> !is_digit(#[trigger] trail[i]),
    ensures
        numeral_of(lead + digits + trail) == sign_left_by(lead) + digits,
{
    let rest = digits + trail;
    assert(rest[0] == digits[0]);
    assert(lead + digits + trail =~= lead + rest);
    lemma_trim_leading_prefix(lead, rest);
    let body = sign_left_by(lead) + digits;
    assert(sign_left_by(lead) + rest =~= body + trail);
    assert(body.last() == digits.last());
    lemma_trim_trailing_suffix(body, trail);
}

} // verus!
