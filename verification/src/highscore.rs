//! The stored high score: a line of decimal text.

use vstd::prelude::*;
use vstd::string::StrSliceExecFns;

verus! {

/// What `str::trim` leaves of a text: the text without the whitespace at
/// its two ends.
pub uninterp spec fn trimmed(text: Seq<char>) -> Seq<char>;

/// Calls `str::trim`, which returns the slice of the text that is left when
/// leading and trailing whitespace is taken away.
#[verifier::external_body]
fn trim_text(text: &str) -> (t: &str)
    ensures
        t@ == trimmed(text@),
{
    text.trim()
}

/// Whether `c` is one of the ten decimal digits.
pub open spec fn is_digit(c: char) -> bool {
    48 <= c as u32 <= 57
}

/// The value of the decimal digit `c`.
pub open spec fn digit_value(c: char) -> int {
    c as u32 - 48
}

/// Whether `s` consists of decimal digits, at least one.
pub open spec fn is_number(s: Seq<char>) -> bool {
    s.len() > 0 && forall|i: int| 0 <= i < s.len() ==> is_digit(#[trigger] s[i])
}

/// The number that the digits of `s` write in base ten.
pub open spec fn decimal_value(s: Seq<char>) -> int
    decreases s.len(),
{
    if s.len() == 0 {
        0
    } else {
        10 * decimal_value(s.drop_last()) + digit_value(s.last())
    }
}

/// The text without a plus sign in front.
pub open spec fn unsigned_part(s: Seq<char>) -> Seq<char> {
    if s.len() > 0 && s[0] == '+' {
        s.skip(1)
    } else {
        s
    }
}

/// The score that a text writes: the value of its digits, which a single
/// plus sign may precede, if that value fits 32 bits. Any other text, the
/// empty one included, writes no score.
pub open spec fn written_score(s: Seq<char>) -> Option<u32> {
    let digits = unsigned_part(s);
    if is_number(digits) && decimal_value(digits) <= u32::MAX {
        Some(decimal_value(digits) as u32)
    } else {
        None
    }
}

/// The high score that a text stands for: the score it writes, or zero
/// where it writes none.
pub open spec fn high_score_of(s: Seq<char>) -> u32 {
    match written_score(s) {
        Some(score) => score,
        None => 0,
    }
}

/// The digits of a number write at least what any of its beginnings writes.
proof fn lemma_value_grows(s: Seq<char>, n: int)
    requires
        0 <= n <= s.len(),
        forall|i: int| 0 <= i < s.len() ==> is_digit(#[trigger] s[i]),
    ensures
        0 <= decimal_value(s.take(n)) <= decimal_value(s),
    decreases s.len() - n,
{
    if n == s.len() {
        assert(s.take(n) =~= s);
        lemma_value_is_natural(s);
    } else {
        lemma_value_grows(s, n + 1);
        assert(s.take(n + 1).drop_last() =~= s.take(n));
        assert(is_digit(s[n]));
        lemma_value_is_natural(s.take(n));
    }
}

proof fn lemma_value_is_natural(s: Seq<char>)
    requires
        forall|i: int| 0 <= i < s.len() ==> is_digit(#[trigger] s[i]),
    ensures
        0 <= decimal_value(s),
    decreases s.len(),
{
    if s.len() > 0 {
        lemma_value_is_natural(s.drop_last());
        assert(is_digit(s[s.len() - 1]));
    }
}

/// Reads a score from a text without surrounding whitespace. A text that
/// writes no score reads as zero.
pub fn parse_score(text: &str) -> (score: u32)
    ensures
        score == high_score_of(text@),
{
    let n = text.unicode_len();
    if n == 0 {
        return 0;
    }
    let start: usize = if text.get_char(0) == '+' {
        1
    } else {
        0
    };
    let ghost digits = unsigned_part(text@);
    if start == n {
        return 0;
    }
    let mut value: u64 = 0;
    let mut i: usize = start;
    while i < n
        invariant
            start <= i <= n,
            n == text@.len(),
            digits == text@.skip(start as int),
            digits == unsigned_part(text@),
            forall|k: int| 0 <= k < i - start ==> is_digit(#[trigger] digits[k]),
            value == decimal_value(digits.take(i - start)),
            value <= u32::MAX,
        decreases n - i,
    {
        let c = text.get_char(i);
        let code: u32 = c as u32;
        proof {
            assert(digits[i - start] == c);
            assert(digits.take(i - start + 1).drop_last() =~= digits.take(i - start));
        }
        if code < 48 || code > 57 {
            return 0;
        }
        value = value * 10 + (code - 48) as u64;
        if value > u32::MAX as u64 {
            proof {
                if is_number(digits) {
                    lemma_value_grows(digits, i - start + 1);
                }
            }
            return 0;
        }
        i += 1;
    }
    proof {
        assert(digits.take(n - start) =~= digits);
    }
    value as u32
}

/// Reads the high score from what the store holds: the text is trimmed
/// and read as a score. A text that writes none reads as zero.
pub fn load_highscore(content: &str) -> (score: u32)
    ensures
        score == high_score_of(trimmed(content@)),
{
    parse_score(trim_text(content))
}

} // verus!
