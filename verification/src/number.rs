//! Reading an integer from text.
//!
//! Text is an integer by how it is written, whatever its size: an optional
//! sign, then digits. Whether the integer fits a machine word is a second
//! question, answered apart from the first.

use vstd::prelude::*;
use vstd::string::StrSliceExecFns;
use vstd::utf8::is_ascii_chars;

verus! {

/// Whether `c` is one of the ten ASCII digits.
pub open spec fn is_digit(c: char) -> bool {
    '0' <= c <= '9'
}

/// The number that the digit `c` stands for.
pub open spec fn digit_value(c: char) -> nat
    recommends
        is_digit(c),
{
    (c as u32 - '0' as u32) as nat
}

/// Whether every character of `s` is a digit.
pub open spec fn all_digits(s: Seq<char>) -> bool {
    forall|i: int| 0 <= i < s.len() ==> is_digit(#[trigger] s[i])
}

/// The number that a run of digits denotes in base ten, most significant digit
/// first. The empty run denotes zero.
pub open spec fn digits_value(s: Seq<char>) -> nat
    recommends
        all_digits(s),
    decreases s.len(),
{
    if s.len() == 0 {
        0
    } else {
        digits_value(s.drop_last()) * 10 + digit_value(s.last())
    }
}

/// Whether `s` begins with a sign, `+` or `-`.
pub open spec fn has_sign(s: Seq<char>) -> bool {
    s.len() > 0 && (s[0] == '+' || s[0] == '-')
}

/// Whether `s` begins with the sign `-`.
pub open spec fn has_minus(s: Seq<char>) -> bool {
    s.len() > 0 && s[0] == '-'
}

/// The text behind the one sign that may lead it.
pub open spec fn digits_part(s: Seq<char>) -> Seq<char> {
    if has_sign(s) {
        s.subrange(1, s.len() as int)
    } else {
        s
    }
}

/// Whether `s` is written as an integer: an optional `+` or `-`, then one
/// digit or more, and nothing else. Leading zeros are allowed, blanks are
/// not, and the number of digits is not limited.
pub open spec fn is_integer_text(s: Seq<char>) -> bool {
    digits_part(s).len() > 0 && all_digits(digits_part(s))
}

/// The integer that `s` denotes, where it is written as one.
pub open spec fn integer_text(s: Seq<char>) -> Option<int> {
    if !is_integer_text(s) {
        None
    } else if has_minus(s) {
        Some(-(digits_value(digits_part(s)) as int))
    } else {
        Some(digits_value(digits_part(s)) as int)
    }
}

/// What reading a text as an integer gives.
#[derive(Clone, Copy, Debug, PartialEq, Eq, Structural)]
pub enum ParsedInteger {
    /// The text is not written as an integer.
    Malformed,
    /// The text is an integer that 32 unsigned bits cannot hold: a negative
    /// one, or one above `u32::MAX`.
    Unrepresentable,
    /// The text is this integer.
    Value(u32),
}

/// What reading `s` as an integer gives.
pub open spec fn parsed(s: Seq<char>) -> ParsedInteger {
    match integer_text(s) {
        None => ParsedInteger::Malformed,
        Some(v) => if 0 <= v <= u32::MAX {
            ParsedInteger::Value(v as u32)
        } else {
            ParsedInteger::Unrepresentable
        },
    }
}

/// Reading more digits never makes the number smaller.
pub proof fn lemma_digits_value_prefix(s: Seq<char>, k: int)
    requires
        0 <= k <= s.len(),
    ensures
        digits_value(s.subrange(0, k)) <= digits_value(s),
    decreases s.len(),
{
    if k == s.len() {
        assert(s.subrange(0, k) =~= s);
    } else {
        lemma_digits_value_prefix(s.drop_last(), k);
        assert(s.drop_last().subrange(0, k) =~= s.subrange(0, k));
    }
}

/// Text written as an integer holds ASCII characters only.
pub proof fn lemma_integer_text_is_ascii(s: Seq<char>)
    requires
        is_integer_text(s),
    ensures
        is_ascii_chars(s),
{
    let digits = digits_part(s);
    assert forall|i: int| 0 <= i < s.len() implies '\0' <= #[trigger] s[i] <= '\u{7f}' by {
        if has_sign(s) {
            if i > 0 {
                assert(is_digit(digits[i - 1]));
            }
        } else {
            assert(is_digit(digits[i]));
        }
    }
}

/// Reads `text` as an integer.
///
/// The whole text must be the integer: an optional `+` or `-`, then digits.
/// Anything else is `Malformed`. An integer that is negative or above
/// `u32::MAX` is `Unrepresentable`, however many digits it has; `-0` is zero.
pub fn parse_integer(text: &str) -> (result: ParsedInteger)
    ensures
        result == parsed(text@),
{
    if !text.is_ascii() {
        proof {
            if is_integer_text(text@) {
                lemma_integer_text_is_ascii(text@);
            }
        }
        return ParsedInteger::Malformed;
    }
    let n: usize = text.unicode_len();
    let first: u8 = if n > 0 {
        text.get_ascii(0)
    } else {
        0
    };
    let negative: bool = n > 0 && first == 45;
    let start: usize = if n > 0 && (first == 43 || first == 45) {
        1
    } else {
        0
    };
    assert(negative == has_minus(text@));
    assert((start == 1) == has_sign(text@));
    if start == n {
        return ParsedInteger::Malformed;
    }
    let ghost digits = digits_part(text@);
    assert(digits =~= text@.subrange(start as int, n as int));
    let mut acc: u32 = 0;
    let mut too_large: bool = false;
    let mut i: usize = start;
    while i < n
        invariant
            start <= i <= n,
            n == text@.len(),
            text.is_ascii(),
            digits == digits_part(text@),
            digits == text@.subrange(start as int, n as int),
            all_digits(digits.subrange(0, i - start)),
            !too_large ==> acc == digits_value(digits.subrange(0, i - start)),
            too_large ==> digits_value(digits.subrange(0, i - start)) > u32::MAX,
        decreases n - i,
    {
        let byte: u8 = text.get_ascii(i);
        let ghost c = text@[i as int];
        let ghost seen = digits.subrange(0, i - start);
        let ghost next = digits.subrange(0, i - start + 1);
        assert(digits[i - start] == c);
        if !(48 <= byte && byte <= 57) {
            assert(!is_digit(digits[i - start]));
            return ParsedInteger::Malformed;
        }
        proof {
            assert(next.drop_last() =~= seen);
            assert(next.last() == c);
            assert(all_digits(next)) by {
                assert forall|j: int| 0 <= j < next.len() implies is_digit(#[trigger] next[j]) by {
                    if j < seen.len() {
                        assert(next[j] == seen[j]);
                    }
                }
            }
            assert(digits_value(next) == digits_value(seen) * 10 + digit_value(c));
        }
        if !too_large {
            let d: u32 = (byte - 48) as u32;
            match acc.checked_mul(10) {
                Some(scaled) => match scaled.checked_add(d) {
                    Some(sum) => {
                        acc = sum;
                    },
                    None => {
                        too_large = true;
                    },
                },
                None => {
                    too_large = true;
                },
            }
        }
        i = i + 1;
    }
    assert(digits.subrange(0, n - start) =~= digits);
    if too_large || (negative && acc != 0) {
        ParsedInteger::Unrepresentable
    } else {
        ParsedInteger::Value(acc)
    }
}

} // verus!
