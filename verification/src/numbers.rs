//! Base-10 signed 32-bit integer literals.
//!
//! Argument values that look like integers are coerced to `i32`. A literal is
//! an optional `-` sign followed by one or more ASCII digits; a leading `+` is
//! not part of the grammar, and a value outside the `i32` range is not a
//! literal at all (the coercers fall back to a plain string).

use vstd::prelude::*;

verus! {

/// An ASCII decimal digit.
pub open spec fn is_digit(c: char) -> bool {
    48 <= c as u32 <= 57
}

/// The numeric value of an ASCII decimal digit.
pub open spec fn digit_value(c: char) -> int {
    c as u32 - 48
}

/// Every character of `s` is an ASCII decimal digit, and there is at least one.
pub open spec fn all_digits(s: Seq<char>) -> bool {
    s.len() > 0 && forall|i: int| 0 <= i < s.len() ==> is_digit(s[i])
}

/// The base-10 value of a digit sequence (0 for the empty sequence).
pub open spec fn digits_value(s: Seq<char>) -> int
    decreases s.len(),
{
    if s.len() == 0 {
        0
    } else {
        digits_value(s.drop_last()) * 10 + digit_value(s.last())
    }
}

/// The magnitude part of `s`: the characters after an optional leading `-`.
pub open spec fn magnitude_part(s: Seq<char>) -> Seq<char> {
    if s.len() > 0 && s[0] == '-' {
        s.skip(1)
    } else {
        s
    }
}

/// `s` spells an integer that fits in `i32`: an optional `-` sign followed by
/// one or more ASCII digits, with the signed value within the `i32` range.
pub open spec fn is_i32_literal(s: Seq<char>) -> bool {
    if s.len() > 0 && s[0] == '-' {
        all_digits(s.skip(1)) && digits_value(s.skip(1)) <= 0x8000_0000
    } else {
        all_digits(s) && digits_value(s) <= 0x7fff_ffff
    }
}

/// The signed value spelled by an `i32` literal.
pub open spec fn i32_literal_value(s: Seq<char>) -> int {
    if s.len() > 0 && s[0] == '-' {
        -digits_value(s.skip(1))
    } else {
        digits_value(s)
    }
}

/// A digit sequence has a non-negative value.
proof fn lemma_digits_value_nonneg(s: Seq<char>)
    requires
        forall|i: int| 0 <= i < s.len() ==> is_digit(s[i]),
    ensures
        digits_value(s) >= 0,
    decreases s.len(),
{
    if s.len() > 0 {
        lemma_digits_value_nonneg(s.drop_last());
    }
}

/// Extending a digit sequence never shrinks its value.
proof fn lemma_digits_value_prefix(s: Seq<char>, j: int)
    requires
        forall|i: int| 0 <= i < s.len() ==> is_digit(s[i]),
        0 <= j <= s.len(),
    ensures
        digits_value(s) >= digits_value(s.take(j)),
    decreases s.len(),
{
    lemma_digits_value_nonneg(s.take(j));
    if j < s.len() {
        assert(s.drop_last().take(j) =~= s.take(j));
        lemma_digits_value_prefix(s.drop_last(), j);
        lemma_digits_value_nonneg(s.drop_last());
    } else {
        assert(s.take(j) =~= s);
    }
}

/// The value of an `i32` literal lies within the `i32` range.
pub proof fn lemma_i32_literal_value_in_range(s: Seq<char>)
    requires
        is_i32_literal(s),
    ensures
        -0x8000_0000 <= i32_literal_value(s) <= 0x7fff_ffff,
{
    if s.len() > 0 && s[0] == '-' {
        lemma_digits_value_nonneg(s.skip(1));
    } else {
        lemma_digits_value_nonneg(s);
    }
}

/// Parses `s` as a base-10 `i32`, returning `None` when `s` is not an
/// in-range integer literal.
pub fn parse_i32(s: &str) -> (r: Option<i32>)
    ensures
        match r {
            Some(n) => is_i32_literal(s@) && n == i32_literal_value(s@),
            None => !is_i32_literal(s@),
        },
{
    let n = s.unicode_len();
    let negative = n > 0 && s.get_char(0) == '-';
    let start: usize = if negative {
        1
    } else {
        0
    };
    let ghost mag = magnitude_part(s@);
    proof {
        assert(mag =~= s@.subrange(start as int, n as int));
    }
    if start >= n {
        // Empty string, or a bare sign with no digits.
        return None;
    }
    let mut acc: u64 = 0;
    let mut i = start;
    while i < n
        invariant
            start <= i <= n,
            n == s@.len(),
            start <= 1,
            start == 1 <==> (s@.len() > 0 && s@[0] == '-'),
            mag == magnitude_part(s@),
            mag == s@.subrange(start as int, n as int),
            forall|j: int| start <= j < i ==> is_digit(s@[j]),
            acc == digits_value(s@.subrange(start as int, i as int)),
            acc <= 0x8000_0000,
        decreases n - i,
    {
        let c = s.get_char(i);
        let cu = c as u32;
        if cu < 48 || cu > 57 {
            proof {
                // A non-digit within the magnitude: not an integer literal.
                assert(mag[i - start] == s@[i as int]);
                assert(!all_digits(mag));
                assert(!is_i32_literal(s@));
            }
            return None;
        }
        proof {
            assert(s@.subrange(start as int, i + 1).drop_last() =~= s@.subrange(
                start as int,
                i as int,
            ));
        }
        acc = acc * 10 + (cu - 48) as u64;
        if acc > 0x8000_0000 {
            proof {
                // Whatever follows, the magnitude is already out of range.
                assert(acc == digits_value(s@.subrange(start as int, i + 1)));
                if all_digits(mag) {
                    assert(mag.take(i + 1 - start) =~= s@.subrange(start as int, i + 1));
                    lemma_digits_value_prefix(mag, i + 1 - start);
                    assert(digits_value(mag) > 0x8000_0000);
                }
                assert(!is_i32_literal(s@));
            }
            return None;
        }
        i += 1;
    }
    proof {
        assert(s@.subrange(start as int, n as int) =~= mag);
        assert(all_digits(mag));
    }
    if negative {
        if acc == 0x8000_0000 {
            Some(-2147483647i32 - 1)
        } else {
            Some(-(acc as i32))
        }
    } else {
        if acc > 0x7fff_ffff {
            None
        } else {
            Some(acc as i32)
        }
    }
}

} // verus!
