//! Reading the numbers of escape sequences.

use vstd::prelude::*;

verus! {

/// The value of `c` as a digit, up to the hexadecimal ones.
pub open spec fn digit_value(c: char) -> Option<nat> {
    if '0' <= c && c <= '9' {
        Some((c as u32 - '0' as u32) as nat)
    } else if 'a' <= c && c <= 'f' {
        Some((c as u32 - 'a' as u32 + 10) as nat)
    } else if 'A' <= c && c <= 'F' {
        Some((c as u32 - 'A' as u32 + 10) as nat)
    } else {
        None
    }
}

/// Whether every character of `digits` is a digit below `radix`.
pub open spec fn all_digits(digits: Seq<char>, radix: nat) -> bool {
    forall|i: int|
        0 <= i < digits.len() ==> digit_value(#[trigger] digits[i]) is Some && digit_value(
            digits[i],
        ).unwrap() < radix
}

/// The number that `digits` write in the given radix.
pub open spec fn digits_value(digits: Seq<char>, radix: nat) -> nat
    decreases digits.len(),
{
    if digits.len() == 0 {
        0
    } else {
        digits_value(digits.drop_last(), radix) * radix + match digit_value(digits.last()) {
            Some(v) => v,
            None => 0,
        }
    }
}

/// Whether `v` is a Unicode scalar value: a code point that is no surrogate.
pub open spec fn is_scalar(v: nat) -> bool {
    v <= 0xd7ff || (0xe000 <= v && v <= 0x10ffff)
}

/// The character whose code point `digits` write in the given radix, where
/// they write one.
pub open spec fn code_point(digits: Seq<char>, radix: nat) -> Option<char> {
    if digits.len() > 0 && all_digits(digits, radix) && is_scalar(digits_value(digits, radix)) {
        Some((digits_value(digits, radix) as u32) as char)
    } else {
        None
    }
}

/// `char::from_u32`: the character with the code point `i`, and nothing for
/// a surrogate or a number past the last code point.
pub assume_specification[ char::from_u32 ](i: u32) -> (c: Option<char>)
    ensures
        match c {
            Some(found) => is_scalar(i as nat) && found as u32 == i,
            None => !is_scalar(i as nat),
        },
;

/// Reads `c` as a digit.
pub fn digit_of(c: char) -> (value: Option<u32>)
    ensures
        match value {
            Some(v) => digit_value(c) == Some(v as nat) && v < 16,
            None => digit_value(c) is None,
        },
{
    if '0' <= c && c <= '9' {
        Some(c as u32 - '0' as u32)
    } else if 'a' <= c && c <= 'f' {
        Some(c as u32 - 'a' as u32 + 10)
    } else if 'A' <= c && c <= 'F' {
        Some(c as u32 - 'A' as u32 + 10)
    } else {
        None
    }
}

proof fn lemma_digits_grow(digits: Seq<char>, radix: nat)
    requires
        radix >= 1,
        digits.len() > 0,
    ensures
        digits_value(digits, radix) >= digits_value(digits.drop_last(), radix),
{
    let front = digits_value(digits.drop_last(), radix);
    assert(front * radix >= front) by (nonlinear_arith)
        requires
            radix >= 1,
    ;
}

/// Reads the characters of `text` from `start` up to `end` as the code
/// point of a character, written in the given radix.
pub fn read_code_point(text: &Vec<char>, start: usize, end: usize, radix: u32) -> (found: Option<
    char,
>)
    requires
        start <= end <= text@.len(),
        radix == 10 || radix == 16,
    ensures
        found == code_point(text@.subrange(start as int, end as int), radix as nat),
{
    let ghost digits = text@.subrange(start as int, end as int);
    if start == end {
        return None;
    }
    // The number read so far; numbers past the last code point are all held
    // as the same value.
    let mut value: u32 = 0;
    let mut i: usize = start;
    while i < end
        invariant
            start <= i <= end <= text@.len(),
            radix == 10 || radix == 16,
            digits == text@.subrange(start as int, end as int),
            all_digits(digits.take(i - start), radix as nat),
            value <= 0x110000,
            value == if digits_value(digits.take(i - start), radix as nat) > 0x110000 {
                0x110000
            } else {
                digits_value(digits.take(i - start), radix as nat)
            },
        decreases end - i,
    {
        let ghost before = digits.take(i - start);
        let ghost after = digits.take(i - start + 1);
        proof {
            assert(after.drop_last() == before);
            assert(after.last() == text@[i as int]);
            lemma_digits_grow(after, radix as nat);
        }
        match digit_of(text[i]) {
            Some(digit) => {
                if digit >= radix {
                    assert(after[i - start] == digits[i - start]);
                    assert(!all_digits(digits, radix as nat));
                    return None;
                }
                let ghost earlier = digits_value(before, radix as nat);
                assert(value * radix + digit <= 0x110000 * 16 + 16) by (nonlinear_arith)
                    requires
                        value <= 0x110000,
                        radix <= 16,
                        digit < 16,
                ;
                let next: u32 = value * radix + digit;
                proof {
                    if earlier > 0x110000 {
                        assert(earlier * radix + digit > 0x110000) by (nonlinear_arith)
                            requires
                                earlier > 0x110000,
                                radix >= 1,
                        ;
                    }
                    if value == 0x110000 {
                        assert(value * radix + digit >= 0x110000) by (nonlinear_arith)
                            requires
                                value == 0x110000,
                                radix >= 1,
                        ;
                    }
                }
                value = if next > 0x110000 {
                    0x110000
                } else {
                    next
                };
                assert forall|j: int| 0 <= j < after.len() implies digit_value(
                    #[trigger] after[j],
                ) is Some && digit_value(after[j]).unwrap() < radix by {
                    if j < before.len() {
                        assert(after[j] == before[j]);
                    }
                }
            },
            None => {
                assert(after[i - start] == digits[i - start]);
                assert(!all_digits(digits, radix as nat));
                return None;
            },
        }
        i = i + 1;
    }
    assert(digits.take(end - start) == digits);
    let found = char::from_u32(value);
    proof {
        match found {
            Some(c) => {
                assert(digits_value(digits, radix as nat) == value);
                vstd::utf8::char_u32_cast(c, value);
            },
            None => {},
        }
    }
    found
}

} // verus!
