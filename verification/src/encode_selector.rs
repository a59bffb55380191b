//! Shortest selector names over a chosen alphabet.
//!
//! An alphabet is a pair: the characters that may appear in a name, without
//! repetition, and the ascending positions of those characters that may not
//! lead a name (digits, `-` and `_`). Ordinals are numbered through the
//! names in order of length, then in alphabet order, leaving out every name
//! with a forbidden leading character.

use vstd::prelude::*;

use crate::text::string_of;

verus! {

/// `b` raised to the power `e`.
pub open spec fn power(b: nat, e: nat) -> nat
    decreases e,
{
    if e == 0 {
        1
    } else {
        b * power(b, (e - 1) as nat)
    }
}

/// How many ordinals have a name of at most `len` characters, for an
/// alphabet of `b` characters of which `s` may lead a name: the sum of
/// `s * b^(k-1)` for `k` from 1 to `len`.
pub open spec fn capacity(s: nat, b: nat, len: nat) -> nat
    decreases len,
{
    if len == 0 {
        0
    } else {
        capacity(s, b, (len - 1) as nat) + s * power(b, (len - 1) as nat)
    }
}

/// Length of the name of the `r`-th ordinal among those whose names have at
/// least as many characters as a block of `s * floor` names stands for.
pub open spec fn places(r: nat, s: nat, b: nat, floor: nat) -> nat
    decreases r,
{
    if s * floor == 0 || r < s * floor {
        1
    } else {
        1 + places((r - s * floor) as nat, s, b, floor * b)
    }
}

/// Length of the name of ordinal `n`.
pub open spec fn encoded_len(n: nat, s: nat, b: nat) -> nat {
    places(n, s, b, 1)
}

/// Number of forbidden positions, counted from the `k`-th, that the `lead`-th
/// permitted position has to step over.
pub open spec fn skipped(lead: nat, inv: Seq<usize>, k: nat) -> nat
    decreases inv.len() - k,
{
    if k < inv.len() && lead + k >= inv[k as int] {
        skipped(lead, inv, k + 1)
    } else {
        k
    }
}

/// Position within its length class of ordinal `n`.
pub open spec fn rank_in_class(n: nat, s: nat, b: nat) -> nat {
    (n - capacity(s, b, (encoded_len(n, s, b) - 1) as nat)) as nat
}

/// Alphabet position of the leading character of the name of ordinal `n`.
pub open spec fn leading_position(n: nat, b: nat, inv: Seq<usize>) -> nat {
    let s = (b - inv.len()) as nat;
    let len = encoded_len(n, s, b);
    let lead = rank_in_class(n, s, b) / power(b, (len - 1) as nat);
    skipped(lead, inv, 0) + lead
}

/// Alphabet position of the character at index `i` of the name of ordinal
/// `n`.
pub open spec fn position_at(n: nat, b: nat, inv: Seq<usize>, i: int) -> nat {
    let s = (b - inv.len()) as nat;
    let len = encoded_len(n, s, b);
    if i == 0 {
        leading_position(n, b, inv)
    } else {
        (rank_in_class(n, s, b) / power(b, (len - 1 - i) as nat)) % b
    }
}

/// The name of ordinal `n` over the alphabet `(chars, inv)`.
pub open spec fn radix_name(n: nat, chars: Seq<char>, inv: Seq<usize>) -> Seq<char>
    recommends
        inv.len() < chars.len(),
{
    let b = chars.len();
    let s = (b - inv.len()) as nat;
    Seq::new(encoded_len(n, s, b), |i: int| chars[position_at(n, b, inv, i) as int])
}

/// Whether `c` cannot appear in a selector name at all: the ASCII controls,
/// punctuation and syntax characters other than `-` and `_`.
pub open spec fn is_css_invalid(c: char) -> bool {
    let v = c as u32;
    v <= 0x2c || v == 0x2e || v == 0x2f || (0x3a <= v && v <= 0x40) || (0x5b <= v && v <= 0x5e)
        || v == 0x60 || (0x7b <= v && v <= 0x7f)
}

/// Whether `c` cannot lead a selector name: a digit, `-` or `_`.
pub open spec fn is_invalid_first(c: char) -> bool {
    ('0' <= c && c <= '9') || c == '-' || c == '_'
}

/// The permitted characters of `input`, each kept where it first occurs.
pub open spec fn alphabet_chars(input: Seq<char>) -> Seq<char>
    decreases input.len(),
{
    if input.len() == 0 {
        Seq::empty()
    } else {
        let before = alphabet_chars(input.drop_last());
        let c = input.last();
        if is_css_invalid(c) || before.contains(c) {
            before
        } else {
            before.push(c)
        }
    }
}

/// The ascending positions in `chars` of the characters that cannot lead a
/// name.
pub open spec fn invalid_first_positions(chars: Seq<char>) -> Seq<usize>
    decreases chars.len(),
{
    if chars.len() == 0 {
        Seq::empty()
    } else {
        let before = invalid_first_positions(chars.drop_last());
        if is_invalid_first(chars.last()) {
            before.push((chars.len() - 1) as usize)
        } else {
            before
        }
    }
}

/// An alphabet that `to_radix` can draw names from: at least one of its
/// characters may lead a name.
pub open spec fn alphabet_usable(alphabet: (Vec<char>, Vec<usize>)) -> bool {
    alphabet.1@.len() < alphabet.0@.len()
}

/// Tells whether `alphabet` has a character left that may lead a name.
pub fn is_alphabet_usable(alphabet: &(Vec<char>, Vec<usize>)) -> (usable: bool)
    ensures
        usable == alphabet_usable(*alphabet),
{
    alphabet.1.len() < alphabet.0.len()
}

/// A power of a positive number is positive.
pub proof fn lemma_power_positive(b: nat, e: nat)
    requires
        b >= 1,
    ensures
        power(b, e) >= 1,
    decreases e,
{
    if e > 0 {
        lemma_power_positive(b, (e - 1) as nat);
        assert(b * power(b, (e - 1) as nat) >= 1) by (nonlinear_arith)
            requires
                b >= 1,
                power(b, (e - 1) as nat) >= 1,
        ;
    }
}

/// Dividing by `b` once more is dividing by the next power of `b`.
pub proof fn lemma_div_power_step(r: nat, b: nat, e: nat)
    requires
        b >= 1,
    ensures
        power(b, e) >= 1,
        (r / power(b, e)) / b == r / power(b, e + 1),
{
    lemma_power_positive(b, e);
    vstd::arithmetic::div_mod::lemma_div_denominator(r as int, power(b, e) as int, b as int);
    assert(power(b, e) * b == power(b, e + 1)) by (nonlinear_arith)
        requires
            power(b, e + 1) == b * power(b, e),
    ;
}

/// Converts an ordinal into its name over `alphabet`: the shortest string of
/// alphabet characters not used by a smaller ordinal whose leading character
/// is permitted in that place.
pub fn to_radix(ordinal: &usize, alphabet: &(Vec<char>, Vec<usize>)) -> (name: String)
    requires
        alphabet_usable(*alphabet),
    ensures
        name@ == radix_name(*ordinal as nat, alphabet.0@, alphabet.1@),
{
    let base: usize = alphabet.0.len();
    let subset: usize = base - alphabet.1.len();
    let ghost n = *ordinal as nat;
    let ghost b = base as nat;
    let ghost s = subset as nat;
    let ghost inv = alphabet.1@;

    // Work out the number of places the name takes up.
    let mut rest: usize = *ordinal;
    let mut floor: u128 = 1;
    let mut exponent: u128 = 0;
    loop
        invariant
            b == base,
            s == subset,
            s >= 1,
            b >= 1,
            floor == power(b, exponent as nat),
            floor >= 1,
            rest + capacity(s, b, exponent as nat) == n,
            places(rest as nat, s, b, floor as nat) + exponent == encoded_len(n, s, b),
            exponent + rest <= n,
            n <= usize::MAX,
        ensures
            rest < s * floor,
        decreases rest,
    {
        if floor > rest as u128 {
            assert(s * floor >= floor) by (nonlinear_arith)
                requires
                    s >= 1,
            ;
            break ;
        }
        assert(subset * floor <= u128::MAX) by (nonlinear_arith)
            requires
                subset <= u64::MAX,
                floor <= u64::MAX,
        ;
        let block: u128 = subset as u128 * floor;
        if (rest as u128) < block {
            break ;
        }
        assert(block >= 1) by (nonlinear_arith)
            requires
                block == subset * floor,
                subset >= 1,
                floor >= 1,
        ;
        assert(floor * base <= u128::MAX) by (nonlinear_arith)
            requires
                base <= u64::MAX,
                floor <= u64::MAX,
        ;
        rest = rest - block as usize;
        floor = floor * base as u128;
        exponent = exponent + 1;
        assert(floor == power(b, exponent as nat)) by (nonlinear_arith)
            requires
                floor == power(b, (exponent - 1) as nat) * b,
                power(b, exponent as nat) == b * power(b, (exponent - 1) as nat),
        ;
        proof {
            lemma_power_positive(b, exponent as nat);
        }
    }
    proof {
        lemma_power_positive(b, exponent as nat);
    }
    let ghost rank = rest as nat;
    assert(rank == rank_in_class(n, s, b));
    assert(rank < s * power(b, exponent as nat));

    // The trailing characters, from the last one backwards.
    let mut trailing: Vec<char> = Vec::new();
    let mut quotient: usize = rest;
    let mut done: u128 = 0;
    assert(power(b, 0) == 1);
    while done < exponent
        invariant
            b == base,
            b >= 1,
            base == alphabet.0@.len(),
            done <= exponent,
            trailing@.len() == done,
            quotient == rank / power(b, done as nat),
            forall|j: int|
                0 <= j < done ==> trailing@[j] == alphabet.0@[((rank / power(b, j as nat))
                    % b) as int],
        decreases exponent - done,
    {
        let remainder: usize = quotient % base;
        trailing.push(alphabet.0[remainder]);
        proof {
            lemma_div_power_step(rank, b, done as nat);
        }
        quotient = quotient / base;
        done = done + 1;
    }

    // The leading character steps over the forbidden positions.
    proof {
        lemma_power_positive(b, exponent as nat);
        assert(quotient < s) by (nonlinear_arith)
            requires
                quotient == rank / power(b, exponent as nat),
                rank < s * power(b, exponent as nat),
                power(b, exponent as nat) >= 1,
        ;
    }
    let mut offset: usize = 0;
    while offset < alphabet.1.len() && quotient + offset >= alphabet.1[offset]
        invariant
            offset <= alphabet.1@.len(),
            quotient < s,
            s + alphabet.1@.len() == b,
            b == base,
            inv == alphabet.1@,
            skipped(quotient as nat, inv, offset as nat) == skipped(quotient as nat, inv, 0),
        decreases alphabet.1@.len() - offset,
    {
        offset = offset + 1;
    }
    assert(offset + quotient == leading_position(n, b, inv));
    assert(offset + quotient < alphabet.0@.len());

    let mut encoded: Vec<char> = Vec::new();
    encoded.push(alphabet.0[quotient + offset]);
    let mut left: usize = trailing.len();
    while left > 0
        invariant
            left <= trailing@.len(),
            trailing@.len() == exponent,
            encoded@.len() == 1 + trailing@.len() - left,
            leading_position(n, b, inv) < alphabet.0@.len(),
            encoded@[0] == alphabet.0@[leading_position(n, b, inv) as int],
            forall|i: int|
                1 <= i < encoded@.len() ==> encoded@[i] == trailing@[trailing@.len() - i],
        decreases left,
    {
        left = left - 1;
        encoded.push(trailing[left]);
    }
    assert(encoded@ =~= radix_name(n, alphabet.0@, alphabet.1@));
    string_of(&encoded)
}

/// Reads an alphabet off a string: the characters that a selector name may
/// hold, each once and in the order of first appearance, together with the
/// positions of those that cannot lead a name.
pub fn into_alphabet_set(alphabet: &str) -> (set: (Vec<char>, Vec<usize>))
    ensures
        set.0@ == alphabet_chars(alphabet@),
        set.1@ == invalid_first_positions(set.0@),
{
    let input = crate::text::chars_of(alphabet);
    let mut chars: Vec<char> = Vec::new();
    let mut i: usize = 0;
    while i < input.len()
        invariant
            i <= input@.len(),
            chars@ == alphabet_chars(input@.take(i as int)),
        decreases input@.len() - i,
    {
        let c = input[i];
        let mut seen = false;
        let mut j: usize = 0;
        while j < chars.len()
            invariant
                j <= chars@.len(),
                seen == chars@.take(j as int).contains(c),
            decreases chars@.len() - j,
        {
            if chars[j] == c {
                seen = true;
            }
            proof {
                let before = chars@.take(j as int);
                let after = chars@.take(j + 1);
                assert(after == before.push(chars@[j as int]));
                if before.contains(c) {
                    let k = choose|k: int| 0 <= k < before.len() && before[k] == c;
                    assert(after[k] == c);
                }
                if chars@[j as int] == c {
                    assert(after[j as int] == c);
                }
            }
            j = j + 1;
        }
        proof {
            assert(chars@.take(chars@.len() as int) == chars@);
            assert(input@.take(i + 1).drop_last() == input@.take(i as int));
            assert(input@.take(i + 1).last() == c);
        }
        if !(is_invalid_char(c) || seen) {
            chars.push(c);
        }
        i = i + 1;
    }
    assert(input@.take(input@.len() as int) == input@);

    let mut positions: Vec<usize> = Vec::new();
    let mut p: usize = 0;
    while p < chars.len()
        invariant
            p <= chars@.len(),
            positions@ == invalid_first_positions(chars@.take(p as int)),
        decreases chars@.len() - p,
    {
        proof {
            assert(chars@.take(p + 1).drop_last() == chars@.take(p as int));
            assert(chars@.take(p + 1).last() == chars@[p as int]);
        }
        if is_invalid_first_char(chars[p]) {
            positions.push(p);
        }
        p = p + 1;
    }
    assert(chars@.take(chars@.len() as int) == chars@);
    (chars, positions)
}

/// Tells whether `c` is outside what a selector name may hold.
pub fn is_invalid_char(c: char) -> (invalid: bool)
    ensures
        invalid == is_css_invalid(c),
{
    let v: u32 = c as u32;
    v <= 0x2c || v == 0x2e || v == 0x2f || (0x3a <= v && v <= 0x40) || (0x5b <= v && v <= 0x5e)
        || v == 0x60 || (0x7b <= v && v <= 0x7f)
}

/// Tells whether `c` is a digit, `-` or `_`.
pub fn is_invalid_first_char(c: char) -> (invalid: bool)
    ensures
        invalid == is_invalid_first(c),
{
    ('0' <= c && c <= '9') || c == '-' || c == '_'
}

} // verus!
