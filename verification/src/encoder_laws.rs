//! What holds of every name that the encoder hands out.

use vstd::prelude::*;

use crate::encode_selector::{
    alphabet_chars, capacity, encoded_len, invalid_first_positions, is_css_invalid,
    is_invalid_first, leading_position, lemma_div_power_step, lemma_power_positive, places,
    position_at, power, radix_name, rank_in_class, skipped,
};

verus! {

/// Positions listed in strictly ascending order.
pub open spec fn strictly_ascending(inv: Seq<usize>) -> bool {
    forall|i: int, j: int| 0 <= i < j < inv.len() ==> inv[i] < inv[j]
}

proof fn lemma_capacity_step(s: nat, b: nat, len: nat)
    ensures
        capacity(s, b, len + 1) == capacity(s, b, len) + s * power(b, len),
{
}

proof fn lemma_capacity_monotone(s: nat, b: nat, shorter: nat, longer: nat)
    requires
        shorter <= longer,
    ensures
        capacity(s, b, shorter) <= capacity(s, b, longer),
    decreases longer,
{
    if shorter < longer {
        lemma_capacity_monotone(s, b, shorter, (longer - 1) as nat);
    }
}

proof fn lemma_places_bounds(r: nat, s: nat, b: nat, e: nat)
    requires
        s >= 1,
        b >= 1,
    ensures
        places(r, s, b, power(b, e)) >= 1,
        capacity(s, b, (e + places(r, s, b, power(b, e)) - 1) as nat) - capacity(s, b, e) <= r,
        r < capacity(s, b, e + places(r, s, b, power(b, e))) - capacity(s, b, e),
    decreases r,
{
    lemma_power_positive(b, e);
    let floor = power(b, e);
    assert(s * floor >= 1) by (nonlinear_arith)
        requires
            s >= 1,
            floor >= 1,
    ;
    lemma_capacity_step(s, b, e);
    if r < s * floor {
    } else {
        let below = (r - s * floor) as nat;
        assert(floor * b == power(b, e + 1)) by (nonlinear_arith)
            requires
                power(b, e + 1) == b * floor,
        ;
        lemma_places_bounds(below, s, b, e + 1);
    }
}

/// The name of ordinal `n` grows by one character exactly where `n` reaches
/// the number of names of the lengths before: a name has `len` characters if
/// and only if `capacity(len - 1) <= n < capacity(len)`.
pub proof fn lemma_length_steps(n: nat, s: nat, b: nat, len: nat)
    requires
        s >= 1,
        b >= 1,
        len >= 1,
    ensures
        encoded_len(n, s, b) == len <==> capacity(s, b, (len - 1) as nat) <= n < capacity(
            s,
            b,
            len,
        ),
{
    assert(power(b, 0) == 1);
    lemma_places_bounds(n, s, b, 0);
    let own = encoded_len(n, s, b);
    if capacity(s, b, (len - 1) as nat) <= n < capacity(s, b, len) {
        if len < own {
            lemma_capacity_monotone(s, b, len, (own - 1) as nat);
        }
        if own < len {
            lemma_capacity_monotone(s, b, own, (len - 1) as nat);
        }
    }
}

/// The rank of an ordinal within its length class stays below the size of
/// that class.
pub proof fn lemma_rank_bound(n: nat, s: nat, b: nat)
    requires
        s >= 1,
        b >= 1,
    ensures
        encoded_len(n, s, b) >= 1,
        rank_in_class(n, s, b) + capacity(s, b, (encoded_len(n, s, b) - 1) as nat) == n,
        rank_in_class(n, s, b) < s * power(b, (encoded_len(n, s, b) - 1) as nat),
        rank_in_class(n, s, b) / power(b, (encoded_len(n, s, b) - 1) as nat) < s,
{
    assert(power(b, 0) == 1);
    lemma_places_bounds(n, s, b, 0);
    let len = encoded_len(n, s, b);
    lemma_capacity_step(s, b, (len - 1) as nat);
    lemma_power_positive(b, (len - 1) as nat);
    let floor = power(b, (len - 1) as nat);
    let rank = rank_in_class(n, s, b);
    assert(rank / floor < s) by (nonlinear_arith)
        requires
            rank < s * floor,
            floor >= 1,
    ;
}

proof fn lemma_skipped_reach(lead: nat, inv: Seq<usize>, k: nat)
    requires
        k <= inv.len(),
    ensures
        k <= skipped(lead, inv, k) <= inv.len(),
        forall|j: int| k <= j < skipped(lead, inv, k) ==> lead + j >= inv[j],
        skipped(lead, inv, k) == inv.len() || lead + skipped(lead, inv, k) < inv[skipped(
            lead,
            inv,
            k,
        ) as int],
    decreases inv.len() - k,
{
    if k < inv.len() && lead + k >= inv[k as int] {
        lemma_skipped_reach(lead, inv, k + 1);
    }
}

proof fn lemma_skipped_monotone(low: nat, high: nat, inv: Seq<usize>, k: nat)
    requires
        low <= high,
        k <= inv.len(),
    ensures
        skipped(low, inv, k) <= skipped(high, inv, k),
    decreases inv.len() - k,
{
    if k < inv.len() && low + k >= inv[k as int] {
        lemma_skipped_monotone(low, high, inv, k + 1);
    } else {
        lemma_skipped_reach(high, inv, k);
    }
}

/// Every character of a name is drawn from the alphabet.
pub proof fn lemma_positions_in_alphabet(n: nat, b: nat, inv: Seq<usize>, i: int)
    requires
        inv.len() < b,
        0 <= i < encoded_len(n, (b - inv.len()) as nat, b),
    ensures
        position_at(n, b, inv, i) < b,
{
    let s = (b - inv.len()) as nat;
    lemma_rank_bound(n, s, b);
    if i == 0 {
        let lead = rank_in_class(n, s, b) / power(b, (encoded_len(n, s, b) - 1) as nat);
        lemma_skipped_reach(lead, inv, 0);
    } else {
        let q = rank_in_class(n, s, b) / power(b, (encoded_len(n, s, b) - 1 - i) as nat);
        assert(q % b < b) by (nonlinear_arith)
            requires
                b >= 1,
        ;
    }
}

/// For every alphabet whose forbidden positions are listed in ascending
/// order, and for every ordinal, the leading character of the name stands at
/// none of the forbidden positions.
pub proof fn lemma_leading_position_permitted(n: nat, chars: Seq<char>, inv: Seq<usize>)
    requires
        inv.len() < chars.len(),
        strictly_ascending(inv),
    ensures
        radix_name(n, chars, inv).len() >= 1,
        leading_position(n, chars.len(), inv) < chars.len(),
        radix_name(n, chars, inv)[0] == chars[leading_position(n, chars.len(), inv) as int],
        forall|j: int| 0 <= j < inv.len() ==> inv[j] != leading_position(n, chars.len(), inv),
{
    let b = chars.len();
    let s = (b - inv.len()) as nat;
    lemma_rank_bound(n, s, b);
    lemma_positions_in_alphabet(n, b, inv, 0);
    let lead = rank_in_class(n, s, b) / power(b, (encoded_len(n, s, b) - 1) as nat);
    lemma_skipped_reach(lead, inv, 0);
    let stop = skipped(lead, inv, 0);
    assert forall|j: int| 0 <= j < inv.len() implies inv[j] != leading_position(n, b, inv) by {
        if j < stop {
            assert(lead + j >= inv[j]);
        } else if j > stop {
            assert(inv[stop as int] < inv[j]);
        }
    }
}

/// An alphabet read off a string holds no character twice, holds no
/// character that a selector name cannot hold, and holds every other
/// character of the string.
pub proof fn lemma_alphabet_chars(input: Seq<char>)
    ensures
        alphabet_chars(input).no_duplicates(),
        forall|c: char|
            #[trigger] alphabet_chars(input).contains(c) <==> input.contains(c) && !is_css_invalid(
                c,
            ),
    decreases input.len(),
{
    let chars = alphabet_chars(input);
    if input.len() > 0 {
        let front = input.drop_last();
        let before = alphabet_chars(front);
        let last = input.last();
        lemma_alphabet_chars(front);
        assert forall|c: char| #[trigger]
            chars.contains(c) <==> input.contains(c) && !is_css_invalid(c) by {
            assert(before.contains(c) <==> front.contains(c) && !is_css_invalid(c));
            if chars.contains(c) {
                let i = choose|i: int| 0 <= i < chars.len() && chars[i] == c;
                if i < before.len() {
                    assert(before[i] == c);
                    assert(before.contains(c));
                    let j = choose|j: int| 0 <= j < front.len() && front[j] == c;
                    assert(input[j] == c);
                } else {
                    assert(input[input.len() - 1] == c);
                }
            }
            if input.contains(c) && !is_css_invalid(c) {
                let j = choose|j: int| 0 <= j < input.len() && input[j] == c;
                if j < front.len() {
                    assert(front[j] == c);
                    assert(front.contains(c));
                    let i = choose|i: int| 0 <= i < before.len() && before[i] == c;
                    assert(chars[i] == c);
                } else if before.contains(c) {
                    let i = choose|i: int| 0 <= i < before.len() && before[i] == c;
                    assert(chars[i] == c);
                } else {
                    assert(chars[chars.len() - 1] == c);
                }
            }
        }
    }
}

/// The positions that `into_alphabet_set` records are exactly those of the
/// characters that cannot lead a name, in ascending order.
pub proof fn lemma_invalid_first_positions(chars: Seq<char>)
    requires
        chars.len() <= usize::MAX,
    ensures
        strictly_ascending(invalid_first_positions(chars)),
        invalid_first_positions(chars).len() <= chars.len(),
        forall|j: int|
            0 <= j < invalid_first_positions(chars).len() ==> invalid_first_positions(chars)[j]
                < chars.len() && is_invalid_first(
                chars[invalid_first_positions(chars)[j] as int],
            ),
        forall|p: int|
            0 <= p < chars.len() && is_invalid_first(chars[p]) ==> invalid_first_positions(
                chars,
            ).contains(p as usize),
    decreases chars.len(),
{
    if chars.len() > 0 {
        let front = chars.drop_last();
        lemma_invalid_first_positions(front);
        let before = invalid_first_positions(front);
        let all = invalid_first_positions(chars);
        assert forall|p: int| 0 <= p < chars.len() && is_invalid_first(chars[p]) implies all.contains(
            p as usize,
        ) by {
            if p < front.len() {
                assert(front[p] == chars[p]);
                let j = choose|j: int| 0 <= j < before.len() && before[j] == p as usize;
                assert(all[j] == p as usize);
            } else {
                assert(all[all.len() - 1] == p as usize);
            }
        }
    }
}

/// With the forbidden positions that `into_alphabet_set` records, no name
/// starts with a digit, `-` or `_`.
pub proof fn lemma_leading_char_permitted(n: nat, chars: Seq<char>)
    requires
        chars.len() <= usize::MAX,
        invalid_first_positions(chars).len() < chars.len(),
    ensures
        radix_name(n, chars, invalid_first_positions(chars)).len() >= 1,
        !is_invalid_first(radix_name(n, chars, invalid_first_positions(chars))[0]),
{
    let inv = invalid_first_positions(chars);
    lemma_invalid_first_positions(chars);
    lemma_leading_position_permitted(n, chars, inv);
    let p = leading_position(n, chars.len(), inv);
    if is_invalid_first(chars[p as int]) {
        assert(inv.contains(p as usize));
        let j = choose|j: int| 0 <= j < inv.len() && inv[j] == p as usize;
        assert(inv[j] != p);
    }
}

proof fn lemma_same_digits_same_rank(first: nat, second: nat, b: nat, e: nat)
    requires
        b >= 1,
        first / power(b, e) == second / power(b, e),
        forall|k: nat| k < e ==> (first / power(b, k)) % b == (second / power(b, k)) % b,
    ensures
        first == second,
    decreases e,
{
    if e == 0 {
        assert(power(b, e) == 1);
        assert(first / 1 == first && second / 1 == second);
    } else {
        let k = (e - 1) as nat;
        lemma_div_power_step(first, b, k);
        lemma_div_power_step(second, b, k);
        let x = first / power(b, k);
        let y = second / power(b, k);
        assert(x % b == y % b);
        assert(x / b == y / b);
        vstd::arithmetic::div_mod::lemma_fundamental_div_mod(x as int, b as int);
        vstd::arithmetic::div_mod::lemma_fundamental_div_mod(y as int, b as int);
        assert(x == y);
        lemma_same_digits_same_rank(first, second, b, k);
    }
}

/// Over an alphabet without repeated characters, two ordinals with the same
/// name are the same ordinal.
pub proof fn lemma_to_radix_injective(n: nat, m: nat, chars: Seq<char>, inv: Seq<usize>)
    requires
        inv.len() < chars.len(),
        chars.no_duplicates(),
        radix_name(n, chars, inv) == radix_name(m, chars, inv),
    ensures
        n == m,
{
    let b = chars.len();
    let s = (b - inv.len()) as nat;
    let len = encoded_len(n, s, b);
    assert(radix_name(n, chars, inv).len() == len);
    assert(radix_name(m, chars, inv).len() == encoded_len(m, s, b));
    lemma_rank_bound(n, s, b);
    lemma_rank_bound(m, s, b);
    let e = (len - 1) as nat;
    let rn = rank_in_class(n, s, b);
    let rm = rank_in_class(m, s, b);
    assert forall|i: int| 0 <= i < len implies position_at(n, b, inv, i) == position_at(
        m,
        b,
        inv,
        i,
    ) by {
        lemma_positions_in_alphabet(n, b, inv, i);
        lemma_positions_in_alphabet(m, b, inv, i);
        assert(radix_name(n, chars, inv)[i] == chars[position_at(n, b, inv, i) as int]);
        assert(radix_name(m, chars, inv)[i] == chars[position_at(m, b, inv, i) as int]);
    }
    let ln = rn / power(b, e);
    let lm = rm / power(b, e);
    assert(position_at(n, b, inv, 0) == skipped(ln, inv, 0) + ln);
    assert(position_at(m, b, inv, 0) == skipped(lm, inv, 0) + lm);
    if ln < lm {
        lemma_skipped_monotone(ln, lm, inv, 0);
    }
    if lm < ln {
        lemma_skipped_monotone(lm, ln, inv, 0);
    }
    assert(ln == lm);
    assert forall|k: nat| k < e implies (rn / power(b, k)) % b == (rm / power(b, k)) % b by {
        let i = len - 1 - k;
        assert(position_at(n, b, inv, i) == (rn / power(b, (len - 1 - i) as nat)) % b);
        assert(position_at(m, b, inv, i) == (rm / power(b, (len - 1 - i) as nat)) % b);
    }
    lemma_same_digits_same_rank(rn, rm, b, e);
}

} // verus!
