//! Decimal numerals in ASCII.

use vstd::prelude::*;
use super::ascii::{byte_is_digit, is_digit, ZERO};

verus! {

/// Whether every byte of `s` is an ASCII digit.
pub open spec fn all_digits(s: Seq<u8>) -> bool {
    forall|i: int| 0 <= i < s.len() ==> is_digit(#[trigger] s[i])
}

/// The number that the digit string `s` denotes, most significant digit
/// first. Leading zeros are allowed; the empty string denotes zero.
pub open spec fn decimal_value(s: Seq<u8>) -> nat
    decreases s.len(),
{
    if s.len() == 0 {
        0
    } else {
        decimal_value(s.drop_last()) * 10 + (s.last() - ZERO) as nat
    }
}

/// The shortest digit string that denotes `n`.
pub open spec fn decimal_digits(n: nat) -> Seq<u8>
    decreases n,
{
    if n < 10 {
        seq![(ZERO + n) as u8]
    } else {
        decimal_digits(n / 10).push((ZERO + n % 10) as u8)
    }
}

/// The number of digits that `s` starts with.
pub open spec fn digit_run(s: Seq<u8>) -> nat
    decreases s.len(),
{
    if s.len() > 0 && is_digit(s[0]) {
        1 + digit_run(s.skip(1))
    } else {
        0
    }
}

/// The digits that `s` starts with are digits, and what follows them, if
/// anything, is not.
pub proof fn lemma_digit_run(s: Seq<u8>)
    ensures
        digit_run(s) <= s.len(),
        all_digits(s.take(digit_run(s) as int)),
        digit_run(s) < s.len() ==> !is_digit(s[digit_run(s) as int]),
    decreases s.len(),
{
    if s.len() > 0 && is_digit(s[0]) {
        let tail = s.skip(1);
        lemma_digit_run(tail);
        let n = digit_run(tail) as int;
        assert forall|i: int| 0 <= i < n + 1 implies is_digit(#[trigger] s.take(n + 1)[i]) by {
            if i > 0 {
                assert(s.take(n + 1)[i] == tail.take(n)[i - 1]);
            }
        }
    }
}

/// A numeral is never empty and holds nothing but digits.
pub proof fn lemma_decimal_digits_shape(n: nat)
    ensures
        decimal_digits(n).len() >= 1,
        all_digits(decimal_digits(n)),
    decreases n,
{
    if n >= 10 {
        lemma_decimal_digits_shape(n / 10);
    }
}

/// Reading back the numeral of `n` gives `n`.
pub proof fn lemma_decimal_round_trip(n: nat)
    ensures
        decimal_value(decimal_digits(n)) == n,
    decreases n,
{
    if n < 10 {
        let s = decimal_digits(n);
        assert(s.drop_last() =~= Seq::<u8>::empty());
        assert(decimal_value(s.drop_last()) == 0);
    } else {
        lemma_decimal_round_trip(n / 10);
        let s = decimal_digits(n);
        assert(s.drop_last() =~= decimal_digits(n / 10));
    }
}

/// Appends the decimal numeral of `n` to `out`.
pub fn push_decimal(out: &mut Vec<u8>, n: u128)
    ensures
        final(out)@ == old(out)@ + decimal_digits(n as nat),
    decreases n,
{
    if n >= 10 {
        push_decimal(out, n / 10);
    }
    let digit: u8 = (n % 10) as u8;
    out.push(ZERO + digit);
    assert(out@ =~= old(out)@ + decimal_digits(n as nat));
}

/// Reads the digits that start at `from`: returns where they end, and the
/// number that they denote unless it is greater than `limit`.
pub fn read_decimal(s: &[u8], from: usize, limit: usize) -> (found: (usize, Option<usize>))
    requires
        from <= s@.len(),
    ensures
        found.0 == from + digit_run(s@.skip(from as int)),
        found.0 <= s@.len(),
        found.1 == if decimal_value(s@.subrange(from as int, found.0 as int)) <= limit {
            Some(decimal_value(s@.subrange(from as int, found.0 as int)) as usize)
        } else {
            None
        },
{
    let mut value: usize = 0;
    let mut beyond = false;
    let mut i: usize = from;
    while i < s.len() && byte_is_digit(s[i])
        invariant
            from <= i <= s@.len(),
            digit_run(s@.skip(from as int)) == (i - from) + digit_run(s@.skip(i as int)),
            !beyond ==> value == decimal_value(s@.subrange(from as int, i as int)),
            !beyond ==> value <= limit,
            beyond ==> decimal_value(s@.subrange(from as int, i as int)) > limit,
        decreases s.len() - i,
    {
        proof {
            assert(s@.skip(i as int).skip(1) =~= s@.skip(i + 1));
            let longer = s@.subrange(from as int, i + 1);
            assert(longer.drop_last() =~= s@.subrange(from as int, i as int));
            assert(longer.last() == s@[i as int]);
        }
        if !beyond {
            let next: u128 = (value as u128) * 10 + ((s[i] - ZERO) as u128);
            if next > limit as u128 {
                beyond = true;
            } else {
                value = next as usize;
            }
        }
        i += 1;
    }
    if beyond {
        (i, None)
    } else {
        (i, Some(value))
    }
}

} // verus!
