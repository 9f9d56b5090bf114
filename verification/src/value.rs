//! Parsing the candidate digit string into its numeric value, and the
//! magnitude bound that a value must meet before unit interpretation.

use vstd::prelude::*;

use crate::text::{all_digits, digit_val, digits_value, lemma_digits_value_bound, pow10};
use crate::extract::MAXIMUM_NUMBER_OF_DIGITS;

verus! {

/// The largest magnitude a candidate may denote: the highest count of
/// nanoseconds that still lies inside the supported calendar range.
pub const MAXIMUM_NUMBER: i128 = 253_402_300_799_999_999_999;

/// The candidate's value is small enough for unit interpretation.
pub open spec fn within_maximum(v: int) -> bool {
    -MAXIMUM_NUMBER <= v <= MAXIMUM_NUMBER
}

/// Reads the candidate as a decimal integer.
///
/// The candidate is a digit string of acceptable length, so the read fails
/// only on the empty string (an empty input taken whole on the fast path).
pub fn parse_candidate(candidate: &str) -> (r: Option<i128>)
    requires
        all_digits(candidate@),
        candidate@.len() <= MAXIMUM_NUMBER_OF_DIGITS,
    ensures
        (r is None) <==> candidate@.len() == 0,
        (r matches Some(v) ==> v == digits_value(candidate@) && 0 <= v
            < pow10(MAXIMUM_NUMBER_OF_DIGITS as nat)),
{
    let ghost s = candidate@;
    let n = candidate.unicode_len();
    if n == 0 {
        return None;
    }
    proof {
        reveal_with_fuel(pow10, 22);
        assert(pow10(21) == 1_000_000_000_000_000_000_000);
    }
    let mut acc: u128 = 0;
    let mut k: usize = 0;
    while k < n
        invariant
            0 <= k <= n,
            n == s.len() <= MAXIMUM_NUMBER_OF_DIGITS,
            candidate@ == s,
            all_digits(s),
            acc == digits_value(s.take(k as int)),
            acc < pow10(k as nat),
            pow10(21) == 1_000_000_000_000_000_000_000,
        decreases n - k,
    {
        let c = candidate.get_char(k);
        let d: u128 = ((c as u32) - 48) as u128;
        proof {
            assert(crate::text::spec_is_digit(s[k as int]));
            crate::text::lemma_pow10_monotonic((k + 1) as nat, 21nat);
            assert(pow10((k + 1) as nat) == 10 * pow10(k as nat));
        }
        acc = acc * 10 + d;
        proof {
            assert(s.take(k + 1).drop_last() =~= s.take(k as int));
            assert(s.take(k + 1).last() == s[k as int]);
        }
        k = k + 1;
    }
    proof {
        assert(s.take(n as int) =~= s);
        lemma_digits_value_bound(s);
        crate::text::lemma_pow10_monotonic(s.len(), 21nat);
    }
    Some(acc as i128)
}

} // verus!
