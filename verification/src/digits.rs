//! Parsing an unsigned decimal field of a listing line.
//!
//! The accepted shape is the one `u64` text parsing accepts: an optional
//! leading plus sign, then one or more ASCII digits, with the value fitting
//! in 64 bits. Anything else is no number, and the caller falls back to the
//! field's default.

use vstd::prelude::*;
use crate::bytes::is_digit;

verus! {

/// Whether every byte of `t` is an ASCII digit.
pub open spec fn all_digits(t: Seq<u8>) -> bool {
    forall|k: int| 0 <= k < t.len() ==> is_digit(#[trigger] t[k])
}

/// The value of a digit string read in base ten.
pub open spec fn digits_val(t: Seq<u8>) -> int
    decreases t.len(),
{
    if t.len() == 0 {
        0
    } else {
        digits_val(t.drop_last()) * 10 + (t.last() - 48)
    }
}

/// The digits of a token, a single leading plus sign allowed.
pub open spec fn digits_part(t: Seq<u8>) -> Seq<u8> {
    if t.len() > 0 && t[0] == 43 {
        t.skip(1)
    } else {
        t
    }
}

/// Whether `t` is a well-formed decimal token whose value fits in 64 bits.
pub open spec fn is_u64_token(t: Seq<u8>) -> bool {
    &&& digits_part(t).len() > 0
    &&& all_digits(digits_part(t))
    &&& digits_val(digits_part(t)) <= u64::MAX
}

/// What parsing a decimal token yields.
pub open spec fn parse_u64_spec(t: Seq<u8>) -> Option<u64> {
    if is_u64_token(t) {
        Some(digits_val(digits_part(t)) as u64)
    } else {
        None
    }
}

pub proof fn lemma_digits_val_nonneg(t: Seq<u8>)
    requires
        all_digits(t),
    ensures
        digits_val(t) >= 0,
    decreases t.len(),
{
    if t.len() > 0 {
        assert(all_digits(t.drop_last()));
        lemma_digits_val_nonneg(t.drop_last());
    }
}

/// A digit string is worth at least any of its prefixes.
pub proof fn lemma_digits_val_prefix(t: Seq<u8>, j: int)
    requires
        all_digits(t),
        0 <= j <= t.len(),
    ensures
        digits_val(t) >= digits_val(t.take(j)),
    decreases t.len() - j,
{
    if j < t.len() {
        lemma_digits_val_prefix(t, j + 1);
        let p = t.take(j + 1);
        assert(p.drop_last() =~= t.take(j));
        assert(all_digits(t.take(j)));
        lemma_digits_val_nonneg(t.take(j));
        assert(digits_val(p) == digits_val(t.take(j)) * 10 + (t[j] - 48));
        assert(digits_val(p) >= digits_val(t.take(j)));
    } else {
        assert(t.take(j) =~= t);
    }
}

/// Parses a decimal token; `None` where the token is malformed or the
/// value does not fit in 64 bits.
pub fn parse_u64(t: &Vec<u8>) -> (r: Option<u64>)
    ensures
        r == parse_u64_spec(t@),
{
    let start: usize = if t.len() > 0 && t[0] == 43 {
        1
    } else {
        0
    };
    assert(digits_part(t@) =~= t@.subrange(start as int, t@.len() as int));
    let ghost dp = digits_part(t@);
    if start >= t.len() {
        assert(dp.len() == 0);
        return None;
    }
    let mut acc: u64 = 0;
    let mut i: usize = start;
    while i < t.len()
        invariant
            start <= i <= t.len(),
            start <= 1,
            dp == digits_part(t@),
            dp == t@.subrange(start as int, t@.len() as int),
            all_digits(dp.take(i - start)),
            acc == digits_val(dp.take(i - start)),
        decreases t.len() - i,
    {
        let b = t[i];
        if b < 48 || b > 57 {
            assert(dp[i - start] == b);
            assert(!is_digit(dp[i - start]));
            assert(!all_digits(dp));
            return None;
        }
        let wide: u128 = (acc as u128) * 10 + ((b - 48) as u128);
        proof {
            let p = dp.take(i - start + 1);
            assert(p.drop_last() =~= dp.take(i - start));
            assert(p.last() == b);
            assert(digits_val(p) == acc * 10 + (b - 48));
        }
        if wide > u64::MAX as u128 {
            // The prefix already overflows, so the whole token cannot
            // be a 64-bit value, whatever follows.
            proof {
                if all_digits(dp) {
                    lemma_digits_val_prefix(dp, i - start + 1);
                    assert(digits_val(dp) >= digits_val(dp.take(i - start + 1)));
                    assert(digits_val(dp) > u64::MAX);
                }
            }
            return None;
        }
        acc = wide as u64;
        i = i + 1;
    }
    assert(dp.take(i - start) =~= dp);
    Some(acc)
}

} // verus!
