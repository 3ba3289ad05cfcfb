//! The user-facing amount: a decimal coin value, converted once at the
//! boundary into integer minor units at a scale of ten to the eighth,
//! truncating any fraction beyond eight digits. No floating point is
//! involved, so the conversion is exact.

use vstd::prelude::*;
use crate::types::CoordinatorError;
use crate::digits::is_digit;
use crate::digits::digits_val;
use crate::digits::lemma_digits_val_append;
use crate::digits::lemma_digits_val_monotone;
use crate::digits::lemma_digits_val_single;
use crate::MINOR_UNITS_PER_COIN;
use crate::DUST_THRESHOLD;

verus! {

/// Byte value of `.`.
pub const DOT: u8 = 46;

/// Index of the first dot in `s`, or the length when there is none.
pub open spec fn dot_index(s: Seq<u8>) -> int
    decreases s.len(),
{
    if s.len() == 0 {
        0
    } else if s[0] == DOT {
        0
    } else {
        1 + dot_index(s.drop_first())
    }
}

proof fn lemma_dot_index_at(s: Seq<u8>, d: int)
    requires
        0 <= d <= s.len(),
        forall|k: int| 0 <= k < d ==> s[k] != DOT,
        d < s.len() ==> s[d] == DOT,
    ensures
        dot_index(s) == d,
    decreases d,
{
    if s.len() == 0 {
    } else if d == 0 {
    } else {
        lemma_dot_index_at(s.drop_first(), d - 1);
    }
}

/// Whether every byte of `s` is a decimal digit.
pub open spec fn all_digits(s: Seq<u8>) -> bool {
    forall|k: int| 0 <= k < s.len() ==> is_digit(#[trigger] s[k])
}

/// The fraction digits brought to exactly eight: truncated beyond eight,
/// right-padded with zero digits below eight.
pub open spec fn frac8(f: Seq<u8>) -> Seq<u8> {
    if f.len() >= 8 {
        f.take(8)
    } else {
        f + Seq::new((8 - f.len()) as nat, |k: int| 48u8)
    }
}

/// The minor-unit value of a decimal amount: the whole-coin digits scaled
/// by ten to the eighth, plus the first eight fraction digits.
pub open spec fn amount_value(s: Seq<u8>) -> int {
    let d = dot_index(s);
    if d == s.len() {
        digits_val(s, 0) * MINOR_UNITS_PER_COIN
    } else {
        digits_val(s.take(d), 0) * MINOR_UNITS_PER_COIN + digits_val(frac8(s.skip(d + 1)), 0)
    }
}

/// Whether the bytes are a well-formed decimal amount: at least one digit,
/// and at most one dot with at least one digit on each side.
pub open spec fn valid_amount(s: Seq<u8>) -> bool {
    let d = dot_index(s);
    if d == s.len() {
        s.len() >= 1 && all_digits(s)
    } else {
        d >= 1 && d + 1 < s.len() && all_digits(s.take(d)) && all_digits(s.skip(d + 1))
    }
}

/// What parsing a decimal amount yields: its minor-unit value when the
/// shape is valid and the value fits in 64 bits, nothing otherwise.
pub open spec fn amount_to_minor(s: Seq<u8>) -> Option<u64> {
    if valid_amount(s) && amount_value(s) <= u64::MAX {
        Option::Some(amount_value(s) as u64)
    } else {
        Option::None
    }
}

/// Ten to the `n`.
pub open spec fn pow10(n: nat) -> nat
    decreases n,
{
    if n == 0 {
        1
    } else {
        10 * pow10((n - 1) as nat)
    }
}

proof fn lemma_pow10_eight()
    ensures
        pow10(8) == 100_000_000,
{
    assert(pow10(0) == 1);
    assert(pow10(1) == 10);
    assert(pow10(2) == 100);
    assert(pow10(3) == 1000);
    assert(pow10(4) == 10000);
    assert(pow10(5) == 100000);
    assert(pow10(6) == 1000000);
    assert(pow10(7) == 10000000);
    assert(pow10(8) == 100000000);
}

/// Convert a decimal amount, given as the bytes of its textual form, to
/// integer minor units; fractions beyond eight digits are truncated. A
/// malformed shape or a value beyond 64 bits yields nothing.
pub fn parse_amount(s: &Vec<u8>) -> (r: Option<u64>)
    ensures
        r == amount_to_minor(s@),
{
    let mut d: usize = 0;
    while d < s.len() && s[d] != DOT
        invariant
            d <= s.len(),
            forall|k: int| 0 <= k < d ==> s@[k] != DOT,
        decreases s.len() - d,
    {
        d = d + 1;
    }
    proof {
        lemma_dot_index_at(s@, d as int);
    }
    if d == 0 {
        // either an empty input, or a dot with no whole-coin digits
        return Option::None;
    }
    if d < s.len() && d + 1 == s.len() {
        // a trailing dot with no fraction digits
        return Option::None;
    }
    let ghost ip = s@.take(d as int);
    let mut acc: u64 = 0;
    let mut k: usize = 0;
    proof {
        assert(ip.take(0) =~= Seq::<u8>::empty());
    }
    while k < d
        invariant
            k <= d <= s.len(),
            ip == s@.take(d as int),
            forall|j: int| 0 <= j < d ==> s@[j] != DOT,
            d < s@.len() ==> s@[d as int] == DOT,
            dot_index(s@) == d,
            forall|j: int| 0 <= j < k ==> is_digit(#[trigger] ip[j]),
            acc == digits_val(ip.take(k as int), 0),
        decreases d - k,
    {
        let b = s[k];
        proof {
            assert(ip[k as int] == s@[k as int]);
        }
        if !(48 <= b && b <= 57) {
            // a non-digit in the whole-coin part: not a valid amount
            return Option::None;
        }
        proof {
            assert(ip.take(k + 1) =~= ip.take(k as int) + seq![ip[k as int]]);
            lemma_digits_val_append(ip.take(k as int), seq![ip[k as int]], 0);
            lemma_digits_val_single(b, acc as nat);
        }
        let wide: u128 = acc as u128 * 10 + (b - 48) as u128;
        if wide > u64::MAX as u128 {
            // the whole-coin part alone is already beyond 64 bits
            proof {
                assert(ip =~= ip.take(k + 1) + ip.skip(k + 1));
                lemma_digits_val_append(ip.take(k + 1), ip.skip(k + 1), 0);
                lemma_digits_val_monotone(ip.skip(k + 1), digits_val(ip.take(k + 1), 0));
                assert(digits_val(ip, 0) * MINOR_UNITS_PER_COIN >= digits_val(ip, 0));
                if d == s.len() {
                    assert(s@.take(d as int) =~= s@);
                }
            }
            return Option::None;
        }
        acc = wide as u64;
        k = k + 1;
    }
    proof {
        assert(ip.take(d as int) =~= ip);
    }
    let mut fr: u64 = 0;
    if d < s.len() {
        let fstart = d + 1;
        let ghost fp = s@.skip(fstart as int);
        let mut k: usize = fstart;
        while k < s.len()
            invariant
                fstart <= k <= s.len(),
                fp == s@.skip(fstart as int),
                fstart <= s.len(),
                d < s.len(),
                fstart == d + 1,
                dot_index(s@) == d,
                forall|j: int| fstart <= j < k ==> is_digit(#[trigger] s@[j]),
            decreases s.len() - k,
        {
            let b = s[k];
            if !(48 <= b && b <= 57) {
                // a non-digit in the fraction: not a valid amount
                proof {
                    let ghost j = k - fstart;
                    assert(0 <= j);
                    assert(fp.len() == s@.len() - fstart);
                    assert(j < fp.len());
                    assert(fp[j] == s@[j + fstart]);
                    assert(j + fstart == k);
                    assert(!is_digit(fp[j]));
                    assert(s@.skip(d + 1) =~= fp);
                    assert(!all_digits(s@.skip(d + 1)));
                }
                return Option::None;
            }
            k = k + 1;
        }
        proof {
            assert(forall|j: int| 0 <= j < fp.len() ==> is_digit(#[trigger] fp[j]));
        }
        let ghost f8 = frac8(fp);
        proof {
            assert(f8.len() == 8);
            assert(f8.take(0) =~= Seq::<u8>::empty());
            lemma_pow10_eight();
        }
        let mut t: usize = 0;
        while t < 8
            invariant
                t <= 8,
                d < s.len(),
                d + 1 == fstart <= s.len(),
                dot_index(s@) == d,
                fp == s@.skip(fstart as int),
                f8 == frac8(fp),
                f8.len() == 8,
                forall|j: int| 0 <= j < fp.len() ==> is_digit(#[trigger] fp[j]),
                pow10(8) == 100_000_000,
                fr < pow10(t as nat),
                pow10(t as nat) <= 100_000_000,
                fr == digits_val(f8.take(t as int), 0),
            decreases 8 - t,
        {
            let b: u8 = if t < s.len() - fstart {
                let c = s[fstart + t];
                proof {
                    assert(fp[t as int] == s@[fstart + t]);
                }
                c
            } else {
                48
            };
            proof {
                assert(f8[t as int] == b);
                assert(f8.take(t + 1) =~= f8.take(t as int) + seq![f8[t as int]]);
                lemma_digits_val_append(f8.take(t as int), seq![f8[t as int]], 0);
                lemma_digits_val_single(b, fr as nat);
                assert(pow10((t + 1) as nat) == 10 * pow10(t as nat));
                assert(pow10((t + 1) as nat) <= pow10(8)) by {
                    lemma_pow10_monotone((t + 1) as nat, 8);
                };
            }
            fr = fr * 10 + (b - 48) as u64;
            t = t + 1;
        }
        proof {
            assert(f8.take(8) =~= f8);
        }
    }
    let wide: u128 = acc as u128 * (MINOR_UNITS_PER_COIN as u128) + fr as u128;
    proof {
        if d == s.len() {
            assert(s@.take(d as int) =~= s@);
        }
    }
    if wide > u64::MAX as u128 {
        return Option::None;
    }
    Option::Some(wide as u64)
}

proof fn lemma_pow10_monotone(a: nat, b: nat)
    requires
        a <= b,
    ensures
        pow10(a) <= pow10(b),
    decreases b,
{
    if a < b {
        lemma_pow10_monotone(a, (b - 1) as nat);
        lemma_pow10_positive((b - 1) as nat);
    }
}

proof fn lemma_pow10_positive(n: nat)
    ensures
        pow10(n) >= 1,
    decreases n,
{
    if n > 0 {
        lemma_pow10_positive((n - 1) as nat);
    }
}

/// Reject a requested amount below the dust threshold, before any balance
/// or output work is attempted.
pub fn validate_amount(amount: u64) -> (r: Result<(), CoordinatorError>)
    ensures
        r is Ok <==> amount >= DUST_THRESHOLD,
        r is Err ==> r == Result::<(), CoordinatorError>::Err(CoordinatorError::DustAmount),
{
    if amount < DUST_THRESHOLD {
        Err(CoordinatorError::DustAmount)
    } else {
        Ok(())
    }
}

} // verus!
