//! Decimal digit runs: encoding unsigned values as ASCII digits, parsing
//! them back, and the round-trip facts the hand-off codec builds on.

use vstd::prelude::*;
use vstd::arithmetic::div_mod::lemma_fundamental_div_mod;

verus! {

/// Whether `b` is an ASCII decimal digit.
pub open spec fn is_digit(b: u8) -> bool {
    48 <= b && b <= 57
}

/// The decimal digits of `n`, most significant first, without leading
/// zeros (`0` itself is the single digit `0`).
pub open spec fn dec_digits(n: nat) -> Seq<u8>
    decreases n,
{
    if n < 10 {
        seq![(48 + n) as u8]
    } else {
        dec_digits(n / 10) + seq![(48 + n % 10) as u8]
    }
}

/// The decimal digits of `n`, exactly `width` of them, left-padded with
/// zeros; the value is taken modulo ten to the `width`.
pub open spec fn padded_digits(n: nat, width: nat) -> Seq<u8>
    decreases width,
{
    if width == 0 {
        Seq::empty()
    } else {
        padded_digits(n / 10, (width - 1) as nat) + seq![(48 + n % 10) as u8]
    }
}

/// Left-to-right value of a digit run, starting from `acc`.
pub open spec fn digits_val(ds: Seq<u8>, acc: nat) -> nat
    decreases ds.len(),
{
    if ds.len() == 0 {
        acc
    } else {
        digits_val(ds.drop_first(), acc * 10 + (ds[0] - 48) as nat)
    }
}

/// Greedy digit run at the head of `s`: consume digits, accumulating their
/// value onto `acc`, and return the value with the rest of the input.
pub open spec fn parse_digits(s: Seq<u8>, acc: nat) -> (nat, Seq<u8>)
    decreases s.len(),
{
    if s.len() > 0 && is_digit(s[0]) {
        parse_digits(s.drop_first(), acc * 10 + (s[0] - 48) as nat)
    } else {
        (acc, s)
    }
}

/// A canonical unsigned decimal number at the head of `s`: at least one
/// digit, no leading zero, and a value that fits in 64 bits.
pub open spec fn parse_u64_at(s: Seq<u8>) -> Option<(u64, Seq<u8>)> {
    if s.len() > 0 && is_digit(s[0]) && !(s[0] == 48 && s.len() > 1 && is_digit(s[1])) {
        let (n, rest) = parse_digits(s, 0);
        if n <= u64::MAX {
            Option::Some((n as u64, rest))
        } else {
            Option::None
        }
    } else {
        Option::None
    }
}

/// The digits of `n` are digits, there is at least one, and only zero
/// starts with the zero digit.
pub proof fn lemma_dec_digits_shape(n: nat)
    ensures
        dec_digits(n).len() >= 1,
        forall|i: int| 0 <= i < dec_digits(n).len() ==> is_digit(#[trigger] dec_digits(n)[i]),
        n >= 1 ==> dec_digits(n)[0] != 48,
    decreases n,
{
    if n >= 10 {
        lemma_dec_digits_shape(n / 10);
    }
}

/// The value of a digit run accumulates left to right: a run split in two
/// reads as the first part, continued by the second.
pub proof fn lemma_digits_val_append(a: Seq<u8>, b: Seq<u8>, acc: nat)
    ensures
        digits_val(a + b, acc) == digits_val(b, digits_val(a, acc)),
    decreases a.len(),
{
    if a.len() == 0 {
        assert(a + b =~= b);
    } else {
        assert((a + b).drop_first() =~= a.drop_first() + b);
        lemma_digits_val_append(a.drop_first(), b, acc * 10 + (a[0] - 48) as nat);
    }
}

/// Reading the digits of `n` back, starting from zero, yields `n`.
pub proof fn lemma_digits_val_of_dec(n: nat)
    ensures
        digits_val(dec_digits(n), 0) == n,
    decreases n,
{
    if n < 10 {
        let ds = dec_digits(n);
        assert(ds =~= seq![(48 + n) as u8]);
        assert(ds.drop_first() =~= Seq::<u8>::empty());
        assert(digits_val(Seq::<u8>::empty(), 0 * 10 + (ds[0] - 48) as nat) == (ds[0] - 48) as nat);
        assert((ds[0] - 48) as nat == n);
    } else {
        lemma_digits_val_of_dec(n / 10);
        let d = (48 + n % 10) as u8;
        lemma_digits_val_append(dec_digits(n / 10), seq![d], 0);
        assert(seq![d].drop_first() =~= Seq::<u8>::empty());
        assert(n % 10 <= 9);
        assert(d as nat == 48 + n % 10);
        assert((d - 48) as nat == n % 10);
        assert(digits_val(Seq::<u8>::empty(), (n / 10) * 10 + (d - 48) as nat) == (n / 10) * 10 + (
        d - 48) as nat);
        assert(digits_val(seq![d], n / 10) == (n / 10) * 10 + (n % 10));
        lemma_fundamental_div_mod(n as int, 10);
    }
}

/// Parsing a run of digits followed by a non-digit consumes exactly the
/// run and accumulates its value.
pub proof fn lemma_parse_digits_run(ds: Seq<u8>, rest: Seq<u8>, acc: nat)
    requires
        forall|i: int| 0 <= i < ds.len() ==> is_digit(#[trigger] ds[i]),
        rest.len() == 0 || !is_digit(rest[0]),
    ensures
        parse_digits(ds + rest, acc) == (digits_val(ds, acc), rest),
    decreases ds.len(),
{
    if ds.len() == 0 {
        assert(ds + rest =~= rest);
    } else {
        assert((ds + rest)[0] == ds[0]);
        assert((ds + rest).drop_first() =~= ds.drop_first() + rest);
        lemma_parse_digits_run(ds.drop_first(), rest, acc * 10 + (ds[0] - 48) as nat);
    }
}

/// One digit continues a run by a factor of ten.
pub proof fn lemma_digits_val_single(b: u8, acc: nat)
    ensures
        digits_val(seq![b], acc) == acc * 10 + (b - 48) as nat,
{
    assert(seq![b].drop_first() =~= Seq::<u8>::empty());
    assert(digits_val(Seq::<u8>::empty(), acc * 10 + (b - 48) as nat) == acc * 10 + (b
        - 48) as nat);
}

/// The value of a digit run never falls below the accumulator it began
/// with.
pub proof fn lemma_digits_val_monotone(s: Seq<u8>, acc: nat)
    ensures
        digits_val(s, acc) >= acc,
    decreases s.len(),
{
    if s.len() > 0 {
        lemma_digits_val_monotone(s.drop_first(), acc * 10 + (s[0] - 48) as nat);
    }
}

/// The accumulated value of a digit run never falls below where it began.
pub proof fn lemma_parse_digits_monotone(s: Seq<u8>, acc: nat)
    ensures
        parse_digits(s, acc).0 >= acc,
    decreases s.len(),
{
    if s.len() > 0 && is_digit(s[0]) {
        lemma_parse_digits_monotone(s.drop_first(), acc * 10 + (s[0] - 48) as nat);
    }
}

/// Round trip: the canonical digits of a 64-bit value, followed by
/// anything that does not begin with a digit, parse back to that value.
pub proof fn lemma_u64_round_trip(n: u64, rest: Seq<u8>)
    requires
        rest.len() == 0 || !is_digit(rest[0]),
    ensures
        parse_u64_at(dec_digits(n as nat) + rest) == Option::Some((n, rest)),
{
    let ds = dec_digits(n as nat);
    let s = ds + rest;
    lemma_dec_digits_shape(n as nat);
    lemma_parse_digits_run(ds, rest, 0);
    lemma_digits_val_of_dec(n as nat);
    assert(s[0] == ds[0]);
    assert(is_digit(s[0]));
    if n == 0 {
        assert(ds =~= seq![48u8]);
        if s.len() > 1 {
            assert(s[1] == rest[0]);
        }
    }
}

/// The canonical decimal encoding of `n`.
pub fn encode_u64(n: u64) -> (r: Vec<u8>)
    ensures
        r@ == dec_digits(n as nat),
    decreases n,
{
    if n < 10 {
        let mut r: Vec<u8> = Vec::new();
        r.push(48 + n as u8);
        proof {
            assert(r@ =~= dec_digits(n as nat));
        }
        r
    } else {
        let mut r = encode_u64(n / 10);
        r.push(48 + (n % 10) as u8);
        proof {
            assert(r@ =~= dec_digits(n as nat));
        }
        r
    }
}

/// The decimal encoding of `n` in exactly `width` digits, left-padded with
/// zeros.
pub fn encode_padded(n: u64, width: usize) -> (r: Vec<u8>)
    ensures
        r@ == padded_digits(n as nat, width as nat),
    decreases width,
{
    if width == 0 {
        let r: Vec<u8> = Vec::new();
        proof {
            assert(r@ =~= padded_digits(n as nat, 0));
        }
        r
    } else {
        let mut r = encode_padded(n / 10, width - 1);
        r.push(48 + (n % 10) as u8);
        proof {
            assert(r@ =~= padded_digits(n as nat, width as nat));
        }
        r
    }
}

} // verus!
