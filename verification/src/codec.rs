//! The hand-off artifact codec: a byte-exact JSON encoding of the
//! persisted multi-signature state, and a strict parser for it.
//!
//! The artifact is one JSON object,
//! `{"signed_tx":{"hex":...,"complete":...,"errors":[...]},"p2sh":[...]}`,
//! written without whitespace and with the fields in this fixed order.
//! Strings escape only the quote and the backslash; all other bytes pass
//! through unchanged. Numbers are canonical decimals. The parser accepts
//! exactly this shape and proves the round trip: whatever the encoder
//! writes, the parser reads back unchanged.

use vstd::prelude::*;
use crate::types::DescriptorModel;
use crate::types::MsigModel;
use crate::types::PendingModel;
use crate::types::RedeemDescriptor;
use crate::types::MultiSignatureTransaction;
use crate::types::desc_models;
use crate::types::PendingTransaction;
use crate::types::CoordinatorError;
use crate::digits::is_digit;
use crate::digits::dec_digits;
use crate::digits::parse_digits;
use crate::digits::parse_u64_at;

verus! {

/// Byte value of `"`.
pub const QUOTE: u8 = 34;

/// Byte value of `\\`.
pub const BACKSLASH: u8 = 92;

/// Byte value of `,`.
pub const COMMA: u8 = 44;

/// Byte value of `]`.
pub const RBRACKET: u8 = 93;

/// Byte value of `}`.
pub const RBRACE: u8 = 125;

/// `{"signed_tx":{"hex":`
pub open spec fn lit_msig_open() -> Seq<u8> {
    seq![123, 34, 115, 105, 103, 110, 101, 100, 95, 116, 120, 34, 58, 123, 34, 104, 101, 120, 34, 58]
}

/// `,"complete":`
pub open spec fn lit_complete() -> Seq<u8> {
    seq![44, 34, 99, 111, 109, 112, 108, 101, 116, 101, 34, 58]
}

/// `,"errors":[`
pub open spec fn lit_errors() -> Seq<u8> {
    seq![44, 34, 101, 114, 114, 111, 114, 115, 34, 58, 91]
}

/// `]},"p2sh":[`
pub open spec fn lit_p2sh() -> Seq<u8> {
    seq![93, 125, 44, 34, 112, 50, 115, 104, 34, 58, 91]
}

/// `]}`
pub open spec fn lit_close() -> Seq<u8> {
    seq![93, 125]
}

/// `{"txid":`
pub open spec fn lit_txid() -> Seq<u8> {
    seq![123, 34, 116, 120, 105, 100, 34, 58]
}

/// `,"output_index":`
pub open spec fn lit_output_index() -> Seq<u8> {
    seq![44, 34, 111, 117, 116, 112, 117, 116, 95, 105, 110, 100, 101, 120, 34, 58]
}

/// `,"redeem_script":`
pub open spec fn lit_redeem_script() -> Seq<u8> {
    seq![44, 34, 114, 101, 100, 101, 101, 109, 95, 115, 99, 114, 105, 112, 116, 34, 58]
}

/// `,"value":`
pub open spec fn lit_value() -> Seq<u8> {
    seq![44, 34, 118, 97, 108, 117, 101, 34, 58]
}

/// `true`
pub open spec fn lit_true() -> Seq<u8> {
    seq![116, 114, 117, 101]
}

/// `false`
pub open spec fn lit_false() -> Seq<u8> {
    seq![102, 97, 108, 115, 101]
}

/// One byte as it appears inside a JSON string: quote and backslash are
/// escaped with a backslash, everything else passes through.
pub open spec fn esc_byte(b: u8) -> Seq<u8> {
    if b == QUOTE || b == BACKSLASH {
        seq![BACKSLASH, b]
    } else {
        seq![b]
    }
}

/// A byte string as it appears inside a JSON string.
pub open spec fn esc(s: Seq<u8>) -> Seq<u8>
    decreases s.len(),
{
    if s.len() == 0 {
        Seq::empty()
    } else {
        esc_byte(s[0]) + esc(s.drop_first())
    }
}

/// A quoted, escaped JSON string.
pub open spec fn enc_string(s: Seq<u8>) -> Seq<u8> {
    seq![QUOTE] + esc(s) + seq![QUOTE]
}

/// A JSON boolean.
pub open spec fn enc_bool(b: bool) -> Seq<u8> {
    if b {
        lit_true()
    } else {
        lit_false()
    }
}

/// The error strings, comma-separated, without the enclosing brackets.
pub open spec fn enc_err_items(errors: Seq<Seq<u8>>) -> Seq<u8>
    decreases errors.len(),
{
    if errors.len() == 0 {
        Seq::empty()
    } else if errors.len() == 1 {
        enc_string(errors[0])
    } else {
        enc_string(errors[0]) + seq![COMMA] + enc_err_items(errors.drop_first())
    }
}

/// One redeem descriptor as a JSON object with its fields in fixed order.
pub open spec fn enc_desc(d: DescriptorModel) -> Seq<u8> {
    lit_txid() + enc_string(d.txid) + lit_output_index() + dec_digits(d.output_index as nat)
        + lit_redeem_script() + enc_string(d.redeem_script) + lit_value() + dec_digits(
        d.value as nat,
    ) + seq![RBRACE]
}

/// The redeem descriptors, comma-separated, without the enclosing
/// brackets.
pub open spec fn enc_desc_items(ds: Seq<DescriptorModel>) -> Seq<u8>
    decreases ds.len(),
{
    if ds.len() == 0 {
        Seq::empty()
    } else if ds.len() == 1 {
        enc_desc(ds[0])
    } else {
        enc_desc(ds[0]) + seq![COMMA] + enc_desc_items(ds.drop_first())
    }
}

/// The whole hand-off artifact.
pub open spec fn enc_msig(m: MsigModel) -> Seq<u8> {
    lit_msig_open() + enc_string(m.signed_tx.hex) + lit_complete() + enc_bool(
        m.signed_tx.complete,
    ) + lit_errors() + enc_err_items(m.signed_tx.errors) + lit_p2sh() + enc_desc_items(m.p2sh)
        + lit_close()
}

/// Consume an exact literal at the head of `s`.
pub open spec fn parse_lit(s: Seq<u8>, lit: Seq<u8>) -> Option<Seq<u8>> {
    if lit.is_prefix_of(s) {
        Option::Some(s.skip(lit.len() as int))
    } else {
        Option::None
    }
}

/// Consume a string's content and its closing quote, undoing the escapes.
/// Only a quote or a backslash may follow a backslash.
pub open spec fn parse_string_body(s: Seq<u8>) -> Option<(Seq<u8>, Seq<u8>)>
    decreases s.len(),
{
    if s.len() == 0 {
        Option::None
    } else if s[0] == QUOTE {
        Option::Some((Seq::empty(), s.drop_first()))
    } else if s[0] == BACKSLASH {
        if s.len() >= 2 && (s[1] == QUOTE || s[1] == BACKSLASH) {
            match parse_string_body(s.skip(2)) {
                Option::Some((v, r)) => Option::Some((seq![s[1]] + v, r)),
                Option::None => Option::None,
            }
        } else {
            Option::None
        }
    } else {
        match parse_string_body(s.drop_first()) {
            Option::Some((v, r)) => Option::Some((seq![s[0]] + v, r)),
            Option::None => Option::None,
        }
    }
}

/// Consume a whole quoted string.
pub open spec fn parse_string(s: Seq<u8>) -> Option<(Seq<u8>, Seq<u8>)> {
    if s.len() > 0 && s[0] == QUOTE {
        parse_string_body(s.drop_first())
    } else {
        Option::None
    }
}

/// Consume a JSON boolean.
pub open spec fn parse_bool(s: Seq<u8>) -> Option<(bool, Seq<u8>)> {
    match parse_lit(s, lit_true()) {
        Option::Some(r) => Option::Some((true, r)),
        Option::None => match parse_lit(s, lit_false()) {
            Option::Some(r) => Option::Some((false, r)),
            Option::None => Option::None,
        },
    }
}

/// Consume a canonical decimal that fits in 32 bits.
pub open spec fn parse_u32_at(s: Seq<u8>) -> Option<(u32, Seq<u8>)> {
    match parse_u64_at(s) {
        Option::Some((n, r)) => if n <= u32::MAX as u64 {
            Option::Some((n as u32, r))
        } else {
            Option::None
        },
        Option::None => Option::None,
    }
}

/// A successful string parse consumes at least the closing quote.
pub proof fn lemma_parse_string_body_shrinks(s: Seq<u8>)
    ensures
        parse_string_body(s) matches Option::Some((v, r)) ==> r.len() < s.len(),
    decreases s.len(),
{
    if s.len() == 0 {
    } else if s[0] == QUOTE {
    } else if s[0] == BACKSLASH {
        if s.len() >= 2 && (s[1] == QUOTE || s[1] == BACKSLASH) {
            lemma_parse_string_body_shrinks(s.skip(2));
        }
    } else {
        lemma_parse_string_body_shrinks(s.drop_first());
    }
}

/// A successful whole-string parse consumes at least the two quotes.
pub proof fn lemma_parse_string_shrinks(s: Seq<u8>)
    ensures
        parse_string(s) matches Option::Some((v, r)) ==> r.len() < s.len(),
{
    if s.len() > 0 && s[0] == QUOTE {
        lemma_parse_string_body_shrinks(s.drop_first());
    }
}

/// A digit run never grows the input.
pub proof fn lemma_parse_digits_no_grow(s: Seq<u8>, acc: nat)
    ensures
        parse_digits(s, acc).1.len() <= s.len(),
    decreases s.len(),
{
    if s.len() > 0 && is_digit(s[0]) {
        lemma_parse_digits_no_grow(s.drop_first(), acc * 10 + (s[0] - 48) as nat);
    }
}

/// Consume one redeem descriptor object.
pub open spec fn parse_desc(s: Seq<u8>) -> Option<(DescriptorModel, Seq<u8>)> {
    match parse_lit(s, lit_txid()) {
        Option::None => Option::None,
        Option::Some(s1) => match parse_string(s1) {
            Option::None => Option::None,
            Option::Some((txid, s2)) => match parse_lit(s2, lit_output_index()) {
                Option::None => Option::None,
                Option::Some(s3) => match parse_u32_at(s3) {
                    Option::None => Option::None,
                    Option::Some((oi, s4)) => match parse_lit(s4, lit_redeem_script()) {
                        Option::None => Option::None,
                        Option::Some(s5) => match parse_string(s5) {
                            Option::None => Option::None,
                            Option::Some((rs, s6)) => match parse_lit(s6, lit_value()) {
                                Option::None => Option::None,
                                Option::Some(s7) => match parse_u64_at(s7) {
                                    Option::None => Option::None,
                                    Option::Some((v, s8)) => if s8.len() > 0 && s8[0] == RBRACE {
                                        Option::Some(
                                            (
                                                DescriptorModel {
                                                    txid,
                                                    output_index: oi,
                                                    redeem_script: rs,
                                                    value: v,
                                                },
                                                s8.drop_first(),
                                            ),
                                        )
                                    } else {
                                        Option::None
                                    },
                                },
                            },
                        },
                    },
                },
            },
        },
    }
}

/// A successful descriptor parse consumes at least one byte.
pub proof fn lemma_parse_desc_shrinks(s: Seq<u8>)
    ensures
        parse_desc(s) matches Option::Some((d, r)) ==> r.len() < s.len(),
{
    if let Option::Some(s1) = parse_lit(s, lit_txid()) {
        assert(s1.len() < s.len());
        lemma_parse_string_shrinks(s1);
        if let Option::Some((txid, s2)) = parse_string(s1) {
            if let Option::Some(s3) = parse_lit(s2, lit_output_index()) {
                lemma_parse_digits_no_grow(s3, 0);
                if let Option::Some((oi, s4)) = parse_u32_at(s3) {
                    assert(s4.len() <= s3.len());
                    if let Option::Some(s5) = parse_lit(s4, lit_redeem_script()) {
                        lemma_parse_string_shrinks(s5);
                        if let Option::Some((rs, s6)) = parse_string(s5) {
                            if let Option::Some(s7) = parse_lit(s6, lit_value()) {
                                lemma_parse_digits_no_grow(s7, 0);
                            }
                        }
                    }
                }
            }
        }
    }
}

/// Consume the error strings up to, but not including, the closing
/// bracket.
pub open spec fn parse_err_items(s: Seq<u8>) -> Option<(Seq<Seq<u8>>, Seq<u8>)>
    decreases s.len(),
    via parse_err_items_decreases
{
    if s.len() == 0 {
        Option::None
    } else if s[0] == RBRACKET {
        Option::Some((Seq::empty(), s))
    } else {
        match parse_string(s) {
            Option::None => Option::None,
            Option::Some((v, r)) => if r.len() > 0 && r[0] == COMMA {
                match parse_err_items(r.drop_first()) {
                    Option::None => Option::None,
                    Option::Some((vs, r2)) => Option::Some((seq![v] + vs, r2)),
                }
            } else {
                Option::Some((seq![v], r))
            },
        }
    }
}

#[via_fn]
proof fn parse_err_items_decreases(s: Seq<u8>) {
    lemma_parse_string_shrinks(s);
}

/// Consume the redeem descriptors up to, but not including, the closing
/// bracket.
pub open spec fn parse_desc_items(s: Seq<u8>) -> Option<(Seq<DescriptorModel>, Seq<u8>)>
    decreases s.len(),
    via parse_desc_items_decreases
{
    if s.len() == 0 {
        Option::None
    } else if s[0] == RBRACKET {
        Option::Some((Seq::empty(), s))
    } else {
        match parse_desc(s) {
            Option::None => Option::None,
            Option::Some((d, r)) => if r.len() > 0 && r[0] == COMMA {
                match parse_desc_items(r.drop_first()) {
                    Option::None => Option::None,
                    Option::Some((ds, r2)) => Option::Some((seq![d] + ds, r2)),
                }
            } else {
                Option::Some((seq![d], r))
            },
        }
    }
}

#[via_fn]
proof fn parse_desc_items_decreases(s: Seq<u8>) {
    lemma_parse_desc_shrinks(s);
}

/// Parse a whole hand-off artifact; every byte must be consumed.
pub open spec fn parse_msig(s: Seq<u8>) -> Option<MsigModel> {
    match parse_lit(s, lit_msig_open()) {
        Option::None => Option::None,
        Option::Some(s1) => match parse_string(s1) {
            Option::None => Option::None,
            Option::Some((hex, s2)) => match parse_lit(s2, lit_complete()) {
                Option::None => Option::None,
                Option::Some(s3) => match parse_bool(s3) {
                    Option::None => Option::None,
                    Option::Some((complete, s4)) => match parse_lit(s4, lit_errors()) {
                        Option::None => Option::None,
                        Option::Some(s5) => match parse_err_items(s5) {
                            Option::None => Option::None,
                            Option::Some((errors, s6)) => match parse_lit(s6, lit_p2sh()) {
                                Option::None => Option::None,
                                Option::Some(s7) => match parse_desc_items(s7) {
                                    Option::None => Option::None,
                                    Option::Some((p2sh, s8)) => match parse_lit(s8, lit_close()) {
                                        Option::None => Option::None,
                                        Option::Some(s9) => if s9.len() == 0 {
                                            Option::Some(
                                                MsigModel {
                                                    signed_tx: PendingModel {
                                                        hex,
                                                        complete,
                                                        errors,
                                                    },
                                                    p2sh,
                                                },
                                            )
                                        } else {
                                            Option::None
                                        },
                                    },
                                },
                            },
                        },
                    },
                },
            },
        },
    }
}

proof fn lemma_parse_lit_prefix(lit: Seq<u8>, rest: Seq<u8>)
    ensures
        parse_lit(lit + rest, lit) == Option::Some(rest),
{
    let s = lit + rest;
    assert(s.subrange(0, lit.len() as int) =~= lit);
    assert(lit.is_prefix_of(s));
    assert(s.skip(lit.len() as int) =~= rest);
}

proof fn lemma_esc_round_trip(v: Seq<u8>, rest: Seq<u8>)
    ensures
        parse_string_body(esc(v) + seq![QUOTE] + rest) == Option::Some((v, rest)),
    decreases v.len(),
{
    let s = esc(v) + seq![QUOTE] + rest;
    if v.len() == 0 {
        assert(esc(v) =~= Seq::<u8>::empty());
        assert(s =~= seq![QUOTE] + rest);
        assert(s[0] == QUOTE);
        assert(s.drop_first() =~= rest);
    } else {
        let b = v[0];
        lemma_esc_round_trip(v.drop_first(), rest);
        assert(seq![b] + v.drop_first() =~= v);
        if b == QUOTE || b == BACKSLASH {
            assert(s[0] == BACKSLASH);
            assert(s[1] == b);
            assert(s.skip(2) =~= esc(v.drop_first()) + seq![QUOTE] + rest);
        } else {
            assert(s[0] == b);
            assert(s.drop_first() =~= esc(v.drop_first()) + seq![QUOTE] + rest);
        }
    }
}

proof fn lemma_string_round_trip(v: Seq<u8>, rest: Seq<u8>)
    ensures
        parse_string(enc_string(v) + rest) == Option::Some((v, rest)),
{
    let s = enc_string(v) + rest;
    assert(s[0] == QUOTE);
    assert(s.drop_first() =~= esc(v) + seq![QUOTE] + rest);
    lemma_esc_round_trip(v, rest);
}

proof fn lemma_bool_round_trip(b: bool, rest: Seq<u8>)
    ensures
        parse_bool(enc_bool(b) + rest) == Option::Some((b, rest)),
{
    if b {
        lemma_parse_lit_prefix(lit_true(), rest);
    } else {
        let s = lit_false() + rest;
        if lit_true().is_prefix_of(s) {
            assert(lit_true()[0] == s.subrange(0, 4)[0]);
            assert(false);
        }
        lemma_parse_lit_prefix(lit_false(), rest);
    }
}

proof fn lemma_u32_round_trip(n: u32, rest: Seq<u8>)
    requires
        rest.len() == 0 || !is_digit(rest[0]),
    ensures
        parse_u32_at(dec_digits(n as nat) + rest) == Option::Some((n, rest)),
{
    crate::digits::lemma_u64_round_trip(n as u64, rest);
}

#[verifier::rlimit(100)]
proof fn lemma_desc_round_trip(d: DescriptorModel, rest: Seq<u8>)
    ensures
        parse_desc(enc_desc(d) + rest) == Option::Some((d, rest)),
{
    let a1 = enc_string(d.txid);
    let a2 = lit_output_index();
    let a3 = dec_digits(d.output_index as nat);
    let a4 = lit_redeem_script();
    let a5 = enc_string(d.redeem_script);
    let a6 = lit_value();
    let a7 = dec_digits(d.value as nat);
    let r7 = seq![RBRACE] + rest;
    let r6 = a7 + r7;
    let r5 = a6 + r6;
    let r4 = a5 + r5;
    let r3 = a4 + r4;
    let r2 = a3 + r3;
    let r1 = a2 + r2;
    let r0 = a1 + r1;
    let s = lit_txid() + r0;
    assert(s =~= enc_desc(d) + rest);
    lemma_parse_lit_prefix(lit_txid(), r0);
    lemma_string_round_trip(d.txid, r1);
    lemma_parse_lit_prefix(lit_output_index(), r2);
    assert(r3[0] == 44);
    lemma_u32_round_trip(d.output_index, r3);
    lemma_parse_lit_prefix(lit_redeem_script(), r4);
    lemma_string_round_trip(d.redeem_script, r5);
    lemma_parse_lit_prefix(lit_value(), r6);
    assert(r7[0] == RBRACE);
    crate::digits::lemma_u64_round_trip(d.value, r7);
    assert(r7.drop_first() =~= rest);
}

proof fn lemma_err_items_round_trip(errors: Seq<Seq<u8>>, rest: Seq<u8>)
    requires
        rest.len() > 0,
        rest[0] == RBRACKET,
    ensures
        parse_err_items(enc_err_items(errors) + rest) == Option::Some((errors, rest)),
    decreases errors.len(),
{
    let s = enc_err_items(errors) + rest;
    if errors.len() == 0 {
        assert(s =~= rest);
        assert(errors =~= Seq::<Seq<u8>>::empty());
    } else if errors.len() == 1 {
        assert(s =~= enc_string(errors[0]) + rest);
        lemma_string_round_trip(errors[0], rest);
        assert(s[0] == QUOTE);
        assert(seq![errors[0]] =~= errors);
    } else {
        let r1 = enc_err_items(errors.drop_first()) + rest;
        let r = seq![COMMA] + r1;
        assert(s =~= enc_string(errors[0]) + r);
        lemma_string_round_trip(errors[0], r);
        assert(s[0] == QUOTE);
        assert(r[0] == COMMA);
        assert(r.drop_first() =~= r1);
        lemma_err_items_round_trip(errors.drop_first(), rest);
        assert(seq![errors[0]] + errors.drop_first() =~= errors);
    }
}

#[verifier::rlimit(100)]
proof fn lemma_desc_items_round_trip(ds: Seq<DescriptorModel>, rest: Seq<u8>)
    requires
        rest.len() > 0,
        rest[0] == RBRACKET,
    ensures
        parse_desc_items(enc_desc_items(ds) + rest) == Option::Some((ds, rest)),
    decreases ds.len(),
{
    let s = enc_desc_items(ds) + rest;
    if ds.len() == 0 {
        assert(s =~= rest);
        assert(ds =~= Seq::<DescriptorModel>::empty());
    } else if ds.len() == 1 {
        assert(s =~= enc_desc(ds[0]) + rest);
        lemma_desc_round_trip(ds[0], rest);
        assert(s[0] == 123);
        assert(seq![ds[0]] =~= ds);
    } else {
        let r1 = enc_desc_items(ds.drop_first()) + rest;
        let r = seq![COMMA] + r1;
        assert(s =~= enc_desc(ds[0]) + r);
        lemma_desc_round_trip(ds[0], r);
        assert(s[0] == 123);
        assert(r[0] == COMMA);
        assert(r.drop_first() =~= r1);
        lemma_desc_items_round_trip(ds.drop_first(), rest);
        assert(seq![ds[0]] + ds.drop_first() =~= ds);
    }
}

/// Law: round-trip persistence. Whatever state the encoder writes, the
/// parser reads back unchanged — the descriptor sequence in order, and
/// every field of the pending transaction.
#[verifier::rlimit(100)]
pub proof fn lemma_handoff_round_trip(m: MsigModel)
    ensures
        parse_msig(enc_msig(m)) == Option::Some(m),
{
    let a1 = enc_string(m.signed_tx.hex);
    let a2 = lit_complete();
    let a3 = enc_bool(m.signed_tx.complete);
    let a4 = lit_errors();
    let a5 = enc_err_items(m.signed_tx.errors);
    let a6 = lit_p2sh();
    let a7 = enc_desc_items(m.p2sh);
    let u7 = lit_close() + Seq::<u8>::empty();
    let u6 = a7 + u7;
    let u5 = a6 + u6;
    let u4 = a5 + u5;
    let u3 = a4 + u4;
    let u2 = a3 + u3;
    let u1 = a2 + u2;
    let u0 = a1 + u1;
    let s = lit_msig_open() + u0;
    assert(s =~= enc_msig(m));
    lemma_parse_lit_prefix(lit_msig_open(), u0);
    lemma_string_round_trip(m.signed_tx.hex, u1);
    lemma_parse_lit_prefix(lit_complete(), u2);
    lemma_bool_round_trip(m.signed_tx.complete, u3);
    lemma_parse_lit_prefix(lit_errors(), u4);
    assert(u5[0] == RBRACKET);
    lemma_err_items_round_trip(m.signed_tx.errors, u5);
    lemma_parse_lit_prefix(lit_p2sh(), u6);
    assert(u7[0] == RBRACKET);
    lemma_desc_items_round_trip(m.p2sh, u7);
    assert(u7 =~= lit_close() + Seq::<u8>::empty());
    lemma_parse_lit_prefix(lit_close(), Seq::<u8>::empty());
}

fn lit_msig_open_vec() -> (r: Vec<u8>)
    ensures
        r@ == lit_msig_open(),
{
    let mut r: Vec<u8> = Vec::new();
    r.push(123);
    r.push(34);
    r.push(115);
    r.push(105);
    r.push(103);
    r.push(110);
    r.push(101);
    r.push(100);
    r.push(95);
    r.push(116);
    r.push(120);
    r.push(34);
    r.push(58);
    r.push(123);
    r.push(34);
    r.push(104);
    r.push(101);
    r.push(120);
    r.push(34);
    r.push(58);
    proof {
        assert(r@ =~= lit_msig_open());
    }
    r
}

fn lit_complete_vec() -> (r: Vec<u8>)
    ensures
        r@ == lit_complete(),
{
    let mut r: Vec<u8> = Vec::new();
    r.push(44);
    r.push(34);
    r.push(99);
    r.push(111);
    r.push(109);
    r.push(112);
    r.push(108);
    r.push(101);
    r.push(116);
    r.push(101);
    r.push(34);
    r.push(58);
    proof {
        assert(r@ =~= lit_complete());
    }
    r
}

fn lit_errors_vec() -> (r: Vec<u8>)
    ensures
        r@ == lit_errors(),
{
    let mut r: Vec<u8> = Vec::new();
    r.push(44);
    r.push(34);
    r.push(101);
    r.push(114);
    r.push(114);
    r.push(111);
    r.push(114);
    r.push(115);
    r.push(34);
    r.push(58);
    r.push(91);
    proof {
        assert(r@ =~= lit_errors());
    }
    r
}

fn lit_p2sh_vec() -> (r: Vec<u8>)
    ensures
        r@ == lit_p2sh(),
{
    let mut r: Vec<u8> = Vec::new();
    r.push(93);
    r.push(125);
    r.push(44);
    r.push(34);
    r.push(112);
    r.push(50);
    r.push(115);
    r.push(104);
    r.push(34);
    r.push(58);
    r.push(91);
    proof {
        assert(r@ =~= lit_p2sh());
    }
    r
}

fn lit_close_vec() -> (r: Vec<u8>)
    ensures
        r@ == lit_close(),
{
    let mut r: Vec<u8> = Vec::new();
    r.push(93);
    r.push(125);
    proof {
        assert(r@ =~= lit_close());
    }
    r
}

fn lit_txid_vec() -> (r: Vec<u8>)
    ensures
        r@ == lit_txid(),
{
    let mut r: Vec<u8> = Vec::new();
    r.push(123);
    r.push(34);
    r.push(116);
    r.push(120);
    r.push(105);
    r.push(100);
    r.push(34);
    r.push(58);
    proof {
        assert(r@ =~= lit_txid());
    }
    r
}

fn lit_output_index_vec() -> (r: Vec<u8>)
    ensures
        r@ == lit_output_index(),
{
    let mut r: Vec<u8> = Vec::new();
    r.push(44);
    r.push(34);
    r.push(111);
    r.push(117);
    r.push(116);
    r.push(112);
    r.push(117);
    r.push(116);
    r.push(95);
    r.push(105);
    r.push(110);
    r.push(100);
    r.push(101);
    r.push(120);
    r.push(34);
    r.push(58);
    proof {
        assert(r@ =~= lit_output_index());
    }
    r
}

fn lit_redeem_script_vec() -> (r: Vec<u8>)
    ensures
        r@ == lit_redeem_script(),
{
    let mut r: Vec<u8> = Vec::new();
    r.push(44);
    r.push(34);
    r.push(114);
    r.push(101);
    r.push(100);
    r.push(101);
    r.push(101);
    r.push(109);
    r.push(95);
    r.push(115);
    r.push(99);
    r.push(114);
    r.push(105);
    r.push(112);
    r.push(116);
    r.push(34);
    r.push(58);
    proof {
        assert(r@ =~= lit_redeem_script());
    }
    r
}

fn lit_value_vec() -> (r: Vec<u8>)
    ensures
        r@ == lit_value(),
{
    let mut r: Vec<u8> = Vec::new();
    r.push(44);
    r.push(34);
    r.push(118);
    r.push(97);
    r.push(108);
    r.push(117);
    r.push(101);
    r.push(34);
    r.push(58);
    proof {
        assert(r@ =~= lit_value());
    }
    r
}

fn lit_true_vec() -> (r: Vec<u8>)
    ensures
        r@ == lit_true(),
{
    let mut r: Vec<u8> = Vec::new();
    r.push(116);
    r.push(114);
    r.push(117);
    r.push(101);
    proof {
        assert(r@ =~= lit_true());
    }
    r
}

fn lit_false_vec() -> (r: Vec<u8>)
    ensures
        r@ == lit_false(),
{
    let mut r: Vec<u8> = Vec::new();
    r.push(102);
    r.push(97);
    r.push(108);
    r.push(115);
    r.push(101);
    proof {
        assert(r@ =~= lit_false());
    }
    r
}

proof fn lemma_esc_append(a: Seq<u8>, b: Seq<u8>)
    ensures
        esc(a + b) == esc(a) + esc(b),
    decreases a.len(),
{
    if a.len() == 0 {
        assert(a + b =~= b);
        assert(esc(a) =~= Seq::<u8>::empty());
        assert(esc(a) + esc(b) =~= esc(b));
    } else {
        assert((a + b)[0] == a[0]);
        assert((a + b).drop_first() =~= a.drop_first() + b);
        lemma_esc_append(a.drop_first(), b);
        assert(esc_byte(a[0]) + (esc(a.drop_first()) + esc(b)) =~= (esc_byte(a[0]) + esc(
            a.drop_first(),
        )) + esc(b));
    }
}

fn push_escaped(out: &mut Vec<u8>, s: &Vec<u8>)
    ensures
        final(out)@ == old(out)@ + esc(s@),
{
    let mut i: usize = 0;
    proof {
        assert(s@.take(0) =~= Seq::<u8>::empty());
        assert(out@ + esc(Seq::<u8>::empty()) =~= out@);
    }
    while i < s.len()
        invariant
            i <= s.len(),
            out@ == old(out)@ + esc(s@.take(i as int)),
        decreases s.len() - i,
    {
        let b = s[i];
        if b == QUOTE || b == BACKSLASH {
            out.push(BACKSLASH);
            out.push(b);
        } else {
            out.push(b);
        }
        proof {
            assert(s@.take(i + 1) =~= s@.take(i as int) + seq![s@[i as int]]);
            lemma_esc_append(s@.take(i as int), seq![s@[i as int]]);
            assert(seq![b].drop_first() =~= Seq::<u8>::empty());
            assert(esc(Seq::<u8>::empty()) =~= Seq::<u8>::empty());
            assert(esc(seq![b]) =~= esc_byte(b) + esc(Seq::<u8>::empty()));
            assert(esc(seq![b]) =~= esc_byte(b));
            assert(out@ =~= old(out)@ + esc(s@.take(i + 1)));
        }
        i = i + 1;
    }
    proof {
        assert(s@.take(s@.len() as int) =~= s@);
    }
}

fn push_string(out: &mut Vec<u8>, s: &Vec<u8>)
    ensures
        final(out)@ == old(out)@ + enc_string(s@),
{
    out.push(QUOTE);
    push_escaped(out, s);
    out.push(QUOTE);
    proof {
        assert(out@ =~= old(out)@ + enc_string(s@));
    }
}

fn push_u64(out: &mut Vec<u8>, n: u64)
    ensures
        final(out)@ == old(out)@ + dec_digits(n as nat),
{
    let mut d = crate::digits::encode_u64(n);
    out.append(&mut d);
}

fn push_bool(out: &mut Vec<u8>, b: bool)
    ensures
        final(out)@ == old(out)@ + enc_bool(b),
{
    let mut v = if b {
        lit_true_vec()
    } else {
        lit_false_vec()
    };
    out.append(&mut v);
}

fn push_desc(out: &mut Vec<u8>, d: &RedeemDescriptor)
    ensures
        final(out)@ == old(out)@ + enc_desc(d@),
{
    let mut v = lit_txid_vec();
    out.append(&mut v);
    push_string(out, &d.txid);
    let mut v = lit_output_index_vec();
    out.append(&mut v);
    push_u64(out, d.output_index as u64);
    let mut v = lit_redeem_script_vec();
    out.append(&mut v);
    push_string(out, &d.redeem_script);
    let mut v = lit_value_vec();
    out.append(&mut v);
    push_u64(out, d.value);
    out.push(RBRACE);
    proof {
        assert(out@ =~= old(out)@ + enc_desc(d@));
    }
}

fn push_err_items(out: &mut Vec<u8>, errors: &Vec<Vec<u8>>, i: usize)
    requires
        i <= errors.len(),
    ensures
        final(out)@ == old(out)@ + enc_err_items(errors.deep_view().skip(i as int)),
    decreases errors.len() - i,
{
    let ghost m = errors.deep_view();
    if i == errors.len() {
        proof {
            assert(m.skip(i as int) =~= Seq::<Seq<u8>>::empty());
            assert(out@ + enc_err_items(Seq::<Seq<u8>>::empty()) =~= out@);
        }
        return ;
    }
    push_string(out, &errors[i]);
    proof {
        assert(errors[i as int]@ == m.skip(i as int)[0]);
    }
    if i + 1 < errors.len() {
        out.push(COMMA);
        push_err_items(out, errors, i + 1);
        proof {
            assert(m.skip(i as int).drop_first() =~= m.skip(i + 1));
            assert(m.skip(i as int).len() > 1);
            assert(out@ =~= old(out)@ + enc_err_items(m.skip(i as int)));
        }
    } else {
        proof {
            assert(m.skip(i as int).len() == 1);
            assert(out@ =~= old(out)@ + enc_err_items(m.skip(i as int)));
        }
    }
}

fn push_desc_items(out: &mut Vec<u8>, ds: &Vec<RedeemDescriptor>, i: usize)
    requires
        i <= ds.len(),
    ensures
        final(out)@ == old(out)@ + enc_desc_items(desc_models(ds@).skip(i as int)),
    decreases ds.len() - i,
{
    let ghost m = desc_models(ds@);
    if i == ds.len() {
        proof {
            assert(m.skip(i as int) =~= Seq::<DescriptorModel>::empty());
            assert(out@ + enc_desc_items(Seq::<DescriptorModel>::empty()) =~= out@);
        }
        return ;
    }
    push_desc(out, &ds[i]);
    proof {
        assert(ds[i as int]@ == m.skip(i as int)[0]);
    }
    if i + 1 < ds.len() {
        out.push(COMMA);
        push_desc_items(out, ds, i + 1);
        proof {
            assert(m.skip(i as int).drop_first() =~= m.skip(i + 1));
            assert(m.skip(i as int).len() > 1);
            assert(out@ =~= old(out)@ + enc_desc_items(m.skip(i as int)));
        }
    } else {
        proof {
            assert(m.skip(i as int).len() == 1);
            assert(out@ =~= old(out)@ + enc_desc_items(m.skip(i as int)));
        }
    }
}

/// Serialize the persisted state to the hand-off artifact's exact bytes.
pub fn encode_msig(m: &MultiSignatureTransaction) -> (r: Vec<u8>)
    ensures
        r@ == enc_msig(m@),
{
    let mut out: Vec<u8> = Vec::new();
    let mut v = lit_msig_open_vec();
    out.append(&mut v);
    push_string(&mut out, &m.signed_tx.hex);
    let mut v = lit_complete_vec();
    out.append(&mut v);
    push_bool(&mut out, m.signed_tx.complete);
    let mut v = lit_errors_vec();
    out.append(&mut v);
    push_err_items(&mut out, &m.signed_tx.errors, 0);
    let mut v = lit_p2sh_vec();
    out.append(&mut v);
    push_desc_items(&mut out, &m.p2sh, 0);
    let mut v = lit_close_vec();
    out.append(&mut v);
    proof {
        assert(m.signed_tx.errors.deep_view().skip(0) =~= m.signed_tx.errors.deep_view());
        assert(desc_models(m.p2sh@).skip(0) =~= desc_models(m.p2sh@));
        assert(out@ =~= enc_msig(m@));
    }
    out
}

fn match_lit(s: &Vec<u8>, i: usize, lit: &Vec<u8>) -> (r: Option<usize>)
    requires
        i <= s.len(),
    ensures
        match r {
            Option::Some(j) => i <= j <= s@.len() && parse_lit(s@.skip(i as int), lit@)
                == Option::Some(s@.skip(j as int)),
            Option::None => parse_lit(s@.skip(i as int), lit@) is None,
        },
{
    if lit.len() > s.len() - i {
        return Option::None;
    }
    let mut k: usize = 0;
    while k < lit.len()
        invariant
            k <= lit.len(),
            i + lit.len() <= s.len(),
            forall|t: int| 0 <= t < k ==> s@[i + t] == lit@[t],
        decreases lit.len() - k,
    {
        if s[i + k] != lit[k] {
            proof {
                let su = s@.skip(i as int);
                if lit@.is_prefix_of(su) {
                    assert(lit@[k as int] == su.subrange(0, lit@.len() as int)[k as int]);
                }
            }
            return Option::None;
        }
        k = k + 1;
    }
    proof {
        let su = s@.skip(i as int);
        assert(su.subrange(0, lit@.len() as int) =~= lit@);
        assert(su.skip(lit@.len() as int) =~= s@.skip(i + lit@.len()));
    }
    Option::Some(i + lit.len())
}

fn scan_string_body(s: &Vec<u8>, i: usize) -> (r: Option<(Vec<u8>, usize)>)
    requires
        i <= s.len(),
    ensures
        match r {
            Option::Some((v, j)) => i < j <= s@.len() && parse_string_body(s@.skip(i as int))
                == Option::Some((v@, s@.skip(j as int))),
            Option::None => parse_string_body(s@.skip(i as int)) is None,
        },
    decreases s.len() - i,
{
    if i == s.len() {
        proof {
            assert(s@.skip(i as int) =~= Seq::<u8>::empty());
        }
        return Option::None;
    }
    let ghost su = s@.skip(i as int);
    proof {
        assert(su[0] == s@[i as int]);
    }
    let b = s[i];
    if b == QUOTE {
        let v: Vec<u8> = Vec::new();
        proof {
            assert(su.drop_first() =~= s@.skip(i + 1));
            assert(v@ =~= Seq::<u8>::empty());
        }
        return Option::Some((v, i + 1));
    }
    if b == BACKSLASH {
        if i + 1 == s.len() {
            proof {
                assert(su.len() == 1);
            }
            return Option::None;
        }
        proof {
            assert(su[1] == s@[i + 1]);
        }
        let c = s[i + 1];
        if c == QUOTE || c == BACKSLASH {
            match scan_string_body(s, i + 2) {
                Option::Some((tail, j)) => {
                    let mut v: Vec<u8> = Vec::new();
                    v.push(c);
                    let mut t = tail;
                    v.append(&mut t);
                    proof {
                        assert(su.skip(2) =~= s@.skip(i + 2));
                        assert(v@ =~= seq![su[1]] + (match parse_string_body(s@.skip(i + 2)) {
                            Option::Some((tv, _)) => tv,
                            Option::None => Seq::<u8>::empty(),
                        }));
                    }
                    Option::Some((v, j))
                },
                Option::None => {
                    proof {
                        assert(su.skip(2) =~= s@.skip(i + 2));
                    }
                    Option::None
                },
            }
        } else {
            proof {
                assert(su.len() >= 2);
            }
            Option::None
        }
    } else {
        match scan_string_body(s, i + 1) {
            Option::Some((tail, j)) => {
                let mut v: Vec<u8> = Vec::new();
                v.push(b);
                let mut t = tail;
                v.append(&mut t);
                proof {
                    assert(su.drop_first() =~= s@.skip(i + 1));
                    assert(v@ =~= seq![su[0]] + (match parse_string_body(s@.skip(i + 1)) {
                        Option::Some((tv, _)) => tv,
                        Option::None => Seq::<u8>::empty(),
                    }));
                }
                Option::Some((v, j))
            },
            Option::None => {
                proof {
                    assert(su.drop_first() =~= s@.skip(i + 1));
                }
                Option::None
            },
        }
    }
}

fn scan_string(s: &Vec<u8>, i: usize) -> (r: Option<(Vec<u8>, usize)>)
    requires
        i <= s.len(),
    ensures
        match r {
            Option::Some((v, j)) => i < j <= s@.len() && parse_string(s@.skip(i as int))
                == Option::Some((v@, s@.skip(j as int))),
            Option::None => parse_string(s@.skip(i as int)) is None,
        },
{
    if i == s.len() {
        proof {
            assert(s@.skip(i as int) =~= Seq::<u8>::empty());
        }
        return Option::None;
    }
    proof {
        assert(s@.skip(i as int)[0] == s@[i as int]);
    }
    if s[i] != QUOTE {
        return Option::None;
    }
    proof {
        assert(s@.skip(i as int).drop_first() =~= s@.skip(i + 1));
    }
    scan_string_body(s, i + 1)
}

fn scan_u64(s: &Vec<u8>, i: usize) -> (r: Option<(u64, usize)>)
    requires
        i <= s.len(),
    ensures
        match r {
            Option::Some((n, j)) => i < j <= s@.len() && parse_u64_at(s@.skip(i as int))
                == Option::Some((n, s@.skip(j as int))),
            Option::None => parse_u64_at(s@.skip(i as int)) is None,
        },
{
    let ghost su = s@.skip(i as int);
    if i == s.len() {
        proof {
            assert(su =~= Seq::<u8>::empty());
        }
        return Option::None;
    }
    proof {
        assert(su[0] == s@[i as int]);
    }
    let b0 = s[i];
    if !(48 <= b0 && b0 <= 57) {
        return Option::None;
    }
    if b0 == 48 {
        if i + 1 < s.len() {
            proof {
                assert(su[1] == s@[i + 1]);
            }
            let b1 = s[i + 1];
            if 48 <= b1 && b1 <= 57 {
                return Option::None;
            }
        }
        proof {
            assert(su.drop_first() =~= s@.skip(i + 1));
            assert(parse_digits(su, 0) == parse_digits(s@.skip(i + 1), 0));
            if s@.skip(i + 1).len() > 0 {
                assert(s@.skip(i + 1)[0] == s@[i + 1]);
            }
        }
        return Option::Some((0, i + 1));
    }
    let mut acc: u64 = 0;
    let mut j: usize = i;
    while j < s.len() && 48 <= s[j] && s[j] <= 57
        invariant
            i <= j <= s.len(),
            su == s@.skip(i as int),
            acc <= u64::MAX,
            parse_digits(su, 0) == parse_digits(s@.skip(j as int), acc as nat),
        decreases s.len() - j,
    {
        let d: u64 = (s[j] - 48) as u64;
        let wide: u128 = acc as u128 * 10 + d as u128;
        proof {
            assert(s@.skip(j as int)[0] == s@[j as int]);
            assert(s@.skip(j as int).drop_first() =~= s@.skip(j + 1));
            assert(parse_digits(s@.skip(j as int), acc as nat) == parse_digits(
                s@.skip(j + 1),
                acc as nat * 10 + (s@[j as int] - 48) as nat,
            ));
        }
        if wide > u64::MAX as u128 {
            proof {
                crate::digits::lemma_parse_digits_monotone(
                    s@.skip(j + 1),
                    acc as nat * 10 + (s@[j as int] - 48) as nat,
                );
            }
            return Option::None;
        }
        acc = wide as u64;
        j = j + 1;
    }
    proof {
        if j < s@.len() {
            assert(s@.skip(j as int)[0] == s@[j as int]);
        } else {
            assert(s@.skip(j as int) =~= Seq::<u8>::empty());
        }
        assert(parse_digits(s@.skip(j as int), acc as nat) == (acc as nat, s@.skip(j as int)));
    }
    Option::Some((acc, j))
}

fn scan_u32(s: &Vec<u8>, i: usize) -> (r: Option<(u32, usize)>)
    requires
        i <= s.len(),
    ensures
        match r {
            Option::Some((n, j)) => i < j <= s@.len() && parse_u32_at(s@.skip(i as int))
                == Option::Some((n, s@.skip(j as int))),
            Option::None => parse_u32_at(s@.skip(i as int)) is None,
        },
{
    match scan_u64(s, i) {
        Option::Some((n, j)) => {
            if n <= u32::MAX as u64 {
                Option::Some((n as u32, j))
            } else {
                Option::None
            }
        },
        Option::None => Option::None,
    }
}

fn scan_bool(s: &Vec<u8>, i: usize) -> (r: Option<(bool, usize)>)
    requires
        i <= s.len(),
    ensures
        match r {
            Option::Some((b, j)) => i <= j <= s@.len() && parse_bool(s@.skip(i as int))
                == Option::Some((b, s@.skip(j as int))),
            Option::None => parse_bool(s@.skip(i as int)) is None,
        },
{
    let t = lit_true_vec();
    match match_lit(s, i, &t) {
        Option::Some(j) => Option::Some((true, j)),
        Option::None => {
            let f = lit_false_vec();
            match match_lit(s, i, &f) {
                Option::Some(j) => Option::Some((false, j)),
                Option::None => Option::None,
            }
        },
    }
}

fn scan_desc(s: &Vec<u8>, i: usize) -> (r: Option<(RedeemDescriptor, usize)>)
    requires
        i <= s.len(),
    ensures
        match r {
            Option::Some((d, j)) => i < j <= s@.len() && parse_desc(s@.skip(i as int))
                == Option::Some((d@, s@.skip(j as int))),
            Option::None => parse_desc(s@.skip(i as int)) is None,
        },
{
    let lit = lit_txid_vec();
    let i1 = match match_lit(s, i, &lit) {
        Option::Some(j) => j,
        Option::None => {
            return Option::None;
        },
    };
    let (txid, i2) = match scan_string(s, i1) {
        Option::Some(p) => p,
        Option::None => {
            return Option::None;
        },
    };
    let lit = lit_output_index_vec();
    let i3 = match match_lit(s, i2, &lit) {
        Option::Some(j) => j,
        Option::None => {
            return Option::None;
        },
    };
    let (oi, i4) = match scan_u32(s, i3) {
        Option::Some(p) => p,
        Option::None => {
            return Option::None;
        },
    };
    let lit = lit_redeem_script_vec();
    let i5 = match match_lit(s, i4, &lit) {
        Option::Some(j) => j,
        Option::None => {
            return Option::None;
        },
    };
    let (rs, i6) = match scan_string(s, i5) {
        Option::Some(p) => p,
        Option::None => {
            return Option::None;
        },
    };
    let lit = lit_value_vec();
    let i7 = match match_lit(s, i6, &lit) {
        Option::Some(j) => j,
        Option::None => {
            return Option::None;
        },
    };
    let (v, i8) = match scan_u64(s, i7) {
        Option::Some(p) => p,
        Option::None => {
            return Option::None;
        },
    };
    if i8 == s.len() {
        proof {
            assert(s@.skip(i8 as int) =~= Seq::<u8>::empty());
        }
        return Option::None;
    }
    proof {
        assert(s@.skip(i8 as int)[0] == s@[i8 as int]);
    }
    if s[i8] != RBRACE {
        return Option::None;
    }
    let d = RedeemDescriptor { txid, output_index: oi, redeem_script: rs, value: v };
    proof {
        assert(s@.skip(i8 as int).drop_first() =~= s@.skip(i8 + 1));
    }
    Option::Some((d, i8 + 1))
}

fn scan_err_items(s: &Vec<u8>, i: usize) -> (r: Option<(Vec<Vec<u8>>, usize)>)
    requires
        i <= s.len(),
    ensures
        match r {
            Option::Some((v, j)) => i <= j <= s@.len() && parse_err_items(s@.skip(i as int))
                == Option::Some((v.deep_view(), s@.skip(j as int))),
            Option::None => parse_err_items(s@.skip(i as int)) is None,
        },
    decreases s.len() - i,
{
    let ghost su = s@.skip(i as int);
    if i == s.len() {
        proof {
            assert(su =~= Seq::<u8>::empty());
        }
        return Option::None;
    }
    proof {
        assert(su[0] == s@[i as int]);
    }
    if s[i] == RBRACKET {
        let v: Vec<Vec<u8>> = Vec::new();
        proof {
            assert(v.deep_view() =~~= Seq::<Seq<u8>>::empty());
        }
        return Option::Some((v, i));
    }
    let (first, j) = match scan_string(s, i) {
        Option::Some(p) => p,
        Option::None => {
            return Option::None;
        },
    };
    if j < s.len() {
        proof {
            assert(s@.skip(j as int)[0] == s@[j as int]);
        }
        if s[j] == COMMA {
            proof {
                assert(s@.skip(j as int).drop_first() =~= s@.skip(j + 1));
            }
            match scan_err_items(s, j + 1) {
                Option::Some((tail, j2)) => {
                    let mut v: Vec<Vec<u8>> = Vec::new();
                    v.push(first);
                    let mut t = tail;
                    v.append(&mut t);
                    proof {
                        assert(v.deep_view() =~~= seq![v@[0]@] + (match parse_err_items(
                            s@.skip(j + 1),
                        ) {
                            Option::Some((tv, _)) => tv,
                            Option::None => Seq::<Seq<u8>>::empty(),
                        }));
                    }
                    return Option::Some((v, j2));
                },
                Option::None => {
                    return Option::None;
                },
            }
        }
    }
    let mut v: Vec<Vec<u8>> = Vec::new();
    v.push(first);
    proof {
        if j < s@.len() {
            assert(s@.skip(j as int)[0] == s@[j as int]);
        }
        assert(v.deep_view() =~~= seq![v@[0]@]);
    }
    Option::Some((v, j))
}

fn scan_desc_items(s: &Vec<u8>, i: usize) -> (r: Option<(Vec<RedeemDescriptor>, usize)>)
    requires
        i <= s.len(),
    ensures
        match r {
            Option::Some((v, j)) => i <= j <= s@.len() && parse_desc_items(s@.skip(i as int))
                == Option::Some((desc_models(v@), s@.skip(j as int))),
            Option::None => parse_desc_items(s@.skip(i as int)) is None,
        },
    decreases s.len() - i,
{
    let ghost su = s@.skip(i as int);
    if i == s.len() {
        proof {
            assert(su =~= Seq::<u8>::empty());
        }
        return Option::None;
    }
    proof {
        assert(su[0] == s@[i as int]);
    }
    if s[i] == RBRACKET {
        let v: Vec<RedeemDescriptor> = Vec::new();
        proof {
            assert(desc_models(v@) =~= Seq::<DescriptorModel>::empty());
        }
        return Option::Some((v, i));
    }
    let (first, j) = match scan_desc(s, i) {
        Option::Some(p) => p,
        Option::None => {
            return Option::None;
        },
    };
    if j < s.len() {
        proof {
            assert(s@.skip(j as int)[0] == s@[j as int]);
        }
        if s[j] == COMMA {
            proof {
                assert(s@.skip(j as int).drop_first() =~= s@.skip(j + 1));
            }
            match scan_desc_items(s, j + 1) {
                Option::Some((tail, j2)) => {
                    let mut v: Vec<RedeemDescriptor> = Vec::new();
                    v.push(first);
                    let mut t = tail;
                    v.append(&mut t);
                    proof {
                        assert(desc_models(v@) =~= seq![v@[0]@] + (match parse_desc_items(
                            s@.skip(j + 1),
                        ) {
                            Option::Some((tv, _)) => tv,
                            Option::None => Seq::<DescriptorModel>::empty(),
                        }));
                    }
                    return Option::Some((v, j2));
                },
                Option::None => {
                    return Option::None;
                },
            }
        }
    }
    let mut v: Vec<RedeemDescriptor> = Vec::new();
    v.push(first);
    proof {
        if j < s@.len() {
            assert(s@.skip(j as int)[0] == s@[j as int]);
        }
        assert(desc_models(v@) =~= seq![v@[0]@]);
    }
    Option::Some((v, j))
}

/// Parse a hand-off artifact's bytes back into the persisted state; any
/// deviation from the artifact's exact shape is reported as malformed.
pub fn decode_msig(bytes: &Vec<u8>) -> (r: Result<MultiSignatureTransaction, CoordinatorError>)
    ensures
        match r {
            Ok(m) => parse_msig(bytes@) == Option::Some(m@),
            Err(e) => e == CoordinatorError::MalformedHandOff && parse_msig(bytes@) is None,
        },
{
    proof {
        assert(bytes@.skip(0) =~= bytes@);
    }
    let lit = lit_msig_open_vec();
    let i1 = match match_lit(bytes, 0, &lit) {
        Option::Some(j) => j,
        Option::None => {
            return Err(CoordinatorError::MalformedHandOff);
        },
    };
    let (hex, i2) = match scan_string(bytes, i1) {
        Option::Some(p) => p,
        Option::None => {
            return Err(CoordinatorError::MalformedHandOff);
        },
    };
    let lit = lit_complete_vec();
    let i3 = match match_lit(bytes, i2, &lit) {
        Option::Some(j) => j,
        Option::None => {
            return Err(CoordinatorError::MalformedHandOff);
        },
    };
    let (complete, i4) = match scan_bool(bytes, i3) {
        Option::Some(p) => p,
        Option::None => {
            return Err(CoordinatorError::MalformedHandOff);
        },
    };
    let lit = lit_errors_vec();
    let i5 = match match_lit(bytes, i4, &lit) {
        Option::Some(j) => j,
        Option::None => {
            return Err(CoordinatorError::MalformedHandOff);
        },
    };
    let (errors, i6) = match scan_err_items(bytes, i5) {
        Option::Some(p) => p,
        Option::None => {
            return Err(CoordinatorError::MalformedHandOff);
        },
    };
    let lit = lit_p2sh_vec();
    let i7 = match match_lit(bytes, i6, &lit) {
        Option::Some(j) => j,
        Option::None => {
            return Err(CoordinatorError::MalformedHandOff);
        },
    };
    let (p2sh, i8) = match scan_desc_items(bytes, i7) {
        Option::Some(p) => p,
        Option::None => {
            return Err(CoordinatorError::MalformedHandOff);
        },
    };
    let lit = lit_close_vec();
    let i9 = match match_lit(bytes, i8, &lit) {
        Option::Some(j) => j,
        Option::None => {
            return Err(CoordinatorError::MalformedHandOff);
        },
    };
    if i9 != bytes.len() {
        proof {
            assert(bytes@.skip(i9 as int).len() > 0);
        }
        return Err(CoordinatorError::MalformedHandOff);
    }
    let m = MultiSignatureTransaction {
        signed_tx: PendingTransaction { hex, complete, errors },
        p2sh,
    };
    proof {
        assert(bytes@.skip(i9 as int) =~= Seq::<u8>::empty());
    }
    Ok(m)
}

} // verus!
