//! The signing coordinator's state machine. A multi-signature transaction
//! is created once, from the first signing round's report and the selected
//! inputs; each later round replaces only the pending transaction; once the
//! signing service reports it complete the state is terminal and is only
//! read, to emit the broadcast payload.

use vstd::prelude::*;
use crate::types::CoordinatorError;
use crate::types::DescriptorModel;
use crate::types::FinalizeOutcome;
use crate::types::MsigModel;
use crate::types::MultiSignatureTransaction;
use crate::types::OutcomeModel;
use crate::types::PendingTransaction;
use crate::types::RedeemDescriptor;
use crate::types::UnspentOutput;
use crate::types::UtxoModel;
use crate::types::desc_models;
use crate::selector::utxo_models;
use crate::builder::copy_bytes;
use crate::codec::enc_msig;
use crate::codec::encode_msig;
use crate::digits::padded_digits;
use crate::digits::encode_padded;

verus! {

/// Check the source address balance against the requested amount before
/// anything else is fetched or built. Succeeds exactly when the balance
/// covers the amount.
pub fn check_balance(balance: u64, amount: u64) -> (r: Result<(), CoordinatorError>)
    ensures
        r is Ok <==> balance >= amount,
        r is Err ==> r == Result::<(), CoordinatorError>::Err(
            CoordinatorError::InsufficientBalance,
        ),
{
    if balance < amount {
        Err(CoordinatorError::InsufficientBalance)
    } else {
        Ok(())
    }
}

/// The redeem descriptor of one selected output under the shared script.
pub open spec fn descriptor_of(u: UtxoModel, script: Seq<u8>) -> DescriptorModel {
    DescriptorModel {
        txid: u.txid,
        output_index: u.output_index,
        redeem_script: script,
        value: u.value,
    }
}

/// The descriptors of the selected outputs, in selection order.
pub open spec fn descriptors_of(us: Seq<UtxoModel>, script: Seq<u8>) -> Seq<DescriptorModel> {
    us.map_values(|u: UtxoModel| descriptor_of(u, script))
}

/// What finalization decides, as a function of the state alone: a complete
/// transaction yields its hex for broadcast, an incomplete one the encoded
/// hand-off artifact for the next signer.
pub open spec fn finalize_model(m: MsigModel) -> OutcomeModel {
    if m.signed_tx.complete {
        OutcomeModel::Broadcast(m.signed_tx.hex)
    } else {
        OutcomeModel::HandOff(enc_msig(m))
    }
}

impl MultiSignatureTransaction {
    /// Assemble the persisted state at initiation: the first signing
    /// round's report, and one descriptor per selected input, in input
    /// order, all under the shared redeem script. The descriptor sequence
    /// is fixed here once and for all.
    pub fn create(
        selected: &Vec<UnspentOutput>,
        redeem_script: &Vec<u8>,
        signed_tx: PendingTransaction,
    ) -> (r: Self)
        ensures
            r@.signed_tx == signed_tx@,
            r@.p2sh == descriptors_of(utxo_models(selected@), redeem_script@),
    {
        let ghost us = utxo_models(selected@);
        let mut p2sh: Vec<RedeemDescriptor> = Vec::new();
        let mut i: usize = 0;
        while i < selected.len()
            invariant
                i <= selected.len(),
                us == utxo_models(selected@),
                p2sh@.len() == i,
                forall|k: int| 0 <= k < i ==> p2sh@[k]@ == descriptors_of(us, redeem_script@)[k],
            decreases selected.len() - i,
        {
            let u = &selected[i];
            let d = RedeemDescriptor {
                txid: copy_bytes(&u.txid),
                output_index: u.output_index,
                redeem_script: copy_bytes(redeem_script),
                value: u.value,
            };
            proof {
                assert(d@ == descriptors_of(us, redeem_script@)[i as int]);
            }
            p2sh.push(d);
            i = i + 1;
        }
        proof {
            assert(desc_models(p2sh@) =~= descriptors_of(us, redeem_script@));
        }
        MultiSignatureTransaction { signed_tx, p2sh }
    }

    /// Apply one more signing round to a not-yet-complete state: the
    /// pending transaction is replaced by the service's new report, and the
    /// descriptor sequence never changes.
    pub fn sign(&mut self, new_signed: PendingTransaction)
        requires
            !old(self).signed_tx.complete,
        ensures
            final(self)@.signed_tx == new_signed@,
            final(self)@.p2sh == old(self)@.p2sh,
    {
        self.signed_tx = new_signed;
    }

    /// Decide the terminal step. A complete transaction yields its hex to
    /// broadcast; an incomplete one yields the hand-off artifact's bytes
    /// for the next signer. The receiver is shared, so the state itself is
    /// never changed by this call.
    pub fn is_signing_completed(&self) -> (r: FinalizeOutcome)
        ensures
            r@ == finalize_model(self@),
    {
        if self.signed_tx.complete {
            FinalizeOutcome::Broadcast { hex: copy_bytes(&self.signed_tx.hex) }
        } else {
            FinalizeOutcome::HandOff { contents: encode_msig(self) }
        }
    }
}

/// Law: finalization of a complete state is idempotent. The state is only
/// read (the call takes a shared reference), and the outcome is determined
/// by the state alone: always the broadcast payload carrying exactly the
/// state's transaction hex, so repeated calls return the same payload.
pub proof fn lemma_finalize_idempotent(m: MsigModel)
    requires
        m.signed_tx.complete,
    ensures
        finalize_model(m) == OutcomeModel::Broadcast(m.signed_tx.hex),
{
}

/// `.json`
pub open spec fn suffix_json() -> Seq<u8> {
    seq![46, 106, 115, 111, 110]
}

/// The hand-off artifact's file name for a local timestamp at second
/// precision: the year, month, day, hour, minute and second, zero-padded,
/// with a `.json` suffix.
pub open spec fn file_name_model(
    year: u64,
    month: u64,
    day: u64,
    hour: u64,
    minute: u64,
    second: u64,
) -> Seq<u8> {
    padded_digits(year as nat, 4) + seq![95u8] + padded_digits(month as nat, 2) + seq![95u8]
        + padded_digits(day as nat, 2) + seq![45u8] + padded_digits(hour as nat, 2) + seq![58u8]
        + padded_digits(minute as nat, 2) + seq![58u8] + padded_digits(second as nat, 2)
        + suffix_json()
}

/// The hand-off artifact's file name for a local timestamp at second
/// precision.
pub fn handoff_file_name(
    year: u64,
    month: u64,
    day: u64,
    hour: u64,
    minute: u64,
    second: u64,
) -> (r: Vec<u8>)
    requires
        year <= 9999,
        1 <= month <= 12,
        1 <= day <= 31,
        hour < 24,
        minute < 60,
        second < 60,
    ensures
        r@ == file_name_model(year, month, day, hour, minute, second),
{
    let mut out = encode_padded(year, 4);
    out.push(95);
    let mut v = encode_padded(month, 2);
    out.append(&mut v);
    out.push(95);
    let mut v = encode_padded(day, 2);
    out.append(&mut v);
    out.push(45);
    let mut v = encode_padded(hour, 2);
    out.append(&mut v);
    out.push(58);
    let mut v = encode_padded(minute, 2);
    out.append(&mut v);
    out.push(58);
    let mut v = encode_padded(second, 2);
    out.append(&mut v);
    out.push(46);
    out.push(106);
    out.push(115);
    out.push(111);
    out.push(110);
    proof {
        assert(out@ =~= file_name_model(year, month, day, hour, minute, second));
    }
    out
}

} // verus!
