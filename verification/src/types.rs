//! The data model: unspent outputs, per-input redeem descriptors, the
//! pending transaction, and the persisted multi-signature state.
//!
//! Textual data (transaction ids, hex-encoded transactions, addresses,
//! scripts, error messages) is held as bytes; every type has a ghost model
//! over `Seq` that the contracts speak of.

use vstd::prelude::*;

verus! {

/// One spendable output of a prior transaction, identified by transaction id
/// and output index, carrying its value in integer minor units.
#[derive(Debug)]
pub struct UnspentOutput {
    /// Hex-encoded transaction id, as bytes.
    pub txid: Vec<u8>,
    /// Index of this output within that transaction.
    pub output_index: u32,
    /// Value in integer minor units.
    pub value: u64,
}

/// Ghost model of an [`UnspentOutput`].
pub ghost struct UtxoModel {
    pub txid: Seq<u8>,
    pub output_index: u32,
    pub value: u64,
}

impl View for UnspentOutput {
    type V = UtxoModel;

    open spec fn view(&self) -> UtxoModel {
        UtxoModel { txid: self.txid@, output_index: self.output_index, value: self.value }
    }
}

impl Clone for UnspentOutput {
    fn clone(&self) -> (r: Self)
        ensures
            r@ == self@,
    {
        let r = UnspentOutput {
            txid: self.txid.clone(),
            output_index: self.output_index,
            value: self.value,
        };
        proof {
            assert(r.txid@ =~= self.txid@);
        }
        r
    }
}

/// Per-input data a signer needs to add a signature against the shared
/// multi-signature script. The sequence of descriptors must keep the same
/// relative order as the inputs of the transaction.
#[derive(Debug)]
pub struct RedeemDescriptor {
    /// Hex-encoded transaction id of the spent output, as bytes.
    pub txid: Vec<u8>,
    /// Index of the spent output within that transaction.
    pub output_index: u32,
    /// The shared redeem script, hex-encoded, as bytes.
    pub redeem_script: Vec<u8>,
    /// Value of the spent output in integer minor units.
    pub value: u64,
}

/// Ghost model of a [`RedeemDescriptor`].
pub ghost struct DescriptorModel {
    pub txid: Seq<u8>,
    pub output_index: u32,
    pub redeem_script: Seq<u8>,
    pub value: u64,
}

impl View for RedeemDescriptor {
    type V = DescriptorModel;

    open spec fn view(&self) -> DescriptorModel {
        DescriptorModel {
            txid: self.txid@,
            output_index: self.output_index,
            redeem_script: self.redeem_script@,
            value: self.value,
        }
    }
}

impl Clone for RedeemDescriptor {
    fn clone(&self) -> (r: Self)
        ensures
            r@ == self@,
    {
        let r = RedeemDescriptor {
            txid: self.txid.clone(),
            output_index: self.output_index,
            redeem_script: self.redeem_script.clone(),
            value: self.value,
        };
        proof {
            assert(r.txid@ =~= self.txid@);
            assert(r.redeem_script@ =~= self.redeem_script@);
        }
        r
    }
}

/// The opaque serialized transaction as reported by the external signing
/// service: its hex encoding, the service's completeness flag, and the
/// service's per-input error messages.
#[derive(Debug)]
pub struct PendingTransaction {
    /// Hex-encoded raw transaction, as bytes.
    pub hex: Vec<u8>,
    /// Whether the signing service reported the signature set complete.
    pub complete: bool,
    /// Per-input error messages from the last signing round, as bytes.
    pub errors: Vec<Vec<u8>>,
}

/// Ghost model of a [`PendingTransaction`].
pub ghost struct PendingModel {
    pub hex: Seq<u8>,
    pub complete: bool,
    pub errors: Seq<Seq<u8>>,
}

impl View for PendingTransaction {
    type V = PendingModel;

    open spec fn view(&self) -> PendingModel {
        PendingModel {
            hex: self.hex@,
            complete: self.complete,
            errors: self.errors.deep_view(),
        }
    }
}

impl Clone for PendingTransaction {
    fn clone(&self) -> (r: Self)
        ensures
            r@ == self@,
    {
        let mut errors: Vec<Vec<u8>> = Vec::new();
        let mut i: usize = 0;
        while i < self.errors.len()
            invariant
                i <= self.errors.len(),
                errors.deep_view() =~~= self.errors.deep_view().subrange(0, i as int),
            decreases self.errors.len() - i,
        {
            let e = self.errors[i].clone();
            proof {
                assert(e@ =~= self.errors@[i as int]@);
                assert(e.deep_view() =~= self.errors.deep_view()[i as int]);
            }
            errors.push(e);
            proof {
                assert(errors.deep_view() =~~= self.errors.deep_view().subrange(0, i + 1));
            }
            i = i + 1;
        }
        let r = PendingTransaction { hex: self.hex.clone(), complete: self.complete, errors };
        proof {
            assert(self.errors.deep_view().subrange(0, self.errors@.len() as int) =~~= self.errors.deep_view());
            assert(r.hex@ =~= self.hex@);
            assert(r.errors.deep_view() =~~= self.errors.deep_view());
        }
        r
    }
}

/// The persisted unit exchanged between signers: the transaction as last
/// reported by the signing service, plus the redeem descriptors for its
/// inputs. Created once at initiation; each signing round replaces
/// `signed_tx` only; once `signed_tx.complete` is true the value is terminal
/// and is only ever read.
#[derive(Debug)]
pub struct MultiSignatureTransaction {
    /// The transaction as of the last signing round.
    pub signed_tx: PendingTransaction,
    /// Redeem descriptors, one per transaction input, in input order.
    pub p2sh: Vec<RedeemDescriptor>,
}

/// Ghost model of a [`MultiSignatureTransaction`].
pub ghost struct MsigModel {
    pub signed_tx: PendingModel,
    pub p2sh: Seq<DescriptorModel>,
}

/// The models of a sequence of descriptors, in order.
pub open spec fn desc_models(s: Seq<RedeemDescriptor>) -> Seq<DescriptorModel> {
    s.map_values(|d: RedeemDescriptor| d@)
}

impl View for MultiSignatureTransaction {
    type V = MsigModel;

    open spec fn view(&self) -> MsigModel {
        MsigModel { signed_tx: self.signed_tx@, p2sh: desc_models(self.p2sh@) }
    }
}

/// Why an operation of the coordinator refused to proceed.
#[derive(Clone, Copy, PartialEq, Eq, Structural, Debug)]
pub enum CoordinatorError {
    /// The source address balance is below the requested amount.
    InsufficientBalance,
    /// The selected inputs plus bonus do not cover amount plus fee.
    InsufficientSelectedValue,
    /// A sum or a change value does not fit in 64-bit minor units.
    ValueOverflow,
    /// A hand-off artifact's bytes do not parse as the persisted form.
    MalformedHandOff,
    /// The requested amount is below the dust threshold.
    DustAmount,
}

/// What finalization decided: either the transaction is complete and ready
/// to broadcast, or the state must be handed to the next signer.
#[derive(Debug)]
pub enum FinalizeOutcome {
    /// The signature set is complete; broadcast the transaction hex.
    Broadcast {
        /// Hex-encoded raw transaction, as bytes.
        hex: Vec<u8>,
    },
    /// More signatures are needed; persist these bytes and pass them on.
    HandOff {
        /// The serialized hand-off artifact.
        contents: Vec<u8>,
    },
}

/// Ghost model of a [`FinalizeOutcome`].
pub ghost enum OutcomeModel {
    Broadcast(Seq<u8>),
    HandOff(Seq<u8>),
}

impl View for FinalizeOutcome {
    type V = OutcomeModel;

    open spec fn view(&self) -> OutcomeModel {
        match self {
            FinalizeOutcome::Broadcast { hex } => OutcomeModel::Broadcast(hex@),
            FinalizeOutcome::HandOff { contents } => OutcomeModel::HandOff(contents@),
        }
    }
}

} // verus!
