//! Planning the candidate transaction's outputs: the primary output for the
//! requested amount, and — when it is worth more than dust — a change output
//! returning the surplus of the selected inputs, accrued-interest bonus
//! included, minus the flat multi-signature fee.
//!
//! All arithmetic is in integer minor units; every sum and subtraction is
//! checked, and a shortfall or an overflow is reported instead of wrapping.

use vstd::prelude::*;
use crate::types::CoordinatorError;
use crate::types::UnspentOutput;
use crate::types::UtxoModel;
use crate::selector::utxo_models;
use crate::selector::sum_values;
use crate::selector::lemma_sum_nonneg;
use crate::selector::lemma_sum_take_step;
use crate::selector::lemma_sum_split;
use crate::DUST_THRESHOLD;

verus! {

/// One planned output of the candidate transaction: an address and the
/// value, in minor units, it is to receive.
#[derive(Debug)]
pub struct TxOutput {
    /// Destination address of this output, as bytes.
    pub address: Vec<u8>,
    /// Value of this output in integer minor units.
    pub value: u64,
}

/// Ghost model of a [`TxOutput`].
pub ghost struct TxOutputModel {
    pub address: Seq<u8>,
    pub value: u64,
}

impl View for TxOutput {
    type V = TxOutputModel;

    open spec fn view(&self) -> TxOutputModel {
        TxOutputModel { address: self.address@, value: self.value }
    }
}

/// The models of a sequence of planned outputs, in order.
pub open spec fn output_models(s: Seq<TxOutput>) -> Seq<TxOutputModel> {
    s.map_values(|o: TxOutput| o@)
}

/// The bonus one input contributes: a missing bonus counts as zero.
pub open spec fn bonus_of(b: Option<u64>) -> int {
    match b {
        Option::Some(v) => v as int,
        Option::None => 0,
    }
}

/// Sum of per-input bonus accruals, as an unbounded integer.
pub open spec fn sum_bonuses(s: Seq<Option<u64>>) -> int
    decreases s.len(),
{
    if s.len() == 0 {
        0
    } else {
        bonus_of(s[0]) + sum_bonuses(s.drop_first())
    }
}

/// The change owed back to the source address, as an unbounded integer;
/// negative when the selected inputs plus bonus cannot cover the requested
/// amount plus the fee.
pub open spec fn change_model(
    selected_total: u64,
    requested_amount: u64,
    bonus: u64,
    fixed_fee: u64,
) -> int {
    selected_total - requested_amount + bonus - fixed_fee
}

/// The planned output list: the primary output always, the change output
/// exactly when the change exceeds the dust threshold.
pub open spec fn planned_outputs(
    destination: Seq<u8>,
    requested_amount: u64,
    change_address: Seq<u8>,
    change: u64,
) -> Seq<TxOutputModel> {
    let primary = TxOutputModel { address: destination, value: requested_amount };
    if change > DUST_THRESHOLD {
        seq![primary, TxOutputModel { address: change_address, value: change }]
    } else {
        seq![primary]
    }
}

proof fn lemma_bonus_nonneg(s: Seq<Option<u64>>)
    ensures
        sum_bonuses(s) >= 0,
    decreases s.len(),
{
    if s.len() > 0 {
        lemma_bonus_nonneg(s.drop_first());
    }
}

proof fn lemma_bonus_take_step(s: Seq<Option<u64>>, i: int)
    requires
        0 <= i < s.len(),
    ensures
        sum_bonuses(s.take(i + 1)) == sum_bonuses(s.take(i)) + bonus_of(s[i]),
    decreases i,
{
    if i == 0 {
        assert(s.take(1) =~= seq![s[0]]);
        assert(s.take(0) =~= Seq::<Option<u64>>::empty());
        assert(seq![s[0]].drop_first() =~= Seq::<Option<u64>>::empty());
    } else {
        lemma_bonus_take_step(s.drop_first(), i - 1);
        assert(s.drop_first().take(i) =~= s.take(i + 1).drop_first());
        assert(s.drop_first().take(i - 1) =~= s.take(i).drop_first());
    }
}

proof fn lemma_bonus_split(s: Seq<Option<u64>>, i: int)
    requires
        0 <= i <= s.len(),
    ensures
        sum_bonuses(s) == sum_bonuses(s.take(i)) + sum_bonuses(s.skip(i)),
    decreases s.len() - i,
{
    if i == s.len() {
        assert(s.take(i) =~= s);
        assert(s.skip(i) =~= Seq::<Option<u64>>::empty());
    } else {
        lemma_bonus_split(s, i + 1);
        lemma_bonus_take_step(s, i);
        assert(s.skip(i)[0] == s[i]);
        assert(s.skip(i).drop_first() =~= s.skip(i + 1));
    }
}

/// Total value of the given outputs in minor units, or an overflow report
/// when the exact sum does not fit in 64 bits.
pub fn total_value(utxos: &Vec<UnspentOutput>) -> (r: Result<u64, CoordinatorError>)
    ensures
        match r {
            Ok(n) => n == sum_values(utxo_models(utxos@)),
            Err(e) => e == CoordinatorError::ValueOverflow && sum_values(utxo_models(utxos@))
                > u64::MAX,
        },
{
    let ghost m = utxo_models(utxos@);
    let mut acc: u64 = 0;
    let mut i: usize = 0;
    proof {
        assert(m.take(0) =~= Seq::<UtxoModel>::empty());
    }
    while i < utxos.len()
        invariant
            i <= utxos.len(),
            m == utxo_models(utxos@),
            acc == sum_values(m.take(i as int)),
        decreases utxos.len() - i,
    {
        let v = utxos[i].value;
        proof {
            lemma_sum_take_step(m, i as int);
        }
        if acc > u64::MAX - v {
            proof {
                lemma_sum_split(m, i + 1);
                lemma_sum_nonneg(m.skip(i + 1));
            }
            return Err(CoordinatorError::ValueOverflow);
        }
        acc = acc + v;
        i = i + 1;
    }
    proof {
        assert(m.take(utxos@.len() as int) =~= m);
    }
    Ok(acc)
}

/// Total accrued-interest bonus of the given per-input reports, a missing
/// report counting as zero, or an overflow report when the exact sum does
/// not fit in 64 bits.
pub fn total_bonus(bonuses: &Vec<Option<u64>>) -> (r: Result<u64, CoordinatorError>)
    ensures
        match r {
            Ok(n) => n == sum_bonuses(bonuses@),
            Err(e) => e == CoordinatorError::ValueOverflow && sum_bonuses(bonuses@) > u64::MAX,
        },
{
    let mut acc: u64 = 0;
    let mut i: usize = 0;
    proof {
        assert(bonuses@.take(0) =~= Seq::<Option<u64>>::empty());
    }
    while i < bonuses.len()
        invariant
            i <= bonuses.len(),
            acc == sum_bonuses(bonuses@.take(i as int)),
        decreases bonuses.len() - i,
    {
        let v: u64 = match bonuses[i] {
            Option::Some(b) => b,
            Option::None => 0,
        };
        proof {
            lemma_bonus_take_step(bonuses@, i as int);
        }
        if acc > u64::MAX - v {
            proof {
                lemma_bonus_split(bonuses@, i + 1);
                lemma_bonus_nonneg(bonuses@.skip(i + 1));
            }
            return Err(CoordinatorError::ValueOverflow);
        }
        acc = acc + v;
        i = i + 1;
    }
    proof {
        assert(bonuses@.take(bonuses@.len() as int) =~= bonuses@);
    }
    Ok(acc)
}

pub(crate) fn copy_bytes(v: &Vec<u8>) -> (r: Vec<u8>)
    ensures
        r@ == v@,
{
    let r = v.clone();
    proof {
        assert(r@ =~= v@);
    }
    r
}

/// Plan the outputs from already-summed totals: the primary output for the
/// requested amount and, when the change exceeds the dust threshold, a
/// change output returning `selected_total - requested_amount + bonus -
/// fixed_fee` to the change address. A shortfall is reported as
/// insufficient selected value, a change beyond 64 bits as an overflow.
pub fn plan_outputs(
    selected_total: u64,
    requested_amount: u64,
    bonus: u64,
    fixed_fee: u64,
    destination: &Vec<u8>,
    change_address: &Vec<u8>,
) -> (r: Result<Vec<TxOutput>, CoordinatorError>)
    ensures
        ({
            let change = change_model(selected_total, requested_amount, bonus, fixed_fee);
            match r {
                Ok(outs) => 0 <= change <= u64::MAX && output_models(outs@) == planned_outputs(
                    destination@,
                    requested_amount,
                    change_address@,
                    change as u64,
                ),
                Err(e) => (e == CoordinatorError::InsufficientSelectedValue && change < 0) || (e
                    == CoordinatorError::ValueOverflow && change > u64::MAX),
            }
        }),
{
    let avail: u128 = selected_total as u128 + bonus as u128;
    let need: u128 = requested_amount as u128 + fixed_fee as u128;
    if avail < need {
        return Err(CoordinatorError::InsufficientSelectedValue);
    }
    let change_wide: u128 = avail - need;
    if change_wide > u64::MAX as u128 {
        return Err(CoordinatorError::ValueOverflow);
    }
    let change: u64 = change_wide as u64;
    let mut outs: Vec<TxOutput> = Vec::new();
    outs.push(TxOutput { address: copy_bytes(destination), value: requested_amount });
    if change > DUST_THRESHOLD {
        outs.push(TxOutput { address: copy_bytes(change_address), value: change });
        proof {
            assert(output_models(outs@) =~= planned_outputs(
                destination@,
                requested_amount,
                change_address@,
                change,
            ));
        }
    } else {
        proof {
            assert(output_models(outs@) =~= planned_outputs(
                destination@,
                requested_amount,
                change_address@,
                change,
            ));
        }
    }
    Ok(outs)
}

/// The computing half of transaction construction: sum the selected inputs
/// and their bonuses, then plan the outputs. The caller hands the planned
/// outputs to the external assembly service.
pub fn build_outputs(
    selected: &Vec<UnspentOutput>,
    bonuses: &Vec<Option<u64>>,
    requested_amount: u64,
    fixed_fee: u64,
    destination: &Vec<u8>,
    change_address: &Vec<u8>,
) -> (r: Result<Vec<TxOutput>, CoordinatorError>)
    ensures
        ({
            let st = sum_values(utxo_models(selected@));
            let b = sum_bonuses(bonuses@);
            let change = st - requested_amount + b - fixed_fee;
            match r {
                Ok(outs) => st <= u64::MAX && b <= u64::MAX && 0 <= change <= u64::MAX
                    && output_models(outs@) == planned_outputs(
                    destination@,
                    requested_amount,
                    change_address@,
                    change as u64,
                ),
                Err(e) => (e == CoordinatorError::ValueOverflow && (st > u64::MAX || b > u64::MAX
                    || (st - requested_amount + b - fixed_fee) > u64::MAX)) || (e
                    == CoordinatorError::InsufficientSelectedValue && st <= u64::MAX && b
                    <= u64::MAX && change < 0),
            }
        }),
{
    let selected_total = match total_value(selected) {
        Ok(n) => n,
        Err(e) => {
            return Err(e);
        },
    };
    let bonus = match total_bonus(bonuses) {
        Ok(n) => n,
        Err(e) => {
            return Err(e);
        },
    };
    plan_outputs(selected_total, requested_amount, bonus, fixed_fee, destination, change_address)
}

} // verus!

