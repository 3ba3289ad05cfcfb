//! Greedy coin selection: sort the spendable outputs by value, largest
//! first (outputs of equal value keep their original relative order), then
//! take outputs while the remaining need is still positive.
//!
//! The selector is a pure function of its inputs. It has no failure signal:
//! if the outputs cannot cover the target it simply returns all of them, and
//! the caller is expected to have checked the balance beforehand.

use vstd::prelude::*;
use crate::types::UnspentOutput;
use crate::types::UtxoModel;

verus! {

/// The models of a sequence of outputs, in order.
pub open spec fn utxo_models(s: Seq<UnspentOutput>) -> Seq<UtxoModel> {
    s.map_values(|u: UnspentOutput| u@)
}

/// Sum of the values of a sequence of outputs, as an unbounded integer.
pub open spec fn sum_values(s: Seq<UtxoModel>) -> int
    decreases s.len(),
{
    if s.len() == 0 {
        0
    } else {
        s[0].value + sum_values(s.drop_first())
    }
}

/// Stable insertion into a value-descending sequence: the new output goes
/// after every output whose value is at least as large as its own.
pub open spec fn insert_desc(x: UtxoModel, s: Seq<UtxoModel>) -> Seq<UtxoModel>
    decreases s.len(),
{
    if s.len() > 0 && s[0].value >= x.value {
        seq![s[0]] + insert_desc(x, s.drop_first())
    } else {
        seq![x] + s
    }
}

/// Stable sort by value, largest first.
pub open spec fn sort_desc(s: Seq<UtxoModel>) -> Seq<UtxoModel>
    decreases s.len(),
{
    if s.len() == 0 {
        Seq::empty()
    } else {
        insert_desc(s.last(), sort_desc(s.drop_last()))
    }
}

/// Greedy prefix: take outputs while the remaining need is positive,
/// decrementing it by each taken output's value.
pub open spec fn take_greedy(s: Seq<UtxoModel>, remaining: int) -> Seq<UtxoModel>
    decreases s.len(),
{
    if remaining <= 0 || s.len() == 0 {
        Seq::empty()
    } else {
        seq![s[0]] + take_greedy(s.drop_first(), remaining - s[0].value)
    }
}

/// What the selector returns: the greedy prefix of the value-descending
/// ordering of the given outputs.
pub open spec fn select_model(s: Seq<UtxoModel>, target: int) -> Seq<UtxoModel> {
    take_greedy(sort_desc(s), target)
}

proof fn lemma_sum_cons(x: UtxoModel, t: Seq<UtxoModel>)
    ensures
        sum_values(seq![x] + t) == x.value + sum_values(t),
{
    let s = seq![x] + t;
    assert(s.drop_first() =~= t);
}

proof fn lemma_sum_snoc(a: Seq<UtxoModel>, x: UtxoModel)
    ensures
        sum_values(a + seq![x]) == sum_values(a) + x.value,
    decreases a.len(),
{
    if a.len() == 0 {
        assert(a + seq![x] =~= seq![x]);
        lemma_sum_cons(x, Seq::empty());
        assert(seq![x] + Seq::<UtxoModel>::empty() =~= seq![x]);
    } else {
        let s = a + seq![x];
        assert(s.drop_first() =~= a.drop_first() + seq![x]);
        lemma_sum_snoc(a.drop_first(), x);
    }
}

proof fn lemma_sum_insert_desc(x: UtxoModel, s: Seq<UtxoModel>)
    ensures
        sum_values(insert_desc(x, s)) == x.value + sum_values(s),
    decreases s.len(),
{
    if s.len() > 0 && s[0].value >= x.value {
        lemma_sum_insert_desc(x, s.drop_first());
        lemma_sum_cons(s[0], insert_desc(x, s.drop_first()));
    } else {
        lemma_sum_cons(x, s);
    }
}

proof fn lemma_sum_sort_desc(s: Seq<UtxoModel>)
    ensures
        sum_values(sort_desc(s)) == sum_values(s),
    decreases s.len(),
{
    if s.len() > 0 {
        lemma_sum_sort_desc(s.drop_last());
        lemma_sum_insert_desc(s.last(), sort_desc(s.drop_last()));
        assert(s.drop_last() + seq![s.last()] =~= s);
        lemma_sum_snoc(s.drop_last(), s.last());
    }
}

/// Output values are unsigned, so every sum of them is non-negative.
pub proof fn lemma_sum_nonneg(s: Seq<UtxoModel>)
    ensures
        sum_values(s) >= 0,
    decreases s.len(),
{
    if s.len() > 0 {
        lemma_sum_nonneg(s.drop_first());
    }
}

/// Extending a prefix by one output adds that output's value to its sum.
pub proof fn lemma_sum_take_step(s: Seq<UtxoModel>, i: int)
    requires
        0 <= i < s.len(),
    ensures
        sum_values(s.take(i + 1)) == sum_values(s.take(i)) + s[i].value,
{
    assert(s.take(i + 1) =~= s.take(i) + seq![s[i]]);
    lemma_sum_snoc(s.take(i), s[i]);
}

/// A sum splits at any index into the sum of the prefix and the suffix.
pub proof fn lemma_sum_split(s: Seq<UtxoModel>, i: int)
    requires
        0 <= i <= s.len(),
    ensures
        sum_values(s) == sum_values(s.take(i)) + sum_values(s.skip(i)),
    decreases s.len() - i,
{
    if i == s.len() {
        assert(s.take(i) =~= s);
        assert(s.skip(i) =~= Seq::<UtxoModel>::empty());
    } else {
        lemma_sum_split(s, i + 1);
        lemma_sum_take_step(s, i);
        assert(s.skip(i)[0] == s[i]);
        assert(s.skip(i).drop_first() =~= s.skip(i + 1));
    }
}

/// The greedy prefix either reaches the remaining need or exhausts the
/// whole sequence.
proof fn lemma_take_greedy_covers(s: Seq<UtxoModel>, remaining: int)
    ensures
        sum_values(take_greedy(s, remaining)) >= remaining || take_greedy(s, remaining) == s,
    decreases s.len(),
{
    if remaining <= 0 {
        // nothing is taken and an empty sum covers a non-positive need
    } else if s.len() == 0 {
        assert(take_greedy(s, remaining) =~= s);
    } else {
        let rest = take_greedy(s.drop_first(), remaining - s[0].value);
        lemma_take_greedy_covers(s.drop_first(), remaining - s[0].value);
        lemma_sum_cons(s[0], rest);
        if rest == s.drop_first() {
            assert(seq![s[0]] + s.drop_first() =~= s);
        }
    }
}

/// Law: selection is complete. For a target of at most zero nothing is
/// selected, and whenever the outputs' total value covers the target, so
/// does the selection's total value.
pub proof fn lemma_selection_complete(utxos: Seq<UtxoModel>, target: int)
    ensures
        target <= 0 ==> select_model(utxos, target) == Seq::<UtxoModel>::empty(),
        sum_values(utxos) >= target ==> sum_values(select_model(utxos, target)) >= target,
{
    lemma_sum_sort_desc(utxos);
    lemma_take_greedy_covers(sort_desc(utxos), target);
}

/// Law: selection is deterministic. Any two results that the selector can
/// return for the same outputs and the same target are equal in model.
pub proof fn lemma_selection_deterministic(
    utxos: Vec<UnspentOutput>,
    target: u64,
    r1: Vec<UnspentOutput>,
    r2: Vec<UnspentOutput>,
)
    requires
        call_ensures(select_utxos, (&utxos, target), r1),
        call_ensures(select_utxos, (&utxos, target), r2),
    ensures
        utxo_models(r1@) == utxo_models(r2@),
{
}

fn insert_sorted(acc: Vec<UnspentOutput>, x: UnspentOutput) -> (r: Vec<UnspentOutput>)
    ensures
        utxo_models(r@) == insert_desc(x@, utxo_models(acc@)),
{
    let mut acc = acc;
    let mut j: usize = 0;
    while j < acc.len() && acc[j].value >= x.value
        invariant
            j <= acc.len(),
            forall|k: int| 0 <= k < j ==> utxo_models(acc@)[k].value >= x@.value,
        decreases acc.len() - j,
    {
        j = j + 1;
    }
    proof {
        lemma_insert_desc_at(x@, utxo_models(acc@), j as int);
    }
    let ghost old_models = utxo_models(acc@);
    acc.insert(j, x);
    proof {
        assert(utxo_models(acc@) =~= old_models.take(j as int) + seq![x@] + old_models.skip(
            j as int,
        ));
    }
    acc
}

proof fn lemma_insert_desc_at(x: UtxoModel, s: Seq<UtxoModel>, j: int)
    requires
        0 <= j <= s.len(),
        forall|k: int| 0 <= k < j ==> s[k].value >= x.value,
        j < s.len() ==> s[j].value < x.value,
    ensures
        insert_desc(x, s) == s.take(j) + seq![x] + s.skip(j),
    decreases j,
{
    if j == 0 {
        assert(s.take(0) + seq![x] + s.skip(0) =~= seq![x] + s);
    } else {
        lemma_insert_desc_at(x, s.drop_first(), j - 1);
        assert(s.drop_first().take(j - 1) =~= s.take(j).drop_first());
        assert(s.drop_first().skip(j - 1) =~= s.skip(j));
        assert(seq![s[0]] + (s.drop_first().take(j - 1) + seq![x] + s.drop_first().skip(j - 1))
            =~= s.take(j) + seq![x] + s.skip(j));
    }
}

fn sort_utxos(v: &Vec<UnspentOutput>) -> (r: Vec<UnspentOutput>)
    ensures
        utxo_models(r@) == sort_desc(utxo_models(v@)),
{
    let ghost m = utxo_models(v@);
    let mut out: Vec<UnspentOutput> = Vec::new();
    let mut i: usize = 0;
    while i < v.len()
        invariant
            i <= v.len(),
            m == utxo_models(v@),
            utxo_models(out@) == sort_desc(m.take(i as int)),
        decreases v.len() - i,
    {
        proof {
            assert(utxo_models(Seq::<UnspentOutput>::empty()) =~= Seq::<UtxoModel>::empty());
        }
        out = insert_sorted(out, v[i].clone());
        proof {
            assert(m.take(i + 1).drop_last() =~= m.take(i as int));
            assert(m.take(i + 1).last() == m[i as int]);
        }
        i = i + 1;
    }
    proof {
        assert(m.take(v@.len() as int) =~= m);
    }
    out
}

/// Select which outputs to spend for `target` minor units: the greedy
/// prefix of the value-descending ordering. A target of zero selects
/// nothing; outputs that in total cannot cover the target are all selected.
pub fn select_utxos(utxos: &Vec<UnspentOutput>, target: u64) -> (r: Vec<UnspentOutput>)
    ensures
        utxo_models(r@) == select_model(utxo_models(utxos@), target as int),
{
    let sorted = sort_utxos(utxos);
    let ghost s = utxo_models(sorted@);
    let mut out: Vec<UnspentOutput> = Vec::new();
    let mut remaining: u64 = target;
    let ghost mut rem: int = target as int;
    let mut i: usize = 0;
    proof {
        assert(utxo_models(out@) =~= Seq::<UtxoModel>::empty());
        assert(s.skip(0) =~= s);
        assert(Seq::<UtxoModel>::empty() + take_greedy(s, target as int) =~= take_greedy(
            s,
            target as int,
        ));
    }
    while i < sorted.len() && remaining > 0
        invariant
            i <= sorted.len(),
            s == utxo_models(sorted@),
            rem > 0 ==> remaining == rem,
            rem <= 0 ==> remaining == 0,
            take_greedy(s, target as int) == utxo_models(out@) + take_greedy(
                s.skip(i as int),
                rem,
            ),
        decreases sorted.len() - i,
    {
        let u = sorted[i].clone();
        proof {
            assert(s.skip(i as int)[0] == s[i as int]);
            assert(s.skip(i as int).drop_first() =~= s.skip(i + 1));
            assert(utxo_models(out@.push(u)) =~= utxo_models(out@) + seq![u@]);
            assert(utxo_models(out@) + (seq![s[i as int]] + take_greedy(
                s.skip(i + 1),
                rem - s[i as int].value,
            )) =~= (utxo_models(out@) + seq![u@]) + take_greedy(
                s.skip(i + 1),
                rem - s[i as int].value,
            ));
        }
        out.push(u);
        if sorted[i].value >= remaining {
            remaining = 0;
        } else {
            remaining = remaining - sorted[i].value;
        }
        proof {
            rem = rem - s[i as int].value;
        }
        i = i + 1;
    }
    proof {
        if i == sorted.len() && remaining > 0 {
            assert(s.skip(i as int) =~= Seq::<UtxoModel>::empty());
        }
        assert(utxo_models(out@) + Seq::<UtxoModel>::empty() =~= utxo_models(out@));
    }
    out
}

} // verus!
