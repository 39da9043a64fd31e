//! What a prepared transaction conserves: in every balanced denomination
//! its inputs are worth what its outputs and its fee are worth. And when
//! the search for its fee ends with a transaction.

use vstd::prelude::*;
use crate::chain::{covenant_weight, covenant_weights, weighable, weights_fit};
use crate::coins::{CoinDataHeightView, CoinDataView, Denom, TxView};
use crate::hashes::{Address, CoinId};
use crate::prepare::{
    balanced, candidate, change_for, change_outputs, eligible, fee_is_adequate, is_mandatory,
    mandatory_ids, mandatory_sums, output_sums, policy_applied, prepared, search_end,
    search_start, selected, signed_upto, total_outputs, unsigned_candidate, CandidateView,
    PrepareJobView, SearchView, Selection, SigningPolicyView,
};
use crate::database::{DatabaseView, WalletView};
use crate::prepare::{job_of, later_error, prepare_outcome, resolved};
use crate::signer::{Ed25519SK, Ed25519Signer, Signer};
use crate::sums::{amount, credited, Sums};
use crate::table::{
    distinct_keys, has_key, lemma_lookup_at, lemma_retained, lemma_upserted, lookup, position,
    retained, upserted, Entry,
};

verus! {

/// The sum of the values of the coins of denomination `d` among the first
/// `n` outputs.
pub open spec fn output_total(outputs: Seq<CoinDataView>, d: Denom, n: int) -> int
    decreases n,
{
    if n <= 0 {
        0
    } else if outputs[n - 1].denom == d {
        output_total(outputs, d, n - 1) + outputs[n - 1].value
    } else {
        output_total(outputs, d, n - 1)
    }
}

/// The sum of the values of the coins of denomination `d` among the first
/// `n` mandatory inputs.
pub open spec fn mandatory_total(m: Seq<(CoinId, CoinDataHeightView)>, d: Denom, n: int) -> int
    decreases n,
{
    if n <= 0 {
        0
    } else if m[n - 1].1.coin_data.denom == d {
        mandatory_total(m, d, n - 1) + m[n - 1].1.coin_data.value
    } else {
        mandatory_total(m, d, n - 1)
    }
}

/// No coin is named twice among the mandatory inputs.
pub open spec fn distinct_ids(m: Seq<(CoinId, CoinDataHeightView)>) -> bool {
    forall|i: int, j: int| 0 <= i < j < m.len() ==> (#[trigger] m[i]).0 != (#[trigger] m[j]).0
}

/// The coin that an input of a job's candidates spends: the mandatory
/// input of that name, or else the unspent coin of that name.
pub open spec fn input_coin(job: PrepareJobView, id: CoinId) -> CoinDataView {
    if is_mandatory(job.mandatory, id) {
        job.mandatory[choose|i: int|
            0 <= i < job.mandatory.len() && (#[trigger] job.mandatory[i]).0 == id].1.coin_data
    } else {
        match lookup(job.unspent, id) {
            Some(c) => c,
            None => arbitrary(),
        }
    }
}

/// The sum of the values of the coins of denomination `d` that the first
/// `n` inputs spend.
pub open spec fn input_total(job: PrepareJobView, inputs: Seq<CoinId>, d: Denom, n: int) -> int
    decreases n,
{
    if n <= 0 {
        0
    } else if input_coin(job, inputs[n - 1]).denom == d {
        input_total(job, inputs, d, n - 1) + input_coin(job, inputs[n - 1]).value
    } else {
        input_total(job, inputs, d, n - 1)
    }
}

/// What crediting does to the sums: the sum of the credited denomination
/// grows by the value, the others stay.
pub proof fn lemma_credited(s: Sums, d: Denom, v: u128, other: Denom)
    requires
        distinct_keys(s),
        credited(s, d, v) is Some,
    ensures
        distinct_keys(credited(s, d, v)->0),
        amount(credited(s, d, v)->0, other) == (if other == d {
            amount(s, d) + v
        } else {
            amount(s, other) as int
        }),
        has_key(credited(s, d, v)->0, other) <==> has_key(s, other) || other == d,
{
    let e = Entry { key: d, value: (amount(s, d) + v) as u128 };
    lemma_upserted(s, e);
    assert(lookup(upserted(s, e), other) == (if other == d {
        Some(e.value)
    } else {
        lookup(s, other)
    }));
}

/// The sums of the outputs hold, for each denomination, the total of the
/// outputs of that denomination, and hold the denominations of the outputs.
pub proof fn lemma_output_sums(outputs: Seq<CoinDataView>, n: int, d: Denom)
    requires
        0 <= n <= outputs.len(),
        output_sums(outputs, n) is Some,
    ensures
        distinct_keys(output_sums(outputs, n)->0),
        amount(output_sums(outputs, n)->0, d) == output_total(outputs, d, n),
        has_key(output_sums(outputs, n)->0, d) <==> exists|i: int|
            0 <= i < n && (#[trigger] outputs[i]).denom == d,
    decreases n,
{
    if n > 0 {
        let prev = output_sums(outputs, n - 1)->0;
        lemma_output_sums(outputs, n - 1, d);
        lemma_credited(prev, outputs[n - 1].denom, outputs[n - 1].value, d);
        let now = output_sums(outputs, n)->0;
        if has_key(now, d) {
            if has_key(prev, d) {
                let i = choose|i: int| 0 <= i < n - 1 && (#[trigger] outputs[i]).denom == d;
                assert(0 <= i < n && outputs[i].denom == d);
            } else {
                assert(outputs[n - 1].denom == d);
            }
        }
        if exists|i: int| 0 <= i < n && (#[trigger] outputs[i]).denom == d {
            let i = choose|i: int| 0 <= i < n && (#[trigger] outputs[i]).denom == d;
            if i < n - 1 {
                assert(has_key(prev, d));
            }
        }
    }
}

/// What a transaction pays out holds, for each denomination, the total of
/// its outputs of that denomination, and the fee with the Mel.
pub proof fn lemma_total_outputs(outputs: Seq<CoinDataView>, fee: u128, d: Denom)
    requires
        total_outputs(outputs, fee) is Some,
    ensures
        distinct_keys(total_outputs(outputs, fee)->0),
        amount(total_outputs(outputs, fee)->0, d) == output_total(outputs, d, outputs.len() as int)
            + (if d == Denom::Mel {
            fee as int
        } else {
            0
        }),
        has_key(total_outputs(outputs, fee)->0, d) <==> d == Denom::Mel || exists|i: int|
            0 <= i < outputs.len() && (#[trigger] outputs[i]).denom == d,
{
    let n = outputs.len() as int;
    lemma_output_sums(outputs, n, d);
    lemma_credited(output_sums(outputs, n)->0, Denom::Mel, fee, d);
}

/// The sums of the mandatory inputs hold, for each denomination, the total
/// of the mandatory inputs of that denomination.
pub proof fn lemma_mandatory_sums(m: Seq<(CoinId, CoinDataHeightView)>, n: int, d: Denom)
    requires
        0 <= n <= m.len(),
        mandatory_sums(m, n) is Some,
    ensures
        distinct_keys(mandatory_sums(m, n)->0),
        amount(mandatory_sums(m, n)->0, d) == mandatory_total(m, d, n),
    decreases n,
{
    if n > 0 {
        let prev = mandatory_sums(m, n - 1)->0;
        lemma_mandatory_sums(m, n - 1, d);
        lemma_credited(prev, m[n - 1].1.coin_data.denom, m[n - 1].1.coin_data.value, d);
    }
}

/// Dropping the sums of the denominations that are not balanced keeps the
/// sums of the others.
pub proof fn lemma_balanced_sums(s: Sums, nobalance: Seq<Denom>, d: Denom)
    requires
        distinct_keys(s),
    ensures
        distinct_keys(retained(s, balanced(nobalance))),
        !nobalance.contains(d) ==> amount(retained(s, balanced(nobalance)), d) == amount(s, d)
            && (has_key(retained(s, balanced(nobalance)), d) <==> has_key(s, d)),
        nobalance.contains(d) ==> !has_key(retained(s, balanced(nobalance)), d),
{
    lemma_retained(s, balanced(nobalance));
    assert(lookup(retained(s, balanced(nobalance)), d) == (if has_key(s, d) && balanced(
        nobalance,
    )(s[position(s, d)]) {
        lookup(s, d)
    } else {
        None
    }));
    if has_key(s, d) {
        lemma_lookup_at(s, position(s, d));
    }
}

/// The total of the inputs depends on the inputs that are counted alone.
pub proof fn lemma_input_total_prefix(
    job: PrepareJobView,
    a: Seq<CoinId>,
    b: Seq<CoinId>,
    d: Denom,
    n: int,
)
    requires
        0 <= n <= a.len(),
        n <= b.len(),
        forall|i: int| 0 <= i < n ==> a[i] == b[i],
    ensures
        input_total(job, a, d, n) == input_total(job, b, d, n),
    decreases n,
{
    if n > 0 {
        lemma_input_total_prefix(job, a, b, d, n - 1);
    }
}

/// With no coin named twice, the mandatory inputs spend the coins that
/// were resolved for them.
pub proof fn lemma_mandatory_inputs(job: PrepareJobView, d: Denom, n: int)
    requires
        distinct_ids(job.mandatory),
        0 <= n <= job.mandatory.len(),
    ensures
        input_total(job, mandatory_ids(job.mandatory), d, n) == mandatory_total(
            job.mandatory,
            d,
            n,
        ),
    decreases n,
{
    if n > 0 {
        lemma_mandatory_inputs(job, d, n - 1);
        let m = job.mandatory;
        let id = m[n - 1].0;
        assert(mandatory_ids(m)[n - 1] == id);
        assert(is_mandatory(m, id));
        let k = choose|i: int| 0 <= i < m.len() && (#[trigger] m[i]).0 == id;
        if k < n - 1 {
            assert(m[k].0 != m[n - 1].0);
        }
        if n - 1 < k {
            assert(m[n - 1].0 != m[k].0);
        }
        assert(input_coin(job, id) == m[n - 1].1.coin_data);
    }
}

/// What a selection adds to the sums is what the inputs that it adds are
/// worth, and it adds nothing in a denomination that the target lacks.
pub proof fn lemma_selected(job: PrepareJobView, target: Sums, start: Selection, n: int, d: Denom)
    requires
        0 <= n <= job.unspent.len(),
        distinct_keys(job.unspent),
        distinct_keys(start.sums),
        selected(job, target, start, n) is Some,
    ensures
        distinct_keys(selected(job, target, start, n)->0.sums),
        start.inputs.len() <= selected(job, target, start, n)->0.inputs.len(),
        forall|i: int|
            0 <= i < start.inputs.len() ==> selected(job, target, start, n)->0.inputs[i]
                == start.inputs[i],
        amount(selected(job, target, start, n)->0.sums, d) - amount(start.sums, d) == input_total(
            job,
            selected(job, target, start, n)->0.inputs,
            d,
            selected(job, target, start, n)->0.inputs.len() as int,
        ) - input_total(job, start.inputs, d, start.inputs.len() as int),
        !has_key(target, d) ==> amount(selected(job, target, start, n)->0.sums, d) == amount(
            start.sums,
            d,
        ),
    decreases n,
{
    if n > 0 {
        let prev = selected(job, target, start, n - 1)->0;
        lemma_selected(job, target, start, n - 1, d);
        let e = job.unspent[n - 1];
        let now = selected(job, target, start, n)->0;
        if eligible(job, e) && amount(prev.sums, e.value.denom) < amount(target, e.value.denom) {
            lemma_credited(prev.sums, e.value.denom, e.value.value, d);
            assert(now.inputs == prev.inputs.push(e.key));
            lemma_lookup_at(job.unspent, n - 1);
            assert(input_coin(job, e.key) == e.value);
            lemma_input_total_prefix(job, now.inputs, prev.inputs, d, prev.inputs.len() as int);
            assert(now.inputs[now.inputs.len() - 1] == e.key);
            if e.value.denom == d {
                assert(has_key(target, d));
            }
        } else {
            assert(now == prev);
            lemma_input_total_prefix(job, now.inputs, prev.inputs, d, prev.inputs.len() as int);
        }
    } else {
        lemma_input_total_prefix(
            job,
            selected(job, target, start, n)->0.inputs,
            start.inputs,
            d,
            start.inputs.len() as int,
        );
    }
}

/// The total of two lists of outputs is the sum of their totals.
pub proof fn lemma_output_total_concat(a: Seq<CoinDataView>, b: Seq<CoinDataView>, d: Denom, n: int)
    requires
        0 <= n <= b.len(),
    ensures
        output_total(a + b, d, a.len() + n) == output_total(a, d, a.len() as int) + output_total(
            b,
            d,
            n,
        ),
    decreases n,
{
    if n > 0 {
        lemma_output_total_concat(a, b, d, n - 1);
        assert((a + b)[a.len() + n - 1] == b[n - 1]);
    } else {
        lemma_output_total_same(a + b, a, d, a.len() as int);
    }
}

/// The total of the outputs depends on the outputs that are counted alone.
pub proof fn lemma_output_total_same(a: Seq<CoinDataView>, b: Seq<CoinDataView>, d: Denom, n: int)
    requires
        0 <= n <= a.len(),
        n <= b.len(),
        forall|i: int| 0 <= i < n ==> a[i] == b[i],
    ensures
        output_total(a, d, n) == output_total(b, d, n),
    decreases n,
{
    if n > 0 {
        lemma_output_total_same(a, b, d, n - 1);
    }
}

/// The change outputs of a surplus are worth the surplus, all in its
/// denomination.
pub proof fn lemma_change_for(address: Address, of: Denom, surplus: u128, d: Denom)
    ensures
        output_total(
            change_for(address, of, surplus),
            d,
            change_for(address, of, surplus).len() as int,
        ) == (if d == of {
            surplus as int
        } else {
            0
        }),
{
    let c = change_for(address, of, surplus);
    if surplus >= 2 {
        assert(c.len() == 2);
        assert(output_total(c, d, 0) == 0);
        assert(output_total(c, d, 1) == output_total(c, d, 0) + (if c[0].denom == d {
            c[0].value as int
        } else {
            0
        }));
        assert(output_total(c, d, 2) == output_total(c, d, 1) + (if c[1].denom == d {
            c[1].value as int
        } else {
            0
        }));
    } else if surplus > 0 || of == Denom::Mel {
        assert(c.len() == 1);
        assert(output_total(c, d, 0) == 0);
        assert(output_total(c, d, 1) == output_total(c, d, 0) + (if c[0].denom == d {
            c[0].value as int
        } else {
            0
        }));
    } else {
        assert(c.len() == 0);
    }
}

/// The change outputs are worth, in each denomination among the first `n`
/// of the target, what the inputs have above the target, and nothing in
/// the others.
pub proof fn lemma_change_outputs(address: Address, target: Sums, have: Sums, n: int, d: Denom)
    requires
        distinct_keys(target),
        0 <= n <= target.len(),
        change_outputs(address, target, have, n) is Ok,
    ensures
        output_total(
            change_outputs(address, target, have, n)->Ok_0,
            d,
            change_outputs(address, target, have, n)->Ok_0.len() as int,
        ) == (if has_key(target, d) && position(target, d) < n {
            amount(have, d) - amount(target, d)
        } else {
            0
        }),
    decreases n,
{
    if n > 0 {
        lemma_change_outputs(address, target, have, n - 1, d);
        let prev = change_outputs(address, target, have, n - 1)->Ok_0;
        let t = target[n - 1];
        let surplus = (amount(have, t.key) - t.value) as u128;
        let extra = change_for(address, t.key, surplus);
        lemma_change_for(address, t.key, surplus, d);
        lemma_output_total_concat(prev, extra, d, extra.len() as int);
        lemma_lookup_at(target, n - 1);
        if has_key(target, d) {
            lemma_lookup_at(target, position(target, d));
        }
    }
}

/// In every balanced denomination, an unsigned candidate spends what it
/// pays out and its fee, the fee counting as Mel. A denomination that
/// only mandatory inputs bring in is left out: nothing pays those inputs
/// back.
pub proof fn lemma_unsigned_conserves(job: PrepareJobView, fee: u128, d: Denom)
    requires
        distinct_ids(job.mandatory),
        distinct_keys(job.unspent),
        unsigned_candidate(job, fee) is Ok,
        !job.nobalance.contains(d),
        d == Denom::Mel || (exists|i: int|
            0 <= i < job.outputs.len() && (#[trigger] job.outputs[i]).denom == d)
            || mandatory_total(job.mandatory, d, job.mandatory.len() as int) == 0,
    ensures
        unsigned_candidate(job, fee)->Ok_0.fee == fee,
        input_total(
            job,
            unsigned_candidate(job, fee)->Ok_0.inputs,
            d,
            unsigned_candidate(job, fee)->Ok_0.inputs.len() as int,
        ) == output_total(
            unsigned_candidate(job, fee)->Ok_0.outputs,
            d,
            unsigned_candidate(job, fee)->Ok_0.outputs.len() as int,
        ) + (if d == Denom::Mel {
            fee as int
        } else {
            0
        }),
{
    let tx = unsigned_candidate(job, fee)->Ok_0;
    let asked = total_outputs(job.outputs, fee)->0;
    let given = mandatory_sums(job.mandatory, job.mandatory.len() as int)->0;
    lemma_total_outputs(job.outputs, fee, d);
    lemma_mandatory_sums(job.mandatory, job.mandatory.len() as int, d);
    let target = retained(asked, balanced(job.nobalance));
    let have = retained(given, balanced(job.nobalance));
    lemma_balanced_sums(asked, job.nobalance, d);
    lemma_balanced_sums(given, job.nobalance, d);
    let start = Selection { inputs: mandatory_ids(job.mandatory), sums: have };
    let sel = selected(job, target, start, job.unspent.len() as int)->0;
    lemma_selected(job, target, start, job.unspent.len() as int, d);
    lemma_mandatory_inputs(job, d, job.mandatory.len() as int);
    let change = change_outputs(job.address, target, sel.sums, target.len() as int)->Ok_0;
    lemma_change_outputs(job.address, target, sel.sums, target.len() as int, d);
    lemma_output_total_concat(job.outputs, change, d, change.len() as int);
    assert(tx.outputs == job.outputs + change);
    assert(tx.inputs == sel.inputs);
    if has_key(target, d) {
        let p = position(target, d);
        assert(0 <= p < target.len());
    } else {
        if exists|i: int| 0 <= i < job.outputs.len() && (#[trigger] job.outputs[i]).denom == d {
            assert(has_key(asked, d));
            assert(false);
        }
        assert(d != Denom::Mel);
        assert(output_total(job.outputs, d, job.outputs.len() as int) == 0) by {
            lemma_no_output_total(job.outputs, d, job.outputs.len() as int);
        }
    }
}

/// Where no output has the denomination, the total in it is nothing.
pub proof fn lemma_no_output_total(outputs: Seq<CoinDataView>, d: Denom, n: int)
    requires
        0 <= n <= outputs.len(),
        forall|i: int| 0 <= i < n ==> (#[trigger] outputs[i]).denom != d,
    ensures
        output_total(outputs, d, n) == 0,
    decreases n,
{
    if n > 0 {
        lemma_no_output_total(outputs, d, n - 1);
    }
}

/// Applying the policy and signing change nothing of the inputs, the
/// outputs and the fee of a candidate.
pub proof fn lemma_signed_keeps<S: Signer>(key: S::Key, tx: TxView, n: int)
    requires
        0 <= n,
        signed_upto::<S>(key, tx, n) is Some,
    ensures
        signed_upto::<S>(key, tx, n)->0.without_sigs() == tx.without_sigs(),
    decreases n,
{
    if n > 0 {
        lemma_signed_keeps::<S>(key, tx, n - 1);
        S::lemma_signing_keeps_body(key, signed_upto::<S>(key, tx, n - 1)->0, (n - 1) as nat);
    }
}

/// What is known of the low side of a search: it holds a transaction only
/// if some trial fee was low and gave that transaction.
pub open spec fn low_is_tried<S: Signer>(
    job: PrepareJobView,
    policy: SigningPolicyView,
    key: S::Key,
    s: SearchView,
) -> bool {
    s.low matches Ok(t) ==> exists|fee: u128| #[trigger]
        candidate::<S>(job, policy, key, fee) == CandidateView::Low(Ok::<_, _>(t))
}

/// The low side of a search that starts was tried.
pub proof fn lemma_search_starts_tried<S: Signer>(
    job: PrepareJobView,
    policy: SigningPolicyView,
    key: S::Key,
)
    ensures
        low_is_tried::<S>(job, policy, key, search_start::<S>(job, policy, key)),
{
    let start = search_start::<S>(job, policy, key);
    if start.low is Ok {
        assert(candidate::<S>(job, policy, key, 0) == CandidateView::Low(
            Ok::<_, _>(start.low->Ok_0),
        ));
    }
}

/// A search whose low side was tried ends with a low side that was tried.
pub proof fn lemma_search_end<S: Signer>(
    job: PrepareJobView,
    policy: SigningPolicyView,
    key: S::Key,
    s: SearchView,
)
    requires
        low_is_tried::<S>(job, policy, key, s),
    ensures
        low_is_tried::<S>(job, policy, key, search_end::<S>(job, policy, key, s)),
    decreases s.high_fee - s.low_fee,
{
    if s.high_fee > s.low_fee + 1 {
        let mid = (s.low_fee + (s.high_fee - s.low_fee) / 2) as u128;
        match candidate::<S>(job, policy, key, mid) {
            CandidateView::Low(a) => {
                let next = SearchView {
                    low_fee: mid,
                    low: a,
                    last_error: later_error(s.last_error, a),
                    ..s
                };
                lemma_search_end::<S>(job, policy, key, next);
            },
            CandidateView::High(a) => {
                let next = SearchView {
                    high_fee: mid,
                    high: a,
                    last_error: later_error(s.last_error, a),
                    ..s
                };
                lemma_search_end::<S>(job, policy, key, next);
            },
        }
    }
}

/// A prepared transaction carries a fee within the tolerance of its
/// minimum fee, and in every balanced denomination it spends what it pays
/// out and its fee, the fee counting as Mel. A denomination that only
/// mandatory inputs bring in is left out.
pub proof fn lemma_prepared_is_balanced<S: Signer>(
    job: PrepareJobView,
    policy: SigningPolicyView,
    key: S::Key,
    d: Denom,
)
    requires
        distinct_ids(job.mandatory),
        distinct_keys(job.unspent),
        prepared::<S>(job, policy, key) is Ok,
        !job.nobalance.contains(d),
        d == Denom::Mel || (exists|i: int|
            0 <= i < job.outputs.len() && (#[trigger] job.outputs[i]).denom == d)
            || mandatory_total(job.mandatory, d, job.mandatory.len() as int) == 0,
    ensures
        fee_is_adequate(
            prepared::<S>(job, policy, key)->Ok_0.fee,
            prepared::<S>(job, policy, key)->Ok_0.base_fee(job.fee_multiplier, job.fee_ballast),
        ),
        input_total(
            job,
            prepared::<S>(job, policy, key)->Ok_0.inputs,
            d,
            prepared::<S>(job, policy, key)->Ok_0.inputs.len() as int,
        ) == output_total(
            prepared::<S>(job, policy, key)->Ok_0.outputs,
            d,
            prepared::<S>(job, policy, key)->Ok_0.outputs.len() as int,
        ) + (if d == Denom::Mel {
            prepared::<S>(job, policy, key)->Ok_0.fee as int
        } else {
            0
        }),
{
    let start = search_start::<S>(job, policy, key);
    lemma_search_starts_tried::<S>(job, policy, key);
    lemma_search_end::<S>(job, policy, key, start);
    let tx = prepared::<S>(job, policy, key)->Ok_0;
    let fee = choose|fee: u128| #[trigger]
        candidate::<S>(job, policy, key, fee) == CandidateView::Low(Ok::<_, _>(tx));
    let unsigned = unsigned_candidate(job, fee)->Ok_0;
    lemma_unsigned_conserves(job, fee, d);
    lemma_signed_keeps::<S>(key, policy_applied(policy, unsigned), unsigned.inputs.len() as int);
    assert(tx.without_sigs() == policy_applied(policy, unsigned).without_sigs());
    assert(tx.inputs == unsigned.inputs);
    assert(tx.outputs == unsigned.outputs);
    assert(tx.fee == unsigned.fee);
}

/// The inputs that were resolved name no coin twice.
pub proof fn lemma_resolved_distinct(
    db: DatabaseView,
    inputs: Seq<CoinId>,
    node: Seq<(CoinId, CoinDataHeightView)>,
    n: int,
)
    requires
        0 <= n <= inputs.len(),
        resolved(db, inputs, node, n) is Ok,
    ensures
        distinct_ids(resolved(db, inputs, node, n)->Ok_0),
    decreases n,
{
    if n > 0 {
        lemma_resolved_distinct(db, inputs, node, n - 1);
        let prev = resolved(db, inputs, node, n - 1)->Ok_0;
        let now = resolved(db, inputs, node, n)->Ok_0;
        let id = inputs[n - 1];
        if !is_mandatory(prev, id) {
            assert forall|i: int, j: int| 0 <= i < j < now.len() implies (#[trigger] now[i]).0 != (
            #[trigger] now[j]).0 by {
                if j == prev.len() {
                    assert(prev[i].0 != id);
                } else {
                    assert(prev[i].0 != prev[j].0);
                }
            }
        }
    }
}

/// A transaction that a wallet prepared carries a fee of at most 21/20
/// of its minimum fee, and in every balanced denomination the coins that
/// it spends are worth what its outputs and its fee are worth, the fee
/// counting as Mel. A denomination that only the inputs named by the
/// caller bring in is left out: nothing pays those inputs back.
pub proof fn lemma_prepare_is_balanced<S: Signer>(
    wallet: WalletView,
    db: DatabaseView,
    inputs: Seq<CoinId>,
    outputs: Seq<CoinDataView>,
    fee_multiplier: u128,
    policy: SigningPolicyView,
    key: S::Key,
    nobalance: Seq<Denom>,
    fee_ballast: usize,
    node: Seq<(CoinId, CoinDataHeightView)>,
    d: Denom,
)
    requires
        db.wf(),
        prepare_outcome::<S>(
            wallet,
            db,
            inputs,
            outputs,
            fee_multiplier,
            policy,
            key,
            nobalance,
            fee_ballast,
            node,
        ) is Ok,
        d != Denom::NewCustom,
        !nobalance.contains(d),
        d == Denom::Mel || (exists|i: int| 0 <= i < outputs.len() && (#[trigger] outputs[i]).denom
            == d) || mandatory_total(
            resolved(db, inputs, node, inputs.len() as int)->Ok_0,
            d,
            resolved(db, inputs, node, inputs.len() as int)->Ok_0.len() as int,
        ) == 0,
    ensures
        ({
            let tx = prepare_outcome::<S>(
                wallet,
                db,
                inputs,
                outputs,
                fee_multiplier,
                policy,
                key,
                nobalance,
                fee_ballast,
                node,
            )->Ok_0;
            let job = job_of(
                wallet,
                db,
                resolved(db, inputs, node, inputs.len() as int)->Ok_0,
                outputs,
                fee_multiplier,
                nobalance,
                fee_ballast,
            );
            &&& fee_is_adequate(tx.fee, tx.base_fee(fee_multiplier, fee_ballast as u128))
            &&& input_total(job, tx.inputs, d, tx.inputs.len() as int) == output_total(
                tx.outputs,
                d,
                tx.outputs.len() as int,
            ) + (if d == Denom::Mel {
                tx.fee as int
            } else {
                0
            })
        }),
{
    lemma_resolved_distinct(db, inputs, node, inputs.len() as int);
    let mandatory = resolved(db, inputs, node, inputs.len() as int)->Ok_0;
    let job = job_of(wallet, db, mandatory, outputs, fee_multiplier, nobalance, fee_ballast);
    lemma_retained(
        db.coins,
        |e: Entry<CoinId, CoinDataView>| db.visible(wallet.covhash, true, false, e),
    );
    assert(!job.nobalance.contains(d)) by {
        if job.nobalance.contains(d) {
            let i = choose|i: int| 0 <= i < job.nobalance.len() && job.nobalance[i] == d;
            if i < nobalance.len() {
                assert(nobalance[i] == d);
            }
        }
    }
    lemma_prepared_is_balanced::<S>(job, policy, key, d);
}

/// A signer that signs every input of every transaction signs every
/// candidate.
pub proof fn lemma_total_signer_signs<S: Signer>(key: S::Key, tx: TxView, n: int)
    requires
        forall|t: TxView, i: nat| (#[trigger] S::sign_with(key, t, i)) is Some,
    ensures
        signed_upto::<S>(key, tx, n) is Some,
    decreases n,
{
    if n > 0 {
        lemma_total_signer_signs::<S>(key, tx, n - 1);
    }
}

/// Where the signer never fails, a search whose low side holds a
/// transaction ends with a transaction on its low side.
pub proof fn lemma_search_keeps_a_fee<S: Signer>(
    job: PrepareJobView,
    policy: SigningPolicyView,
    key: S::Key,
    s: SearchView,
)
    requires
        forall|t: TxView, i: nat| (#[trigger] S::sign_with(key, t, i)) is Some,
        s.low is Ok,
    ensures
        search_end::<S>(job, policy, key, s).low is Ok,
    decreases s.high_fee - s.low_fee,
{
    if s.high_fee > s.low_fee + 1 {
        let mid = (s.low_fee + (s.high_fee - s.low_fee) / 2) as u128;
        match unsigned_candidate(job, mid) {
            Ok(tx) => {
                lemma_total_signer_signs::<S>(
                    key,
                    policy_applied(policy, tx),
                    tx.inputs.len() as int,
                );
            },
            Err(_) => {},
        }
        match candidate::<S>(job, policy, key, mid) {
            CandidateView::Low(a) => {
                let next = SearchView {
                    low_fee: mid,
                    low: a,
                    last_error: later_error(s.last_error, a),
                    ..s
                };
                lemma_search_keeps_a_fee::<S>(job, policy, key, next);
            },
            CandidateView::High(a) => {
                let next = SearchView {
                    high_fee: mid,
                    high: a,
                    last_error: later_error(s.last_error, a),
                    ..s
                };
                lemma_search_keeps_a_fee::<S>(job, policy, key, next);
            },
        }
    }
}

/// Preparing a transaction succeeds, with a fee within the tolerance of
/// the minimum fee, wherever the signer never fails and fee 0 is low: the
/// wallet can pay the outputs, and the candidate that does so has a
/// weight.
pub proof fn lemma_prepare_finds_a_fee<S: Signer>(
    job: PrepareJobView,
    policy: SigningPolicyView,
    key: S::Key,
)
    requires
        forall|t: TxView, i: nat| (#[trigger] S::sign_with(key, t, i)) is Some,
        candidate::<S>(job, policy, key, 0) is Low,
    ensures
        prepared::<S>(job, policy, key) is Ok,
        fee_is_adequate(
            prepared::<S>(job, policy, key)->Ok_0.fee,
            prepared::<S>(job, policy, key)->Ok_0.base_fee(job.fee_multiplier, job.fee_ballast),
        ),
{
    let start = search_start::<S>(job, policy, key);
    match unsigned_candidate(job, 0) {
        Ok(tx) => {
            lemma_total_signer_signs::<S>(key, policy_applied(policy, tx), tx.inputs.len() as int);
        },
        Err(_) => {},
    }
    lemma_search_keeps_a_fee::<S>(job, policy, key, start);
    lemma_search_starts_tried::<S>(job, policy, key);
    lemma_search_end::<S>(job, policy, key, start);
}

/// With an Ed25519 key, which signs whatever it is given, preparing
/// succeeds wherever fee 0 is low.
pub proof fn lemma_ed25519_prepare_finds_a_fee(
    job: PrepareJobView,
    policy: SigningPolicyView,
    key: Ed25519SK,
)
    requires
        candidate::<Ed25519Signer>(job, policy, key, 0) is Low,
    ensures
        prepared::<Ed25519Signer>(job, policy, key) is Ok,
{
    lemma_prepare_finds_a_fee::<Ed25519Signer>(job, policy, key);
}

/// A wallet prepares a transaction wherever every input that the caller
/// named is resolved, the signer never fails, and fee 0 is low for the
/// wallet's job.
pub proof fn lemma_wallet_finds_a_fee<S: Signer>(
    wallet: WalletView,
    db: DatabaseView,
    inputs: Seq<CoinId>,
    outputs: Seq<CoinDataView>,
    fee_multiplier: u128,
    policy: SigningPolicyView,
    key: S::Key,
    nobalance: Seq<Denom>,
    fee_ballast: usize,
    node: Seq<(CoinId, CoinDataHeightView)>,
)
    requires
        forall|t: TxView, i: nat| (#[trigger] S::sign_with(key, t, i)) is Some,
        resolved(db, inputs, node, inputs.len() as int) matches Ok(mandatory) && candidate::<S>(
            job_of(wallet, db, mandatory, outputs, fee_multiplier, nobalance, fee_ballast),
            policy,
            key,
            0,
        ) is Low,
    ensures
        prepare_outcome::<S>(
            wallet,
            db,
            inputs,
            outputs,
            fee_multiplier,
            policy,
            key,
            nobalance,
            fee_ballast,
            node,
        ) is Ok,
{
    let mandatory = resolved(db, inputs, node, inputs.len() as int)->Ok_0;
    lemma_prepare_finds_a_fee::<S>(
        job_of(wallet, db, mandatory, outputs, fee_multiplier, nobalance, fee_ballast),
        policy,
        key,
    );
}

/// A transaction with one covenant, which is weighed, has a weight.
pub proof fn lemma_one_covenant_fits(tx: TxView)
    requires
        tx.covenants.len() == 1,
        weighable(tx.covenants[0]),
    ensures
        weights_fit(tx),
{
    assert(covenant_weights(tx.covenants, 0) == 0);
    assert(covenant_weights(tx.covenants, 1) == covenant_weight(tx.covenants[0]));
}

/// A wallet with an Ed25519 key prepares a transaction, with a fee within
/// the tolerance of the minimum fee, wherever its covenant is weighed, the
/// policy adds no covenant, and its coins pay the outputs without a fee.
pub proof fn lemma_wallet_that_can_pay_prepares(
    job: PrepareJobView,
    policy: SigningPolicyView,
    key: Ed25519SK,
)
    requires
        weighable(job.covenant),
        policy.covenants.len() == 0,
        unsigned_candidate(job, 0) is Ok,
    ensures
        prepared::<Ed25519Signer>(job, policy, key) is Ok,
        fee_is_adequate(
            prepared::<Ed25519Signer>(job, policy, key)->Ok_0.fee,
            prepared::<Ed25519Signer>(job, policy, key)->Ok_0.base_fee(
                job.fee_multiplier,
                job.fee_ballast,
            ),
        ),
{
    let tx = unsigned_candidate(job, 0)->Ok_0;
    let applied = policy_applied(policy, tx);
    lemma_total_signer_signs::<Ed25519Signer>(key, applied, tx.inputs.len() as int);
    lemma_signed_keeps::<Ed25519Signer>(key, applied, tx.inputs.len() as int);
    let signed = signed_upto::<Ed25519Signer>(key, applied, tx.inputs.len() as int)->0;
    assert(signed.without_sigs() == applied.without_sigs());
    assert(signed.covenants == applied.covenants);
    assert(applied.covenants =~= seq![job.covenant]);
    assert(signed.fee == 0);
    lemma_one_covenant_fits(signed);
    assert(candidate::<Ed25519Signer>(job, policy, key, 0) is Low);
    lemma_prepare_finds_a_fee::<Ed25519Signer>(job, policy, key);
}

} // verus!
