//! Transaction preparation: input selection, change construction and the
//! search for the fee.

use vstd::prelude::*;
use crate::coins::{
    blobs_view, clone_coins, coins_view, CoinData, CoinDataHeight, CoinDataHeightView,
    CoinDataView, Denom, Tx, TxKind, TxView,
};
use crate::database::{coin_entries, reported_coins, Database, DatabaseView, Wallet, WalletView};
use crate::chain::{fee_for_weight, tx_weight, weights_fit};
use crate::hashes::{clone_bytes, Address, CoinId, RowKey};
use crate::signer::Signer;
use crate::sums::{amount, amount_of, credit, credited, Sums};
use crate::table::{retained, Entry, Table};

verus! {

/// The largest value that a coin or a fee may have: 2 to the power 120.
pub const MAX_COINVAL: u128 = 0x1000000000000000000000000000000;

/// The largest number of inputs that a prepared transaction may have.
pub const MAX_INPUTS: usize = 5000;

/// Why no transaction could be prepared.
#[derive(Clone, Copy, Debug, PartialEq, Eq)]
pub enum PrepareError {
    /// Neither the store nor the node knows a coin named as an input.
    InputNotFound(CoinId),
    /// The signer failed.
    InvalidSignature,
    /// The coins at hand do not cover the outputs in this denomination.
    InsufficientFunds(Denom),
    /// The candidate has more inputs than a transaction may have.
    TooManyInputs,
    /// The candidate breaks the chain's bounds on values and sizes.
    NotWellFormed,
}

/// What the caller wants changed in a candidate before it is signed.
#[derive(Clone, Debug, PartialEq, Eq)]
pub struct SigningPolicy {
    /// The kind to give the transaction, if not the ordinary one.
    pub kind: Option<TxKind>,
    /// The data to give the transaction, if any.
    pub data: Option<Vec<u8>>,
    /// Covenants to append to the wallet's own.
    pub covenants: Vec<Vec<u8>>,
}

/// A signing policy, as contracts see it.
pub struct SigningPolicyView {
    pub kind: Option<TxKind>,
    pub data: Option<Seq<u8>>,
    pub covenants: Seq<Seq<u8>>,
}

impl View for SigningPolicy {
    type V = SigningPolicyView;

    open spec fn view(&self) -> SigningPolicyView {
        SigningPolicyView {
            kind: self.kind,
            data: match self.data {
                Some(d) => Some(d@),
                None => None,
            },
            covenants: blobs_view(self.covenants@),
        }
    }
}

/// All that a candidate is built from, as contracts see it.
pub struct PrepareJobView {
    pub address: Address,
    pub covenant: Seq<u8>,
    pub mandatory: Seq<(CoinId, CoinDataHeightView)>,
    pub unspent: Seq<Entry<CoinId, CoinDataView>>,
    pub outputs: Seq<CoinDataView>,
    pub fee_multiplier: u128,
    pub nobalance: Seq<Denom>,
    pub fee_ballast: u128,
}

/// All that a candidate is built from: the wallet's address and covenant,
/// the inputs that must be spent, the wallet's confirmed unspent coins, the
/// outputs asked for, the fee multiplier, the denominations that are not
/// balanced, and the ballast added to the weight.
pub struct PrepareJob {
    pub address: Address,
    pub covenant: Vec<u8>,
    pub mandatory: Vec<(CoinId, CoinDataHeight)>,
    pub unspent: Vec<(CoinId, CoinData)>,
    pub outputs: Vec<CoinData>,
    pub fee_multiplier: u128,
    pub nobalance: Vec<Denom>,
    pub fee_ballast: u128,
}

impl View for PrepareJob {
    type V = PrepareJobView;

    open spec fn view(&self) -> PrepareJobView {
        PrepareJobView {
            address: self.address,
            covenant: self.covenant@,
            mandatory: reported_coins(self.mandatory@),
            unspent: coin_entries(self.unspent@),
            outputs: coins_view(self.outputs@),
            fee_multiplier: self.fee_multiplier,
            nobalance: self.nobalance@,
            fee_ballast: self.fee_ballast,
        }
    }
}

/// The sums of the first `n` outputs by denomination.
pub open spec fn output_sums(outputs: Seq<CoinDataView>, n: int) -> Option<Sums>
    decreases n,
{
    if n <= 0 {
        Some(Seq::empty())
    } else {
        match output_sums(outputs, n - 1) {
            None => None,
            Some(s) => credited(s, outputs[n - 1].denom, outputs[n - 1].value),
        }
    }
}

/// What a transaction with these outputs and this fee pays out by
/// denomination: the fee counts as Mel.
pub open spec fn total_outputs(outputs: Seq<CoinDataView>, fee: u128) -> Option<Sums> {
    match output_sums(outputs, outputs.len() as int) {
        None => None,
        Some(s) => credited(s, Denom::Mel, fee),
    }
}

/// The sums of the first `n` mandatory inputs by denomination.
pub open spec fn mandatory_sums(m: Seq<(CoinId, CoinDataHeightView)>, n: int) -> Option<Sums>
    decreases n,
{
    if n <= 0 {
        Some(Seq::empty())
    } else {
        match mandatory_sums(m, n - 1) {
            None => None,
            Some(s) => credited(s, m[n - 1].1.coin_data.denom, m[n - 1].1.coin_data.value),
        }
    }
}

/// The identifiers of the mandatory inputs.
pub open spec fn mandatory_ids(m: Seq<(CoinId, CoinDataHeightView)>) -> Seq<CoinId> {
    Seq::new(m.len(), |i: int| m[i].0)
}

/// Whether a coin is among the mandatory inputs.
pub open spec fn is_mandatory(m: Seq<(CoinId, CoinDataHeightView)>, id: CoinId) -> bool {
    exists|i: int| 0 <= i < m.len() && (#[trigger] m[i]).0 == id
}

/// The sums of the denominations that are balanced.
pub open spec fn balanced(nobalance: Seq<Denom>) -> spec_fn(Entry<Denom, u128>) -> bool {
    |e: Entry<Denom, u128>| !nobalance.contains(e.key)
}

/// The inputs chosen so far and their sums.
pub struct Selection {
    pub inputs: Seq<CoinId>,
    pub sums: Sums,
}

/// Whether an unspent coin may be chosen at all: it is not mandatory, its
/// denomination is balanced, and it belongs to the wallet.
pub open spec fn eligible(job: PrepareJobView, e: Entry<CoinId, CoinDataView>) -> bool {
    &&& !is_mandatory(job.mandatory, e.key)
    &&& !job.nobalance.contains(e.value.denom)
    &&& e.value.covhash == job.address
}

/// The selection after the first `n` unspent coins were considered in
/// their order: a coin is taken while the sum of its denomination is below
/// the target. `None` where a sum does not fit in 128 bits.
pub open spec fn selected(job: PrepareJobView, target: Sums, start: Selection, n: int) -> Option<
    Selection,
>
    decreases n,
{
    if n <= 0 {
        Some(start)
    } else {
        match selected(job, target, start, n - 1) {
            None => None,
            Some(sel) => {
                let e = job.unspent[n - 1];
                if eligible(job, e) && amount(sel.sums, e.value.denom) < amount(
                    target,
                    e.value.denom,
                ) {
                    match credited(sel.sums, e.value.denom, e.value.value) {
                        None => None,
                        Some(s) => Some(Selection { inputs: sel.inputs.push(e.key), sums: s }),
                    }
                } else {
                    Some(sel)
                }
            },
        }
    }
}

/// A change output of the wallet.
pub open spec fn change_coin(address: Address, d: Denom, value: u128) -> CoinDataView {
    CoinDataView { covhash: address, value, denom: d, additional_data: Seq::empty() }
}

/// The change outputs for a surplus in one denomination: two halves for a
/// surplus of 2 or more, one output for a surplus of 1, and for Mel alone
/// an output of value 0 where there is no surplus.
pub open spec fn change_for(address: Address, d: Denom, surplus: u128) -> Seq<CoinDataView> {
    if surplus >= 2 {
        seq![
            change_coin(address, d, surplus / 2),
            change_coin(address, d, (surplus - surplus / 2) as u128),
        ]
    } else if surplus > 0 || d == Denom::Mel {
        seq![change_coin(address, d, surplus)]
    } else {
        Seq::empty()
    }
}

/// The change outputs for the first `n` denominations of the target, or
/// the first denomination in which the inputs fall short.
pub open spec fn change_outputs(address: Address, target: Sums, have: Sums, n: int) -> Result<
    Seq<CoinDataView>,
    PrepareError,
>
    decreases n,
{
    if n <= 0 {
        Ok(Seq::empty())
    } else {
        match change_outputs(address, target, have, n - 1) {
            Err(e) => Err(e),
            Ok(c) => {
                let t = target[n - 1];
                if amount(have, t.key) < t.value {
                    Err(PrepareError::InsufficientFunds(t.key))
                } else {
                    Ok(c + change_for(address, t.key, (amount(have, t.key) - t.value) as u128))
                }
            },
        }
    }
}

/// The chain's bounds on a transaction: no output and no fee above the
/// largest coin value, and at most 255 outputs.
pub open spec fn well_formed(tx: TxView) -> bool {
    &&& forall|i: int| 0 <= i < tx.outputs.len() ==> (#[trigger] tx.outputs[i]).value <= MAX_COINVAL
    &&& tx.fee <= MAX_COINVAL
    &&& tx.outputs.len() <= 255
}

/// The unsigned candidate for a trial fee, or why there is none.
pub open spec fn unsigned_candidate(job: PrepareJobView, fee: u128) -> Result<TxView, PrepareError> {
    match (
        total_outputs(job.outputs, fee),
        mandatory_sums(job.mandatory, job.mandatory.len() as int),
    ) {
        (Some(asked), Some(given)) => {
            let target = retained(asked, balanced(job.nobalance));
            let start = Selection {
                inputs: mandatory_ids(job.mandatory),
                sums: retained(given, balanced(job.nobalance)),
            };
            match selected(job, target, start, job.unspent.len() as int) {
                None => Err(PrepareError::NotWellFormed),
                Some(sel) => match change_outputs(
                    job.address,
                    target,
                    sel.sums,
                    target.len() as int,
                ) {
                    Err(e) => Err(e),
                    Ok(change) => {
                        let tx = TxView {
                            kind: TxKind::Normal,
                            inputs: sel.inputs,
                            outputs: job.outputs + change,
                            fee,
                            covenants: seq![job.covenant],
                            data: Seq::empty(),
                            sigs: Seq::empty(),
                        };
                        if tx.inputs.len() > MAX_INPUTS {
                            Err(PrepareError::TooManyInputs)
                        } else if !well_formed(tx) {
                            Err(PrepareError::NotWellFormed)
                        } else {
                            Ok(tx)
                        }
                    },
                },
            }
        },
        _ => Err(PrepareError::NotWellFormed),
    }
}

/// The candidate after the caller's policy was applied to it.
pub open spec fn policy_applied(policy: SigningPolicyView, tx: TxView) -> TxView {
    TxView {
        kind: match policy.kind {
            Some(k) => k,
            None => tx.kind,
        },
        data: match policy.data {
            Some(d) => d,
            None => tx.data,
        },
        covenants: tx.covenants + policy.covenants,
        ..tx
    }
}

/// The transaction after its first `n` inputs were signed in turn.
pub open spec fn signed_upto<S: Signer>(key: S::Key, tx: TxView, n: int) -> Option<TxView>
    decreases n,
{
    if n <= 0 {
        Some(tx)
    } else {
        match signed_upto::<S>(key, tx, n - 1) {
            None => None,
            Some(t) => S::sign_with(key, t, (n - 1) as nat),
        }
    }
}

/// The candidate with the policy applied and every input signed.
pub open spec fn fully_signed<S: Signer>(policy: SigningPolicyView, key: S::Key, tx: TxView) -> Option<
    TxView,
> {
    signed_upto::<S>(key, policy_applied(policy, tx), tx.inputs.len() as int)
}

/// A candidate or the reason why there is none.
pub type Attempt = Result<Tx, PrepareError>;

/// An attempt, as contracts see it.
pub type AttemptView = Result<TxView, PrepareError>;

/// What a trial fee gave, as contracts see it.
pub enum CandidateView {
    Low(AttemptView),
    High(AttemptView),
}

/// What a trial fee gave. `Low` says that the fee is not above what the
/// candidate needs, so that a higher fee may be tried; `High` that it is
/// above, or that no candidate can be built.
pub enum Candidate {
    Low(Attempt),
    High(Attempt),
}

/// An attempt, as contracts see it.
pub open spec fn attempt_view(a: Attempt) -> AttemptView {
    match a {
        Ok(t) => Ok(t@),
        Err(e) => Err(e),
    }
}

impl View for Candidate {
    type V = CandidateView;

    open spec fn view(&self) -> CandidateView {
        match *self {
            Candidate::Low(a) => CandidateView::Low(attempt_view(a)),
            Candidate::High(a) => CandidateView::High(attempt_view(a)),
        }
    }
}

/// Whether a fee is within the tolerance of the minimum fee: at most
/// 21/20 of it.
pub open spec fn fee_is_adequate(fee: u128, base_fee: u128) -> bool {
    fee <= base_fee * 21 / 20
}

/// What the trial fee `fee` gives: the signed candidate, low where its
/// fee is within the tolerance of its minimum fee and high where it is
/// above. A candidate with a covenant that is not weighed, or whose
/// covenants weigh more than a 128-bit number, has no minimum fee and is
/// not well formed.
pub open spec fn candidate<S: Signer>(
    job: PrepareJobView,
    policy: SigningPolicyView,
    key: S::Key,
    fee: u128,
) -> CandidateView {
    match unsigned_candidate(job, fee) {
        Err(e) => CandidateView::High(Err(e)),
        Ok(tx) => match fully_signed::<S>(policy, key, tx) {
            None => CandidateView::Low(Err(PrepareError::InvalidSignature)),
            Some(signed) => if !weights_fit(signed) {
                CandidateView::High(Err(PrepareError::NotWellFormed))
            } else if fee_is_adequate(
                signed.fee,
                signed.base_fee(job.fee_multiplier, job.fee_ballast),
            ) {
                CandidateView::Low(Ok(signed))
            } else {
                CandidateView::High(Ok(signed))
            },
        },
    }
}

/// The error of an attempt, or else the error that was seen before it.
pub open spec fn later_error(seen: PrepareError, a: AttemptView) -> PrepareError {
    match a {
        Ok(_) => seen,
        Err(e) => e,
    }
}

/// Where a search between two fees stands: the largest fee known to be
/// low and the smallest known to be high, each with what it gave, and the
/// last error that a trial fee gave.
pub struct SearchView {
    pub low_fee: u128,
    pub low: AttemptView,
    pub high_fee: u128,
    pub high: AttemptView,
    pub last_error: PrepareError,
}

/// The end of the binary search that starts at `s`: while a fee lies
/// strictly between the two bounds, the middle one is tried and becomes
/// the low or the high bound.
pub open spec fn search_end<S: Signer>(
    job: PrepareJobView,
    policy: SigningPolicyView,
    key: S::Key,
    s: SearchView,
) -> SearchView
    decreases s.high_fee - s.low_fee,
{
    if s.high_fee <= s.low_fee + 1 {
        s
    } else {
        let mid = (s.low_fee + (s.high_fee - s.low_fee) / 2) as u128;
        match candidate::<S>(job, policy, key, mid) {
            CandidateView::Low(a) => search_end::<S>(
                job,
                policy,
                key,
                SearchView { low_fee: mid, low: a, last_error: later_error(s.last_error, a), ..s },
            ),
            CandidateView::High(a) => search_end::<S>(
                job,
                policy,
                key,
                SearchView {
                    high_fee: mid,
                    high: a,
                    last_error: later_error(s.last_error, a),
                    ..s
                },
            ),
        }
    }
}

/// What trying fee 0 gave.
pub open spec fn probe<S: Signer>(job: PrepareJobView, policy: SigningPolicyView, key: S::Key) -> AttemptView {
    match candidate::<S>(job, policy, key, 0) {
        CandidateView::Low(a) => a,
        CandidateView::High(a) => a,
    }
}

/// The sum, saturating, of the Mel among the first `n` unspent coins.
pub open spec fn mel_total(unspent: Seq<Entry<CoinId, CoinDataView>>, n: int) -> u128
    decreases n,
{
    if n <= 0 {
        0
    } else if unspent[n - 1].value.denom == Denom::Mel {
        let sum = mel_total(unspent, n - 1) + unspent[n - 1].value.value;
        if sum > u128::MAX {
            u128::MAX
        } else {
            sum as u128
        }
    } else {
        mel_total(unspent, n - 1)
    }
}

/// The upper bound of the fee search: three times the minimum fee of the
/// candidate for fee 0 and 100 more, or, where fee 0 gives no candidate,
/// all the Mel of the wallet.
pub open spec fn fee_bound<S: Signer>(job: PrepareJobView, policy: SigningPolicyView, key: S::Key) -> u128 {
    match probe::<S>(job, policy, key) {
        Ok(t) => (t.base_fee(job.fee_multiplier, job.fee_ballast) * 3 + 100) as u128,
        Err(_) => mel_total(job.unspent, job.unspent.len() as int),
    }
}

/// Where the fee search starts: between fee 0 and the bound. The low side
/// holds what fee 0 gave where fee 0 is low; of the high side nothing is
/// known but that the wallet's Mel may not suffice.
pub open spec fn search_start<S: Signer>(job: PrepareJobView, policy: SigningPolicyView, key: S::Key) -> SearchView {
    SearchView {
        low_fee: 0,
        low: match candidate::<S>(job, policy, key, 0) {
            CandidateView::Low(a) => a,
            CandidateView::High(_) => Err(PrepareError::InsufficientFunds(Denom::Mel)),
        },
        high_fee: fee_bound::<S>(job, policy, key),
        high: Err(PrepareError::InsufficientFunds(Denom::Mel)),
        last_error: later_error(
            PrepareError::InsufficientFunds(Denom::Mel),
            probe::<S>(job, policy, key),
        ),
    }
}

/// The prepared transaction: what the last low fee of the search gave,
/// fee 0 being the first that is tried, or, where no low fee gave a
/// transaction, the last error that a trial fee gave.
pub open spec fn prepared<S: Signer>(job: PrepareJobView, policy: SigningPolicyView, key: S::Key) -> AttemptView {
    let end = search_end::<S>(job, policy, key, search_start::<S>(job, policy, key));
    match end.low {
        Ok(t) => Ok(t),
        Err(_) => Err(end.last_error),
    }
}

/// Once a sum of outputs has overflowed, it stays so.
proof fn lemma_output_sums_stuck(outputs: Seq<CoinDataView>, n: int, m: int)
    requires
        0 <= n <= m,
        output_sums(outputs, n) is None,
    ensures
        output_sums(outputs, m) is None,
    decreases m,
{
    if n < m {
        lemma_output_sums_stuck(outputs, n, m - 1);
    }
}

/// Once a sum of mandatory inputs has overflowed, it stays so.
proof fn lemma_mandatory_sums_stuck(m: Seq<(CoinId, CoinDataHeightView)>, n: int, k: int)
    requires
        0 <= n <= k,
        mandatory_sums(m, n) is None,
    ensures
        mandatory_sums(m, k) is None,
    decreases k,
{
    if n < k {
        lemma_mandatory_sums_stuck(m, n, k - 1);
    }
}

/// Once a selection has overflowed, it stays so.
proof fn lemma_selected_stuck(job: PrepareJobView, target: Sums, start: Selection, n: int, m: int)
    requires
        0 <= n <= m,
        selected(job, target, start, n) is None,
    ensures
        selected(job, target, start, m) is None,
    decreases m,
{
    if n < m {
        lemma_selected_stuck(job, target, start, n, m - 1);
    }
}

/// The first shortfall is the one that is reported.
proof fn lemma_change_stuck(address: Address, target: Sums, have: Sums, n: int, m: int)
    requires
        0 <= n <= m,
        change_outputs(address, target, have, n) is Err,
    ensures
        change_outputs(address, target, have, m) == change_outputs(address, target, have, n),
    decreases m,
{
    if n < m {
        lemma_change_stuck(address, target, have, n, m - 1);
    }
}

/// Whether a denomination is in a list.
pub fn denom_listed(list: &Vec<Denom>, d: &Denom) -> (r: bool)
    ensures
        r == list@.contains(*d),
{
    let mut i: usize = 0;
    while i < list.len()
        invariant
            i <= list.len(),
            forall|j: int| 0 <= j < i ==> list@[j] != *d,
        decreases list.len() - i,
    {
        if list[i].same(d) {
            return true;
        }
        i += 1;
    }
    false
}

/// Whether a coin is among the mandatory inputs.
pub fn coin_is_mandatory(m: &Vec<(CoinId, CoinDataHeight)>, id: &CoinId) -> (r: bool)
    ensures
        r == is_mandatory(reported_coins(m@), *id),
{
    let mut i: usize = 0;
    while i < m.len()
        invariant
            i <= m.len(),
            forall|j: int| 0 <= j < i ==> (#[trigger] reported_coins(m@)[j]).0 != *id,
        decreases m.len() - i,
    {
        if m[i].0.same(id) {
            assert(reported_coins(m@)[i as int].0 == *id);
            return true;
        }
        i += 1;
    }
    false
}

/// What a transaction with these outputs and this fee pays out.
fn sum_outputs(outputs: &Vec<CoinData>, fee: u128) -> (r: Option<Table<Denom, u128>>)
    ensures
        match r {
            Some(t) => t.wf() && total_outputs(coins_view(outputs@), fee) == Some(t@),
            None => total_outputs(coins_view(outputs@), fee) is None,
        },
{
    let ghost os = coins_view(outputs@);
    let mut sums: Table<Denom, u128> = Table::new();
    let mut i: usize = 0;
    while i < outputs.len()
        invariant
            i <= outputs.len(),
            os == coins_view(outputs@),
            sums.wf(),
            output_sums(os, i as int) == Some(sums@),
        decreases outputs.len() - i,
    {
        if !credit(&mut sums, outputs[i].denom, outputs[i].value) {
            proof {
                assert(output_sums(os, i as int + 1) is None);
                lemma_output_sums_stuck(os, i as int + 1, os.len() as int);
            }
            return None;
        }
        i += 1;
    }
    if !credit(&mut sums, Denom::Mel, fee) {
        return None;
    }
    Some(sums)
}

/// The sums of the mandatory inputs.
fn sum_mandatory(m: &Vec<(CoinId, CoinDataHeight)>) -> (r: Option<Table<Denom, u128>>)
    ensures
        match r {
            Some(t) => t.wf() && mandatory_sums(reported_coins(m@), m@.len() as int) == Some(t@),
            None => mandatory_sums(reported_coins(m@), m@.len() as int) is None,
        },
{
    let ghost ms = reported_coins(m@);
    let mut sums: Table<Denom, u128> = Table::new();
    let mut i: usize = 0;
    while i < m.len()
        invariant
            i <= m.len(),
            ms == reported_coins(m@),
            sums.wf(),
            mandatory_sums(ms, i as int) == Some(sums@),
        decreases m.len() - i,
    {
        if !credit(&mut sums, m[i].1.coin_data.denom, m[i].1.coin_data.value) {
            proof {
                assert(mandatory_sums(ms, i as int + 1) is None);
                lemma_mandatory_sums_stuck(ms, i as int + 1, ms.len() as int);
            }
            return None;
        }
        i += 1;
    }
    Some(sums)
}

/// Drops the sums of the denominations that are not balanced.
fn keep_balanced(sums: &mut Table<Denom, u128>, nobalance: &Vec<Denom>)
    requires
        old(sums).wf(),
    ensures
        final(sums).wf(),
        final(sums)@ == retained(old(sums)@, balanced(nobalance@)),
{
    let ghost p = balanced(nobalance@);
    let n = sums.len();
    let mut marks: Vec<bool> = Vec::new();
    let mut i: usize = 0;
    while i < n
        invariant
            n == sums@.len(),
            i <= n,
            marks@.len() == i,
            p == balanced(nobalance@),
            forall|j: int| 0 <= j < i ==> marks@[j] == p(#[trigger] sums@[j]),
        decreases n - i,
    {
        let d = sums.key_at(i);
        marks.push(!denom_listed(nobalance, &d));
        i += 1;
    }
    sums.retain_marked(&marks, Ghost(p));
}

/// Takes unspent coins, in their order, while the sums fall short of the
/// target. Says `false` where a sum does not fit in 128 bits.
fn select_inputs(
    job: &PrepareJob,
    target: &Table<Denom, u128>,
    inputs: &mut Vec<CoinId>,
    have: &mut Table<Denom, u128>,
) -> (ok: bool)
    requires
        target.wf(),
        old(have).wf(),
    ensures
        final(have).wf(),
        match selected(
            job@,
            target@,
            Selection { inputs: old(inputs)@, sums: old(have)@ },
            job@.unspent.len() as int,
        ) {
            Some(sel) => ok && sel == (Selection { inputs: final(inputs)@, sums: final(have)@ }),
            None => !ok,
        },
{
    let ghost start = Selection { inputs: inputs@, sums: have@ };
    let ghost jv = job@;
    let mut i: usize = 0;
    while i < job.unspent.len()
        invariant
            i <= job.unspent.len(),
            jv == job@,
            target.wf(),
            have.wf(),
            start == (Selection { inputs: old(inputs)@, sums: old(have)@ }),
            selected(jv, target@, start, i as int) == Some(
                Selection { inputs: inputs@, sums: have@ },
            ),
        decreases job.unspent.len() - i,
    {
        let id = job.unspent[i].0;
        let coin = &job.unspent[i].1;
        let ghost e = jv.unspent[i as int];
        assert(e.key == id && e.value == coin@);
        let may = !coin_is_mandatory(&job.mandatory, &id) && !denom_listed(
            &job.nobalance,
            &coin.denom,
        ) && coin.covhash.same(&job.address);
        assert(may == eligible(jv, e));
        if may && amount_of(have, &coin.denom) < amount_of(target, &coin.denom) {
            if !credit(have, coin.denom, coin.value) {
                proof {
                    assert(selected(jv, target@, start, i as int + 1) is None);
                    lemma_selected_stuck(jv, target@, start, i as int + 1, jv.unspent.len() as int);
                }
                return false;
            }
            inputs.push(id);
        }
        i += 1;
    }
    true
}

/// A change output of the wallet.
fn make_change_coin(address: Address, d: Denom, value: u128) -> (r: CoinData)
    ensures
        r@ == change_coin(address, d, value),
{
    CoinData { covhash: address, value, denom: d, additional_data: Vec::new() }
}

/// The change outputs, or the first denomination in which the inputs
/// fall short.
fn make_change(address: Address, target: &Table<Denom, u128>, have: &Table<Denom, u128>) -> (r:
    Result<Vec<CoinData>, PrepareError>)
    requires
        target.wf(),
        have.wf(),
    ensures
        match r {
            Ok(c) => change_outputs(address, target@, have@, target@.len() as int) == Ok::<
                Seq<CoinDataView>,
                PrepareError,
            >(coins_view(c@)),
            Err(e) => change_outputs(address, target@, have@, target@.len() as int) == Err::<
                Seq<CoinDataView>,
                PrepareError,
            >(e),
        },
{
    let mut change: Vec<CoinData> = Vec::new();
    let n = target.len();
    let mut i: usize = 0;
    assert(coins_view(change@) =~= Seq::empty());
    while i < n
        invariant
            n == target@.len(),
            i <= n,
            target.wf(),
            have.wf(),
            change_outputs(address, target@, have@, i as int) == Ok::<
                Seq<CoinDataView>,
                PrepareError,
            >(coins_view(change@)),
        decreases n - i,
    {
        let d = target.key_at(i);
        let wanted = *target.value_at(i);
        let got = amount_of(have, &d);
        if got < wanted {
            proof {
                assert(change_outputs(address, target@, have@, i as int + 1) is Err);
                lemma_change_stuck(address, target@, have@, i as int + 1, n as int);
            }
            return Err(PrepareError::InsufficientFunds(d));
        }
        let surplus = got - wanted;
        let ghost before = coins_view(change@);
        if surplus >= 2 {
            let first = surplus / 2;
            change.push(make_change_coin(address, d, first));
            change.push(make_change_coin(address, d, surplus - first));
        } else if surplus > 0 || d.same(&Denom::Mel) {
            change.push(make_change_coin(address, d, surplus));
        }
        assert(coins_view(change@) =~= before + change_for(address, d, surplus));
        i += 1;
    }
    Ok(change)
}

/// Whether a transaction keeps the chain's bounds on values and sizes.
pub fn is_well_formed(tx: &Tx) -> (r: bool)
    ensures
        r == well_formed(tx@),
{
    if tx.fee > MAX_COINVAL || tx.outputs.len() > 255 {
        return false;
    }
    let mut i: usize = 0;
    while i < tx.outputs.len()
        invariant
            i <= tx.outputs.len(),
            forall|j: int| 0 <= j < i ==> (#[trigger] tx@.outputs[j]).value <= MAX_COINVAL,
        decreases tx.outputs.len() - i,
    {
        if tx.outputs[i].value > MAX_COINVAL {
            assert(tx@.outputs[i as int].value > MAX_COINVAL);
            return false;
        }
        i += 1;
    }
    true
}

/// Builds the unsigned candidate for a trial fee.
pub fn build_unsigned(job: &PrepareJob, fee: u128) -> (r: Attempt)
    ensures
        attempt_view(r) == unsigned_candidate(job@, fee),
{
    let asked = sum_outputs(&job.outputs, fee);
    let given = sum_mandatory(&job.mandatory);
    let (mut target, mut have) = match (asked, given) {
        (Some(a), Some(g)) => (a, g),
        _ => {
            return Err(PrepareError::NotWellFormed);
        },
    };
    keep_balanced(&mut target, &job.nobalance);
    keep_balanced(&mut have, &job.nobalance);
    let mut inputs: Vec<CoinId> = Vec::new();
    let mut k: usize = 0;
    while k < job.mandatory.len()
        invariant
            k <= job.mandatory.len(),
            inputs@.len() == k,
            forall|j: int| 0 <= j < k ==> inputs@[j] == job.mandatory@[j].0,
        decreases job.mandatory.len() - k,
    {
        inputs.push(job.mandatory[k].0);
        k += 1;
    }
    assert(inputs@ =~= mandatory_ids(job@.mandatory));
    if !select_inputs(job, &target, &mut inputs, &mut have) {
        return Err(PrepareError::NotWellFormed);
    }
    let change = match make_change(job.address, &target, &have) {
        Ok(c) => c,
        Err(e) => {
            return Err(e);
        },
    };
    let mut outputs = clone_coins(&job.outputs);
    let ghost asked_for = coins_view(outputs@);
    let ghost extra = coins_view(change@);
    let mut c: usize = 0;
    while c < change.len()
        invariant
            c <= change.len(),
            extra == coins_view(change@),
            coins_view(outputs@) == asked_for + extra.take(c as int),
        decreases change.len() - c,
    {
        let ghost before = coins_view(outputs@);
        outputs.push(change[c].duplicate());
        assert(coins_view(outputs@) =~= before.push(change@[c as int]@));
        assert(extra.take(c as int + 1) =~= extra.take(c as int).push(extra[c as int]));
        c += 1;
    }
    assert(extra.take(change@.len() as int) =~= extra);
    let mut covenants: Vec<Vec<u8>> = Vec::new();
    covenants.push(clone_bytes(&job.covenant));
    assert(blobs_view(covenants@) =~= seq![job@.covenant]);
    let tx = Tx {
        kind: TxKind::Normal,
        inputs,
        outputs,
        fee,
        covenants,
        data: Vec::new(),
        sigs: Vec::new(),
    };
    assert(tx@.sigs =~= Seq::empty());
    if tx.inputs.len() > MAX_INPUTS {
        return Err(PrepareError::TooManyInputs);
    }
    if !is_well_formed(&tx) {
        return Err(PrepareError::NotWellFormed);
    }
    Ok(tx)
}

/// Once signing has failed, the transaction stays unsigned.
proof fn lemma_signed_stuck<S: Signer>(key: S::Key, tx: TxView, n: int, m: int)
    requires
        0 <= n <= m,
        signed_upto::<S>(key, tx, n) is None,
    ensures
        signed_upto::<S>(key, tx, m) is None,
    decreases m,
{
    if n < m {
        lemma_signed_stuck::<S>(key, tx, n, m - 1);
    }
}

/// The minimum fee is at most the largest 128-bit number divided by 65536.
pub proof fn lemma_fee_for_weight_bound(weight: u128, fee_multiplier: u128, ballast: u128)
    ensures
        fee_for_weight(weight, fee_multiplier, ballast) <= u128::MAX / 65536,
{
}

/// Applies the caller's policy to a candidate.
pub fn apply_policy(policy: &SigningPolicy, tx: Tx) -> (r: Tx)
    ensures
        r@ == policy_applied(policy@, tx@),
{
    let mut t = tx;
    let ghost before = t@;
    match policy.kind {
        Some(k) => {
            t.kind = k;
        },
        None => {},
    }
    match &policy.data {
        Some(d) => {
            t.data = clone_bytes(d);
        },
        None => {},
    }
    let ghost own = blobs_view(t.covenants@);
    let ghost more = blobs_view(policy.covenants@);
    let mut i: usize = 0;
    while i < policy.covenants.len()
        invariant
            i <= policy.covenants.len(),
            more == blobs_view(policy.covenants@),
            blobs_view(t.covenants@) == own + more.take(i as int),
            t@ == (TxView {
                covenants: blobs_view(t.covenants@),
                ..policy_applied(policy@, before)
            }),
        decreases policy.covenants.len() - i,
    {
        let ghost prev = blobs_view(t.covenants@);
        t.covenants.push(clone_bytes(&policy.covenants[i]));
        assert(blobs_view(t.covenants@) =~= prev.push(policy.covenants@[i as int]@));
        assert(more.take(i as int + 1) =~= more.take(i as int).push(more[i as int]));
        i += 1;
    }
    assert(more.take(policy.covenants@.len() as int) =~= more);
    t
}

/// Signs every input of a transaction in turn.
pub fn sign_all<S: Signer>(signer: &mut S, tx: Tx) -> (r: Option<Tx>)
    requires
        old(signer).wf(),
    ensures
        final(signer).wf(),
        final(signer).key() == old(signer).key(),
        match r {
            Some(t) => signed_upto::<S>(old(signer).key(), tx@, tx@.inputs.len() as int) == Some(
                t@,
            ),
            None => signed_upto::<S>(old(signer).key(), tx@, tx@.inputs.len() as int) is None,
        },
{
    let ghost orig = tx@;
    let ghost key = signer.key();
    let n = tx.inputs.len();
    let mut t = tx;
    let mut i: usize = 0;
    while i < n
        invariant
            i <= n,
            n == orig.inputs.len(),
            orig == tx@,
            signer.wf(),
            signer.key() == key,
            key == old(signer).key(),
            signed_upto::<S>(key, orig, i as int) == Some(t@),
        decreases n - i,
    {
        match signer.sign_tx(t, i) {
            Ok(s) => {
                t = s;
            },
            Err(_) => {
                proof {
                    assert(signed_upto::<S>(key, orig, i as int + 1) is None);
                    lemma_signed_stuck::<S>(key, orig, i as int + 1, n as int);
                }
                return None;
            },
        }
        i += 1;
    }
    Some(t)
}

/// Tries a fee: builds the candidate, signs it, and says whether the fee
/// is within the tolerance of the minimum fee of the signed candidate.
pub fn gen_transaction<S: Signer>(job: &PrepareJob, policy: &SigningPolicy, signer: &mut S, fee: u128) -> (r:
    Candidate)
    requires
        old(signer).wf(),
    ensures
        final(signer).wf(),
        final(signer).key() == old(signer).key(),
        r@ == candidate::<S>(job@, policy@, old(signer).key(), fee),
{
    let tx = match build_unsigned(job, fee) {
        Ok(tx) => tx,
        Err(e) => {
            return Candidate::High(Err(e));
        },
    };
    let signed = match sign_all(signer, apply_policy(policy, tx)) {
        Some(t) => t,
        None => {
            return Candidate::Low(Err(PrepareError::InvalidSignature));
        },
    };
    let base = match signed.checked_base_fee(job.fee_multiplier, job.fee_ballast) {
        Some(b) => b,
        None => {
            return Candidate::High(Err(PrepareError::NotWellFormed));
        },
    };
    proof {
        lemma_fee_for_weight_bound(
            tx_weight(signed@),
            job.fee_multiplier,
            job.fee_ballast,
        );
    }
    if signed.fee <= base * 21 / 20 {
        Candidate::Low(Ok(signed))
    } else {
        Candidate::High(Ok(signed))
    }
}

/// The sum, saturating, of the Mel among the unspent coins.
fn sum_mel(unspent: &Vec<(CoinId, CoinData)>) -> (r: u128)
    ensures
        r == mel_total(coin_entries(unspent@), unspent@.len() as int),
{
    let mut total: u128 = 0;
    let mut i: usize = 0;
    while i < unspent.len()
        invariant
            i <= unspent.len(),
            total == mel_total(coin_entries(unspent@), i as int),
        decreases unspent.len() - i,
    {
        if unspent[i].1.denom.same(&Denom::Mel) {
            total = total.saturating_add(unspent[i].1.value);
        }
        i += 1;
    }
    total
}

/// Prepares a transaction for a job: tries fee 0, which gives the bound
/// of the search, then searches the fees below the bound and returns what
/// the last low fee gave, fee 0 among them, or the last error where no
/// low fee gave a transaction.
pub fn prepare_job<S: Signer>(job: &PrepareJob, policy: &SigningPolicy, signer: &mut S) -> (r: Attempt)
    requires
        old(signer).wf(),
    ensures
        final(signer).wf(),
        final(signer).key() == old(signer).key(),
        attempt_view(r) == prepared::<S>(job@, policy@, old(signer).key()),
{
    let ghost key = signer.key();
    let (first, first_is_low) = match gen_transaction(job, policy, signer, 0) {
        Candidate::Low(a) => (a, true),
        Candidate::High(a) => (a, false),
    };
    let mut last_error = PrepareError::InsufficientFunds(Denom::Mel);
    let max_fee = match &first {
        Ok(t) => {
            assert(weights_fit(t@));
            proof {
                lemma_fee_for_weight_bound(
                    tx_weight(t@),
                    job.fee_multiplier,
                    job.fee_ballast,
                );
            }
            t.base_fee(job.fee_multiplier, job.fee_ballast) * 3 + 100
        },
        Err(e) => {
            last_error = *e;
            sum_mel(&job.unspent)
        },
    };
    let mut lo: u128 = 0;
    let mut low: Attempt = if first_is_low {
        first
    } else {
        Err(PrepareError::InsufficientFunds(Denom::Mel))
    };
    let mut hi: u128 = max_fee;
    let mut high: Attempt = Err(PrepareError::InsufficientFunds(Denom::Mel));
    let ghost start = search_start::<S>(job@, policy@, key);
    while hi > lo && hi - lo > 1
        invariant
            signer.wf(),
            signer.key() == key,
            search_end::<S>(
                job@,
                policy@,
                key,
                SearchView {
                    low_fee: lo,
                    low: attempt_view(low),
                    high_fee: hi,
                    high: attempt_view(high),
                    last_error,
                },
            ) == search_end::<S>(job@, policy@, key, start),
        decreases hi - lo,
    {
        let mid = lo + (hi - lo) / 2;
        match gen_transaction(job, policy, signer, mid) {
            Candidate::Low(a) => {
                match &a {
                    Err(e) => {
                        last_error = *e;
                    },
                    Ok(_) => {},
                }
                lo = mid;
                low = a;
            },
            Candidate::High(a) => {
                match &a {
                    Err(e) => {
                        last_error = *e;
                    },
                    Ok(_) => {},
                }
                hi = mid;
                high = a;
            },
        }
    }
    match low {
        Ok(t) => Ok(t),
        Err(_) => Err(last_error),
    }
}

/// What the node reported for a coin among its first `n` answers, the
/// later answer winning.
pub open spec fn reported(node: Seq<(CoinId, CoinDataHeightView)>, id: CoinId, n: int) -> Option<
    CoinDataHeightView,
>
    decreases n,
{
    if n <= 0 {
        None
    } else if node[n - 1].0 == id {
        Some(node[n - 1].1)
    } else {
        reported(node, id, n - 1)
    }
}

/// The coins of the first `n` inputs that the caller named, each once: the
/// store's confirmed coin where it has one, else what the node reported.
/// The first input that neither knows is the error.
pub open spec fn resolved(
    db: DatabaseView,
    inputs: Seq<CoinId>,
    node: Seq<(CoinId, CoinDataHeightView)>,
    n: int,
) -> Result<Seq<(CoinId, CoinDataHeightView)>, PrepareError>
    decreases n,
{
    if n <= 0 {
        Ok(Seq::empty())
    } else {
        match resolved(db, inputs, node, n - 1) {
            Err(e) => Err(e),
            Ok(m) => {
                let id = inputs[n - 1];
                if is_mandatory(m, id) {
                    Ok(m)
                } else {
                    match db.coin_confirmation(id) {
                        Some(c) => Ok(m.push((id, c))),
                        None => match reported(node, id, node.len() as int) {
                            Some(c) => Ok(m.push((id, c))),
                            None => Err(PrepareError::InputNotFound(id)),
                        },
                    }
                }
            },
        }
    }
}

/// The first input that cannot be resolved is the one that is reported.
proof fn lemma_resolved_stuck(
    db: DatabaseView,
    inputs: Seq<CoinId>,
    node: Seq<(CoinId, CoinDataHeightView)>,
    n: int,
    m: int,
)
    requires
        0 <= n <= m,
        resolved(db, inputs, node, n) is Err,
    ensures
        resolved(db, inputs, node, m) == resolved(db, inputs, node, n),
    decreases m,
{
    if n < m {
        lemma_resolved_stuck(db, inputs, node, n, m - 1);
    }
}

/// The coins among the first `n` inputs that the store cannot resolve,
/// each once and in their order.
pub open spec fn unresolved(db: DatabaseView, inputs: Seq<CoinId>, n: int) -> Seq<CoinId>
    decreases n,
{
    if n <= 0 {
        Seq::empty()
    } else {
        let before = unresolved(db, inputs, n - 1);
        if db.coin_confirmation(inputs[n - 1]) is None && !before.contains(inputs[n - 1]) {
            before.push(inputs[n - 1])
        } else {
            before
        }
    }
}

/// The job of a wallet for the given request.
pub open spec fn job_of(
    wallet: WalletView,
    db: DatabaseView,
    mandatory: Seq<(CoinId, CoinDataHeightView)>,
    outputs: Seq<CoinDataView>,
    fee_multiplier: u128,
    nobalance: Seq<Denom>,
    fee_ballast: usize,
) -> PrepareJobView {
    PrepareJobView {
        address: wallet.covhash,
        covenant: wallet.covenant,
        mandatory,
        unspent: db.coin_mapping(wallet.covhash, true, false),
        outputs,
        fee_multiplier,
        nobalance: nobalance.push(Denom::NewCustom),
        fee_ballast: fee_ballast as u128,
    }
}

/// What `Wallet::prepare` returns.
pub open spec fn prepare_outcome<S: Signer>(
    wallet: WalletView,
    db: DatabaseView,
    inputs: Seq<CoinId>,
    outputs: Seq<CoinDataView>,
    fee_multiplier: u128,
    policy: SigningPolicyView,
    key: S::Key,
    nobalance: Seq<Denom>,
    fee_ballast: usize,
    node: Seq<(CoinId, CoinDataHeightView)>,
) -> AttemptView {
    match resolved(db, inputs, node, inputs.len() as int) {
        Err(e) => Err(e),
        Ok(mandatory) => prepared::<S>(
            job_of(wallet, db, mandatory, outputs, fee_multiplier, nobalance, fee_ballast),
            policy,
            key,
        ),
    }
}

impl Wallet {
    /// The inputs that the store cannot resolve by itself, each once and in
    /// the order in which the caller named them: the coins to ask the node
    /// for before a transaction is prepared.
    pub fn unresolved_inputs(&self, db: &Database, inputs: &Vec<CoinId>) -> (r: Vec<CoinId>)
        requires
            db.wf(),
        ensures
            r@ == unresolved(db@, inputs@, inputs@.len() as int),
    {
        let mut out: Vec<CoinId> = Vec::new();
        let mut i: usize = 0;
        while i < inputs.len()
            invariant
                i <= inputs.len(),
                db.wf(),
                out@ == unresolved(db@, inputs@, i as int),
            decreases inputs.len() - i,
        {
            let id = inputs[i];
            if self.get_coin_confirmation(db, id).is_none() {
                let mut seen = false;
                let mut k: usize = 0;
                while k < out.len()
                    invariant
                        k <= out.len(),
                        seen <==> exists|m: int| 0 <= m < k && out@[m] == id,
                    decreases out.len() - k,
                {
                    if out[k].same(&id) {
                        seen = true;
                    }
                    k += 1;
                }
                assert(seen == out@.contains(id));
                if !seen {
                    out.push(id);
                }
            }
            i += 1;
        }
        out
    }

    /// Resolves the inputs that the caller named: each to the store's
    /// confirmed coin, or else to what the node reported for it.
    pub fn resolve_inputs(
        &self,
        db: &Database,
        inputs: &Vec<CoinId>,
        node_coins: &Vec<(CoinId, CoinDataHeight)>,
    ) -> (r: Result<Vec<(CoinId, CoinDataHeight)>, PrepareError>)
        requires
            db.wf(),
        ensures
            match r {
                Ok(m) => resolved(
                    db@,
                    inputs@,
                    reported_coins(node_coins@),
                    inputs@.len() as int,
                ) == Ok::<Seq<(CoinId, CoinDataHeightView)>, PrepareError>(reported_coins(m@)),
                Err(e) => resolved(
                    db@,
                    inputs@,
                    reported_coins(node_coins@),
                    inputs@.len() as int,
                ) == Err::<Seq<(CoinId, CoinDataHeightView)>, PrepareError>(e),
            },
    {
        let ghost node = reported_coins(node_coins@);
        let mut out: Vec<(CoinId, CoinDataHeight)> = Vec::new();
        let mut i: usize = 0;
        assert(reported_coins(out@) =~= Seq::empty());
        while i < inputs.len()
            invariant
                i <= inputs.len(),
                db.wf(),
                node == reported_coins(node_coins@),
                resolved(db@, inputs@, node, i as int) == Ok::<
                    Seq<(CoinId, CoinDataHeightView)>,
                    PrepareError,
                >(reported_coins(out@)),
            decreases inputs.len() - i,
        {
            let id = inputs[i];
            if !coin_is_mandatory(&out, &id) {
                let ghost before = reported_coins(out@);
                match self.get_coin_confirmation(db, id) {
                    Some(c) => {
                        out.push((id, c));
                        assert(reported_coins(out@) =~= before.push((id, c@)));
                    },
                    None => {
                        let mut found: Option<CoinDataHeight> = None;
                        let mut k: usize = 0;
                        while k < node_coins.len()
                            invariant
                                k <= node_coins.len(),
                                node == reported_coins(node_coins@),
                                match found {
                                    Some(c) => reported(node, id, k as int) == Some(c@),
                                    None => reported(node, id, k as int) is None,
                                },
                            decreases node_coins.len() - k,
                        {
                            if node_coins[k].0.same(&id) {
                                found = Some(node_coins[k].1.duplicate());
                            }
                            k += 1;
                        }
                        match found {
                            Some(c) => {
                                out.push((id, c));
                                assert(reported_coins(out@) =~= before.push((id, c@)));
                            },
                            None => {
                                proof {
                                    assert(resolved(db@, inputs@, node, i as int + 1) is Err);
                                    lemma_resolved_stuck(
                                        db@,
                                        inputs@,
                                        node,
                                        i as int + 1,
                                        inputs@.len() as int,
                                    );
                                }
                                return Err(PrepareError::InputNotFound(id));
                            },
                        }
                    },
                }
            }
            i += 1;
        }
        Ok(out)
    }

    /// Prepares a transaction that spends `inputs` and whatever else of
    /// the wallet's confirmed unspent coins the outputs need, pays change
    /// back to the wallet, and carries the fee that the search finds.
    /// `node_coins` holds what the node knows of the inputs that the store
    /// cannot resolve.
    pub fn prepare<S: Signer>(
        &self,
        db: &Database,
        inputs: &Vec<CoinId>,
        outputs: Vec<CoinData>,
        fee_multiplier: u128,
        policy: &SigningPolicy,
        signer: &mut S,
        nobalance: Vec<Denom>,
        fee_ballast: usize,
        node_coins: &Vec<(CoinId, CoinDataHeight)>,
    ) -> (r: Attempt)
        requires
            db.wf(),
            old(signer).wf(),
        ensures
            final(signer).wf(),
            final(signer).key() == old(signer).key(),
            attempt_view(r) == prepare_outcome::<S>(
                self@,
                db@,
                inputs@,
                coins_view(outputs@),
                fee_multiplier,
                policy@,
                old(signer).key(),
                nobalance@,
                fee_ballast,
                reported_coins(node_coins@),
            ),
    {
        let mandatory = match self.resolve_inputs(db, inputs, node_coins) {
            Ok(m) => m,
            Err(e) => {
                return Err(e);
            },
        };
        let mut nobalance = nobalance;
        nobalance.push(Denom::NewCustom);
        let job = PrepareJob {
            address: self.address(),
            covenant: self.covenant(),
            mandatory,
            unspent: self.get_coin_mapping(db, true, false),
            outputs,
            fee_multiplier,
            nobalance,
            fee_ballast: fee_ballast as u128,
        };
        prepare_job(&job, policy, signer)
    }
}

} // verus!
