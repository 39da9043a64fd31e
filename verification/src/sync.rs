//! Network synchronization: what to ask the node for, how its answers are
//! gathered, and how a wallet catches up with the chain.

use vstd::prelude::*;
use crate::coins::{CoinDataHeight, CoinDataHeightView, Tx, TxView};
use crate::database::{reported_coins, txs_view, Database, DatabaseView, Wallet};
use crate::hashes::{Address, CoinId, TxHash};

verus! {

/// The number of blocks behind the tip beyond which a wallet is
/// synchronized in full.
pub const FULL_SYNC_DISTANCE: u64 = 1000;

/// How a wallet catches up with the chain.
#[derive(Clone, Copy, Debug, PartialEq, Eq)]
pub enum SyncPlan {
    /// The watermark has reached the tip: there is nothing to do.
    UpToDate,
    /// The wallet never synchronized or is too far behind: all its coins
    /// are fetched anew.
    Full,
    /// The changes of the heights `from` to `to`, both included, are
    /// fetched and applied.
    Incremental { from: u64, to: u64 },
}

/// The plan for a wallet whose watermark is `latest` when the chain's tip
/// is at height `tip`.
pub open spec fn plan_for(latest: u64, tip: u64) -> SyncPlan {
    if latest == 0 || tip - latest > FULL_SYNC_DISTANCE {
        SyncPlan::Full
    } else if tip <= latest {
        SyncPlan::UpToDate
    } else {
        SyncPlan::Incremental { from: (latest + 1) as u64, to: tip }
    }
}

/// The plan for a wallet whose watermark is `latest` when the chain's tip
/// is at height `tip`.
pub fn sync_plan(latest: u64, tip: u64) -> (r: SyncPlan)
    ensures
        r == plan_for(latest, tip),
{
    if latest == 0 || tip.saturating_sub(latest) > FULL_SYNC_DISTANCE {
        SyncPlan::Full
    } else if tip <= latest {
        SyncPlan::UpToDate
    } else {
        SyncPlan::Incremental { from: latest + 1, to: tip }
    }
}

/// One change to the coins of an address in a block.
#[derive(Clone, Copy, Debug, PartialEq, Eq)]
pub enum CoinChange {
    /// A coin of the address was created.
    Add(CoinId),
    /// A coin of the address was spent by the given transaction.
    Delete(CoinId, TxHash),
}

/// What to ask the node for, at the block's height, because of a change.
#[derive(Clone, Copy, Debug, PartialEq, Eq)]
pub enum NodeQuery {
    /// The coin with its confirmation height.
    Coin(CoinId),
    /// The transaction.
    Transaction(TxHash),
}

/// What the node answered to a query.
#[derive(Clone, Debug)]
pub enum NodeAnswer {
    Coin(Option<CoinDataHeight>),
    Transaction(Option<Tx>),
}

/// Why a synchronization was given up. Nothing is written then.
#[derive(Clone, Copy, Debug, PartialEq, Eq)]
pub enum SyncError {
    /// The node reported a coin as created but does not have it.
    CoinNotFound(CoinId),
    /// The node reported a coin as spent but does not have the spender.
    TransactionNotFound(TxHash),
    /// The answer is of another kind than the query.
    WrongAnswer,
    /// The data handed over is not what the plan asks for.
    WrongData,
}

/// What to ask the node for because of a change.
pub open spec fn query_of(change: CoinChange) -> NodeQuery {
    match change {
        CoinChange::Add(id) => NodeQuery::Coin(id),
        CoinChange::Delete(_, spender) => NodeQuery::Transaction(spender),
    }
}

/// What to ask the node for because of a change.
pub fn query_for(change: &CoinChange) -> (r: NodeQuery)
    ensures
        r == query_of(*change),
{
    match change {
        CoinChange::Add(id) => NodeQuery::Coin(*id),
        CoinChange::Delete(_, spender) => NodeQuery::Transaction(*spender),
    }
}

/// What to ask the node for because of the changes of one block, one
/// query for each change and in the same order.
pub fn queries_for(changes: &Vec<CoinChange>) -> (r: Vec<NodeQuery>)
    ensures
        r@.len() == changes@.len(),
        forall|i: int| 0 <= i < r@.len() ==> r@[i] == query_of(changes@[i]),
{
    let mut out: Vec<NodeQuery> = Vec::new();
    let mut i: usize = 0;
    while i < changes.len()
        invariant
            i <= changes.len(),
            out@.len() == i,
            forall|j: int| 0 <= j < i ==> out@[j] == query_of(changes@[j]),
        decreases changes.len() - i,
    {
        out.push(query_for(&changes[i]));
        i += 1;
    }
    out
}

/// What was gathered for an incremental synchronization, as contracts see
/// it.
pub struct SyncBatchView {
    pub coins: Seq<(CoinId, CoinDataHeightView)>,
    pub spenders: Seq<TxView>,
}

/// What was gathered for an incremental synchronization: the coins that
/// were created and the transactions that spent coins.
pub struct SyncBatch {
    coins: Vec<(CoinId, CoinDataHeight)>,
    spenders: Vec<Tx>,
}

impl View for SyncBatch {
    type V = SyncBatchView;

    closed spec fn view(&self) -> SyncBatchView {
        SyncBatchView { coins: reported_coins(self.coins@), spenders: txs_view(self.spenders@) }
    }
}

/// The answer to the query of a change, as contracts see it.
pub enum NodeAnswerView {
    Coin(Option<CoinDataHeightView>),
    Transaction(Option<TxView>),
}

impl View for NodeAnswer {
    type V = NodeAnswerView;

    open spec fn view(&self) -> NodeAnswerView {
        match *self {
            NodeAnswer::Coin(Some(c)) => NodeAnswerView::Coin(Some(c@)),
            NodeAnswer::Coin(None) => NodeAnswerView::Coin(None),
            NodeAnswer::Transaction(Some(t)) => NodeAnswerView::Transaction(Some(t@)),
            NodeAnswer::Transaction(None) => NodeAnswerView::Transaction(None),
        }
    }
}

/// The batch after the answer to the query of a change was taken in, or
/// why the synchronization is given up.
pub open spec fn absorbed(batch: SyncBatchView, change: CoinChange, answer: NodeAnswerView) -> Result<
    SyncBatchView,
    SyncError,
> {
    match (change, answer) {
        (CoinChange::Add(id), NodeAnswerView::Coin(Some(c))) => Ok(
            SyncBatchView { coins: batch.coins.push((id, c)), ..batch },
        ),
        (CoinChange::Add(id), NodeAnswerView::Coin(None)) => Err(SyncError::CoinNotFound(id)),
        (CoinChange::Delete(_, _), NodeAnswerView::Transaction(Some(t))) => Ok(
            SyncBatchView { spenders: batch.spenders.push(t), ..batch },
        ),
        (CoinChange::Delete(_, spender), NodeAnswerView::Transaction(None)) => Err(
            SyncError::TransactionNotFound(spender),
        ),
        _ => Err(SyncError::WrongAnswer),
    }
}

impl SyncBatch {
    /// A batch that holds nothing.
    pub fn new() -> (b: SyncBatch)
        ensures
            b@.coins.len() == 0,
            b@.spenders.len() == 0,
    {
        SyncBatch { coins: Vec::new(), spenders: Vec::new() }
    }

    /// Takes in the node's answer to the query of a change: a created
    /// coin is kept with its identifier, a spender is kept. Where the node
    /// has not what it reported, or the answer is of the wrong kind, the
    /// batch stays as it is and the error says what is missing.
    pub fn absorb(&mut self, change: &CoinChange, answer: NodeAnswer) -> (r: Result<(), SyncError>)
        ensures
            match absorbed(old(self)@, *change, answer@) {
                Ok(b) => r is Ok && final(self)@ == b,
                Err(e) => r == Err::<(), SyncError>(e) && final(self)@ == old(self)@,
            },
    {
        let ghost before = self@;
        match (change, answer) {
            (CoinChange::Add(id), NodeAnswer::Coin(Some(c))) => {
                let ghost cv = c@;
                self.coins.push((*id, c));
                assert(self@.coins =~= before.coins.push((*id, cv)));
                Ok(())
            },
            (CoinChange::Add(id), NodeAnswer::Coin(None)) => Err(SyncError::CoinNotFound(*id)),
            (CoinChange::Delete(_, _), NodeAnswer::Transaction(Some(t))) => {
                let ghost tv = t@;
                self.spenders.push(t);
                assert(self@.spenders =~= before.spenders.push(tv));
                Ok(())
            },
            (CoinChange::Delete(_, spender), NodeAnswer::Transaction(None)) => Err(
                SyncError::TransactionNotFound(*spender),
            ),
            _ => Err(SyncError::WrongAnswer),
        }
    }
}

/// What the node reported for a synchronization.
pub enum SyncData {
    /// Nothing was fetched.
    Nothing,
    /// All the coins of the wallet's address.
    Full(Vec<(CoinId, CoinDataHeight)>),
    /// The changes since the watermark.
    Incremental(SyncBatch),
}

/// What the node reported for a synchronization, as contracts see it.
pub enum SyncDataView {
    Nothing,
    Full(Seq<(CoinId, CoinDataHeightView)>),
    Incremental(SyncBatchView),
}

impl View for SyncData {
    type V = SyncDataView;

    open spec fn view(&self) -> SyncDataView {
        match *self {
            SyncData::Nothing => SyncDataView::Nothing,
            SyncData::Full(coins) => SyncDataView::Full(reported_coins(coins@)),
            SyncData::Incremental(batch) => SyncDataView::Incremental(batch@),
        }
    }
}

/// Whether the data is what the plan asks for.
pub open spec fn data_fits(plan: SyncPlan, data: SyncDataView) -> bool {
    match plan {
        SyncPlan::UpToDate => true,
        SyncPlan::Full => data is Full,
        SyncPlan::Incremental { .. } => data is Incremental,
    }
}

/// The store after the wallet at `address` caught up with a chain whose
/// tip is at height `tip`: nothing changes where the watermark has reached
/// the tip or the data is not what the plan asks for; else the full or the
/// incremental synchronization is applied.
pub open spec fn synced(db: DatabaseView, address: Address, tip: u64, data: SyncDataView) -> DatabaseView {
    match (plan_for(db.sync_height(address), tip), data) {
        (SyncPlan::Full, SyncDataView::Full(coins)) => db.full_sync(address, coins, tip),
        (SyncPlan::Incremental { .. }, SyncDataView::Incremental(batch)) => db.incremental_sync(
            address,
            batch.coins,
            batch.spenders,
            tip,
        ),
        _ => db,
    }
}

impl Wallet {
    /// How this wallet catches up with a chain whose tip is at `tip`.
    pub fn sync_plan(&self, db: &Database, tip: u64) -> (r: SyncPlan)
        requires
            db.wf(),
        ensures
            r == plan_for(db@.sync_height(self@.covhash), tip),
    {
        sync_plan(db.sync_height(self.address()), tip)
    }

    /// Updates the store with what the node reported. The wallet is
    /// synchronized in full where it never was or is more than 1000 blocks
    /// behind, not at all where its watermark has reached the tip, and
    /// step by step otherwise. All of an update is written, or, where the
    /// data is not what the plan asks for, nothing.
    pub fn network_sync(&self, db: &mut Database, tip: u64, data: &SyncData) -> (r: Result<
        (),
        SyncError,
    >)
        requires
            old(db).wf(),
        ensures
            final(db).wf(),
            final(db)@ == synced(old(db)@, self@.covhash, tip, data@),
            r is Ok <==> data_fits(plan_for(old(db)@.sync_height(self@.covhash), tip), data@),
            r is Err ==> r == Err::<(), SyncError>(SyncError::WrongData),
            old(db)@.consistent() ==> final(db)@.consistent(),
    {
        match self.sync_plan(db, tip) {
            SyncPlan::UpToDate => Ok(()),
            SyncPlan::Full => match data {
                SyncData::Full(coins) => {
                    self.full_sync(db, coins, tip);
                    Ok(())
                },
                _ => Err(SyncError::WrongData),
            },
            SyncPlan::Incremental { .. } => match data {
                SyncData::Incremental(batch) => {
                    self.incremental_sync(db, &batch.coins, &batch.spenders, tip);
                    Ok(())
                },
                _ => Err(SyncError::WrongData),
            },
        }
    }
}

} // verus!
