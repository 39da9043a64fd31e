//! What holds of the wallet store after its updates, whatever it held before.

use vstd::prelude::*;
use crate::coins::{CoinDataHeightView, CoinDataView, TxKind, TxView};
use crate::database::{of_other_wallet, recorded_output, reported_coin_entries, reported_confirmations};
use crate::database::{
    not_expired, not_landed, other_address, output_coin_entries, output_id, output_pending_entries,
    outputs_with_id,
    spend_entries, still_pending, DatabaseView,
};
use crate::hashes::{Address, CoinId, TxHash};
use crate::sync::{data_fits, plan_for, synced, SyncDataView, SyncPlan};
use crate::table::{
    has_key, inserted, lemma_inserted, lemma_inserted_all, lemma_inserted_all_at,
    lemma_inserted_all_entries, lemma_inserted_all_present, lemma_kept,
    lemma_push_entry, lemma_retained, lookup, position, retained, Entry,
};

verus! {

/// After a synchronization at height `tip`, full or incremental, the
/// watermark of the wallet's address is `tip`.
pub proof fn lemma_sync_sets_watermark(
    db: DatabaseView,
    address: Address,
    coins: Seq<(CoinId, CoinDataHeightView)>,
    spenders: Seq<TxView>,
    tip: u64,
)
    requires
        db.wf(),
    ensures
        lookup(db.incremental_sync(address, coins, spenders, tip).sync_heights, address) == Some(tip),
        db.incremental_sync(address, coins, spenders, tip).sync_height(address) == tip,
        lookup(db.full_sync(address, coins, tip).sync_heights, address) == Some(tip),
        db.full_sync(address, coins, tip).sync_height(address) == tip,
{
    let others = retained(db.sync_heights, other_address(address));
    lemma_retained(db.sync_heights, other_address(address));
    assert(lookup(others, address) is None);
    lemma_push_entry(others, Entry { key: address, value: tip });
    assert(lookup(others.push(Entry { key: address, value: tip }), address) == Some(tip));
}

/// After a wallet caught up with a chain whose tip is at `tip`, its
/// watermark is `tip`, unless the watermark was beyond the tip already.
pub proof fn lemma_network_sync_sets_watermark(
    db: DatabaseView,
    address: Address,
    tip: u64,
    data: SyncDataView,
)
    requires
        db.wf(),
        data_fits(plan_for(db.sync_height(address), tip), data),
        db.sync_height(address) <= tip,
    ensures
        synced(db, address, tip, data).sync_height(address) == tip,
{
    match (plan_for(db.sync_height(address), tip), data) {
        (SyncPlan::Full, SyncDataView::Full(coins)) => {
            lemma_sync_sets_watermark(db, address, coins, Seq::empty(), tip);
        },
        (SyncPlan::Incremental { .. }, SyncDataView::Incremental(batch)) => {
            lemma_sync_sets_watermark(db, address, batch.coins, batch.spenders, tip);
        },
        _ => {},
    }
}

/// Right after a transaction was recorded as sent it is pending, and each
/// output of an ordinary transaction that has a coin identifier is a
/// pending coin.
pub proof fn lemma_commit_sent_is_pending(db: DatabaseView, tx: TxView, expires: u64)
    requires
        db.wf(),
    ensures
        has_key(db.commit_sent(tx, expires).pending, tx.hash_nosigs()),
        tx.kind == TxKind::Normal ==> forall|i: int|
            0 <= i < outputs_with_id(tx) ==> has_key(
                db.commit_sent(tx, expires).pending_coins,
                #[trigger] output_id(tx, i),
            ),
{
    let after = db.commit_sent(tx, expires);
    lemma_inserted(db.pending, Entry { key: tx.hash_nosigs(), value: expires });
    if tx.kind == TxKind::Normal {
        let es = output_pending_entries(tx);
        lemma_inserted_all(db.pending_coins, es, outputs_with_id(tx));
        assert forall|i: int| 0 <= i < outputs_with_id(tx) implies has_key(
            after.pending_coins,
            #[trigger] output_id(tx, i),
        ) by {
            assert(es[i].key == output_id(tx, i));
        }
    }
}

/// A transaction that was pending with an expiry below `tip` is, after an
/// incremental synchronization at `tip`, neither pending nor the
/// transaction of any pending coin.
pub proof fn lemma_sync_evicts_expired(
    db: DatabaseView,
    address: Address,
    coins: Seq<(CoinId, CoinDataHeightView)>,
    spenders: Seq<TxView>,
    tip: u64,
    h: TxHash,
)
    requires
        db.wf(),
        lookup(db.pending, h) matches Some(expires) && expires < tip,
    ensures
        !has_key(db.incremental_sync(address, coins, spenders, tip).pending, h),
        forall|i: int|
            0 <= i < db.incremental_sync(address, coins, spenders, tip).pending_coins.len() ==> (
            #[trigger] db.incremental_sync(address, coins, spenders, tip).pending_coins[i]).value
                != h,
{
    let after = db.incremental_sync(address, coins, spenders, tip);
    let pending1 = retained(db.pending, not_landed(coins));
    let pending2 = retained(pending1, not_expired(tip));
    lemma_retained(db.pending, not_landed(coins));
    lemma_retained(pending1, not_expired(tip));
    assert(lookup(pending1, h) == lookup(db.pending, h) || lookup(pending1, h) is None);
    assert(lookup(pending2, h) is None);
    assert(after.pending == pending2);
    lemma_kept(db.pending_coins, still_pending(pending2), db.pending_coins.len() as int);
}

/// A transaction that was pending with an expiry below `tip` is neither
/// pending nor the transaction of any pending coin after a wallet caught
/// up step by step with a chain whose tip is at `tip`. A wallet that is
/// synchronized in full evicts nothing.
pub proof fn lemma_network_sync_evicts_expired(
    db: DatabaseView,
    address: Address,
    tip: u64,
    data: SyncDataView,
    h: TxHash,
)
    requires
        db.wf(),
        plan_for(db.sync_height(address), tip) is Incremental,
        data is Incremental,
        lookup(db.pending, h) matches Some(expires) && expires < tip,
    ensures
        !has_key(synced(db, address, tip, data).pending, h),
        forall|i: int|
            0 <= i < synced(db, address, tip, data).pending_coins.len() ==> (
            #[trigger] synced(db, address, tip, data).pending_coins[i]).value != h,
{
    let batch = data->Incremental_0;
    lemma_sync_evicts_expired(db, address, batch.coins, batch.spenders, tip, h);
}

/// No coin listed as confirmed and unspent has a spend recorded against it.
pub proof fn lemma_unspent_has_no_spend(db: DatabaseView, address: Address, id: CoinId)
    requires
        db.wf(),
        has_key(db.coin_mapping(address, true, false), id),
    ensures
        !has_key(db.spends, id),
{
    let p = |e: Entry<CoinId, CoinDataView>| db.visible(address, true, false, e);
    let shown = db.coin_mapping(address, true, false);
    lemma_kept(db.coins, p, db.coins.len() as int);
    let i = position(shown, id);
    assert(p(shown[i]));
    assert(db.spend_allows(id, false));
}

/// Recording a transaction as sent a second time changes nothing.
pub proof fn lemma_commit_sent_twice(db: DatabaseView, tx: TxView, expires: u64)
    requires
        db.wf(),
    ensures
        db.commit_sent(tx, expires).commit_sent(tx, expires) == db.commit_sent(tx, expires),
{
    let h = tx.hash_nosigs();
    let once = db.commit_sent(tx, expires);
    let twice = once.commit_sent(tx, expires);
    lemma_inserted(db.transactions, Entry { key: h, value: tx });
    lemma_inserted(db.pending, Entry { key: h, value: expires });
    assert(twice.transactions == once.transactions);
    assert(twice.pending == once.pending);
    let n = tx.inputs.len() as int;
    lemma_inserted_all(db.spends, spend_entries(tx), n);
    lemma_inserted_all_present(once.spends, spend_entries(tx), n);
    assert(twice.spends == once.spends);
    if tx.kind == TxKind::Normal {
        let m = outputs_with_id(tx);
        lemma_inserted_all(db.coins, output_coin_entries(tx), m);
        lemma_inserted_all_present(once.coins, output_coin_entries(tx), m);
        lemma_inserted_all(db.pending_coins, output_pending_entries(tx), m);
        lemma_inserted_all_present(once.pending_coins, output_pending_entries(tx), m);
    }
    assert(twice.coins == once.coins);
    assert(twice.pending_coins == once.pending_coins);
}

/// Recording a transaction as sent keeps the rows in agreement with their
/// keys.
pub proof fn lemma_commit_sent_keeps_consistent(db: DatabaseView, tx: TxView, expires: u64)
    requires
        db.consistent(),
    ensures
        db.commit_sent(tx, expires).consistent(),
{
    let after = db.commit_sent(tx, expires);
    let h = tx.hash_nosigs();
    assert forall|i: int| 0 <= i < after.transactions.len() implies (
    #[trigger] after.transactions[i]).key == after.transactions[i].value.hash_nosigs() by {
        if i < db.transactions.len() {
            assert(after.transactions[i] == db.transactions[i]);
        }
    }
    if tx.kind == TxKind::Normal {
        let es = output_pending_entries(tx);
        lemma_inserted_all_entries(db.pending_coins, es, outputs_with_id(tx));
        assert forall|j: int| 0 <= j < after.pending_coins.len() implies (
        #[trigger] after.pending_coins[j]).value == after.pending_coins[j].key.txhash by {
            if j < db.pending_coins.len() {
                assert(after.pending_coins[j] == db.pending_coins[j]);
            } else {
                let i = choose|i: int| 0 <= i < outputs_with_id(tx) && es[i] == after.pending_coins[j];
                assert(es[i].key == output_id(tx, i));
            }
        }
    }
}

/// Caching a transaction under its hash keeps the rows in agreement with
/// their keys.
pub proof fn lemma_cache_keeps_consistent(db: DatabaseView, tx: TxView)
    requires
        db.consistent(),
    ensures
        (DatabaseView {
            transactions: inserted(db.transactions, Entry { key: tx.hash_nosigs(), value: tx }),
            ..db
        }).consistent(),
{
    let after = inserted(db.transactions, Entry { key: tx.hash_nosigs(), value: tx });
    assert forall|i: int| 0 <= i < after.len() implies (#[trigger] after[i]).key
        == after[i].value.hash_nosigs() by {
        if i < db.transactions.len() {
            assert(after[i] == db.transactions[i]);
        }
    }
}

/// A synchronization, full or incremental, keeps the rows in agreement
/// with their keys.
pub proof fn lemma_sync_keeps_consistent(
    db: DatabaseView,
    address: Address,
    coins: Seq<(CoinId, CoinDataHeightView)>,
    spenders: Seq<TxView>,
    tip: u64,
)
    requires
        db.consistent(),
    ensures
        db.full_sync(address, coins, tip).consistent(),
        db.incremental_sync(address, coins, spenders, tip).consistent(),
{
    let after = db.incremental_sync(address, coins, spenders, tip);
    let pending2 = retained(retained(db.pending, not_landed(coins)), not_expired(tip));
    lemma_kept(db.pending_coins, still_pending(pending2), db.pending_coins.len() as int);
    assert forall|j: int| 0 <= j < after.pending_coins.len() implies (
    #[trigger] after.pending_coins[j]).value == after.pending_coins[j].key.txhash by {
        let i = choose|i: int|
            0 <= i < db.pending_coins.len() && #[trigger] db.pending_coins[i]
                == after.pending_coins[j];
        assert(db.pending_coins[i].value == db.pending_coins[i].key.txhash);
    }
}

/// Catching up with the chain keeps the rows in agreement with their keys.
pub proof fn lemma_network_sync_keeps_consistent(
    db: DatabaseView,
    address: Address,
    tip: u64,
    data: SyncDataView,
)
    requires
        db.consistent(),
    ensures
        synced(db, address, tip, data).consistent(),
{
    match (plan_for(db.sync_height(address), tip), data) {
        (SyncPlan::Full, SyncDataView::Full(coins)) => {
            lemma_sync_keeps_consistent(db, address, coins, Seq::empty(), tip);
        },
        (SyncPlan::Incremental { .. }, SyncDataView::Incremental(batch)) => {
            lemma_sync_keeps_consistent(db, address, batch.coins, batch.spenders, tip);
        },
        _ => {},
    }
}

/// Right after an ordinary transaction was recorded as sent, each of its
/// outputs that has a coin identifier is a pending coin of that
/// transaction; and where the store held no coin under the identifier
/// before, it now holds the output there, a minted currency named by the
/// transaction.
pub proof fn lemma_commit_sent_records_outputs(db: DatabaseView, tx: TxView, expires: u64, i: int)
    requires
        db.wf(),
        db.consistent(),
        tx.kind == TxKind::Normal,
        0 <= i < outputs_with_id(tx),
    ensures
        lookup(db.commit_sent(tx, expires).pending_coins, output_id(tx, i)) == Some(
            tx.hash_nosigs(),
        ),
        !has_key(db.coins, output_id(tx, i)) ==> lookup(
            db.commit_sent(tx, expires).coins,
            output_id(tx, i),
        ) == Some(recorded_output(tx, i)),
{
    let after = db.commit_sent(tx, expires);
    let n = outputs_with_id(tx);
    let id = output_id(tx, i);
    let ps = output_pending_entries(tx);
    let cs = output_coin_entries(tx);
    assert(ps[i].key == id && cs[i].key == id);
    assert forall|a: int, b: int| 0 <= a < b < n implies (#[trigger] ps[a]).key != (
    #[trigger] ps[b]).key by {
        assert(ps[a].key == output_id(tx, a) && ps[b].key == output_id(tx, b));
    }
    assert forall|a: int, b: int| 0 <= a < b < n implies (#[trigger] cs[a]).key != (
    #[trigger] cs[b]).key by {
        assert(cs[a].key == output_id(tx, a) && cs[b].key == output_id(tx, b));
    }
    lemma_inserted_all(db.pending_coins, ps, n);
    if has_key(db.pending_coins, id) {
        let p = position(db.pending_coins, id);
        assert(db.pending_coins[p].value == db.pending_coins[p].key.txhash);
    } else {
        lemma_inserted_all_at(db.pending_coins, ps, n, i);
    }
    if !has_key(db.coins, id) {
        lemma_inserted_all_at(db.coins, cs, n, i);
    }
}

/// After a full synchronization every reported coin is known and
/// confirmed, and every coin of the wallet's address is a reported one.
pub proof fn lemma_full_sync_replaces_coins(
    db: DatabaseView,
    address: Address,
    coins: Seq<(CoinId, CoinDataHeightView)>,
    tip: u64,
)
    requires
        db.wf(),
    ensures
        forall|i: int|
            0 <= i < coins.len() ==> has_key(
                db.full_sync(address, coins, tip).coins,
                (#[trigger] coins[i]).0,
            ) && has_key(db.full_sync(address, coins, tip).coin_confirmations, coins[i].0),
        forall|j: int|
            0 <= j < db.full_sync(address, coins, tip).coins.len() && (
            #[trigger] db.full_sync(address, coins, tip).coins[j]).value.covhash == address
                ==> exists|i: int|
                0 <= i < coins.len() && (#[trigger] coins[i]).0 == db.full_sync(
                    address,
                    coins,
                    tip,
                ).coins[j].key && coins[i].1.coin_data == db.full_sync(
                    address,
                    coins,
                    tip,
                ).coins[j].value,
{
    let after = db.full_sync(address, coins, tip);
    let kept_coins = retained(db.coins, of_other_wallet(address));
    let n = coins.len() as int;
    let es = reported_coin_entries(coins);
    let hs = reported_confirmations(coins);
    lemma_retained(db.coins, of_other_wallet(address));
    lemma_kept(db.coins, of_other_wallet(address), db.coins.len() as int);
    lemma_inserted_all(kept_coins, es, n);
    lemma_inserted_all(db.coin_confirmations, hs, n);
    lemma_inserted_all_entries(kept_coins, es, n);
    assert forall|i: int| 0 <= i < coins.len() implies has_key(
        after.coins,
        (#[trigger] coins[i]).0,
    ) && has_key(after.coin_confirmations, coins[i].0) by {
        assert(es[i].key == coins[i].0);
        assert(hs[i].key == coins[i].0);
    }
    assert forall|j: int|
        0 <= j < after.coins.len() && (#[trigger] after.coins[j]).value.covhash
            == address implies exists|i: int|
        0 <= i < coins.len() && (#[trigger] coins[i]).0 == after.coins[j].key && coins[i].1.coin_data
            == after.coins[j].value by {
        if j < kept_coins.len() {
            assert(after.coins[j] == kept_coins[j]);
            assert(of_other_wallet(address)(kept_coins[j]));
        } else {
            let i = choose|i: int| 0 <= i < n && es[i] == after.coins[j];
            assert(coins[i].0 == after.coins[j].key);
        }
    }
}

/// A coin that a full synchronization reports once, that no other wallet
/// holds and that had no confirmation, is afterwards found with the data
/// and at the height that were reported.
pub proof fn lemma_full_sync_confirms(
    db: DatabaseView,
    address: Address,
    coins: Seq<(CoinId, CoinDataHeightView)>,
    tip: u64,
    i: int,
)
    requires
        db.wf(),
        0 <= i < coins.len(),
        forall|a: int, b: int|
            0 <= a < b < coins.len() ==> (#[trigger] coins[a]).0 != (#[trigger] coins[b]).0,
        lookup(db.coins, coins[i].0) matches Some(c) ==> c.covhash == address,
        !has_key(db.coin_confirmations, coins[i].0),
    ensures
        db.full_sync(address, coins, tip).coin_confirmation(coins[i].0) == Some(coins[i].1),
{
    let kept_coins = retained(db.coins, of_other_wallet(address));
    let n = coins.len() as int;
    let es = reported_coin_entries(coins);
    let hs = reported_confirmations(coins);
    lemma_retained(db.coins, of_other_wallet(address));
    assert(lookup(kept_coins, coins[i].0) is None);
    assert forall|a: int, b: int| 0 <= a < b < n implies (#[trigger] es[a]).key != (
    #[trigger] es[b]).key by {
        assert(es[a].key == coins[a].0 && es[b].key == coins[b].0);
    }
    assert forall|a: int, b: int| 0 <= a < b < n implies (#[trigger] hs[a]).key != (
    #[trigger] hs[b]).key by {
        assert(hs[a].key == coins[a].0 && hs[b].key == coins[b].0);
    }
    assert(es[i].key == coins[i].0 && hs[i].key == coins[i].0);
    lemma_inserted_all_at(kept_coins, es, n, i);
    lemma_inserted_all_at(db.coin_confirmations, hs, n, i);
}

/// The first synchronization of a wallet, whose watermark is 0 or not
/// recorded, is a full one whatever the height of the tip: afterwards
/// every reported coin is known and confirmed, and every coin of the
/// wallet's address is a reported one.
pub proof fn lemma_first_sync_is_full(
    db: DatabaseView,
    address: Address,
    coins: Seq<(CoinId, CoinDataHeightView)>,
    tip: u64,
)
    requires
        db.wf(),
        db.sync_height(address) == 0,
    ensures
        plan_for(db.sync_height(address), tip) == SyncPlan::Full,
        synced(db, address, tip, SyncDataView::Full(coins)) == db.full_sync(address, coins, tip),
        forall|i: int|
            0 <= i < coins.len() ==> has_key(
                synced(db, address, tip, SyncDataView::Full(coins)).coins,
                (#[trigger] coins[i]).0,
            ) && has_key(
                synced(db, address, tip, SyncDataView::Full(coins)).coin_confirmations,
                coins[i].0,
            ),
        forall|j: int|
            0 <= j < synced(db, address, tip, SyncDataView::Full(coins)).coins.len() && (
            #[trigger] synced(db, address, tip, SyncDataView::Full(coins)).coins[j]).value.covhash
                == address ==> exists|i: int|
                0 <= i < coins.len() && (#[trigger] coins[i]).0 == synced(
                    db,
                    address,
                    tip,
                    SyncDataView::Full(coins),
                ).coins[j].key && coins[i].1.coin_data == synced(
                    db,
                    address,
                    tip,
                    SyncDataView::Full(coins),
                ).coins[j].value,
{
    lemma_full_sync_replaces_coins(db, address, coins, tip);
}

} // verus!
