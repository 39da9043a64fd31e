//! What the status of a transaction is after it was sent, and after a
//! synchronization confirmed it.

use vstd::prelude::*;
use crate::coins::{CoinDataHeightView, TxView};
use crate::database::{has_wallet, landed, not_landed, output_id, wallet_named, DatabaseView};
use crate::guarantees::{lemma_commit_sent_keeps_consistent, lemma_full_sync_confirms};
use crate::hashes::{CoinId, TxHash};
use crate::state::{confirmed_height, AppStateView};
use crate::table::{has_key, lemma_inserted, lemma_retained, lookup, position, Entry};

verus! {

/// Whether no coin of the transaction `h` has a confirmation.
pub open spec fn unconfirmed(db: DatabaseView, h: TxHash) -> bool {
    forall|i: int|
        0 <= i < db.coin_confirmations.len() ==> (#[trigger] db.coin_confirmations[i]).key.txhash
            != h
}

/// A transaction of which no coin has a confirmation has no confirmed
/// height.
pub proof fn lemma_unconfirmed_has_no_height(db: DatabaseView, tx: TxView, n: int)
    requires
        unconfirmed(db, tx.hash_nosigs()),
    ensures
        confirmed_height(db, tx, n) is None,
    decreases n,
{
    if n > 0 {
        lemma_unconfirmed_has_no_height(db, tx, n - 1);
        let id = output_id(tx, n - 1);
        if has_key(db.coin_confirmations, id) {
            let p = position(db.coin_confirmations, id);
            assert(db.coin_confirmations[p].key.txhash == tx.hash_nosigs());
        }
    }
}

/// After a transaction was recorded as sent for a wallet that the store
/// knows, its status is known and is of its hash; it is unconfirmed where
/// no coin of the transaction had a confirmation.
pub proof fn lemma_sent_has_a_status(s: AppStateView, name: Seq<char>, tx: TxView, expires: u64)
    requires
        s.wf(),
        s.database.consistent(),
        has_wallet(s.database.wallets, name),
    ensures
        ({
            let after = AppStateView { database: s.database.commit_sent(tx, expires), ..s };
            &&& after.tx_status(name, tx.hash_nosigs()) matches Some(status)
                && status.raw.hash_nosigs() == tx.hash_nosigs() && (unconfirmed(
                s.database,
                tx.hash_nosigs(),
            ) ==> status.confirmed_height is None)
            &&& !has_key(s.database.transactions, tx.hash_nosigs()) ==> after.tx_status(
                name,
                tx.hash_nosigs(),
            )->0.raw == tx
        }),
{
    let h = tx.hash_nosigs();
    let db = s.database.commit_sent(tx, expires);
    lemma_commit_sent_keeps_consistent(s.database, tx, expires);
    lemma_inserted(s.database.transactions, Entry { key: h, value: tx });
    lemma_inserted(s.database.pending, Entry { key: h, value: expires });
    assert(has_key(db.transactions, h));
    assert(has_key(db.pending, h));
    let p = position(db.transactions, h);
    let raw = db.transactions[p].value;
    assert(db.transactions[p].key == raw.hash_nosigs());
    if unconfirmed(s.database, h) {
        assert(unconfirmed(db, raw.hash_nosigs()));
        lemma_unconfirmed_has_no_height(db, raw, raw.outputs.len() as int);
    }
}

/// After a full synchronization reported the one output of a transaction
/// that the store caches, once and at a height, the status of the
/// transaction carries that height and the transaction is no longer
/// pending. The coin had no confirmation before, and no other wallet holds
/// a coin under its identifier.
pub proof fn lemma_confirmed_has_a_height(
    s: AppStateView,
    name: Seq<char>,
    h: TxHash,
    coins: Seq<(CoinId, CoinDataHeightView)>,
    tip: u64,
    i: int,
)
    requires
        s.wf(),
        has_wallet(s.database.wallets, name),
        lookup(s.database.transactions, h) matches Some(raw) && raw.hash_nosigs() == h
            && raw.outputs.len() == 1,
        0 <= i < coins.len(),
        coins[i].0 == (CoinId { txhash: h, index: 0 }),
        forall|a: int, b: int|
            0 <= a < b < coins.len() ==> (#[trigger] coins[a]).0 != (#[trigger] coins[b]).0,
        lookup(s.database.coins, coins[i].0) matches Some(c) ==> c.covhash == wallet_named(
            s.database.wallets,
            name,
        ).covhash,
        !has_key(s.database.coin_confirmations, coins[i].0),
    ensures
        ({
            let address = wallet_named(s.database.wallets, name).covhash;
            let after = AppStateView { database: s.database.full_sync(address, coins, tip), ..s };
            &&& after.tx_status(name, h) matches Some(status) && status.confirmed_height == Some(
                coins[i].1.height,
            )
            &&& !has_key(after.database.pending, h)
        }),
{
    let address = wallet_named(s.database.wallets, name).covhash;
    let db = s.database.full_sync(address, coins, tip);
    let raw = lookup(s.database.transactions, h)->0;
    lemma_full_sync_confirms(s.database, address, coins, tip, i);
    assert(output_id(raw, 0) == coins[i].0);
    assert(confirmed_height(db, raw, 0) is None);
    assert(confirmed_height(db, raw, 1) == Some(coins[i].1.height));
    lemma_retained(s.database.pending, not_landed(coins));
    assert(landed(coins, h)) by {
        assert(coins[i].0.txhash == h);
    }
    assert(lookup(db.pending, h) is None);
}

} // verus!
