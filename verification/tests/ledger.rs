use melwalletd::chain::proposer_reward;
use melwalletd::coins::{CoinData, CoinDataHeight, Denom, Tx, TxKind};
use melwalletd::database::{CreateWalletError, Database, TxSource, Wallet};
use melwalletd::hashes::{CoinId, TxHash};
use melwalletd::sync::{
    queries_for, sync_plan, CoinChange, NodeAnswer, NodeQuery, SyncBatch, SyncData, SyncError,
    SyncPlan,
};

fn ledger_wallet(db: &mut Database, name: &str, covenant: Vec<u8>) -> Wallet {
    db.create_wallet(name, covenant).unwrap();
    db.get_wallet(name).unwrap()
}

fn ledger_coin(owner: &Wallet, value: u128, denom: Denom) -> CoinData {
    CoinData { covhash: owner.address(), value, denom, additional_data: vec![] }
}

fn ledger_confirmed(owner: &Wallet, seed: u8, value: u128, height: u64) -> (CoinId, CoinDataHeight) {
    (
        CoinId::new(TxHash([seed; 32]), 0),
        CoinDataHeight { coin_data: ledger_coin(owner, value, Denom::Mel), height },
    )
}

fn ledger_spend(owner: &Wallet, input: CoinId, value: u128, kind: TxKind) -> Tx {
    Tx {
        kind,
        inputs: vec![input],
        outputs: vec![ledger_coin(owner, value, Denom::Mel), ledger_coin(owner, 1, Denom::NewCustom)],
        fee: 5,
        covenants: vec![owner.covenant()],
        data: vec![],
        sigs: vec![],
    }
}

#[test]
fn wallets_are_registered_once() {
    let mut db = Database::open();
    assert!(db.list_wallets().is_empty());
    assert!(db.get_wallet("alice").is_none());
    assert_eq!(db.create_wallet("alice", vec![1, 2, 3]), Ok(()));
    assert_eq!(db.create_wallet("bob", vec![4]), Ok(()));
    assert_eq!(db.create_wallet("alice", vec![9]), Err(CreateWalletError::AlreadyExists));
    assert_eq!(db.list_wallets(), vec!["alice".to_string(), "bob".to_string()]);
    let alice = db.get_wallet("alice").unwrap();
    assert_eq!(alice.name(), "alice");
    assert_eq!(alice.covenant(), vec![1, 2, 3]);
    assert_eq!(alice.address().0, tmelcrypt::hash_single(&[1u8, 2, 3]).0);
}

#[test]
fn sync_plan_falls_back_to_full_sync() {
    assert_eq!(sync_plan(0, 0), SyncPlan::Full);
    assert_eq!(sync_plan(0, 5000), SyncPlan::Full);
    assert_eq!(sync_plan(1, 1002), SyncPlan::Full);
    assert_eq!(sync_plan(1, 1001), SyncPlan::Incremental { from: 2, to: 1001 });
    assert_eq!(sync_plan(10, 11), SyncPlan::Incremental { from: 11, to: 11 });
    assert_eq!(sync_plan(10, 10), SyncPlan::UpToDate);
    assert_eq!(sync_plan(10, 3), SyncPlan::UpToDate);
    assert_eq!(sync_plan(u64::MAX, u64::MAX), SyncPlan::UpToDate);
    assert_eq!(sync_plan(1, u64::MAX), SyncPlan::Full);
}

#[test]
fn full_sync_sets_the_watermark_in_one_step() {
    let mut db = Database::open();
    let alice = ledger_wallet(&mut db, "alice", vec![1]);
    assert_eq!(db.sync_height(alice.address()), 0);
    assert_eq!(alice.sync_plan(&db, 5000), SyncPlan::Full);
    let coins = vec![ledger_confirmed(&alice, 1, 100, 4000)];
    assert!(alice.network_sync(&mut db, 5000, &SyncData::Full(coins)).is_ok());
    assert_eq!(db.sync_height(alice.address()), 5000);
    let listed = alice.get_coin_mapping(&db, true, false);
    assert_eq!(listed.len(), 1);
    assert_eq!(listed[0].0, CoinId::new(TxHash([1; 32]), 0));
    assert_eq!(listed[0].1.value, 100);
    assert_eq!(
        alice.get_coin_confirmation(&db, listed[0].0).unwrap().height,
        4000
    );
}

#[test]
fn sync_with_the_wrong_data_writes_nothing() {
    let mut db = Database::open();
    let alice = ledger_wallet(&mut db, "alice", vec![1]);
    let r = alice.network_sync(&mut db, 5000, &SyncData::Incremental(SyncBatch::new()));
    assert_eq!(r, Err(SyncError::WrongData));
    assert_eq!(db.sync_height(alice.address()), 0);
    let r = alice.network_sync(&mut db, 5000, &SyncData::Nothing);
    assert_eq!(r, Err(SyncError::WrongData));
    assert!(alice.network_sync(&mut db, 5000, &SyncData::Full(vec![])).is_ok());
    assert_eq!(db.sync_height(alice.address()), 5000);
    // the watermark has reached the tip: any data is accepted and ignored
    let coins = vec![ledger_confirmed(&alice, 1, 100, 4000)];
    assert!(alice.network_sync(&mut db, 5000, &SyncData::Full(coins)).is_ok());
    assert!(alice.get_coin_mapping(&db, true, false).is_empty());
    let r = alice.network_sync(&mut db, 5001, &SyncData::Full(vec![]));
    assert_eq!(r, Err(SyncError::WrongData));
    assert_eq!(db.sync_height(alice.address()), 5000);
}

#[test]
fn incremental_sync_sets_the_watermark() {
    let mut db = Database::open();
    let alice = ledger_wallet(&mut db, "alice", vec![1]);
    alice.full_sync(&mut db, &vec![], 10);
    assert_eq!(alice.sync_plan(&db, 12), SyncPlan::Incremental { from: 11, to: 12 });
    let mut batch = SyncBatch::new();
    let (id, cdh) = ledger_confirmed(&alice, 4, 77, 11);
    batch.absorb(&CoinChange::Add(id), NodeAnswer::Coin(Some(cdh))).unwrap();
    assert!(alice.network_sync(&mut db, 12, &SyncData::Incremental(batch)).is_ok());
    assert_eq!(db.sync_height(alice.address()), 12);
    assert_eq!(alice.get_coin_mapping(&db, true, false).len(), 1);
}

#[test]
fn commit_sent_makes_the_transaction_pending() {
    let mut db = Database::open();
    let alice = ledger_wallet(&mut db, "alice", vec![1]);
    let (id, cdh) = ledger_confirmed(&alice, 1, 100, 5);
    alice.full_sync(&mut db, &vec![(id, cdh)], 10);
    let tx = ledger_spend(&alice, id, 95, TxKind::Normal);
    let h = tx.hash_nosigs();
    assert!(!alice.is_pending(&db, h));
    alice.commit_sent(&mut db, tx.clone(), 20);
    assert!(alice.is_pending(&db, h));
    assert_eq!(alice.get_cached_transaction(&db, h), Some(tx.clone()));
    // the input is spent
    assert!(alice.get_coin_mapping(&db, true, false).is_empty());
    // ... unless pending spends are ignored
    assert_eq!(alice.get_coin_mapping(&db, true, true).len(), 1);
    // the outputs are pending coins
    let unconfirmed = alice.get_coin_mapping(&db, false, false);
    assert_eq!(unconfirmed.len(), 2);
    assert_eq!(unconfirmed[0].0, CoinId::new(h, 0));
    assert_eq!(unconfirmed[0].1.value, 95);
    assert_eq!(unconfirmed[1].0, CoinId::new(h, 1));
    // the mint sentinel became the currency that the transaction mints
    assert_eq!(unconfirmed[1].1.denom, Denom::Custom(h));
    assert_eq!(alice.get_one_coin(&db, CoinId::new(h, 1)).unwrap().denom, Denom::Custom(h));
    assert!(alice.get_coin_confirmation(&db, CoinId::new(h, 0)).is_none());
    assert_eq!(alice.get_coin_mapping(&db, false, true).len(), 3);
}

#[test]
fn commit_sent_twice_is_commit_sent_once() {
    let mut db = Database::open();
    let alice = ledger_wallet(&mut db, "alice", vec![1]);
    let (id, cdh) = ledger_confirmed(&alice, 1, 100, 5);
    alice.full_sync(&mut db, &vec![(id, cdh)], 10);
    let tx = ledger_spend(&alice, id, 95, TxKind::Normal);
    alice.commit_sent(&mut db, tx.clone(), 20);
    let once = (
        alice.get_coin_mapping(&db, false, true),
        alice.get_coin_mapping(&db, false, false),
        db.retransmit_pending(),
        alice.get_transaction_history(&db),
    );
    alice.commit_sent(&mut db, tx.clone(), 20);
    let twice = (
        alice.get_coin_mapping(&db, false, true),
        alice.get_coin_mapping(&db, false, false),
        db.retransmit_pending(),
        alice.get_transaction_history(&db),
    );
    assert_eq!(once, twice);
    assert_eq!(twice.2, vec![tx]);
}

#[test]
fn other_kinds_create_no_coins() {
    let mut db = Database::open();
    let alice = ledger_wallet(&mut db, "alice", vec![1]);
    let (id, cdh) = ledger_confirmed(&alice, 1, 100, 5);
    alice.full_sync(&mut db, &vec![(id, cdh)], 10);
    let tx = ledger_spend(&alice, id, 95, TxKind::Swap);
    let h = tx.hash_nosigs();
    alice.commit_sent(&mut db, tx, 20);
    assert!(alice.is_pending(&db, h));
    assert!(alice.get_coin_mapping(&db, false, false).is_empty());
    assert!(alice.get_one_coin(&db, CoinId::new(h, 0)).is_none());
    assert_eq!(alice.get_coin_mapping(&db, false, true).len(), 1);
}

#[test]
fn unspent_coins_have_no_spend() {
    let mut db = Database::open();
    let alice = ledger_wallet(&mut db, "alice", vec![1]);
    let a = ledger_confirmed(&alice, 1, 100, 5);
    let b = ledger_confirmed(&alice, 2, 50, 6);
    alice.full_sync(&mut db, &vec![a.clone(), b.clone()], 10);
    let tx = ledger_spend(&alice, a.0, 95, TxKind::Normal);
    alice.commit_sent(&mut db, tx, 20);
    let unspent = alice.get_coin_mapping(&db, true, false);
    assert_eq!(unspent.len(), 1);
    assert_eq!(unspent[0].0, b.0);
}

#[test]
fn coins_of_other_wallets_are_not_listed() {
    let mut db = Database::open();
    let alice = ledger_wallet(&mut db, "alice", vec![1]);
    let bob = ledger_wallet(&mut db, "bob", vec![2]);
    alice.full_sync(&mut db, &vec![ledger_confirmed(&alice, 1, 100, 5)], 10);
    bob.full_sync(&mut db, &vec![ledger_confirmed(&bob, 2, 7, 5)], 10);
    assert_eq!(alice.get_coin_mapping(&db, true, false).len(), 1);
    assert_eq!(bob.get_coin_mapping(&db, true, false).len(), 1);
    assert_eq!(bob.get_coin_mapping(&db, true, false)[0].1.value, 7);
    // any wallet can look at any coin
    assert_eq!(bob.get_one_coin(&db, CoinId::new(TxHash([1; 32]), 0)).unwrap().value, 100);
    // a full sync replaces the coins of the wallet alone
    alice.full_sync(&mut db, &vec![], 5000);
    assert!(alice.get_coin_mapping(&db, true, false).is_empty());
    assert_eq!(bob.get_coin_mapping(&db, true, false).len(), 1);
}

#[test]
fn expired_pending_is_evicted() {
    let mut db = Database::open();
    let alice = ledger_wallet(&mut db, "alice", vec![1]);
    let (id, cdh) = ledger_confirmed(&alice, 1, 100, 5);
    let tip = 10;
    alice.full_sync(&mut db, &vec![(id, cdh)], tip);
    let tx = ledger_spend(&alice, id, 95, TxKind::Normal);
    let h = tx.hash_nosigs();
    alice.commit_sent(&mut db, tx, tip + 1);
    assert!(alice.is_pending(&db, h));
    // at the expiry itself the transaction is still pending
    assert!(alice
        .network_sync(&mut db, tip + 1, &SyncData::Incremental(SyncBatch::new()))
        .is_ok());
    assert!(alice.is_pending(&db, h));
    assert!(alice.get_coin_mapping(&db, true, false).is_empty());
    // past it, it is lost
    assert!(alice
        .network_sync(&mut db, tip + 2, &SyncData::Incremental(SyncBatch::new()))
        .is_ok());
    assert!(!alice.is_pending(&db, h));
    // the spend is gone: the coin is unspent again
    let unspent = alice.get_coin_mapping(&db, true, false);
    assert_eq!(unspent.len(), 1);
    assert_eq!(unspent[0].0, id);
    // the pending coins were swept
    assert_eq!(alice.get_coin_mapping(&db, false, false).len(), 1);
    assert!(db.retransmit_pending().is_empty());
}

#[test]
fn confirmed_pending_stops_being_pending() {
    let mut db = Database::open();
    let alice = ledger_wallet(&mut db, "alice", vec![1]);
    let (id, cdh) = ledger_confirmed(&alice, 1, 100, 5);
    alice.full_sync(&mut db, &vec![(id, cdh)], 10);
    let tx = ledger_spend(&alice, id, 95, TxKind::Normal);
    let h = tx.hash_nosigs();
    alice.commit_sent(&mut db, tx.clone(), 20);
    let changes = vec![CoinChange::Delete(id, h), CoinChange::Add(CoinId::new(h, 0))];
    let queries = queries_for(&changes);
    assert_eq!(queries, vec![NodeQuery::Transaction(h), NodeQuery::Coin(CoinId::new(h, 0))]);
    let mut batch = SyncBatch::new();
    batch.absorb(&changes[0], NodeAnswer::Transaction(Some(tx.clone()))).unwrap();
    batch
        .absorb(
            &changes[1],
            NodeAnswer::Coin(Some(CoinDataHeight {
                coin_data: tx.outputs[0].clone(),
                height: 11,
            })),
        )
        .unwrap();
    assert!(alice.network_sync(&mut db, 11, &SyncData::Incremental(batch)).is_ok());
    assert!(!alice.is_pending(&db, h));
    let unspent = alice.get_coin_mapping(&db, true, false);
    assert_eq!(unspent.len(), 1);
    assert_eq!(unspent[0].0, CoinId::new(h, 0));
    assert_eq!(unspent[0].1.value, 95);
    // the other output never landed and is no longer pending
    assert_eq!(alice.get_coin_mapping(&db, false, false).len(), 1);
    assert_eq!(
        alice.get_transaction_history(&db),
        vec![(TxHash([1; 32]), Some(5)), (h, Some(11))]
    );
}

#[test]
fn batch_refuses_what_the_node_lacks() {
    let mut batch = SyncBatch::new();
    let id = CoinId::new(TxHash([1; 32]), 0);
    let h = TxHash([2; 32]);
    assert_eq!(
        batch.absorb(&CoinChange::Add(id), NodeAnswer::Coin(None)),
        Err(SyncError::CoinNotFound(id))
    );
    assert_eq!(
        batch.absorb(&CoinChange::Delete(id, h), NodeAnswer::Transaction(None)),
        Err(SyncError::TransactionNotFound(h))
    );
    assert_eq!(
        batch.absorb(&CoinChange::Add(id), NodeAnswer::Transaction(None)),
        Err(SyncError::WrongAnswer)
    );
    assert_eq!(
        batch.absorb(&CoinChange::Delete(id, h), NodeAnswer::Coin(None)),
        Err(SyncError::WrongAnswer)
    );
}

#[test]
fn balances_sum_unspent_and_pending_coins() {
    let mut db = Database::open();
    let alice = ledger_wallet(&mut db, "alice", vec![1]);
    let custom = Denom::Custom(TxHash([8; 32]));
    let coins = vec![
        ledger_confirmed(&alice, 1, 100, 5),
        (
            CoinId::new(TxHash([2; 32]), 0),
            CoinDataHeight { coin_data: ledger_coin(&alice, 7, custom), height: 5 },
        ),
        ledger_confirmed(&alice, 3, 11, 6),
    ];
    alice.full_sync(&mut db, &coins, 10);
    let balances = alice.get_balances(&db);
    assert_eq!(balances.len(), 2);
    assert_eq!(balances.get(&Denom::Mel), Some(&111));
    assert_eq!(balances.get(&custom), Some(&7));
    assert_eq!(balances.get(&Denom::Sym), None);
    let tx = ledger_spend(&alice, coins[0].0, 95, TxKind::Normal);
    let h = tx.hash_nosigs();
    alice.commit_sent(&mut db, tx, 20);
    let balances = alice.get_balances(&db);
    assert_eq!(balances.get(&Denom::Mel), Some(&(11 + 95)));
    assert_eq!(balances.get(&Denom::Custom(h)), Some(&1));
}

#[test]
fn balances_saturate() {
    let mut db = Database::open();
    let alice = ledger_wallet(&mut db, "alice", vec![1]);
    let coins =
        vec![ledger_confirmed(&alice, 1, u128::MAX, 5), ledger_confirmed(&alice, 2, 1, 5)];
    alice.full_sync(&mut db, &coins, 10);
    assert_eq!(alice.get_balances(&db).get(&Denom::Mel), Some(&u128::MAX));
}

#[test]
fn history_is_sorted_with_unconfirmed_last() {
    let mut db = Database::open();
    let alice = ledger_wallet(&mut db, "alice", vec![1]);
    let reward = proposer_reward(7);
    let coins = vec![
        ledger_confirmed(&alice, 3, 1, 9),
        ledger_confirmed(&alice, 1, 1, 4),
        (reward, CoinDataHeight { coin_data: ledger_coin(&alice, 1, Denom::Mel), height: 7 }),
        ledger_confirmed(&alice, 2, 1, 9),
        (
            CoinId::new(TxHash([1; 32]), 1),
            CoinDataHeight { coin_data: ledger_coin(&alice, 1, Denom::Mel), height: 4 },
        ),
    ];
    alice.full_sync(&mut db, &coins, 10);
    let tx = ledger_spend(&alice, coins[0].0, 1, TxKind::Normal);
    let h = tx.hash_nosigs();
    alice.commit_sent(&mut db, tx, 20);
    assert_eq!(
        alice.get_transaction_history(&db),
        vec![
            (TxHash([1; 32]), Some(4)),
            (TxHash([3; 32]), Some(9)),
            (TxHash([2; 32]), Some(9)),
            (h, None),
        ]
    );
}

#[test]
fn transaction_source_is_cache_then_node() {
    let mut db = Database::open();
    let alice = ledger_wallet(&mut db, "alice", vec![1]);
    let h = TxHash([4; 32]);
    assert_eq!(alice.get_transaction(&db, h), TxSource::Unknown);
    let far = (
        CoinId::new(h, 11),
        CoinDataHeight { coin_data: ledger_coin(&alice, 1, Denom::Mel), height: 3 },
    );
    alice.full_sync(&mut db, &vec![far], 10);
    assert_eq!(alice.get_transaction(&db, h), TxSource::Unknown);
    let near = (
        CoinId::new(h, 10),
        CoinDataHeight { coin_data: ledger_coin(&alice, 1, Denom::Mel), height: 8 },
    );
    alice.full_sync(&mut db, &vec![near], 10);
    assert_eq!(alice.get_transaction(&db, h), TxSource::Node(8));
    let tx = ledger_spend(&alice, CoinId::new(TxHash([0; 32]), 0), 1, TxKind::Normal);
    let cached = tx.hash_nosigs();
    alice.cache_transaction(&mut db, tx.clone());
    assert_eq!(alice.get_transaction(&db, cached), TxSource::Cached(tx));
    assert!(db.retransmit_pending().is_empty());
}

#[test]
fn rows_survive_a_round_trip() {
    let mut db = Database::open();
    let alice = ledger_wallet(&mut db, "alice", vec![1]);
    let bob = ledger_wallet(&mut db, "bob", vec![2]);
    let (id, cdh) = ledger_confirmed(&alice, 1, 100, 5);
    alice.full_sync(&mut db, &vec![(id, cdh), ledger_confirmed(&alice, 2, 7, 6)], 10);
    bob.full_sync(&mut db, &vec![ledger_confirmed(&bob, 3, 9, 6)], 12);
    let tx = ledger_spend(&alice, id, 95, TxKind::Normal);
    alice.commit_sent(&mut db, tx.clone(), 20);
    let rows = db.dump();
    assert_eq!(rows.coins.len(), 5);
    assert_eq!(rows.coin_confirmations.len(), 3);
    assert_eq!(rows.pending_coins.len(), 2);
    assert_eq!(rows.spends, vec![(id, tx.hash_nosigs())]);
    assert_eq!(rows.pending, vec![(tx.hash_nosigs(), 20)]);
    assert_eq!(rows.transactions, vec![(tx.hash_nosigs(), tx.clone())]);
    assert_eq!(
        rows.wallet_names,
        vec![("alice".to_string(), vec![1]), ("bob".to_string(), vec![2])]
    );
    assert_eq!(rows.sync_heights, vec![(alice.address(), 10), (bob.address(), 12)]);
    let restored = Database::from_rows(&rows);
    let again = restored.dump();
    assert_eq!(again.coins, rows.coins);
    assert_eq!(again.coin_confirmations, rows.coin_confirmations);
    assert_eq!(again.pending_coins, rows.pending_coins);
    assert_eq!(again.spends, rows.spends);
    assert_eq!(again.pending, rows.pending);
    assert_eq!(again.transactions, rows.transactions);
    assert_eq!(again.wallet_names, rows.wallet_names);
    assert_eq!(again.sync_heights, rows.sync_heights);
    let alice_again = restored.get_wallet("alice").unwrap();
    assert_eq!(alice_again.address(), alice.address());
    assert_eq!(
        alice_again.get_coin_mapping(&restored, false, false),
        alice.get_coin_mapping(&db, false, false)
    );
    assert_eq!(restored.sync_height(bob.address()), 12);
}

#[test]
fn restored_tables_keep_the_first_row_of_a_key() {
    let rows = melwalletd::database::DatabaseRows {
        coins: vec![],
        coin_confirmations: vec![
            (CoinId::new(TxHash([1; 32]), 0), 5),
            (CoinId::new(TxHash([1; 32]), 1), 6),
            (CoinId::new(TxHash([1; 32]), 0), 7),
        ],
        pending_coins: vec![],
        spends: vec![],
        pending: vec![(TxHash([2; 32]), 1), (TxHash([2; 32]), 2)],
        transactions: vec![],
        wallet_names: vec![
            ("a".to_string(), vec![1]),
            ("b".to_string(), vec![2]),
            ("a".to_string(), vec![3]),
        ],
        sync_heights: vec![],
    };
    let db = Database::from_rows(&rows);
    let again = db.dump();
    assert_eq!(
        again.coin_confirmations,
        vec![(CoinId::new(TxHash([1; 32]), 0), 5), (CoinId::new(TxHash([1; 32]), 1), 6)]
    );
    assert_eq!(again.pending, vec![(TxHash([2; 32]), 1)]);
    assert_eq!(again.wallet_names, vec![("a".to_string(), vec![1]), ("b".to_string(), vec![2])]);
    assert_eq!(db.get_wallet("a").unwrap().covenant(), vec![1]);
}

#[test]
fn watermark_beyond_the_tip_stays() {
    let mut db = Database::open();
    let alice = ledger_wallet(&mut db, "alice", vec![1]);
    alice.full_sync(&mut db, &vec![], 10);
    assert_eq!(alice.sync_plan(&db, 3), SyncPlan::UpToDate);
    assert!(alice.network_sync(&mut db, 3, &SyncData::Nothing).is_ok());
    assert_eq!(db.sync_height(alice.address()), 10);
}

#[test]
fn full_sync_evicts_no_expired_pending() {
    let mut db = Database::open();
    let alice = ledger_wallet(&mut db, "alice", vec![1]);
    let tx = ledger_spend(&alice, CoinId::new(TxHash([1; 32]), 0), 95, TxKind::Normal);
    let h = tx.hash_nosigs();
    alice.commit_sent(&mut db, tx, 3);
    assert!(alice.network_sync(&mut db, 5000, &SyncData::Full(vec![])).is_ok());
    assert!(alice.is_pending(&db, h));
}

#[test]
fn outputs_beyond_the_256th_have_no_coin() {
    let mut db = Database::open();
    let alice = ledger_wallet(&mut db, "alice", vec![1]);
    let mut tx = ledger_spend(&alice, CoinId::new(TxHash([1; 32]), 0), 1, TxKind::Normal);
    tx.outputs = vec![ledger_coin(&alice, 1, Denom::Mel); 300];
    let h = tx.hash_nosigs();
    alice.commit_sent(&mut db, tx, 20);
    let pending = alice.get_coin_mapping(&db, false, false);
    assert_eq!(pending.len(), 256);
    assert_eq!(pending[255].0, CoinId::new(h, 255));
    assert_eq!(db.dump().pending_coins.len(), 256);
}

#[test]
fn full_sync_replaces_the_wallets_coins() {
    let mut db = Database::open();
    let alice = ledger_wallet(&mut db, "alice", vec![1]);
    let bob = ledger_wallet(&mut db, "bob", vec![2]);
    let stale = ledger_confirmed(&alice, 1, 100, 10);
    let kept = ledger_confirmed(&alice, 2, 200, 20);
    assert!(alice.network_sync(&mut db, 50, &SyncData::Full(vec![stale.clone(), kept.clone()])).is_ok());
    let of_bob = ledger_confirmed(&bob, 3, 300, 30);
    assert!(bob.network_sync(&mut db, 50, &SyncData::Full(vec![of_bob.clone()])).is_ok());

    // more than 1000 blocks later the wallet is synchronized in full again
    assert_eq!(alice.sync_plan(&db, 5000), SyncPlan::Full);
    let fresh = ledger_confirmed(&alice, 4, 400, 4000);
    let mut again = kept.clone();
    again.1.height = 21;
    assert!(alice.network_sync(&mut db, 5000, &SyncData::Full(vec![again, fresh.clone()])).is_ok());

    let listed = alice.get_coin_mapping(&db, true, false);
    let ids: Vec<CoinId> = listed.iter().map(|c| c.0).collect();
    assert_eq!(ids, vec![kept.0, fresh.0]);
    assert_eq!(listed[1].1, fresh.1.coin_data);
    // the coin that was not reported again is gone
    assert!(alice.get_coin_confirmation(&db, stale.0).is_none());
    // a fresh coin is confirmed where the node saw it
    assert_eq!(alice.get_coin_confirmation(&db, fresh.0).unwrap().height, 4000);
    // a confirmation that was there stays
    assert_eq!(alice.get_coin_confirmation(&db, kept.0).unwrap().height, 20);
    // the other wallet's coins are untouched
    let others = bob.get_coin_mapping(&db, true, false);
    assert_eq!(others.len(), 1);
    assert_eq!(others[0].0, of_bob.0);
    assert_eq!(db.sync_height(bob.address()), 50);
    assert_eq!(db.sync_height(alice.address()), 5000);
}
