//! The wallet store: every coin, confirmation, spend, pending transaction and
//! watermark that the wallets of one daemon know of, and the queries and
//! updates that keep them consistent.

use vstd::prelude::*;
use crate::chain::{address_of_covenant, covenant_address, proposer_reward, reward_pseudo_hash};
use crate::sums::{amount_of, tallied, Sums};
use crate::coins::{
    CoinData, CoinDataHeight, CoinDataHeightView, CoinDataView, Denom, Tx, TxKind, TxView,
};
use crate::guarantees::{
    lemma_cache_keeps_consistent, lemma_commit_sent_keeps_consistent, lemma_sync_keeps_consistent,
};
use crate::hashes::{clone_bytes, Address, CoinId, RowKey, TxHash};
use crate::table::{
    distinct_keys, has_key, inserted, inserted_all, kept, lemma_retained, lookup, retained,
    upserted, Entry, Table,
};

verus! {

/// A registered wallet, as contracts see it.
pub struct WalletView {
    pub name: Seq<char>,
    pub covhash: Address,
    pub covenant: Seq<u8>,
}

/// A registered wallet: its name, its address and the covenant whose hash
/// the address is. The coins of a wallet are those that carry its address.
#[derive(Clone, Debug)]
pub struct Wallet {
    name: String,
    covhash: Address,
    covenant: Vec<u8>,
}

impl View for Wallet {
    type V = WalletView;

    closed spec fn view(&self) -> WalletView {
        WalletView { name: self.name@, covhash: self.covhash, covenant: self.covenant@ }
    }
}

/// Whether a wallet of the list has the given name.
pub open spec fn has_wallet(ws: Seq<WalletView>, name: Seq<char>) -> bool {
    exists|i: int| 0 <= i < ws.len() && (#[trigger] ws[i]).name == name
}

/// The wallet of the list with the given name, where there is one.
pub open spec fn wallet_named(ws: Seq<WalletView>, name: Seq<char>) -> WalletView {
    ws[choose|i: int| 0 <= i < ws.len() && (#[trigger] ws[i]).name == name]
}

/// No two wallets of the list have the same name.
pub open spec fn distinct_names(ws: Seq<WalletView>) -> bool {
    forall|i: int, j: int|
        0 <= i < j < ws.len() ==> (#[trigger] ws[i]).name != (#[trigger] ws[j]).name
}

/// The tables of the store, as contracts see them. Each is the sequence of
/// its rows in insertion order.
pub struct DatabaseView {
    /// Every coin ever observed, of any wallet and in any state.
    pub coins: Seq<Entry<CoinId, CoinDataView>>,
    /// The height at which a coin was confirmed.
    pub coin_confirmations: Seq<Entry<CoinId, u64>>,
    /// The pending transaction of which a coin is a proposed output.
    pub pending_coins: Seq<Entry<CoinId, TxHash>>,
    /// The first transaction observed to spend a coin.
    pub spends: Seq<Entry<CoinId, TxHash>>,
    /// The height until which a transaction awaits confirmation.
    pub pending: Seq<Entry<TxHash, u64>>,
    /// A cache of full transactions.
    pub transactions: Seq<Entry<TxHash, TxView>>,
    /// The registered wallets.
    pub wallets: Seq<WalletView>,
    /// The height up to which the coins of an address have been processed.
    pub sync_heights: Seq<Entry<Address, u64>>,
}

impl DatabaseView {
    /// No table holds a key twice.
    pub open spec fn wf(self) -> bool {
        &&& distinct_keys(self.coins)
        &&& distinct_keys(self.coin_confirmations)
        &&& distinct_keys(self.pending_coins)
        &&& distinct_keys(self.spends)
        &&& distinct_keys(self.pending)
        &&& distinct_keys(self.transactions)
        &&& distinct_names(self.wallets)
        &&& distinct_keys(self.sync_heights)
    }

    /// The rows of two tables agree with their keys: a cached transaction
    /// stands under its own hash, and a pending coin names the transaction
    /// of its coin identifier. Every update of the store keeps this.
    pub open spec fn consistent(self) -> bool {
        &&& forall|i: int|
            0 <= i < self.transactions.len() ==> (#[trigger] self.transactions[i]).key
                == self.transactions[i].value.hash_nosigs()
        &&& forall|i: int|
            0 <= i < self.pending_coins.len() ==> (#[trigger] self.pending_coins[i]).value
                == self.pending_coins[i].key.txhash
    }

    /// Whether a spend recorded against `id` leaves the coin usable: there
    /// is none, or pending spends are ignored and its spender is pending.
    pub open spec fn spend_allows(self, id: CoinId, ignore_pending: bool) -> bool {
        match lookup(self.spends, id) {
            None => true,
            Some(spender) => ignore_pending && has_key(self.pending, spender),
        }
    }

    /// Whether the coin row `e` is shown to the wallet at `address`.
    pub open spec fn visible(
        self,
        address: Address,
        confirmed: bool,
        ignore_pending: bool,
        e: Entry<CoinId, CoinDataView>,
    ) -> bool {
        &&& e.value.covhash == address
        &&& (has_key(self.coin_confirmations, e.key) || (!confirmed && has_key(
            self.pending_coins,
            e.key,
        )))
        &&& self.spend_allows(e.key, ignore_pending)
    }

    /// The coins shown to the wallet at `address`, in table order.
    pub open spec fn coin_mapping(self, address: Address, confirmed: bool, ignore_pending: bool) -> Seq<
        Entry<CoinId, CoinDataView>,
    > {
        retained(
            self.coins,
            |e: Entry<CoinId, CoinDataView>| self.visible(address, confirmed, ignore_pending, e),
        )
    }

    /// The watermark of `address`, 0 where none is recorded.
    pub open spec fn sync_height(self, address: Address) -> u64 {
        match lookup(self.sync_heights, address) {
            Some(h) => h,
            None => 0,
        }
    }

    /// A coin with its confirmation height, where the store has both.
    pub open spec fn coin_confirmation(self, id: CoinId) -> Option<CoinDataHeightView> {
        match (lookup(self.coins, id), lookup(self.coin_confirmations, id)) {
            (Some(coin_data), Some(height)) => Some(CoinDataHeightView { coin_data, height }),
            _ => None,
        }
    }
}

/// The number of outputs of a transaction that have a coin identifier:
/// the index of a coin is one byte, so that these are the first 256.
pub open spec fn outputs_with_id(tx: TxView) -> int {
    if tx.outputs.len() < 256 {
        tx.outputs.len() as int
    } else {
        256
    }
}

/// The identifier of the output at index `i` of a transaction, for an
/// index below 256.
pub open spec fn output_id(tx: TxView, i: int) -> CoinId
    recommends
        0 <= i < 256,
{
    CoinId { txhash: tx.hash_nosigs(), index: i as u8 }
}

/// The coin recorded for the output at index `i` of a sent transaction:
/// the output itself, with the mint sentinel replaced by the currency that
/// the transaction mints.
pub open spec fn recorded_output(tx: TxView, i: int) -> CoinDataView {
    let o = tx.outputs[i];
    CoinDataView {
        denom: if o.denom == Denom::NewCustom {
            Denom::Custom(tx.hash_nosigs())
        } else {
            o.denom
        },
        ..o
    }
}

/// One spend row for each input of a transaction.
pub open spec fn spend_entries(tx: TxView) -> Seq<Entry<CoinId, TxHash>> {
    Seq::new(tx.inputs.len(), |i: int| Entry { key: tx.inputs[i], value: tx.hash_nosigs() })
}

/// One coin row for each output of a transaction that has a coin
/// identifier.
pub open spec fn output_coin_entries(tx: TxView) -> Seq<Entry<CoinId, CoinDataView>> {
    Seq::new(
        outputs_with_id(tx) as nat,
        |i: int| Entry { key: output_id(tx, i), value: recorded_output(tx, i) },
    )
}

/// One pending-coin row for each output of a transaction that has a coin
/// identifier.
pub open spec fn output_pending_entries(tx: TxView) -> Seq<Entry<CoinId, TxHash>> {
    Seq::new(
        outputs_with_id(tx) as nat,
        |i: int| Entry { key: output_id(tx, i), value: tx.hash_nosigs() },
    )
}

/// The coins that a node reports, as contracts see them.
pub open spec fn reported_coins(s: Seq<(CoinId, CoinDataHeight)>) -> Seq<
    (CoinId, CoinDataHeightView),
> {
    Seq::new(s.len(), |i: int| (s[i].0, s[i].1@))
}

/// The transactions of a list, as contracts see them.
pub open spec fn txs_view(s: Seq<Tx>) -> Seq<TxView> {
    Seq::new(s.len(), |i: int| s[i]@)
}

/// One coin row for each reported coin.
pub open spec fn reported_coin_entries(cs: Seq<(CoinId, CoinDataHeightView)>) -> Seq<
    Entry<CoinId, CoinDataView>,
> {
    Seq::new(cs.len(), |i: int| Entry { key: cs[i].0, value: cs[i].1.coin_data })
}

/// One confirmation row for each reported coin.
pub open spec fn reported_confirmations(cs: Seq<(CoinId, CoinDataHeightView)>) -> Seq<
    Entry<CoinId, u64>,
> {
    Seq::new(cs.len(), |i: int| Entry { key: cs[i].0, value: cs[i].1.height })
}

/// Whether a reported coin is an output of the transaction `h`.
pub open spec fn landed(cs: Seq<(CoinId, CoinDataHeightView)>, h: TxHash) -> bool {
    exists|i: int| 0 <= i < cs.len() && (#[trigger] cs[i]).0.txhash == h
}

/// The spend rows after the inputs of the first `n` spenders were recorded.
pub open spec fn spends_after(
    spends: Seq<Entry<CoinId, TxHash>>,
    spenders: Seq<TxView>,
    n: int,
) -> Seq<Entry<CoinId, TxHash>>
    decreases n,
{
    if n <= 0 {
        spends
    } else {
        inserted_all(
            spends_after(spends, spenders, n - 1),
            spend_entries(spenders[n - 1]),
            spenders[n - 1].inputs.len() as int,
        )
    }
}

/// The pending rows of transactions of which no output was reported.
pub open spec fn not_landed(cs: Seq<(CoinId, CoinDataHeightView)>) -> spec_fn(
    Entry<TxHash, u64>,
) -> bool {
    |e: Entry<TxHash, u64>| !landed(cs, e.key)
}

/// Whether the transaction `h` is pending and expires before `tip`.
pub open spec fn expired(pending: Seq<Entry<TxHash, u64>>, h: TxHash, tip: u64) -> bool {
    match lookup(pending, h) {
        Some(expires) => expires < tip,
        None => false,
    }
}

/// The spend rows whose spender has not expired.
pub open spec fn spender_alive(pending: Seq<Entry<TxHash, u64>>, tip: u64) -> spec_fn(
    Entry<CoinId, TxHash>,
) -> bool {
    |e: Entry<CoinId, TxHash>| !expired(pending, e.value, tip)
}

/// The pending rows that have not expired at `tip`.
pub open spec fn not_expired(tip: u64) -> spec_fn(Entry<TxHash, u64>) -> bool {
    |e: Entry<TxHash, u64>| e.value >= tip
}

/// The pending-coin rows whose transaction is still pending.
pub open spec fn still_pending(pending: Seq<Entry<TxHash, u64>>) -> spec_fn(
    Entry<CoinId, TxHash>,
) -> bool {
    |e: Entry<CoinId, TxHash>| has_key(pending, e.value)
}

/// The coin rows that do not belong to `address`.
pub open spec fn of_other_wallet(address: Address) -> spec_fn(Entry<CoinId, CoinDataView>) -> bool {
    |e: Entry<CoinId, CoinDataView>| e.value.covhash != address
}

/// The watermark rows of other addresses.
pub open spec fn other_address(address: Address) -> spec_fn(Entry<Address, u64>) -> bool {
    |e: Entry<Address, u64>| e.key != address
}

/// The watermarks after that of `address` was set to `tip`.
pub open spec fn watermark_set(heights: Seq<Entry<Address, u64>>, address: Address, tip: u64) -> Seq<
    Entry<Address, u64>,
> {
    retained(heights, other_address(address)).push(Entry { key: address, value: tip })
}

impl DatabaseView {
    /// The store after a transaction was recorded as sent: the transaction
    /// is cached, each input is marked spent by it, each output of an
    /// ordinary transaction that has a coin identifier becomes a coin and
    /// a pending coin, and the
    /// transaction is pending until `expires`. A row whose key is present
    /// already is left as it is.
    pub open spec fn commit_sent(self, tx: TxView, expires: u64) -> DatabaseView {
        let h = tx.hash_nosigs();
        DatabaseView {
            transactions: inserted(self.transactions, Entry { key: h, value: tx }),
            spends: inserted_all(self.spends, spend_entries(tx), tx.inputs.len() as int),
            coins: if tx.kind == TxKind::Normal {
                inserted_all(self.coins, output_coin_entries(tx), outputs_with_id(tx))
            } else {
                self.coins
            },
            pending_coins: if tx.kind == TxKind::Normal {
                inserted_all(
                    self.pending_coins,
                    output_pending_entries(tx),
                    outputs_with_id(tx),
                )
            } else {
                self.pending_coins
            },
            pending: inserted(self.pending, Entry { key: h, value: expires }),
            ..self
        }
    }

    /// The store after one step of incremental synchronization at height
    /// `tip`: the reported coins and their confirmations are recorded, the
    /// inputs of the reported spenders are marked spent, transactions of
    /// which an output was reported stop being pending, spends by expired
    /// transactions are forgotten, expired transactions stop being pending,
    /// pending coins without a pending transaction are swept, and the
    /// watermark of `address` becomes `tip`.
    pub open spec fn incremental_sync(
        self,
        address: Address,
        coins: Seq<(CoinId, CoinDataHeightView)>,
        spenders: Seq<TxView>,
        tip: u64,
    ) -> DatabaseView {
        let pending1 = retained(self.pending, not_landed(coins));
        let pending2 = retained(pending1, not_expired(tip));
        DatabaseView {
            coins: inserted_all(self.coins, reported_coin_entries(coins), coins.len() as int),
            coin_confirmations: inserted_all(
                self.coin_confirmations,
                reported_confirmations(coins),
                coins.len() as int,
            ),
            spends: retained(
                spends_after(self.spends, spenders, spenders.len() as int),
                spender_alive(pending1, tip),
            ),
            pending: pending2,
            pending_coins: retained(self.pending_coins, still_pending(pending2)),
            sync_heights: watermark_set(self.sync_heights, address, tip),
            ..self
        }
    }

    /// The store after a full synchronization at height `tip`: the coins of
    /// `address` are replaced by the reported ones, with their
    /// confirmations, transactions of which an output was reported stop
    /// being pending, and the watermark of `address` becomes `tip`.
    pub open spec fn full_sync(
        self,
        address: Address,
        coins: Seq<(CoinId, CoinDataHeightView)>,
        tip: u64,
    ) -> DatabaseView {
        DatabaseView {
            coins: inserted_all(
                retained(self.coins, of_other_wallet(address)),
                reported_coin_entries(coins),
                coins.len() as int,
            ),
            coin_confirmations: inserted_all(
                self.coin_confirmations,
                reported_confirmations(coins),
                coins.len() as int,
            ),
            pending: retained(self.pending, not_landed(coins)),
            sync_heights: watermark_set(self.sync_heights, address, tip),
            ..self
        }
    }
}

/// Whether the first height comes before the second or is the same, a
/// missing height being the last of all.
pub open spec fn height_le(a: Option<u64>, b: Option<u64>) -> bool {
    match (a, b) {
        (_, None) => true,
        (None, Some(_)) => false,
        (Some(x), Some(y)) => x <= y,
    }
}

/// A list sorted by height with one more row put in its place: behind
/// every row that does not come after it.
pub open spec fn placed(sorted: Seq<(TxHash, Option<u64>)>, row: (TxHash, Option<u64>)) -> Seq<
    (TxHash, Option<u64>),
>
    decreases sorted.len(),
{
    if sorted.len() == 0 {
        seq![row]
    } else if height_le(sorted.last().1, row.1) {
        sorted.push(row)
    } else {
        placed(sorted.drop_last(), row).push(sorted.last())
    }
}

/// The first `n` rows of a history, sorted by height. Rows of the same
/// height keep their order.
pub open spec fn ordered(rows: Seq<Entry<TxHash, Option<u64>>>, n: int) -> Seq<
    (TxHash, Option<u64>),
>
    decreases n,
{
    if n <= 0 {
        Seq::empty()
    } else {
        placed(ordered(rows, n - 1), (rows[n - 1].key, rows[n - 1].value))
    }
}

/// Whether a list of a history is sorted by height, missing heights last.
pub open spec fn sorted_by_height(s: Seq<(TxHash, Option<u64>)>) -> bool {
    forall|i: int, j: int| 0 <= i < j < s.len() ==> height_le(#[trigger] s[i].1, #[trigger] s[j].1)
}

/// Putting a row in its place keeps a list sorted, and the list holds the
/// rows it held and the new one.
pub proof fn lemma_placed(sorted: Seq<(TxHash, Option<u64>)>, row: (TxHash, Option<u64>))
    requires
        sorted_by_height(sorted),
    ensures
        sorted_by_height(placed(sorted, row)),
        placed(sorted, row).len() == sorted.len() + 1,
        placed(sorted, row).to_multiset() == sorted.to_multiset().insert(row),
    decreases sorted.len(),
{
    broadcast use vstd::seq_lib::group_to_multiset_ensures;

    if sorted.len() == 0 {
        assert(seq![row] =~= Seq::<(TxHash, Option<u64>)>::empty().push(row));
    } else if height_le(sorted.last().1, row.1) {
        let t = sorted.push(row);
        assert forall|i: int, j: int| 0 <= i < j < t.len() implies height_le(
            #[trigger] t[i].1,
            #[trigger] t[j].1,
        ) by {
            if j == sorted.len() {
                if i < sorted.len() - 1 {
                    assert(height_le(sorted[i].1, sorted[sorted.len() - 1].1));
                }
            } else {
                assert(height_le(sorted[i].1, sorted[j].1));
            }
        }
    } else {
        let front = sorted.drop_last();
        assert forall|i: int, j: int| 0 <= i < j < front.len() implies height_le(
            #[trigger] front[i].1,
            #[trigger] front[j].1,
        ) by {
            assert(height_le(sorted[i].1, sorted[j].1));
        }
        lemma_placed(front, row);
        let inner = placed(front, row);
        let t = inner.push(sorted.last());
        assert(sorted =~= front.push(sorted.last()));
        assert forall|i: int, j: int| 0 <= i < j < t.len() implies height_le(
            #[trigger] t[i].1,
            #[trigger] t[j].1,
        ) by {
            if j == inner.len() {
                assert(inner.to_multiset().count(inner[i]) > 0);
                if inner[i] == row {
                } else {
                    assert(front.to_multiset().count(inner[i]) > 0);
                    assert(front.contains(inner[i]));
                    let k = choose|k: int| 0 <= k < front.len() && front[k] == inner[i];
                    assert(height_le(sorted[k].1, sorted[sorted.len() - 1].1));
                }
            } else {
                assert(height_le(inner[i].1, inner[j].1));
            }
        }
        assert(t.to_multiset() =~= sorted.to_multiset().insert(row));
    }
}

/// A history comes out sorted by height, missing heights last, with one
/// entry for each of its rows.
pub proof fn lemma_ordered(rows: Seq<Entry<TxHash, Option<u64>>>, n: int)
    requires
        0 <= n <= rows.len(),
    ensures
        sorted_by_height(ordered(rows, n)),
        ordered(rows, n).len() == n,
    decreases n,
{
    if n > 0 {
        lemma_ordered(rows, n - 1);
        lemma_placed(ordered(rows, n - 1), (rows[n - 1].key, rows[n - 1].value));
    }
}

impl DatabaseView {
    /// Whether the coin row `e` counts for the history of `address`: it
    /// belongs to the address and is not the proposer's reward of the
    /// height at which it was confirmed.
    pub open spec fn in_history(self, address: Address, e: Entry<CoinId, CoinDataView>) -> bool {
        &&& e.value.covhash == address
        &&& match lookup(self.coin_confirmations, e.key) {
            Some(h) => e.key != (CoinId { txhash: reward_pseudo_hash(h), index: 0 }),
            None => true,
        }
    }

    /// The transactions among the first `n` coin rows that created coins
    /// of `address`, each once and with the confirmation height of the
    /// last of its coins that is confirmed.
    pub open spec fn history_rows(self, address: Address, n: int) -> Seq<
        Entry<TxHash, Option<u64>>,
    >
        decreases n,
    {
        if n <= 0 {
            Seq::empty()
        } else {
            let e = self.coins[n - 1];
            let rows = self.history_rows(address, n - 1);
            if self.in_history(address, e) {
                match lookup(self.coin_confirmations, e.key) {
                    Some(h) => upserted(rows, Entry { key: e.key.txhash, value: Some(h) }),
                    None => if has_key(rows, e.key.txhash) {
                        rows
                    } else {
                        rows.push(Entry { key: e.key.txhash, value: None })
                    },
                }
            } else {
                rows
            }
        }
    }

    /// The history of `address`: its transactions with their confirmation
    /// heights, sorted by height, the unconfirmed last.
    pub open spec fn transaction_history(self, address: Address) -> Seq<(TxHash, Option<u64>)> {
        let rows = self.history_rows(address, self.coins.len() as int);
        ordered(rows, rows.len() as int)
    }

    /// The balances of `address` by denomination: the sums, saturating, of
    /// its unspent coins, confirmed or pending.
    pub open spec fn balances(self, address: Address) -> Sums {
        let coins = self.coin_mapping(address, false, false);
        tallied(coins, coins.len() as int)
    }

    /// The height at which the first of the outputs 0 to `n - 1` of a
    /// transaction is known and confirmed.
    pub open spec fn confirmed_output(self, h: TxHash, n: int) -> Option<u64>
        decreases n,
    {
        if n <= 0 {
            None
        } else {
            match self.confirmed_output(h, n - 1) {
                Some(height) => Some(height),
                None => match self.coin_confirmation(CoinId { txhash: h, index: (n - 1) as u8 }) {
                    Some(c) => Some(c.height),
                    None => None,
                },
            }
        }
    }

    /// Where a transaction is to be had from.
    pub open spec fn transaction_source(self, h: TxHash) -> TxSourceView {
        match lookup(self.transactions, h) {
            Some(t) => TxSourceView::Cached(t),
            None => match self.confirmed_output(h, OUTPUTS_SEARCHED as int) {
                Some(height) => TxSourceView::Node(height),
                None => TxSourceView::Unknown,
            },
        }
    }

    /// The pending transactions among the first `n` that the cache holds,
    /// in the order in which they became pending.
    pub open spec fn pending_transactions(self, n: int) -> Seq<TxView>
        decreases n,
    {
        if n <= 0 {
            Seq::empty()
        } else {
            match lookup(self.transactions, self.pending[n - 1].key) {
                Some(t) => self.pending_transactions(n - 1).push(t),
                None => self.pending_transactions(n - 1),
            }
        }
    }
}

/// The number of outputs of a transaction that are searched for a
/// confirmed coin.
pub const OUTPUTS_SEARCHED: usize = 11;

/// Where a transaction is to be had from, as contracts see it.
pub enum TxSourceView {
    Cached(TxView),
    Node(u64),
    Unknown,
}

/// Where a transaction is to be had from.
#[derive(Clone, Debug, PartialEq, Eq)]
pub enum TxSource {
    /// The cache holds it.
    Cached(Tx),
    /// One of its outputs was confirmed at this height: the node has the
    /// transaction at that height.
    Node(u64),
    /// The store knows nothing of it.
    Unknown,
}

impl View for TxSource {
    type V = TxSourceView;

    open spec fn view(&self) -> TxSourceView {
        match *self {
            TxSource::Cached(t) => TxSourceView::Cached(t@),
            TxSource::Node(h) => TxSourceView::Node(h),
            TxSource::Unknown => TxSourceView::Unknown,
        }
    }
}

/// Rows of keys and plain values, as a table holds them.
pub open spec fn plain_entries<K, V: View>(s: Seq<(K, V)>) -> Seq<Entry<K, V::V>> {
    Seq::new(s.len(), |i: int| Entry { key: s[i].0, value: s[i].1@ })
}

/// Rows of cached transactions, as a table holds them.
pub open spec fn tx_entries(s: Seq<(TxHash, Tx)>) -> Seq<Entry<TxHash, TxView>> {
    Seq::new(s.len(), |i: int| Entry { key: s[i].0, value: s[i].1@ })
}

/// Rows of wallets, as the store holds them.
pub open spec fn wallet_rows(s: Seq<(String, Vec<u8>)>) -> Seq<WalletView> {
    Seq::new(
        s.len(),
        |i: int|
            WalletView { name: s[i].0@, covhash: covenant_address(s[i].1@), covenant: s[i].1@ },
    )
}

/// The wallets after the first `n` of the given ones were registered in
/// turn, a wallet whose name is taken being left out.
pub open spec fn registered(ws: Seq<WalletView>, n: int) -> Seq<WalletView>
    decreases n,
{
    if n <= 0 {
        Seq::empty()
    } else if has_wallet(registered(ws, n - 1), ws[n - 1].name) {
        registered(ws, n - 1)
    } else {
        registered(ws, n - 1).push(ws[n - 1])
    }
}

/// The rows of a store, table by table: what is kept on disk.
pub struct DatabaseRows {
    pub coins: Vec<(CoinId, CoinData)>,
    pub coin_confirmations: Vec<(CoinId, u64)>,
    pub pending_coins: Vec<(CoinId, TxHash)>,
    pub spends: Vec<(CoinId, TxHash)>,
    pub pending: Vec<(TxHash, u64)>,
    pub transactions: Vec<(TxHash, Tx)>,
    /// The name and the covenant of each wallet.
    pub wallet_names: Vec<(String, Vec<u8>)>,
    pub sync_heights: Vec<(Address, u64)>,
}

impl DatabaseRows {
    /// The store that holds these rows, each table keeping the first row
    /// of a key.
    pub open spec fn restored(self) -> DatabaseView {
        DatabaseView {
            coins: inserted_all(
                Seq::empty(),
                coin_entries(self.coins@),
                self.coins@.len() as int,
            ),
            coin_confirmations: inserted_all(
                Seq::empty(),
                plain_entries(self.coin_confirmations@),
                self.coin_confirmations@.len() as int,
            ),
            pending_coins: inserted_all(
                Seq::empty(),
                plain_entries(self.pending_coins@),
                self.pending_coins@.len() as int,
            ),
            spends: inserted_all(
                Seq::empty(),
                plain_entries(self.spends@),
                self.spends@.len() as int,
            ),
            pending: inserted_all(
                Seq::empty(),
                plain_entries(self.pending@),
                self.pending@.len() as int,
            ),
            transactions: inserted_all(
                Seq::empty(),
                tx_entries(self.transactions@),
                self.transactions@.len() as int,
            ),
            wallets: registered(
                wallet_rows(self.wallet_names@),
                self.wallet_names@.len() as int,
            ),
            sync_heights: inserted_all(
                Seq::empty(),
                plain_entries(self.sync_heights@),
                self.sync_heights@.len() as int,
            ),
        }
    }
}

/// Why a wallet could not be created.
#[derive(Clone, Copy, Debug, PartialEq, Eq)]
pub enum CreateWalletError {
    /// A wallet of that name is registered already.
    AlreadyExists,
    /// The seed of the signing key is malformed.
    SecretKey,
    /// The signing key could not be sealed under the password.
    Sealing,
    /// The system's random source gave no seed for a fresh key.
    RandomSource,
}

/// The wallet store.
pub struct Database {
    coins: Table<CoinId, CoinData>,
    coin_confirmations: Table<CoinId, u64>,
    pending_coins: Table<CoinId, TxHash>,
    spends: Table<CoinId, TxHash>,
    pending: Table<TxHash, u64>,
    transactions: Table<TxHash, Tx>,
    wallets: Vec<Wallet>,
    sync_heights: Table<Address, u64>,
}

impl View for Database {
    type V = DatabaseView;

    closed spec fn view(&self) -> DatabaseView {
        DatabaseView {
            coins: self.coins@,
            coin_confirmations: self.coin_confirmations@,
            pending_coins: self.pending_coins@,
            spends: self.spends@,
            pending: self.pending@,
            transactions: self.transactions@,
            wallets: Seq::new(self.wallets@.len(), |i: int| self.wallets@[i]@),
            sync_heights: self.sync_heights@,
        }
    }
}

/// The rows of a coin listing, as contracts see them.
pub open spec fn coin_entries(s: Seq<(CoinId, CoinData)>) -> Seq<Entry<CoinId, CoinDataView>> {
    Seq::new(s.len(), |i: int| Entry { key: s[i].0, value: s[i].1@ })
}

impl Database {
    /// The store's invariant: no table holds a key twice.
    pub open spec fn wf(&self) -> bool {
        self@.wf()
    }

    proof fn lemma_tables_wf(&self)
        requires
            self.wf(),
        ensures
            self.coins.wf(),
            self.coin_confirmations.wf(),
            self.pending_coins.wf(),
            self.spends.wf(),
            self.pending.wf(),
            self.transactions.wf(),
            self.sync_heights.wf(),
    {
        self.coins.lemma_wf();
        self.coin_confirmations.lemma_wf();
        self.pending_coins.lemma_wf();
        self.spends.lemma_wf();
        self.pending.lemma_wf();
        self.transactions.lemma_wf();
        self.sync_heights.lemma_wf();
    }

    /// A store with all its tables and no rows.
    pub fn open() -> (db: Database)
        ensures
            db.wf(),
            db@.coins.len() == 0,
            db@.coin_confirmations.len() == 0,
            db@.pending_coins.len() == 0,
            db@.spends.len() == 0,
            db@.pending.len() == 0,
            db@.transactions.len() == 0,
            db@.wallets.len() == 0,
            db@.sync_heights.len() == 0,
            db@.consistent(),
    {
        Database {
            coins: Table::new(),
            coin_confirmations: Table::new(),
            pending_coins: Table::new(),
            spends: Table::new(),
            pending: Table::new(),
            transactions: Table::new(),
            wallets: Vec::new(),
            sync_heights: Table::new(),
        }
    }

    /// The names of the registered wallets, in the order of registration.
    pub fn list_wallets(&self) -> (names: Vec<String>)
        ensures
            names@.len() == self@.wallets.len(),
            forall|i: int| 0 <= i < names@.len() ==> (#[trigger] names@[i])@ == self@.wallets[i].name,
    {
        let mut names: Vec<String> = Vec::new();
        let mut i: usize = 0;
        while i < self.wallets.len()
            invariant
                i <= self.wallets.len(),
                names@.len() == i,
                forall|j: int| 0 <= j < i ==> (#[trigger] names@[j])@ == self@.wallets[j].name,
            decreases self.wallets.len() - i,
        {
            names.push(self.wallets[i].name.clone());
            i += 1;
        }
        names
    }

    fn find_wallet(&self, name: &String) -> (r: Option<usize>)
        ensures
            match r {
                Some(i) => i < self@.wallets.len() && self@.wallets[i as int].name == name@,
                None => !has_wallet(self@.wallets, name@),
            },
    {
        let mut i: usize = 0;
        while i < self.wallets.len()
            invariant
                i <= self.wallets.len(),
                forall|j: int| 0 <= j < i ==> (#[trigger] self@.wallets[j]).name != name@,
            decreases self.wallets.len() - i,
        {
            if self.wallets[i].name == *name {
                return Some(i);
            }
            i += 1;
        }
        None
    }

    /// The wallet registered under `name`, if there is one.
    pub fn get_wallet(&self, name: &str) -> (r: Option<Wallet>)
        requires
            self.wf(),
        ensures
            match r {
                Some(w) => has_wallet(self@.wallets, name@) && w@ == wallet_named(
                    self@.wallets,
                    name@,
                ),
                None => !has_wallet(self@.wallets, name@),
            },
    {
        let owned = name.to_owned();
        match self.find_wallet(&owned) {
            Some(i) => {
                let w = &self.wallets[i];
                proof {
                    let j = choose|j: int|
                        0 <= j < self@.wallets.len() && (#[trigger] self@.wallets[j]).name == name@;
                    if j < i {
                        assert(self@.wallets[j].name != self@.wallets[i as int].name);
                    }
                    if i < j {
                        assert(self@.wallets[i as int].name != self@.wallets[j].name);
                    }
                }
                Some(
                    Wallet {
                        name: w.name.clone(),
                        covhash: w.covhash,
                        covenant: clone_bytes(&w.covenant),
                    },
                )
            },
            None => None,
        }
    }

    /// Registers a wallet under `name`, with the hash of `covenant` as its
    /// address. Fails, changing nothing, when the name is taken.
    pub fn create_wallet(&mut self, name: &str, covenant: Vec<u8>) -> (r: Result<
        (),
        CreateWalletError,
    >)
        requires
            old(self).wf(),
        ensures
            final(self).wf(),
            r is Err <==> has_wallet(old(self)@.wallets, name@),
            r is Err ==> r == Err::<(), CreateWalletError>(CreateWalletError::AlreadyExists)
                && final(self)@ == old(self)@,
            r is Ok ==> final(self)@ == (DatabaseView {
                wallets: old(self)@.wallets.push(
                    WalletView {
                        name: name@,
                        covhash: covenant_address(covenant@),
                        covenant: covenant@,
                    },
                ),
                ..old(self)@
            }),
    {
        let owned = name.to_owned();
        if self.find_wallet(&owned).is_some() {
            return Err(CreateWalletError::AlreadyExists);
        }
        let covhash = address_of_covenant(&covenant);
        let ghost before = self@;
        let ghost added = WalletView { name: name@, covhash, covenant: covenant@ };
        self.wallets.push(Wallet { name: owned, covhash, covenant });
        proof {
            assert(self@.wallets =~= before.wallets.push(added));
            assert forall|i: int, j: int| 0 <= i < j < self@.wallets.len() implies (
            #[trigger] self@.wallets[i]).name != (#[trigger] self@.wallets[j]).name by {
                if j == before.wallets.len() {
                    assert(before.wallets[i].name != name@);
                } else {
                    assert(before.wallets[i].name != before.wallets[j].name);
                }
            }
        }
        Ok(())
    }
}

impl Database {
    /// Marks each input of `tx` as spent by it, unless a spend is recorded
    /// against the input already.
    fn record_spends(&mut self, tx: &Tx, txhash: TxHash)
        requires
            old(self).wf(),
            txhash == tx@.hash_nosigs(),
        ensures
            final(self).wf(),
            final(self)@ == (DatabaseView {
                spends: inserted_all(old(self)@.spends, spend_entries(tx@), tx@.inputs.len() as int),
                ..old(self)@
            }),
    {
        let ghost before = self@;
        let ghost es = spend_entries(tx@);
        proof {
            self.lemma_tables_wf();
        }
        let mut i: usize = 0;
        while i < tx.inputs.len()
            invariant
                i <= tx.inputs.len(),
                self.spends.wf(),
                es == spend_entries(tx@),
                txhash == tx@.hash_nosigs(),
                self@ == (DatabaseView { spends: inserted_all(before.spends, es, i as int), ..before }),
            decreases tx.inputs.len() - i,
        {
            self.spends.insert_new(tx.inputs[i], txhash);
            i += 1;
        }
        proof {
            self.spends.lemma_wf();
        }
    }

    /// Records each reported coin and its confirmation height, unless the
    /// coin, or its confirmation, is recorded already.
    fn record_confirmed(&mut self, coins: &Vec<(CoinId, CoinDataHeight)>)
        requires
            old(self).wf(),
        ensures
            final(self).wf(),
            final(self)@ == (DatabaseView {
                coins: inserted_all(
                    old(self)@.coins,
                    reported_coin_entries(reported_coins(coins@)),
                    coins@.len() as int,
                ),
                coin_confirmations: inserted_all(
                    old(self)@.coin_confirmations,
                    reported_confirmations(reported_coins(coins@)),
                    coins@.len() as int,
                ),
                ..old(self)@
            }),
    {
        let ghost before = self@;
        let ghost cs = reported_coins(coins@);
        proof {
            self.lemma_tables_wf();
        }
        let mut i: usize = 0;
        while i < coins.len()
            invariant
                i <= coins.len(),
                self.coins.wf(),
                self.coin_confirmations.wf(),
                cs == reported_coins(coins@),
                self@ == (DatabaseView {
                    coins: inserted_all(before.coins, reported_coin_entries(cs), i as int),
                    coin_confirmations: inserted_all(
                        before.coin_confirmations,
                        reported_confirmations(cs),
                        i as int,
                    ),
                    ..before
                }),
            decreases coins.len() - i,
        {
            let id = coins[i].0;
            self.coins.insert_new(id, coins[i].1.coin_data.duplicate());
            self.coin_confirmations.insert_new(id, coins[i].1.height);
            i += 1;
        }
        proof {
            self.coins.lemma_wf();
            self.coin_confirmations.lemma_wf();
        }
    }

    /// Stops every transaction of which an output was reported from being
    /// pending.
    fn confirm_landed(&mut self, coins: &Vec<(CoinId, CoinDataHeight)>)
        requires
            old(self).wf(),
        ensures
            final(self).wf(),
            final(self)@ == (DatabaseView {
                pending: retained(old(self)@.pending, not_landed(reported_coins(coins@))),
                ..old(self)@
            }),
    {
        let ghost cs = reported_coins(coins@);
        let ghost p = not_landed(cs);
        proof {
            self.lemma_tables_wf();
        }
        let n = self.pending.len();
        let mut marks: Vec<bool> = Vec::new();
        let mut i: usize = 0;
        while i < n
            invariant
                n == self.pending@.len(),
                i <= n,
                marks@.len() == i,
                cs == reported_coins(coins@),
                p == not_landed(cs),
                forall|j: int| 0 <= j < i ==> marks@[j] == p(#[trigger] self.pending@[j]),
            decreases n - i,
        {
            let h = self.pending.key_at(i);
            let mut found = false;
            let mut k: usize = 0;
            while k < coins.len()
                invariant
                    k <= coins.len(),
                    cs == reported_coins(coins@),
                    found <==> exists|m: int| 0 <= m < k && (#[trigger] cs[m]).0.txhash == h,
                decreases coins.len() - k,
            {
                if coins[k].0.txhash.same(&h) {
                    assert(cs[k as int].0.txhash == h);
                    found = true;
                }
                k += 1;
            }
            marks.push(!found);
            i += 1;
        }
        self.pending.retain_marked(&marks, Ghost(p));
        proof {
            self.pending.lemma_wf();
        }
    }

    /// Forgets the spends of transactions that expired before `tip`, stops
    /// those transactions from being pending, and sweeps the pending coins
    /// that are left without a pending transaction.
    fn evict_expired(&mut self, tip: u64)
        requires
            old(self).wf(),
        ensures
            final(self).wf(),
            final(self)@ == (DatabaseView {
                spends: retained(old(self)@.spends, spender_alive(old(self)@.pending, tip)),
                pending: retained(old(self)@.pending, not_expired(tip)),
                pending_coins: retained(
                    old(self)@.pending_coins,
                    still_pending(retained(old(self)@.pending, not_expired(tip))),
                ),
                ..old(self)@
            }),
    {
        let ghost before = self@;
        proof {
            self.lemma_tables_wf();
        }
        // spends of expired transactions
        let ghost alive = spender_alive(before.pending, tip);
        let n = self.spends.len();
        let mut marks: Vec<bool> = Vec::new();
        let mut i: usize = 0;
        while i < n
            invariant
                n == self.spends@.len(),
                i <= n,
                marks@.len() == i,
                self@ == before,
                self.pending.wf(),
                alive == spender_alive(before.pending, tip),
                forall|j: int| 0 <= j < i ==> marks@[j] == alive(#[trigger] self.spends@[j]),
            decreases n - i,
        {
            let gone = match self.pending.get(self.spends.value_at(i)) {
                Some(expires) => *expires < tip,
                None => false,
            };
            marks.push(!gone);
            i += 1;
        }
        self.spends.retain_marked(&marks, Ghost(alive));
        // expired transactions
        let ghost fresh = not_expired(tip);
        let n = self.pending.len();
        let mut marks: Vec<bool> = Vec::new();
        let mut i: usize = 0;
        while i < n
            invariant
                n == self.pending@.len(),
                i <= n,
                marks@.len() == i,
                self.pending@ == before.pending,
                fresh == not_expired(tip),
                forall|j: int| 0 <= j < i ==> marks@[j] == fresh(#[trigger] self.pending@[j]),
            decreases n - i,
        {
            marks.push(*self.pending.value_at(i) >= tip);
            i += 1;
        }
        self.pending.retain_marked(&marks, Ghost(fresh));
        // pending coins of transactions that are no longer pending
        let ghost held = still_pending(self.pending@);
        let n = self.pending_coins.len();
        let mut marks: Vec<bool> = Vec::new();
        let mut i: usize = 0;
        while i < n
            invariant
                n == self.pending_coins@.len(),
                i <= n,
                marks@.len() == i,
                held == still_pending(self.pending@),
                forall|j: int| 0 <= j < i ==> marks@[j] == held(#[trigger] self.pending_coins@[j]),
            decreases n - i,
        {
            marks.push(self.pending.contains(self.pending_coins.value_at(i)));
            i += 1;
        }
        self.pending_coins.retain_marked(&marks, Ghost(held));
        proof {
            self.spends.lemma_wf();
            self.pending.lemma_wf();
            self.pending_coins.lemma_wf();
        }
    }

    /// Forgets every coin of `address`.
    fn forget_coins(&mut self, address: Address)
        requires
            old(self).wf(),
        ensures
            final(self).wf(),
            final(self)@ == (DatabaseView {
                coins: retained(old(self)@.coins, of_other_wallet(address)),
                ..old(self)@
            }),
    {
        let ghost p = of_other_wallet(address);
        proof {
            self.lemma_tables_wf();
        }
        let n = self.coins.len();
        let mut marks: Vec<bool> = Vec::new();
        let mut i: usize = 0;
        while i < n
            invariant
                n == self.coins@.len(),
                i <= n,
                marks@.len() == i,
                p == of_other_wallet(address),
                forall|j: int| 0 <= j < i ==> marks@[j] == p(#[trigger] self.coins@[j]),
            decreases n - i,
        {
            marks.push(!self.coins.value_at(i).covhash.same(&address));
            i += 1;
        }
        self.coins.retain_marked(&marks, Ghost(p));
        proof {
            self.coins.lemma_wf();
        }
    }

    /// Sets the watermark of `address` to `tip`.
    fn set_watermark(&mut self, address: Address, tip: u64)
        requires
            old(self).wf(),
        ensures
            final(self).wf(),
            final(self)@ == (DatabaseView {
                sync_heights: watermark_set(old(self)@.sync_heights, address, tip),
                ..old(self)@
            }),
    {
        let ghost before = self@;
        let ghost p = other_address(address);
        proof {
            self.lemma_tables_wf();
        }
        let n = self.sync_heights.len();
        let mut marks: Vec<bool> = Vec::new();
        let mut i: usize = 0;
        while i < n
            invariant
                n == self.sync_heights@.len(),
                i <= n,
                marks@.len() == i,
                p == other_address(address),
                forall|j: int| 0 <= j < i ==> marks@[j] == p(#[trigger] self.sync_heights@[j]),
            decreases n - i,
        {
            marks.push(!self.sync_heights.key_at(i).same(&address));
            i += 1;
        }
        self.sync_heights.retain_marked(&marks, Ghost(p));
        proof {
            lemma_retained(before.sync_heights, p);
            assert(lookup(retained(before.sync_heights, p), address) is None);
        }
        self.sync_heights.insert_new(address, tip);
        proof {
            self.sync_heights.lemma_wf();
        }
    }

    /// Records each output of a sent transaction that has a coin
    /// identifier as a coin and as a pending coin, unless a row is there
    /// already.
    fn record_outputs(&mut self, tx: &Tx, txhash: TxHash)
        requires
            old(self).wf(),
            txhash == tx@.hash_nosigs(),
        ensures
            final(self).wf(),
            final(self)@ == (DatabaseView {
                coins: inserted_all(
                    old(self)@.coins,
                    output_coin_entries(tx@),
                    outputs_with_id(tx@),
                ),
                pending_coins: inserted_all(
                    old(self)@.pending_coins,
                    output_pending_entries(tx@),
                    outputs_with_id(tx@),
                ),
                ..old(self)@
            }),
    {
        let ghost before = self@;
        proof {
            self.lemma_tables_wf();
        }
        let n: usize = if tx.outputs.len() < 256 {
            tx.outputs.len()
        } else {
            256
        };
        let mut i: usize = 0;
        while i < n
            invariant
                i <= n,
                n == outputs_with_id(tx@),
                self.coins.wf(),
                self.pending_coins.wf(),
                txhash == tx@.hash_nosigs(),
                self@ == (DatabaseView {
                    coins: inserted_all(before.coins, output_coin_entries(tx@), i as int),
                    pending_coins: inserted_all(
                        before.pending_coins,
                        output_pending_entries(tx@),
                        i as int,
                    ),
                    ..before
                }),
            decreases n - i,
        {
            let id = CoinId { txhash, index: i as u8 };
            let o = &tx.outputs[i];
            let denom = match o.denom {
                Denom::NewCustom => Denom::Custom(txhash),
                d => d,
            };
            let coin = CoinData {
                covhash: o.covhash,
                value: o.value,
                denom,
                additional_data: clone_bytes(&o.additional_data),
            };
            assert(coin@ == recorded_output(tx@, i as int));
            self.coins.insert_new(id, coin);
            self.pending_coins.insert_new(id, txhash);
            i += 1;
        }
        proof {
            self.coins.lemma_wf();
            self.pending_coins.lemma_wf();
        }
    }

    /// Marks the inputs of each reported spender as spent by it, unless a
    /// spend is recorded against the input already.
    fn record_spenders(&mut self, spenders: &Vec<Tx>)
        requires
            old(self).wf(),
        ensures
            final(self).wf(),
            final(self)@ == (DatabaseView {
                spends: spends_after(old(self)@.spends, txs_view(spenders@), spenders@.len() as int),
                ..old(self)@
            }),
    {
        let ghost before = self@;
        let mut i: usize = 0;
        while i < spenders.len()
            invariant
                i <= spenders.len(),
                self.wf(),
                self@ == (DatabaseView {
                    spends: spends_after(before.spends, txs_view(spenders@), i as int),
                    ..before
                }),
            decreases spenders.len() - i,
        {
            let txhash = spenders[i].hash_nosigs();
            self.record_spends(&spenders[i], txhash);
            i += 1;
        }
    }

    /// Caches a transaction under its hash, unless the cache has one under
    /// that hash already.
    pub(crate) fn put_transaction(&mut self, txhash: TxHash, txn: Tx)
        requires
            old(self).wf(),
            txhash == txn@.hash_nosigs(),
        ensures
            final(self).wf(),
            final(self)@ == (DatabaseView {
                transactions: inserted(
                    old(self)@.transactions,
                    Entry { key: txhash, value: txn@ },
                ),
                ..old(self)@
            }),
    {
        proof {
            self.lemma_tables_wf();
        }
        self.transactions.insert_new(txhash, txn);
        proof {
            self.transactions.lemma_wf();
        }
    }

    /// The pending transactions that the cache holds, in the order in
    /// which they became pending: what is sent to the node once more.
    pub fn retransmit_pending(&self) -> (r: Vec<Tx>)
        requires
            self.wf(),
        ensures
            txs_view(r@) == self@.pending_transactions(self@.pending.len() as int),
    {
        proof {
            self.lemma_tables_wf();
        }
        let mut out: Vec<Tx> = Vec::new();
        let n = self.pending.len();
        let mut i: usize = 0;
        assert(txs_view(out@) =~= Seq::empty());
        while i < n
            invariant
                n == self@.pending.len(),
                i <= n,
                self.transactions.wf(),
                txs_view(out@) == self@.pending_transactions(i as int),
            decreases n - i,
        {
            let h = self.pending.key_at(i);
            let ghost before = txs_view(out@);
            match self.transactions.get(&h) {
                Some(t) => {
                    out.push(t.duplicate());
                    assert(txs_view(out@) =~= before.push(t@));
                },
                None => {},
            }
            i += 1;
        }
        out
    }

    /// The watermark of `address`: the height up to which its coins have
    /// been processed, 0 where none is recorded.
    pub fn sync_height(&self, address: Address) -> (r: u64)
        requires
            self.wf(),
        ensures
            r == self@.sync_height(address),
    {
        proof {
            self.lemma_tables_wf();
        }
        match self.sync_heights.get(&address) {
            Some(h) => *h,
            None => 0,
        }
    }
}

/// Fills a table with rows of plain values, keeping the first row of a
/// key.
fn fill_plain<K: RowKey, V: Copy + View>(rows: &Vec<(K, V)>) -> (t: Table<K, V>)
    ensures
        t.wf(),
        t@ == inserted_all(Seq::empty(), plain_entries(rows@), rows@.len() as int),
{
    let mut t: Table<K, V> = Table::new();
    let mut i: usize = 0;
    while i < rows.len()
        invariant
            i <= rows.len(),
            t.wf(),
            t@ == inserted_all(Seq::empty(), plain_entries(rows@), i as int),
        decreases rows.len() - i,
    {
        t.insert_new(rows[i].0, rows[i].1);
        i += 1;
    }
    t
}

/// The rows of a table of plain values.
fn dump_plain<K: RowKey, V: Copy + View>(t: &Table<K, V>) -> (rows: Vec<(K, V)>)
    ensures
        plain_entries(rows@) == t@,
{
    let mut rows: Vec<(K, V)> = Vec::new();
    let n = t.len();
    let mut i: usize = 0;
    while i < n
        invariant
            n == t@.len(),
            i <= n,
            rows@.len() == i,
            forall|j: int| 0 <= j < i ==> plain_entries(rows@)[j] == t@[j],
        decreases n - i,
    {
        rows.push((t.key_at(i), *t.value_at(i)));
        i += 1;
    }
    assert(plain_entries(rows@) =~= t@);
    rows
}

impl Database {
    /// The store that holds the given rows. Where a key stands in two rows
    /// of a table, the first row is kept; the address of a wallet is the
    /// hash of its covenant.
    pub fn from_rows(rows: &DatabaseRows) -> (db: Database)
        ensures
            db.wf(),
            db@ == rows.restored(),
    {
        let mut coins: Table<CoinId, CoinData> = Table::new();
        let mut i: usize = 0;
        while i < rows.coins.len()
            invariant
                i <= rows.coins.len(),
                coins.wf(),
                coins@ == inserted_all(Seq::empty(), coin_entries(rows.coins@), i as int),
            decreases rows.coins.len() - i,
        {
            coins.insert_new(rows.coins[i].0, rows.coins[i].1.duplicate());
            i += 1;
        }
        let mut transactions: Table<TxHash, Tx> = Table::new();
        let mut k: usize = 0;
        while k < rows.transactions.len()
            invariant
                k <= rows.transactions.len(),
                transactions.wf(),
                transactions@ == inserted_all(
                    Seq::empty(),
                    tx_entries(rows.transactions@),
                    k as int,
                ),
            decreases rows.transactions.len() - k,
        {
            transactions.insert_new(rows.transactions[k].0, rows.transactions[k].1.duplicate());
            k += 1;
        }
        let mut db = Database {
            coins,
            coin_confirmations: fill_plain(&rows.coin_confirmations),
            pending_coins: fill_plain(&rows.pending_coins),
            spends: fill_plain(&rows.spends),
            pending: fill_plain(&rows.pending),
            transactions,
            wallets: Vec::new(),
            sync_heights: fill_plain(&rows.sync_heights),
        };
        proof {
            db.coins.lemma_wf();
            db.coin_confirmations.lemma_wf();
            db.pending_coins.lemma_wf();
            db.spends.lemma_wf();
            db.pending.lemma_wf();
            db.transactions.lemma_wf();
            db.sync_heights.lemma_wf();
            assert(db@.wallets =~= Seq::empty());
        }
        let ghost ws = wallet_rows(rows.wallet_names@);
        let ghost filled = db@;
        let mut w: usize = 0;
        while w < rows.wallet_names.len()
            invariant
                w <= rows.wallet_names.len(),
                db.wf(),
                ws == wallet_rows(rows.wallet_names@),
                db@ == (DatabaseView { wallets: registered(ws, w as int), ..filled }),
            decreases rows.wallet_names.len() - w,
        {
            let name = rows.wallet_names[w].0.as_str();
            let covenant = clone_bytes(&rows.wallet_names[w].1);
            let _ = db.create_wallet(name, covenant);
            w += 1;
        }
        db
    }

    /// The rows of the store, table by table and in table order.
    pub fn dump(&self) -> (rows: DatabaseRows)
        ensures
            coin_entries(rows.coins@) == self@.coins,
            plain_entries(rows.coin_confirmations@) == self@.coin_confirmations,
            plain_entries(rows.pending_coins@) == self@.pending_coins,
            plain_entries(rows.spends@) == self@.spends,
            plain_entries(rows.pending@) == self@.pending,
            tx_entries(rows.transactions@) == self@.transactions,
            rows.wallet_names@.len() == self@.wallets.len(),
            forall|i: int|
                0 <= i < rows.wallet_names@.len() ==> (#[trigger] rows.wallet_names@[i]).0@
                    == self@.wallets[i].name && rows.wallet_names@[i].1@
                    == self@.wallets[i].covenant,
            plain_entries(rows.sync_heights@) == self@.sync_heights,
    {
        let mut coins: Vec<(CoinId, CoinData)> = Vec::new();
        let n = self.coins.len();
        let mut i: usize = 0;
        while i < n
            invariant
                n == self.coins@.len(),
                i <= n,
                coins@.len() == i,
                forall|j: int| 0 <= j < i ==> coin_entries(coins@)[j] == self.coins@[j],
            decreases n - i,
        {
            coins.push((self.coins.key_at(i), self.coins.value_at(i).duplicate()));
            i += 1;
        }
        assert(coin_entries(coins@) =~= self.coins@);
        let mut transactions: Vec<(TxHash, Tx)> = Vec::new();
        let m = self.transactions.len();
        let mut k: usize = 0;
        while k < m
            invariant
                m == self.transactions@.len(),
                k <= m,
                transactions@.len() == k,
                forall|j: int| 0 <= j < k ==> tx_entries(transactions@)[j] == self.transactions@[j],
            decreases m - k,
        {
            transactions.push((self.transactions.key_at(k), self.transactions.value_at(k).duplicate()));
            k += 1;
        }
        assert(tx_entries(transactions@) =~= self.transactions@);
        let mut wallet_names: Vec<(String, Vec<u8>)> = Vec::new();
        let mut w: usize = 0;
        while w < self.wallets.len()
            invariant
                w <= self.wallets.len(),
                wallet_names@.len() == w,
                forall|j: int|
                    0 <= j < w ==> (#[trigger] wallet_names@[j]).0@ == self@.wallets[j].name
                        && wallet_names@[j].1@ == self@.wallets[j].covenant,
            decreases self.wallets.len() - w,
        {
            wallet_names.push((self.wallets[w].name.clone(), clone_bytes(&self.wallets[w].covenant)));
            w += 1;
        }
        DatabaseRows {
            coins,
            coin_confirmations: dump_plain(&self.coin_confirmations),
            pending_coins: dump_plain(&self.pending_coins),
            spends: dump_plain(&self.spends),
            pending: dump_plain(&self.pending),
            transactions,
            wallet_names,
            sync_heights: dump_plain(&self.sync_heights),
        }
    }
}

impl Wallet {
    /// The wallet's name.
    pub fn name(&self) -> (r: String)
        ensures
            r@ == self@.name,
    {
        self.name.clone()
    }

    /// The wallet's address: the hash of its covenant.
    pub fn address(&self) -> (r: Address)
        ensures
            r == self@.covhash,
    {
        self.covhash
    }

    /// The bytecode of the wallet's covenant.
    pub fn covenant(&self) -> (r: Vec<u8>)
        ensures
            r@ == self@.covenant,
    {
        clone_bytes(&self.covenant)
    }

    /// Any coin that the store has seen, of this wallet or another.
    pub fn get_one_coin(&self, db: &Database, coin_id: CoinId) -> (r: Option<CoinData>)
        requires
            db.wf(),
        ensures
            match r {
                Some(c) => lookup(db@.coins, coin_id) == Some(c@),
                None => lookup(db@.coins, coin_id) is None,
            },
    {
        proof {
            db.lemma_tables_wf();
        }
        match db.coins.get(&coin_id) {
            Some(c) => Some(c.duplicate()),
            None => None,
        }
    }

    /// A coin with the height at which it was confirmed; `None` where the
    /// coin is unknown or not confirmed.
    pub fn get_coin_confirmation(&self, db: &Database, coin_id: CoinId) -> (r: Option<
        CoinDataHeight,
    >)
        requires
            db.wf(),
        ensures
            match r {
                Some(c) => db@.coin_confirmation(coin_id) == Some(c@),
                None => db@.coin_confirmation(coin_id) is None,
            },
    {
        proof {
            db.lemma_tables_wf();
        }
        match db.coins.get(&coin_id) {
            Some(c) => match db.coin_confirmations.get(&coin_id) {
                Some(h) => Some(CoinDataHeight { coin_data: c.duplicate(), height: *h }),
                None => None,
            },
            None => None,
        }
    }

    /// Whether a transaction awaits confirmation.
    pub fn is_pending(&self, db: &Database, txhash: TxHash) -> (r: bool)
        ensures
            r == has_key(db@.pending, txhash),
    {
        db.pending.contains(&txhash)
    }

    /// A transaction from the cache.
    pub fn get_cached_transaction(&self, db: &Database, txhash: TxHash) -> (r: Option<Tx>)
        requires
            db.wf(),
        ensures
            match r {
                Some(t) => lookup(db@.transactions, txhash) == Some(t@),
                None => lookup(db@.transactions, txhash) is None,
            },
    {
        proof {
            db.lemma_tables_wf();
        }
        match db.transactions.get(&txhash) {
            Some(t) => Some(t.duplicate()),
            None => None,
        }
    }

    /// Records a transaction as sent: see [`DatabaseView::commit_sent`].
    pub fn commit_sent(&self, db: &mut Database, txn: Tx, timeout: u64)
        requires
            old(db).wf(),
        ensures
            final(db).wf(),
            final(db)@ == old(db)@.commit_sent(txn@, timeout),
            old(db)@.consistent() ==> final(db)@.consistent(),
    {
        proof {
            if db@.consistent() {
                lemma_commit_sent_keeps_consistent(db@, txn@, timeout);
            }
        }
        let txhash = txn.hash_nosigs();
        db.record_spends(&txn, txhash);
        if txn.kind.is_normal() {
            db.record_outputs(&txn, txhash);
        }
        proof {
            db.lemma_tables_wf();
        }
        db.pending.insert_new(txhash, timeout);
        db.transactions.insert_new(txhash, txn);
        proof {
            db.pending.lemma_wf();
            db.transactions.lemma_wf();
        }
    }

    /// Replaces what the store knows of this wallet's coins by the coins
    /// that the node reports at height `tip`: see
    /// [`DatabaseView::full_sync`].
    pub fn full_sync(&self, db: &mut Database, coins: &Vec<(CoinId, CoinDataHeight)>, tip: u64)
        requires
            old(db).wf(),
        ensures
            final(db).wf(),
            final(db)@ == old(db)@.full_sync(self@.covhash, reported_coins(coins@), tip),
            old(db)@.consistent() ==> final(db)@.consistent(),
    {
        proof {
            if db@.consistent() {
                lemma_sync_keeps_consistent(
                    db@,
                    self@.covhash,
                    reported_coins(coins@),
                    Seq::empty(),
                    tip,
                );
            }
        }
        db.forget_coins(self.covhash);
        db.confirm_landed(coins);
        db.record_confirmed(coins);
        db.set_watermark(self.covhash, tip);
    }

    /// Applies what the node reports for the heights after the watermark up
    /// to `tip`: see [`DatabaseView::incremental_sync`].
    pub fn incremental_sync(
        &self,
        db: &mut Database,
        coins: &Vec<(CoinId, CoinDataHeight)>,
        spenders: &Vec<Tx>,
        tip: u64,
    )
        requires
            old(db).wf(),
        ensures
            final(db).wf(),
            final(db)@ == old(db)@.incremental_sync(
                self@.covhash,
                reported_coins(coins@),
                txs_view(spenders@),
                tip,
            ),
            old(db)@.consistent() ==> final(db)@.consistent(),
    {
        proof {
            if db@.consistent() {
                lemma_sync_keeps_consistent(
                    db@,
                    self@.covhash,
                    reported_coins(coins@),
                    txs_view(spenders@),
                    tip,
                );
            }
        }
        db.record_confirmed(coins);
        db.record_spenders(spenders);
        db.confirm_landed(coins);
        db.evict_expired(tip);
        db.set_watermark(self.covhash, tip);
    }

    /// The balances of this wallet by denomination: the sums of its
    /// unspent coins, confirmed or pending. A sum that does not fit in 128
    /// bits is given as the largest 128-bit number.
    pub fn get_balances(&self, db: &Database) -> (r: Table<Denom, u128>)
        requires
            db.wf(),
        ensures
            r.wf(),
            r@ == db@.balances(self@.covhash),
    {
        let coins = self.get_coin_mapping(db, false, false);
        let ghost cs = coin_entries(coins@);
        let mut sums: Table<Denom, u128> = Table::new();
        let mut i: usize = 0;
        while i < coins.len()
            invariant
                i <= coins.len(),
                cs == coin_entries(coins@),
                sums.wf(),
                sums@ == tallied(cs, i as int),
            decreases coins.len() - i,
        {
            let d = coins[i].1.denom;
            let total = amount_of(&sums, &d).saturating_add(coins[i].1.value);
            sums.put(d, total);
            i += 1;
        }
        sums
    }

    /// The history of this wallet: the transactions that created its
    /// coins, each with the height at which it was confirmed, sorted by
    /// height with the unconfirmed last. The proposer's rewards are left
    /// out.
    pub fn get_transaction_history(&self, db: &Database) -> (r: Vec<(TxHash, Option<u64>)>)
        requires
            db.wf(),
        ensures
            r@ == db@.transaction_history(self@.covhash),
            sorted_by_height(r@),
    {
        proof {
            db.lemma_tables_wf();
        }
        let mut rows: Table<TxHash, Option<u64>> = Table::new();
        let n = db.coins.len();
        let mut i: usize = 0;
        while i < n
            invariant
                n == db@.coins.len(),
                i <= n,
                db.wf(),
                db.coin_confirmations.wf(),
                rows.wf(),
                rows@ == db@.history_rows(self@.covhash, i as int),
            decreases n - i,
        {
            let id = db.coins.key_at(i);
            if db.coins.value_at(i).covhash.same(&self.covhash) {
                let height: Option<u64> = match db.coin_confirmations.get(&id) {
                    Some(h) => Some(*h),
                    None => None,
                };
                let reward = match height {
                    Some(h) => id.same(&proposer_reward(h)),
                    None => false,
                };
                if !reward {
                    match height {
                        Some(_) => {
                            rows.put(id.txhash, height);
                        },
                        None => {
                            rows.insert_new(id.txhash, None);
                        },
                    }
                }
            }
            i += 1;
        }
        let mut out: Vec<(TxHash, Option<u64>)> = Vec::new();
        let m = rows.len();
        let mut k: usize = 0;
        while k < m
            invariant
                m == rows@.len(),
                k <= m,
                out@ == ordered(rows@, k as int),
            decreases m - k,
        {
            let row = (rows.key_at(k), *rows.value_at(k));
            let ghost s = out@;
            let mut pos: usize = out.len();
            assert(s.take(pos as int) =~= s);
            assert(s.skip(pos as int) =~= Seq::empty());
            assert(placed(s.take(pos as int), row) + s.skip(pos as int) =~= placed(s, row));
            while pos > 0 && !height_before(out[pos - 1].1, row.1)
                invariant
                    pos <= out@.len(),
                    s == out@,
                    placed(s, row) == placed(s.take(pos as int), row) + s.skip(pos as int),
                decreases pos,
            {
                proof {
                    let front = s.take(pos as int);
                    assert(front.last() == s[pos - 1]);
                    assert(front.drop_last() =~= s.take(pos - 1));
                    assert(placed(front, row) == placed(s.take(pos - 1), row).push(s[pos - 1]));
                    assert(placed(s.take(pos - 1), row).push(s[pos - 1]) + s.skip(pos as int)
                        =~= placed(s.take(pos - 1), row) + s.skip(pos - 1));
                }
                pos -= 1;
            }
            proof {
                let front = s.take(pos as int);
                if pos > 0 {
                    assert(front.last() == s[pos - 1]);
                }
                assert(placed(front, row) =~= front.push(row));
                assert(front.push(row) + s.skip(pos as int) =~= s.insert(pos as int, row));
            }
            out.insert(pos, row);
            k += 1;
        }
        proof {
            lemma_ordered(rows@, rows@.len() as int);
        }
        out
    }

    /// Where a transaction is to be had from: the cache, or else the node
    /// at the height at which one of its first outputs was confirmed.
    pub fn get_transaction(&self, db: &Database, txhash: TxHash) -> (r: TxSource)
        requires
            db.wf(),
        ensures
            r@ == db@.transaction_source(txhash),
    {
        match self.get_cached_transaction(db, txhash) {
            Some(t) => {
                return TxSource::Cached(t);
            },
            None => {},
        }
        let mut i: usize = 0;
        while i < OUTPUTS_SEARCHED
            invariant
                i <= OUTPUTS_SEARCHED,
                db.wf(),
                lookup(db@.transactions, txhash) is None,
                db@.confirmed_output(txhash, i as int) is None,
            decreases OUTPUTS_SEARCHED - i,
        {
            match self.get_coin_confirmation(db, CoinId { txhash, index: i as u8 }) {
                Some(c) => {
                    proof {
                        assert(db@.confirmed_output(txhash, i as int + 1) == Some(c.height));
                        lemma_confirmed_output_stays(db@, txhash, i as int + 1, OUTPUTS_SEARCHED as int);
                    }
                    return TxSource::Node(c.height);
                },
                None => {},
            }
            i += 1;
        }
        TxSource::Unknown
    }

    /// Caches a transaction that the node delivered, unless the cache has
    /// one under its hash already.
    pub fn cache_transaction(&self, db: &mut Database, txn: Tx)
        requires
            old(db).wf(),
        ensures
            final(db).wf(),
            final(db)@ == (DatabaseView {
                transactions: inserted(
                    old(db)@.transactions,
                    Entry { key: txn@.hash_nosigs(), value: txn@ },
                ),
                ..old(db)@
            }),
            old(db)@.consistent() ==> final(db)@.consistent(),
    {
        proof {
            if db@.consistent() {
                lemma_cache_keeps_consistent(db@, txn@);
            }
        }
        let txhash = txn.hash_nosigs();
        db.put_transaction(txhash, txn);
    }

    /// The coins of this wallet, filtered by confirmation and spend status:
    /// with `confirmed` only confirmed coins, else also the proposed outputs
    /// of pending transactions; with `ignore_pending` a coin whose spender
    /// is still pending counts as unspent.
    pub fn get_coin_mapping(&self, db: &Database, confirmed: bool, ignore_pending: bool) -> (r: Vec<
        (CoinId, CoinData),
    >)
        requires
            db.wf(),
        ensures
            coin_entries(r@) == db@.coin_mapping(self@.covhash, confirmed, ignore_pending),
    {
        proof {
            db.lemma_tables_wf();
        }
        let ghost p = |e: Entry<CoinId, CoinDataView>|
            db@.visible(self@.covhash, confirmed, ignore_pending, e);
        let mut out: Vec<(CoinId, CoinData)> = Vec::new();
        let n = db.coins.len();
        let mut i: usize = 0;
        assert(coin_entries(out@) =~= kept(db@.coins, p, 0));
        while i < n
            invariant
                n == db@.coins.len(),
                i <= n,
                db.wf(),
                db.spends.wf(),
                p == (|e: Entry<CoinId, CoinDataView>|
                    db@.visible(self@.covhash, confirmed, ignore_pending, e)),
                coin_entries(out@) == kept(db@.coins, p, i as int),
            decreases n - i,
        {
            let key = db.coins.key_at(i);
            let value = db.coins.value_at(i);
            let ghost e = db@.coins[i as int];
            let shown = value.covhash.same(&self.covhash) && (db.coin_confirmations.contains(&key)
                || (!confirmed && db.pending_coins.contains(&key))) && match db.spends.get(&key) {
                None => true,
                Some(spender) => ignore_pending && db.pending.contains(spender),
            };
            assert(shown == p(e));
            let ghost before = out@;
            if shown {
                out.push((key, value.duplicate()));
                assert(coin_entries(out@) =~= coin_entries(before).push(e));
            }
            i += 1;
        }
        out
    }
}

/// Whether the first height comes before the second or is the same, a
/// missing height being the last of all.
pub fn height_before(a: Option<u64>, b: Option<u64>) -> (r: bool)
    ensures
        r == height_le(a, b),
{
    match (a, b) {
        (_, None) => true,
        (None, Some(_)) => false,
        (Some(x), Some(y)) => x <= y,
    }
}

/// Once an output was found confirmed, the search has its height.
proof fn lemma_confirmed_output_stays(db: DatabaseView, h: TxHash, n: int, m: int)
    requires
        0 <= n <= m,
        db.confirmed_output(h, n) is Some,
    ensures
        db.confirmed_output(h, m) == db.confirmed_output(h, n),
    decreases m,
{
    if n < m {
        lemma_confirmed_output_stays(db, h, n, m - 1);
    }
}

} // verus!
