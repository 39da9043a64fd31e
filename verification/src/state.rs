//! The daemon's state: the wallet store, the secret store and the signers
//! that are unlocked, and what the daemon does on them.

use vstd::prelude::*;
use vstd::string::StringSliceAdditionalSpecFns;
use crate::chain::{
    chain_coin_id_text, chain_crockford_decode, chain_crockford_encode, chain_hash_bytes,
    chain_random_byte, coin_id_text, covenant_address, crockford_decoded,
    crockford_encoded,
};
use crate::coins::{
    blobs_view, coins_view, CoinData, CoinDataHeight, CoinDataView, Denom, Tx, TxKind, TxView,
};
use crate::database::{
    coin_entries, has_wallet, output_id, reported_coins, wallet_named, CreateWalletError, Database,
    DatabaseView, Wallet, WalletView,
};
use crate::guarantees::lemma_cache_keeps_consistent;
use crate::hashes::{bytes32_eq, Address, CoinId, RowKey, TxHash};
use crate::prepare::{prepare_outcome, PrepareError, SigningPolicy, SigningPolicyView};
use crate::secrets::{
    EncryptedSK, PersistentSecret, PersistentSecretView,
    SecretStore,
};
use crate::signer::{key_of_seed, Ed25519SK, Ed25519Signer, Signer};
use crate::sums::amount;
use crate::sync::{data_fits, plan_for, synced, SyncData, SyncError};
use crate::table::{
    distinct_keys, has_key, inserted, lemma_upserted, lookup, position, upserted, Entry, Table,
};
use crate::walletdata::{
    annotated_view, AnnCoinID, AnnCoinIDView, TransactionStatus, TransactionStatusView, TxBalance,
};

verus! {

/// Identifies a network.
#[derive(Clone, Copy, Debug, PartialEq, Eq)]
pub enum NetID {
    Testnet,
    Custom02,
    Custom03,
    Custom04,
    Custom05,
    Custom06,
    Custom07,
    Custom08,
    Mainnet,
}

impl NetID {
    /// Whether this is the main network.
    pub fn is_mainnet(&self) -> (r: bool)
        ensures
            r == (*self == NetID::Mainnet),
    {
        match self {
            NetID::Mainnet => true,
            _ => false,
        }
    }
}

/// Why a wallet could not be used.
#[derive(Clone, Copy, Debug, PartialEq, Eq)]
pub enum WalletAccessError {
    /// No wallet of that name is registered, or it has no secret.
    NotFound,
    /// The wallet is locked, or the password does not open its secret.
    Locked,
}

/// The password does not open the wallet's secret, or the wallet has none.
#[derive(Clone, Copy, Debug, PartialEq, Eq)]
pub struct InvalidPassword;

/// Why a transaction could not be prepared for a wallet.
#[derive(Clone, Copy, Debug, PartialEq, Eq)]
pub enum PrepareTxError {
    Wallet(WalletAccessError),
    Prepare(PrepareError),
}

/// Why a transaction could not be handled.
#[derive(Clone, Copy, Debug, PartialEq, Eq)]
pub enum TransactionError {
    /// No wallet of that name is registered.
    WalletNotFound,
    /// Faucet transactions are refused on the main network.
    InvalidFaucet,
}

/// A summary of a wallet.
pub struct WalletSummary {
    /// The wallet's Mel, in millionths.
    pub total_micromel: u128,
    /// The wallet's balances in every denomination.
    pub detailed_balance: Table<Denom, u128>,
    /// The wallet's staked Sym, in millionths: none is tracked.
    pub staked_microsym: u128,
    pub network: NetID,
    pub address: Address,
    /// Whether no signer of the wallet is unlocked.
    pub locked: bool,
}

/// What a caller asks of a prepared transaction.
pub struct PrepareTxArgs {
    pub kind: Option<TxKind>,
    pub inputs: Vec<CoinId>,
    pub outputs: Vec<CoinData>,
    pub covenants: Vec<Vec<u8>>,
    pub data: Option<Vec<u8>>,
    pub nobalance: Vec<Denom>,
    pub fee_ballast: usize,
    /// The key to sign with in place of the wallet's own.
    pub signing_key: Option<Ed25519SK>,
}

/// The number of blocks after the tip for which a sent transaction stays
/// pending.
pub const PENDING_BLOCKS: u64 = 10;

/// The height until which a faucet transaction stays pending.
pub const FAUCET_EXPIRY: u64 = 10000000000;

/// What a faucet pays out, and its fee: 1001 Mel, in millionths.
pub const FAUCET_MICROMEL: u128 = 1001000000;

/// The daemon's state, as contracts see it.
pub struct AppStateView {
    pub database: DatabaseView,
    pub network: NetID,
    pub unlocked_signers: Map<Seq<char>, Ed25519SK>,
    pub secrets: Seq<Entry<Seq<char>, PersistentSecretView>>,
}

/// The key that a textual seed stands for: the text is Crockford base32 of
/// 32 bytes. `None` where it is not.
pub open spec fn key_of_secret(secret: Seq<char>) -> Option<Ed25519SK> {
    match crockford_decoded(secret) {
        Some(seed) => if seed.len() == 32 {
            Some(key_of_seed(seed))
        } else {
            None
        },
        None => None,
    }
}

/// The transaction that a faucet pays `address` with.
pub open spec fn faucet_tx(address: Address, data: Seq<u8>) -> TxView {
    TxView {
        kind: TxKind::Faucet,
        inputs: Seq::empty(),
        outputs: seq![
            CoinDataView {
                covhash: address,
                value: FAUCET_MICROMEL,
                denom: Denom::Mel,
                additional_data: Seq::empty(),
            },
        ],
        fee: FAUCET_MICROMEL,
        covenants: Seq::empty(),
        data,
        sigs: Seq::empty(),
    }
}

/// `a + b` in the range of 128-bit signed numbers: the nearest bound
/// where the sum is outside.
pub open spec fn clamped(x: int) -> i128 {
    if x > i128::MAX {
        i128::MAX
    } else if x < i128::MIN {
        i128::MIN
    } else {
        x as i128
    }
}

/// The change recorded for a denomination, 0 where none is.
pub open spec fn change_of(s: Seq<Entry<Denom, i128>>, d: Denom) -> i128 {
    match lookup(s, d) {
        Some(v) => v,
        None => 0,
    }
}

/// The changes after `value` was added to that of `d`, or taken from it.
/// A value above the largest signed number counts as that number, and a
/// result outside the signed numbers as the nearest bound.
pub open spec fn shifted(s: Seq<Entry<Denom, i128>>, d: Denom, value: u128, up: bool) -> Seq<
    Entry<Denom, i128>,
> {
    let v = clamped(value as int);
    let next = if up {
        clamped(change_of(s, d) + v)
    } else {
        clamped(change_of(s, d) - v)
    };
    upserted(s, Entry { key: d, value: next })
}

/// Whether one of the covenants of a transaction is the one whose hash
/// `address` is.
pub open spec fn originated_by(tx: TxView, address: Address) -> bool {
    exists|i: int| 0 <= i < tx.covenants.len() && covenant_address(#[trigger] tx.covenants[i])
        == address
}

/// The coin that the store holds for the output at index `i` of a
/// transaction. An output beyond the 256th has no coin identifier, and so
/// no coin.
pub open spec fn known_output(db: DatabaseView, tx: TxView, i: int) -> Option<CoinDataView> {
    if i < 256 {
        lookup(db.coins, output_id(tx, i))
    } else {
        None
    }
}

/// The changes that the first `n` outputs of a transaction make to the
/// balances of `address`: what the wallet paid out where it originated
/// the transaction, and what it received.
pub open spec fn balance_changes(db: DatabaseView, address: Address, tx: TxView, n: int) -> Seq<
    Entry<Denom, i128>,
>
    decreases n,
{
    if n <= 0 {
        if originated_by(tx, address) {
            shifted(Seq::empty(), Denom::Mel, tx.fee, false)
        } else {
            Seq::empty()
        }
    } else {
        let s = balance_changes(db, address, tx, n - 1);
        let o = tx.outputs[n - 1];
        let paid = if originated_by(tx, address) {
            shifted(s, o.denom, o.value, false)
        } else {
            s
        };
        match known_output(db, tx, n - 1) {
            Some(ours) => if ours.covhash == address {
                shifted(paid, ours.denom, ours.value, true)
            } else {
                paid
            },
            None => paid,
        }
    }
}

/// The height at which the last of the first `n` outputs of a transaction
/// that is known and confirmed was confirmed.
pub open spec fn confirmed_height(db: DatabaseView, tx: TxView, n: int) -> Option<u64>
    decreases n,
{
    if n <= 0 {
        None
    } else {
        if n - 1 < 256 && db.coin_confirmation(output_id(tx, n - 1)) is Some {
            Some(db.coin_confirmation(output_id(tx, n - 1))->0.height)
        } else {
            confirmed_height(db, tx, n - 1)
        }
    }
}

/// The outputs of a transaction with what the wallet at `address` knows
/// of them. An output beyond the 256th has no coin identifier, and its
/// text is empty.
pub open spec fn annotated_outputs(address: Address, tx: TxView) -> Seq<AnnCoinIDView> {
    Seq::new(
        tx.outputs.len(),
        |i: int|
            AnnCoinIDView {
                coin_data: tx.outputs[i],
                is_change: tx.outputs[i].covhash == address,
                coin_id: if i < 256 {
                    coin_id_text(output_id(tx, i))
                } else {
                    Seq::empty()
                },
            },
    )
}

impl AppStateView {
    /// The state's invariant: those of its stores.
    pub open spec fn wf(self) -> bool {
        &&& self.database.wf()
        &&& distinct_keys(self.secrets)
    }

    /// The key of the unlocked signer of a wallet, if the wallet is
    /// unlocked.
    pub open spec fn signer_key(self, name: Seq<char>) -> Option<Ed25519SK> {
        if self.unlocked_signers.contains_key(name) {
            Some(self.unlocked_signers[name])
        } else {
            None
        }
    }

    /// The state after the wallet `name` was unlocked with a password;
    /// `None` where the wallet has no secret or the password does not open
    /// it.
    pub open spec fn unlocked(self, name: Seq<char>, pwd: Seq<u8>) -> Option<AppStateView> {
        match lookup(self.secrets, name) {
            None => None,
            Some(secret) => match secret.unlock(pwd) {
                None => None,
                Some(sk) => Some(
                    AppStateView {
                        unlocked_signers: self.unlocked_signers.insert(name, sk),
                        ..self
                    },
                ),
            },
        }
    }

    /// The state after the wallet `name` was locked.
    pub open spec fn locked(self, name: Seq<char>) -> AppStateView {
        AppStateView {
            unlocked_signers: self.unlocked_signers.remove(name),
            ..self
        }
    }

    /// The signing key of the wallet `name` under a password.
    pub open spec fn secret_key(self, name: Seq<char>, pwd: Seq<u8>) -> Result<
        Ed25519SK,
        WalletAccessError,
    > {
        match lookup(self.secrets, name) {
            None => Err(WalletAccessError::NotFound),
            Some(secret) => match secret.unlock(pwd) {
                None => Err(WalletAccessError::Locked),
                Some(sk) => Ok(sk),
            },
        }
    }

    /// The status of a transaction for the wallet `name`: `None` where the
    /// wallet or the transaction is unknown, or where the transaction is
    /// neither confirmed nor pending.
    pub open spec fn tx_status(self, name: Seq<char>, h: TxHash) -> Option<TransactionStatusView> {
        if !has_wallet(self.database.wallets, name) {
            None
        } else {
            let address = wallet_named(self.database.wallets, name).covhash;
            match lookup(self.database.transactions, h) {
                None => None,
                Some(raw) => {
                    let height = confirmed_height(self.database, raw, raw.outputs.len() as int);
                    if height is None && !has_key(self.database.pending, h) {
                        None
                    } else {
                        Some(
                            TransactionStatusView {
                                raw,
                                confirmed_height: height,
                                outputs: annotated_outputs(address, raw),
                            },
                        )
                    }
                },
            }
        }
    }
}

/// Where the rows of the store agree with their keys, the status of a
/// transaction holds a transaction of the hash that was asked for.
pub proof fn lemma_status_is_of_the_hash(s: AppStateView, name: Seq<char>, h: TxHash)
    requires
        s.wf(),
        s.database.consistent(),
        s.tx_status(name, h) is Some,
    ensures
        s.tx_status(name, h)->0.raw.hash_nosigs() == h,
{
    let p = position(s.database.transactions, h);
    assert(s.database.transactions[p].key == s.database.transactions[p].value.hash_nosigs());
}

/// Locking a wallet and unlocking it again with the same password gives
/// the signer that the first unlocking gave.
pub proof fn lemma_unlock_again(s: AppStateView, name: Seq<char>, pwd: Seq<u8>)
    requires
        s.wf(),
        s.unlocked(name, pwd) is Some,
    ensures
        s.unlocked(name, pwd)->0.signer_key(name) is Some,
        s.unlocked(name, pwd)->0.locked(name).signer_key(name) is None,
        s.unlocked(name, pwd)->0.locked(name).unlocked(name, pwd) is Some,
        s.unlocked(name, pwd)->0.locked(name).unlocked(name, pwd)->0.signer_key(name)
            == s.unlocked(name, pwd)->0.signer_key(name),
{
}

/// `dashmap::DashMap`, of which the library sees nothing but what the
/// contracts below say.
#[verifier::external_type_specification]
#[verifier::external_body]
#[verifier::reject_recursive_types(K)]
#[verifier::reject_recursive_types(V)]
#[verifier::reject_recursive_types(S)]
pub struct ExDashMap<K, V, S>(dashmap::DashMap<K, V, S>);

/// The keys of the wallets that are unlocked, by name.
pub type UnlockedSigners = dashmap::DashMap<String, Ed25519SK>;

/// The entries of a map of unlocked signers.
pub uninterp spec fn unlocked_entries(map: UnlockedSigners) -> Map<Seq<char>, Ed25519SK>;

/// The entries of a map while no wallet is unlocked.
pub open spec fn nobody_unlocked() -> Map<Seq<char>, Ed25519SK> {
    Map::empty()
}

/// Calls `dashmap::DashMap::new`: an empty map.
#[verifier::external_body]
fn signers_new() -> (m: UnlockedSigners)
    ensures
        unlocked_entries(m) == nobody_unlocked(),
{
    dashmap::DashMap::new()
}

/// Calls `dashmap::DashMap::get` and copies the value that it finds.
#[verifier::external_body]
fn signers_get(m: &UnlockedSigners, name: &str) -> (r: Option<Ed25519SK>)
    ensures
        match r {
            Some(key) => unlocked_entries(*m).contains_key(name@) && unlocked_entries(*m)[name@]
                == key,
            None => !unlocked_entries(*m).contains_key(name@),
        },
{
    m.get(name).map(|e| *e.value())
}

/// Calls `dashmap::DashMap::insert`, which writes the entry in place of
/// the one that the name had.
#[verifier::external_body]
fn signers_insert(m: &mut UnlockedSigners, name: String, key: Ed25519SK)
    ensures
        unlocked_entries(*final(m)) == unlocked_entries(*old(m)).insert(name@, key),
{
    m.insert(name, key);
}

/// Calls `dashmap::DashMap::remove`, which drops the entry of the name if
/// there is one.
#[verifier::external_body]
fn signers_remove(m: &mut UnlockedSigners, name: &str)
    ensures
        unlocked_entries(*final(m)) == unlocked_entries(*old(m)).remove(name@),
{
    m.remove(name);
}

/// Encapsulates the state and the logic of the wallet daemon.
pub struct AppState {
    database: Database,
    network: NetID,
    unlocked_signers: UnlockedSigners,
    secrets: SecretStore,
}

impl View for AppState {
    type V = AppStateView;

    closed spec fn view(&self) -> AppStateView {
        AppStateView {
            database: self.database@,
            network: self.network,
            unlocked_signers: unlocked_entries(self.unlocked_signers),
            secrets: self.secrets@,
        }
    }
}

/// Adds `value` to a change, or takes it from it, within the range of
/// 128-bit signed numbers.
fn shift(changes: &mut Table<Denom, i128>, d: Denom, value: u128, up: bool)
    requires
        old(changes).wf(),
    ensures
        final(changes).wf(),
        final(changes)@ == shifted(old(changes)@, d, value, up),
{
    let current: i128 = match changes.get(&d) {
        Some(x) => *x,
        None => 0,
    };
    let v: i128 = if value > 0x7fff_ffff_ffff_ffff_ffff_ffff_ffff_ffffu128 {
        i128::MAX
    } else {
        value as i128
    };
    let next: i128 = if up {
        match current.checked_add(v) {
            Some(x) => x,
            None => i128::MAX,
        }
    } else {
        match current.checked_sub(v) {
            Some(x) => x,
            None => i128::MIN,
        }
    };
    changes.put(d, next);
}

impl AppState {
    /// The state's invariant.
    pub closed spec fn wf(&self) -> bool {
        &&& self@.wf()
        &&& self.secrets.wf()
    }

    /// A valid state has a valid view.
    pub proof fn lemma_wf(&self)
        requires
            self.wf(),
        ensures
            self@.wf(),
    {
    }

    /// A state around a wallet store and a secret store, with every wallet
    /// locked.
    pub fn new(database: Database, network: NetID, secrets: SecretStore) -> (s: AppState)
        requires
            database.wf(),
            secrets.wf(),
        ensures
            s.wf(),
            s@ == (AppStateView {
                database: database@,
                network,
                unlocked_signers: Map::empty(),
                secrets: secrets@,
            }),
    {
        proof {
            secrets.lemma_wf();
        }
        AppState { database, network, unlocked_signers: signers_new(), secrets }
    }

    /// The network that the daemon serves.
    pub fn get_network(&self) -> (r: NetID)
        ensures
            r == self@.network,
    {
        self.network
    }

    /// The wallet store.
    pub fn database(&self) -> (r: &Database)
        ensures
            r@ == self@.database,
    {
        &self.database
    }

    /// The secret store.
    pub fn secrets(&self) -> (r: &SecretStore)
        ensures
            r@ == self@.secrets,
    {
        &self.secrets
    }

    /// The wallet registered under `name`, if there is one.
    pub fn get_wallet(&self, name: &str) -> (r: Option<Wallet>)
        requires
            self.wf(),
        ensures
            match r {
                Some(w) => has_wallet(self@.database.wallets, name@) && w@ == wallet_named(
                    self@.database.wallets,
                    name@,
                ),
                None => !has_wallet(self@.database.wallets, name@),
            },
    {
        self.database.get_wallet(name)
    }

    /// The signer of a wallet; `None` while the wallet is locked.
    pub fn get_signer(&self, name: &str) -> (r: Option<Ed25519Signer>)
        requires
            self.wf(),
        ensures
            match r {
                Some(signer) => signer.wf() && self@.signer_key(name@) == Some(
                    signer.key(),
                ),
                None => self@.signer_key(name@) is None,
            },
    {
        match signers_get(&self.unlocked_signers, name) {
            Some(sk) => Some(sk.signer()),
            None => None,
        }
    }

    /// Unlocks a wallet: the key that the password opens becomes the
    /// wallet's signer. `None`, with nothing changed, where the wallet has
    /// no secret or the password does not open it.
    pub fn unlock(&mut self, name: &str, pwd: &str) -> (r: Option<()>)
        requires
            old(self).wf(),
        ensures
            final(self).wf(),
            match old(self)@.unlocked(name@, pwd.spec_bytes()) {
                Some(s) => r is Some && final(self)@ == s,
                None => r is None && final(self)@ == old(self)@,
            },
    {
        let secret = match self.secrets.load(name) {
            Some(s) => s,
            None => {
                return None;
            },
        };
        let sk = match secret.unlock(pwd) {
            Some(k) => k,
            None => {
                return None;
            },
        };
        signers_insert(&mut self.unlocked_signers, name.to_owned(), sk);
        Some(())
    }

    /// Locks a wallet: its signer is forgotten.
    pub fn lock(&mut self, name: &str)
        requires
            old(self).wf(),
        ensures
            final(self).wf(),
            final(self)@ == old(self)@.locked(name@),
            final(self)@.signer_key(name@) is None,
    {
        signers_remove(&mut self.unlocked_signers, name);
    }

    /// Unlocks a wallet, or says that the password is invalid.
    pub fn unlock_wallet(&mut self, name: &str, pwd: &str) -> (r: Result<(), InvalidPassword>)
        requires
            old(self).wf(),
        ensures
            final(self).wf(),
            match old(self)@.unlocked(name@, pwd.spec_bytes()) {
                Some(s) => r is Ok && final(self)@ == s,
                None => r is Err && final(self)@ == old(self)@,
            },
    {
        match self.unlock(name, pwd) {
            Some(_) => Ok(()),
            None => Err(InvalidPassword),
        }
    }

    /// Locks a wallet.
    pub fn lock_wallet(&mut self, name: &str)
        requires
            old(self).wf(),
        ensures
            final(self).wf(),
            final(self)@ == old(self)@.locked(name@),
    {
        self.lock(name)
    }

    /// The signing key of a wallet under a password.
    pub fn get_secret_key(&self, name: &str, pwd: &str) -> (r: Result<Ed25519SK, WalletAccessError>)
        requires
            self.wf(),
        ensures
            r == self@.secret_key(name@, pwd.spec_bytes()),
    {
        match self.secrets.load(name) {
            None => Err(WalletAccessError::NotFound),
            Some(secret) => match secret.unlock(pwd) {
                None => Err(WalletAccessError::Locked),
                Some(sk) => Ok(sk),
            },
        }
    }

    /// Creates a wallet for a key that was sealed already: registers it
    /// under `name` with the address of the key's covenant, and stores the
    /// sealed key under the name. Fails, changing nothing, exactly where
    /// the name is taken.
    pub fn create_wallet_sealed(&mut self, name: &str, key: Ed25519SK, sealed: EncryptedSK) -> (r:
        Result<(), CreateWalletError>)
        requires
            old(self).wf(),
        ensures
            final(self).wf(),
            old(self)@.database.consistent() ==> final(self)@.database.consistent(),
            r is Err <==> has_wallet(old(self)@.database.wallets, name@),
            r is Err ==> r == Err::<(), CreateWalletError>(CreateWalletError::AlreadyExists)
                && final(self)@ == old(self)@,
            r is Ok ==> final(self)@ == (AppStateView {
                database: DatabaseView {
                    wallets: old(self)@.database.wallets.push(
                        WalletView {
                            name: name@,
                            covhash: covenant_address(key.spec_covenant()),
                            covenant: key.spec_covenant(),
                        },
                    ),
                    ..old(self)@.database
                },
                secrets: upserted(
                    old(self)@.secrets,
                    Entry { key: name@, value: PersistentSecretView::PasswordEncrypted(sealed@) },
                ),
                ..old(self)@
            }),
    {
        let covenant = key.covenant();
        match self.database.create_wallet(name, covenant) {
            Ok(_) => {},
            Err(e) => {
                return Err(e);
            },
        }
        let secret = PersistentSecret::PasswordEncrypted(sealed);
        proof {
            lemma_upserted(self@.secrets, Entry { key: name@, value: secret@ });
        }
        self.secrets.store(name.to_owned(), secret);
        proof {
            self.secrets.lemma_wf();
        }
        Ok(())
    }

    /// Creates a wallet for a key: registers it under `name` with the
    /// address of the key's covenant, and stores the key sealed under the
    /// password. Fails, changing nothing, where the name is taken or the
    /// key cannot be sealed.
    pub fn create_wallet_inner(&mut self, name: &str, key: Ed25519SK, pwd: &str) -> (r: Result<
        (),
        CreateWalletError,
    >)
        requires
            old(self).wf(),
        ensures
            final(self).wf(),
            old(self)@.database.consistent() ==> final(self)@.database.consistent(),
            has_wallet(old(self)@.database.wallets, name@) ==> r == Err::<(), CreateWalletError>(
                CreateWalletError::AlreadyExists,
            ),
            r is Err ==> final(self)@ == old(self)@ && (r == Err::<(), CreateWalletError>(
                CreateWalletError::AlreadyExists,
            ) || r == Err::<(), CreateWalletError>(CreateWalletError::Sealing)),
            r == Err::<(), CreateWalletError>(CreateWalletError::AlreadyExists) ==> has_wallet(
                old(self)@.database.wallets,
                name@,
            ),
            pwd.spec_bytes().len() > 0xFFFF_FFFF ==> r is Err,
            r is Ok ==> {
                &&& final(self)@.database == (DatabaseView {
                    wallets: old(self)@.database.wallets.push(
                        WalletView {
                            name: name@,
                            covhash: covenant_address(key.spec_covenant()),
                            covenant: key.spec_covenant(),
                        },
                    ),
                    ..old(self)@.database
                })
                &&& final(self)@.unlocked_signers == old(self)@.unlocked_signers
                &&& final(self)@.network == old(self)@.network
                &&& lookup(final(self)@.secrets, name@) matches Some(secret) && secret.unlock(
                    pwd.spec_bytes(),
                ) == Some(key)
                &&& forall|other: Seq<char>|
                    other != name@ ==> lookup(final(self)@.secrets, other) == lookup(
                        old(self)@.secrets,
                        other,
                    )
            },
    {
        if self.database.get_wallet(name).is_some() {
            return Err(CreateWalletError::AlreadyExists);
        }
        let sealed = match EncryptedSK::new(key, pwd) {
            Some(e) => e,
            None => {
                return Err(CreateWalletError::Sealing);
            },
        };
        proof {
            lemma_upserted(
                self@.secrets,
                Entry { key: name@, value: PersistentSecretView::PasswordEncrypted(sealed@) },
            );
        }
        self.create_wallet_sealed(name, key, sealed)
    }

    /// The key that a textual seed stands for.
    pub fn key_from_secret(secret: &str) -> (r: Option<Ed25519SK>)
        ensures
            r == key_of_secret(secret@),
    {
        let decoded = match chain_crockford_decode(secret) {
            Some(d) => d,
            None => {
                return None;
            },
        };
        if decoded.len() != 32 {
            return None;
        }
        let mut seed = [0u8;32];
        let mut i: usize = 0;
        while i < 32
            invariant
                i <= 32,
                decoded@.len() == 32,
                forall|j: int| 0 <= j < i ==> seed@[j] == decoded@[j],
            decreases 32 - i,
        {
            seed[i] = decoded[i];
            i += 1;
        }
        assert(seed@ =~= decoded@);
        Some(Ed25519SK::from_seed(&seed))
    }

    /// Creates a wallet. With a secret, a Crockford base32 text of a
    /// 32-byte seed, the wallet's key is the one of the seed; without, the
    /// key of a fresh seed. A malformed secret is refused first, then a
    /// name that is taken.
    pub fn create_wallet(&mut self, name: &str, pwd: &str, secret: Option<&str>) -> (r: Result<
        (),
        CreateWalletError,
    >)
        requires
            old(self).wf(),
        ensures
            final(self).wf(),
            old(self)@.database.consistent() ==> final(self)@.database.consistent(),
            r is Err ==> final(self)@ == old(self)@,
            (secret matches Some(text) && key_of_secret(text@) is None) ==> r == Err::<
                (),
                CreateWalletError,
            >(CreateWalletError::SecretKey),
            !(secret matches Some(text) && key_of_secret(text@) is None) && has_wallet(
                old(self)@.database.wallets,
                name@,
            ) ==> r == Err::<(), CreateWalletError>(CreateWalletError::AlreadyExists),
            r == Err::<(), CreateWalletError>(CreateWalletError::SecretKey) ==> (
            secret matches Some(text) && key_of_secret(text@) is None),
            r == Err::<(), CreateWalletError>(CreateWalletError::AlreadyExists) ==> has_wallet(
                old(self)@.database.wallets,
                name@,
            ),
            r == Err::<(), CreateWalletError>(CreateWalletError::RandomSource) ==> secret is None,
            r is Ok ==> {
                &&& has_wallet(final(self)@.database.wallets, name@)
                &&& !has_wallet(old(self)@.database.wallets, name@)
                &&& lookup(final(self)@.secrets, name@) matches Some(stored) && stored.unlock(
                    pwd.spec_bytes(),
                ) matches Some(key) && (secret matches Some(text) ==> key_of_secret(text@)
                    == Some(key)) && (secret is None ==> key == key_of_seed(key.spec_seed()))
                    && wallet_named(final(self)@.database.wallets, name@).covhash
                    == covenant_address(key.spec_covenant())
            },
    {
        let given = match secret {
            Some(text) => match AppState::key_from_secret(text) {
                Some(k) => Some(k),
                None => {
                    return Err(CreateWalletError::SecretKey);
                },
            },
            None => None,
        };
        if self.database.get_wallet(name).is_some() {
            return Err(CreateWalletError::AlreadyExists);
        }
        let key = match given {
            Some(k) => k,
            None => match Ed25519SK::generate() {
                Some(k) => k,
                None => {
                    return Err(CreateWalletError::RandomSource);
                },
            },
        };
        let ghost before = self@;
        let r = self.create_wallet_inner(name, key, pwd);
        proof {
            if r is Ok {
                let ws = self@.database.wallets;
                let n = before.database.wallets.len() as int;
                assert(ws[n].name == name@);
                if has_wallet(before.database.wallets, name@) {
                    assert(false);
                }
                let j = choose|j: int| 0 <= j < ws.len() && (#[trigger] ws[j]).name == name@;
                if j < n {
                    assert(before.database.wallets[j].name == name@);
                    assert(has_wallet(before.database.wallets, name@));
                }
            }
        }
        r
    }

    /// The seed of a wallet's key as Crockford base32 text.
    pub fn export_sk(&self, name: &str, pwd: &str) -> (r: Result<String, WalletAccessError>)
        requires
            self.wf(),
        ensures
            match self@.secret_key(name@, pwd.spec_bytes()) {
                Ok(sk) => r matches Ok(text) && text@ == crockford_encoded(sk.0@.subrange(0, 32)),
                Err(e) => r == Err::<String, WalletAccessError>(e),
            },
    {
        let sk = match self.get_secret_key(name, pwd) {
            Ok(sk) => sk,
            Err(e) => {
                return Err(e);
            },
        };
        let mut seed: Vec<u8> = Vec::new();
        let mut i: usize = 0;
        while i < 32
            invariant
                i <= 32,
                seed@ == sk.0@.subrange(0, i as int),
            decreases 32 - i,
        {
            seed.push(sk.0[i]);
            assert(sk.0@.subrange(0, i as int + 1) =~= sk.0@.subrange(0, i as int).push(
                sk.0@[i as int],
            ));
            i += 1;
        }
        Ok(chain_crockford_encode(&seed))
    }

    /// A summary of a wallet; `None` where no wallet has the name.
    pub fn wallet_summary(&self, name: &str) -> (r: Result<WalletSummary, WalletAccessError>)
        requires
            self.wf(),
        ensures
            r is Err <==> !has_wallet(self@.database.wallets, name@),
            r is Err ==> r matches Err(WalletAccessError::NotFound),
            r matches Ok(summary) ==> {
                let address = wallet_named(self@.database.wallets, name@).covhash;
                &&& summary.address == address
                &&& summary.network == self@.network
                &&& summary.locked == self@.signer_key(name@) is None
                &&& summary.detailed_balance@ == self@.database.balances(address)
                &&& summary.total_micromel == amount(
                    self@.database.balances(address),
                    Denom::Mel,
                )
                &&& summary.staked_microsym == 0
            },
    {
        let wallet = match self.database.get_wallet(name) {
            Some(w) => w,
            None => {
                return Err(WalletAccessError::NotFound);
            },
        };
        let balance = wallet.get_balances(&self.database);
        let total = match balance.get(&Denom::Mel) {
            Some(v) => *v,
            None => 0,
        };
        Ok(
            WalletSummary {
                total_micromel: total,
                detailed_balance: balance,
                staked_microsym: 0,
                network: self.network,
                address: wallet.address(),
                locked: signers_get(&self.unlocked_signers, name).is_none(),
            },
        )
    }

    /// The names of the wallets, in the order of registration.
    pub fn list_wallets(&self) -> (names: Vec<String>)
        ensures
            names@.len() == self@.database.wallets.len(),
            forall|i: int|
                0 <= i < names@.len() ==> (#[trigger] names@[i])@
                    == self@.database.wallets[i].name,
    {
        self.database.list_wallets()
    }

    /// The confirmed unspent coins of a wallet.
    pub fn dump_coins(&self, name: &str) -> (r: Result<Vec<(CoinId, CoinData)>, WalletAccessError>)
        requires
            self.wf(),
        ensures
            r is Err <==> !has_wallet(self@.database.wallets, name@),
            r is Err ==> r matches Err(WalletAccessError::NotFound),
            r matches Ok(coins) ==> coin_entries(coins@) == self@.database.coin_mapping(
                wallet_named(self@.database.wallets, name@).covhash,
                true,
                false,
            ),
    {
        match self.database.get_wallet(name) {
            Some(w) => Ok(w.get_coin_mapping(&self.database, true, false)),
            None => Err(WalletAccessError::NotFound),
        }
    }

    /// The history of a wallet.
    pub fn dump_transactions(&self, name: &str) -> (r: Result<
        Vec<(TxHash, Option<u64>)>,
        WalletAccessError,
    >)
        requires
            self.wf(),
        ensures
            r is Err <==> !has_wallet(self@.database.wallets, name@),
            r is Err ==> r matches Err(WalletAccessError::NotFound),
            r matches Ok(history) ==> history@ == self@.database.transaction_history(
                wallet_named(self@.database.wallets, name@).covhash,
            ),
    {
        match self.database.get_wallet(name) {
            Some(w) => Ok(w.get_transaction_history(&self.database)),
            None => Err(WalletAccessError::NotFound),
        }
    }

    /// Prepares a transaction for a wallet, signed by the key that the
    /// caller names or else by the wallet's unlocked signer. `node_coins`
    /// holds what the node knows of the inputs that the store cannot
    /// resolve.
    pub fn prepare_tx(
        &self,
        name: &str,
        request: PrepareTxArgs,
        fee_multiplier: u128,
        node_coins: &Vec<(CoinId, CoinDataHeight)>,
    ) -> (r: Result<Tx, PrepareTxError>)
        requires
            self.wf(),
        ensures
            match (self@.signer_key(name@), request.signing_key) {
                (None, None) => r matches Err(PrepareTxError::Wallet(WalletAccessError::Locked)),
                (signer, given) => if !has_wallet(self@.database.wallets, name@) {
                    r matches Err(PrepareTxError::Wallet(WalletAccessError::NotFound))
                } else {
                    let key = if given is Some {
                        given->0
                    } else {
                        signer->0
                    };
                    match prepare_outcome::<Ed25519Signer>(
                        wallet_named(self@.database.wallets, name@),
                        self@.database,
                        request.inputs@,
                        coins_view(request.outputs@),
                        fee_multiplier,
                        SigningPolicyView {
                            kind: request.kind,
                            data: match request.data {
                                Some(d) => Some(d@),
                                None => None,
                            },
                            covenants: blobs_view(request.covenants@),
                        },
                        key,
                        request.nobalance@,
                        request.fee_ballast,
                        reported_coins(node_coins@),
                    ) {
                        Ok(t) => r matches Ok(tx) && tx@ == t,
                        Err(e) => r matches Err(PrepareTxError::Prepare(f)) && f == e,
                    }
                },
            },
    {
        let mut signer = match request.signing_key {
            Some(k) => k.signer(),
            None => match self.get_signer(name) {
                Some(s) => s,
                None => {
                    return Err(PrepareTxError::Wallet(WalletAccessError::Locked));
                },
            },
        };
        let wallet = match self.database.get_wallet(name) {
            Some(w) => w,
            None => {
                return Err(PrepareTxError::Wallet(WalletAccessError::NotFound));
            },
        };
        let policy = SigningPolicy {
            kind: request.kind,
            data: request.data,
            covenants: request.covenants,
        };
        match wallet.prepare(
            &self.database,
            &request.inputs,
            request.outputs,
            fee_multiplier,
            &policy,
            &mut signer,
            request.nobalance,
            request.fee_ballast,
            node_coins,
        ) {
            Ok(tx) => Ok(tx),
            Err(e) => Err(PrepareTxError::Prepare(e)),
        }
    }

    /// Records a transaction that the node took as sent by a wallet: it
    /// stays pending for ten blocks after the tip.
    pub fn send_tx(&mut self, name: &str, tx: Tx, tip: u64) -> (r: Result<TxHash, WalletAccessError>)
        requires
            old(self).wf(),
        ensures
            final(self).wf(),
            old(self)@.database.consistent() ==> final(self)@.database.consistent(),
            r is Err <==> !has_wallet(old(self)@.database.wallets, name@),
            r is Err ==> (r matches Err(WalletAccessError::NotFound)) && final(self)@ == old(self)@,
            r matches Ok(h) ==> h == tx@.hash_nosigs() && final(self)@ == (AppStateView {
                database: old(self)@.database.commit_sent(
                    tx@,
                    if tip + PENDING_BLOCKS > u64::MAX {
                        u64::MAX
                    } else {
                        (tip + PENDING_BLOCKS) as u64
                    },
                ),
                ..old(self)@
            }),
    {
        let wallet = match self.database.get_wallet(name) {
            Some(w) => w,
            None => {
                return Err(WalletAccessError::NotFound);
            },
        };
        let h = tx.hash_nosigs();
        wallet.commit_sent(&mut self.database, tx, tip.saturating_add(PENDING_BLOCKS));
        Ok(h)
    }

    /// Thirty-two bytes of the thread's random generator: the data of a
    /// faucet transaction.
    pub fn faucet_data() -> (r: Vec<u8>)
        ensures
            r@.len() == 32,
    {
        let mut out: Vec<u8> = Vec::new();
        let mut i: usize = 0;
        while i < 32
            invariant
                i <= 32,
                out@.len() == i,
            decreases 32 - i,
        {
            out.push(chain_random_byte());
            i += 1;
        }
        out
    }

    /// Pays a wallet 1001 Mel out of a faucet: the faucet transaction,
    /// made unique by `data`, is recorded as sent. Refused on the main
    /// network.
    pub fn send_faucet(&mut self, name: &str, data: Vec<u8>) -> (r: Result<Tx, TransactionError>)
        requires
            old(self).wf(),
        ensures
            final(self).wf(),
            old(self)@.database.consistent() ==> final(self)@.database.consistent(),
            r is Err ==> final(self)@ == old(self)@,
            !has_wallet(old(self)@.database.wallets, name@) ==> r matches Err(
                TransactionError::WalletNotFound,
            ),
            has_wallet(old(self)@.database.wallets, name@) && old(self)@.network == NetID::Mainnet
                ==> r matches Err(TransactionError::InvalidFaucet),
            has_wallet(old(self)@.database.wallets, name@) && old(self)@.network != NetID::Mainnet
                ==> (r matches Ok(tx) && tx@ == faucet_tx(
                wallet_named(old(self)@.database.wallets, name@).covhash,
                data@,
            ) && final(self)@ == (AppStateView {
                database: old(self)@.database.commit_sent(tx@, FAUCET_EXPIRY),
                ..old(self)@
            })),
    {
        let wallet = match self.database.get_wallet(name) {
            Some(w) => w,
            None => {
                return Err(TransactionError::WalletNotFound);
            },
        };
        if self.network.is_mainnet() {
            return Err(TransactionError::InvalidFaucet);
        }
        let mut outputs: Vec<CoinData> = Vec::new();
        outputs.push(
            CoinData {
                covhash: wallet.address(),
                value: FAUCET_MICROMEL,
                denom: Denom::Mel,
                additional_data: Vec::new(),
            },
        );
        let tx = Tx {
            kind: TxKind::Faucet,
            inputs: Vec::new(),
            outputs,
            fee: FAUCET_MICROMEL,
            covenants: Vec::new(),
            data,
            sigs: Vec::new(),
        };
        assert(tx@.outputs =~= faucet_tx(wallet@.covhash, data@).outputs);
        assert(tx@.covenants =~= Seq::empty());
        assert(tx@.sigs =~= Seq::empty());
        let sent = tx.duplicate();
        wallet.commit_sent(&mut self.database, tx, FAUCET_EXPIRY);
        Ok(sent)
    }

    /// Updates the store with what the node reported for a wallet: see
    /// [`Wallet::network_sync`]. `None`, with nothing changed, where no
    /// wallet has the name.
    pub fn network_sync(&mut self, name: &str, tip: u64, data: &SyncData) -> (r: Option<
        Result<(), SyncError>,
    >)
        requires
            old(self).wf(),
        ensures
            final(self).wf(),
            old(self)@.database.consistent() ==> final(self)@.database.consistent(),
            r is None <==> !has_wallet(old(self)@.database.wallets, name@),
            r is None ==> final(self)@ == old(self)@,
            r matches Some(outcome) ==> {
                let address = wallet_named(old(self)@.database.wallets, name@).covhash;
                &&& final(self)@ == (AppStateView {
                    database: synced(old(self)@.database, address, tip, data@),
                    ..old(self)@
                })
                &&& outcome is Ok <==> data_fits(
                    plan_for(old(self)@.database.sync_height(address), tip),
                    data@,
                )
            },
    {
        let wallet = match self.database.get_wallet(name) {
            Some(w) => w,
            None => {
                return None;
            },
        };
        Some(wallet.network_sync(&mut self.database, tip, data))
    }

    /// Caches a transaction that the node delivered, unless the cache has
    /// one under its hash already.
    pub fn cache_transaction(&mut self, txn: Tx)
        requires
            old(self).wf(),
        ensures
            final(self).wf(),
            old(self)@.database.consistent() ==> final(self)@.database.consistent(),
            final(self)@ == (AppStateView {
                database: DatabaseView {
                    transactions: inserted(
                        old(self)@.database.transactions,
                        Entry { key: txn@.hash_nosigs(), value: txn@ },
                    ),
                    ..old(self)@.database
                },
                ..old(self)@
            }),
    {
        let h = txn.hash_nosigs();
        proof {
            if self@.database.consistent() {
                lemma_cache_keeps_consistent(self@.database, txn@);
            }
        }
        self.database.put_transaction(h, txn);
    }

    /// Whether a wallet originated a transaction: one of the covenants of
    /// the transaction is the wallet's.
    pub fn is_self_originated(wallet: &Wallet, tx: &Tx) -> (r: bool)
        ensures
            r == originated_by(tx@, wallet@.covhash),
    {
        let address = wallet.address();
        let mut i: usize = 0;
        while i < tx.covenants.len()
            invariant
                i <= tx.covenants.len(),
                address == wallet@.covhash,
                forall|j: int|
                    0 <= j < i ==> covenant_address(#[trigger] tx@.covenants[j]) != address,
            decreases tx.covenants.len() - i,
        {
            let h = chain_hash_bytes(&tx.covenants[i]);
            if bytes32_eq(&h, &address.0) {
                assert(covenant_address(tx@.covenants[i as int]) == address);
                return true;
            }
            i += 1;
        }
        false
    }

    /// What a transaction changes in the balances of a wallet.
    pub fn tx_balance(&self, name: &str, raw: &Tx) -> (r: Result<TxBalance, WalletAccessError>)
        requires
            self.wf(),
        ensures
            r is Err <==> !has_wallet(self@.database.wallets, name@),
            r is Err ==> r matches Err(WalletAccessError::NotFound),
            r matches Ok(b) ==> {
                let address = wallet_named(self@.database.wallets, name@).covhash;
                &&& b.0 == originated_by(raw@, address)
                &&& b.1 == raw@.kind
                &&& b.2@ == balance_changes(
                    self@.database,
                    address,
                    raw@,
                    raw@.outputs.len() as int,
                )
            },
    {
        let wallet = match self.database.get_wallet(name) {
            Some(w) => w,
            None => {
                return Err(WalletAccessError::NotFound);
            },
        };
        let address = wallet.address();
        let own = AppState::is_self_originated(&wallet, raw);
        let mut changes: Table<Denom, i128> = Table::new();
        if own {
            shift(&mut changes, Denom::Mel, raw.fee, false);
        }
        let h = raw.hash_nosigs();
        let mut i: usize = 0;
        while i < raw.outputs.len()
            invariant
                i <= raw.outputs.len(),
                self.wf(),
                changes.wf(),
                address == wallet@.covhash,
                own == originated_by(raw@, address),
                h == raw@.hash_nosigs(),
                changes@ == balance_changes(self@.database, address, raw@, i as int),
            decreases raw.outputs.len() - i,
        {
            let o = &raw.outputs[i];
            if own {
                shift(&mut changes, o.denom, o.value, false);
            }
            let known = if i < 256 {
                wallet.get_one_coin(&self.database, CoinId { txhash: h, index: i as u8 })
            } else {
                None
            };
            match known {
                Some(ours) => {
                    if ours.covhash.same(&address) {
                        shift(&mut changes, ours.denom, ours.value, true);
                    }
                },
                None => {},
            }
            i += 1;
        }
        Ok(TxBalance(own, raw.kind, changes))
    }

    /// The status of a transaction for a wallet: `None` where the wallet
    /// or the transaction is unknown, or where the transaction is neither
    /// confirmed nor pending any more.
    pub fn tx_status(&self, name: &str, txhash: TxHash) -> (r: Option<TransactionStatus>)
        requires
            self.wf(),
        ensures
            match self@.tx_status(name@, txhash) {
                Some(s) => r matches Some(status) && status@ == s,
                None => r is None,
            },
    {
        let wallet = match self.database.get_wallet(name) {
            Some(w) => w,
            None => {
                return None;
            },
        };
        let address = wallet.address();
        let raw = match wallet.get_cached_transaction(&self.database, txhash) {
            Some(t) => t,
            None => {
                return None;
            },
        };
        let h = raw.hash_nosigs();
        let mut height: Option<u64> = None;
        let mut outputs: Vec<AnnCoinID> = Vec::new();
        let mut i: usize = 0;
        while i < raw.outputs.len()
            invariant
                i <= raw.outputs.len(),
                self.wf(),
                address == wallet@.covhash,
                h == raw@.hash_nosigs(),
                height == confirmed_height(self@.database, raw@, i as int),
                outputs@.len() == i,
                forall|j: int|
                    0 <= j < i ==> (#[trigger] outputs@[j])@ == annotated_outputs(address, raw@)[j],
            decreases raw.outputs.len() - i,
        {
            let mut coin_id = String::new();
            if i < 256 {
                let id = CoinId { txhash: h, index: i as u8 };
                match wallet.get_coin_confirmation(&self.database, id) {
                    Some(c) => {
                        height = Some(c.height);
                    },
                    None => {},
                }
                coin_id = chain_coin_id_text(&id);
            }
            let o = &raw.outputs[i];
            outputs.push(
                AnnCoinID { coin_data: o.duplicate(), is_change: o.covhash.same(&address), coin_id },
            );
            i += 1;
        }
        assert(annotated_view(outputs@) =~= annotated_outputs(address, raw@));
        if height.is_none() && !wallet.is_pending(&self.database, txhash) {
            return None;
        }
        Some(TransactionStatus { raw, confirmed_height: height, outputs })
    }
}

} // verus!
