//! Signers: whatever can sign the inputs of a transaction and names the
//! covenant that recognises its signatures.

use vstd::prelude::*;
use crate::chain::{
    chain_ed25519_covenant, chain_public_of_seed, chain_random_fill, chain_sign,
    ed25519_covenant_bytes, ed25519_public, ed25519_signature,
};
use crate::coins::{blobs_view, Tx, TxView};
use crate::hashes::{clone_bytes, TxHash};

verus! {

/// Why a signer could not sign.
#[derive(Clone, Copy, Debug, PartialEq, Eq)]
pub enum SignError {
    /// The signer failed to produce a signature.
    Failed,
}

/// The signatures of a transaction after `sig` was placed at `input_idx`:
/// the slots before it that did not exist are empty.
pub open spec fn with_signature(sigs: Seq<Seq<u8>>, input_idx: nat, sig: Seq<u8>) -> Seq<Seq<u8>> {
    let padded = if sigs.len() <= input_idx {
        sigs + Seq::new((input_idx + 1 - sigs.len()) as nat, |i: int| Seq::<u8>::empty())
    } else {
        sigs
    };
    padded.update(input_idx as int, sig)
}

/// Anything that can sign a transaction: the signature at index `i` is the
/// one for the input at index `i`. A signer may keep state, such as a
/// cache or a connection; what it signs depends on its key alone.
pub trait Signer {
    /// What stays of a signer while it signs, and decides what it signs.
    type Key;

    /// The signer's key.
    spec fn key(&self) -> Self::Key;

    /// The invariant of the signer's state.
    spec fn wf(&self) -> bool;

    /// The transaction that signing the input at `input_idx` gives, `None`
    /// where the signer fails. Signing is a function of key, transaction
    /// and index.
    spec fn sign_with(key: Self::Key, tx: TxView, input_idx: nat) -> Option<TxView>;

    /// The bytecode of the covenant that accepts the signatures of a key.
    spec fn covenant_of(key: Self::Key) -> Seq<u8>;

    /// Signing changes nothing of a transaction but its signatures.
    proof fn lemma_signing_keeps_body(key: Self::Key, tx: TxView, input_idx: nat)
        ensures
            Self::sign_with(key, tx, input_idx) matches Some(t) ==> t.without_sigs()
                == tx.without_sigs(),
    ;

    /// Signs the input at `input_idx`.
    fn sign_tx(&mut self, tx: Tx, input_idx: usize) -> (r: Result<Tx, SignError>)
        requires
            old(self).wf(),
        ensures
            final(self).wf(),
            final(self).key() == old(self).key(),
            match r {
                Ok(t) => Self::sign_with(old(self).key(), tx@, input_idx as nat) == Some(t@),
                Err(_) => Self::sign_with(old(self).key(), tx@, input_idx as nat) is None,
            },
    ;

    /// The bytecode of the covenant that accepts this signer's signatures.
    fn covenant(&self) -> (r: Vec<u8>)
        ensures
            r@ == Self::covenant_of(self.key()),
    ;
}

/// The key that holds the 64 bytes of `b`.
pub open spec fn key_of_bytes(b: Seq<u8>) -> Ed25519SK {
    Ed25519SK(choose|a: [u8; 64]| a@ == b)
}

/// `key_of_bytes` finds the key whose bytes are given.
pub proof fn lemma_key_of_bytes(sk: Ed25519SK)
    ensures
        key_of_bytes(sk.0@) == sk,
{
    let a = key_of_bytes(sk.0@).0;
    assert(a@ == sk.0@);
    assert(a =~= sk.0);
}

/// The key made of a 32-byte seed and its public key.
pub open spec fn key_of_seed(seed: Seq<u8>) -> Ed25519SK {
    key_of_bytes(seed + ed25519_public(seed))
}

/// An Ed25519 secret key: the 32-byte seed followed by the public key.
#[derive(Clone, Copy, Debug, PartialEq, Eq)]
pub struct Ed25519SK(pub [u8; 64]);

impl View for Ed25519SK {
    type V = Ed25519SK;

    open spec fn view(&self) -> Ed25519SK {
        *self
    }
}

impl Ed25519SK {
    /// The seed of the key: its first half, which signs.
    pub open spec fn spec_seed(self) -> Seq<u8> {
        self.0@.subrange(0, 32)
    }

    /// The public half of the key.
    pub open spec fn spec_public(self) -> Seq<u8> {
        self.0@.subrange(32, 64)
    }

    /// The key of a seed: the seed, and behind it the Ed25519 public key
    /// of the seed.
    pub fn from_seed(seed: &[u8; 32]) -> (r: Ed25519SK)
        ensures
            r == key_of_seed(seed@),
            r.spec_seed() == seed@,
            r.spec_public() == ed25519_public(seed@),
    {
        let public = chain_public_of_seed(seed);
        let mut bytes = [0u8;64];
        let mut k: usize = 0;
        while k < 32
            invariant
                k <= 32,
                forall|j: int| 0 <= j < k ==> bytes@[j] == seed@[j],
                forall|j: int| 0 <= j < k ==> bytes@[32 + j] == public@[j],
            decreases 32 - k,
        {
            bytes[k] = seed[k];
            bytes[32 + k] = public[k];
            k += 1;
        }
        assert(bytes@ =~= seed@ + public@);
        assert(bytes@.subrange(0, 32) =~= seed@);
        assert(bytes@.subrange(32, 64) =~= public@);
        proof {
            lemma_key_of_bytes(Ed25519SK(bytes));
        }
        Ed25519SK(bytes)
    }

    /// A fresh key: the key of a seed drawn from the system's random
    /// source; `None` where the source fails.
    pub fn generate() -> (r: Option<Ed25519SK>)
        ensures
            r matches Some(key) ==> key == key_of_seed(key.spec_seed()),
    {
        let mut drawn: Vec<u8> = vec![0u8;32];
        if !chain_random_fill(&mut drawn) {
            return None;
        }
        let mut seed = [0u8;32];
        let mut i: usize = 0;
        while i < 32
            invariant
                i <= 32,
                drawn@.len() == 32,
            decreases 32 - i,
        {
            seed[i] = drawn[i];
            i += 1;
        }
        Some(Ed25519SK::from_seed(&seed))
    }

    /// The public half of the key.
    pub fn to_public(&self) -> (r: [u8; 32])
        ensures
            r@ == self.spec_public(),
    {
        let mut pk: [u8; 32] = [0u8; 32];
        let mut i: usize = 0;
        while i < 32
            invariant
                i <= 32,
                forall|j: int| 0 <= j < i ==> pk@[j] == self.0@[32 + j],
            decreases 32 - i,
        {
            pk[i] = self.0[32 + i];
            i += 1;
        }
        assert(pk@ =~= self.spec_public());
        pk
    }
}

impl Ed25519SK {
    /// The transaction with the signature of this key at `input_idx`.
    pub open spec fn spec_sign_tx(self, tx: TxView, input_idx: nat) -> TxView {
        TxView {
            sigs: with_signature(
                tx.sigs,
                input_idx,
                ed25519_signature(self.0@, tx.hash_nosigs().0@),
            ),
            ..tx
        }
    }

    /// The bytecode of the covenant that accepts the signatures of this
    /// key.
    pub open spec fn spec_covenant(self) -> Seq<u8> {
        ed25519_covenant_bytes(self.spec_public())
    }

    /// The bytecode of the covenant that accepts the signatures of this
    /// key.
    pub fn covenant(&self) -> (r: Vec<u8>)
        ensures
            r@ == self.spec_covenant(),
    {
        let pk = self.to_public();
        chain_ed25519_covenant(&pk)
    }

    /// A signer for this key, with an empty cache.
    pub fn signer(&self) -> (r: Ed25519Signer)
        ensures
            r.wf(),
            r.key() == *self,
            r.capacity() == SIGNATURE_CACHE_SIZE,
            r.remembered() == 0,
            forall|h: TxHash| !r.remembers(h),
    {
        Ed25519Signer { sk: *self, cache: cache_new(SIGNATURE_CACHE_SIZE) }
    }
}

/// The number of signatures that a signer remembers.
pub const SIGNATURE_CACHE_SIZE: usize = 500;

/// A signer with an Ed25519 key. It remembers the signatures of the
/// hashes that it signed last, never more than it was made for, so that
/// the inputs of one transaction are signed by one signature that is
/// computed once.
pub struct Ed25519Signer {
    sk: Ed25519SK,
    cache: SignatureLru,
}

impl Ed25519Signer {
    /// The number of signatures that the signer's cache was made for.
    pub closed spec fn capacity(&self) -> nat {
        lru_cap(self.cache)
    }

    /// The number of signatures that the signer remembers.
    pub closed spec fn remembered(&self) -> nat {
        lru_entries(self.cache).len()
    }

    /// Whether the signer remembers the signature of a hash.
    pub closed spec fn remembers(&self, h: TxHash) -> bool {
        lru_entries(self.cache).contains_key(h.0)
    }

    /// The key that the signer signs with.
    pub fn secret_key(&self) -> (r: Ed25519SK)
        ensures
            r == self.key(),
    {
        self.sk
    }

    /// The signature of a hash: the remembered one where there is one,
    /// else a new one, which is remembered from now on.
    fn signature(&mut self, h: &TxHash) -> (r: Vec<u8>)
        requires
            old(self).wf(),
        ensures
            final(self).wf(),
            final(self).key() == old(self).key(),
            final(self).capacity() == old(self).capacity(),
            final(self).capacity() > 0 ==> final(self).remembers(*h),
            final(self).remembered() <= final(self).capacity(),
            r@ == ed25519_signature(old(self).key().0@, h.0@),
    {
        match cache_get(&mut self.cache, &h.0) {
            Some(sig) => sig,
            None => {
                let sig = chain_sign(&self.sk.0, &h.0);
                cache_put(&mut self.cache, h.0, clone_bytes(&sig));
                sig
            },
        }
    }
}

impl Signer for Ed25519Signer {
    type Key = Ed25519SK;

    closed spec fn key(&self) -> Ed25519SK {
        self.sk
    }

    closed spec fn wf(&self) -> bool {
        &&& within_cap(lru_entries(self.cache), lru_cap(self.cache))
        &&& forall|h: [u8; 32]| #[trigger]
            lru_entries(self.cache).contains_key(h) ==> lru_entries(self.cache)[h]
                == ed25519_signature(self.sk.0@, h@)
    }

    open spec fn sign_with(key: Ed25519SK, tx: TxView, input_idx: nat) -> Option<TxView> {
        Some(key.spec_sign_tx(tx, input_idx))
    }

    open spec fn covenant_of(key: Ed25519SK) -> Seq<u8> {
        key.spec_covenant()
    }

    proof fn lemma_signing_keeps_body(key: Ed25519SK, tx: TxView, input_idx: nat) {
    }

    fn sign_tx(&mut self, tx: Tx, input_idx: usize) -> (r: Result<Tx, SignError>)
        ensures
            final(self).capacity() == old(self).capacity(),
            final(self).capacity() > 0 ==> final(self).remembers(tx@.hash_nosigs()),
            final(self).remembered() <= final(self).capacity(),
    {
        let mut txn = tx;
        let ghost before = txn@;
        let h = txn.hash_nosigs();
        let signature = self.signature(&h);
        let ghost start = txn.sigs@.len();
        while txn.sigs.len() <= input_idx
            invariant
                txn@ == (TxView { sigs: blobs_view(txn.sigs@), ..before }),
                start == before.sigs.len(),
                start <= txn.sigs@.len(),
                txn.sigs@.len() <= input_idx + 1 || txn.sigs@.len() == start,
                blobs_view(txn.sigs@) == before.sigs + Seq::new(
                    (txn.sigs@.len() - start) as nat,
                    |i: int| Seq::<u8>::empty(),
                ),
            decreases input_idx + 1 - txn.sigs@.len(),
        {
            let ghost prev = txn.sigs@;
            txn.sigs.push(Vec::new());
            assert(blobs_view(txn.sigs@) =~= before.sigs + Seq::new(
                (txn.sigs@.len() - start) as nat,
                |i: int| Seq::<u8>::empty(),
            )) by {
                assert(blobs_view(prev) == before.sigs + Seq::new(
                    (prev.len() - start) as nat,
                    |i: int| Seq::<u8>::empty(),
                ));
                assert forall|j: int| 0 <= j < txn.sigs@.len() implies blobs_view(txn.sigs@)[j]
                    == (before.sigs + Seq::new(
                    (txn.sigs@.len() - start) as nat,
                    |i: int| Seq::<u8>::empty(),
                ))[j] by {
                    if j < prev.len() {
                        assert(blobs_view(prev)[j] == txn.sigs@[j]@);
                    }
                }
            }
        }
        let ghost padded = blobs_view(txn.sigs@);
        assert(padded =~= (if before.sigs.len() <= input_idx {
            before.sigs + Seq::new(
                (input_idx + 1 - before.sigs.len()) as nat,
                |i: int| Seq::<u8>::empty(),
            )
        } else {
            before.sigs
        }));
        txn.sigs.set(input_idx, signature);
        assert(blobs_view(txn.sigs@) =~= padded.update(input_idx as int, signature@));
        Ok(txn)
    }

    fn covenant(&self) -> (r: Vec<u8>) {
        self.sk.covenant()
    }
}

/// Signing does not change the hash of a transaction, so that a signed
/// transaction is signed for the same hash again.
pub proof fn lemma_signing_keeps_hash<S: Signer>(key: S::Key, tx: TxView, input_idx: nat)
    ensures
        S::sign_with(key, tx, input_idx) matches Some(t) ==> t.hash_nosigs() == tx.hash_nosigs(),
{
    S::lemma_signing_keeps_body(key, tx, input_idx);
}

/// Two signers with the same key sign alike: what either gives for an
/// input of a transaction is what the other gives.
pub proof fn lemma_signing_is_deterministic<S: Signer>(
    first: &S,
    second: &S,
    tx: TxView,
    input_idx: nat,
)
    requires
        first.key() == second.key(),
    ensures
        S::sign_with(first.key(), tx, input_idx) == S::sign_with(second.key(), tx, input_idx),
        S::covenant_of(first.key()) == S::covenant_of(second.key()),
{
}

/// With an Ed25519 key, signing an input once more changes nothing.
pub proof fn lemma_ed25519_signing_is_fixed_point(sk: Ed25519SK, tx: TxView, input_idx: nat)
    ensures
        sk.spec_sign_tx(sk.spec_sign_tx(tx, input_idx), input_idx) == sk.spec_sign_tx(
            tx,
            input_idx,
        ),
{
    let t = sk.spec_sign_tx(tx, input_idx);
    let sig = ed25519_signature(sk.0@, tx.hash_nosigs().0@);
    assert(t.without_sigs() == tx.without_sigs());
    assert(t.hash_nosigs() == tx.hash_nosigs());
    assert(t.sigs.len() > input_idx);
    assert(with_signature(t.sigs, input_idx, sig) =~= t.sigs);
}

/// `lru::LruCache`, of which the library sees nothing but what the
/// contracts below say.
#[verifier::external_type_specification]
#[verifier::external_body]
#[verifier::reject_recursive_types(K)]
#[verifier::reject_recursive_types(V)]
#[verifier::reject_recursive_types(S)]
pub struct ExLruCache<K, V, S>(lru::LruCache<K, V, S>);

/// The hasher that `lru::LruCache` uses where none is named.
#[verifier::external_type_specification]
#[verifier::external_body]
pub struct ExLruHasher(lru::DefaultHasher);

/// A cache of signatures by the hash that was signed.
pub type SignatureLru = lru::LruCache<[u8; 32], Vec<u8>>;

/// The signatures that a cache holds, by the hash that was signed.
pub uninterp spec fn lru_entries(cache: SignatureLru) -> Map<[u8; 32], Seq<u8>>;

/// A cache's entries while it holds none.
pub open spec fn no_signatures() -> Map<[u8; 32], Seq<u8>> {
    Map::empty()
}

/// Whether there are at most `cap` entries.
pub open spec fn within_cap(entries: Map<[u8; 32], Seq<u8>>, cap: nat) -> bool {
    entries.dom().finite() && entries.len() <= cap
}

/// The number of entries that a cache was made to hold.
pub uninterp spec fn lru_cap(cache: SignatureLru) -> nat;

/// Calls `lru::LruCache::new`: an empty cache that holds at most `cap`
/// entries.
#[verifier::external_body]
fn cache_new(cap: usize) -> (c: SignatureLru)
    ensures
        lru_entries(c) == no_signatures(),
        lru_cap(c) == cap,
{
    lru::LruCache::new(cap)
}

/// Calls `lru::LruCache::get`, which finds the entry of a key and marks it
/// as the most recently used. It changes no entry.
#[verifier::external_body]
fn cache_get(c: &mut SignatureLru, h: &[u8; 32]) -> (r: Option<Vec<u8>>)
    ensures
        lru_entries(*final(c)) == lru_entries(*old(c)),
        lru_cap(*final(c)) == lru_cap(*old(c)),
        match r {
            Some(v) => lru_entries(*old(c)).contains_key(*h) && lru_entries(*old(c))[*h] == v@,
            None => !lru_entries(*old(c)).contains_key(*h),
        },
{
    c.get(h).cloned()
}

/// Calls `lru::LruCache::put`, which writes an entry and, where the cache
/// is full and the key is new, drops the entry that was used least
/// recently, so that a cache never holds more entries than it was made
/// for. A cache made for no entries takes none.
#[verifier::external_body]
fn cache_put(c: &mut SignatureLru, h: [u8; 32], sig: Vec<u8>)
    ensures
        lru_cap(*final(c)) == lru_cap(*old(c)),
        lru_cap(*old(c)) > 0 ==> lru_entries(*final(c)).contains_key(h),
        lru_entries(*final(c)).contains_key(h) ==> lru_entries(*final(c))[h] == sig@,
        forall|k: [u8; 32]|
            k != h && #[trigger] lru_entries(*final(c)).contains_key(k) ==> lru_entries(
                *old(c),
            ).contains_key(k) && lru_entries(*final(c))[k] == lru_entries(*old(c))[k],
        within_cap(lru_entries(*old(c)), lru_cap(*old(c))) ==> within_cap(
            lru_entries(*final(c)),
            lru_cap(*final(c)),
        ),
{
    c.put(h, sig);
}

} // verus!
