//! What the chain's own crates compute for the library: transaction hashes,
//! weights, covenant hashes and signatures. The contracts in this file are
//! believed, not proved.

use vstd::prelude::*;
use crate::coins::{CoinData, Denom, Tx, TxKind, TxView};
use crate::hashes::{Address, CoinId, TxHash};

verus! {

/// `melstructs::Transaction`, of which the library sees nothing but what
/// the contracts below say.
#[verifier::external_type_specification]
#[verifier::external_body]
pub struct ExChainTransaction(melstructs::Transaction);

/// What a transaction of the chain's own type holds.
pub uninterp spec fn chain_tx_contents(t: melstructs::Transaction) -> TxView;

/// The hash that the chain gives a transaction that carries no signatures.
pub uninterp spec fn nosigs_hash(tx: TxView) -> TxHash;

/// The weight that the chain gives a transaction: its serialized length and
/// the weights of its covenants, with a penalty for each output and a bonus
/// for each input.
pub uninterp spec fn tx_weight(tx: TxView) -> u128;

/// The weight that the chain gives the bytecode of a covenant: that of its
/// opcodes, saturating, and 0 where the bytes are no bytecode.
pub uninterp spec fn covenant_weight(bytes: Seq<u8>) -> u128;

/// The BLAKE3 hash of a byte string.
pub uninterp spec fn blake3_hash(data: Seq<u8>) -> [u8; 32];

/// The Ed25519 signature of `msg` under the 64-byte secret key `sk`.
pub uninterp spec fn ed25519_signature(sk: Seq<u8>, msg: Seq<u8>) -> Seq<u8>;

/// The bytecode of the standard covenant that accepts the signatures of the
/// public key `pk`: it loads the index of the spending input, takes the
/// signature at that index out of the spending transaction, pushes the 32
/// bytes of the key and checks the signature against them.
pub open spec fn ed25519_covenant_bytes(pk: Seq<u8>) -> Seq<u8> {
    seq![0x42u8, 0x00, 0x09, 0xf1] + Seq::new(31, |i: int| 0x00u8) + seq![
        0x06u8,
        0x42,
        0x00,
        0x00,
        0x50,
        0x50,
        0xf0,
        0x20,
    ] + pk + seq![0x42u8, 0x00, 0x01, 0x32, 0x00, 0x20]
}

/// The hash part of the pseudo coin identifier under which the proposer's
/// reward of a block height is recorded.
pub uninterp spec fn reward_pseudo_hash(height: u64) -> TxHash;

/// What Crockford base32 decodes a text into; `None` where the text is no
/// such encoding.
pub uninterp spec fn crockford_decoded(text: Seq<char>) -> Option<Seq<u8>>;

/// The Crockford base32 encoding of a byte string.
pub uninterp spec fn crockford_encoded(data: Seq<u8>) -> Seq<char>;

/// The Ed25519 public key of a 32-byte seed.
pub uninterp spec fn ed25519_public(seed: Seq<u8>) -> Seq<u8>;

/// The text of a coin identifier: the hash in hexadecimal, a hyphen and
/// the index.
pub uninterp spec fn coin_id_text(id: CoinId) -> Seq<char>;

/// The minimum fee of a transaction of the given weight: weight and ballast
/// are added and multiplied by the fee multiplier, both saturating, and the
/// product is divided by 65536.
pub open spec fn fee_for_weight(weight: u128, fee_multiplier: u128, ballast: u128) -> u128 {
    let loaded: int = if weight + ballast > u128::MAX {
        u128::MAX as int
    } else {
        weight + ballast
    };
    let scaled: int = if loaded * fee_multiplier > u128::MAX {
        u128::MAX as int
    } else {
        loaded * fee_multiplier
    };
    (scaled / 65536) as u128
}

/// The sum of the weights of the first `n` covenants.
pub open spec fn covenant_weights(covenants: Seq<Seq<u8>>, n: int) -> int
    decreases n,
{
    if n <= 0 {
        0
    } else {
        covenant_weights(covenants, n - 1) + covenant_weight(covenants[n - 1])
    }
}

/// The byte that stands for a loop in the bytecode of a covenant.
pub const LOOP_OPCODE: u8 = 0xb0;

/// The most bytes of the value of the loop opcode that a covenant may hold
/// and still be weighed.
pub const LOOP_LIMIT: usize = 16;

/// The number of bytes of the value of the loop opcode among the first `n`
/// bytes.
pub open spec fn loop_bytes(bytes: Seq<u8>, n: int) -> int
    decreases n,
{
    if n <= 0 {
        0
    } else if bytes[n - 1] == LOOP_OPCODE {
        loop_bytes(bytes, n - 1) + 1
    } else {
        loop_bytes(bytes, n - 1)
    }
}

/// Whether the bytecode of a covenant is weighed. Weighing descends into
/// every loop and takes twice as long with every loop more, so a covenant
/// with more bytes that may stand for a loop than `LOOP_LIMIT` is not
/// weighed.
pub open spec fn weighable(bytes: Seq<u8>) -> bool {
    loop_bytes(bytes, bytes.len() as int) <= LOOP_LIMIT
}

/// Whether the covenants of a transaction are weighed and their weights
/// add up to a 128-bit number: only then has the transaction a weight.
pub open spec fn weights_fit(tx: TxView) -> bool {
    &&& forall|i: int| 0 <= i < tx.covenants.len() ==> weighable(#[trigger] tx.covenants[i])
    &&& covenant_weights(tx.covenants, tx.covenants.len() as int) <= u128::MAX
}

/// Builds a `melstructs::Transaction` of the ordinary kind with the fields
/// of a transaction but its kind and its outputs, of which the result has
/// none.
#[verifier::external_body]
pub(crate) fn chain_tx_shell(tx: &Tx) -> (t: melstructs::Transaction)
    ensures
        chain_tx_contents(t) == (TxView { kind: TxKind::Normal, outputs: Seq::empty(), ..tx@ }),
{
    melstructs::Transaction {
        kind: melstructs::TxKind::Normal,
        inputs: tx.inputs.iter().map(|c| melstructs::CoinID::new(tmelcrypt::HashVal(c.txhash.0).into(), c.index)).collect(),
        outputs: vec![],
        fee: tx.fee.into(),
        covenants: tx.covenants.iter().map(|c| c.clone().into()).collect(),
        data: tx.data.clone().into(),
        sigs: tx.sigs.iter().map(|c| c.clone().into()).collect(),
    }
}

/// Gives a `melstructs::Transaction` the kind of the same name.
#[verifier::external_body]
pub(crate) fn chain_tx_set_kind(t: &mut melstructs::Transaction, kind: TxKind)
    ensures
        chain_tx_contents(*final(t)) == (TxView { kind, ..chain_tx_contents(*old(t)) }),
{
    t.kind = match kind {
        TxKind::DoscMint => melstructs::TxKind::DoscMint,
        TxKind::Faucet => melstructs::TxKind::Faucet,
        TxKind::LiqDeposit => melstructs::TxKind::LiqDeposit,
        TxKind::LiqWithdraw => melstructs::TxKind::LiqWithdraw,
        TxKind::Normal => melstructs::TxKind::Normal,
        TxKind::Stake => melstructs::TxKind::Stake,
        TxKind::Swap => melstructs::TxKind::Swap,
    };
}

/// Appends a coin to the outputs of a `melstructs::Transaction`, with the
/// denomination of the same name.
#[verifier::external_body]
pub(crate) fn chain_tx_push_output(t: &mut melstructs::Transaction, o: &CoinData)
    ensures
        chain_tx_contents(*final(t)) == (TxView {
            outputs: chain_tx_contents(*old(t)).outputs.push(o@),
            ..chain_tx_contents(*old(t))
        }),
{
    t.outputs.push(melstructs::CoinData {
        covhash: tmelcrypt::HashVal(o.covhash.0).into(),
        value: o.value.into(),
        denom: match o.denom {
            Denom::Mel => melstructs::Denom::Mel,
            Denom::Sym => melstructs::Denom::Sym,
            Denom::Erg => melstructs::Denom::Erg,
            Denom::NewCustom => melstructs::Denom::NewCustom,
            Denom::Custom(h) => melstructs::Denom::Custom(tmelcrypt::HashVal(h.0).into()),
        },
        additional_data: o.additional_data.clone().into(),
    });
}

/// Calls `melstructs::Transaction::hash_nosigs`, which clears the signatures
/// of a copy, serializes the copy and hashes the bytes. The contract names
/// the result as a function of the transaction without its signatures.
#[verifier::external_body]
pub(crate) fn chain_hash_nosigs(t: &melstructs::Transaction) -> (r: TxHash)
    ensures
        r == nosigs_hash(chain_tx_contents(*t).without_sigs()),
{
    TxHash(t.hash_nosigs().0.0)
}

/// Calls `melvm::covenant_weight_from_bytes`: the weight of the covenant
/// that the bytes encode, saturating, and 0 where they encode none. It
/// weighs the body of a loop once for the loop and once more as what
/// follows it, each loop one call deeper, so that the bytes may hold only
/// so many loops.
#[verifier::external_body]
pub(crate) fn chain_covenant_weight(bytes: &Vec<u8>) -> (r: u128)
    requires
        weighable(bytes@),
    ensures
        r == covenant_weight(bytes@),
{
    melvm::covenant_weight_from_bytes(bytes)
}

/// Calls `melstructs::Transaction::base_fee` with the covenant weights of
/// `melvm::covenant_weight_from_bytes`. The contract gives the formula of
/// `base_fee` and names the weight inside it. The weight weighs every
/// covenant and adds up the weights without a check, so that each has to
/// be weighable and their sum has to fit.
#[verifier::external_body]
pub(crate) fn chain_base_fee(t: &melstructs::Transaction, fee_multiplier: u128, ballast: u128) -> (r:
    u128)
    requires
        weights_fit(chain_tx_contents(*t)),
    ensures
        r == fee_for_weight(tx_weight(chain_tx_contents(*t)), fee_multiplier, ballast),
{
    t.base_fee(fee_multiplier, ballast, melvm::covenant_weight_from_bytes).0
}

/// Calls `tmelcrypt::hash_single`, the BLAKE3 hash.
#[verifier::external_body]
pub(crate) fn chain_hash_bytes(data: &Vec<u8>) -> (r: [u8; 32])
    ensures
        r == blake3_hash(data@),
{
    tmelcrypt::hash_single(data).0
}

/// Calls `tmelcrypt::Ed25519SK::sign`, which signs with the first half of the
/// key. Ed25519 signatures are a function of key and message.
#[verifier::external_body]
pub(crate) fn chain_sign(sk: &[u8; 64], msg: &[u8; 32]) -> (r: Vec<u8>)
    ensures
        r@ == ed25519_signature(sk@, msg@),
{
    tmelcrypt::Ed25519SK(*sk).sign(msg)
}

/// Calls `melvm::Covenant::std_ed25519_pk_new` and encodes the covenant:
/// eight opcodes, of which the sixth pushes the key.
#[verifier::external_body]
pub(crate) fn chain_ed25519_covenant(pk: &[u8; 32]) -> (r: Vec<u8>)
    ensures
        r@ == ed25519_covenant_bytes(pk@),
{
    melvm::Covenant::std_ed25519_pk_new(tmelcrypt::Ed25519PK(*pk)).to_bytes().to_vec()
}

/// Calls `melstructs::CoinID::proposer_reward`, whose result has index 0 and
/// a keyed hash of the height.
#[verifier::external_body]
pub(crate) fn chain_proposer_reward(height: u64) -> (r: CoinId)
    ensures
        r == (CoinId { txhash: reward_pseudo_hash(height), index: 0 }),
{
    let c = melstructs::CoinID::proposer_reward(melstructs::BlockHeight(height));
    CoinId { txhash: TxHash(c.txhash.0.0), index: c.index }
}

/// Calls `getrandom::getrandom`, which fills a buffer from the system's
/// random source; `false` where the source fails.
#[verifier::external_body]
pub(crate) fn chain_random_fill(buf: &mut Vec<u8>) -> (ok: bool)
    ensures
        final(buf)@.len() == old(buf)@.len(),
{
    getrandom::getrandom(buf).is_ok()
}

/// Calls `base32::decode` with the Crockford alphabet.
#[verifier::external_body]
pub(crate) fn chain_crockford_decode(text: &str) -> (r: Option<Vec<u8>>)
    ensures
        match r {
            Some(b) => crockford_decoded(text@) == Some(b@),
            None => crockford_decoded(text@) is None,
        },
{
    base32::decode(base32::Alphabet::Crockford, text)
}

/// Calls `base32::encode` with the Crockford alphabet.
#[verifier::external_body]
pub(crate) fn chain_crockford_encode(data: &Vec<u8>) -> (r: String)
    ensures
        r@ == crockford_encoded(data@),
{
    base32::encode(base32::Alphabet::Crockford, data)
}

/// Calls `ed25519_dalek::SecretKey::from_bytes`, which accepts every 32
/// bytes, and derives the public key of the secret key.
#[verifier::external_body]
pub(crate) fn chain_public_of_seed(seed: &[u8; 32]) -> (r: [u8; 32])
    ensures
        r@ == ed25519_public(seed@),
{
    let secret = ed25519_dalek::SecretKey::from_bytes(seed).unwrap();
    ed25519_dalek::PublicKey::from(&secret).to_bytes()
}

/// Formats a `melstructs::CoinID`.
#[verifier::external_body]
pub(crate) fn chain_coin_id_text(id: &CoinId) -> (r: String)
    ensures
        r@ == coin_id_text(*id),
{
    melstructs::CoinID::new(tmelcrypt::HashVal(id.txhash.0).into(), id.index).to_string()
}

/// Calls `fastrand::u8` for a byte of the thread's random generator.
#[verifier::external_body]
pub(crate) fn chain_random_byte() -> (r: u8) {
    fastrand::u8(0..=255)
}

/// Whether the bytecode of a covenant is weighed.
pub fn is_weighable(bytes: &Vec<u8>) -> (r: bool)
    ensures
        r == weighable(bytes@),
{
    let mut loops: usize = 0;
    let mut i: usize = 0;
    while i < bytes.len()
        invariant
            i <= bytes.len(),
            loops == loop_bytes(bytes@, i as int),
            loops <= LOOP_LIMIT,
        decreases bytes.len() - i,
    {
        if bytes[i] == LOOP_OPCODE {
            if loops == LOOP_LIMIT {
                proof {
                    lemma_loop_bytes_grow(bytes@, i as int + 1, bytes@.len() as int);
                }
                return false;
            }
            loops += 1;
        }
        i += 1;
    }
    true
}

/// The count of loop bytes does not shrink as more bytes are counted.
pub proof fn lemma_loop_bytes_grow(bytes: Seq<u8>, n: int, m: int)
    requires
        0 <= n <= m,
    ensures
        loop_bytes(bytes, n) <= loop_bytes(bytes, m),
    decreases m,
{
    if n < m {
        lemma_loop_bytes_grow(bytes, n, m - 1);
    }
}

/// The sum of the weights of covenants does not shrink as more are added.
pub proof fn lemma_covenant_weights_grow(covenants: Seq<Seq<u8>>, n: int, m: int)
    requires
        0 <= n <= m,
    ensures
        covenant_weights(covenants, n) <= covenant_weights(covenants, m),
    decreases m,
{
    if n < m {
        lemma_covenant_weights_grow(covenants, n, m - 1);
    }
}

impl Tx {
    /// The transaction in the chain's own type.
    pub(crate) fn to_chain(&self) -> (t: melstructs::Transaction)
        ensures
            chain_tx_contents(t) == self@,
    {
        let mut t = chain_tx_shell(self);
        chain_tx_set_kind(&mut t, self.kind);
        let mut i: usize = 0;
        assert(self@.outputs.take(0) =~= Seq::empty());
        while i < self.outputs.len()
            invariant
                i <= self.outputs.len(),
                chain_tx_contents(t) == (TxView { outputs: self@.outputs.take(i as int), ..self@ }),
            decreases self.outputs.len() - i,
        {
            chain_tx_push_output(&mut t, &self.outputs[i]);
            assert(self@.outputs.take(i as int + 1) =~= self@.outputs.take(i as int).push(
                self.outputs@[i as int]@,
            ));
            i += 1;
        }
        assert(self@.outputs.take(self.outputs@.len() as int) =~= self@.outputs);
        t
    }

    /// The hash of the transaction, which does not depend on its signatures.
    pub fn hash_nosigs(&self) -> (r: TxHash)
        ensures
            r == self@.hash_nosigs(),
    {
        let t = self.to_chain();
        chain_hash_nosigs(&t)
    }

    /// The sum of the weights of the covenants of the transaction; `None`
    /// where a covenant is not weighed or the sum does not fit in 128
    /// bits.
    pub fn covenants_weight(&self) -> (r: Option<u128>)
        ensures
            match r {
                Some(w) => weights_fit(self@) && w == covenant_weights(
                    self@.covenants,
                    self@.covenants.len() as int,
                ),
                None => !weights_fit(self@),
            },
    {
        let mut total: u128 = 0;
        let mut i: usize = 0;
        while i < self.covenants.len()
            invariant
                i <= self.covenants.len(),
                total == covenant_weights(self@.covenants, i as int),
                forall|j: int| 0 <= j < i ==> weighable(#[trigger] self@.covenants[j]),
            decreases self.covenants.len() - i,
        {
            assert(self@.covenants[i as int] == self.covenants@[i as int]@);
            if !is_weighable(&self.covenants[i]) {
                return None;
            }
            let w = chain_covenant_weight(&self.covenants[i]);
            match total.checked_add(w) {
                Some(t) => {
                    total = t;
                },
                None => {
                    proof {
                        lemma_covenant_weights_grow(
                            self@.covenants,
                            i as int + 1,
                            self@.covenants.len() as int,
                        );
                    }
                    return None;
                },
            }
            i += 1;
        }
        Some(total)
    }

    /// The minimum fee of the transaction at a fee multiplier, with ballast
    /// added to its weight.
    pub fn base_fee(&self, fee_multiplier: u128, ballast: u128) -> (r: u128)
        requires
            weights_fit(self@),
        ensures
            r == self@.base_fee(fee_multiplier, ballast),
    {
        let t = self.to_chain();
        chain_base_fee(&t, fee_multiplier, ballast)
    }

    /// The minimum fee of the transaction at a fee multiplier, with ballast
    /// added to its weight; `None` where a covenant is not weighed or the
    /// weights of its covenants do not add up to a 128-bit number.
    pub fn checked_base_fee(&self, fee_multiplier: u128, ballast: u128) -> (r: Option<u128>)
        ensures
            match r {
                Some(fee) => weights_fit(self@) && fee == self@.base_fee(fee_multiplier, ballast),
                None => !weights_fit(self@),
            },
    {
        match self.covenants_weight() {
            Some(_) => Some(self.base_fee(fee_multiplier, ballast)),
            None => None,
        }
    }

    /// The coin identifier of the output at `index`.
    pub fn output_coinid(&self, index: u8) -> (r: CoinId)
        ensures
            r == (CoinId { txhash: self@.hash_nosigs(), index }),
    {
        CoinId { txhash: self.hash_nosigs(), index }
    }
}

impl TxView {
    /// The hash of the transaction, which does not depend on its signatures.
    pub open spec fn hash_nosigs(self) -> TxHash {
        nosigs_hash(self.without_sigs())
    }

    /// The minimum fee of the transaction at a fee multiplier, with ballast
    /// added to its weight.
    pub open spec fn base_fee(self, fee_multiplier: u128, ballast: u128) -> u128 {
        fee_for_weight(tx_weight(self), fee_multiplier, ballast)
    }
}

/// The address of a covenant: the hash of its bytecode.
pub open spec fn covenant_address(covenant: Seq<u8>) -> Address {
    Address(blake3_hash(covenant))
}

/// The address of a covenant: the hash of its bytecode.
pub fn address_of_covenant(covenant: &Vec<u8>) -> (r: Address)
    ensures
        r == covenant_address(covenant@),
{
    Address(chain_hash_bytes(covenant))
}

/// The pseudo coin identifier under which the proposer's reward of a block
/// height is recorded.
pub fn proposer_reward(height: u64) -> (r: CoinId)
    ensures
        r == (CoinId { txhash: reward_pseudo_hash(height), index: 0 }),
{
    chain_proposer_reward(height)
}

} // verus!
