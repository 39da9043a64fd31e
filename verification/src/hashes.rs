//! Fixed-size identifiers: transaction hashes, addresses and coin identifiers.

use vstd::prelude::*;

verus! {

/// A key of a table: a plain value that can be compared for equality.
pub trait RowKey: Copy {
    /// Whether two keys are the same value.
    fn same(&self, other: &Self) -> (r: bool)
        ensures
            r == (*self == *other),
    ;
}

/// Compares two 32-byte arrays.
pub fn bytes32_eq(a: &[u8; 32], b: &[u8; 32]) -> (r: bool)
    ensures
        r == (*a == *b),
{
    let mut i: usize = 0;
    while i < 32
        invariant
            i <= 32,
            forall|j: int| 0 <= j < i ==> a[j] == b[j],
        decreases 32 - i,
    {
        if a[i] != b[i] {
            return false;
        }
        i += 1;
    }
    assert(*a =~= *b);
    true
}

/// Copies a byte vector.
pub fn clone_bytes(v: &Vec<u8>) -> (r: Vec<u8>)
    ensures
        r@ == v@,
{
    let mut out: Vec<u8> = Vec::new();
    let mut i: usize = 0;
    while i < v.len()
        invariant
            i <= v.len(),
            out@ == v@.take(i as int),
        decreases v.len() - i,
    {
        out.push(v[i]);
        assert(v@.take(i as int + 1) == v@.take(i as int).push(v@[i as int]));
        i += 1;
    }
    assert(v@.take(v.len() as int) == v@);
    out
}

/// The hash of a transaction taken without its signatures.
#[derive(Clone, Copy, Debug, PartialEq, Eq)]
pub struct TxHash(pub [u8; 32]);

impl RowKey for TxHash {
    fn same(&self, other: &TxHash) -> (r: bool) {
        bytes32_eq(&self.0, &other.0)
    }
}

impl View for TxHash {
    type V = TxHash;

    open spec fn view(&self) -> TxHash {
        *self
    }
}

/// The hash of a covenant: the identity of a wallet, and the field of a coin
/// that says which wallet controls it.
#[derive(Clone, Copy, Debug, PartialEq, Eq)]
pub struct Address(pub [u8; 32]);

impl View for Address {
    type V = Address;

    open spec fn view(&self) -> Address {
        *self
    }
}

impl RowKey for Address {
    fn same(&self, other: &Address) -> (r: bool) {
        bytes32_eq(&self.0, &other.0)
    }
}

/// The `index`-th output of the transaction with hash `txhash`.
#[derive(Clone, Copy, Debug, PartialEq, Eq)]
pub struct CoinId {
    pub txhash: TxHash,
    pub index: u8,
}

impl CoinId {
    /// The coin at `index` among the outputs of `txhash`.
    pub fn new(txhash: TxHash, index: u8) -> (r: CoinId)
        ensures
            r == (CoinId { txhash, index }),
    {
        CoinId { txhash, index }
    }
}

impl RowKey for CoinId {
    fn same(&self, other: &CoinId) -> (r: bool) {
        self.index == other.index && self.txhash.same(&other.txhash)
    }
}

} // verus!
