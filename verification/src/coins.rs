//! Coins and transactions as plain values, with the views that contracts use.

use vstd::prelude::*;
use crate::hashes::{clone_bytes, Address, CoinId, RowKey, TxHash};

verus! {

/// A currency identifier.
#[derive(Clone, Copy, Debug, PartialEq, Eq)]
pub enum Denom {
    Mel,
    Sym,
    Erg,
    /// The sentinel of a freshly minted currency; it stands only in outputs.
    NewCustom,
    /// A minted currency, named by the transaction that minted it.
    Custom(TxHash),
}

impl Denom {
    /// The wire encoding of a denomination.
    pub open spec fn spec_to_bytes(self) -> Seq<u8> {
        match self {
            Denom::Mel => seq![0x6du8],
            Denom::Sym => seq![0x73u8],
            Denom::Erg => seq![0x64u8],
            Denom::NewCustom => Seq::empty(),
            Denom::Custom(h) => h.0@,
        }
    }

    /// The denomination that `b` encodes, if it encodes one.
    pub open spec fn spec_from_bytes(b: Seq<u8>) -> Option<Denom> {
        if b == seq![0x6du8] {
            Some(Denom::Mel)
        } else if b == seq![0x73u8] {
            Some(Denom::Sym)
        } else if b == seq![0x64u8] {
            Some(Denom::Erg)
        } else if b.len() == 0 {
            Some(Denom::NewCustom)
        } else if b.len() == 32 {
            Some(Denom::Custom(TxHash(array_of(b))))
        } else {
            None
        }
    }

    /// Encodes a denomination: one letter for the native ones, nothing for
    /// the mint sentinel, the 32 bytes of the hash for a minted one.
    pub fn to_bytes(&self) -> (r: Vec<u8>)
        ensures
            r@ == self.spec_to_bytes(),
    {
        let mut out: Vec<u8> = Vec::new();
        match self {
            Denom::Mel => {
                out.push(0x6du8);
                assert(out@ =~= seq![0x6du8]);
            },
            Denom::Sym => {
                out.push(0x73u8);
                assert(out@ =~= seq![0x73u8]);
            },
            Denom::Erg => {
                out.push(0x64u8);
                assert(out@ =~= seq![0x64u8]);
            },
            Denom::NewCustom => {},
            Denom::Custom(h) => {
                let mut i: usize = 0;
                while i < 32
                    invariant
                        i <= 32,
                        out@ == h.0@.take(i as int),
                    decreases 32 - i,
                {
                    out.push(h.0[i]);
                    assert(h.0@.take(i as int + 1) == h.0@.take(i as int).push(h.0@[i as int]));
                    i += 1;
                }
                assert(h.0@.take(32) == h.0@);
            },
        }
        out
    }

    /// Decodes a denomination; `None` where the bytes encode none.
    pub fn from_bytes(b: &Vec<u8>) -> (r: Option<Denom>)
        ensures
            r == Denom::spec_from_bytes(b@),
    {
        if b.len() == 1 && b[0] == 0x6du8 {
            assert(b@ =~= seq![0x6du8]);
            return Some(Denom::Mel);
        }
        assert(b@ != seq![0x6du8]) by {
            if b@ == seq![0x6du8] {
                assert(seq![0x6du8].len() == 1 && seq![0x6du8][0] == 0x6du8);
            }
        }
        if b.len() == 1 && b[0] == 0x73u8 {
            assert(b@ =~= seq![0x73u8]);
            return Some(Denom::Sym);
        }
        assert(b@ != seq![0x73u8]) by {
            if b@ == seq![0x73u8] {
                assert(seq![0x73u8].len() == 1 && seq![0x73u8][0] == 0x73u8);
            }
        }
        if b.len() == 1 && b[0] == 0x64u8 {
            assert(b@ =~= seq![0x64u8]);
            return Some(Denom::Erg);
        }
        assert(b@ != seq![0x64u8]) by {
            if b@ == seq![0x64u8] {
                assert(seq![0x64u8].len() == 1 && seq![0x64u8][0] == 0x64u8);
            }
        }
        if b.len() == 0 {
            return Some(Denom::NewCustom);
        }
        if b.len() == 32 {
            let mut h: [u8; 32] = [0u8; 32];
            let mut i: usize = 0;
            while i < 32
                invariant
                    i <= 32,
                    b@.len() == 32,
                    forall|j: int| 0 <= j < i ==> h@[j] == b@[j],
                decreases 32 - i,
            {
                h[i] = b[i];
                i += 1;
            }
            assert(h@ =~= b@);
            proof {
                lemma_array_of(b@, h);
            }
            return Some(Denom::Custom(TxHash(h)));
        }
        None
    }
}

impl RowKey for Denom {
    fn same(&self, other: &Denom) -> (r: bool) {
        match (self, other) {
            (Denom::Mel, Denom::Mel) => true,
            (Denom::Sym, Denom::Sym) => true,
            (Denom::Erg, Denom::Erg) => true,
            (Denom::NewCustom, Denom::NewCustom) => true,
            (Denom::Custom(a), Denom::Custom(b)) => a.same(b),
            _ => false,
        }
    }
}

/// The array that holds the 32 bytes of `b`.
pub open spec fn array_of(b: Seq<u8>) -> [u8; 32] {
    choose|a: [u8; 32]| a@ == b
}

/// `array_of` finds the array whose bytes are given.
pub proof fn lemma_array_of(b: Seq<u8>, a: [u8; 32])
    requires
        a@ == b,
    ensures
        array_of(b) == a,
{
    let c = array_of(b);
    assert(c@ == b);
    assert(c =~= a);
}

/// Decoding what was encoded gives the denomination back.
pub proof fn lemma_denom_round_trip(d: Denom)
    ensures
        Denom::spec_from_bytes(d.spec_to_bytes()) == Some(d),
{
    match d {
        Denom::Mel => {},
        Denom::Sym => {
            assert(seq![0x73u8][0] != seq![0x6du8][0]);
        },
        Denom::Erg => {
            assert(seq![0x64u8][0] != seq![0x6du8][0]);
            assert(seq![0x64u8][0] != seq![0x73u8][0]);
        },
        Denom::NewCustom => {
            assert(Seq::<u8>::empty().len() != seq![0x6du8].len());
            assert(Seq::<u8>::empty().len() != seq![0x73u8].len());
            assert(Seq::<u8>::empty().len() != seq![0x64u8].len());
        },
        Denom::Custom(h) => {
            assert(h.0@.len() == 32);
            assert(seq![0x6du8].len() == 1);
            assert(seq![0x73u8].len() == 1);
            assert(seq![0x64u8].len() == 1);
            lemma_array_of(h.0@, h.0);
        },
    }
}

/// The kind of a transaction.
#[derive(Clone, Copy, Debug, PartialEq, Eq)]
pub enum TxKind {
    DoscMint,
    Faucet,
    LiqDeposit,
    LiqWithdraw,
    Normal,
    Stake,
    Swap,
}

impl TxKind {
    /// The byte that stands for a kind on the wire.
    pub open spec fn spec_code(self) -> u8 {
        match self {
            TxKind::DoscMint => 0x50,
            TxKind::Faucet => 0xff,
            TxKind::LiqDeposit => 0x52,
            TxKind::LiqWithdraw => 0x53,
            TxKind::Normal => 0x00,
            TxKind::Stake => 0x10,
            TxKind::Swap => 0x51,
        }
    }

    /// The byte that stands for a kind on the wire.
    pub fn code(&self) -> (r: u8)
        ensures
            r == self.spec_code(),
    {
        match self {
            TxKind::DoscMint => 0x50,
            TxKind::Faucet => 0xff,
            TxKind::LiqDeposit => 0x52,
            TxKind::LiqWithdraw => 0x53,
            TxKind::Normal => 0x00,
            TxKind::Stake => 0x10,
            TxKind::Swap => 0x51,
        }
    }

    /// Whether this is an ordinary transfer.
    pub fn is_normal(&self) -> (r: bool)
        ensures
            r == (*self == TxKind::Normal),
    {
        match self {
            TxKind::Normal => true,
            _ => false,
        }
    }
}

/// What a coin holds, as contracts see it.
pub struct CoinDataView {
    pub covhash: Address,
    pub value: u128,
    pub denom: Denom,
    pub additional_data: Seq<u8>,
}

/// What a coin holds: who controls it, how much of which currency, and data.
#[derive(Clone, Debug, PartialEq, Eq)]
pub struct CoinData {
    pub covhash: Address,
    pub value: u128,
    pub denom: Denom,
    pub additional_data: Vec<u8>,
}

impl View for CoinData {
    type V = CoinDataView;

    open spec fn view(&self) -> CoinDataView {
        CoinDataView {
            covhash: self.covhash,
            value: self.value,
            denom: self.denom,
            additional_data: self.additional_data@,
        }
    }
}

impl CoinData {
    /// A copy of the coin.
    pub fn duplicate(&self) -> (r: CoinData)
        ensures
            r@ == self@,
    {
        CoinData {
            covhash: self.covhash,
            value: self.value,
            denom: self.denom,
            additional_data: clone_bytes(&self.additional_data),
        }
    }
}

/// A coin together with the height at which it was confirmed.
pub struct CoinDataHeightView {
    pub coin_data: CoinDataView,
    pub height: u64,
}

/// A coin together with the height at which it was confirmed.
#[derive(Clone, Debug, PartialEq, Eq)]
pub struct CoinDataHeight {
    pub coin_data: CoinData,
    pub height: u64,
}

impl View for CoinDataHeight {
    type V = CoinDataHeightView;

    open spec fn view(&self) -> CoinDataHeightView {
        CoinDataHeightView { coin_data: self.coin_data@, height: self.height }
    }
}

impl CoinDataHeight {
    /// A copy of the coin and its height.
    pub fn duplicate(&self) -> (r: CoinDataHeight)
        ensures
            r@ == self@,
    {
        CoinDataHeight { coin_data: self.coin_data.duplicate(), height: self.height }
    }
}

/// The views of a sequence of coins.
pub open spec fn coins_view(s: Seq<CoinData>) -> Seq<CoinDataView> {
    Seq::new(s.len(), |i: int| s[i]@)
}

/// The contents of a sequence of byte strings.
pub open spec fn blobs_view(s: Seq<Vec<u8>>) -> Seq<Seq<u8>> {
    Seq::new(s.len(), |i: int| s[i]@)
}

/// Copies a vector of coins.
pub fn clone_coins(v: &Vec<CoinData>) -> (r: Vec<CoinData>)
    ensures
        coins_view(r@) == coins_view(v@),
{
    let mut out: Vec<CoinData> = Vec::new();
    let mut i: usize = 0;
    while i < v.len()
        invariant
            i <= v.len(),
            out@.len() == i,
            forall|j: int| 0 <= j < i ==> (#[trigger] out@[j])@ == v@[j]@,
        decreases v.len() - i,
    {
        out.push(v[i].duplicate());
        i += 1;
    }
    assert(coins_view(out@) =~= coins_view(v@));
    out
}

/// Copies a vector of byte strings.
pub fn clone_blobs(v: &Vec<Vec<u8>>) -> (r: Vec<Vec<u8>>)
    ensures
        blobs_view(r@) == blobs_view(v@),
{
    let mut out: Vec<Vec<u8>> = Vec::new();
    let mut i: usize = 0;
    while i < v.len()
        invariant
            i <= v.len(),
            out@.len() == i,
            forall|j: int| 0 <= j < i ==> (#[trigger] out@[j])@ == v@[j]@,
        decreases v.len() - i,
    {
        out.push(clone_bytes(&v[i]));
        i += 1;
    }
    assert(blobs_view(out@) =~= blobs_view(v@));
    out
}

/// Copies a vector of coin identifiers.
pub fn clone_ids(v: &Vec<CoinId>) -> (r: Vec<CoinId>)
    ensures
        r@ == v@,
{
    let mut out: Vec<CoinId> = Vec::new();
    let mut i: usize = 0;
    while i < v.len()
        invariant
            i <= v.len(),
            out@.len() == i,
            forall|j: int| 0 <= j < i ==> out@[j] == v@[j],
        decreases v.len() - i,
    {
        out.push(v[i]);
        i += 1;
    }
    assert(out@ =~= v@);
    out
}

/// A transaction, as contracts see it.
pub struct TxView {
    pub kind: TxKind,
    pub inputs: Seq<CoinId>,
    pub outputs: Seq<CoinDataView>,
    pub fee: u128,
    pub covenants: Seq<Seq<u8>>,
    pub data: Seq<u8>,
    pub sigs: Seq<Seq<u8>>,
}

impl TxView {
    /// The same transaction with no signatures.
    pub open spec fn without_sigs(self) -> TxView {
        TxView { sigs: Seq::empty(), ..self }
    }
}

/// A transaction: the coins it spends, the coins it creates, its fee, the
/// covenants that unlock the spent coins, free data, and signatures.
#[derive(Clone, Debug, PartialEq, Eq)]
pub struct Tx {
    pub kind: TxKind,
    pub inputs: Vec<CoinId>,
    pub outputs: Vec<CoinData>,
    pub fee: u128,
    pub covenants: Vec<Vec<u8>>,
    pub data: Vec<u8>,
    pub sigs: Vec<Vec<u8>>,
}

impl View for Tx {
    type V = TxView;

    open spec fn view(&self) -> TxView {
        TxView {
            kind: self.kind,
            inputs: self.inputs@,
            outputs: coins_view(self.outputs@),
            fee: self.fee,
            covenants: blobs_view(self.covenants@),
            data: self.data@,
            sigs: blobs_view(self.sigs@),
        }
    }
}

impl Tx {
    /// A copy of the transaction.
    pub fn duplicate(&self) -> (r: Tx)
        ensures
            r@ == self@,
    {
        Tx {
            kind: self.kind,
            inputs: clone_ids(&self.inputs),
            outputs: clone_coins(&self.outputs),
            fee: self.fee,
            covenants: clone_blobs(&self.covenants),
            data: clone_bytes(&self.data),
            sigs: clone_blobs(&self.sigs),
        }
    }
}

} // verus!
