//! What the daemon reports of a transaction.

use vstd::prelude::*;
use crate::coins::{CoinData, CoinDataView, Tx, TxKind, TxView};
use crate::coins::Denom;
use crate::table::Table;

verus! {

/// An output of a transaction with what the wallet knows of it, as
/// contracts see it.
pub struct AnnCoinIDView {
    pub coin_data: CoinDataView,
    pub is_change: bool,
    pub coin_id: Seq<char>,
}

/// An output of a transaction with what the wallet knows of it: whether it
/// pays the wallet itself, and the text of its coin identifier.
#[derive(Clone, Debug, PartialEq, Eq)]
pub struct AnnCoinID {
    pub coin_data: CoinData,
    pub is_change: bool,
    pub coin_id: String,
}

impl View for AnnCoinID {
    type V = AnnCoinIDView;

    open spec fn view(&self) -> AnnCoinIDView {
        AnnCoinIDView {
            coin_data: self.coin_data@,
            is_change: self.is_change,
            coin_id: self.coin_id@,
        }
    }
}

/// The outputs of a status, as contracts see them.
pub open spec fn annotated_view(s: Seq<AnnCoinID>) -> Seq<AnnCoinIDView> {
    Seq::new(s.len(), |i: int| s[i]@)
}

/// The status of a transaction, as contracts see it.
pub struct TransactionStatusView {
    pub raw: TxView,
    pub confirmed_height: Option<u64>,
    pub outputs: Seq<AnnCoinIDView>,
}

/// The status of a transaction: the transaction itself, the height at
/// which it was confirmed, if it was, and its outputs.
#[derive(Clone, Debug, PartialEq, Eq)]
pub struct TransactionStatus {
    pub raw: Tx,
    pub confirmed_height: Option<u64>,
    pub outputs: Vec<AnnCoinID>,
}

impl View for TransactionStatus {
    type V = TransactionStatusView;

    open spec fn view(&self) -> TransactionStatusView {
        TransactionStatusView {
            raw: self.raw@,
            confirmed_height: self.confirmed_height,
            outputs: annotated_view(self.outputs@),
        }
    }
}

/// What a transaction changes in a wallet's balances: whether the wallet
/// originated it, its kind, and the change by denomination.
pub struct TxBalance(pub bool, pub TxKind, pub Table<Denom, i128>);

} // verus!
