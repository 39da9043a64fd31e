//! A wallet custody library for a UTXO-based blockchain: the ledger of coins,
//! spends and pending transactions, the rules of synchronization with a full
//! node, transaction preparation with fee search, and the secret store.

pub mod hashes;
pub mod table;
pub mod names;
pub mod coins;
pub mod chain;
pub mod pool;
pub mod database;
pub mod guarantees;
pub mod signer;
pub mod secrets;
pub mod sums;
pub mod prepare;
pub mod conservation;
pub mod sync;
pub mod multi;
pub mod walletdata;
pub mod state;
pub mod status;
