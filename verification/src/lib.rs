//! A small proof-of-work ledger: accounts, signed transactions, a fee-ordered
//! mempool, built-in programs and block mining, with the logic verified.

pub mod block;
pub mod chain;
pub mod clock;
pub mod digest;
pub mod encoding;
pub mod fee_order;
pub mod keymap;
pub mod keys;
pub mod laws;
pub mod ledger;
pub mod transaction;
pub mod types;

pub use block::hash_block;
pub use chain::SyncOutcome;
pub use clock::current_time;
pub use keymap::KeyMap;
pub use keys::{generate_keypair, PublicKey, SecretKey};
pub use transaction::sign_transaction;
pub use types::{
    Account, AccountMeta, Block, BlockError, Blockchain, CoinbaseTransaction, MempoolError,
    Transaction, TransactionError, TransferError, BLOCK_REWARD,
};
