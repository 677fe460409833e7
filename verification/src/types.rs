//! The ledger's data: accounts, transactions, blocks and the chain, and the
//! errors its operations report.

use crate::keymap::KeyMap;
use crate::keys::PublicKey;
use vstd::prelude::*;

verus! {

/// The reward, in coins, for mining a block, before fees.
pub const BLOCK_REWARD: u64 = 50;

/// Errors in signing or checking a transaction.
#[derive(Debug, PartialEq, Eq)]
pub enum TransactionError {
    SerializationFailed,
    InvalidSignature,
}

/// A key that a transaction touches, with the rights the transaction claims on it.
#[derive(Clone, Copy, Debug, PartialEq, Eq)]
pub struct AccountMeta {
    pub pubkey: PublicKey,
    /// Whether the owner of this account signed the transaction.
    pub is_signer: bool,
    /// Whether the transaction may change this account's coins or data.
    pub is_writable: bool,
}

/// Errors in applying a transaction to the ledger.
#[derive(Debug, PartialEq, Eq)]
pub enum TransferError {
    SenderNotFound,
    ReceiverNotFound,
    InsufficientFunds,
    UnauthorizedSigner,
    ReceiverNotWritable,
    SenderNotWritable,
    /// A balance or a nonce would exceed `u64::MAX`.
    BalanceOverflow,
}

/// Errors in admitting a transaction to the mempool.
#[derive(Debug, PartialEq, Eq)]
pub enum MempoolError {
    InvalidSignature,
    AccountNotFound,
    InvalidNonce,
    InsufficientFunds,
}

/// The payment of a block's reward and fees to its miner.
#[derive(Debug)]
pub struct CoinbaseTransaction {
    pub to: PublicKey,
    pub amount: u64,
}

/// A signed transfer, possibly the invocation of a program.
#[derive(Debug)]
pub struct Transaction {
    pub from: PublicKey,
    pub to: PublicKey,
    pub amount: u64,
    /// The DER encoding of the sender's ECDSA signature.
    pub signature: Vec<u8>,
    pub instruction_data: Vec<u8>,
    pub fee: u64,
    pub nonce: u64,
    pub accounts: Vec<AccountMeta>,
    pub program_id: PublicKey,
}

/// A mined block.
#[derive(Debug)]
pub struct Block {
    pub index: u32,
    pub timestamp: u64,
    pub coinbase: CoinbaseTransaction,
    pub transactions: Vec<Transaction>,
    pub previous_hash: String,
    pub hash: String,
    pub nonce: u64,
}

/// Errors in adding a block.
#[derive(Debug, PartialEq, Eq)]
pub enum BlockError {
    Transaction(TransferError),
    /// The block's reward, or the miner's balance after it, would exceed `u64::MAX`.
    RewardOverflow,
    /// No nonce in the range of `u64` gives a hash with the required zeros.
    NonceExhausted,
}

impl From<TransferError> for BlockError {
    fn from(err: TransferError) -> (res: Self) {
        BlockError::Transaction(err)
    }
}

impl vstd::std_specs::convert::FromSpecImpl<TransferError> for BlockError {
    open spec fn obeys_from_spec() -> bool {
        true
    }

    open spec fn from_spec(v: TransferError) -> Self {
        BlockError::Transaction(v)
    }
}

/// What the ledger knows of an account.
pub struct AccountView {
    pub coins: u64,
    pub data: Seq<u8>,
    pub owner: Seq<u8>,
    pub executable: bool,
}

/// An account: its coins, its data, the key that owns it, and whether it is a program.
#[derive(Debug)]
pub struct Account {
    pub coins: u64,
    pub data: Vec<u8>,
    pub owner: PublicKey,
    pub executable: bool,
}

impl View for Account {
    type V = AccountView;

    open spec fn view(&self) -> AccountView {
        AccountView {
            coins: self.coins,
            data: self.data@,
            owner: self.owner@,
            executable: self.executable,
        }
    }
}

/// The chain, the pending transactions and the account state of a node.
#[derive(Debug)]
pub struct Blockchain {
    pub vec: Vec<Block>,
    pub difficulty: u32,
    pub mempool: Vec<Transaction>,
    pub accounts: KeyMap<Account>,
    pub faucet_program_id: PublicKey,
    pub notebook_program_id: PublicKey,
    pub distributor_program_id: PublicKey,
    pub nonces: KeyMap<u64>,
}

} // verus!
