//! The node's chain: creating it, changing accounts, applying transactions,
//! admitting them to the mempool, mining blocks and checking the chain.

use crate::block::{hash_block, least_mined_nonce, meets_difficulty, mine, no_nonce_mines};
use crate::clock::current_time;
use crate::fee_order::{fee_sorted, sort_by_fee};
use crate::keymap::KeyMap;
use crate::keys::PublicKey;
use crate::ledger::{
    add_coins, find_meta, fresh_account, lemma_run_fees, lemma_run_stops, nonce_of, run_program,
    set_coins, spec_apply, spec_execute, spec_run, sum_fees, with_coins, Ledger, Programs,
};
use crate::types::{
    Account, AccountMeta, AccountView, Block, BlockError, Blockchain, CoinbaseTransaction,
    MempoolError, Transaction, TransferError, BLOCK_REWARD,
};
use vstd::prelude::*;
use vstd::string::StrSliceExecFns;

verus! {

/// Declares `serde_json::Error`, the error type in the signature of
/// `Blockchain::is_valid`; Verus sees nothing inside it.
#[verifier::external_type_specification]
#[verifier::external_body]
pub struct ExJsonError(serde_json::Error);

/// What a node did with a chain received from a peer.
#[derive(Debug, PartialEq, Eq)]
pub enum SyncOutcome {
    /// The peer's chain was longer and valid, and replaced the node's.
    Replaced,
    /// The peer's chain was no longer than the node's.
    NotLonger,
    /// The peer's chain was longer but not valid.
    Invalid,
}

/// What a node does with a peer's chain: it adopts it only when it is longer
/// than its own and valid.
pub open spec fn spec_sync_outcome(own: Seq<Block>, peer: Blockchain) -> SyncOutcome {
    if peer.vec@.len() <= own.len() {
        SyncOutcome::NotLonger
    } else if chain_valid(peer.vec@, peer.difficulty) {
        SyncOutcome::Replaced
    } else {
        SyncOutcome::Invalid
    }
}

/// The hash that the next block links to: the last block's, or "0" for the first.
pub open spec fn tip_hash(blocks: Seq<Block>) -> Seq<char> {
    if blocks.len() > 0 {
        blocks.last().hash@
    } else {
        seq!['0']
    }
}

/// The coins of `key` (zero when it has no account).
pub open spec fn balance_of(accounts: Map<Seq<u8>, AccountView>, key: Seq<u8>) -> int {
    if accounts.contains_key(key) {
        accounts[key].coins as int
    } else {
        0
    }
}

/// The accounts after `amount` coins are paid to `key`, whose account is
/// created if it has none.
pub open spec fn pay(accounts: Map<Seq<u8>, AccountView>, key: Seq<u8>, amount: u64) -> Map<
    Seq<u8>,
    AccountView,
> {
    if accounts.contains_key(key) {
        accounts.insert(key, with_coins(accounts[key], (accounts[key].coins + amount) as u64))
    } else {
        accounts.insert(key, with_coins(fresh_account(key), amount))
    }
}

/// Whether a block reward with `fees` fits in `u64`, and fits on top of the miner's balance.
pub open spec fn reward_fits(accounts: Map<Seq<u8>, AccountView>, miner: Seq<u8>, fees: int) -> bool {
    &&& BLOCK_REWARD + fees <= u64::MAX
    &&& balance_of(accounts, miner) + BLOCK_REWARD + fees <= u64::MAX
}

/// `b` is the block mined from these fields at this difficulty.
pub open spec fn is_mined_block(
    b: Block,
    index: u32,
    timestamp: u64,
    txs: Seq<Transaction>,
    previous_hash: Seq<char>,
    coinbase: CoinbaseTransaction,
    difficulty: u32,
) -> bool {
    &&& b.index == index
    &&& b.timestamp == timestamp
    &&& b.transactions@ == txs
    &&& b.previous_hash@ == previous_hash
    &&& b.coinbase == coinbase
    &&& b.hash@ == b.computed_hash()
    &&& least_mined_nonce(
        index,
        timestamp,
        txs,
        previous_hash,
        coinbase,
        difficulty as int,
        b.nonce,
    )
}

/// A block's stored hash is the hash of its fields, has the required zeros,
/// and its coinbase pays exactly the reward plus its transactions' fees.
pub open spec fn block_valid(b: Block, difficulty: u32) -> bool {
    &&& b.hash@ == b.computed_hash()
    &&& meets_difficulty(b.hash@, difficulty as int)
    &&& b.coinbase.amount == BLOCK_REWARD + sum_fees(b.transactions@)
}

/// A chain is valid when it has a first block of index 0 linked to "0",
/// every block is valid, and every later block links to the hash of the one
/// before it.
pub open spec fn chain_valid(blocks: Seq<Block>, difficulty: u32) -> bool {
    &&& blocks.len() > 0
    &&& blocks[0].index == 0
    &&& blocks[0].previous_hash@ == seq!['0']
    &&& forall|j: int| 0 <= j < blocks.len() ==> block_valid(#[trigger] blocks[j], difficulty)
    &&& forall|j: int| 0 < j < blocks.len() ==> #[trigger] links_to_previous(blocks, j)
}

/// Block `j` carries the hash of block `j - 1` as its previous hash.
pub open spec fn links_to_previous(blocks: Seq<Block>, j: int) -> bool {
    blocks[j].previous_hash@ == blocks[j - 1].hash@
}

/// What a new chain created at `timestamp` is: the genesis key holds 1000
/// coins and nonce 0, difficulty is 2, the mempool is empty, and the only
/// block is the genesis block (index 0, no transactions, linked to "0",
/// paying the block reward to the genesis key) mined at that difficulty.
/// `None` exactly when no nonce mines the genesis block.
pub open spec fn spec_genesis(
    chain: Option<Blockchain>,
    genesis_pubkey: PublicKey,
    faucet_program_id: PublicKey,
    notebook_program_id: PublicKey,
    distributor_program_id: PublicKey,
    timestamp: u64,
) -> bool {
    match chain {
        Some(bc) => {
            &&& bc.accounts@ == Map::<Seq<u8>, AccountView>::empty().insert(
                genesis_pubkey@,
                AccountView {
                    coins: 1000,
                    data: Seq::empty(),
                    owner: genesis_pubkey@,
                    executable: false,
                },
            )
            &&& bc.nonces@ == Map::<Seq<u8>, u64>::empty().insert(genesis_pubkey@, 0)
            &&& bc.difficulty == 2
            &&& bc.mempool@.len() == 0
            &&& bc.faucet_program_id == faucet_program_id
            &&& bc.notebook_program_id == notebook_program_id
            &&& bc.distributor_program_id == distributor_program_id
            &&& bc.vec@.len() == 1
            &&& is_mined_block(
                bc.vec@[0],
                0,
                timestamp,
                Seq::empty(),
                seq!['0'],
                CoinbaseTransaction { to: genesis_pubkey, amount: BLOCK_REWARD },
                2,
            )
        },
        None => no_nonce_mines(
            0,
            timestamp,
            Seq::empty(),
            seq!['0'],
            CoinbaseTransaction { to: genesis_pubkey, amount: BLOCK_REWARD },
            2,
        ),
    }
}

/// What mining the mempool into a block at `timestamp` does (see `add_block_at`).
pub open spec fn spec_add_block(
    old: Blockchain,
    new: Blockchain,
    miner: PublicKey,
    timestamp: u64,
    res: Result<(), BlockError>,
) -> bool {
    let txs = fee_sorted(old.mempool@);
    let run = spec_run(old.programs(), old.ledger(), txs);
    let index = old.vec@.len() as u32;
    let prev = tip_hash(old.vec@);
    let reward = BLOCK_REWARD + run.fees;
    let coinbase = CoinbaseTransaction { to: miner, amount: reward as u64 };
    &&& new.difficulty == old.difficulty
    &&& new.programs() == old.programs()
    &&& new.faucet_program_id == old.faucet_program_id
    &&& new.notebook_program_id == old.notebook_program_id
    &&& new.distributor_program_id == old.distributor_program_id
    &&& match res {
        Err(BlockError::Transaction(e)) => {
            &&& run.error == Some(e)
            &&& new.ledger() == run.ledger
            &&& new.mempool@ == txs
            &&& new.vec@ == old.vec@
        },
        Err(BlockError::RewardOverflow) => {
            &&& run.error is None
            &&& !reward_fits(run.ledger.accounts, miner@, run.fees)
            &&& new.ledger() == run.ledger
            &&& new.mempool@ == txs
            &&& new.vec@ == old.vec@
        },
        Err(BlockError::NonceExhausted) => {
            &&& run.error is None
            &&& reward_fits(run.ledger.accounts, miner@, run.fees)
            &&& no_nonce_mines(
                index,
                timestamp,
                txs,
                prev,
                coinbase,
                old.difficulty as int,
            )
            &&& new.ledger() == run.ledger
            &&& new.mempool@ == txs
            &&& new.vec@ == old.vec@
        },
        Ok(()) => {
            &&& run.error is None
            &&& reward_fits(run.ledger.accounts, miner@, run.fees)
            &&& new.accounts@ == pay(
                run.ledger.accounts,
                miner@,
                reward as u64,
            )
            &&& new.nonces@ == run.ledger.nonces
            &&& new.mempool@.len() == 0
            &&& new.vec@.len() == old.vec@.len() + 1
            &&& new.vec@.drop_last() == old.vec@
            &&& is_mined_block(
                new.vec@.last(),
                index,
                timestamp,
                txs,
                prev,
                coinbase,
                old.difficulty,
            )
        },
    }
}

/// How many pending transactions `key` has sent.
pub open spec fn pending_count(pool: Seq<Transaction>, key: Seq<u8>) -> nat
    decreases pool.len(),
{
    if pool.len() == 0 {
        0
    } else {
        pending_count(pool.drop_last(), key) + if pool.last().from@ == key {
            1nat
        } else {
            0nat
        }
    }
}

/// The amounts plus fees of the pending transactions that `key` has sent.
pub open spec fn pending_spend(pool: Seq<Transaction>, key: Seq<u8>) -> int
    decreases pool.len(),
{
    if pool.len() == 0 {
        0
    } else {
        pending_spend(pool.drop_last(), key) + if pool.last().from@ == key {
            pool.last().amount + pool.last().fee
        } else {
            0
        }
    }
}

/// The answer to a request to admit `tx` to the mempool: its signature must
/// hold, its nonce must follow the sender's recorded nonce and pending
/// transactions, and the sender's account must cover it on top of everything
/// the sender already has pending.
pub open spec fn spec_admit(chain: Blockchain, tx: Transaction) -> Result<(), MempoolError> {
    spec_admit_checked(chain, tx, tx.signature_valid())
}

/// The answer to a request to admit `tx`, given whether its signature holds.
pub open spec fn spec_admit_checked(chain: Blockchain, tx: Transaction, signature_ok: bool) -> Result<
    (),
    MempoolError,
> {
    let from = tx.from@;
    if !signature_ok {
        Err(MempoolError::InvalidSignature)
    } else if nonce_of(chain.nonces@, from) + pending_count(chain.mempool@, from) != tx.nonce {
        Err(MempoolError::InvalidNonce)
    } else if !chain.accounts@.contains_key(from) {
        Err(MempoolError::AccountNotFound)
    } else if chain.accounts@[from].coins >= tx.amount + tx.fee + pending_spend(
        chain.mempool@,
        from,
    ) {
        Ok(())
    } else {
        Err(MempoolError::InsufficientFunds)
    }
}

impl Blockchain {
    /// The account state.
    pub open spec fn ledger(&self) -> Ledger {
        Ledger { accounts: self.accounts@, nonces: self.nonces@ }
    }

    /// The keys of the built-in programs.
    pub open spec fn programs(&self) -> Programs {
        Programs {
            faucet: self.faucet_program_id@,
            notebook: self.notebook_program_id@,
            distributor: self.distributor_program_id@,
        }
    }

    /// `self` and `other` agree on everything but the account state.
    pub open spec fn same_but_ledger(&self, other: &Blockchain) -> bool {
        &&& self.vec@ == other.vec@
        &&& self.difficulty == other.difficulty
        &&& self.mempool@ == other.mempool@
        &&& self.faucet_program_id == other.faucet_program_id
        &&& self.notebook_program_id == other.notebook_program_id
        &&& self.distributor_program_id == other.distributor_program_id
    }

    /// A new chain at `timestamp`: the genesis key holds 1000 coins and nonce
    /// 0, difficulty is 2, and the mined genesis block (index 0, no
    /// transactions, linked to "0") pays the block reward to the genesis key.
    /// `None` when no nonce mines the genesis block.
    pub fn new_at(
        genesis_pubkey: PublicKey,
        faucet_program_id: PublicKey,
        notebook_program_id: PublicKey,
        distributor_program_id: PublicKey,
        timestamp: u64,
    ) -> (chain: Option<Blockchain>)
        ensures
            spec_genesis(chain, genesis_pubkey, faucet_program_id, notebook_program_id, distributor_program_id, timestamp),
    {
        let difficulty: u32 = 2;
        let mut accounts: KeyMap<Account> = KeyMap::new();
        accounts.insert(
            genesis_pubkey,
            Account { coins: 1000, data: Vec::new(), owner: genesis_pubkey, executable: false },
        );
        let mut nonces: KeyMap<u64> = KeyMap::new();
        nonces.insert(genesis_pubkey, 0);
        let genesis_coinbase = CoinbaseTransaction { to: genesis_pubkey, amount: BLOCK_REWARD };
        let zero = genesis_previous_hash();
        let genesis = Block::new(0, timestamp, Vec::new(), zero, difficulty, genesis_coinbase);
        match genesis {
            Some(block) => {
                let mut vec: Vec<Block> = Vec::new();
                vec.push(block);
                Some(
                    Blockchain {
                        accounts,
                        difficulty,
                        vec,
                        mempool: Vec::new(),
                        faucet_program_id,
                        notebook_program_id,
                        distributor_program_id,
                        nonces,
                    },
                )
            },
            None => None,
        }
    }

    /// A new chain stamped with the current time (see `new_at`).
    pub fn new(
        genesis_pubkey: PublicKey,
        faucet_program_id: PublicKey,
        notebook_program_id: PublicKey,
        distributor_program_id: PublicKey,
    ) -> (chain: Option<Blockchain>)
        ensures
            exists|timestamp: u64|
                spec_genesis(
                    chain,
                    genesis_pubkey,
                    faucet_program_id,
                    notebook_program_id,
                    distributor_program_id,
                    timestamp,
                ),
    {
        let timestamp = current_time();
        let chain = Blockchain::new_at(
            genesis_pubkey,
            faucet_program_id,
            notebook_program_id,
            distributor_program_id,
            timestamp,
        );
        assert(spec_genesis(
            chain,
            genesis_pubkey,
            faucet_program_id,
            notebook_program_id,
            distributor_program_id,
            timestamp,
        ));
        chain
    }

    /// Mines the mempool into a new block at `timestamp`, paying the block
    /// reward plus the fees to `miner`.
    ///
    /// The pending transactions are taken in fee order (highest first) and
    /// applied in turn. If one is refused, the transactions applied before it
    /// stay applied, the mempool keeps all of them in fee order, and its error
    /// is returned. Otherwise the block is mined at the chain's difficulty on
    /// top of the last block, the miner is paid, and the block is appended.
    pub fn add_block_at(&mut self, miner: PublicKey, timestamp: u64) -> (res: Result<(), BlockError>)
        ensures
            spec_add_block(*old(self), *final(self), miner, timestamp, res),
    {
        let mut pool: Vec<Transaction> = Vec::new();
        std::mem::swap(&mut pool, &mut self.mempool);
        let transactions = sort_by_fee(pool);
        let ghost txs = transactions@;
        let ghost p = self.programs();
        let ghost l0 = self.ledger();
        let ghost vec0 = self.vec@;
        let n = self.vec.len();
        let previous_hash = if n > 0 {
            self.vec[n - 1].hash.clone()
        } else {
            genesis_previous_hash()
        };
        let index = n as u32;
        let mut total_fees: u128 = 0;
        let mut i: usize = 0;
        assert(txs.take(0) =~= Seq::<Transaction>::empty());
        while i < transactions.len()
            invariant
                transactions@ == txs,
                txs == fee_sorted(old(self).mempool@),
                l0 == old(self).ledger(),
                p == old(self).programs(),
                vec0 == old(self).vec@,
                previous_hash@ == tip_hash(vec0),
                index == vec0.len() as u32,
                0 <= i <= txs.len(),
                spec_run(p, l0, txs.take(i as int)).error is None,
                self.ledger() == spec_run(p, l0, txs.take(i as int)).ledger,
                total_fees == spec_run(p, l0, txs.take(i as int)).fees,
                total_fees <= i * 0xffff_ffff_ffff_ffffu128,
                self.programs() == p,
                self.vec@ == vec0,
                self.mempool@.len() == 0,
                self.difficulty == old(self).difficulty,
                self.faucet_program_id == old(self).faucet_program_id,
                self.notebook_program_id == old(self).notebook_program_id,
                self.distributor_program_id == old(self).distributor_program_id,
            decreases txs.len() - i,
        {
            assert(txs.take(i + 1).drop_last() =~= txs.take(i as int));
            assert(txs.take(i + 1).last() == txs[i as int]);
            match self.apply_transaction(&transactions[i]) {
                Ok(()) => {
                    total_fees = total_fees + transactions[i].fee as u128;
                },
                Err(e) => {
                    proof {
                        let r = spec_run(p, l0, txs.take(i as int));
                        assert(spec_apply(p, r.ledger, txs[i as int]).1 == Err::<(), TransferError>(e));
                        assert(spec_apply(p, r.ledger, txs[i as int]).0 == r.ledger);
                        assert(spec_run(p, l0, txs.take(i + 1)).error == Some(e));
                        assert(spec_run(p, l0, txs.take(i + 1)).ledger == r.ledger);
                        lemma_run_stops(p, l0, txs, i + 1);
                    }
                    self.mempool = transactions;
                    return Err(BlockError::Transaction(e));
                },
            }
            i = i + 1;
        }
        assert(txs.take(i as int) =~= txs);
        if total_fees > (u64::MAX - BLOCK_REWARD) as u128 {
            self.mempool = transactions;
            return Err(BlockError::RewardOverflow);
        }
        let reward: u64 = BLOCK_REWARD + total_fees as u64;
        let miner_coins: u64 = match self.accounts.get(&miner) {
            Some(a) => a.coins,
            None => 0,
        };
        if miner_coins > u64::MAX - reward {
            self.mempool = transactions;
            return Err(BlockError::RewardOverflow);
        }
        let coinbase = CoinbaseTransaction { to: miner, amount: reward };
        match mine(
            self.difficulty as usize,
            index,
            timestamp,
            transactions.as_slice(),
            previous_hash.as_str(),
            &coinbase,
        ) {
            None => {
                self.mempool = transactions;
                Err(BlockError::NonceExhausted)
            },
            Some((nonce, hash)) => {
                if self.accounts.contains_key(&miner) {
                    add_coins(&mut self.accounts, &miner, reward);
                } else {
                    self.accounts.insert(
                        miner,
                        Account { coins: reward, data: Vec::new(), owner: miner, executable: false },
                    );
                }
                self.vec.push(
                    Block { index, timestamp, coinbase, transactions, previous_hash, hash, nonce },
                );
                assert(self.vec@.drop_last() =~= vec0);
                Ok(())
            },
        }
    }

    /// Mines the mempool into a new block stamped with the current time (see `add_block_at`).
    pub fn add_block(&mut self, miner: PublicKey) -> (res: Result<(), BlockError>)
        ensures
            exists|timestamp: u64| spec_add_block(*old(self), *final(self), miner, timestamp, res),
    {
        let timestamp = current_time();
        let res = self.add_block_at(miner, timestamp);
        assert(spec_add_block(*old(self), *self, miner, timestamp, res));
        res
    }

    /// Whether the chain is valid (see `chain_valid`); never an error.
    pub fn is_valid(&self) -> (res: Result<bool, serde_json::Error>)
        ensures
            res matches Ok(v) && v == chain_valid(self.vec@, self.difficulty),
            res matches Ok(v) && (v ==> forall|j: int|
                0 < j < self.vec@.len() ==> (#[trigger] self.vec@[j]).previous_hash@ == self.vec@[j
                    - 1].hash@),
    {
        let n = self.vec.len();
        if n == 0 {
            return Ok(false);
        }
        let genesis = &self.vec[0];
        if genesis.index != 0 || !is_zero_text(genesis.previous_hash.as_str()) {
            return Ok(false);
        }
        let mut j: usize = 0;
        while j < n
            invariant
                n == self.vec@.len(),
                0 <= j <= n,
                forall|k: int| 0 <= k < j ==> block_valid(#[trigger] self.vec@[k], self.difficulty),
                forall|k: int| 0 < k < j ==> #[trigger] links_to_previous(self.vec@, k),
            decreases n - j,
        {
            if j > 0 && self.vec[j].previous_hash != self.vec[j - 1].hash {
                assert(!links_to_previous(self.vec@, j as int));
                return Ok(false);
            }
            if !check_block(&self.vec[j], self.difficulty) {
                return Ok(false);
            }
            j = j + 1;
        }
        assert forall|k: int| 0 < k < n implies (#[trigger] self.vec@[k]).previous_hash@
            == self.vec@[k - 1].hash@ by {
            assert(links_to_previous(self.vec@, k));
        }
        Ok(true)
    }

    /// Considers a chain received from a peer, adopting it (with its accounts,
    /// mempool and settings) when it is longer than this one and valid.
    pub fn adopt_longer_chain(&mut self, peer: Blockchain) -> (outcome: SyncOutcome)
        ensures
            outcome == spec_sync_outcome(old(self).vec@, peer),
            outcome == SyncOutcome::Replaced ==> *final(self) == peer,
            outcome != SyncOutcome::Replaced ==> *final(self) == *old(self),
    {
        if peer.vec.len() > self.vec.len() {
            match peer.is_valid() {
                Ok(true) => {
                    *self = peer;
                    SyncOutcome::Replaced
                },
                _ => SyncOutcome::Invalid,
            }
        } else {
            SyncOutcome::NotLonger
        }
    }

    /// Deploys a program: an executable account at `program_id`, owned by
    /// itself, holding `code`. An account already there is replaced.
    pub fn deploy_program(&mut self, program_id: PublicKey, code: Vec<u8>)
        ensures
            final(self).accounts@ == old(self).accounts@.insert(
                program_id@,
                AccountView { coins: 0, data: code@, owner: program_id@, executable: true },
            ),
            final(self).nonces@ == old(self).nonces@,
            final(self).same_but_ledger(old(self)),
    {
        self.accounts.insert(
            program_id,
            Account { coins: 0, data: code, owner: program_id, executable: true },
        );
    }

    /// Creates an empty data account at `account_key`, owned by
    /// `program_owner`. An account already there is replaced.
    pub fn create_data_account(&mut self, account_key: PublicKey, program_owner: PublicKey)
        ensures
            final(self).accounts@ == old(self).accounts@.insert(
                account_key@,
                AccountView {
                    coins: 0,
                    data: Seq::empty(),
                    owner: program_owner@,
                    executable: false,
                },
            ),
            final(self).nonces@ == old(self).nonces@,
            final(self).same_but_ledger(old(self)),
    {
        self.accounts.insert(
            account_key,
            Account { coins: 0, data: Vec::new(), owner: program_owner, executable: false },
        );
    }

    /// Whether `public_key` has an account holding at least `amount` coins.
    pub fn check_balance(&self, public_key: &PublicKey, amount: u64) -> (enough: bool)
        ensures
            enough == (self.accounts@.contains_key(public_key@) && amount
                <= self.accounts@[public_key@].coins),
    {
        match self.accounts.get(public_key) {
            Some(balance) => amount <= balance.coins,
            None => false,
        }
    }

    /// Runs a built-in program on behalf of `caller`.
    fn execute_program(
        &mut self,
        program_id: &PublicKey,
        instruction_data: &[u8],
        caller: &PublicKey,
        _amount: u64,
        accounts: &[AccountMeta],
    )
        ensures
            final(self).accounts@ == spec_execute(
                old(self).programs(),
                old(self).accounts@,
                program_id@,
                instruction_data@,
                caller@,
                accounts@,
            ),
            final(self).nonces@ == old(self).nonces@,
            final(self).same_but_ledger(old(self)),
    {
        let faucet = self.faucet_program_id;
        let notebook = self.notebook_program_id;
        let distributor = self.distributor_program_id;
        run_program(
            &mut self.accounts,
            &faucet,
            &notebook,
            &distributor,
            program_id,
            instruction_data,
            caller,
            accounts,
        );
    }

    /// Admits a transaction to the mempool (see `spec_admit`).
    pub fn add_to_mempool(&mut self, tx: Transaction) -> (res: Result<(), MempoolError>)
        ensures
            res == spec_admit(*old(self), tx),
            res is Ok ==> final(self).mempool@ == old(self).mempool@.push(tx),
            res is Err ==> final(self).mempool@ == old(self).mempool@,
            final(self).vec@ == old(self).vec@,
            final(self).ledger() == old(self).ledger(),
            final(self).difficulty == old(self).difficulty,
            final(self).programs() == old(self).programs(),
    {
        let signature_ok = tx.verify_transaction().is_ok();
        self.admit_checked(tx, signature_ok)
    }

    /// Admits a transaction whose signature check gave `signature_ok` (see
    /// `spec_admit_checked`).
    pub fn admit_checked(&mut self, tx: Transaction, signature_ok: bool) -> (res: Result<
        (),
        MempoolError,
    >)
        ensures
            res == spec_admit_checked(*old(self), tx, signature_ok),
            res is Ok ==> final(self).mempool@ == old(self).mempool@.push(tx),
            res is Err ==> final(self).mempool@ == old(self).mempool@,
            final(self).vec@ == old(self).vec@,
            final(self).ledger() == old(self).ledger(),
            final(self).difficulty == old(self).difficulty,
            final(self).programs() == old(self).programs(),
    {
        if !signature_ok {
            return Err(MempoolError::InvalidSignature);
        }
        let ghost pool = self.mempool@;
        let mut count: u64 = 0;
        let mut spend: u128 = 0;
        let mut over = false;
        let mut i: usize = 0;
        while i < self.mempool.len()
            invariant
                pool == self.mempool@,
                0 <= i <= pool.len(),
                count == pending_count(pool.take(i as int), tx.from@),
                count <= i,
                !over ==> spend == pending_spend(pool.take(i as int), tx.from@),
                over ==> pending_spend(pool.take(i as int), tx.from@) > u64::MAX,
                spend <= u64::MAX,
                0 <= pending_spend(pool.take(i as int), tx.from@),
            decreases pool.len() - i,
        {
            assert(pool.take(i + 1).drop_last() =~= pool.take(i as int));
            let t = &self.mempool[i];
            if t.from.same_key(&tx.from) {
                count = count + 1;
                if !over {
                    let next: u128 = spend + t.amount as u128 + t.fee as u128;
                    if next > u64::MAX as u128 {
                        over = true;
                    } else {
                        spend = next;
                    }
                }
            }
            i = i + 1;
        }
        assert(pool.take(i as int) =~= pool);
        let recorded: u64 = match self.nonces.get(&tx.from) {
            Some(n) => *n,
            None => 0,
        };
        if recorded as u128 + count as u128 != tx.nonce as u128 {
            return Err(MempoolError::InvalidNonce);
        }
        let coins = match self.accounts.get(&tx.from) {
            Some(balance) => balance.coins,
            None => {
                return Err(MempoolError::AccountNotFound);
            },
        };
        if !over && coins as u128 >= tx.amount as u128 + tx.fee as u128 + spend {
            self.mempool.push(tx);
            Ok(())
        } else {
            Err(MempoolError::InsufficientFunds)
        }
    }

    /// Applies a transaction to the account state (see `spec_apply`).
    pub fn apply_transaction(&mut self, tx: &Transaction) -> (res: Result<(), TransferError>)
        ensures
            (final(self).ledger(), res) == spec_apply(old(self).programs(), old(self).ledger(), *tx),
            final(self).same_but_ledger(old(self)),
    {
        if !find_meta(tx.accounts.as_slice(), &tx.from, true) {
            return Err(TransferError::SenderNotWritable);
        }
        if !find_meta(tx.accounts.as_slice(), &tx.to, false) {
            return Err(TransferError::ReceiverNotWritable);
        }
        let sender_coins = match self.accounts.get(&tx.from) {
            Some(a) => a.coins,
            None => {
                return Err(TransferError::SenderNotFound);
            },
        };
        if (sender_coins as u128) < tx.amount as u128 + tx.fee as u128 {
            return Err(TransferError::InsufficientFunds);
        }
        let debited_coins = sender_coins - tx.amount - tx.fee;
        let is_program = match self.accounts.get(&tx.program_id) {
            Some(a) => a.executable,
            None => false,
        };
        if is_program {
            set_coins(&mut self.accounts, &tx.from, debited_coins);
            self.execute_program(
                &tx.program_id,
                tx.instruction_data.as_slice(),
                &tx.from,
                tx.amount,
                tx.accounts.as_slice(),
            );
            return Ok(());
        }
        let receiver_coins: u64 = if tx.to.same_key(&tx.from) {
            debited_coins
        } else {
            match self.accounts.get(&tx.to) {
                Some(a) => a.coins,
                None => 0,
            }
        };
        let n: u64 = match self.nonces.get(&tx.from) {
            Some(v) => *v,
            None => 0,
        };
        if receiver_coins > u64::MAX - tx.amount || n == u64::MAX {
            return Err(TransferError::BalanceOverflow);
        }
        set_coins(&mut self.accounts, &tx.from, debited_coins);
        if self.accounts.contains_key(&tx.to) {
            add_coins(&mut self.accounts, &tx.to, tx.amount);
        } else {
            self.accounts.insert(
                tx.to,
                Account { coins: tx.amount, data: Vec::new(), owner: tx.to, executable: false },
            );
        }
        self.nonces.insert(tx.from, n + 1);
        Ok(())
    }
}

/// The previous hash of a first block: "0".
fn genesis_previous_hash() -> (zero: String)
    ensures
        zero@ == seq!['0'],
{
    let zero = String::from_str("0");
    proof {
        reveal_strlit("0");
    }
    zero
}

/// Whether `text` is exactly "0".
fn is_zero_text(text: &str) -> (zero: bool)
    ensures
        zero == (text@ == seq!['0']),
{
    if text.unicode_len() != 1 {
        return false;
    }
    let c = text.get_char(0);
    assert(c == '0' ==> text@ =~= seq!['0']);
    c == '0'
}

/// Whether `hash` starts with `difficulty` zero digits.
fn hash_meets_difficulty(hash: &str, difficulty: u32) -> (ok: bool)
    ensures
        ok == meets_difficulty(hash@, difficulty as int),
{
    let n = hash.unicode_len();
    let d = difficulty as usize;
    if d > n {
        return false;
    }
    let mut i: usize = 0;
    while i < d
        invariant
            0 <= i <= d <= n,
            n == hash@.len(),
            d == difficulty,
            forall|k: int| 0 <= k < i ==> hash@[k] == '0',
        decreases d - i,
    {
        if hash.get_char(i) != '0' {
            return false;
        }
        i = i + 1;
    }
    true
}

/// The sum of the fees, which cannot overflow a `u128`.
fn total_fees(txs: &[Transaction]) -> (total: u128)
    ensures
        total == sum_fees(txs@),
        total <= txs@.len() * 0xffff_ffff_ffff_ffffu128,
{
    let mut total: u128 = 0;
    let mut i: usize = 0;
    assert(txs@.take(0) =~= Seq::<Transaction>::empty());
    while i < txs.len()
        invariant
            0 <= i <= txs@.len(),
            total == sum_fees(txs@.take(i as int)),
            total <= i * 0xffff_ffff_ffff_ffffu128,
        decreases txs@.len() - i,
    {
        assert(txs@.take(i + 1).drop_last() =~= txs@.take(i as int));
        total = total + txs[i].fee as u128;
        i = i + 1;
    }
    assert(txs@.take(i as int) =~= txs@);
    total
}

/// Whether a block is valid at `difficulty` (see `block_valid`).
fn check_block(b: &Block, difficulty: u32) -> (ok: bool)
    ensures
        ok == block_valid(*b, difficulty),
{
    let h = hash_block(
        b.index,
        b.timestamp,
        b.transactions.as_slice(),
        b.previous_hash.as_str(),
        &b.coinbase,
        b.nonce,
    );
    check_block_with_hash(b, h.as_str(), difficulty)
}

/// Whether a block is valid at `difficulty`, given the hash of its fields:
/// its stored hash is that hash, has the required zeros, and its coinbase
/// pays the reward plus its fees.
pub fn check_block_with_hash(b: &Block, computed_hash: &str, difficulty: u32) -> (ok: bool)
    ensures
        ok == (b.hash@ == computed_hash@ && meets_difficulty(b.hash@, difficulty as int)
            && b.coinbase.amount == BLOCK_REWARD + sum_fees(b.transactions@)),
{
    if !str_eq(b.hash.as_str(), computed_hash) {
        return false;
    }
    if !hash_meets_difficulty(b.hash.as_str(), difficulty) {
        return false;
    }
    let fees = total_fees(b.transactions.as_slice());
    let count = b.transactions.len();
    assert(count == b.transactions@.len());
    b.coinbase.amount as u128 == BLOCK_REWARD as u128 + fees
}

/// Whether two strings are equal.
fn str_eq(a: &str, b: &str) -> (same: bool)
    ensures
        same == (a@ == b@),
{
    let n = a.unicode_len();
    if n != b.unicode_len() {
        return false;
    }
    let mut i: usize = 0;
    while i < n
        invariant
            0 <= i <= n,
            n == a@.len(),
            n == b@.len(),
            forall|k: int| 0 <= k < i ==> a@[k] == b@[k],
        decreases n - i,
    {
        if a.get_char(i) != b.get_char(i) {
            return false;
        }
        i = i + 1;
    }
    assert(a@ =~= b@);
    true
}

} // verus!
