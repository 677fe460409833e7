//! Properties of the ledger that span its operations.

use crate::chain::{
    block_valid, chain_valid, is_mined_block, links_to_previous, pending_count, pending_spend,
    spec_add_block,
    spec_admit, spec_genesis, spec_sync_outcome, tip_hash, SyncOutcome,
};
use crate::block::meets_difficulty;
use crate::fee_order::{fee_sorted, lemma_fee_sorted_permutation};
use crate::ledger::{
    credit, credit_fits, distributor_amount, distributor_total, fresh_account, lemma_run_fees,
    lemma_sum_fees_nonnegative, nonce_of, spec_apply, spec_distribute, spec_execute, spec_faucet,
    spec_notebook, spec_run, sum_fees, with_coins, Ledger, Programs, FAUCET_GRANT,
};
use crate::keys::PublicKey;
use crate::types::{
    AccountMeta, AccountView, Block, Blockchain, CoinbaseTransaction, Transaction, BLOCK_REWARD,
};
use crate::digest::{spec_hex, spec_sha256};
use crate::encoding::{enc_bytes, enc_metas, enc_payload, enc_str, le64};
use crate::keys::spec_ecdsa_verify;
use vstd::bytes::{lemma_auto_spec_u64_to_from_le_bytes, spec_u64_from_le_bytes};
use vstd::prelude::*;
use vstd::set::fold::{is_fun_commutative, lemma_fold_empty, lemma_fold_insert};

verus! {

/// A newly created chain is valid.
pub proof fn law_new_chain_is_valid(
    chain: Blockchain,
    genesis_pubkey: PublicKey,
    faucet_program_id: PublicKey,
    notebook_program_id: PublicKey,
    distributor_program_id: PublicKey,
    timestamp: u64,
)
    requires
        spec_genesis(
            Some(chain),
            genesis_pubkey,
            faucet_program_id,
            notebook_program_id,
            distributor_program_id,
            timestamp,
        ),
    ensures
        chain_valid(chain.vec@, chain.difficulty),
{
    let b = chain.vec@[0];
    assert(sum_fees(b.transactions@) == 0);
    assert(block_valid(b, chain.difficulty));
    assert(chain.vec@ =~= seq![b]);
}

/// Appending a block mined on top of a valid chain, whose coinbase pays the
/// block reward plus exactly its transactions' fees, gives a valid chain.
pub proof fn law_mined_block_keeps_chain_valid(
    blocks: Seq<Block>,
    difficulty: u32,
    txs: Seq<Transaction>,
    miner: PublicKey,
    timestamp: u64,
    b: Block,
)
    requires
        chain_valid(blocks, difficulty),
        BLOCK_REWARD + sum_fees(txs) <= u64::MAX,
        is_mined_block(
            b,
            blocks.len() as u32,
            timestamp,
            txs,
            tip_hash(blocks),
            CoinbaseTransaction { to: miner, amount: (BLOCK_REWARD + sum_fees(txs)) as u64 },
            difficulty,
        ),
    ensures
        chain_valid(blocks.push(b), difficulty),
{
    lemma_sum_fees_nonnegative(txs);
    assert(block_valid(b, difficulty));
    lemma_extend_valid_chain(blocks, difficulty, b);
}

/// Adding a block to a valid chain, or to a chain with no blocks yet, gives
/// a valid chain.
pub proof fn law_add_block_keeps_chain_valid(
    old: Blockchain,
    new: Blockchain,
    miner: PublicKey,
    timestamp: u64,
)
    requires
        chain_valid(old.vec@, old.difficulty) || old.vec@.len() == 0,
        spec_add_block(old, new, miner, timestamp, Ok(())),
    ensures
        chain_valid(new.vec@, new.difficulty),
{
    let txs = fee_sorted(old.mempool@);
    lemma_run_fees(old.programs(), old.ledger(), txs);
    lemma_sum_fees_nonnegative(txs);
    let b = new.vec@.last();
    assert(new.vec@ =~= old.vec@.push(b));
    if old.vec@.len() == 0 {
        assert(block_valid(b, old.difficulty));
        assert(new.vec@ =~= seq![b]);
        assert(new.vec@[0] == b);
    } else {
        law_mined_block_keeps_chain_valid(old.vec@, old.difficulty, txs, miner, timestamp, b);
    }
}

proof fn lemma_extend_valid_chain(blocks: Seq<Block>, difficulty: u32, b: Block)
    requires
        chain_valid(blocks, difficulty),
        block_valid(b, difficulty),
        b.previous_hash@ == tip_hash(blocks),
    ensures
        chain_valid(blocks.push(b), difficulty),
{
    let c = blocks.push(b);
    assert(c[0] == blocks[0]);
    assert forall|j: int| 0 <= j < c.len() implies block_valid(#[trigger] c[j], difficulty) by {
        if j < blocks.len() {
            assert(c[j] == blocks[j]);
        }
    }
    assert forall|j: int| 0 < j < c.len() implies #[trigger] links_to_previous(c, j) by {
        if j < blocks.len() {
            assert(c[j] == blocks[j]);
            assert(c[j - 1] == blocks[j - 1]);
            assert(links_to_previous(blocks, j));
        } else {
            assert(c[j - 1] == blocks.last());
        }
    }
}

/// A refused transaction leaves the ledger exactly as it was.
pub proof fn law_refused_transaction_changes_nothing(p: Programs, l: Ledger, tx: Transaction)
    ensures
        spec_apply(p, l, tx).1 is Err ==> spec_apply(p, l, tx).0 == l,
{
}

/// A plain transfer (to no program) moves the amount from sender to receiver,
/// takes the fee from the sender, advances the sender's nonce by one, and
/// touches no other account or nonce.
pub proof fn law_transfer_moves_amount(p: Programs, l: Ledger, tx: Transaction)
    requires
        spec_apply(p, l, tx).1 is Ok,
        !(l.accounts.contains_key(tx.program_id@) && l.accounts[tx.program_id@].executable),
        tx.from@ != tx.to@,
    ensures
        ({
            let after = spec_apply(p, l, tx).0;
            &&& after.accounts[tx.from@].coins == l.accounts[tx.from@].coins - tx.amount - tx.fee
            &&& after.accounts[tx.to@].coins == (if l.accounts.contains_key(tx.to@) {
                l.accounts[tx.to@].coins as int
            } else {
                0
            }) + tx.amount
            &&& after.nonces[tx.from@] == (if l.nonces.contains_key(tx.from@) {
                l.nonces[tx.from@] as int
            } else {
                0
            }) + 1
            &&& forall|k: Seq<u8>|
                k != tx.from@ && k != tx.to@ ==> (after.accounts.contains_key(k)
                    == l.accounts.contains_key(k) && (l.accounts.contains_key(k) ==> after.accounts[k]
                    == l.accounts[k]))
            &&& forall|k: Seq<u8>|
                k != tx.from@ ==> (after.nonces.contains_key(k) == l.nonces.contains_key(k) && (
                l.nonces.contains_key(k) ==> after.nonces[k] == l.nonces[k]))
        }),
{
    let from = tx.from@;
    if tx.program_id@ == from {
        assert(!l.accounts[from].executable);
    }
}

/// `after` has the same accounts as `before`, with the same owners and
/// program flags, and only `caller`'s data may differ.
pub open spec fn only_coins_and_callers_data(
    before: Map<Seq<u8>, AccountView>,
    after: Map<Seq<u8>, AccountView>,
    caller: Seq<u8>,
) -> bool {
    &&& after.dom() == before.dom()
    &&& forall|k: Seq<u8>|
        #[trigger] before.contains_key(k) ==> after[k].owner == before[k].owner
            && after[k].executable == before[k].executable && (k != caller ==> after[k].data
            == before[k].data)
}

proof fn lemma_credit_shape(a: Map<Seq<u8>, AccountView>, k: Seq<u8>, amount: int, caller: Seq<u8>)
    requires
        a.contains_key(k),
    ensures
        only_coins_and_callers_data(a, credit(a, k, amount), caller),
{
    assert(credit(a, k, amount).dom() =~= a.dom());
}

proof fn lemma_shape_trans(
    a: Map<Seq<u8>, AccountView>,
    b: Map<Seq<u8>, AccountView>,
    c: Map<Seq<u8>, AccountView>,
    caller: Seq<u8>,
)
    requires
        only_coins_and_callers_data(a, b, caller),
        only_coins_and_callers_data(b, c, caller),
    ensures
        only_coins_and_callers_data(a, c, caller),
{
    assert forall|k: Seq<u8>| #[trigger] a.contains_key(k) implies c[k].owner == a[k].owner
        && c[k].executable == a[k].executable && (k != caller ==> c[k].data == a[k].data) by {
        assert(b.contains_key(k));
    }
}

/// Running a built-in program creates and deletes no account, changes no
/// account's owner or program flag, and writes no data except the caller's
/// own: the notebook cannot be made to write into another key's account.
pub proof fn law_programs_write_only_callers_data(
    p: Programs,
    accounts: Map<Seq<u8>, AccountView>,
    program: Seq<u8>,
    data: Seq<u8>,
    caller: Seq<u8>,
    metas: Seq<AccountMeta>,
)
    ensures
        only_coins_and_callers_data(
            accounts,
            spec_execute(p, accounts, program, data, caller, metas),
            caller,
        ),
{
    let a0 = accounts;
    assert(only_coins_and_callers_data(a0, a0, caller));
    let a1 = if program == p.faucet {
        spec_faucet(a0, data, caller)
    } else {
        a0
    };
    if program == p.faucet && a1 != a0 {
        lemma_credit_shape(a0, caller, FAUCET_GRANT as int, caller);
    }
    let (a2, go_on) = if program == p.distributor && data.len() == 24 && metas.len() == 4 {
        spec_distribute(a1, data, caller, metas)
    } else {
        (a1, true)
    };
    if program == p.distributor && data.len() == 24 && metas.len() == 4 {
        lemma_distribute_shape(a1, data, caller, metas);
    } else {
        assert(only_coins_and_callers_data(a1, a2, caller));
    }
    lemma_shape_trans(a0, a1, a2, caller);
    if go_on && program == p.notebook && data.len() > 0 && data[0] == 2 {
        let a3 = spec_notebook(a2, data, caller, program);
        assert(a3.dom() =~= a2.dom());
        assert(only_coins_and_callers_data(a2, a3, caller));
        lemma_shape_trans(a0, a2, a3, caller);
    }
}

proof fn lemma_distribute_shape(
    a: Map<Seq<u8>, AccountView>,
    data: Seq<u8>,
    caller: Seq<u8>,
    metas: Seq<AccountMeta>,
)
    requires
        metas.len() == 4,
    ensures
        only_coins_and_callers_data(a, spec_distribute(a, data, caller, metas).0, caller),
{
    let (r, ok) = spec_distribute(a, data, caller, metas);
    if ok {
        let k1 = metas[1].pubkey@;
        let k2 = metas[2].pubkey@;
        let k3 = metas[3].pubkey@;
        assert(a.contains_key((metas[1]).pubkey@));
        assert(a.contains_key((metas[2]).pubkey@));
        assert(a.contains_key((metas[3]).pubkey@));
        assert(a.contains_key((metas[0]).pubkey@));
        let s1 = crate::ledger::distributor_amount(data, 0) as int;
        let s2 = crate::ledger::distributor_amount(data, 1) as int;
        let s3 = crate::ledger::distributor_amount(data, 2) as int;
        let b1 = credit(a, k1, s1);
        lemma_credit_shape(a, k1, s1, caller);
        let b2 = credit(b1, k2, s2);
        lemma_credit_shape(b1, k2, s2, caller);
        lemma_shape_trans(a, b1, b2, caller);
        let b3 = credit(b2, k3, s3);
        lemma_credit_shape(b2, k3, s3, caller);
        lemma_shape_trans(a, b2, b3, caller);
        let total = crate::ledger::distributor_total(data);
        let b4 = b3.insert(
            caller,
            crate::ledger::with_coins(b3[caller], (b3[caller].coins - total) as u64),
        );
        assert(b4.dom() =~= b3.dom());
        assert(only_coins_and_callers_data(b3, b4, caller));
        lemma_shape_trans(a, b3, b4, caller);
    } else {
        assert(only_coins_and_callers_data(a, a, caller));
    }
}

/// A refused distribution (bad account list, short balance, or a balance
/// that would overflow) leaves every account as it was.
pub proof fn law_refused_distribution_changes_nothing(
    accounts: Map<Seq<u8>, AccountView>,
    data: Seq<u8>,
    caller: Seq<u8>,
    metas: Seq<AccountMeta>,
)
    ensures
        !spec_distribute(accounts, data, caller, metas).1 ==> spec_distribute(
            accounts,
            data,
            caller,
            metas,
        ).0 == accounts,
{
}

/// Every sender with pending transactions has an account covering all of them.
pub open spec fn mempool_covered(pool: Seq<Transaction>, accounts: Map<Seq<u8>, AccountView>) -> bool {
    forall|i: int|
        0 <= i < pool.len() ==> accounts.contains_key((#[trigger] pool[i]).from@)
            && pending_spend(pool, pool[i].from@) <= accounts[pool[i].from@].coins
}

/// Admitting a transaction keeps every sender's pending spending covered by
/// its balance.
pub proof fn law_admission_keeps_mempool_covered(chain: Blockchain, tx: Transaction)
    requires
        mempool_covered(chain.mempool@, chain.accounts@),
        spec_admit(chain, tx) is Ok,
    ensures
        mempool_covered(chain.mempool@.push(tx), chain.accounts@),
{
    let pool = chain.mempool@;
    let np = pool.push(tx);
    assert(np.drop_last() =~= pool);
    assert forall|i: int| 0 <= i < np.len() implies chain.accounts@.contains_key(
        (#[trigger] np[i]).from@,
    ) && pending_spend(np, np[i].from@) <= chain.accounts@[np[i].from@].coins by {
        if i < pool.len() {
            assert(np[i] == pool[i]);
        }
    }
}

/// What every pending transaction satisfies: its signature is valid, its
/// sender has an account covering all the sender's pending transactions, and
/// the transactions of each sender carry, in order, the nonces that follow
/// the sender's recorded nonce (0, 1, 2, ... past it).
pub open spec fn mempool_invariant(
    pool: Seq<Transaction>,
    accounts: Map<Seq<u8>, AccountView>,
    nonces: Map<Seq<u8>, u64>,
) -> bool {
    &&& forall|i: int| 0 <= i < pool.len() ==> (#[trigger] pool[i]).signature_valid()
    &&& forall|i: int|
        0 <= i < pool.len() ==> (#[trigger] pool[i]).nonce == nonce_of(nonces, pool[i].from@)
            + pending_count(pool.take(i), pool[i].from@)
    &&& mempool_covered(pool, accounts)
}

/// Admitting a transaction, whatever the answer, keeps the mempool invariant.
pub proof fn law_admission_keeps_mempool_invariant(chain: Blockchain, tx: Transaction)
    requires
        mempool_invariant(chain.mempool@, chain.accounts@, chain.nonces@),
    ensures
        mempool_invariant(
            if spec_admit(chain, tx) is Ok {
                chain.mempool@.push(tx)
            } else {
                chain.mempool@
            },
            chain.accounts@,
            chain.nonces@,
        ),
{
    if spec_admit(chain, tx) is Ok {
        law_admission_keeps_mempool_covered(chain, tx);
        let pool = chain.mempool@;
        let np = pool.push(tx);
        assert(np.take(pool.len() as int) =~= pool);
        assert forall|i: int| 0 <= i < np.len() implies (#[trigger] np[i]).signature_valid() by {
            if i < pool.len() {
                assert(np[i] == pool[i]);
            }
        }
        assert forall|i: int| 0 <= i < np.len() implies (#[trigger] np[i]).nonce == nonce_of(
            chain.nonces@,
            np[i].from@,
        ) + pending_count(np.take(i), np[i].from@) by {
            if i < pool.len() {
                assert(np[i] == pool[i]);
                assert(np.take(i) =~= pool.take(i));
            }
        }
    }
}

/// A node adopts a peer's chain only when it is longer than its own and valid.
pub proof fn law_sync_adopts_only_longer_valid_chains(own: Seq<Block>, peer: Blockchain)
    ensures
        spec_sync_outcome(own, peer) == SyncOutcome::Replaced <==> (peer.vec@.len() > own.len()
            && chain_valid(peer.vec@, peer.difficulty)),
{
}

/// Adds an account's coins to a running total.
pub open spec fn add_coins_of(accounts: Map<Seq<u8>, AccountView>) -> spec_fn(int, Seq<u8>) -> int {
    |acc: int, k: Seq<u8>| acc + accounts[k].coins
}

/// The coins held by the accounts at `keys`.
pub open spec fn coins_over(accounts: Map<Seq<u8>, AccountView>, keys: Set<Seq<u8>>) -> int {
    keys.fold(0int, add_coins_of(accounts))
}

/// The coins held by all accounts.
pub open spec fn total_coins(accounts: Map<Seq<u8>, AccountView>) -> int {
    coins_over(accounts, accounts.dom())
}

proof fn lemma_add_coins_commutative(accounts: Map<Seq<u8>, AccountView>)
    ensures
        is_fun_commutative(add_coins_of(accounts)),
{
}

proof fn lemma_coins_over_remove(accounts: Map<Seq<u8>, AccountView>, keys: Set<Seq<u8>>, k: Seq<u8>)
    requires
        keys.finite(),
        keys.contains(k),
    ensures
        coins_over(accounts, keys) == coins_over(accounts, keys.remove(k)) + accounts[k].coins,
{
    lemma_add_coins_commutative(accounts);
    let rest = keys.remove(k);
    lemma_fold_insert(rest, 0int, add_coins_of(accounts), k);
    assert(rest.insert(k) =~= keys);
}

proof fn lemma_coins_over_agree(
    a: Map<Seq<u8>, AccountView>,
    b: Map<Seq<u8>, AccountView>,
    keys: Set<Seq<u8>>,
)
    requires
        keys.finite(),
        forall|k: Seq<u8>| #[trigger] keys.contains(k) ==> a[k].coins == b[k].coins,
    ensures
        coins_over(a, keys) == coins_over(b, keys),
    decreases keys.len(),
{
    if keys.len() == 0 {
        assert(keys =~= Set::<Seq<u8>>::empty());
        lemma_fold_empty(0int, add_coins_of(a));
        lemma_fold_empty(0int, add_coins_of(b));
    } else {
        let k = keys.choose();
        lemma_coins_over_remove(a, keys, k);
        lemma_coins_over_remove(b, keys, k);
        lemma_coins_over_agree(a, b, keys.remove(k));
    }
}

/// Replacing a stored account changes the total by the difference in coins.
pub proof fn lemma_total_replace(accounts: Map<Seq<u8>, AccountView>, k: Seq<u8>, v: AccountView)
    requires
        accounts.dom().finite(),
        accounts.contains_key(k),
    ensures
        total_coins(accounts.insert(k, v)) == total_coins(accounts) - accounts[k].coins + v.coins,
{
    let after = accounts.insert(k, v);
    assert(after.dom() =~= accounts.dom());
    let rest = accounts.dom().remove(k);
    lemma_coins_over_remove(accounts, accounts.dom(), k);
    lemma_coins_over_remove(after, after.dom(), k);
    lemma_coins_over_agree(accounts, after, rest);
}

/// Adding a new account adds its coins to the total.
pub proof fn lemma_total_add(accounts: Map<Seq<u8>, AccountView>, k: Seq<u8>, v: AccountView)
    requires
        accounts.dom().finite(),
        !accounts.contains_key(k),
    ensures
        total_coins(accounts.insert(k, v)) == total_coins(accounts) + v.coins,
{
    let after = accounts.insert(k, v);
    lemma_coins_over_remove(after, after.dom(), k);
    assert(after.dom().remove(k) =~= accounts.dom());
    lemma_coins_over_agree(accounts, after, accounts.dom());
}

/// A plain transfer (to no program) lowers the total of all coins by
/// exactly its fee: the amount only moves from sender to receiver.
pub proof fn law_transfer_costs_exactly_the_fee(p: Programs, l: Ledger, tx: Transaction)
    requires
        l.accounts.dom().finite(),
        spec_apply(p, l, tx).1 is Ok,
        !(l.accounts.contains_key(tx.program_id@) && l.accounts[tx.program_id@].executable),
    ensures
        total_coins(spec_apply(p, l, tx).0.accounts) == total_coins(l.accounts) - tx.fee,
{
    let from = tx.from@;
    let to = tx.to@;
    let sender = l.accounts[from];
    let debited = l.accounts.insert(
        from,
        with_coins(sender, (sender.coins - tx.amount - tx.fee) as u64),
    );
    if tx.program_id@ == from {
        assert(!l.accounts[from].executable);
    }
    lemma_total_replace(l.accounts, from, with_coins(sender, (sender.coins - tx.amount - tx.fee) as u64));
    let receiver = if debited.contains_key(to) {
        debited[to]
    } else {
        fresh_account(to)
    };
    let credited = with_coins(receiver, (receiver.coins + tx.amount) as u64);
    if debited.contains_key(to) {
        lemma_total_replace(debited, to, credited);
    } else {
        lemma_total_add(debited, to, credited);
    }
}

/// Crediting a stored account adds the amount to the total.
proof fn lemma_total_credit(accounts: Map<Seq<u8>, AccountView>, k: Seq<u8>, amount: int)
    requires
        accounts.dom().finite(),
        accounts.contains_key(k),
        0 <= amount,
        credit_fits(accounts, k, amount),
    ensures
        total_coins(credit(accounts, k, amount)) == total_coins(accounts) + amount,
        credit(accounts, k, amount).dom() == accounts.dom(),
{
    lemma_total_replace(
        accounts,
        k,
        with_coins(accounts[k], (accounts[k].coins + amount) as u64),
    );
    assert(credit(accounts, k, amount).dom() =~= accounts.dom());
}

/// The distributor keeps the total of all coins: what the receivers get is
/// what the caller pays, and a refused call moves nothing.
pub proof fn law_distributor_keeps_total_coins(
    accounts: Map<Seq<u8>, AccountView>,
    data: Seq<u8>,
    caller: Seq<u8>,
    metas: Seq<AccountMeta>,
)
    requires
        accounts.dom().finite(),
        metas.len() == 4,
    ensures
        total_coins(spec_distribute(accounts, data, caller, metas).0) == total_coins(accounts),
{
    let (r, ok) = spec_distribute(accounts, data, caller, metas);
    if ok {
        let k1 = metas[1].pubkey@;
        let k2 = metas[2].pubkey@;
        let k3 = metas[3].pubkey@;
        assert(accounts.contains_key((metas[0]).pubkey@));
        assert(accounts.contains_key((metas[1]).pubkey@));
        assert(accounts.contains_key((metas[2]).pubkey@));
        assert(accounts.contains_key((metas[3]).pubkey@));
        let s1 = distributor_amount(data, 0) as int;
        let s2 = distributor_amount(data, 1) as int;
        let s3 = distributor_amount(data, 2) as int;
        let b1 = credit(accounts, k1, s1);
        lemma_total_credit(accounts, k1, s1);
        let b2 = credit(b1, k2, s2);
        lemma_total_credit(b1, k2, s2);
        let b3 = credit(b2, k3, s3);
        lemma_total_credit(b2, k3, s3);
        assert(b3[caller].coins >= accounts[caller].coins);
        let total = distributor_total(data);
        lemma_total_replace(b3, caller, with_coins(b3[caller], (b3[caller].coins - total) as u64));
    }
}

/// Running the distributor program (a key that is neither the faucet's nor
/// the notebook's) keeps the total of all coins.
pub proof fn law_distributor_program_keeps_total_coins(
    p: Programs,
    accounts: Map<Seq<u8>, AccountView>,
    data: Seq<u8>,
    caller: Seq<u8>,
    metas: Seq<AccountMeta>,
)
    requires
        accounts.dom().finite(),
        p.distributor != p.faucet,
        p.distributor != p.notebook,
    ensures
        total_coins(spec_execute(p, accounts, p.distributor, data, caller, metas)) == total_coins(
            accounts,
        ),
{
    if data.len() == 24 && metas.len() == 4 {
        law_distributor_keeps_total_coins(accounts, data, caller, metas);
    }
}

/// No key but the caller has fewer coins after `after` than before.
pub open spec fn others_not_poorer(
    before: Map<Seq<u8>, AccountView>,
    after: Map<Seq<u8>, AccountView>,
    caller: Seq<u8>,
) -> bool {
    &&& after.dom() == before.dom()
    &&& forall|k: Seq<u8>|
        #[trigger] before.contains_key(k) && k != caller ==> after[k].coins >= before[k].coins
}

proof fn lemma_poorer_trans(
    a: Map<Seq<u8>, AccountView>,
    b: Map<Seq<u8>, AccountView>,
    c: Map<Seq<u8>, AccountView>,
    caller: Seq<u8>,
)
    requires
        others_not_poorer(a, b, caller),
        others_not_poorer(b, c, caller),
    ensures
        others_not_poorer(a, c, caller),
{
    assert forall|k: Seq<u8>| #[trigger] a.contains_key(k) && k != caller implies c[k].coins
        >= a[k].coins by {
        assert(b.contains_key(k));
    }
}

proof fn lemma_credit_not_poorer(
    a: Map<Seq<u8>, AccountView>,
    k: Seq<u8>,
    amount: int,
    caller: Seq<u8>,
)
    requires
        a.contains_key(k),
        0 <= amount,
        credit_fits(a, k, amount),
    ensures
        others_not_poorer(a, credit(a, k, amount), caller),
{
    assert(credit(a, k, amount).dom() =~= a.dom());
}

/// Running a built-in program never lowers the balance of any key other than
/// the caller, and creates or deletes no account.
pub proof fn law_programs_never_lower_other_balances(
    p: Programs,
    accounts: Map<Seq<u8>, AccountView>,
    program: Seq<u8>,
    data: Seq<u8>,
    caller: Seq<u8>,
    metas: Seq<AccountMeta>,
)
    ensures
        others_not_poorer(accounts, spec_execute(p, accounts, program, data, caller, metas), caller),
{
    let a0 = accounts;
    assert(others_not_poorer(a0, a0, caller));
    let a1 = if program == p.faucet {
        spec_faucet(a0, data, caller)
    } else {
        a0
    };
    if program == p.faucet && a1 != a0 {
        lemma_credit_not_poorer(a0, caller, FAUCET_GRANT as int, caller);
    }
    let (a2, go_on) = if program == p.distributor && data.len() == 24 && metas.len() == 4 {
        spec_distribute(a1, data, caller, metas)
    } else {
        (a1, true)
    };
    if program == p.distributor && data.len() == 24 && metas.len() == 4 {
        let (r, ok) = spec_distribute(a1, data, caller, metas);
        if ok {
            let k1 = metas[1].pubkey@;
            let k2 = metas[2].pubkey@;
            let k3 = metas[3].pubkey@;
            assert(a1.contains_key((metas[1]).pubkey@));
            assert(a1.contains_key((metas[2]).pubkey@));
            assert(a1.contains_key((metas[3]).pubkey@));
            assert(a1.contains_key((metas[0]).pubkey@));
            let s1 = distributor_amount(data, 0) as int;
            let s2 = distributor_amount(data, 1) as int;
            let s3 = distributor_amount(data, 2) as int;
            let b1 = credit(a1, k1, s1);
            lemma_credit_not_poorer(a1, k1, s1, caller);
            let b2 = credit(b1, k2, s2);
            lemma_credit_not_poorer(b1, k2, s2, caller);
            lemma_poorer_trans(a1, b1, b2, caller);
            let b3 = credit(b2, k3, s3);
            lemma_credit_not_poorer(b2, k3, s3, caller);
            lemma_poorer_trans(a1, b2, b3, caller);
            let total = distributor_total(data);
            let b4 = b3.insert(caller, with_coins(b3[caller], (b3[caller].coins - total) as u64));
            assert(b4.dom() =~= b3.dom());
            assert(others_not_poorer(b3, b4, caller));
            lemma_poorer_trans(a1, b3, b4, caller);
        } else {
            assert(others_not_poorer(a1, r, caller));
        }
    } else {
        assert(others_not_poorer(a1, a2, caller));
    }
    lemma_poorer_trans(a0, a1, a2, caller);
    if go_on && program == p.notebook && data.len() > 0 && data[0] == 2 {
        let a3 = spec_notebook(a2, data, caller, program);
        assert(a3.dom() =~= a2.dom());
        assert(others_not_poorer(a2, a3, caller));
        lemma_poorer_trans(a0, a2, a3, caller);
    }
}


/// Mining a block credits the miner with exactly the block's coinbase amount,
/// the block reward plus the fees of the block's transactions, on top of its
/// balance once those transactions are applied (0 when it has no account),
/// whether or not it already had an account. Every other account is as the
/// transactions left it.
pub proof fn law_block_pays_miner_reward_plus_fees(
    old: Blockchain,
    new: Blockchain,
    miner: PublicKey,
    timestamp: u64,
)
    requires
        spec_add_block(old, new, miner, timestamp, Ok(())),
    ensures
        new.vec@.last().coinbase.to == miner,
        new.vec@.last().coinbase.amount == BLOCK_REWARD + sum_fees(new.vec@.last().transactions@),
        new.vec@.last().transactions@.to_multiset() == old.mempool@.to_multiset(),
        spec_run(old.programs(), old.ledger(), new.vec@.last().transactions@).error is None,
        new.accounts@.contains_key(miner@),
        new.accounts@[miner@].coins == (if spec_run(
            old.programs(),
            old.ledger(),
            new.vec@.last().transactions@,
        ).ledger.accounts.contains_key(miner@) {
            spec_run(old.programs(), old.ledger(), new.vec@.last().transactions@).ledger.accounts[miner@].coins as int
        } else {
            0
        }) + BLOCK_REWARD + sum_fees(new.vec@.last().transactions@),
        forall|k: Seq<u8>|
            k != miner@ ==> (#[trigger] new.accounts@.contains_key(k) == spec_run(
                old.programs(),
                old.ledger(),
                new.vec@.last().transactions@,
            ).ledger.accounts.contains_key(k)),
        forall|k: Seq<u8>|
            k != miner@ && new.accounts@.contains_key(k) ==> #[trigger] new.accounts@[k] == spec_run(
                old.programs(),
                old.ledger(),
                new.vec@.last().transactions@,
            ).ledger.accounts[k],
        new.nonces@ == spec_run(old.programs(), old.ledger(), new.vec@.last().transactions@).ledger.nonces,
{
    let txs = fee_sorted(old.mempool@);
    lemma_fee_sorted_permutation(old.mempool@);
    let run = spec_run(old.programs(), old.ledger(), txs);
    lemma_run_fees(old.programs(), old.ledger(), txs);
    lemma_sum_fees_nonnegative(txs);
    assert(new.vec@.last().transactions@ == txs);
}

/// A faucet call with the single instruction byte 1 by a caller that has an
/// account raises the caller's coins by exactly 100 (when that fits in
/// `u64`) and leaves every other account as it was.
pub proof fn law_faucet_grants_exactly_one_hundred(
    p: Programs,
    accounts: Map<Seq<u8>, AccountView>,
    caller: Seq<u8>,
    metas: Seq<AccountMeta>,
)
    requires
        accounts.contains_key(caller),
        accounts[caller].coins + 100 <= u64::MAX,
    ensures
        spec_execute(p, accounts, p.faucet, seq![1u8], caller, metas).contains_key(caller),
        spec_execute(p, accounts, p.faucet, seq![1u8], caller, metas)[caller].coins
            == accounts[caller].coins + 100,
        spec_execute(p, accounts, p.faucet, seq![1u8], caller, metas)[caller].data
            == accounts[caller].data,
        forall|k: Seq<u8>|
            k != caller ==> #[trigger] spec_execute(p, accounts, p.faucet, seq![1u8], caller, metas).contains_key(k)
                == accounts.contains_key(k) && (accounts.contains_key(k) ==> spec_execute(
                p,
                accounts,
                p.faucet,
                seq![1u8],
                caller,
                metas,
            )[k] == accounts[k]),
{
}

/// The faucet grants nothing for any other instruction, nor to a caller
/// without an account: the accounts stay as they were.
pub proof fn law_faucet_grants_nothing_else(
    p: Programs,
    accounts: Map<Seq<u8>, AccountView>,
    data: Seq<u8>,
    caller: Seq<u8>,
    metas: Seq<AccountMeta>,
)
    requires
        p.faucet != p.distributor,
        p.faucet != p.notebook,
        data != seq![1u8] || !accounts.contains_key(caller),
    ensures
        spec_execute(p, accounts, p.faucet, data, caller, metas) == accounts,
{
}

/// A transaction from `tx.from` to the deployed faucet with instruction
/// `[1]` that is accepted leaves the sender with its coins, less the amount
/// and fee, plus exactly 100.
pub proof fn law_faucet_transaction_grants_one_hundred(p: Programs, l: Ledger, tx: Transaction)
    requires
        tx.program_id@ == p.faucet,
        tx.instruction_data@ == seq![1u8],
        l.accounts.contains_key(p.faucet),
        l.accounts[p.faucet].executable,
        spec_apply(p, l, tx).1 is Ok,
        l.accounts[tx.from@].coins - tx.amount - tx.fee + 100 <= u64::MAX,
    ensures
        spec_apply(p, l, tx).0.accounts[tx.from@].coins == l.accounts[tx.from@].coins - tx.amount
            - tx.fee + 100,
{
}

/// A chain is valid exactly when it has a first block of index 0 whose
/// previous hash is "0", every block's stored hash is the hash of its fields
/// and has the required leading zeros, every coinbase pays the block reward
/// plus the block's fees, and every later block's previous hash is the hash
/// of the block before it.
pub proof fn law_chain_validity_on_block_fields(blocks: Seq<Block>, difficulty: u32)
    ensures
        chain_valid(blocks, difficulty) <==> {
            &&& blocks.len() > 0
            &&& blocks[0].index == 0
            &&& blocks[0].previous_hash@ == seq!['0']
            &&& forall|j: int|
                0 <= j < blocks.len() ==> (#[trigger] blocks[j]).hash@ == blocks[j].computed_hash()
                    && meets_difficulty(blocks[j].hash@, difficulty as int)
                    && blocks[j].coinbase.amount == BLOCK_REWARD + sum_fees(blocks[j].transactions@)
            &&& forall|j: int|
                0 < j < blocks.len() ==> (#[trigger] blocks[j]).previous_hash@ == blocks[j
                    - 1].hash@
        },
{
    if chain_valid(blocks, difficulty) {
        assert forall|j: int| 0 < j < blocks.len() implies (#[trigger] blocks[j]).previous_hash@
            == blocks[j - 1].hash@ by {
            assert(links_to_previous(blocks, j));
        }
        assert forall|j: int| 0 <= j < blocks.len() implies (#[trigger] blocks[j]).hash@
            == blocks[j].computed_hash() && meets_difficulty(blocks[j].hash@, difficulty as int)
            && blocks[j].coinbase.amount == BLOCK_REWARD + sum_fees(blocks[j].transactions@) by {
            assert(block_valid(blocks[j], difficulty));
        }
    }
}

/// The pending transactions that `key` has sent, in arrival order.
pub open spec fn sent_by(pool: Seq<Transaction>, key: Seq<u8>) -> Seq<Transaction> {
    pool.filter(sent_from(key))
}

/// Whether a transaction was sent by `key`.
pub open spec fn sent_from(key: Seq<u8>) -> spec_fn(Transaction) -> bool {
    |t: Transaction| t.from@ == key
}

proof fn lemma_pending_is_own(pool: Seq<Transaction>, key: Seq<u8>)
    ensures
        pending_count(pool, key) == sent_by(pool, key).len(),
        pending_spend(pool, key) == pending_spend(sent_by(pool, key), key),
    decreases pool.len(),
{
    let p = sent_from(key);
    if pool.len() == 0 {
        assert(pool =~= Seq::<Transaction>::empty());
        assert(Seq::<Transaction>::empty().filter(p) =~= Seq::<Transaction>::empty()) by {
            reveal(Seq::filter);
        }
    } else {
        let front = pool.drop_last();
        let x = pool.last();
        lemma_pending_is_own(front, key);
        front.lemma_filter_push(x, p);
        assert(front.push(x) =~= pool);
        if x.from@ == key {
            let own = sent_by(front, key);
            assert(sent_by(pool, key) == own.push(x));
            assert(own.push(x).drop_last() =~= own);
        } else {
            assert(sent_by(pool, key) == sent_by(front, key));
        }
    }
}

/// A transaction is admitted exactly when its signature holds, its sender
/// has an account, its nonce is the sender's recorded nonce plus the number
/// of transactions the sender has pending, and the sender's coins cover its
/// amount and fee on top of the amounts and fees the sender has pending.
pub proof fn law_admission_accepts_exactly_covered_transactions(chain: Blockchain, tx: Transaction)
    ensures
        spec_admit(chain, tx) is Ok <==> {
            &&& tx.signature_valid()
            &&& chain.accounts@.contains_key(tx.from@)
            &&& tx.nonce == nonce_of(chain.nonces@, tx.from@) + sent_by(chain.mempool@, tx.from@).len()
            &&& chain.accounts@[tx.from@].coins >= tx.amount + tx.fee + pending_spend(
                sent_by(chain.mempool@, tx.from@),
                tx.from@,
            )
        },
{
    lemma_pending_is_own(chain.mempool@, tx.from@);
}

/// The answer to an admission request depends on the mempool only through
/// the sender's own pending transactions: what other senders have pending
/// changes nothing.
pub proof fn law_admission_ignores_other_senders(c1: Blockchain, c2: Blockchain, tx: Transaction)
    requires
        c1.accounts@ == c2.accounts@,
        c1.nonces@ == c2.nonces@,
        sent_by(c1.mempool@, tx.from@) == sent_by(c2.mempool@, tx.from@),
    ensures
        spec_admit(c1, tx) == spec_admit(c2, tx),
{
    lemma_pending_is_own(c1.mempool@, tx.from@);
    lemma_pending_is_own(c2.mempool@, tx.from@);
}

/// A transaction's signature is checked against the SHA-256 digest of the
/// payload built from the transaction's own program, sender, receiver,
/// amount, fee, nonce, instruction data and account list.
pub proof fn law_signature_is_over_the_transactions_own_fields(tx: Transaction)
    ensures
        tx.signature_valid() == spec_ecdsa_verify(
            tx.from@,
            spec_sha256(
                enc_payload(
                    tx.program_id@,
                    tx.from@,
                    tx.to@,
                    tx.amount,
                    tx.fee,
                    tx.nonce,
                    tx.instruction_data@,
                    tx.accounts@,
                ),
            ),
            tx.signature@,
        ),
{
}

/// The signed payload carries the amount, the fee, the nonce and the
/// instruction data: for the same program, sender and receiver, two equal
/// payloads have equal amounts, fees, nonces and data, so changing any of
/// them after signing changes the bytes whose digest was signed.
pub proof fn law_signed_payload_carries_amount_fee_nonce_and_data(
    program_id: Seq<u8>,
    from: Seq<u8>,
    to: Seq<u8>,
    amount1: u64,
    fee1: u64,
    nonce1: u64,
    data1: Seq<u8>,
    accounts1: Seq<AccountMeta>,
    amount2: u64,
    fee2: u64,
    nonce2: u64,
    data2: Seq<u8>,
    accounts2: Seq<AccountMeta>,
)
    requires
        enc_payload(program_id, from, to, amount1, fee1, nonce1, data1, accounts1) == enc_payload(
            program_id,
            from,
            to,
            amount2,
            fee2,
            nonce2,
            data2,
            accounts2,
        ),
        data1.len() <= u64::MAX,
        data2.len() <= u64::MAX,
    ensures
        amount1 == amount2,
        fee1 == fee2,
        nonce1 == nonce2,
        data1 == data2,
{
    lemma_auto_spec_u64_to_from_le_bytes();
    let h = enc_str(spec_hex(program_id)) + enc_str(spec_hex(from)) + enc_str(spec_hex(to));
    let k = h.len() as int;
    let e1 = enc_payload(program_id, from, to, amount1, fee1, nonce1, data1, accounts1);
    let e2 = enc_payload(program_id, from, to, amount2, fee2, nonce2, data2, accounts2);
    let t1 = h + le64(amount1) + le64(fee1) + le64(nonce1) + enc_bytes(data1);
    let t2 = h + le64(amount2) + le64(fee2) + le64(nonce2) + enc_bytes(data2);
    assert(e1 =~= t1 + enc_metas(accounts1));
    assert(e2 =~= t2 + enc_metas(accounts2));
    assert(e1.subrange(k, k + 8) =~= le64(amount1));
    assert(e2.subrange(k, k + 8) =~= le64(amount2));
    assert(e1.subrange(k + 8, k + 16) =~= le64(fee1));
    assert(e2.subrange(k + 8, k + 16) =~= le64(fee2));
    assert(e1.subrange(k + 16, k + 24) =~= le64(nonce1));
    assert(e2.subrange(k + 16, k + 24) =~= le64(nonce2));
    assert(e1.subrange(k + 24, k + 32) =~= le64(data1.len() as u64));
    assert(e2.subrange(k + 24, k + 32) =~= le64(data2.len() as u64));
    assert(spec_u64_from_le_bytes(le64(data1.len() as u64)) == data1.len());
    assert(spec_u64_from_le_bytes(le64(data2.len() as u64)) == data2.len());
    assert(data1.len() == data2.len());
    assert(e1.subrange(k + 32, k + 32 + data1.len()) =~= data1);
    assert(e2.subrange(k + 32, k + 32 + data2.len()) =~= data2);
}

} // verus!
