//! The account state that transactions change, what applying a transaction
//! does to it, and the built-in programs (faucet, distributor, notebook).

use crate::keymap::KeyMap;
use crate::keys::{parse_public_key, spec_parse_public_key, PublicKey};
use crate::types::{Account, AccountMeta, AccountView, Transaction, TransferError};
use vstd::bytes::{spec_u64_from_le_bytes, u64_from_le_bytes};
use vstd::prelude::*;
use vstd::slice::{slice_subrange, slice_to_vec};

verus! {

/// The coins and data of every account, and the next nonce of every sender.
pub struct Ledger {
    pub accounts: Map<Seq<u8>, AccountView>,
    pub nonces: Map<Seq<u8>, u64>,
}

/// The keys at which the built-in programs are deployed.
pub struct Programs {
    pub faucet: Seq<u8>,
    pub notebook: Seq<u8>,
    pub distributor: Seq<u8>,
}

/// Coins that the faucet hands out per call.
pub const FAUCET_GRANT: u64 = 100;

/// The account that a transfer creates for a receiver not yet known.
pub open spec fn fresh_account(owner: Seq<u8>) -> AccountView {
    AccountView { coins: 0, data: Seq::empty(), owner, executable: false }
}

/// `a` with its coins replaced.
pub open spec fn with_coins(a: AccountView, coins: u64) -> AccountView {
    AccountView { coins, data: a.data, owner: a.owner, executable: a.executable }
}

/// `a` with its data replaced.
pub open spec fn with_data(a: AccountView, data: Seq<u8>) -> AccountView {
    AccountView { coins: a.coins, data, owner: a.owner, executable: a.executable }
}

/// The accounts after `amount` coins are added to `key`'s account.
pub open spec fn credit(
    accounts: Map<Seq<u8>, AccountView>,
    key: Seq<u8>,
    amount: int,
) -> Map<Seq<u8>, AccountView> {
    accounts.insert(key, with_coins(accounts[key], (accounts[key].coins + amount) as u64))
}

/// Whether adding `amount` coins to `key`'s account stays within `u64`.
pub open spec fn credit_fits(accounts: Map<Seq<u8>, AccountView>, key: Seq<u8>, amount: int) -> bool {
    accounts[key].coins + amount <= u64::MAX
}

/// The account list names `key` as a writable signer.
pub open spec fn lists_writable_signer(metas: Seq<AccountMeta>, key: Seq<u8>) -> bool {
    exists|i: int|
        0 <= i < metas.len() && (#[trigger] metas[i]).pubkey@ == key && metas[i].is_signer
            && metas[i].is_writable
}

/// The account list names `key` as writable.
pub open spec fn lists_writable(metas: Seq<AccountMeta>, key: Seq<u8>) -> bool {
    exists|i: int| 0 <= i < metas.len() && (#[trigger] metas[i]).pubkey@ == key && metas[i].is_writable
}

/// The faucet: a call with the single instruction byte 1 grants the caller
/// `FAUCET_GRANT` coins, if the caller has an account and the grant fits in `u64`.
pub open spec fn spec_faucet(
    accounts: Map<Seq<u8>, AccountView>,
    data: Seq<u8>,
    caller: Seq<u8>,
) -> Map<Seq<u8>, AccountView> {
    if data == seq![1u8] && accounts.contains_key(caller) && credit_fits(
        accounts,
        caller,
        FAUCET_GRANT as int,
    ) {
        credit(accounts, caller, FAUCET_GRANT as int)
    } else {
        accounts
    }
}

/// The three amounts that the distributor reads: little-endian `u64`s.
pub open spec fn distributor_amount(data: Seq<u8>, i: int) -> u64 {
    spec_u64_from_le_bytes(data.subrange(8 * i, 8 * i + 8))
}

/// Whether the distributor's account list is acceptable: the caller first, as a
/// writable signer; three writable receivers; all four known.
pub open spec fn distributor_accounts_ok(
    accounts: Map<Seq<u8>, AccountView>,
    caller: Seq<u8>,
    metas: Seq<AccountMeta>,
) -> bool {
    &&& metas[0].pubkey@ == caller && metas[0].is_signer && metas[0].is_writable
    &&& metas[1].is_writable && metas[2].is_writable && metas[3].is_writable
    &&& forall|i: int| 0 <= i < 4 ==> accounts.contains_key((#[trigger] metas[i]).pubkey@)
}

/// The sum of the three amounts.
pub open spec fn distributor_total(data: Seq<u8>) -> int {
    distributor_amount(data, 0) + distributor_amount(data, 1) + distributor_amount(data, 2)
}

/// The accounts after the three receivers are credited in turn (`None` if a
/// balance would leave `u64`).
pub open spec fn distributor_credits(
    accounts: Map<Seq<u8>, AccountView>,
    data: Seq<u8>,
    metas: Seq<AccountMeta>,
) -> Option<Map<Seq<u8>, AccountView>> {
    let k1 = metas[1].pubkey@;
    let k2 = metas[2].pubkey@;
    let k3 = metas[3].pubkey@;
    let s1 = distributor_amount(data, 0) as int;
    let s2 = distributor_amount(data, 1) as int;
    let s3 = distributor_amount(data, 2) as int;
    let a1 = credit(accounts, k1, s1);
    let a2 = credit(a1, k2, s2);
    if credit_fits(accounts, k1, s1) && credit_fits(a1, k2, s2) && credit_fits(a2, k3, s3) {
        Some(credit(a2, k3, s3))
    } else {
        None
    }
}

/// The distributor (for 24 bytes of data and four accounts): moves the three
/// amounts from the caller to the three receivers. The flag is false when the
/// call is refused, which leaves the accounts as they were and ends the program.
pub open spec fn spec_distribute(
    accounts: Map<Seq<u8>, AccountView>,
    data: Seq<u8>,
    caller: Seq<u8>,
    metas: Seq<AccountMeta>,
) -> (Map<Seq<u8>, AccountView>, bool) {
    if !distributor_accounts_ok(accounts, caller, metas) || !(distributor_total(data)
        <= accounts[caller].coins) {
        (accounts, false)
    } else {
        match distributor_credits(accounts, data, metas) {
            Some(credited) => (
                credited.insert(
                    caller,
                    with_coins(
                        credited[caller],
                        (credited[caller].coins - distributor_total(data)) as u64,
                    ),
                ),
                true,
            ),
            None => (accounts, false),
        }
    }
}

/// The notebook's write: `text` goes into the data of `target` only when the
/// target exists, is owned by the notebook program, and is the caller itself.
pub open spec fn spec_notebook_write(
    accounts: Map<Seq<u8>, AccountView>,
    target: Option<Seq<u8>>,
    text: Seq<u8>,
    caller: Seq<u8>,
    program: Seq<u8>,
) -> Map<Seq<u8>, AccountView> {
    match target {
        Some(t) => if accounts.contains_key(t) && accounts[t].owner == program && t == caller {
            accounts.insert(t, with_data(accounts[t], text))
        } else {
            accounts
        },
        None => accounts,
    }
}

/// The notebook (instruction byte 2): the 33 bytes after the instruction name
/// a target key, parsed as a public key, and the rest is the text to write.
pub open spec fn spec_notebook(
    accounts: Map<Seq<u8>, AccountView>,
    data: Seq<u8>,
    caller: Seq<u8>,
    program: Seq<u8>,
) -> Map<Seq<u8>, AccountView> {
    if data.len() < 34 {
        accounts
    } else {
        spec_notebook_write(
            accounts,
            spec_parse_public_key(data.subrange(1, 34)),
            data.subrange(34, data.len() as int),
            caller,
            program,
        )
    }
}

/// The view of an optional key.
pub open spec fn key_view(key: Option<PublicKey>) -> Option<Seq<u8>> {
    match key {
        Some(k) => Some(k@),
        None => None,
    }
}

/// Running `program` with `data` on behalf of `caller`: the faucet step, the
/// distributor step and the notebook step, each for the program it names; a
/// refused distributor call ends the run.
pub open spec fn spec_execute(
    p: Programs,
    accounts: Map<Seq<u8>, AccountView>,
    program: Seq<u8>,
    data: Seq<u8>,
    caller: Seq<u8>,
    metas: Seq<AccountMeta>,
) -> Map<Seq<u8>, AccountView> {
    let a1 = if program == p.faucet {
        spec_faucet(accounts, data, caller)
    } else {
        accounts
    };
    let (a2, go_on) = if program == p.distributor && data.len() == 24 && metas.len() == 4 {
        spec_distribute(a1, data, caller, metas)
    } else {
        (a1, true)
    };
    if go_on && program == p.notebook && data.len() > 0 && data[0] == 2 {
        spec_notebook(a2, data, caller, program)
    } else {
        a2
    }
}

/// The next nonce recorded for `key` (zero when none is).
pub open spec fn nonce_of(nonces: Map<Seq<u8>, u64>, key: Seq<u8>) -> u64 {
    if nonces.contains_key(key) {
        nonces[key]
    } else {
        0
    }
}

/// Applying a transaction to the ledger: the new ledger and the outcome.
///
/// The sender must be listed as a writable signer and the receiver as
/// writable; the sender must have an account holding the amount plus the fee,
/// which are taken from it. A transaction to a deployed program then runs the
/// program; otherwise the receiver (created if new) gets the amount and the
/// sender's nonce goes up by one. A refused transaction changes nothing.
pub open spec fn spec_apply(p: Programs, l: Ledger, tx: Transaction) -> (Ledger, Result<
    (),
    TransferError,
>) {
    let from = tx.from@;
    let to = tx.to@;
    if !lists_writable_signer(tx.accounts@, from) {
        (l, Err(TransferError::SenderNotWritable))
    } else if !lists_writable(tx.accounts@, to) {
        (l, Err(TransferError::ReceiverNotWritable))
    } else if !l.accounts.contains_key(from) {
        (l, Err(TransferError::SenderNotFound))
    } else if l.accounts[from].coins < tx.amount + tx.fee {
        (l, Err(TransferError::InsufficientFunds))
    } else {
        let sender = l.accounts[from];
        let debited = l.accounts.insert(
            from,
            with_coins(sender, (sender.coins - tx.amount - tx.fee) as u64),
        );
        if debited.contains_key(tx.program_id@) && debited[tx.program_id@].executable {
            (
                Ledger {
                    accounts: spec_execute(
                        p,
                        debited,
                        tx.program_id@,
                        tx.instruction_data@,
                        from,
                        tx.accounts@,
                    ),
                    nonces: l.nonces,
                },
                Ok(()),
            )
        } else {
            let receiver = if debited.contains_key(to) {
                debited[to]
            } else {
                fresh_account(to)
            };
            let n = nonce_of(l.nonces, from);
            if receiver.coins + tx.amount > u64::MAX || n + 1 > u64::MAX {
                (l, Err(TransferError::BalanceOverflow))
            } else {
                (
                    Ledger {
                        accounts: debited.insert(
                            to,
                            with_coins(receiver, (receiver.coins + tx.amount) as u64),
                        ),
                        nonces: l.nonces.insert(from, (n + 1) as u64),
                    },
                    Ok(()),
                )
            }
        }
    }
}

/// Replaces the coins of a stored account.
pub fn set_coins(accounts: &mut KeyMap<Account>, key: &PublicKey, coins: u64)
    requires
        old(accounts)@.contains_key(key@),
    ensures
        final(accounts)@ == old(accounts)@.insert(key@, with_coins(old(accounts)@[key@], coins)),
{
    let mut acc = accounts.remove(key).unwrap();
    acc.coins = coins;
    accounts.insert(*key, acc);
    assert(accounts@ =~= old(accounts)@.insert(key@, with_coins(old(accounts)@[key@], coins)));
}

/// Adds coins to a stored account.
pub fn add_coins(accounts: &mut KeyMap<Account>, key: &PublicKey, amount: u64)
    requires
        old(accounts)@.contains_key(key@),
        credit_fits(old(accounts)@, key@, amount as int),
    ensures
        final(accounts)@ == credit(old(accounts)@, key@, amount as int),
{
    let coins = accounts.get(key).unwrap().coins;
    set_coins(accounts, key, coins + amount);
}

/// Whether the list names `key` writable (and, if `signer`, as a signer).
pub fn find_meta(metas: &[AccountMeta], key: &PublicKey, signer: bool) -> (found: bool)
    ensures
        signer ==> found == lists_writable_signer(metas@, key@),
        !signer ==> found == lists_writable(metas@, key@),
{
    let mut i: usize = 0;
    while i < metas.len()
        invariant
            0 <= i <= metas@.len(),
            forall|j: int|
                0 <= j < i ==> !((#[trigger] metas@[j]).pubkey@ == key@ && (signer
                    ==> metas@[j].is_signer) && metas@[j].is_writable),
        decreases metas@.len() - i,
    {
        let m = metas[i];
        if m.pubkey.same_key(key) && (!signer || m.is_signer) && m.is_writable {
            return true;
        }
        i = i + 1;
    }
    false
}

/// The faucet step.
pub fn run_faucet(accounts: &mut KeyMap<Account>, data: &[u8], caller: &PublicKey)
    ensures
        final(accounts)@ == spec_faucet(old(accounts)@, data@, caller@),
{
    if data.len() == 1 && data[0] == 1 {
        assert(data@ =~= seq![1u8]);
        match accounts.get(caller) {
            Some(user) => {
                if user.coins <= u64::MAX - FAUCET_GRANT {
                    add_coins(accounts, caller, FAUCET_GRANT);
                }
            },
            None => {},
        }
    } else {
        assert(data@ != seq![1u8]) by {
            if data@.len() == 1 {
                assert(data@[0] != seq![1u8][0]);
            }
        }
    }
}

/// The distributor step, for 24 bytes of data and four accounts; false when
/// the call is refused.
pub fn run_distributor(
    accounts: &mut KeyMap<Account>,
    data: &[u8],
    caller: &PublicKey,
    metas: &[AccountMeta],
) -> (go_on: bool)
    requires
        data@.len() == 24,
        metas@.len() == 4,
    ensures
        (final(accounts)@, go_on) == spec_distribute(old(accounts)@, data@, caller@, metas@),
{
    let ghost a0 = accounts@;
    let first = metas[0];
    if !(first.pubkey.same_key(caller) && first.is_signer && first.is_writable) {
        return false;
    }
    if !(metas[1].is_writable && metas[2].is_writable && metas[3].is_writable) {
        return false;
    }
    let mut i: usize = 0;
    while i < 4
        invariant
            0 <= i <= 4,
            metas@.len() == 4,
            accounts@ == a0,
            forall|j: int| 0 <= j < i ==> a0.contains_key((#[trigger] metas@[j]).pubkey@),
        decreases 4 - i,
    {
        if !accounts.contains_key(&metas[i].pubkey) {
            return false;
        }
        i = i + 1;
    }
    let s1 = u64_from_le_bytes(slice_subrange(data, 0, 8));
    let s2 = u64_from_le_bytes(slice_subrange(data, 8, 16));
    let s3 = u64_from_le_bytes(slice_subrange(data, 16, 24));
    assert(s1 == distributor_amount(data@, 0));
    assert(s2 == distributor_amount(data@, 1));
    assert(s3 == distributor_amount(data@, 2));
    let total: u128 = s1 as u128 + s2 as u128 + s3 as u128;
    let balance = accounts.get(caller).unwrap().coins;
    if !(total <= balance as u128) {
        return false;
    }
    let k1 = metas[1].pubkey;
    let k2 = metas[2].pubkey;
    let k3 = metas[3].pubkey;
    let c1 = accounts.get(&k1).unwrap().coins;
    if c1 > u64::MAX - s1 {
        return false;
    }
    add_coins(accounts, &k1, s1);
    let c2 = accounts.get(&k2).unwrap().coins;
    if c2 > u64::MAX - s2 {
        let ghost a1 = accounts@;
        set_coins(accounts, &k1, c1);
        assert(accounts@ =~= a0);
        return false;
    }
    add_coins(accounts, &k2, s2);
    let c3 = accounts.get(&k3).unwrap().coins;
    if c3 > u64::MAX - s3 {
        set_coins(accounts, &k2, c2);
        set_coins(accounts, &k1, c1);
        assert(accounts@ =~= a0);
        return false;
    }
    add_coins(accounts, &k3, s3);
    let now = accounts.get(caller).unwrap().coins;
    set_coins(accounts, caller, now - total as u64);
    true
}

/// The notebook step (instruction byte 2 already seen).
pub fn run_notebook(
    accounts: &mut KeyMap<Account>,
    data: &[u8],
    caller: &PublicKey,
    program: &PublicKey,
)
    ensures
        final(accounts)@ == spec_notebook(old(accounts)@, data@, caller@, program@),
{
    if data.len() < 34 {
        return;
    }
    let target = parse_public_key(slice_subrange(data, 1, 34));
    notebook_write(accounts, target, slice_subrange(data, 34, data.len()), caller, program);
}

/// The notebook's write to the parsed `target` (see `spec_notebook_write`).
pub fn notebook_write(
    accounts: &mut KeyMap<Account>,
    target: Option<PublicKey>,
    text: &[u8],
    caller: &PublicKey,
    program: &PublicKey,
)
    ensures
        final(accounts)@ == spec_notebook_write(
            old(accounts)@,
            key_view(target),
            text@,
            caller@,
            program@,
        ),
{
    match target {
        Some(t) => {
            let allowed = match accounts.get(&t) {
                Some(acc) => acc.owner.same_key(program) && t.same_key(caller),
                None => false,
            };
            if allowed {
                let mut acc = accounts.remove(&t).unwrap();
                acc.data = slice_to_vec(text);
                accounts.insert(t, acc);
                assert(accounts@ =~= old(accounts)@.insert(
                    t@,
                    with_data(old(accounts)@[t@], text@),
                ));
            }
        },
        None => {},
    }
}

/// Runs a program: the faucet, distributor and notebook steps in turn.
pub fn run_program(
    accounts: &mut KeyMap<Account>,
    p_faucet: &PublicKey,
    p_notebook: &PublicKey,
    p_distributor: &PublicKey,
    program: &PublicKey,
    data: &[u8],
    caller: &PublicKey,
    metas: &[AccountMeta],
)
    ensures
        final(accounts)@ == spec_execute(
            Programs { faucet: p_faucet@, notebook: p_notebook@, distributor: p_distributor@ },
            old(accounts)@,
            program@,
            data@,
            caller@,
            metas@,
        ),
{
    if program.same_key(p_faucet) {
        run_faucet(accounts, data, caller);
    }
    let mut go_on = true;
    if program.same_key(p_distributor) && data.len() == 24 && metas.len() == 4 {
        go_on = run_distributor(accounts, data, caller, metas);
    }
    if go_on && program.same_key(p_notebook) && data.len() > 0 && data[0] == 2 {
        run_notebook(accounts, data, caller, program);
    }
}

/// The outcome of applying a block's transactions in turn: the ledger, the
/// first refusal (after which nothing more is applied), and the fees of the
/// transactions that were applied.
pub struct RunOutcome {
    pub ledger: Ledger,
    pub error: Option<TransferError>,
    pub fees: int,
}

/// Applies `txs` in order, stopping at the first refusal.
pub open spec fn spec_run(p: Programs, l: Ledger, txs: Seq<Transaction>) -> RunOutcome
    decreases txs.len(),
{
    if txs.len() == 0 {
        RunOutcome { ledger: l, error: None, fees: 0 }
    } else {
        let r = spec_run(p, l, txs.drop_last());
        if r.error is Some {
            r
        } else {
            let (l2, res) = spec_apply(p, r.ledger, txs.last());
            match res {
                Ok(_) => RunOutcome { ledger: l2, error: None, fees: r.fees + txs.last().fee },
                Err(e) => RunOutcome { ledger: r.ledger, error: Some(e), fees: r.fees },
            }
        }
    }
}

/// The sum of the fees of `txs`.
pub open spec fn sum_fees(txs: Seq<Transaction>) -> int
    decreases txs.len(),
{
    if txs.len() == 0 {
        0
    } else {
        sum_fees(txs.drop_last()) + txs.last().fee
    }
}

/// Fees add up to a nonnegative amount.
pub proof fn lemma_sum_fees_nonnegative(txs: Seq<Transaction>)
    ensures
        sum_fees(txs) >= 0,
    decreases txs.len(),
{
    if txs.len() > 0 {
        lemma_sum_fees_nonnegative(txs.drop_last());
    }
}

/// Once a prefix of the transactions is refused, the rest changes nothing.
pub proof fn lemma_run_stops(p: Programs, l: Ledger, txs: Seq<Transaction>, k: int)
    requires
        0 <= k <= txs.len(),
        spec_run(p, l, txs.take(k)).error is Some,
    ensures
        spec_run(p, l, txs) == spec_run(p, l, txs.take(k)),
    decreases txs.len() - k,
{
    if k == txs.len() {
        assert(txs.take(k) =~= txs);
    } else {
        assert(txs.take(k + 1).drop_last() =~= txs.take(k));
        lemma_run_stops(p, l, txs, k + 1);
    }
}

/// When every transaction is applied, the fees collected are all their fees.
pub proof fn lemma_run_fees(p: Programs, l: Ledger, txs: Seq<Transaction>)
    requires
        spec_run(p, l, txs).error is None,
    ensures
        spec_run(p, l, txs).fees == sum_fees(txs),
    decreases txs.len(),
{
    if txs.len() > 0 {
        lemma_run_fees(p, l, txs.drop_last());
    }
}

} // verus!
