//! The byte layout that is hashed for signatures and for proof of work:
//! fixed-width little-endian integers, strings and byte strings preceded by a
//! 64-bit length, sequences preceded by their 64-bit count, keys as their 33
//! compressed bytes, and fields one after another.

use crate::digest::spec_hex;
use crate::keys::PublicKey;
use crate::types::{AccountMeta, CoinbaseTransaction, Transaction};
use vstd::bytes::{spec_u32_to_le_bytes, spec_u64_to_le_bytes, u32_to_le_bytes, u64_to_le_bytes};
use vstd::prelude::*;
use vstd::utf8::encode_utf8;

verus! {

/// A `u64` as 8 little-endian bytes.
pub open spec fn le64(x: u64) -> Seq<u8> {
    spec_u64_to_le_bytes(x)
}

/// A `u32` as 4 little-endian bytes.
pub open spec fn le32(x: u32) -> Seq<u8> {
    spec_u32_to_le_bytes(x)
}

/// A byte string: its length, then its bytes.
pub open spec fn enc_bytes(b: Seq<u8>) -> Seq<u8> {
    le64(b.len() as u64) + b
}

/// A string: the length of its UTF-8 encoding, then that encoding.
pub open spec fn enc_str(s: Seq<char>) -> Seq<u8> {
    enc_bytes(encode_utf8(s))
}

/// A flag as one byte, 1 or 0.
pub open spec fn enc_bool(b: bool) -> Seq<u8> {
    seq![if b { 1u8 } else { 0u8 }]
}

/// An account reference: key, signer flag, writable flag.
pub open spec fn enc_meta(m: AccountMeta) -> Seq<u8> {
    m.pubkey@ + enc_bool(m.is_signer) + enc_bool(m.is_writable)
}

/// The account references one after another.
pub open spec fn enc_metas_body(s: Seq<AccountMeta>) -> Seq<u8>
    decreases s.len(),
{
    if s.len() == 0 {
        Seq::empty()
    } else {
        enc_metas_body(s.drop_last()) + enc_meta(s.last())
    }
}

/// A list of account references: its count, then the references.
pub open spec fn enc_metas(s: Seq<AccountMeta>) -> Seq<u8> {
    le64(s.len() as u64) + enc_metas_body(s)
}

/// A transaction's fields in declaration order.
pub open spec fn enc_tx(tx: Transaction) -> Seq<u8> {
    tx.from@ + tx.to@ + le64(tx.amount) + enc_bytes(tx.signature@) + enc_bytes(
        tx.instruction_data@,
    ) + le64(tx.fee) + le64(tx.nonce) + enc_metas(tx.accounts@) + tx.program_id@
}

/// Transactions one after another.
pub open spec fn enc_txs_body(s: Seq<Transaction>) -> Seq<u8>
    decreases s.len(),
{
    if s.len() == 0 {
        Seq::empty()
    } else {
        enc_txs_body(s.drop_last()) + enc_tx(s.last())
    }
}

/// A list of transactions: its count, then the transactions.
pub open spec fn enc_txs(s: Seq<Transaction>) -> Seq<u8> {
    le64(s.len() as u64) + enc_txs_body(s)
}

/// A coinbase: recipient key, then amount.
pub open spec fn enc_coinbase(c: CoinbaseTransaction) -> Seq<u8> {
    c.to@ + le64(c.amount)
}

/// Everything that is hashed for a block except its nonce.
pub open spec fn enc_block_prefix(
    index: u32,
    timestamp: u64,
    txs: Seq<Transaction>,
    previous_hash: Seq<char>,
    coinbase: CoinbaseTransaction,
) -> Seq<u8> {
    le32(index) + le64(timestamp) + enc_txs(txs) + enc_str(previous_hash) + enc_coinbase(coinbase)
}

/// What is hashed for a block: its index, timestamp, transactions, previous
/// hash, coinbase and nonce.
pub open spec fn enc_block(
    index: u32,
    timestamp: u64,
    txs: Seq<Transaction>,
    previous_hash: Seq<char>,
    coinbase: CoinbaseTransaction,
    nonce: u64,
) -> Seq<u8> {
    enc_block_prefix(index, timestamp, txs, previous_hash, coinbase) + le64(nonce)
}

/// What the sender signs (through its SHA-256 digest): program, sender and
/// receiver as hex strings, amount, fee, nonce, instruction data and the
/// account references.
pub open spec fn enc_payload(
    program_id: Seq<u8>,
    from: Seq<u8>,
    to: Seq<u8>,
    amount: u64,
    fee: u64,
    nonce: u64,
    data: Seq<u8>,
    accounts: Seq<AccountMeta>,
) -> Seq<u8> {
    enc_str(spec_hex(program_id)) + enc_str(spec_hex(from)) + enc_str(spec_hex(to)) + le64(amount)
        + le64(fee) + le64(nonce) + enc_bytes(data) + enc_metas(accounts)
}

/// Appends a `u64`.
pub fn put_u64(out: &mut Vec<u8>, x: u64)
    ensures
        final(out)@ == old(out)@ + le64(x),
{
    let mut b = u64_to_le_bytes(x);
    out.append(&mut b);
}

/// Appends a `u32`.
pub fn put_u32(out: &mut Vec<u8>, x: u32)
    ensures
        final(out)@ == old(out)@ + le32(x),
{
    let mut b = u32_to_le_bytes(x);
    out.append(&mut b);
}

/// Appends raw bytes.
pub fn put_raw(out: &mut Vec<u8>, b: &[u8])
    ensures
        final(out)@ == old(out)@ + b@,
{
    let ghost start = out@;
    let mut i: usize = 0;
    while i < b.len()
        invariant
            0 <= i <= b@.len(),
            out@ == start + b@.subrange(0, i as int),
        decreases b@.len() - i,
    {
        out.push(b[i]);
        i = i + 1;
        assert(out@ =~= start + b@.subrange(0, i as int));
    }
    assert(b@.subrange(0, b@.len() as int) =~= b@);
}

/// Appends a length-prefixed byte string.
pub fn put_bytes(out: &mut Vec<u8>, b: &[u8])
    ensures
        final(out)@ == old(out)@ + enc_bytes(b@),
{
    let ghost start = out@;
    put_u64(out, b.len() as u64);
    put_raw(out, b);
    assert(out@ =~= start + enc_bytes(b@));
}

/// Appends a length-prefixed string.
pub fn put_str(out: &mut Vec<u8>, s: &str)
    ensures
        final(out)@ == old(out)@ + enc_str(s@),
{
    let b = s.as_bytes();
    put_bytes(out, b);
}

/// Appends a key.
pub fn put_key(out: &mut Vec<u8>, k: &PublicKey)
    ensures
        final(out)@ == old(out)@ + k@,
{
    let b = k.serialize();
    put_raw(out, b.as_slice());
}

/// Appends a flag.
pub fn put_bool(out: &mut Vec<u8>, f: bool)
    ensures
        final(out)@ == old(out)@ + enc_bool(f),
{
    let ghost start = out@;
    out.push(if f { 1u8 } else { 0u8 });
    assert(out@ =~= start + enc_bool(f));
}

/// Appends a list of account references.
pub fn put_metas(out: &mut Vec<u8>, s: &[AccountMeta])
    ensures
        final(out)@ == old(out)@ + enc_metas(s@),
{
    let ghost start = out@;
    put_u64(out, s.len() as u64);
    let ghost mid = out@;
    let mut i: usize = 0;
    while i < s.len()
        invariant
            0 <= i <= s@.len(),
            out@ == mid + enc_metas_body(s@.subrange(0, i as int)),
        decreases s@.len() - i,
    {
        let ghost before = out@;
        let m = s[i];
        put_key(out, &m.pubkey);
        put_bool(out, m.is_signer);
        put_bool(out, m.is_writable);
        assert(s@.subrange(0, i + 1).drop_last() =~= s@.subrange(0, i as int));
        assert(out@ =~= before + enc_meta(m));
        i = i + 1;
    }
    assert(s@.subrange(0, s@.len() as int) =~= s@);
    assert(out@ =~= start + enc_metas(s@));
}

/// Appends a transaction.
pub fn put_tx(out: &mut Vec<u8>, tx: &Transaction)
    ensures
        final(out)@ == old(out)@ + enc_tx(*tx),
{
    let ghost start = out@;
    put_key(out, &tx.from);
    put_key(out, &tx.to);
    put_u64(out, tx.amount);
    put_bytes(out, tx.signature.as_slice());
    put_bytes(out, tx.instruction_data.as_slice());
    put_u64(out, tx.fee);
    put_u64(out, tx.nonce);
    put_metas(out, tx.accounts.as_slice());
    put_key(out, &tx.program_id);
    assert(out@ =~= start + enc_tx(*tx));
}

/// Appends a list of transactions.
pub fn put_txs(out: &mut Vec<u8>, s: &[Transaction])
    ensures
        final(out)@ == old(out)@ + enc_txs(s@),
{
    let ghost start = out@;
    put_u64(out, s.len() as u64);
    let ghost mid = out@;
    let mut i: usize = 0;
    while i < s.len()
        invariant
            0 <= i <= s@.len(),
            out@ == mid + enc_txs_body(s@.subrange(0, i as int)),
        decreases s@.len() - i,
    {
        let ghost before = out@;
        put_tx(out, &s[i]);
        assert(s@.subrange(0, i + 1).drop_last() =~= s@.subrange(0, i as int));
        assert(out@ =~= before + enc_tx(s@[i as int]));
        i = i + 1;
    }
    assert(s@.subrange(0, s@.len() as int) =~= s@);
    assert(out@ =~= start + enc_txs(s@));
}

/// The block encoding without its nonce.
pub fn block_prefix(
    index: u32,
    timestamp: u64,
    txs: &[Transaction],
    previous_hash: &str,
    coinbase: &CoinbaseTransaction,
) -> (out: Vec<u8>)
    ensures
        out@ == enc_block_prefix(index, timestamp, txs@, previous_hash@, *coinbase),
{
    let mut out: Vec<u8> = Vec::new();
    put_u32(&mut out, index);
    put_u64(&mut out, timestamp);
    put_txs(&mut out, txs);
    put_str(&mut out, previous_hash);
    put_key(&mut out, &coinbase.to);
    put_u64(&mut out, coinbase.amount);
    assert(out@ =~= enc_block_prefix(index, timestamp, txs@, previous_hash@, *coinbase));
    out
}

/// The bytes that a sender signs.
pub fn payload(
    program_id: &PublicKey,
    from: &PublicKey,
    to: &PublicKey,
    amount: u64,
    fee: u64,
    nonce: u64,
    data: &[u8],
    accounts: &[AccountMeta],
) -> (out: Vec<u8>)
    ensures
        out@ == enc_payload(program_id@, from@, to@, amount, fee, nonce, data@, accounts@),
{
    let mut out: Vec<u8> = Vec::new();
    let p = program_id.to_hex();
    let f = from.to_hex();
    let t = to.to_hex();
    put_str(&mut out, p.as_str());
    put_str(&mut out, f.as_str());
    put_str(&mut out, t.as_str());
    put_u64(&mut out, amount);
    put_u64(&mut out, fee);
    put_u64(&mut out, nonce);
    put_bytes(&mut out, data);
    put_metas(&mut out, accounts);
    assert(out@ =~= enc_payload(program_id@, from@, to@, amount, fee, nonce, data@, accounts@));
    out
}

} // verus!
