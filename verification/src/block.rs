//! Block hashing and proof-of-work mining.

use crate::digest::{hex_digit, hex_encode, sha256_digest, spec_hex, spec_sha256};
use crate::encoding::{block_prefix, enc_block, le64, put_u64};
use crate::types::{Block, CoinbaseTransaction, Transaction};
use vstd::prelude::*;

verus! {

/// The hash of a block with these fields: SHA-256 of its encoding, in lowercase hex.
pub open spec fn spec_block_hash(
    index: u32,
    timestamp: u64,
    txs: Seq<Transaction>,
    previous_hash: Seq<char>,
    coinbase: CoinbaseTransaction,
    nonce: u64,
) -> Seq<char> {
    spec_hex(spec_sha256(enc_block(index, timestamp, txs, previous_hash, coinbase, nonce)))
}

/// Whether `hash` starts with `difficulty` zero digits.
pub open spec fn meets_difficulty(hash: Seq<char>, difficulty: int) -> bool {
    &&& difficulty <= hash.len()
    &&& forall|i: int| 0 <= i < difficulty ==> hash[i] == '0'
}

impl Block {
    /// The hash that this block's fields give.
    pub open spec fn computed_hash(&self) -> Seq<char> {
        spec_block_hash(
            self.index,
            self.timestamp,
            self.transactions@,
            self.previous_hash@,
            self.coinbase,
            self.nonce,
        )
    }

    /// Mines a block: finds the least nonce whose hash starts with
    /// `difficulty` zero digits. `None` when no `u64` nonce does.
    pub fn new(
        index: u32,
        timestamp: u64,
        transactions: Vec<Transaction>,
        previous_hash: String,
        difficulty: u32,
        coinbase: CoinbaseTransaction,
    ) -> (block: Option<Block>)
        ensures
            match block {
                Some(b) => {
                    &&& b.index == index
                    &&& b.timestamp == timestamp
                    &&& b.transactions@ == transactions@
                    &&& b.previous_hash@ == previous_hash@
                    &&& b.coinbase == coinbase
                    &&& b.hash@ == b.computed_hash()
                    &&& least_mined_nonce(
                        index,
                        timestamp,
                        transactions@,
                        previous_hash@,
                        coinbase,
                        difficulty as int,
                        b.nonce,
                    )
                },
                None => no_nonce_mines(
                    index,
                    timestamp,
                    transactions@,
                    previous_hash@,
                    coinbase,
                    difficulty as int,
                ),
            },
    {
        match mine(
            difficulty as usize,
            index,
            timestamp,
            transactions.as_slice(),
            previous_hash.as_str(),
            &coinbase,
        ) {
            Some((nonce, hash)) => Some(
                Block { index, timestamp, transactions, hash, previous_hash, nonce, coinbase },
            ),
            None => None,
        }
    }
}

/// `nonce` gives a hash with the required zeros, and no smaller nonce does.
pub open spec fn least_mined_nonce(
    index: u32,
    timestamp: u64,
    txs: Seq<Transaction>,
    previous_hash: Seq<char>,
    coinbase: CoinbaseTransaction,
    difficulty: int,
    nonce: u64,
) -> bool {
    &&& meets_difficulty(
        spec_block_hash(index, timestamp, txs, previous_hash, coinbase, nonce),
        difficulty,
    )
    &&& forall|m: u64|
        m < nonce ==> !meets_difficulty(
            #[trigger] spec_block_hash(index, timestamp, txs, previous_hash, coinbase, m),
            difficulty,
        )
}

/// No `u64` nonce gives a hash with the required zeros.
pub open spec fn no_nonce_mines(
    index: u32,
    timestamp: u64,
    txs: Seq<Transaction>,
    previous_hash: Seq<char>,
    coinbase: CoinbaseTransaction,
    difficulty: int,
) -> bool {
    forall|m: u64|
        !meets_difficulty(
            #[trigger] spec_block_hash(index, timestamp, txs, previous_hash, coinbase, m),
            difficulty,
        )
}

proof fn lemma_hex_digit_zero(n: int)
    requires
        0 <= n < 16,
    ensures
        (hex_digit(n) == '0') <==> (n == 0),
{
}

/// Whether the hex rendering of `digest` starts with `difficulty` zero digits.
pub fn digest_meets_difficulty(digest: &[u8; 32], difficulty: usize) -> (ok: bool)
    ensures
        ok == meets_difficulty(spec_hex(digest@), difficulty as int),
{
    let ghost hex = spec_hex(digest@);
    assert(digest@.len() == 32);
    if difficulty > 64 {
        return false;
    }
    let mut i: usize = 0;
    while i < difficulty
        invariant
            0 <= i <= difficulty <= 64,
            digest@.len() == 32,
            hex == spec_hex(digest@),
            forall|j: int| 0 <= j < i ==> hex[j] == '0',
        decreases difficulty - i,
    {
        let byte = digest[i / 2];
        let nibble = if i % 2 == 0 {
            byte / 16
        } else {
            byte % 16
        };
        proof {
            lemma_hex_digit_zero(nibble as int);
            assert(hex[i as int] == hex_digit(nibble as int));
        }
        if nibble != 0 {
            return false;
        }
        i = i + 1;
    }
    true
}

/// The hash of a block with these fields, as lowercase hex.
pub fn hash_block(
    index: u32,
    timestamp: u64,
    transactions: &[Transaction],
    previous_hash: &str,
    coinbase: &CoinbaseTransaction,
    nonce: u64,
) -> (hash: String)
    ensures
        hash@ == spec_block_hash(
            index,
            timestamp,
            transactions@,
            previous_hash@,
            *coinbase,
            nonce,
        ),
        hash@.len() == 64,
{
    let mut bytes = block_prefix(index, timestamp, transactions, previous_hash, coinbase);
    put_u64(&mut bytes, nonce);
    let digest = sha256_digest(bytes.as_slice());
    assert(digest@.len() == 32);
    hex_encode(&digest)
}

/// Searches the nonces upward from zero for the first whose block hash starts
/// with `difficulty` zero digits.
pub fn mine(
    difficulty: usize,
    index: u32,
    timestamp: u64,
    transactions: &[Transaction],
    previous_hash: &str,
    coinbase: &CoinbaseTransaction,
) -> (found: Option<(u64, String)>)
    ensures
        match found {
            Some((nonce, hash)) => {
                &&& hash@ == spec_block_hash(
                    index,
                    timestamp,
                    transactions@,
                    previous_hash@,
                    *coinbase,
                    nonce,
                )
                &&& least_mined_nonce(
                    index,
                    timestamp,
                    transactions@,
                    previous_hash@,
                    *coinbase,
                    difficulty as int,
                    nonce,
                )
            },
            None => no_nonce_mines(
                index,
                timestamp,
                transactions@,
                previous_hash@,
                *coinbase,
                difficulty as int,
            ),
        },
{
    let mut buf = block_prefix(index, timestamp, transactions, previous_hash, coinbase);
    let prefix_len = buf.len();
    let ghost prefix = buf@;
    let mut nonce: u64 = 0;
    loop
        invariant
            buf@ == prefix,
            prefix_len == prefix.len(),
            prefix == crate::encoding::enc_block_prefix(
                index,
                timestamp,
                transactions@,
                previous_hash@,
                *coinbase,
            ),
            forall|m: u64|
                m < nonce ==> !meets_difficulty(
                    #[trigger] spec_block_hash(
                        index,
                        timestamp,
                        transactions@,
                        previous_hash@,
                        *coinbase,
                        m,
                    ),
                    difficulty as int,
                ),
        decreases u64::MAX - nonce,
    {
        put_u64(&mut buf, nonce);
        let digest = sha256_digest(buf.as_slice());
        let ok = digest_meets_difficulty(&digest, difficulty);
        buf.truncate(prefix_len);
        assert(buf@ =~= prefix);
        if ok {
            let hash = hex_encode(&digest);
            return Some((nonce, hash));
        }
        if nonce == u64::MAX {
            assert forall|m: u64|
                !meets_difficulty(
                    #[trigger] spec_block_hash(
                        index,
                        timestamp,
                        transactions@,
                        previous_hash@,
                        *coinbase,
                        m,
                    ),
                    difficulty as int,
                ) by {
                if m < nonce {
                } else {
                    assert(m == nonce);
                }
            }
            return None;
        }
        nonce = nonce + 1;
    }
}

} // verus!
