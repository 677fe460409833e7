# simple_blockchain

A small proof-of-work ledger whose logic is verified with Verus: secp256k1
keys and ECDSA-signed transfers, a mempool that checks nonces and balances,
blocks that take the mempool in fee order and are mined to a configurable
number of leading zero hex digits, three built-in programs (faucet,
distributor, notebook), chain validation, and the longest-valid-chain rule.

Layout:

- `src/` — the verified library.
  - `types.rs` — accounts, transactions, blocks, the chain, the error types.
  - `keys.rs`, `digest.rs`, `clock.rs` — the calls into `secp256k1`, its
    SHA-256, `hex` and the system clock, each behind a small trusted wrapper.
  - `encoding.rs` — the byte layout that is signed and hashed.
  - `keymap.rs` — the map from public keys to accounts and nonces.
  - `ledger.rs` — what applying a transaction and running a program does.
  - `fee_order.rs` — the stable highest-fee-first order of a block.
  - `block.rs` — block hashing and mining.
  - `chain.rs` — the node's operations on its chain.
  - `laws.rs` — properties that span several operations.
- `tests/` — scenario tests.
- `app/` — the node program: TCP server, peer sync, JSON exchange.
