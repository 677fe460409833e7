//! Hashing and hex rendering of byte strings.

use secp256k1::hashes::sha256;
use vstd::prelude::*;

verus! {

/// The SHA-256 digest of `data`.
pub uninterp spec fn spec_sha256(data: Seq<u8>) -> Seq<u8>;

/// The lowercase hexadecimal digit for `n` (`0 <= n < 16`).
pub open spec fn hex_digit(n: int) -> char {
    if n < 10 {
        (n + 48) as char
    } else {
        (n + 87) as char
    }
}

/// Lowercase hex rendering: two digits per byte, high nibble first.
pub open spec fn spec_hex(data: Seq<u8>) -> Seq<char> {
    Seq::new(
        2 * data.len(),
        |i: int|
            if i % 2 == 0 {
                hex_digit(data[i / 2] as int / 16)
            } else {
                hex_digit(data[i / 2] as int % 16)
            },
    )
}

/// Computes SHA-256 with the `sha256` engine of `bitcoin_hashes` (re-exported by
/// `secp256k1::hashes`). Trusted: the digest is named `spec_sha256` of the input
/// bytes and nothing more is claimed of it.
#[verifier::external_body]
pub fn sha256_digest(data: &[u8]) -> (digest: [u8; 32])
    ensures
        digest@ == spec_sha256(data@),
{
    let hash = <sha256::Hash as secp256k1::hashes::Hash>::hash(data);
    <sha256::Hash as secp256k1::hashes::Hash>::to_byte_array(hash)
}

/// Renders `data` with `hex::encode`. Trusted: the crate documents lowercase
/// digits, two per byte, which is what `spec_hex` states.
#[verifier::external_body]
pub fn hex_encode(data: &[u8]) -> (text: String)
    ensures
        text@ == spec_hex(data@),
{
    hex::encode(data)
}

} // verus!
