//! Secret and public keys of the secp256k1 curve, and ECDSA signatures.

use crate::digest::{hex_encode, spec_hex};
use vstd::prelude::*;

verus! {

/// The order of the secp256k1 group.
pub open spec fn curve_order() -> nat {
    0xFFFFFFFFFFFFFFFFFFFFFFFFFFFFFFFEBAAEDCE6AF48A03BBFD25E8CD0364141nat
}

/// The unsigned big-endian value of a byte string.
pub open spec fn be_value(bytes: Seq<u8>) -> nat
    decreases bytes.len(),
{
    if bytes.len() == 0 {
        0
    } else {
        be_value(bytes.drop_last()) * 256 + bytes.last() as nat
    }
}

/// A 32-byte string is a secret key when, read big-endian, it lies strictly
/// between zero and the group order.
pub open spec fn secret_key_valid(bytes: Seq<u8>) -> bool {
    &&& bytes.len() == 32
    &&& 0 < be_value(bytes)
    &&& be_value(bytes) < curve_order()
}

/// The compressed (33-byte) public key that belongs to a secret key.
pub uninterp spec fn spec_public_key_of(secret: Seq<u8>) -> Seq<u8>;

/// Parsing of a serialized public key: the compressed serialization of the
/// parsed point, or `None` when the bytes are not a point on the curve.
pub uninterp spec fn spec_parse_public_key(bytes: Seq<u8>) -> Option<Seq<u8>>;

/// The DER encoding of the deterministic (RFC 6979) ECDSA signature of a
/// 32-byte digest under a secret key.
pub uninterp spec fn spec_ecdsa_sign(secret: Seq<u8>, digest: Seq<u8>) -> Seq<u8>;

/// Whether a DER-encoded signature is a valid ECDSA signature of a digest under
/// a compressed public key.
pub uninterp spec fn spec_ecdsa_verify(public: Seq<u8>, digest: Seq<u8>, signature: Seq<u8>) -> bool;

/// A secp256k1 secret key, held as its 32 big-endian bytes.
pub struct SecretKey {
    bytes: [u8; 32],
}

/// A secp256k1 public key, held as its 33-byte compressed serialization.
#[derive(Clone, Copy, Debug, PartialEq, Eq, Hash)]
pub struct PublicKey {
    bytes: [u8; 33],
}

impl View for SecretKey {
    type V = Seq<u8>;

    closed spec fn view(&self) -> Seq<u8> {
        self.bytes@
    }
}

impl View for PublicKey {
    type V = Seq<u8>;

    closed spec fn view(&self) -> Seq<u8> {
        self.bytes@
    }
}

impl PublicKey {
    /// A public key is a point of the curve held in its compressed form:
    /// parsing its bytes gives the same key back.
    #[verifier::type_invariant]
    spec fn well_formed(self) -> bool {
        spec_parse_public_key(self.bytes@) == Some(self.bytes@)
    }
}

impl SecretKey {
    #[verifier::type_invariant]
    spec fn well_formed(self) -> bool {
        secret_key_valid(self.bytes@)
    }

    /// The public key that belongs to this secret key.
    pub fn public_key(&self) -> (key: PublicKey)
        ensures
            key@ == spec_public_key_of(self@),
            spec_parse_public_key(key@) == Some(key@),
    {
        proof {
            use_type_invariant(self);
        }
        PublicKey { bytes: public_key_of(self) }
    }

    /// The DER-encoded ECDSA signature of a 32-byte digest under this key; it
    /// verifies under the matching public key.
    pub fn sign_digest(&self, digest: &[u8; 32]) -> (signature: Vec<u8>)
        ensures
            signature@ == spec_ecdsa_sign(self@, digest@),
            spec_ecdsa_verify(spec_public_key_of(self@), digest@, signature@),
    {
        proof {
            use_type_invariant(self);
        }
        ecdsa_sign(self, digest)
    }

    /// The secret as lowercase hex.
    pub fn display_secret(&self) -> (text: String)
        ensures
            text@ == spec_hex(self@),
    {
        hex_encode(&self.bytes)
    }
}

impl PublicKey {
    /// The public key serialized (compressed or uncompressed) in `bytes`, as
    /// `secp256k1::PublicKey::from_slice` parses it; `None` when the bytes are
    /// not a point on the curve.
    pub fn from_slice(bytes: &[u8]) -> (key: Option<PublicKey>)
        ensures
            match key {
                Some(k) => spec_parse_public_key(bytes@) == Some(k@) && spec_parse_public_key(k@)
                    == Some(k@),
                None => spec_parse_public_key(bytes@) is None,
            },
    {
        parse_public_key(bytes)
    }

    /// The 33-byte compressed serialization.
    pub fn serialize(&self) -> (bytes: [u8; 33])
        ensures
            bytes@ == self@,
            spec_parse_public_key(bytes@) == Some(self@),
    {
        proof {
            use_type_invariant(self);
        }
        self.bytes
    }

    /// The compressed serialization as lowercase hex, as the key displays.
    pub fn to_hex(&self) -> (text: String)
        ensures
            text@ == spec_hex(self@),
    {
        hex_encode(&self.bytes)
    }

    /// Whether `signature` (DER) is a valid ECDSA signature of `digest` under this key.
    pub fn verify_digest(&self, digest: &[u8; 32], signature: &[u8]) -> (valid: bool)
        ensures
            valid == spec_ecdsa_verify(self@, digest@, signature@),
    {
        ecdsa_verify(self, digest, signature)
    }

    /// Whether two keys are the same key.
    pub fn same_key(&self, other: &PublicKey) -> (same: bool)
        ensures
            same == (self@ == other@),
    {
        let mut i: usize = 0;
        while i < 33
            invariant
                0 <= i <= 33,
                self@.len() == 33,
                other@.len() == 33,
                forall|j: int| 0 <= j < i ==> self@[j] == other@[j],
            decreases 33 - i,
        {
            if self.bytes[i] != other.bytes[i] {
                return false;
            }
            i = i + 1;
        }
        assert(self@ =~= other@);
        true
    }
}

/// Draws a fresh secret key with `secp256k1::SecretKey::new` from the thread's
/// random generator. Trusted: the result is random, so only that it is a valid
/// secret key (the type's guarantee in `secp256k1`) is claimed.
#[verifier::external_body]
fn random_secret_key() -> (key: [u8; 32])
    ensures
        secret_key_valid(key@),
{
    secp256k1::SecretKey::new(&mut secp256k1::rand::rng()).secret_bytes()
}

/// Derives the public key with `secp256k1::PublicKey::from_secret_key` and
/// serializes it compressed. Trusted: the result is named `spec_public_key_of`
/// of the secret bytes, and, being the compressed serialization of a curve
/// point, `PublicKey::from_slice` parses it back to the same point.
#[verifier::external_body]
fn public_key_of(secret: &SecretKey) -> (key: [u8; 33])
    requires
        secret_key_valid(secret@),
    ensures
        key@ == spec_public_key_of(secret@),
        spec_parse_public_key(key@) == Some(key@),
{
    let sk = secp256k1::SecretKey::from_byte_array(secret.bytes).expect("valid secret key");
    let secp = secp256k1::Secp256k1::new();
    secp256k1::PublicKey::from_secret_key(&secp, &sk).serialize()
}

/// Parses a serialized public key with `secp256k1::PublicKey::from_slice` and
/// re-serializes it compressed. Trusted: the outcome is named
/// `spec_parse_public_key` of the input bytes, and the compressed bytes of a
/// parsed point parse back to the same point.
#[verifier::external_body]
fn parse_key_bytes(bytes: &[u8]) -> (key: Option<[u8; 33]>)
    ensures
        match key {
            Some(k) => spec_parse_public_key(bytes@) == Some(k@) && spec_parse_public_key(k@)
                == Some(k@),
            None => spec_parse_public_key(bytes@) is None,
        },
{
    match secp256k1::PublicKey::from_slice(bytes) {
        Ok(k) => Some(k.serialize()),
        Err(_) => None,
    }
}

/// The public key serialized in `bytes`, or `None` when they are not a point
/// of the curve (see `spec_parse_public_key`).
pub(crate) fn parse_public_key(bytes: &[u8]) -> (key: Option<PublicKey>)
    ensures
        match key {
            Some(k) => spec_parse_public_key(bytes@) == Some(k@) && spec_parse_public_key(k@)
                == Some(k@),
            None => spec_parse_public_key(bytes@) is None,
        },
{
    match parse_key_bytes(bytes) {
        Some(k) => Some(PublicKey { bytes: k }),
        None => None,
    }
}

/// Signs a digest with `Secp256k1::sign_ecdsa` (RFC 6979 nonces, so the
/// signature is a function of key and digest) and returns its DER encoding.
/// Trusted: the result is named `spec_ecdsa_sign`, and it verifies under the
/// signer's public key, as the crate's documentation of `verify_ecdsa` shows.
#[verifier::external_body]
fn ecdsa_sign(secret: &SecretKey, digest: &[u8; 32]) -> (signature: Vec<u8>)
    requires
        secret_key_valid(secret@),
    ensures
        signature@ == spec_ecdsa_sign(secret@, digest@),
        spec_ecdsa_verify(spec_public_key_of(secret@), digest@, signature@),
{
    let sk = secp256k1::SecretKey::from_byte_array(secret.bytes).expect("valid secret key");
    let secp = secp256k1::Secp256k1::new();
    let message = secp256k1::Message::from_digest(*digest);
    secp.sign_ecdsa(message, &sk).serialize_der().to_vec()
}

/// Checks a DER signature of a digest with `Secp256k1::verify_ecdsa`, after
/// parsing the key (`PublicKey::from_slice`) and the signature
/// (`ecdsa::Signature::from_der`); a parse error counts as an invalid
/// signature. Trusted: the answer is named `spec_ecdsa_verify`.
#[verifier::external_body]
fn ecdsa_verify(public: &PublicKey, digest: &[u8; 32], signature: &[u8]) -> (valid: bool)
    ensures
        valid == spec_ecdsa_verify(public@, digest@, signature@),
{
    let pk = match secp256k1::PublicKey::from_slice(&public.bytes) {
        Ok(k) => k,
        Err(_) => return false,
    };
    let sig = match secp256k1::ecdsa::Signature::from_der(signature) {
        Ok(s) => s,
        Err(_) => return false,
    };
    let secp = secp256k1::Secp256k1::new();
    secp.verify_ecdsa(secp256k1::Message::from_digest(*digest), &sig, &pk).is_ok()
}

/// A fresh random key pair: a secret key and the public key that belongs to it.
pub fn generate_keypair() -> (pair: (SecretKey, PublicKey))
    ensures
        pair.1@ == spec_public_key_of(pair.0@),
        spec_parse_public_key(pair.1@) == Some(pair.1@),
{
    let secret = SecretKey { bytes: random_secret_key() };
    let public = secret.public_key();
    (secret, public)
}

} // verus!
