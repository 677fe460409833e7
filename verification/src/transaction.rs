//! Signing and checking transactions.

use crate::digest::{sha256_digest, spec_sha256};
use crate::encoding::{enc_payload, payload};
use crate::keys::{spec_ecdsa_sign, spec_ecdsa_verify, spec_public_key_of, PublicKey, SecretKey};
use crate::types::{AccountMeta, Transaction, TransactionError};
use vstd::prelude::*;

verus! {

/// The digest that the sender of a transfer with these fields signs.
pub open spec fn spec_message_digest(
    program_id: Seq<u8>,
    from: Seq<u8>,
    to: Seq<u8>,
    amount: u64,
    fee: u64,
    nonce: u64,
    data: Seq<u8>,
    accounts: Seq<AccountMeta>,
) -> Seq<u8> {
    spec_sha256(enc_payload(program_id, from, to, amount, fee, nonce, data, accounts))
}

impl Transaction {
    /// The digest that this transaction's signature must sign.
    pub open spec fn message_digest(&self) -> Seq<u8> {
        spec_message_digest(
            self.program_id@,
            self.from@,
            self.to@,
            self.amount,
            self.fee,
            self.nonce,
            self.instruction_data@,
            self.accounts@,
        )
    }

    /// Whether the signature is the sender's valid signature of the transaction's fields.
    pub open spec fn signature_valid(&self) -> bool {
        spec_ecdsa_verify(self.from@, self.message_digest(), self.signature@)
    }

    /// Checks the signature against the sender's key.
    pub fn verify_transaction(&self) -> (res: Result<(), TransactionError>)
        ensures
            res is Ok <==> self.signature_valid(),
            res is Err ==> res == Err::<(), TransactionError>(TransactionError::InvalidSignature),
    {
        let digest = create_transaction_message(
            &self.program_id,
            &self.from,
            &self.to,
            self.amount,
            self.fee,
            self.nonce,
            self.instruction_data.as_slice(),
            self.accounts.as_slice(),
        );
        if self.from.verify_digest(&digest, self.signature.as_slice()) {
            Ok(())
        } else {
            Err(TransactionError::InvalidSignature)
        }
    }
}

/// The digest of the signed fields of a transfer.
fn create_transaction_message(
    program_id: &PublicKey,
    from: &PublicKey,
    to: &PublicKey,
    amount: u64,
    fee: u64,
    nonce: u64,
    data: &[u8],
    accounts: &[AccountMeta],
) -> (digest: [u8; 32])
    ensures
        digest@ == spec_message_digest(
            program_id@,
            from@,
            to@,
            amount,
            fee,
            nonce,
            data@,
            accounts@,
        ),
{
    let bytes = payload(program_id, from, to, amount, fee, nonce, data, accounts);
    sha256_digest(bytes.as_slice())
}

/// Builds and signs a transfer from the owner of `secret_key`.
pub fn sign_transaction(
    program_id: PublicKey,
    to_public_key: PublicKey,
    amount: u64,
    instruction_data: Vec<u8>,
    secret_key: &SecretKey,
    fee: u64,
    nonce: u64,
    accounts: Vec<AccountMeta>,
) -> (res: Result<Transaction, TransactionError>)
    ensures
        res matches Ok(tx) && {
            &&& tx.from@ == spec_public_key_of(secret_key@)
            &&& tx.to == to_public_key
            &&& tx.program_id == program_id
            &&& tx.amount == amount
            &&& tx.fee == fee
            &&& tx.nonce == nonce
            &&& tx.instruction_data@ == instruction_data@
            &&& tx.accounts@ == accounts@
            &&& tx.signature@ == spec_ecdsa_sign(secret_key@, tx.message_digest())
            &&& tx.signature_valid()
        },
{
    let from_public_key = secret_key.public_key();
    let digest = create_transaction_message(
        &program_id,
        &from_public_key,
        &to_public_key,
        amount,
        fee,
        nonce,
        instruction_data.as_slice(),
        accounts.as_slice(),
    );
    let signature = secret_key.sign_digest(&digest);
    Ok(
        Transaction {
            program_id,
            from: from_public_key,
            to: to_public_key,
            signature,
            instruction_data,
            amount,
            fee,
            nonce,
            accounts,
        },
    )
}

} // verus!
