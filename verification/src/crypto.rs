//! The crypto service: SHA-256 hashing, Ed25519 keys and signatures, and
//! Merkle trees.

use crate::types::{ConsensusError, PrivateKey, PublicKey, Signature};
use vstd::prelude::*;

pub mod hash;
pub mod keys;
pub mod merkle;
pub mod signatures;

verus! {

/// One front door to the primitives: keys, signatures and digests.
pub struct CryptoProvider;

impl CryptoProvider {
    /// A fresh key pair: the public key belongs to the secret key.
    pub fn generate_keypair() -> (r: (PrivateKey, PublicKey))
        ensures
            r.1@ == signatures::ed25519_pubkey_of(r.0@),
    {
        let private_key = keys::random_bytes_32();
        let public_key = signatures::ed25519_derive_public_key(&private_key);
        (private_key, public_key)
    }

    /// Signs a message with a secret key.
    pub fn sign(private_key: &PrivateKey, message: &[u8]) -> (r: Result<Signature, ConsensusError>)
        ensures
            r is Ok,
            r->Ok_0.0@ == signatures::ed25519_sig_of(private_key@, message@),
            signatures::ed25519_verifies(
                signatures::ed25519_pubkey_of(private_key@),
                message@,
                r->Ok_0.0@,
            ),
    {
        Ok(signatures::SignatureUtils::sign(private_key, message))
    }

    /// Verifies a signature over a message.
    pub fn verify(public_key: &PublicKey, message: &[u8], signature: &Signature) -> (r: Result<
        (),
        ConsensusError,
    >)
        ensures
            r is Ok <==> signatures::ed25519_verifies(public_key@, message@, signature.0@),
            r is Err ==> r->Err_0 == ConsensusError::SignatureInvalid,
    {
        signatures::SignatureUtils::verify(public_key, message, signature)
    }

    /// SHA-256 of a byte slice.
    pub fn hash(data: &[u8]) -> (r: [u8; 32])
        ensures
            r@ == hash::sha256_of(data@),
    {
        hash::Hasher::hash(data)
    }

    /// SHA-256 of two 32-byte hashes laid side by side.
    pub fn hash_two(left: &[u8; 32], right: &[u8; 32]) -> (r: [u8; 32])
        ensures
            r@ == hash::spec_hash_two(left@, right@),
    {
        hash::Hasher::hash_two(left, right)
    }

    /// Relies on rand::rngs::OsRng (RngCore::fill_bytes): a buffer of the
    /// asked-for size filled from the operating system's randomness; any
    /// bytes may come back.
    #[verifier::external_body]
    pub fn generate_random_bytes(size: usize) -> (r: Vec<u8>)
        ensures
            r@.len() == size,
    {
        let mut bytes = vec![0u8; size];
        rand::RngCore::fill_bytes(&mut rand::rngs::OsRng, &mut bytes);
        bytes
    }

    /// 32 random bytes as a hash-shaped value.
    pub fn generate_random_hash() -> (r: [u8; 32]) {
        keys::random_bytes_32()
    }
}

} // verus!
