//! Transactions: their byte encoding, identity, signatures and validity.

use crate::crypto::hash::{sha256_of, Hasher};
use crate::crypto::signatures::{ed25519_sig_of, ed25519_verifies, SignatureUtils};
use crate::types::validator::ValidatorMetadata;
use crate::types::{
    append_bytes, now_seconds, Address, Amount, ConsensusError, Nonce, PrivateKey, PublicKey,
    Signature,
};
use vstd::bytes::{spec_u64_to_le_bytes, u64_to_le_bytes};
use vstd::prelude::*;

verus! {

/// The saturating sum of two amounts.
pub open spec fn spec_sat_add(a: u64, b: u64) -> u64 {
    if a + b > u64::MAX {
        u64::MAX
    } else {
        (a + b) as u64
    }
}

/// The saturating product of two amounts.
pub open spec fn spec_sat_mul(a: u64, b: u64) -> u64 {
    if a * b > u64::MAX {
        u64::MAX
    } else {
        (a * b) as u64
    }
}

/// A transfer of value with optional payload.
#[derive(Debug, Clone, PartialEq, Eq)]
pub struct Transaction {
    pub from: Address,
    pub to: Address,
    pub amount: Amount,
    pub gas_limit: u64,
    pub gas_price: u64,
    pub nonce: Nonce,
    pub data: Vec<u8>,
    /// Seconds since the epoch.
    pub timestamp: u64,
    pub signature: Signature,
}

/// The kinds of payload a transaction can carry.
#[derive(Debug, Clone, PartialEq, Eq, Structural)]
pub enum TransactionType {
    Transfer,
    Stake,
    Unstake,
    Delegate,
    Undelegate,
    ValidatorRegistration,
    ValidatorUpdate,
    Contract,
}

/// A staking instruction.
#[derive(Debug, Clone, PartialEq, Eq)]
pub struct StakeTransaction {
    pub validator: Address,
    pub amount: Amount,
    /// None for self-stake.
    pub delegator: Option<Address>,
}

/// A validator registration instruction.
#[derive(Debug, Clone, PartialEq, Eq)]
pub struct ValidatorRegistrationTransaction {
    pub validator_key: PublicKey,
    /// Commission in basis points.
    pub commission_rate: u16,
    pub minimum_stake: Amount,
    pub metadata: ValidatorMetadata,
}

/// The bytes a transaction signs: every field but the signature, integers
/// little-endian, in declared order.
pub open spec fn spec_tx_signing_bytes(tx: Transaction) -> Seq<u8> {
    tx.from.0@ + tx.to.0@ + spec_u64_to_le_bytes(tx.amount) + spec_u64_to_le_bytes(tx.gas_limit)
        + spec_u64_to_le_bytes(tx.gas_price) + spec_u64_to_le_bytes(tx.nonce) + tx.data@
        + spec_u64_to_le_bytes(tx.timestamp)
}

/// The bytes behind a transaction's identity: the signing bytes followed by
/// the signature.
pub open spec fn spec_tx_bytes(tx: Transaction) -> Seq<u8> {
    spec_tx_signing_bytes(tx) + tx.signature.0@
}

/// A transaction's identity: the digest of its bytes.
pub open spec fn spec_tx_hash(tx: Transaction) -> Seq<u8> {
    sha256_of(spec_tx_bytes(tx))
}

/// Structural validity at a given time: it moves value or carries payload,
/// its gas parameters are positive, and it is no more than a day old.
pub open spec fn spec_tx_is_valid_at(tx: Transaction, now: u64) -> bool {
    &&& !(tx.amount == 0 && tx.data@.len() == 0)
    &&& tx.gas_limit != 0
    &&& tx.gas_price != 0
    &&& (now <= tx.timestamp || now - tx.timestamp <= 86400)
}

impl Transaction {
    /// A fresh unsigned transaction stamped with the current time.
    pub fn new(
        from: Address,
        to: Address,
        amount: Amount,
        gas_limit: u64,
        gas_price: u64,
        nonce: Nonce,
        data: Vec<u8>,
    ) -> (r: Self)
        ensures
            r.from == from,
            r.to == to,
            r.amount == amount,
            r.gas_limit == gas_limit,
            r.gas_price == gas_price,
            r.nonce == nonce,
            r.data == data,
            r.signature.0@ =~= Seq::new(64, |i: int| 0u8),
    {
        Transaction {
            from,
            to,
            amount,
            gas_limit,
            gas_price,
            nonce,
            data,
            timestamp: now_seconds(),
            signature: Signature([0u8; 64]),
        }
    }

    /// The signing bytes, materialised.
    fn signing_bytes(&self) -> (r: Vec<u8>)
        ensures
            r@ == spec_tx_signing_bytes(*self),
    {
        let mut out: Vec<u8> = Vec::new();
        append_bytes(&mut out, self.from.0.as_slice());
        append_bytes(&mut out, self.to.0.as_slice());
        let amount_le = u64_to_le_bytes(self.amount);
        append_bytes(&mut out, amount_le.as_slice());
        let gas_limit_le = u64_to_le_bytes(self.gas_limit);
        append_bytes(&mut out, gas_limit_le.as_slice());
        let gas_price_le = u64_to_le_bytes(self.gas_price);
        append_bytes(&mut out, gas_price_le.as_slice());
        let nonce_le = u64_to_le_bytes(self.nonce);
        append_bytes(&mut out, nonce_le.as_slice());
        append_bytes(&mut out, self.data.as_slice());
        let ts_le = u64_to_le_bytes(self.timestamp);
        append_bytes(&mut out, ts_le.as_slice());
        proof {
            assert(out@ =~= spec_tx_signing_bytes(*self));
        }
        out
    }

    /// The digest a signature covers: every field but the signature.
    pub fn hash_for_signature(&self) -> (r: [u8; 32])
        ensures
            r@ == sha256_of(spec_tx_signing_bytes(*self)),
    {
        let bytes = self.signing_bytes();
        Hasher::hash(bytes.as_slice())
    }

    /// The transaction's identity: the digest of all its bytes.
    pub fn hash(&self) -> (r: [u8; 32])
        ensures
            r@ == spec_tx_hash(*self),
    {
        let mut bytes = self.signing_bytes();
        append_bytes(&mut bytes, self.signature.0.as_slice());
        Hasher::hash(bytes.as_slice())
    }

    /// Signs the transaction's signing digest and stores the signature.
    pub fn sign(&mut self, private_key: &PrivateKey)
        ensures
            final(self).signature.0@ == ed25519_sig_of(
                private_key@,
                sha256_of(spec_tx_signing_bytes(*old(self))),
            ),
            ed25519_verifies(
                crate::crypto::signatures::ed25519_pubkey_of(private_key@),
                sha256_of(spec_tx_signing_bytes(*old(self))),
                final(self).signature.0@,
            ),
            spec_tx_signing_bytes(*final(self)) == spec_tx_signing_bytes(*old(self)),
            final(self).from == old(self).from,
            final(self).to == old(self).to,
            final(self).amount == old(self).amount,
            final(self).gas_limit == old(self).gas_limit,
            final(self).gas_price == old(self).gas_price,
            final(self).nonce == old(self).nonce,
            final(self).data == old(self).data,
            final(self).timestamp == old(self).timestamp,
    {
        let hash = self.hash_for_signature();
        let signature = SignatureUtils::sign_hash(private_key, &hash);
        self.signature = signature;
        proof {
            assert(spec_tx_signing_bytes(*self) =~= spec_tx_signing_bytes(*old(self)));
        }
    }

    /// Whether the stored signature verifies over the signing digest under
    /// the given public key.
    pub fn verify_signature(&self, public_key: &PublicKey) -> (r: Result<(), ConsensusError>)
        ensures
            r is Ok <==> ed25519_verifies(
                public_key@,
                sha256_of(spec_tx_signing_bytes(*self)),
                self.signature.0@,
            ),
            r is Err ==> r->Err_0 == ConsensusError::SignatureInvalid,
    {
        let hash = self.hash_for_signature();
        SignatureUtils::verify_hash(public_key, &hash, &self.signature)
    }

    /// Structural validity against the clock.
    pub fn is_valid(&self) -> (r: bool)
        ensures
            r ==> !(self.amount == 0 && self.data@.len() == 0) && self.gas_limit != 0
                && self.gas_price != 0,
    {
        let now = now_seconds();
        self.is_valid_at(now)
    }

    /// Structural validity at a given time, stated exactly.
    pub fn is_valid_at(&self, now: u64) -> (r: bool)
        ensures
            r == spec_tx_is_valid_at(*self, now),
    {
        if self.amount == 0 && self.data.len() == 0 {
            return false;
        }
        if self.gas_limit == 0 || self.gas_price == 0 {
            return false;
        }
        // no more than a day old; timestamps in the future pass
        if now > self.timestamp && now - self.timestamp > 86400 {
            return false;
        }
        true
    }

    /// The fee offered: gas limit times gas price, saturating.
    pub fn fee(&self) -> (r: u64)
        ensures
            r == spec_sat_mul(self.gas_limit, self.gas_price),
    {
        match self.gas_limit.checked_mul(self.gas_price) {
            Some(v) => v,
            None => u64::MAX,
        }
    }

    /// Amount plus fee, saturating.
    pub fn total_cost(&self) -> (r: u64)
        ensures
            r == spec_sat_add(self.amount, spec_sat_mul(self.gas_limit, self.gas_price)),
    {
        self.amount.saturating_add(self.fee())
    }
}

} // verus!
