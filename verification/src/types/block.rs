//! Blocks: headers, the transaction Merkle root, identity, signatures and
//! structural validity.

use crate::crypto::hash::{sha256_of, Hasher};
use crate::crypto::merkle::{spec_merkle_root, view_hashes, MerkleTree};
use crate::crypto::signatures::{ed25519_sig_of, ed25519_verifies, SignatureUtils};
use crate::types::transaction::{spec_sat_add, spec_tx_hash, spec_tx_is_valid_at, Transaction};
use crate::types::{
    append_bytes, now_seconds, zero_hash, Address, ConsensusError, Epoch, PrivateKey, PublicKey,
    Signature, Slot,
};
use vstd::bytes::{spec_u64_to_le_bytes, u64_to_le_bytes};
use vstd::prelude::*;

verus! {

/// A block header.
#[derive(Debug, Clone, Copy, PartialEq, Eq)]
pub struct BlockHeader {
    pub height: u64,
    pub previous_hash: [u8; 32],
    pub merkle_root: [u8; 32],
    pub state_root: [u8; 32],
    /// Seconds since the epoch.
    pub timestamp: u64,
    pub slot: Slot,
    pub epoch: Epoch,
    pub proposer: Address,
    pub proposer_signature: Signature,
    pub randao_reveal: [u8; 32],
    pub gas_limit: u64,
    pub gas_used: u64,
}

/// A block: a header over a list of transactions.
#[derive(Debug, Clone, PartialEq, Eq)]
pub struct Block {
    pub header: BlockHeader,
    pub transactions: Vec<Transaction>,
}

/// The bytes a proposer signs: every header field but the signature,
/// integers little-endian, in declared order.
pub open spec fn spec_header_signing_bytes(h: BlockHeader) -> Seq<u8> {
    spec_u64_to_le_bytes(h.height) + h.previous_hash@ + h.merkle_root@ + h.state_root@
        + spec_u64_to_le_bytes(h.timestamp) + spec_u64_to_le_bytes(h.slot) + spec_u64_to_le_bytes(
        h.epoch,
    ) + h.proposer.0@ + h.randao_reveal@ + spec_u64_to_le_bytes(h.gas_limit)
        + spec_u64_to_le_bytes(h.gas_used)
}

/// The bytes behind a block's identity: the signing bytes followed by the
/// proposer's signature.
pub open spec fn spec_header_bytes(h: BlockHeader) -> Seq<u8> {
    spec_header_signing_bytes(h) + h.proposer_signature.0@
}

/// A block's identity: the digest of its header bytes.
pub open spec fn spec_block_hash(b: Block) -> Seq<u8> {
    sha256_of(spec_header_bytes(b.header))
}

/// The hashes of a list of transactions, in order.
pub open spec fn spec_tx_hashes(txs: Seq<Transaction>) -> Seq<Seq<u8>> {
    txs.map_values(|tx: Transaction| spec_tx_hash(tx))
}

/// The Merkle root of a transaction list: the root over the transaction
/// hashes, the all-zero hash for no transactions.
pub open spec fn spec_tx_merkle_root(txs: Seq<Transaction>) -> Seq<u8> {
    spec_merkle_root(spec_tx_hashes(txs))
}

/// The gas the transactions claim: the saturating sum of their gas limits.
pub open spec fn spec_gas_sum(txs: Seq<Transaction>) -> u64
    decreases txs.len(),
{
    if txs.len() == 0 {
        0u64
    } else {
        spec_sat_add(spec_gas_sum(txs.drop_last()), txs.last().gas_limit)
    }
}

/// Structural validity at a given time: gas within the limit, the recorded
/// Merkle root matches the transactions, and every transaction is valid.
pub open spec fn spec_block_is_valid_at(b: Block, now: u64) -> bool {
    &&& b.header.gas_used <= b.header.gas_limit
    &&& b.header.merkle_root@ == spec_tx_merkle_root(b.transactions@)
    &&& forall|i: int|
        0 <= i < b.transactions@.len() ==> spec_tx_is_valid_at(#[trigger] b.transactions@[i], now)
}

impl Block {
    /// A fresh unsigned block: the Merkle root and claimed gas are computed
    /// from the transactions, and the timestamp from the clock.
    pub fn new(
        height: u64,
        previous_hash: [u8; 32],
        state_root: [u8; 32],
        slot: Slot,
        epoch: Epoch,
        proposer: Address,
        transactions: Vec<Transaction>,
        randao_reveal: [u8; 32],
        gas_limit: u64,
    ) -> (r: Self)
        ensures
            r.header.height == height,
            r.header.previous_hash == previous_hash,
            r.header.merkle_root@ == spec_tx_merkle_root(transactions@),
            r.header.state_root == state_root,
            r.header.slot == slot,
            r.header.epoch == epoch,
            r.header.proposer == proposer,
            r.header.proposer_signature.0@ =~= Seq::new(64, |i: int| 0u8),
            r.header.randao_reveal == randao_reveal,
            r.header.gas_limit == gas_limit,
            r.header.gas_used == spec_gas_sum(transactions@),
            r.transactions == transactions,
    {
        let merkle_root = Self::calculate_merkle_root(transactions.as_slice());
        let gas_used = Self::sum_gas(transactions.as_slice());

        let header = BlockHeader {
            height,
            previous_hash,
            merkle_root,
            state_root,
            timestamp: now_seconds(),
            slot,
            epoch,
            proposer,
            proposer_signature: Signature([0u8; 64]),
            randao_reveal,
            gas_limit,
            gas_used,
        };

        Block { header, transactions }
    }

    /// The saturating sum of the transactions' gas limits.
    fn sum_gas(transactions: &[Transaction]) -> (r: u64)
        ensures
            r == spec_gas_sum(transactions@),
    {
        let mut total: u64 = 0;
        let mut i: usize = 0;
        while i < transactions.len()
            invariant
                i <= transactions@.len(),
                total == spec_gas_sum(transactions@.take(i as int)),
            decreases transactions@.len() - i,
        {
            proof {
                assert(transactions@.take(i as int + 1).drop_last() =~= transactions@.take(
                    i as int,
                ));
                assert(transactions@.take(i as int + 1).last() == transactions@[i as int]);
            }
            total = total.saturating_add(transactions[i].gas_limit);
            i += 1;
        }
        proof {
            assert(transactions@.take(transactions@.len() as int) =~= transactions@);
        }
        total
    }

    /// The block's identity: the digest of its header bytes.
    pub fn hash(&self) -> (r: [u8; 32])
        ensures
            r@ == spec_block_hash(*self),
    {
        let mut bytes = Self::header_signing_bytes(&self.header);
        append_bytes(&mut bytes, self.header.proposer_signature.0.as_slice());
        Hasher::hash(bytes.as_slice())
    }

    /// The header's signing bytes, materialised.
    fn header_signing_bytes(h: &BlockHeader) -> (r: Vec<u8>)
        ensures
            r@ == spec_header_signing_bytes(*h),
    {
        let mut out: Vec<u8> = Vec::new();
        let height_le = u64_to_le_bytes(h.height);
        append_bytes(&mut out, height_le.as_slice());
        append_bytes(&mut out, h.previous_hash.as_slice());
        append_bytes(&mut out, h.merkle_root.as_slice());
        append_bytes(&mut out, h.state_root.as_slice());
        let ts_le = u64_to_le_bytes(h.timestamp);
        append_bytes(&mut out, ts_le.as_slice());
        let slot_le = u64_to_le_bytes(h.slot);
        append_bytes(&mut out, slot_le.as_slice());
        let epoch_le = u64_to_le_bytes(h.epoch);
        append_bytes(&mut out, epoch_le.as_slice());
        append_bytes(&mut out, h.proposer.0.as_slice());
        append_bytes(&mut out, h.randao_reveal.as_slice());
        let gas_limit_le = u64_to_le_bytes(h.gas_limit);
        append_bytes(&mut out, gas_limit_le.as_slice());
        let gas_used_le = u64_to_le_bytes(h.gas_used);
        append_bytes(&mut out, gas_used_le.as_slice());
        proof {
            assert(out@ =~= spec_header_signing_bytes(*h));
        }
        out
    }

    /// The digest the proposer signs: every header field but the signature.
    pub fn hash_for_signature(&self) -> (r: [u8; 32])
        ensures
            r@ == sha256_of(spec_header_signing_bytes(self.header)),
    {
        let bytes = Self::header_signing_bytes(&self.header);
        Hasher::hash(bytes.as_slice())
    }

    /// Signs the header's signing digest and stores the signature.
    pub fn sign(&mut self, private_key: &PrivateKey)
        ensures
            final(self).header.proposer_signature.0@ == ed25519_sig_of(
                private_key@,
                sha256_of(spec_header_signing_bytes(old(self).header)),
            ),
            ed25519_verifies(
                crate::crypto::signatures::ed25519_pubkey_of(private_key@),
                sha256_of(spec_header_signing_bytes(old(self).header)),
                final(self).header.proposer_signature.0@,
            ),
            spec_header_signing_bytes(final(self).header) == spec_header_signing_bytes(
                old(self).header,
            ),
            final(self).transactions == old(self).transactions,
            final(self).header.height == old(self).header.height,
            final(self).header.previous_hash == old(self).header.previous_hash,
            final(self).header.merkle_root == old(self).header.merkle_root,
            final(self).header.state_root == old(self).header.state_root,
            final(self).header.timestamp == old(self).header.timestamp,
            final(self).header.slot == old(self).header.slot,
            final(self).header.epoch == old(self).header.epoch,
            final(self).header.proposer == old(self).header.proposer,
            final(self).header.randao_reveal == old(self).header.randao_reveal,
            final(self).header.gas_limit == old(self).header.gas_limit,
            final(self).header.gas_used == old(self).header.gas_used,
    {
        let hash = self.hash_for_signature();
        let signature = SignatureUtils::sign_hash(private_key, &hash);
        self.header.proposer_signature = signature;
        proof {
            assert(spec_header_signing_bytes(self.header) =~= spec_header_signing_bytes(
                old(self).header,
            ));
        }
    }

    /// Whether the stored proposer signature verifies over the signing
    /// digest under the given public key.
    pub fn verify_signature(&self, public_key: &PublicKey) -> (r: Result<(), ConsensusError>)
        ensures
            r is Ok <==> ed25519_verifies(
                public_key@,
                sha256_of(spec_header_signing_bytes(self.header)),
                self.header.proposer_signature.0@,
            ),
            r is Err ==> r->Err_0 == ConsensusError::SignatureInvalid,
    {
        let hash = self.hash_for_signature();
        SignatureUtils::verify_hash(public_key, &hash, &self.header.proposer_signature)
    }

    /// Structural validity against the clock.
    pub fn is_valid(&self) -> (r: bool)
        ensures
            r ==> self.header.gas_used <= self.header.gas_limit && self.header.merkle_root@
                == spec_tx_merkle_root(self.transactions@),
    {
        let now = now_seconds();
        self.is_valid_at(now)
    }

    /// Structural validity at a given time, stated exactly.
    pub fn is_valid_at(&self, now: u64) -> (r: bool)
        ensures
            r == spec_block_is_valid_at(*self, now),
    {
        if self.header.gas_used > self.header.gas_limit {
            return false;
        }

        let computed_root = Self::calculate_merkle_root(self.transactions.as_slice());
        if !crate::types::hash_eq(&self.header.merkle_root, &computed_root) {
            return false;
        }

        let mut i: usize = 0;
        while i < self.transactions.len()
            invariant
                i <= self.transactions@.len(),
                forall|j: int|
                    0 <= j < i ==> spec_tx_is_valid_at(#[trigger] self.transactions@[j], now),
            decreases self.transactions@.len() - i,
        {
            if !self.transactions[i].is_valid_at(now) {
                return false;
            }
            i += 1;
        }

        true
    }

    /// The Merkle root of a transaction list.
    pub fn calculate_merkle_root(transactions: &[Transaction]) -> (r: [u8; 32])
        ensures
            r@ == spec_tx_merkle_root(transactions@),
    {
        if transactions.len() == 0 {
            let r = zero_hash();
            proof {
                assert(spec_tx_hashes(transactions@).len() == 0);
            }
            return r;
        }

        let mut hashes: Vec<[u8; 32]> = Vec::new();
        let mut i: usize = 0;
        while i < transactions.len()
            invariant
                i <= transactions@.len(),
                hashes@.len() == i,
                forall|j: int| 0 <= j < i ==> (#[trigger] hashes@[j])@ == spec_tx_hash(
                    transactions@[j],
                ),
            decreases transactions@.len() - i,
        {
            hashes.push(transactions[i].hash());
            i += 1;
        }
        let tree = MerkleTree::new(hashes);
        proof {
            assert(view_hashes(tree.leaves@) =~= spec_tx_hashes(transactions@));
        }
        tree.root
    }
}

impl Default for Block {
    fn default() -> (r: Self)
        ensures
            r.header.height == 0,
            r.header.previous_hash@ == crate::types::spec_zero_hash(),
            r.header.merkle_root@ == crate::types::spec_zero_hash(),
            r.header.state_root@ == crate::types::spec_zero_hash(),
            r.header.slot == 0,
            r.header.epoch == 0,
            r.header.proposer.0@ == crate::types::spec_zero_hash(),
            r.header.proposer_signature.0@ =~= Seq::new(64, |i: int| 0u8),
            r.header.randao_reveal@ == crate::types::spec_zero_hash(),
            r.header.gas_limit == 1_000_000,
            r.header.gas_used == 0,
            r.transactions@.len() == 0,
    {
        Block {
            header: BlockHeader {
                height: 0,
                previous_hash: zero_hash(),
                merkle_root: zero_hash(),
                state_root: zero_hash(),
                timestamp: now_seconds(),
                slot: 0,
                epoch: 0,
                proposer: Address(zero_hash()),
                proposer_signature: Signature([0u8; 64]),
                randao_reveal: zero_hash(),
                gas_limit: 1_000_000,
                gas_used: 0,
            },
            transactions: Vec::new(),
        }
    }
}

/// Whether two transactions carry the same content, their payloads byte by
/// byte.
pub open spec fn spec_tx_matches(a: Transaction, b: Transaction) -> bool {
    &&& a.from == b.from
    &&& a.to == b.to
    &&& a.amount == b.amount
    &&& a.gas_limit == b.gas_limit
    &&& a.gas_price == b.gas_price
    &&& a.nonce == b.nonce
    &&& a.data@ == b.data@
    &&& a.timestamp == b.timestamp
    &&& a.signature == b.signature
}

/// Whether two blocks carry the same content: equal headers and matching
/// transactions. Such blocks hash alike and behave alike.
pub open spec fn spec_block_matches(a: Block, b: Block) -> bool {
    &&& a.header == b.header
    &&& a.transactions@.len() == b.transactions@.len()
    &&& forall|i: int|
        0 <= i < a.transactions@.len() ==> spec_tx_matches(
            #[trigger] a.transactions@[i],
            b.transactions@[i],
        )
}

impl Transaction {
    /// Copies a transaction: every field carries over, the payload by bytes.
    pub fn clone_transaction(&self) -> (r: Transaction)
        ensures
            spec_tx_matches(r, *self),
    {
        let mut data: Vec<u8> = Vec::new();
        append_bytes(&mut data, self.data.as_slice());
        proof {
            assert(data@ =~= self.data@);
        }
        Transaction {
            from: self.from,
            to: self.to,
            amount: self.amount,
            gas_limit: self.gas_limit,
            gas_price: self.gas_price,
            nonce: self.nonce,
            data,
            timestamp: self.timestamp,
            signature: self.signature,
        }
    }
}

impl Block {
    /// Copies a block: the header carries over and each transaction is
    /// copied in place.
    pub fn clone_block(&self) -> (r: Block)
        ensures
            spec_block_matches(r, *self),
            r.header == self.header,
    {
        let mut transactions: Vec<Transaction> = Vec::new();
        let mut i: usize = 0;
        while i < self.transactions.len()
            invariant
                i <= self.transactions@.len(),
                transactions@.len() == i,
                forall|j: int|
                    0 <= j < i ==> spec_tx_matches(
                        #[trigger] transactions@[j],
                        self.transactions@[j],
                    ),
            decreases self.transactions@.len() - i,
        {
            transactions.push(self.transactions[i].clone_transaction());
            i += 1;
        }
        Block { header: self.header, transactions }
    }
}

} // verus!
