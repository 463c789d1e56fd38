//! The validator service: the node's own key, its duty switch, and the
//! attestations it produces.

use crate::crypto::keys::KeyPair;
use crate::crypto::hash::sha256_of;
use crate::crypto::signatures::ed25519_sig_of;
use crate::types::block::{spec_header_signing_bytes, Block};
use crate::types::consensus::Attestation;
use crate::types::{Address, ConsensusError, PrivateKey, Signature, Slot};
use vstd::prelude::*;

verus! {

/// The node's validating identity: an optional key pair and whether duties
/// are being performed.
pub struct ValidatorService {
    keypair: Option<KeyPair>,
    is_active: bool,
}

impl ValidatorService {
    /// The loaded key pair, if any.
    pub closed spec fn spec_keypair(&self) -> Option<KeyPair> {
        self.keypair
    }

    /// Whether duties are being performed.
    pub closed spec fn spec_is_active(&self) -> bool {
        self.is_active
    }

    /// Any loaded key pair is internally consistent.
    pub closed spec fn wf(&self) -> bool {
        self.keypair is Some ==> self.keypair->0.wf()
    }

    pub fn new() -> (r: Self)
        ensures
            r.wf(),
            r.spec_keypair() is None,
            !r.spec_is_active(),
    {
        ValidatorService { keypair: None, is_active: false }
    }

    /// Loads the key pair of a secret key.
    pub fn load_keypair(&mut self, private_key: PrivateKey) -> (r: Result<(), ConsensusError>)
        ensures
            r is Ok,
            final(self).wf(),
            final(self).spec_keypair() is Some,
            final(self).spec_keypair()->0.private_key == private_key,
            final(self).spec_is_active() == old(self).spec_is_active(),
    {
        let keypair = match KeyPair::from_private_key(private_key) {
            Ok(k) => k,
            Err(e) => {
                return Err(e);
            },
        };
        self.keypair = Some(keypair);
        Ok(())
    }

    /// Starts performing duties; fails while no key pair is loaded.
    pub fn start_validating(&mut self) -> (r: Result<(), ConsensusError>)
        requires
            old(self).wf(),
        ensures
            final(self).wf(),
            r is Ok <==> old(self).spec_keypair() is Some,
            r is Ok ==> final(self).spec_is_active() && final(self).spec_keypair() == old(
                self,
            ).spec_keypair(),
            r is Err ==> *final(self) == *old(self) && r->Err_0 == ConsensusError::NotFound,
    {
        if self.keypair.is_none() {
            return Err(ConsensusError::NotFound);
        }
        self.is_active = true;
        Ok(())
    }

    /// Stops performing duties.
    pub fn stop_validating(&mut self)
        ensures
            !final(self).spec_is_active(),
            final(self).spec_keypair() == old(self).spec_keypair(),
    {
        self.is_active = false;
    }

    /// Whether duties are being performed.
    pub fn is_active(&self) -> (r: bool)
        ensures
            r == self.spec_is_active(),
    {
        self.is_active
    }

    /// The loaded key's address, if any.
    pub fn get_address(&self) -> (r: Option<Address>)
        ensures
            match r {
                Some(a) => self.spec_keypair() is Some && a == self.spec_keypair()->0.address,
                None => self.spec_keypair() is None,
            },
    {
        match &self.keypair {
            Some(kp) => Some(kp.address),
            None => None,
        }
    }

    /// Signs a block with the loaded key; fails while none is loaded.
    pub fn sign_block(&self, block: &mut Block) -> (r: Result<(), ConsensusError>)
        ensures
            r is Ok <==> self.spec_keypair() is Some,
            r is Err ==> *final(block) == *old(block) && r->Err_0 == ConsensusError::NotFound,
            r is Ok ==> {
                let sk = self.spec_keypair()->0.private_key;
                &&& final(block).header.proposer_signature.0@ == ed25519_sig_of(
                    sk@,
                    sha256_of(spec_header_signing_bytes(old(block).header)),
                )
                &&& spec_header_signing_bytes(final(block).header) == spec_header_signing_bytes(
                    old(block).header,
                )
                &&& final(block).transactions == old(block).transactions
            },
    {
        match &self.keypair {
            Some(keypair) => {
                block.sign(&keypair.private_key);
                Ok(())
            },
            None => Err(ConsensusError::NotFound),
        }
    }

    /// An attestation for a slot and head, targeted at the head with the
    /// epoch the slot falls in; fails while no key pair is loaded.
    pub fn create_attestation(&self, slot: Slot, beacon_block_root: [u8; 32]) -> (r: Result<
        Attestation,
        ConsensusError,
    >)
        ensures
            r is Ok <==> self.spec_keypair() is Some,
            r is Err ==> r->Err_0 == ConsensusError::NotFound,
            r is Ok ==> {
                let a = r->Ok_0;
                &&& a.slot == slot
                &&& a.beacon_block_root == beacon_block_root
                &&& a.source_epoch == 0
                &&& a.source_root@ == crate::types::spec_zero_hash()
                &&& a.target_epoch == slot / 32
                &&& a.target_root == beacon_block_root
                &&& a.validator_index == 0
            },
    {
        if self.keypair.is_none() {
            return Err(ConsensusError::NotFound);
        }

        let attestation = Attestation {
            slot,
            beacon_block_root,
            source_epoch: 0,
            source_root: crate::types::zero_hash(),
            target_epoch: slot / 32,
            target_root: beacon_block_root,
            validator_index: 0,
            signature: Signature([0u8; 64]),
        };
        Ok(attestation)
    }
}

impl Default for ValidatorService {
    fn default() -> (r: Self)
        ensures
            r.wf(),
            r.spec_keypair() is None,
            !r.spec_is_active(),
    {
        Self::new()
    }
}

} // verus!
