//! Equivocation detection: proposer double-signing and attester double or
//! surround votes, and the penalty they draw.

use crate::types::consensus::{Attestation, AttesterSlashing, IndexedAttestation, ProposerSlashing,
    SignedBlockHeader};
use crate::types::validator::Validator;
use crate::types::{Amount, ConsensusError, Epoch};
use vstd::prelude::*;

verus! {

/// Detects equivocation and applies the penalties it draws.
pub struct SlashingProcessor {}

/// Whether two signed headers convict their proposer: the same slot and
/// proposer, but not the same header.
pub open spec fn spec_proposer_equivocation(b1: SignedBlockHeader, b2: SignedBlockHeader) -> bool {
    b1.header.slot == b2.header.slot && b1.header.proposer_index == b2.header.proposer_index
        && b1.header != b2.header
}

/// Whether two attestations by one validator are a double vote: the same
/// target epoch with different target roots.
pub open spec fn spec_double_vote(a1: Attestation, a2: Attestation) -> bool {
    a1.target_epoch == a2.target_epoch && a1.target_root@ != a2.target_root@
}

/// Whether the first attestation surrounds the second: its source is
/// strictly earlier and its target strictly later.
pub open spec fn spec_surround_vote(a1: Attestation, a2: Attestation) -> bool {
    a1.source_epoch < a2.source_epoch && a2.target_epoch < a1.target_epoch
}

/// Whether two attestations convict their overlapping attester.
pub open spec fn spec_attester_equivocation(a1: Attestation, a2: Attestation) -> bool {
    a1.validator_index == a2.validator_index && (spec_double_vote(a1, a2) || spec_surround_vote(
        a1,
        a2,
    ) || spec_surround_vote(a2, a1))
}

/// The deterministic penalty for a conviction: the stake over the penalty
/// quotient, and one at the least.
pub open spec fn spec_penalty(v: Validator, quotient: u64) -> u64 {
    if quotient == 0 {
        1u64
    } else if v.spec_total_stake() / quotient > 1 {
        (v.spec_total_stake() / quotient) as u64
    } else {
        1u64
    }
}

impl SlashingProcessor {
    pub fn new() -> (r: Self) {
        SlashingProcessor {  }
    }

    /// Convicts a proposer who signed two distinct headers at one slot.
    pub fn check_proposer_slashing(
        &self,
        header_1: &SignedBlockHeader,
        header_2: &SignedBlockHeader,
    ) -> (r: Result<Option<ProposerSlashing>, ConsensusError>)
        ensures
            r is Ok,
            r->Ok_0 is Some <==> spec_proposer_equivocation(*header_1, *header_2),
            r->Ok_0 is Some ==> r->Ok_0->0.signed_header_1 == *header_1 && r->Ok_0->0.signed_header_2
                == *header_2,
    {
        let headers_equal = header_1.header.slot == header_2.header.slot
            && header_1.header.proposer_index == header_2.header.proposer_index
            && crate::types::hash_eq(&header_1.header.parent_root, &header_2.header.parent_root)
            && crate::types::hash_eq(&header_1.header.state_root, &header_2.header.state_root)
            && crate::types::hash_eq(&header_1.header.body_root, &header_2.header.body_root);
        proof {
            if headers_equal {
                assert(header_1.header.parent_root =~= header_2.header.parent_root);
                assert(header_1.header.state_root =~= header_2.header.state_root);
                assert(header_1.header.body_root =~= header_2.header.body_root);
                assert(header_1.header == header_2.header);
            } else {
                if header_1.header == header_2.header {
                    assert(header_1.header.parent_root@ == header_2.header.parent_root@);
                    assert(header_1.header.state_root@ == header_2.header.state_root@);
                    assert(header_1.header.body_root@ == header_2.header.body_root@);
                    assert(false);
                }
            }
        }
        if header_1.header.slot == header_2.header.slot && header_1.header.proposer_index
            == header_2.header.proposer_index && !headers_equal {
            Ok(
                Some(
                    ProposerSlashing { signed_header_1: *header_1, signed_header_2: *header_2 },
                ),
            )
        } else {
            Ok(None)
        }
    }

    /// Convicts an attester who voted doubly or in a surround.
    pub fn check_attester_slashing(&self, att_1: &Attestation, att_2: &Attestation) -> (r: Result<
        Option<AttesterSlashing>,
        ConsensusError,
    >)
        ensures
            r is Ok,
            r->Ok_0 is Some <==> spec_attester_equivocation(*att_1, *att_2),
            r->Ok_0 is Some ==> {
                let s = r->Ok_0->0;
                &&& s.attestation_1.attesting_indices@ == seq![att_1.validator_index]
                &&& s.attestation_2.attesting_indices@ == seq![att_2.validator_index]
            },
    {
        if att_1.validator_index != att_2.validator_index {
            return Ok(None);
        }
        let double_vote = att_1.target_epoch == att_2.target_epoch && !crate::types::hash_eq(
            &att_1.target_root,
            &att_2.target_root,
        );

        let surround_1 = att_1.source_epoch < att_2.source_epoch && att_2.target_epoch
            < att_1.target_epoch;
        let surround_2 = att_2.source_epoch < att_1.source_epoch && att_1.target_epoch
            < att_2.target_epoch;
        if double_vote || surround_1 || surround_2 {
            let mut indices_1: Vec<u64> = Vec::new();
            indices_1.push(att_1.validator_index);
            let mut indices_2: Vec<u64> = Vec::new();
            indices_2.push(att_2.validator_index);
            proof {
                assert(indices_1@ =~= seq![att_1.validator_index]);
                assert(indices_2@ =~= seq![att_2.validator_index]);
            }
            Ok(
                Some(
                    AttesterSlashing {
                        attestation_1: IndexedAttestation {
                            attesting_indices: indices_1,
                            data: Self::attestation_data(att_1),
                            signature: att_1.signature,
                        },
                        attestation_2: IndexedAttestation {
                            attesting_indices: indices_2,
                            data: Self::attestation_data(att_2),
                            signature: att_2.signature,
                        },
                    },
                ),
            )
        } else {
            Ok(None)
        }
    }

    /// The committed data of an attestation, as slashing evidence carries it.
    fn attestation_data(a: &Attestation) -> (r: crate::types::consensus::AttestationData)
        ensures
            r.slot == a.slot,
            r.beacon_block_root == a.beacon_block_root,
            r.source.epoch == a.source_epoch,
            r.source.root == a.source_root,
            r.target.epoch == a.target_epoch,
            r.target.root == a.target_root,
    {
        crate::types::consensus::AttestationData {
            slot: a.slot,
            beacon_block_root: a.beacon_block_root,
            source: crate::types::consensus::Checkpoint { epoch: a.source_epoch, root: a.source_root },
            target: crate::types::consensus::Checkpoint { epoch: a.target_epoch, root: a.target_root },
        }
    }

    /// The penalty a conviction draws from a validator's stake.
    pub fn compute_penalty(&self, validator: &Validator, quotient: u64) -> (r: Amount)
        ensures
            r == spec_penalty(*validator, quotient),
            r >= 1,
    {
        if quotient == 0 {
            return 1;
        }
        let share = validator.total_stake() / quotient;
        if share > 1 {
            share
        } else {
            1
        }
    }

    /// Applies a penalty to a validator at an epoch.
    pub fn process_slashing(
        &mut self,
        validator: &mut Validator,
        amount: Amount,
        epoch: Epoch,
    ) -> (r: Result<(), ConsensusError>)
        ensures
            r is Ok,
            final(validator).stake == if old(validator).stake >= amount {
                old(validator).stake - amount
            } else {
                0
            },
            final(validator).performance.last_slash_epoch == Some(epoch),
            final(validator).delegated_stake == old(validator).delegated_stake,
            final(validator).address == old(validator).address,
    {
        validator.slash(amount, epoch);
        Ok(())
    }
}

impl Default for SlashingProcessor {
    fn default() -> (r: Self) {
        Self::new()
    }
}

} // verus!
