//! The consensus engine: block and attestation processing over fork choice
//! and the validator set, the slot/epoch clock, and epoch finalization with
//! rewards and ejection.

use crate::assoc::assoc_find;
use crate::consensus::fork_choice::{
    spec_attestation_applied, spec_get_head, ForkChoice,
};
use crate::consensus::proposer_selection::{spec_slot_randomness, ProposerSelector};
use crate::crypto::hash::sha256_of;
use crate::crypto::signatures::ed25519_verifies;
use crate::types::block::{
    spec_block_hash, spec_block_is_valid_at, spec_block_matches, spec_header_signing_bytes, Block,
};
use crate::types::consensus::{Attestation, ConsensusConfig};
use crate::types::transaction::{spec_sat_add, spec_sat_mul, Transaction};
use crate::types::validator::{
    clone_validator, spec_active_validators, spec_pick_by_stake, spec_sum_stakes, Validator,
    ValidatorSet, ValidatorStatus,
};
use crate::types::{address_eq, now_seconds, Address, ConsensusError, Epoch, Slot};
use vstd::prelude::*;

verus! {

/// Whether a list of validators carries pairwise distinct addresses.
pub open spec fn spec_distinct_addresses(vs: Seq<Validator>) -> bool {
    forall|i: int, j: int| 0 <= i < j < vs.len() ==> vs[i].address != vs[j].address
}

/// The engine over everything it owns: configuration, fork choice, the
/// validator set, the clock, and the selector.
#[derive(Debug, Clone)]
pub struct ConsensusEngine {
    pub config: ConsensusConfig,
    pub fork_choice: ForkChoice,
    pub validator_set: ValidatorSet,
    pub current_epoch: Epoch,
    pub current_slot: Slot,
    pub proposer_selector: ProposerSelector,
}

/// What accepting a block leaves in fork choice: a block of the same
/// content stored under the block's identity, the boost on it, and
/// everything else untouched.
pub open spec fn spec_block_recorded(pre: ForkChoice, post: ForkChoice, block: Block) -> bool {
    &&& forall|k: [u8; 32]|
        k@ == spec_block_hash(block) ==> (#[trigger] assoc_find(post.blocks@, k)) is Some
            && spec_block_matches(assoc_find(post.blocks@, k)->0, block)
    &&& forall|k: [u8; 32]|
        k@ != spec_block_hash(block) ==> #[trigger] assoc_find(post.blocks@, k) == assoc_find(
            pre.blocks@,
            k,
        )
    &&& post.proposer_boost_root is Some && (post.proposer_boost_root->0)@ == spec_block_hash(
        block,
    )
    &&& post.votes == pre.votes
    &&& post.latest_messages == pre.latest_messages
    &&& post.justified_checkpoint == pre.justified_checkpoint
    &&& post.finalized_checkpoint == pre.finalized_checkpoint
    &&& post.blocks@.len() <= pre.blocks@.len() + 1
}

/// The checks a block passes before it is accepted, in order: structure,
/// proposer, signature, slot monotonicity, and epoch derivation.
pub open spec fn spec_validate_block(
    engine: ConsensusEngine,
    block: Block,
    now: u64,
) -> Result<(), ConsensusError> {
    let picked = spec_pick_by_stake(
        spec_active_validators(engine.validator_set.validators@, engine.validator_set.min_stake),
        spec_slot_randomness(block.header.slot),
    );
    if !spec_block_is_valid_at(block, now) {
        Err(ConsensusError::StructuralInvalid)
    } else if picked is None {
        Err(ConsensusError::NotFound)
    } else if picked->0 != block.header.proposer {
        Err(ConsensusError::AuthorityMismatch)
    } else if engine.validator_set.spec_get(block.header.proposer) is None {
        Err(ConsensusError::NotFound)
    } else if !ed25519_verifies(
        engine.validator_set.spec_get(block.header.proposer)->0.public_key@,
        sha256_of(spec_header_signing_bytes(block.header)),
        block.header.proposer_signature.0@,
    ) {
        Err(ConsensusError::SignatureInvalid)
    } else if block.header.slot <= engine.current_slot {
        Err(ConsensusError::NonMonotonic)
    } else if block.header.epoch != block.header.slot / engine.config.slots_per_epoch {
        Err(ConsensusError::StructuralInvalid)
    } else {
        Ok(())
    }
}

/// The reward one validator earns in an epoch: the floor of its
/// stake-proportional share of the epoch's rewards times its proposal and
/// attestation ratios, taken as one division; a ratio without duties counts
/// as a full one.
pub open spec fn spec_reward_of(v: Validator, total_rewards: u64, set_total: u64) -> u64 {
    if !v.spec_is_active() || set_total == 0 {
        0u64
    } else {
        let base = v.spec_total_stake() as int * total_rewards as int / set_total as int;
        let bp = v.performance.blocks_proposed as int;
        let proposals = bp + v.performance.blocks_missed as int;
        let am = v.performance.attestations_made as int;
        let attestations = am + v.performance.attestations_missed as int;
        let reward = if proposals == 0 && attestations == 0 {
            base
        } else if attestations == 0 {
            base * bp / proposals
        } else if proposals == 0 {
            base * am / attestations
        } else {
            base * bp * am / (proposals * attestations)
        };
        reward as u64
    }
}

/// One epoch of rewards applied front to back: each active validator's
/// stake grows by its reward where both its own stake and the cached total
/// can take it; a reward that neither can take is deliberately forgone, so
/// the cached total stays the sum of the members at the largest amounts.
/// The grown total comes second.
pub open spec fn spec_rewards_applied(
    vs: Seq<(Address, Validator)>,
    total_rewards: u64,
    set_total: u64,
    cache: u64,
) -> (Seq<(Address, Validator)>, u64)
    decreases vs.len(),
{
    if vs.len() == 0 {
        (Seq::empty(), cache)
    } else {
        let (a, v) = vs.first();
        let reward = spec_reward_of(v, total_rewards, set_total);
        let fits = v.spec_total_stake() + reward <= u64::MAX && cache + reward <= u64::MAX;
        let (nv, nc) = if reward > 0 && fits {
            (Validator { stake: (v.stake + reward) as u64, ..v }, (cache + reward) as u64)
        } else {
            (v, cache)
        };
        let (rest, fc) = spec_rewards_applied(vs.drop_first(), total_rewards, set_total, nc);
        (seq![(a, nv)] + rest, fc)
    }
}

/// The ejection pass: every member whose stake falls under the ejection
/// balance turns Exiting.
pub open spec fn spec_ejections_marked(
    vs: Seq<(Address, Validator)>,
    ejection_balance: u64,
) -> Seq<(Address, Validator)> {
    vs.map_values(
        |p: (Address, Validator)|
            if p.1.spec_total_stake() < ejection_balance {
                (p.0, Validator { status: ValidatorStatus::Exiting, ..p.1 })
            } else {
                p
            },
    )
}

/// Whether a member has waited out its withdrawal delay and leaves the set.
pub open spec fn spec_withdrawable(v: Validator, epoch: Epoch, delay: Epoch) -> bool {
    v.status == ValidatorStatus::Exiting && epoch >= spec_sat_add(v.last_active_epoch, delay)
}

/// The members that stay after the withdrawal pass, in order.
pub open spec fn spec_after_withdrawals(
    vs: Seq<(Address, Validator)>,
    epoch: Epoch,
    delay: Epoch,
) -> Seq<(Address, Validator)>
    decreases vs.len(),
{
    if vs.len() == 0 {
        Seq::empty()
    } else {
        let rest = spec_after_withdrawals(vs.drop_last(), epoch, delay);
        if spec_withdrawable(vs.last().1, epoch, delay) {
            rest
        } else {
            rest.push(vs.last())
        }
    }
}

impl ConsensusEngine {
    /// The engine's stores are well formed and the clock can be divided
    /// into epochs.
    pub open spec fn wf(&self) -> bool {
        self.fork_choice.wf() && self.validator_set.wf() && self.config.slots_per_epoch > 0
    }

    /// An engine at genesis over a validator set seeded with the given
    /// members; fails where one of them cannot be admitted.
    pub fn new(config: ConsensusConfig, genesis_validators: Vec<Validator>) -> (r: Result<
        Self,
        ConsensusError,
    >)
        requires
            config.slots_per_epoch > 0,
        ensures
            r is Ok ==> {
                let engine = r->Ok_0;
                &&& engine.wf()
                &&& engine.config == config
                &&& engine.current_epoch == 0
                &&& engine.current_slot == 0
                &&& engine.fork_choice.blocks@.len() == 0
                &&& engine.fork_choice.votes@.len() == 0
                &&& engine.fork_choice.latest_messages@.len() == 0
                &&& engine.validator_set.min_stake == config.min_deposit_amount
                &&& engine.validator_set.max_validators == 1000
                &&& engine.validator_set.epoch == 0
                &&& engine.validator_set.validators@.len() <= genesis_validators@.len()
                &&& (spec_distinct_addresses(genesis_validators@) ==> forall|j: int|
                    0 <= j < genesis_validators@.len() ==> engine.validator_set.spec_get(
                        (#[trigger] genesis_validators@[j]).address,
                    ) == Some(genesis_validators@[j]))
            },
            r is Err ==> r->Err_0 == ConsensusError::CapacityExceeded || r->Err_0
                == ConsensusError::InsufficientStake,
    {
        let mut validator_set = ValidatorSet::new(config.min_deposit_amount, 1000, 0);

        let mut i: usize = 0;
        while i < genesis_validators.len()
            invariant
                i <= genesis_validators@.len(),
                validator_set.wf(),
                validator_set.min_stake == config.min_deposit_amount,
                validator_set.max_validators == 1000,
                validator_set.epoch == 0,
                validator_set.validators@.len() <= i,
                spec_distinct_addresses(genesis_validators@) ==> forall|j: int|
                    0 <= j < i ==> validator_set.spec_get(
                        (#[trigger] genesis_validators@[j]).address,
                    ) == Some(genesis_validators@[j]),
            decreases genesis_validators@.len() - i,
        {
            let validator = clone_validator(&genesis_validators[i]);
            match validator_set.add_validator(validator) {
                Ok(_) => {},
                Err(e) => {
                    return Err(e);
                },
            }
            i += 1;
        }

        let fork_choice = ForkChoice::new();
        let proposer_selector = ProposerSelector::new(config);

        Ok(
            ConsensusEngine {
                config,
                fork_choice,
                validator_set,
                current_epoch: 0,
                current_slot: 0,
                proposer_selector,
            },
        )
    }

    /// Validates a block against the clock and, on success, hands it to
    /// fork choice and advances the slot and epoch.
    pub fn process_block(&mut self, block: &Block) -> (r: Result<(), ConsensusError>)
        requires
            old(self).wf(),
        ensures
            final(self).wf(),
            r is Err ==> *final(self) == *old(self),
            r is Ok ==> spec_block_recorded(old(self).fork_choice, final(self).fork_choice, *block)
                && final(self).current_slot == block.header.slot && final(self).current_epoch
                == block.header.epoch && final(self).validator_set == old(self).validator_set
                && final(self).config == old(self).config,
    {
        let now = now_seconds();
        self.process_block_at(block, now)
    }

    /// Validates a block at a given time and, on success, hands it to fork
    /// choice and advances the slot and epoch; the checks and their errors
    /// are stated exactly.
    pub fn process_block_at(&mut self, block: &Block, now: u64) -> (r: Result<(), ConsensusError>)
        requires
            old(self).wf(),
        ensures
            final(self).wf(),
            r == spec_validate_block(*old(self), *block, now),
            r is Err ==> *final(self) == *old(self),
            r is Ok ==> spec_block_recorded(old(self).fork_choice, final(self).fork_choice, *block)
                && final(self).current_slot == block.header.slot && final(self).current_epoch
                == block.header.epoch && final(self).validator_set == old(self).validator_set
                && final(self).config == old(self).config,
    {
        match self.validate_block_at(block, now) {
            Ok(_) => {},
            Err(e) => {
                return Err(e);
            },
        }

        let ghost pre = self.fork_choice;
        let copied = block.clone_block();
        proof {
            assert(spec_block_hash(copied) == spec_block_hash(*block));
        }
        self.fork_choice.add_block(copied);
        proof {
            assert(spec_block_recorded(pre, self.fork_choice, *block));
        }

        self.current_slot = block.header.slot;
        self.current_epoch = block.header.epoch;

        let r = self.process_validator_updates(block);
        proof {
            assert(r is Ok);
        }
        Ok(())
    }

    /// Validates a block against the clock; the exact checks are those of
    /// `validate_block_at`.
    pub fn validate_block(&self, block: &Block) -> (r: Result<(), ConsensusError>)
        requires
            self.wf(),
        ensures
            r is Ok ==> block.header.slot > self.current_slot && block.header.epoch
                == block.header.slot / self.config.slots_per_epoch,
    {
        let now = now_seconds();
        self.validate_block_at(block, now)
    }

    /// Every acceptance check at a given time, stated exactly: structure,
    /// expected proposer, proposer signature, slot monotonicity, and epoch
    /// derivation.
    pub fn validate_block_at(&self, block: &Block, now: u64) -> (r: Result<(), ConsensusError>)
        requires
            self.wf(),
        ensures
            r == spec_validate_block(*self, *block, now),
    {
        if !block.is_valid_at(now) {
            return Err(ConsensusError::StructuralInvalid);
        }

        // the slot's one proposer must have produced the block
        let expected_proposer = match self.get_proposer_for_slot(block.header.slot) {
            Ok(a) => a,
            Err(e) => {
                return Err(e);
            },
        };
        if !address_eq(&block.header.proposer, &expected_proposer) {
            return Err(ConsensusError::AuthorityMismatch);
        }

        let public_key = match self.validator_set.get_validator(&block.header.proposer) {
            Some(v) => v.public_key,
            None => {
                return Err(ConsensusError::NotFound);
            },
        };

        match block.verify_signature(&public_key) {
            Ok(_) => {},
            Err(e) => {
                return Err(e);
            },
        }

        if block.header.slot <= self.current_slot {
            return Err(ConsensusError::NonMonotonic);
        }

        let expected_epoch = self.slot_to_epoch(block.header.slot);
        if block.header.epoch != expected_epoch {
            return Err(ConsensusError::StructuralInvalid);
        }

        Ok(())
    }

    /// The proposer for a slot under the current validator set.
    pub fn get_proposer_for_slot(&self, slot: Slot) -> (r: Result<Address, ConsensusError>)
        ensures
            ({
                let picked = spec_pick_by_stake(
                    spec_active_validators(
                        self.validator_set.validators@,
                        self.validator_set.min_stake,
                    ),
                    spec_slot_randomness(slot),
                );
                match r {
                    Ok(a) => picked == Some(a),
                    Err(e) => picked is None && e == ConsensusError::NotFound,
                }
            }),
    {
        self.proposer_selector.select_proposer(slot, &self.validator_set)
    }

    /// The epoch a slot falls in.
    pub fn slot_to_epoch(&self, slot: Slot) -> (r: Epoch)
        requires
            self.config.slots_per_epoch > 0,
        ensures
            r == slot / self.config.slots_per_epoch,
    {
        slot / self.config.slots_per_epoch
    }

    /// The first slot of an epoch, saturating at the largest slot.
    pub fn epoch_to_slot(&self, epoch: Epoch) -> (r: Slot)
        ensures
            r == spec_sat_mul(epoch, self.config.slots_per_epoch),
    {
        match epoch.checked_mul(self.config.slots_per_epoch) {
            Some(v) => v,
            None => u64::MAX,
        }
    }

    /// Whether a slot opens an epoch.
    pub fn is_epoch_boundary(&self, slot: Slot) -> (r: bool)
        requires
            self.config.slots_per_epoch > 0,
        ensures
            r == (slot % self.config.slots_per_epoch == 0),
    {
        slot % self.config.slots_per_epoch == 0
    }

    /// The current head of fork choice.
    pub fn get_head(&self) -> (r: Option<[u8; 32]>)
        requires
            self.wf(),
        ensures
            r == spec_get_head(self.fork_choice),
    {
        self.fork_choice.get_head()
    }

    /// Validates an attestation and, on success, records its vote.
    pub fn process_attestation(&mut self, attestation: &Attestation) -> (r: Result<
        (),
        ConsensusError,
    >)
        requires
            old(self).wf(),
        ensures
            final(self).wf(),
            r is Ok <==> attestation.validator_index < old(self).validator_set.validators@.len(),
            r is Err ==> *final(self) == *old(self) && r->Err_0
                == ConsensusError::AuthorityMismatch,
            r is Ok ==> spec_attestation_applied(
                old(self).fork_choice,
                final(self).fork_choice,
                *attestation,
            ) && final(self).validator_set == old(self).validator_set && final(self).current_slot
                == old(self).current_slot && final(self).current_epoch == old(self).current_epoch,
    {
        match self.validate_attestation(attestation) {
            Ok(_) => {},
            Err(e) => {
                return Err(e);
            },
        }

        self.fork_choice.add_attestation(*attestation);
        Ok(())
    }

    /// An attestation may only come from a validator index within the set.
    pub fn validate_attestation(&self, attestation: &Attestation) -> (r: Result<
        (),
        ConsensusError,
    >)
        ensures
            r is Ok <==> attestation.validator_index < self.validator_set.validators@.len(),
            r is Err ==> r->Err_0 == ConsensusError::AuthorityMismatch,
    {
        let len = self.validator_set.len();
        if attestation.validator_index >= len as u64 {
            return Err(ConsensusError::AuthorityMismatch);
        }
        Ok(())
    }

    /// Walks a block's transactions for validator updates; a free-form
    /// payload carries no staking instruction, so the set is left as it
    /// stands.
    pub fn process_validator_updates(&mut self, block: &Block) -> (r: Result<(), ConsensusError>)
        ensures
            r is Ok,
            *final(self) == *old(self),
    {
        let mut i: usize = 0;
        while i < block.transactions.len()
            invariant
                *self == *old(self),
            decreases block.transactions@.len() - i,
        {
            let r = self.process_generic_transaction(&block.transactions[i]);
            proof {
                assert(r is Ok);
            }
            i += 1;
        }
        Ok(())
    }

    /// One transaction's effect on the validator set: the free-form payload
    /// carries no staking instruction, so there is none.
    fn process_generic_transaction(&mut self, _transaction: &Transaction) -> (r: Result<
        (),
        ConsensusError,
    >)
        ensures
            r is Ok,
            *final(self) == *old(self),
    {
        Ok(())
    }

    /// The rewards granted for an epoch.
    pub fn calculate_total_rewards(&self, _epoch: Epoch) -> (r: u64)
        ensures
            r == 1_000_000,
    {
        1_000_000
    }

    /// One validator's reward for the epoch, staged through wide integers
    /// so that the single floor of the spec is computed exactly.
    fn compute_reward(v: &Validator, total_rewards: u64, set_total: u64) -> (r: u64)
        requires
            v.spec_total_stake() <= set_total || set_total == 0,
            total_rewards <= 1_000_000,
        ensures
            r == spec_reward_of(*v, total_rewards, set_total),
    {
        if !v.is_active() || set_total == 0 {
            return 0;
        }
        let vt = v.total_stake();
        proof {
            assert((vt as int) * (total_rewards as int) <= (u64::MAX as int) * (u64::MAX as int))
                by (nonlinear_arith)
                requires
                    0 <= vt,
                    vt <= u64::MAX,
                    0 <= total_rewards,
                    total_rewards <= u64::MAX,
            ;
            assert((u64::MAX as int) * (u64::MAX as int) < u128::MAX as int) by (nonlinear_arith);
            assert((vt as int) * (total_rewards as int) <= (set_total as int) * (
            total_rewards as int)) by (nonlinear_arith)
                requires
                    0 <= total_rewards,
                    vt <= set_total,
            ;
            vstd::arithmetic::div_mod::lemma_div_is_ordered(
                (vt as int) * (total_rewards as int),
                (set_total as int) * (total_rewards as int),
                set_total as int,
            );
            vstd::arithmetic::div_mod::lemma_div_multiples_vanish(
                total_rewards as int,
                set_total as int,
            );
            assert((vt as int) * (total_rewards as int) / (set_total as int)
                <= total_rewards as int);
        }
        let base = (vt as u128) * (total_rewards as u128) / (set_total as u128);
        proof {
            assert(base <= total_rewards as u128);
        }
        let bp = v.performance.blocks_proposed;
        let bm = v.performance.blocks_missed;
        let am = v.performance.attestations_made;
        let ams = v.performance.attestations_missed;
        let proposals = (bp as u128) + (bm as u128);
        let attestations = (am as u128) + (ams as u128);

        let reward: u128 = if proposals == 0 && attestations == 0 {
            base
        } else if attestations == 0 {
            proof {
                lemma_scaled_ratio_bounds(base as int, bp as int, proposals as int);
            }
            base * (bp as u128) / proposals
        } else if proposals == 0 {
            proof {
                lemma_scaled_ratio_bounds(base as int, am as int, attestations as int);
            }
            base * (am as u128) / attestations
        } else {
            // both ratios at once: floor(base * bp * am / (proposals * attestations)),
            // staged so that every intermediate fits a wide integer
            proof {
                assert((bp as int) * (am as int) <= (u64::MAX as int) * (u64::MAX as int))
                    by (nonlinear_arith)
                    requires
                        0 <= bp,
                        bp <= u64::MAX,
                        0 <= am,
                        am <= u64::MAX,
                ;
                assert((u64::MAX as int) * (u64::MAX as int) < u128::MAX as int)
                    by (nonlinear_arith);
            }
            let m = (bp as u128) * (am as u128);
            let q = m / proposals;
            let rm = m % proposals;
            proof {
                // the quotient of the ratio numerators is at most one factor
                assert((bp as int) * (am as int) <= (proposals as int) * (am as int))
                    by (nonlinear_arith)
                    requires
                        0 <= am,
                        bp as int <= proposals as int,
                ;
                vstd::arithmetic::div_mod::lemma_div_is_ordered(
                    (bp as int) * (am as int),
                    (proposals as int) * (am as int),
                    proposals as int,
                );
                vstd::arithmetic::div_mod::lemma_div_multiples_vanish(
                    am as int,
                    proposals as int,
                );
                assert(q <= am as u128);
                lemma_staged_double_ratio(
                    base as int,
                    bp as int,
                    am as int,
                    proposals as int,
                    attestations as int,
                );
                assert((base as int) * (q as int) <= 1_000_000 * (u64::MAX as int))
                    by (nonlinear_arith)
                    requires
                        0 <= base,
                        base <= 1_000_000,
                        0 <= q,
                        q <= u64::MAX as int,
                ;
                assert((base as int) * (rm as int) <= 1_000_000 * ((proposals as int) - 1))
                    by (nonlinear_arith)
                    requires
                        0 <= base,
                        base <= 1_000_000,
                        0 <= rm,
                        rm as int <= (proposals as int) - 1,
                ;
                assert(1_000_000 * (u64::MAX as int) + 1_000_000 * ((proposals as int) - 1) < (
                u128::MAX as int)) by (nonlinear_arith)
                    requires
                        proposals as int <= 2 * (u64::MAX as int),
                ;
            }
            let n1 = base * q + (base * rm) / proposals;
            n1 / attestations
        };
        proof {
            lemma_reward_at_most_base(
                base as int,
                v.performance.blocks_proposed as int,
                v.performance.attestations_made as int,
                proposals as int,
                attestations as int,
                reward as int,
            );
        }
        reward as u64
    }

    /// Grants each active validator its epoch reward: stake and the cached
    /// total grow together, and a reward that neither can take is forgone.
    fn calculate_rewards(&mut self, epoch: Epoch) -> (r: Result<(), ConsensusError>)
        requires
            old(self).wf(),
        ensures
            final(self).wf(),
            r is Ok,
            ({
                let applied = spec_rewards_applied(
                    old(self).validator_set.validators@,
                    1_000_000,
                    old(self).validator_set.total_stake,
                    old(self).validator_set.total_stake,
                );
                &&& final(self).validator_set.validators@ == applied.0
                &&& final(self).validator_set.total_stake == applied.1
            }),
            final(self).validator_set.min_stake == old(self).validator_set.min_stake,
            final(self).validator_set.max_validators == old(self).validator_set.max_validators,
            final(self).validator_set.epoch == old(self).validator_set.epoch,
            final(self).fork_choice == old(self).fork_choice,
            final(self).config == old(self).config,
            final(self).current_slot == old(self).current_slot,
            final(self).current_epoch == old(self).current_epoch,
    {
        let total_rewards = self.calculate_total_rewards(epoch);
        let set_total = self.validator_set.total_stake;
        let ghost orig = self.validator_set.validators@;
        let ghost full = spec_rewards_applied(orig, 1_000_000, set_total, set_total);

        let n = self.validator_set.validators.len();
        let mut i: usize = 0;
        proof {
            assert(orig.skip(0) =~= orig);
            lemma_sum_stakes_nonneg_all(orig);
        }
        while i < n
            invariant
                old(self).wf(),
                total_rewards == 1_000_000,
                n == self.validator_set.validators@.len(),
                n == orig.len(),
                i <= n,
                set_total == old(self).validator_set.total_stake,
                orig == old(self).validator_set.validators@,
                full == spec_rewards_applied(orig, 1_000_000, set_total, set_total),
                forall|j: int|
                    i <= j < n ==> self.validator_set.validators@[j] == orig[j],
                full.0 =~= self.validator_set.validators@.take(i as int) + spec_rewards_applied(
                    orig.skip(i as int),
                    1_000_000,
                    set_total,
                    self.validator_set.total_stake,
                ).0,
                full.1 == spec_rewards_applied(
                    orig.skip(i as int),
                    1_000_000,
                    set_total,
                    self.validator_set.total_stake,
                ).1,
                self.validator_set.wf(),
                self.validator_set.min_stake == old(self).validator_set.min_stake,
                self.validator_set.max_validators == old(self).validator_set.max_validators,
                self.validator_set.epoch == old(self).validator_set.epoch,
                self.fork_choice == old(self).fork_choice,
                self.config == old(self).config,
                self.current_slot == old(self).current_slot,
                self.current_epoch == old(self).current_epoch,
                self.proposer_selector == old(self).proposer_selector,
            decreases n - i,
        {
            let ghost pre = self.validator_set.validators@;
            proof {
                assert(pre.skip(i as int) =~= orig.skip(i as int));
                crate::types::validator::lemma_sum_stakes_element(orig, i as int);
            }
            let v_total = self.validator_set.validators[i].1.total_stake();
            proof {
                lemma_orig_sum_is_total(old(self).validator_set);
                assert(v_total <= set_total);
            }
            let reward = Self::compute_reward(
                &self.validator_set.validators[i].1,
                total_rewards,
                set_total,
            );
            let cache = self.validator_set.total_stake;
            let ghost step = spec_rewards_applied(
                orig.skip(i as int),
                1_000_000,
                set_total,
                cache,
            );
            proof {
                assert(orig.skip(i as int).first() == orig[i as int]);
                assert(orig.skip(i as int).drop_first() =~= orig.skip(i as int + 1));
            }
            let mut applied = false;
            if reward > 0 {
                let fits_member = v_total.checked_add(reward).is_some();
                let fits_cache = cache.checked_add(reward).is_some();
                if fits_member && fits_cache {
                    applied = true;
                    let key = self.validator_set.validators[i].0;
                    let mut nv = clone_validator(&self.validator_set.validators[i].1);
                    proof {
                        assert(nv.stake <= nv.spec_total_stake());
                    }
                    nv.stake = nv.stake + reward;
                    self.validator_set.validators.set(i, (key, nv));
                    self.validator_set.total_stake = cache + reward;
                    proof {
                        crate::types::validator::lemma_sum_stakes_update(pre, i as int, (key, nv));
                        assert(nv.spec_total_stake() == orig[i as int].1.spec_total_stake()
                            + reward);
                        assert(nv == Validator {
                            stake: (orig[i as int].1.stake + reward) as u64,
                            ..orig[i as int].1
                        });
                        assert(step.0 == seq![(orig[i as int].0, nv)] + spec_rewards_applied(
                            orig.skip(i as int + 1),
                            1_000_000,
                            set_total,
                            (cache + reward) as u64,
                        ).0);
                        assert(self.validator_set.validators@.take(i as int + 1) =~= pre.take(
                            i as int,
                        ).push((key, nv)));
                        assert(self.validator_set.validators@.take(i as int) =~= pre.take(
                            i as int,
                        ));
                        assert(full.0 =~= self.validator_set.validators@.take(i as int + 1)
                            + spec_rewards_applied(
                            orig.skip(i as int + 1),
                            1_000_000,
                            set_total,
                            self.validator_set.total_stake,
                        ).0);
                    }
                }
            }
            if !applied {
                proof {
                    assert(step.0 == seq![orig[i as int]] + spec_rewards_applied(
                        orig.skip(i as int + 1),
                        1_000_000,
                        set_total,
                        cache,
                    ).0);
                    assert(self.validator_set.validators@.take(i as int + 1)
                        =~= self.validator_set.validators@.take(i as int).push(
                        orig[i as int],
                    ));
                    assert(full.0 =~= self.validator_set.validators@.take(i as int + 1)
                        + spec_rewards_applied(
                        orig.skip(i as int + 1),
                        1_000_000,
                        set_total,
                        self.validator_set.total_stake,
                    ).0);
                }
            }
            i += 1;
        }
        proof {
            assert(orig.skip(n as int) =~= Seq::<(Address, Validator)>::empty());
            assert(self.validator_set.validators@.take(n as int)
                =~= self.validator_set.validators@);
        }
        Ok(())
    }

    /// The epoch's pending slashings; penalties are applied as detections
    /// hand them in, so nothing waits here between epochs.
    fn process_slashings(&mut self, _epoch: Epoch) -> (r: Result<(), ConsensusError>)
        ensures
            r is Ok,
            *final(self) == *old(self),
    {
        Ok(())
    }

    /// Ejects members below the ejection balance and removes those whose
    /// withdrawal delay has passed, then pins the set to the epoch.
    fn update_validator_set(&mut self, epoch: Epoch) -> (r: Result<(), ConsensusError>)
        requires
            old(self).wf(),
        ensures
            final(self).wf(),
            r is Ok,
            final(self).validator_set.validators@ == spec_after_withdrawals(
                spec_ejections_marked(
                    old(self).validator_set.validators@,
                    old(self).config.ejection_balance,
                ),
                epoch,
                old(self).config.min_validator_withdrawability_delay,
            ),
            final(self).validator_set.epoch == epoch,
            final(self).validator_set.min_stake == old(self).validator_set.min_stake,
            final(self).validator_set.max_validators == old(self).validator_set.max_validators,
            final(self).fork_choice == old(self).fork_choice,
            final(self).config == old(self).config,
            final(self).current_slot == old(self).current_slot,
            final(self).current_epoch == old(self).current_epoch,
    {
        let ejection_balance = self.config.ejection_balance;
        let delay = self.config.min_validator_withdrawability_delay;
        let ghost orig = self.validator_set.validators@;
        let ghost marked = spec_ejections_marked(orig, ejection_balance);

        // mark everyone below the ejection balance as Exiting
        let n = self.validator_set.validators.len();
        let mut i: usize = 0;
        while i < n
            invariant
                n == self.validator_set.validators@.len(),
                n == orig.len(),
                i <= n,
                marked == spec_ejections_marked(orig, ejection_balance),
                forall|j: int|
                    i <= j < n ==> self.validator_set.validators@[j] == orig[j],
                forall|j: int|
                    0 <= j < i ==> self.validator_set.validators@[j] == marked[j],
                self.validator_set.wf(),
                self.validator_set.total_stake == old(self).validator_set.total_stake,
                self.validator_set.min_stake == old(self).validator_set.min_stake,
                self.validator_set.max_validators == old(self).validator_set.max_validators,
                self.validator_set.epoch == old(self).validator_set.epoch,
                self.fork_choice == old(self).fork_choice,
                self.config == old(self).config,
                self.current_slot == old(self).current_slot,
                self.current_epoch == old(self).current_epoch,
                self.proposer_selector == old(self).proposer_selector,
            decreases n - i,
        {
            let ghost pre = self.validator_set.validators@;
            let v_total = self.validator_set.validators[i].1.total_stake();
            if v_total < ejection_balance {
                let key = self.validator_set.validators[i].0;
                let mut nv = clone_validator(&self.validator_set.validators[i].1);
                nv.status = ValidatorStatus::Exiting;
                self.validator_set.validators.set(i, (key, nv));
                proof {
                    crate::types::validator::lemma_sum_stakes_update(pre, i as int, (key, nv));
                    assert(nv.spec_total_stake() == orig[i as int].1.spec_total_stake());
                    assert(self.validator_set.validators@[i as int] == marked[i as int]);
                }
            } else {
                proof {
                    assert(self.validator_set.validators@[i as int] == marked[i as int]);
                }
            }
            i += 1;
        }
        proof {
            assert(self.validator_set.validators@ =~= marked);
        }

        // remove the members whose withdrawal delay has passed
        let mut kept: Vec<(Address, Validator)> = Vec::new();
        let mut cache = self.validator_set.total_stake;
        let ghost marked_now = self.validator_set.validators@;
        proof {
            lemma_sum_marked(orig, ejection_balance);
            assert(cache as int == spec_sum_stakes(marked_now));
            assert(spec_sum_stakes(marked_now.skip(0)) == spec_sum_stakes(marked_now)) by {
                assert(marked_now.skip(0) =~= marked_now);
            }
        }
        let mut t: usize = 0;
        while t < n
            invariant
                n == self.validator_set.validators@.len(),
                marked_now == self.validator_set.validators@,
                t <= n,
                kept@ == spec_after_withdrawals(marked_now.take(t as int), epoch, delay),
                crate::assoc::assoc_unique(self.validator_set.validators@),
                forall|j2: int|
                    0 <= j2 < marked_now.len() ==> (#[trigger] marked_now[j2]).0
                        == marked_now[j2].1.address,
                crate::assoc::assoc_unique(kept@),
                forall|j2: int|
                    0 <= j2 < kept@.len() ==> (#[trigger] kept@[j2]).0 == kept@[j2].1.address,
                forall|j2: int|
                    0 <= j2 < kept@.len() ==> exists|j3: int|
                        0 <= j3 < t && (#[trigger] kept@[j2]).0 == marked_now[j3].0,
                cache as int == spec_sum_stakes(kept@) + spec_sum_stakes(marked_now.skip(t as int)),
            decreases n - t,
        {
            let ghost pre_kept = kept@;
            proof {
                assert(marked_now.take(t as int + 1).drop_last() =~= marked_now.take(t as int));
                assert(marked_now.take(t as int + 1).last() == marked_now[t as int]);
                assert(marked_now.skip(t as int).first() == marked_now[t as int]);
                lemma_sum_skip_step(marked_now, t as int);
                lemma_sum_stakes_nonneg_all(marked_now.skip(t as int + 1));
                crate::types::validator::lemma_sum_stakes_nonneg(kept@);
            }
            let entry = &self.validator_set.validators[t];
            let is_exiting = matches!(entry.1.status, ValidatorStatus::Exiting);
            let threshold = entry.1.last_active_epoch.saturating_add(delay);
            if is_exiting && epoch >= threshold {
                // withdrawable: the member leaves and its stake comes off
                cache = cache - entry.1.total_stake();
            } else {
                let key = self.validator_set.validators[t].0;
                let nv = clone_validator(&self.validator_set.validators[t].1);
                kept.push((key, nv));
                proof {
                    crate::types::validator::lemma_sum_stakes_push(pre_kept, (key, nv));
                    assert(kept@.last() == marked_now[t as int]);
                    assert(kept@ =~= spec_after_withdrawals(
                        marked_now.take(t as int + 1),
                        epoch,
                        delay,
                    ));
                    assert forall|j2: int|
                        0 <= j2 < kept@.len() implies exists|j3: int|
                        0 <= j3 < t + 1 && (#[trigger] kept@[j2]).0 == marked_now[j3].0 by {
                        if j2 < pre_kept.len() {
                            assert(kept@[j2] == pre_kept[j2]);
                            let j3 = choose|j3: int|
                                0 <= j3 < t && (#[trigger] pre_kept[j2]).0 == marked_now[j3].0;
                            assert(kept@[j2].0 == marked_now[j3].0);
                        } else {
                            assert(kept@[j2].0 == marked_now[t as int].0);
                        }
                    }
                    assert forall|a2: int, b2: int|
                        0 <= a2 < b2 < kept@.len() implies kept@[a2].0 != kept@[b2].0 by {
                        if b2 == kept@.len() - 1 {
                            assert(kept@[a2] == pre_kept[a2]);
                            let j3 = choose|j3: int|
                                0 <= j3 < t && (#[trigger] pre_kept[a2]).0 == marked_now[j3].0;
                            assert(kept@[b2].0 == marked_now[t as int].0);
                            assert(marked_now[j3].0 != marked_now[t as int].0);
                        }
                    }
                }
            }
            t += 1;
        }
        proof {
            assert(marked_now.take(n as int) =~= marked_now);
            assert(marked_now.skip(n as int) =~= Seq::<(Address, Validator)>::empty());
        }
        self.validator_set.validators = kept;
        self.validator_set.total_stake = cache;
        self.validator_set.epoch = epoch;
        Ok(())
    }

    /// Closes an epoch: rewards are granted, slashings processed, members
    /// below the ejection balance start exiting, members past their
    /// withdrawal delay leave, and the set is pinned to the epoch.
    pub fn finalize_epoch(&mut self, epoch: Epoch) -> (r: Result<(), ConsensusError>)
        requires
            old(self).wf(),
        ensures
            final(self).wf(),
            r is Ok,
            ({
                let rewarded = spec_rewards_applied(
                    old(self).validator_set.validators@,
                    1_000_000,
                    old(self).validator_set.total_stake,
                    old(self).validator_set.total_stake,
                ).0;
                final(self).validator_set.validators@ == spec_after_withdrawals(
                    spec_ejections_marked(rewarded, old(self).config.ejection_balance),
                    epoch,
                    old(self).config.min_validator_withdrawability_delay,
                )
            }),
            final(self).validator_set.epoch == epoch,
            final(self).fork_choice == old(self).fork_choice,
            final(self).config == old(self).config,
            final(self).current_slot == old(self).current_slot,
            final(self).current_epoch == old(self).current_epoch,
    {
        let r1 = self.calculate_rewards(epoch);
        proof {
            assert(r1 is Ok);
        }
        let r2 = self.process_slashings(epoch);
        proof {
            assert(r2 is Ok);
        }
        let r3 = self.update_validator_set(epoch);
        proof {
            assert(r3 is Ok);
        }
        Ok(())
    }
}

/// A sum of member stakes is never negative.
proof fn lemma_sum_stakes_nonneg_all(s: Seq<(Address, Validator)>)
    ensures
        spec_sum_stakes(s) >= 0,
{
    crate::types::validator::lemma_sum_stakes_nonneg(s);
}

/// The cached total of a well-formed set is the sum of its members' stakes.
proof fn lemma_orig_sum_is_total(set: ValidatorSet)
    requires
        set.wf(),
    ensures
        forall|i: int|
            0 <= i < set.validators@.len() ==> (#[trigger] set.validators@[i]).1.spec_total_stake()
                <= set.total_stake,
{
    assert forall|i: int|
        0 <= i < set.validators@.len() implies (
    #[trigger] set.validators@[i]).1.spec_total_stake() <= set.total_stake by {
        crate::types::validator::lemma_sum_stakes_element(set.validators@, i);
    }
}

/// Splitting a sum at a position: the suffix sum is the element plus the
/// rest.
proof fn lemma_sum_skip_step(s: Seq<(Address, Validator)>, i: int)
    requires
        0 <= i < s.len(),
    ensures
        spec_sum_stakes(s.skip(i)) == s[i].1.spec_total_stake() + spec_sum_stakes(s.skip(i + 1)),
    decreases s.len() - i,
{
    if i == s.len() - 1 {
        assert(s.skip(i) =~= seq![s[i]]);
        assert(s.skip(i).drop_last() =~= Seq::<(Address, Validator)>::empty());
        assert(s.skip(i + 1) =~= Seq::<(Address, Validator)>::empty());
    } else {
        lemma_sum_skip_step(s, i + 1);
        assert(s.skip(i).drop_last() =~= s.skip(i).take(s.len() - i - 1));
        lemma_sum_last(s.skip(i));
        assert(s.skip(i).first() == s[i]);
        lemma_sum_first(s.skip(i));
        assert(s.skip(i).drop_first() =~= s.skip(i + 1));
    }
}

/// A sum taken from the front: the first element plus the rest.
proof fn lemma_sum_first(s: Seq<(Address, Validator)>)
    requires
        s.len() >= 1,
    ensures
        spec_sum_stakes(s) == s.first().1.spec_total_stake() + spec_sum_stakes(s.drop_first()),
    decreases s.len(),
{
    if s.len() == 1 {
        assert(s.drop_last() =~= Seq::<(Address, Validator)>::empty());
        assert(s.drop_first() =~= Seq::<(Address, Validator)>::empty());
    } else {
        lemma_sum_first(s.drop_last());
        assert(s.drop_last().first() == s.first());
        assert(s.drop_first().drop_last() =~= s.drop_last().drop_first());
        assert(s.drop_first().last() == s.last());
    }
}

/// A sum taken from the back: the rest plus the last element.
proof fn lemma_sum_last(s: Seq<(Address, Validator)>)
    requires
        s.len() >= 1,
    ensures
        spec_sum_stakes(s) == spec_sum_stakes(s.drop_last()) + s.last().1.spec_total_stake(),
{
}

/// Marking ejections changes no stake, so no sum.
proof fn lemma_sum_marked(s: Seq<(Address, Validator)>, ejection_balance: u64)
    ensures
        spec_sum_stakes(spec_ejections_marked(s, ejection_balance)) == spec_sum_stakes(s),
    decreases s.len(),
{
    let m = spec_ejections_marked(s, ejection_balance);
    if s.len() > 0 {
        lemma_sum_marked(s.drop_last(), ejection_balance);
        assert(m.drop_last() =~= spec_ejections_marked(s.drop_last(), ejection_balance));
        assert(m.last().1.spec_total_stake() == s.last().1.spec_total_stake());
    } else {
        assert(m =~= Seq::<(Address, Validator)>::empty());
    }
}

/// A share scaled by one ratio stays within the share, and its numerator
/// within wide range.
proof fn lemma_scaled_ratio_bounds(base: int, hits: int, duties: int)
    requires
        0 <= base <= 1_000_000,
        0 <= hits <= duties,
        0 < duties,
    ensures
        base * hits <= 1_000_000 * duties,
        base * hits / duties <= base,
{
    assert(base * hits <= 1_000_000 * duties) by (nonlinear_arith)
        requires
            0 <= base <= 1_000_000,
            0 <= hits <= duties,
    ;
    assert(base * hits <= base * duties) by (nonlinear_arith)
        requires
            0 <= base,
            hits <= duties,
    ;
    vstd::arithmetic::div_mod::lemma_div_is_ordered(base * hits, base * duties, duties);
    vstd::arithmetic::div_mod::lemma_div_multiples_vanish(base, duties);
    assert(base * duties == duties * base) by (nonlinear_arith);
}

/// Staging the double ratio: dividing the numerator product by the first
/// denominator with its remainder hoisted, then by the second, computes the
/// single floor exactly.
proof fn lemma_staged_double_ratio(base: int, bp: int, am: int, p: int, a: int)
    requires
        0 <= base,
        0 <= bp,
        0 <= am,
        0 < p,
        0 < a,
    ensures
        base * (bp * am / p) + base * (bp * am % p) / p == base * bp * am / p,
        (base * bp * am / p) / a == base * bp * am / (p * a),
{
    let m = bp * am;
    let q = m / p;
    let r = m % p;
    vstd::arithmetic::div_mod::lemma_fundamental_div_mod(m, p);
    assert(base * m == (base * q) * p + base * r) by (nonlinear_arith)
        requires
            m == p * q + r,
    ;
    vstd::arithmetic::div_mod::lemma_hoist_over_denominator(base * r, base * q, p as nat);
    assert(base * r / p + base * q == (base * r + (base * q) * p) / p);
    assert(base * m == base * bp * am) by (nonlinear_arith)
        requires
            m == bp * am,
    ;
    vstd::arithmetic::div_mod::lemma_mod_bound(m, p);
    assert(0 <= base * m) by (nonlinear_arith)
        requires
            0 <= base,
            0 <= m,
    ;
    vstd::arithmetic::div_mod::lemma_div_denominator(base * m, p, a);
}

/// The single-floor reward never exceeds the share it scales.
proof fn lemma_reward_at_most_base(
    base: int,
    bp: int,
    am: int,
    p: int,
    a: int,
    reward: int,
)
    requires
        0 <= base <= 1_000_000,
        0 <= bp,
        0 <= am,
        bp <= p,
        am <= a,
        reward == if p == 0 && a == 0 {
            base
        } else if a == 0 {
            base * bp / p
        } else if p == 0 {
            base * am / a
        } else {
            base * bp * am / (p * a)
        },
    ensures
        0 <= reward <= 1_000_000,
{
    if p == 0 && a == 0 {
    } else if a == 0 {
        lemma_scaled_ratio_bounds(base, bp, p);
        vstd::arithmetic::div_mod::lemma_div_pos_is_pos(base * bp, p);
        assert(0 <= base * bp) by (nonlinear_arith)
            requires
                0 <= base,
                0 <= bp,
        ;
    } else if p == 0 {
        lemma_scaled_ratio_bounds(base, am, a);
        vstd::arithmetic::div_mod::lemma_div_pos_is_pos(base * am, a);
        assert(0 <= base * am) by (nonlinear_arith)
            requires
                0 <= base,
                0 <= am,
        ;
    } else {
        assert(base * bp * am <= base * (p * a)) by (nonlinear_arith)
            requires
                0 <= base,
                0 <= bp <= p,
                0 <= am <= a,
        ;
        assert(0 < p * a) by (nonlinear_arith)
            requires
                0 < p,
                0 < a,
        ;
        vstd::arithmetic::div_mod::lemma_div_is_ordered(base * bp * am, base * (p * a), p * a);
        vstd::arithmetic::div_mod::lemma_div_multiples_vanish(base, p * a);
        assert(base * (p * a) == (p * a) * base) by (nonlinear_arith);
        assert(0 <= base * bp * am) by (nonlinear_arith)
            requires
                0 <= base,
                0 <= bp,
                0 <= am,
        ;
        vstd::arithmetic::div_mod::lemma_div_pos_is_pos(base * bp * am, p * a);
    }
}

/// The engine's inner coordinator: the seat for state that the loop around
/// the engine owns.
pub struct ConsensusEngineCore {}

impl ConsensusEngineCore {
    pub fn new() -> (r: Self) {
        ConsensusEngineCore {  }
    }
}

impl Default for ConsensusEngineCore {
    fn default() -> (r: Self) {
        Self::new()
    }
}

} // verus!
