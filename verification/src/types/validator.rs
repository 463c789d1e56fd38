//! Validators and the validator set: stake accounting, status transitions,
//! performance counters, and stake-weighted proposer selection.

use crate::assoc::{assoc_find, assoc_unique};
use crate::crypto::hash::sha256_of;
use crate::types::{address_eq, append_bytes, Address, Amount, ConsensusError, Epoch, PublicKey};
use vstd::prelude::*;

verus! {

/// Where a validator stands in its lifecycle.
#[derive(Debug, Clone, Copy, PartialEq, Eq, Structural)]
pub enum ValidatorStatus {
    Active,
    Inactive,
    Jailed,
    Exiting,
    Exited,
}

/// Free-form information a validator registers about itself.
#[derive(Debug, Clone, PartialEq, Eq)]
pub struct ValidatorMetadata {
    pub name: String,
    pub website: Option<String>,
    pub description: Option<String>,
    pub contact: Option<String>,
}

/// Counters of a validator's duties: proposals, attestations, slashings.
#[derive(Debug, Clone, Copy, PartialEq, Eq)]
pub struct ValidatorPerformance {
    pub blocks_proposed: u64,
    pub blocks_missed: u64,
    pub attestations_made: u64,
    pub attestations_missed: u64,
    pub slash_count: u64,
    pub last_slash_epoch: Option<Epoch>,
}

impl Default for ValidatorPerformance {
    fn default() -> (r: Self)
        ensures
            r.blocks_proposed == 0,
            r.blocks_missed == 0,
            r.attestations_made == 0,
            r.attestations_missed == 0,
            r.slash_count == 0,
            r.last_slash_epoch is None,
    {
        ValidatorPerformance {
            blocks_proposed: 0,
            blocks_missed: 0,
            attestations_made: 0,
            attestations_missed: 0,
            slash_count: 0,
            last_slash_epoch: None,
        }
    }
}

/// A member of the validator set.
#[derive(Debug, Clone, PartialEq, Eq)]
pub struct Validator {
    pub address: Address,
    pub public_key: PublicKey,
    pub stake: Amount,
    pub delegated_stake: Amount,
    /// Commission in basis points.
    pub commission_rate: u16,
    pub status: ValidatorStatus,
    pub registration_epoch: Epoch,
    pub last_active_epoch: Epoch,
    pub metadata: ValidatorMetadata,
    pub performance: ValidatorPerformance,
}

impl Validator {
    /// Self-stake and delegated stake together, capped at the largest amount.
    pub open spec fn spec_total_stake(&self) -> u64 {
        if self.stake + self.delegated_stake > u64::MAX {
            u64::MAX
        } else {
            (self.stake + self.delegated_stake) as u64
        }
    }

    /// Whether the validator is active.
    pub open spec fn spec_is_active(&self) -> bool {
        self.status == ValidatorStatus::Active
    }

    /// Whether the validator is active with enough stake.
    pub open spec fn spec_is_eligible(&self, min_stake: Amount) -> bool {
        self.spec_is_active() && self.spec_total_stake() >= min_stake
    }

    pub fn new(
        address: Address,
        public_key: PublicKey,
        stake: Amount,
        commission_rate: u16,
        registration_epoch: Epoch,
        metadata: ValidatorMetadata,
    ) -> (r: Self)
        ensures
            r.address == address,
            r.public_key == public_key,
            r.stake == stake,
            r.delegated_stake == 0,
            r.commission_rate == commission_rate,
            r.status == ValidatorStatus::Active,
            r.registration_epoch == registration_epoch,
            r.last_active_epoch == registration_epoch,
            r.metadata == metadata,
            r.performance.blocks_proposed == 0,
            r.performance.blocks_missed == 0,
            r.performance.attestations_made == 0,
            r.performance.attestations_missed == 0,
            r.performance.slash_count == 0,
            r.performance.last_slash_epoch is None,
    {
        Validator {
            address,
            public_key,
            stake,
            delegated_stake: 0,
            commission_rate,
            status: ValidatorStatus::Active,
            registration_epoch,
            last_active_epoch: registration_epoch,
            metadata,
            performance: ValidatorPerformance::default(),
        }
    }

    /// Self-stake and delegated stake together.
    pub fn total_stake(&self) -> (r: Amount)
        ensures
            r == self.spec_total_stake(),
    {
        self.stake.saturating_add(self.delegated_stake)
    }

    pub fn is_active(&self) -> (r: bool)
        ensures
            r == self.spec_is_active(),
    {
        matches!(self.status, ValidatorStatus::Active)
    }

    pub fn is_eligible(&self, min_stake: Amount) -> (r: bool)
        ensures
            r == self.spec_is_eligible(min_stake),
    {
        self.is_active() && self.total_stake() >= min_stake
    }

    /// Counts one proposal and one attestation duty, hit or missed, and
    /// marks the validator active in the given epoch.
    pub fn update_performance(&mut self, proposed: bool, attested: bool, epoch: Epoch)
        ensures
            final(self).performance.blocks_proposed == if proposed {
                vstd::math::min(old(self).performance.blocks_proposed + 1, u64::MAX as int)
            } else {
                old(self).performance.blocks_proposed as int
            },
            final(self).performance.blocks_missed == if proposed {
                old(self).performance.blocks_missed as int
            } else {
                vstd::math::min(old(self).performance.blocks_missed + 1, u64::MAX as int)
            },
            final(self).performance.attestations_made == if attested {
                vstd::math::min(old(self).performance.attestations_made + 1, u64::MAX as int)
            } else {
                old(self).performance.attestations_made as int
            },
            final(self).performance.attestations_missed == if attested {
                old(self).performance.attestations_missed as int
            } else {
                vstd::math::min(old(self).performance.attestations_missed + 1, u64::MAX as int)
            },
            final(self).performance.slash_count == old(self).performance.slash_count,
            final(self).performance.last_slash_epoch == old(self).performance.last_slash_epoch,
            final(self).last_active_epoch == epoch,
            final(self).address == old(self).address,
            final(self).public_key == old(self).public_key,
            final(self).stake == old(self).stake,
            final(self).delegated_stake == old(self).delegated_stake,
            final(self).commission_rate == old(self).commission_rate,
            final(self).status == old(self).status,
            final(self).registration_epoch == old(self).registration_epoch,
            final(self).metadata == old(self).metadata,
    {
        if proposed {
            self.performance.blocks_proposed = self.performance.blocks_proposed.saturating_add(1);
        } else {
            self.performance.blocks_missed = self.performance.blocks_missed.saturating_add(1);
        }
        if attested {
            self.performance.attestations_made = self.performance.attestations_made.saturating_add(
                1,
            );
        } else {
            self.performance.attestations_missed =
                self.performance.attestations_missed.saturating_add(1);
        }
        self.last_active_epoch = epoch;
    }

    /// Deducts a penalty from self-stake, counts the slashing, and jails the
    /// validator when the penalty tops a tenth of what remains.
    pub fn slash(&mut self, amount: Amount, epoch: Epoch)
        ensures
            final(self).stake == if old(self).stake >= amount {
                old(self).stake - amount
            } else {
                0
            },
            final(self).performance.slash_count == vstd::math::min(
                old(self).performance.slash_count + 1,
                u64::MAX as int,
            ),
            final(self).performance.last_slash_epoch == Some(epoch),
            final(self).status == if amount > final(self).spec_total_stake() / 10 {
                ValidatorStatus::Jailed
            } else {
                old(self).status
            },
            final(self).delegated_stake == old(self).delegated_stake,
            final(self).address == old(self).address,
            final(self).public_key == old(self).public_key,
            final(self).stake <= old(self).stake,
            final(self).last_active_epoch == old(self).last_active_epoch,
            final(self).registration_epoch == old(self).registration_epoch,
            final(self).commission_rate == old(self).commission_rate,
            final(self).metadata == old(self).metadata,
            final(self).performance.blocks_proposed == old(self).performance.blocks_proposed,
            final(self).performance.blocks_missed == old(self).performance.blocks_missed,
            final(self).performance.attestations_made == old(self).performance.attestations_made,
            final(self).performance.attestations_missed == old(
                self,
            ).performance.attestations_missed,
    {
        self.stake = self.stake.saturating_sub(amount);
        self.performance.slash_count = self.performance.slash_count.saturating_add(1);
        self.performance.last_slash_epoch = Some(epoch);

        // a heavy penalty jails the validator
        if amount > self.total_stake() / 10 {
            self.status = ValidatorStatus::Jailed;
        }
    }
}

/// Copies an optional string.
fn clone_opt_string(s: &Option<String>) -> (r: Option<String>)
    ensures
        r == *s,
{
    match s {
        Some(x) => Some(x.clone()),
        None => None,
    }
}

/// Copies a validator's metadata.
pub fn clone_metadata(m: &ValidatorMetadata) -> (r: ValidatorMetadata)
    ensures
        r == *m,
{
    ValidatorMetadata {
        name: m.name.clone(),
        website: clone_opt_string(&m.website),
        description: clone_opt_string(&m.description),
        contact: clone_opt_string(&m.contact),
    }
}

/// Copies a validator.
pub fn clone_validator(v: &Validator) -> (r: Validator)
    ensures
        r == *v,
{
    Validator {
        address: v.address,
        public_key: v.public_key,
        stake: v.stake,
        delegated_stake: v.delegated_stake,
        commission_rate: v.commission_rate,
        status: v.status,
        registration_epoch: v.registration_epoch,
        last_active_epoch: v.last_active_epoch,
        metadata: clone_metadata(&v.metadata),
        performance: v.performance,
    }
}

/// The sum of the members' total stakes.
pub open spec fn spec_sum_stakes(s: Seq<(Address, Validator)>) -> int
    decreases s.len(),
{
    if s.len() == 0 {
        0
    } else {
        spec_sum_stakes(s.drop_last()) + s.last().1.spec_total_stake()
    }
}

/// A sum of stakes is never negative.
pub proof fn lemma_sum_stakes_nonneg(s: Seq<(Address, Validator)>)
    ensures
        spec_sum_stakes(s) >= 0,
    decreases s.len(),
{
    if s.len() > 0 {
        lemma_sum_stakes_nonneg(s.drop_last());
    }
}

/// Every member's stake is at most the sum.
pub proof fn lemma_sum_stakes_element(s: Seq<(Address, Validator)>, i: int)
    requires
        0 <= i < s.len(),
    ensures
        s[i].1.spec_total_stake() <= spec_sum_stakes(s),
    decreases s.len(),
{
    lemma_sum_stakes_nonneg(s.drop_last());
    if i < s.len() - 1 {
        lemma_sum_stakes_element(s.drop_last(), i);
        assert(s.drop_last()[i] == s[i]);
    }
}

/// Appending a member adds its stake to the sum.
pub proof fn lemma_sum_stakes_push(s: Seq<(Address, Validator)>, p: (Address, Validator))
    ensures
        spec_sum_stakes(s.push(p)) == spec_sum_stakes(s) + p.1.spec_total_stake(),
{
    assert(s.push(p).drop_last() =~= s);
    assert(s.push(p).last() == p);
}

/// Removing a member takes its stake out of the sum.
pub proof fn lemma_sum_stakes_remove(s: Seq<(Address, Validator)>, i: int)
    requires
        0 <= i < s.len(),
    ensures
        spec_sum_stakes(s.remove(i)) == spec_sum_stakes(s) - s[i].1.spec_total_stake(),
    decreases s.len(),
{
    if i == s.len() - 1 {
        assert(s.remove(i) =~= s.drop_last());
    } else {
        lemma_sum_stakes_remove(s.drop_last(), i);
        assert(s.remove(i).drop_last() =~= s.drop_last().remove(i));
        assert(s.remove(i).last() == s.last());
        assert(s.drop_last()[i] == s[i]);
    }
}

/// Replacing a member swaps its stake in the sum.
pub proof fn lemma_sum_stakes_update(s: Seq<(Address, Validator)>, i: int, p: (Address, Validator))
    requires
        0 <= i < s.len(),
    ensures
        spec_sum_stakes(s.update(i, p)) == spec_sum_stakes(s) - s[i].1.spec_total_stake()
            + p.1.spec_total_stake(),
    decreases s.len(),
{
    if i == s.len() - 1 {
        assert(s.update(i, p).drop_last() =~= s.drop_last());
        assert(s.update(i, p).last() == p);
    } else {
        lemma_sum_stakes_update(s.drop_last(), i, p);
        assert(s.update(i, p).drop_last() =~= s.drop_last().update(i, p));
        assert(s.update(i, p).last() == s.last());
        assert(s.drop_last()[i] == s[i]);
    }
}

/// The active, sufficiently staked members, in insertion order.
pub open spec fn spec_active_validators(s: Seq<(Address, Validator)>, min_stake: Amount) -> Seq<
    Validator,
>
    decreases s.len(),
{
    if s.len() == 0 {
        Seq::empty()
    } else {
        let rest = spec_active_validators(s.drop_last(), min_stake);
        if s.last().1.spec_is_eligible(min_stake) {
            rest.push(s.last().1)
        } else {
            rest
        }
    }
}

/// The validator set: members in insertion order, with a cached stake total
/// and the admission rules.
#[derive(Debug, Clone, PartialEq, Eq)]
pub struct ValidatorSet {
    pub validators: Vec<(Address, Validator)>,
    pub total_stake: Amount,
    pub min_stake: Amount,
    pub max_validators: usize,
    pub epoch: Epoch,
}

impl ValidatorSet {
    /// Each member sits under its own address, addresses are unique, and
    /// the cached total equals the sum of the members' stakes.
    pub open spec fn wf(&self) -> bool {
        &&& assoc_unique(self.validators@)
        &&& forall|i: int|
            0 <= i < self.validators@.len() ==> (#[trigger] self.validators@[i]).0
                == self.validators@[i].1.address
        &&& self.total_stake as int == spec_sum_stakes(self.validators@)
    }

    /// The member registered under an address.
    pub open spec fn spec_get(&self, address: Address) -> Option<Validator> {
        assoc_find(self.validators@, address)
    }

    pub fn new(min_stake: Amount, max_validators: usize, epoch: Epoch) -> (r: Self)
        ensures
            r.wf(),
            r.validators@.len() == 0,
            r.total_stake == 0,
            r.min_stake == min_stake,
            r.max_validators == max_validators,
            r.epoch == epoch,
    {
        ValidatorSet { validators: Vec::new(), total_stake: 0, min_stake, max_validators, epoch }
    }

    /// The number of members.
    pub fn len(&self) -> (r: usize)
        ensures
            r == self.validators@.len(),
    {
        self.validators.len()
    }

    /// Whether an address is registered.
    pub fn contains(&self, address: &Address) -> (r: bool)
        requires
            self.wf(),
        ensures
            r == (self.spec_get(*address) is Some),
    {
        self.find_index(address).is_some()
    }

    /// The member registered under an address, if any.
    pub fn get_validator(&self, address: &Address) -> (r: Option<&Validator>)
        requires
            self.wf(),
        ensures
            match r {
                Some(v) => self.spec_get(*address) == Some(*v),
                None => self.spec_get(*address) is None,
            },
    {
        match self.find_index(address) {
            Some(i) => Some(&self.validators[i].1),
            None => None,
        }
    }

    /// The position of the member registered under an address.
    fn find_index(&self, address: &Address) -> (r: Option<usize>)
        requires
            assoc_unique(self.validators@),
        ensures
            match r {
                Some(i) => i < self.validators@.len() && self.validators@[i as int].0 == *address
                    && assoc_find(self.validators@, *address) == Some(
                    self.validators@[i as int].1,
                ),
                None => assoc_find(self.validators@, *address) is None,
            },
    {
        let mut i: usize = 0;
        while i < self.validators.len()
            invariant
                assoc_unique(self.validators@),
                i <= self.validators@.len(),
                forall|j: int| 0 <= j < i ==> (#[trigger] self.validators@[j]).0 != *address,
            decreases self.validators@.len() - i,
        {
            if address_eq(&self.validators[i].0, address) {
                proof {
                    crate::assoc::lemma_assoc_unique_at(self.validators@, i as int);
                }
                return Some(i);
            }
            i += 1;
        }
        proof {
            crate::assoc::lemma_assoc_find_none(self.validators@, *address);
        }
        None
    }

    /// Admits a validator, or replaces the member under the same address.
    /// Fails when the set is full, the stake is below the threshold, or the
    /// cached total cannot take the stake.
    pub fn add_validator(&mut self, validator: Validator) -> (r: Result<(), ConsensusError>)
        requires
            old(self).wf(),
        ensures
            final(self).wf(),
            final(self).min_stake == old(self).min_stake,
            final(self).max_validators == old(self).max_validators,
            final(self).epoch == old(self).epoch,
            r is Err ==> *final(self) == *old(self),
            ({
                let replaced = old(self).spec_get(validator.address);
                let new_total = spec_sum_stakes(old(self).validators@)
                    + validator.spec_total_stake() - (match replaced {
                    Some(v) => v.spec_total_stake() as int,
                    None => 0,
                });
                if old(self).validators@.len() >= old(self).max_validators {
                    r == Err::<(), ConsensusError>(ConsensusError::CapacityExceeded)
                } else if validator.spec_total_stake() < old(self).min_stake {
                    r == Err::<(), ConsensusError>(ConsensusError::InsufficientStake)
                } else if new_total > u64::MAX {
                    r == Err::<(), ConsensusError>(ConsensusError::CapacityExceeded)
                } else {
                    &&& r is Ok
                    &&& final(self).spec_get(validator.address) == Some(validator)
                    &&& forall|a: Address|
                        a != validator.address ==> #[trigger] final(self).spec_get(a) == old(
                            self,
                        ).spec_get(a)
                    &&& final(self).total_stake as int == new_total
                    &&& final(self).validators@.len() == old(self).validators@.len() + (
                    match replaced {
                        Some(_) => 0int,
                        None => 1,
                    })
                }
            }),
    {
        if self.validators.len() >= self.max_validators {
            return Err(ConsensusError::CapacityExceeded);
        }
        let stake = validator.total_stake();
        if stake < self.min_stake {
            return Err(ConsensusError::InsufficientStake);
        }
        match self.find_index(&validator.address) {
            Some(i) => {
                let old_stake = self.validators[i].1.total_stake();
                proof {
                    crate::assoc::lemma_assoc_find_some_index(self.validators@, validator.address);
                    lemma_sum_stakes_element(self.validators@, i as int);
                    lemma_sum_stakes_nonneg(self.validators@);
                }
                let reduced = self.total_stake - old_stake;
                match reduced.checked_add(stake) {
                    Some(new_total) => {
                        let ghost prev = self.validators@;
                        let addr = validator.address;
                        self.validators.set(i, (addr, validator));
                        self.total_stake = new_total;
                        proof {
                            lemma_sum_stakes_update(prev, i as int, (addr, validator));
                            crate::assoc::lemma_assoc_find_update(
                                prev,
                                i as int,
                                validator,
                                addr,
                            );
                            assert forall|a: Address|
                                a != addr implies #[trigger] assoc_find(self.validators@, a)
                                == assoc_find(prev, a) by {
                                crate::assoc::lemma_assoc_find_update(prev, i as int, validator, a);
                            }
                            assert(assoc_unique(self.validators@));
                        }
                        Ok(())
                    },
                    None => Err(ConsensusError::CapacityExceeded),
                }
            },
            None => {
                match self.total_stake.checked_add(stake) {
                    Some(new_total) => {
                        let ghost prev = self.validators@;
                        let addr = validator.address;
                        self.validators.push((addr, validator));
                        self.total_stake = new_total;
                        proof {
                            lemma_sum_stakes_push(prev, (addr, validator));
                            crate::assoc::lemma_assoc_find_push(prev, addr, validator, addr);
                            assert forall|a: Address|
                                a != addr implies #[trigger] assoc_find(self.validators@, a)
                                == assoc_find(prev, a) by {
                                crate::assoc::lemma_assoc_find_push(prev, addr, validator, a);
                            }
                            crate::assoc::lemma_assoc_find_none(prev, addr);
                            assert forall|i2: int, j2: int|
                                0 <= i2 < j2 < self.validators@.len() implies self.validators@[i2].0
                                != self.validators@[j2].0 by {
                                if j2 == self.validators@.len() - 1 {
                                    assert(self.validators@[i2] == prev[i2]);
                                }
                            }
                        }
                        Ok(())
                    },
                    None => Err(ConsensusError::CapacityExceeded),
                }
            },
        }
    }

    /// Removes the member under an address and hands it back; fails with
    /// NotFound when no member carries the address.
    pub fn remove_validator(&mut self, address: &Address) -> (r: Result<Validator, ConsensusError>)
        requires
            old(self).wf(),
        ensures
            final(self).wf(),
            final(self).min_stake == old(self).min_stake,
            final(self).max_validators == old(self).max_validators,
            final(self).epoch == old(self).epoch,
            r is Ok <==> old(self).spec_get(*address) is Some,
            r is Err ==> *final(self) == *old(self) && r->Err_0 == ConsensusError::NotFound,
            r is Ok ==> {
                &&& Some(r->Ok_0) == old(self).spec_get(*address)
                &&& final(self).spec_get(*address) is None
                &&& forall|a: Address|
                    a != *address ==> #[trigger] final(self).spec_get(a) == old(self).spec_get(a)
                &&& final(self).total_stake as int == spec_sum_stakes(old(self).validators@)
                    - r->Ok_0.spec_total_stake()
                &&& final(self).validators@.len() == old(self).validators@.len() - 1
            },
    {
        match self.find_index(address) {
            Some(i) => {
                proof {
                    lemma_sum_stakes_element(self.validators@, i as int);
                    lemma_sum_stakes_remove(self.validators@, i as int);
                }
                let ghost prev = self.validators@;
                let entry = self.validators.remove(i);
                self.total_stake = self.total_stake - entry.1.total_stake();
                proof {
                    lemma_remove_keeps_assoc(prev, i as int);
                }
                Ok(entry.1)
            },
            None => Err(ConsensusError::NotFound),
        }
    }

    /// The members that are active with enough stake, in insertion order.
    pub fn get_active_validators(&self) -> (r: Vec<Validator>)
        ensures
            r@ == spec_active_validators(self.validators@, self.min_stake),
    {
        let mut r: Vec<Validator> = Vec::new();
        let mut i: usize = 0;
        while i < self.validators.len()
            invariant
                i <= self.validators@.len(),
                r@ == spec_active_validators(self.validators@.take(i as int), self.min_stake),
            decreases self.validators@.len() - i,
        {
            let v = &self.validators[i].1;
            proof {
                assert(self.validators@.take(i as int + 1).drop_last() =~= self.validators@.take(
                    i as int,
                ));
                assert(self.validators@.take(i as int + 1).last() == self.validators@[i as int]);
            }
            if v.is_eligible(self.min_stake) {
                r.push(clone_validator(v));
            }
            i += 1;
        }
        proof {
            assert(self.validators@.take(self.validators@.len() as int) =~= self.validators@);
        }
        r
    }
}

impl ValidatorSet {
    /// The proposer for a slot under the given randomness: deterministic
    /// stake-weighted sampling over the active members, seeded by the
    /// digest of the slot and the randomness.
    pub fn select_proposer(&self, slot: u64, randomness: &[u8; 32]) -> (r: Option<Address>)
        ensures
            r == spec_pick_by_stake(
                spec_active_validators(self.validators@, self.min_stake),
                sha256_of(vstd::bytes::spec_u64_to_le_bytes(slot) + randomness@),
            ),
    {
        let active = self.get_active_validators();
        let mut seed: Vec<u8> = Vec::new();
        let slot_le = vstd::bytes::u64_to_le_bytes(slot);
        append_bytes(&mut seed, slot_le.as_slice());
        append_bytes(&mut seed, randomness.as_slice());
        proof {
            assert(Seq::<u8>::empty() + vstd::bytes::spec_u64_to_le_bytes(slot) + randomness@
                =~= vstd::bytes::spec_u64_to_le_bytes(slot) + randomness@);
        }
        let digest = crate::crypto::hash::Hasher::hash(seed.as_slice());
        pick_by_stake(&active, &digest)
    }
}

/// The sum of the total stakes of a list of validators, as an unbounded
/// integer.
pub open spec fn spec_stake_sum128(s: Seq<Validator>) -> int
    decreases s.len(),
{
    if s.len() == 0 {
        0
    } else {
        spec_stake_sum128(s.drop_last()) + s.last().spec_total_stake()
    }
}

/// The index picked by a stake-weighted walk: the first validator whose
/// running stake total strictly exceeds the threshold; the length if the
/// threshold is never exceeded.
pub open spec fn spec_weighted_index(s: Seq<Validator>, threshold: int) -> int
    decreases s.len(),
{
    if s.len() == 0 {
        0
    } else if s.first().spec_total_stake() > threshold {
        0
    } else {
        1 + spec_weighted_index(s.drop_first(), threshold - s.first().spec_total_stake())
    }
}

/// The validator picked by stake-weighted sampling over a seed digest: the
/// digest's low 16 bytes, read little-endian, are reduced modulo the total
/// stake, and the walk picks the first validator whose running total
/// exceeds that threshold. With no stake at all, the first validator.
pub open spec fn spec_pick_by_stake(active: Seq<Validator>, seed_digest: Seq<u8>) -> Option<
    Address,
> {
    if active.len() == 0 {
        None
    } else {
        let total = spec_stake_sum128(active);
        if total == 0 {
            Some(active[0].address)
        } else {
            let threshold = (vstd::bytes::spec_u128_from_le_bytes(seed_digest.take(16)) as int)
                % total;
            let i = spec_weighted_index(active, threshold);
            if i < active.len() {
                Some(active[i].address)
            } else {
                Some(active[0].address)
            }
        }
    }
}

/// Performs the stake-weighted walk over a seed digest.
pub fn pick_by_stake(active: &Vec<Validator>, seed_digest: &[u8; 32]) -> (r: Option<Address>)
    ensures
        r == spec_pick_by_stake(active@, seed_digest@),
{
    if active.len() == 0 {
        return None;
    }
    // the total stake of the walk, as a 128-bit sum
    let mut total: u128 = 0;
    let mut i: usize = 0;
    while i < active.len()
        invariant
            i <= active@.len(),
            total as int == spec_stake_sum128(active@.take(i as int)),
            total as int <= i * (u64::MAX as int),
        decreases active@.len() - i,
    {
        proof {
            assert(active@.take(i as int + 1).drop_last() =~= active@.take(i as int));
            assert(active@.take(i as int + 1).last() == active@[i as int]);
            assert((i + 1) * (u64::MAX as int) == i * (u64::MAX as int) + (
            u64::MAX as int)) by (nonlinear_arith);
            vstd::arithmetic::mul::lemma_mul_inequality(
                i as int,
                usize::MAX as int,
                u64::MAX as int,
            );
            assert((usize::MAX as int) * (u64::MAX as int) + (u64::MAX as int) < (
            u128::MAX as int)) by (nonlinear_arith);
        }
        total = total + active[i].total_stake() as u128;
        i += 1;
    }
    proof {
        assert(active@.take(active@.len() as int) =~= active@);
    }
    if total == 0 {
        return Some(active[0].address);
    }

    let digest16 = vstd::slice::slice_subrange(seed_digest.as_slice(), 0, 16);
    let random_value = vstd::bytes::u128_from_le_bytes(digest16);
    let ghost spec_threshold = (vstd::bytes::spec_u128_from_le_bytes(seed_digest@.take(16)) as int)
        % (total as int);
    let mut remaining: u128 = random_value % total;
    proof {
        assert(seed_digest@.subrange(0, 16) =~= seed_digest@.take(16));
        assert(remaining as int == spec_threshold);
        assert(active@.skip(0) =~= active@);
    }
    let mut j: usize = 0;
    while j < active.len()
        invariant
            j <= active@.len(),
            spec_weighted_index(active@, spec_threshold) == j + spec_weighted_index(
                active@.skip(j as int),
                remaining as int,
            ),
            active@.len() > 0,
            total as int == spec_stake_sum128(active@),
            total > 0,
            spec_threshold == (vstd::bytes::spec_u128_from_le_bytes(seed_digest@.take(16)) as int)
                % (total as int),
        decreases active@.len() - j,
    {
        let stake = active[j].total_stake() as u128;
        proof {
            assert(active@.skip(j as int).first() == active@[j as int]);
            assert(active@.skip(j as int).drop_first() =~= active@.skip(j as int + 1));
        }
        if stake > remaining {
            return Some(active[j].address);
        }
        remaining = remaining - stake;
        j += 1;
    }
    // the walk consumed the whole range: fall back to the first validator
    Some(active[0].address)
}

/// Removing one entry of an association with unique keys unbinds its key
/// and leaves every other binding alone.
pub proof fn lemma_remove_keeps_assoc(s: Seq<(Address, Validator)>, i: int)
    requires
        assoc_unique(s),
        0 <= i < s.len(),
    ensures
        assoc_unique(s.remove(i)),
        assoc_find(s.remove(i), s[i].0) is None,
        forall|a: Address| a != s[i].0 ==> #[trigger] assoc_find(s.remove(i), a) == assoc_find(s, a),
{
    let t = s.remove(i);
    assert forall|i2: int, j2: int| 0 <= i2 < j2 < t.len() implies t[i2].0 != t[j2].0 by {
        let oi = if i2 < i {
            i2
        } else {
            i2 + 1
        };
        let oj = if j2 < i {
            j2
        } else {
            j2 + 1
        };
        assert(t[i2] == s[oi]);
        assert(t[j2] == s[oj]);
    }
    crate::assoc::lemma_assoc_find_none(t, s[i].0);
    assert forall|j: int| 0 <= j < t.len() implies t[j].0 != s[i].0 by {
        if j < i {
            assert(t[j] == s[j]);
        } else {
            assert(t[j] == s[j + 1]);
        }
    }
    assert forall|a: Address| a != s[i].0 implies #[trigger] assoc_find(t, a) == assoc_find(
        s,
        a,
    ) by {
        lemma_find_vs_index(s, a);
        lemma_find_vs_index(t, a);
        match assoc_find(s, a) {
            Some(v) => {
                let k = choose|k: int|
                    0 <= k < s.len() && (#[trigger] s[k]).0 == a && s[k].1 == v;
                let k2 = if k < i {
                    k
                } else {
                    k - 1
                };
                assert(t[k2] == s[k]);
                crate::assoc::lemma_assoc_unique_at(t, k2);
            },
            None => {
                crate::assoc::lemma_assoc_find_none(s, a);
                if assoc_find(t, a) is Some {
                    crate::assoc::lemma_assoc_find_some_index(t, a);
                    let k2 = choose|k2: int|
                        0 <= k2 < t.len() && (#[trigger] t[k2]).0 == a && t[k2].1 == assoc_find(
                            t,
                            a,
                        )->0;
                    let ok = if k2 < i {
                        k2
                    } else {
                        k2 + 1
                    };
                    assert(t[k2] == s[ok]);
                }
            },
        }
    }
}

/// A bound key names the member at its entry.
proof fn lemma_find_vs_index(s: Seq<(Address, Validator)>, a: Address)
    ensures
        assoc_find(s, a) is Some ==> exists|k: int|
            0 <= k < s.len() && (#[trigger] s[k]).0 == a && s[k].1 == assoc_find(s, a)->0,
{
    if assoc_find(s, a) is Some {
        crate::assoc::lemma_assoc_find_some_index(s, a);
    }
}

} // verus!
