//! Deterministic proposer and committee selection: stake-weighted sampling
//! and a Fisher-Yates shuffle, both seeded by digests of the slot.

use crate::crypto::hash::{sha256_of, Hasher};
use crate::types::consensus::ConsensusConfig;
use crate::types::validator::{
    pick_by_stake, spec_active_validators, spec_pick_by_stake, ValidatorSet,
};
use crate::types::{append_bytes, Address, ConsensusError, Slot};
use vstd::bytes::{spec_u128_from_le_bytes, spec_u64_to_le_bytes, u128_from_le_bytes,
    u64_to_le_bytes};
use vstd::prelude::*;

verus! {

/// The digest that seeds selection for a slot.
pub open spec fn spec_slot_randomness(slot: Slot) -> Seq<u8> {
    sha256_of(spec_u64_to_le_bytes(slot))
}

/// The digest that seeds a committee's shuffle.
pub open spec fn spec_committee_seed(slot: Slot, committee_index: u64) -> Seq<u8> {
    sha256_of(spec_u64_to_le_bytes(slot) + spec_u64_to_le_bytes(committee_index))
}

/// The swap partner of position `i` in the shuffle: a digest of the seed
/// and the position, reduced modulo the positions up to `i`.
pub open spec fn spec_swap_target(seed: Seq<u8>, i: int) -> int {
    (spec_u128_from_le_bytes(
        sha256_of(seed + spec_u64_to_le_bytes(i as u64)).take(16),
    ) as int) % (i + 1)
}

/// The Fisher-Yates shuffle, applied at positions `i` down to 1.
pub open spec fn spec_shuffle_from(list: Seq<u64>, seed: Seq<u8>, i: int) -> Seq<u64>
    decreases i,
{
    if i < 1 || i >= list.len() {
        list
    } else {
        let j = spec_swap_target(seed, i);
        let swapped = list.update(i, list[j]).update(j, list[i]);
        spec_shuffle_from(swapped, seed, i - 1)
    }
}

/// The deterministic shuffle of a list under a seed.
pub open spec fn spec_shuffle(list: Seq<u64>, seed: Seq<u8>) -> Seq<u64> {
    spec_shuffle_from(list, seed, list.len() - 1)
}

/// The committee for a number of active validators: the shuffled indices,
/// truncated to the committee size.
pub open spec fn spec_committee(active_count: int, seed: Seq<u8>) -> Seq<u64> {
    let indices = Seq::new(active_count as nat, |k: int| k as u64);
    let size = if active_count < 128 {
        active_count
    } else {
        128
    };
    spec_shuffle(indices, seed).take(size)
}

/// Two proposer selections over the same slot and the same validator set
/// snapshot pick the same validator: selection reads nothing but its
/// arguments, so any two results agree.
pub proof fn lemma_select_proposer_deterministic(
    validator_set: ValidatorSet,
    slot: Slot,
    r1: Option<Address>,
    r2: Option<Address>,
)
    requires
        r1 == spec_pick_by_stake(
            spec_active_validators(validator_set.validators@, validator_set.min_stake),
            spec_slot_randomness(slot),
        ),
        r2 == spec_pick_by_stake(
            spec_active_validators(validator_set.validators@, validator_set.min_stake),
            spec_slot_randomness(slot),
        ),
    ensures
        r1 == r2,
{
}

/// Selects proposers and committees for slots, deterministically in the
/// slot and the validator set snapshot.
#[derive(Debug, Clone)]
pub struct ProposerSelector {
    pub config: ConsensusConfig,
}

impl ProposerSelector {
    pub fn new(config: ConsensusConfig) -> (r: Self)
        ensures
            r.config == config,
    {
        ProposerSelector { config }
    }

    /// The proposer for a slot: stake-weighted sampling over the active
    /// validators, seeded by the slot's randomness. Fails exactly when no
    /// validator is active.
    pub fn select_proposer(&self, slot: Slot, validator_set: &ValidatorSet) -> (r: Result<
        Address,
        ConsensusError,
    >)
        ensures
            ({
                let picked = spec_pick_by_stake(
                    spec_active_validators(validator_set.validators@, validator_set.min_stake),
                    spec_slot_randomness(slot),
                );
                match r {
                    Ok(a) => picked == Some(a),
                    Err(e) => picked is None && e == ConsensusError::NotFound,
                }
            }),
    {
        let active = validator_set.get_active_validators();
        let randomness = self.get_slot_randomness(slot);
        match pick_by_stake(&active, &randomness) {
            Some(address) => Ok(address),
            None => Err(ConsensusError::NotFound),
        }
    }

    /// The selection seed for a slot: the digest of its little-endian form.
    fn get_slot_randomness(&self, slot: Slot) -> (r: [u8; 32])
        ensures
            r@ == spec_slot_randomness(slot),
    {
        let le = u64_to_le_bytes(slot);
        Hasher::hash(le.as_slice())
    }

    /// The low 16 bytes of a digest, read as a little-endian integer.
    pub fn bytes_to_u128(&self, bytes: &[u8; 32]) -> (r: u128)
        ensures
            r == spec_u128_from_le_bytes(bytes@.take(16)),
    {
        let low = vstd::slice::slice_subrange(bytes.as_slice(), 0, 16);
        let r = u128_from_le_bytes(low);
        proof {
            assert(bytes@.subrange(0, 16) =~= bytes@.take(16));
        }
        r
    }

    /// The committee for a slot: the active validators' indices, shuffled
    /// under the committee seed and truncated to the committee size.
    pub fn get_committee(&self, slot: Slot, committee_index: u64, validator_set: &ValidatorSet)
        -> (r: Vec<u64>)
        ensures
            r@ == spec_committee(
                spec_active_validators(
                    validator_set.validators@,
                    validator_set.min_stake,
                ).len() as int,
                spec_committee_seed(slot, committee_index),
            ),
    {
        let active = validator_set.get_active_validators();
        if active.len() == 0 {
            proof {
                assert(spec_shuffle_from(Seq::<u64>::new(0, |k: int| k as u64), spec_committee_seed(slot, committee_index), -1)
                    =~= Seq::<u64>::new(0, |k: int| k as u64));
                assert(Seq::<u64>::new(0, |k: int| k as u64).take(0) =~= Seq::<u64>::empty());
            }
            return Vec::new();
        }

        let committee_size = if active.len() < 128 {
            active.len()
        } else {
            128
        };
        let seed = self.get_committee_seed(slot, committee_index);

        let mut indices: Vec<u64> = Vec::new();
        let mut k: usize = 0;
        let n = active.len();
        while k < n
            invariant
                k <= n,
                n <= usize::MAX,
                indices@ =~= Seq::<u64>::new(k as nat, |m: int| m as u64),
            decreases n - k,
        {
            proof {
                assert(k as u64 as int == k as int);
            }
            indices.push(k as u64);
            proof {
                assert(indices@ =~= Seq::<u64>::new((k + 1) as nat, |m: int| m as u64));
            }
            k += 1;
        }

        self.shuffle(&mut indices, &seed);

        // keep the first committee_size entries
        let mut committee: Vec<u64> = Vec::new();
        let mut t: usize = 0;
        while t < committee_size
            invariant
                t <= committee_size,
                committee_size <= indices@.len(),
                committee@ == indices@.take(t as int),
            decreases committee_size - t,
        {
            committee.push(indices[t]);
            proof {
                assert(indices@.take(t as int).push(indices@[t as int]) =~= indices@.take(
                    t as int + 1,
                ));
            }
            t += 1;
        }
        committee
    }

    /// The shuffle seed for a slot and committee: the digest of both
    /// little-endian forms laid side by side.
    fn get_committee_seed(&self, slot: Slot, committee_index: u64) -> (r: [u8; 32])
        ensures
            r@ == spec_committee_seed(slot, committee_index),
    {
        let mut data: Vec<u8> = Vec::new();
        let slot_le = u64_to_le_bytes(slot);
        let index_le = u64_to_le_bytes(committee_index);
        append_bytes(&mut data, slot_le.as_slice());
        append_bytes(&mut data, index_le.as_slice());
        proof {
            assert(Seq::<u8>::empty() + spec_u64_to_le_bytes(slot) + spec_u64_to_le_bytes(
                committee_index,
            ) =~= spec_u64_to_le_bytes(slot) + spec_u64_to_le_bytes(committee_index));
        }
        Hasher::hash(data.as_slice())
    }

    /// The Fisher-Yates shuffle under a seed: positions from the top down
    /// each swap with a digest-picked partner at or below them.
    fn shuffle(&self, list: &mut Vec<u64>, seed: &[u8; 32])
        ensures
            final(list)@ == spec_shuffle(old(list)@, seed@),
            final(list)@.len() == old(list)@.len(),
    {
        let ghost orig = list@;
        if list.len() < 2 {
            proof {
                assert(spec_shuffle_from(orig, seed@, orig.len() - 1) == orig);
            }
            return ;
        }
        let mut i: usize = list.len() - 1;
        while i >= 1
            invariant
                orig == old(list)@,
                1 <= i < list@.len(),
                list@.len() == orig.len(),
                spec_shuffle_from(orig, seed@, orig.len() - 1) == spec_shuffle_from(
                    list@,
                    seed@,
                    i as int,
                ),
            decreases i,
        {
            let mut hash_input: Vec<u8> = Vec::new();
            append_bytes(&mut hash_input, seed.as_slice());
            let i_le = u64_to_le_bytes(i as u64);
            append_bytes(&mut hash_input, i_le.as_slice());
            proof {
                assert(Seq::<u8>::empty() + seed@ + spec_u64_to_le_bytes(i as u64) =~= seed@
                    + spec_u64_to_le_bytes(i as u64));
            }
            let hash = Hasher::hash(hash_input.as_slice());
            let low = vstd::slice::slice_subrange(hash.as_slice(), 0, 16);
            let r128 = u128_from_le_bytes(low);
            proof {
                assert(hash@.subrange(0, 16) =~= hash@.take(16));
            }
            let j = (r128 % ((i as u128) + 1)) as usize;
            proof {
                assert(j == spec_swap_target(seed@, i as int));
                assert(0 <= j <= i);
            }
            let ghost before = list@;
            let a = list[i];
            let b = list[j];
            list.set(i, b);
            list.set(j, a);
            proof {
                assert(list@ =~= before.update(i as int, before[j as int]).update(
                    j as int,
                    before[i as int],
                ));
                assert(spec_shuffle_from(before, seed@, i as int) == spec_shuffle_from(
                    list@,
                    seed@,
                    i as int - 1,
                ));
            }
            if i == 1 {
                proof {
                    assert(spec_shuffle_from(list@, seed@, 0) == list@);
                }
                return ;
            }
            i -= 1;
        }
    }
}

} // verus!
