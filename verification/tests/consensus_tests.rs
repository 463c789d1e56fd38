use production_pos::consensus::engine::ConsensusEngine;
use production_pos::consensus::fork_choice::ForkChoice;
use production_pos::consensus::proposer_selection::ProposerSelector;
use production_pos::consensus::slashing::SlashingProcessor;
use production_pos::crypto::keys::KeyPair;
use production_pos::types::block::Block;
use production_pos::types::consensus::{Attestation, Checkpoint, ConsensusConfig};
use production_pos::types::validator::{
    Validator, ValidatorMetadata, ValidatorSet, ValidatorStatus,
};
use production_pos::types::{Address, Signature};

fn create_test_validators(count: usize) -> Vec<Validator> {
    let mut validators = Vec::new();
    for i in 0..count {
        let keypair = KeyPair::generate();
        let validator = Validator::new(
            keypair.address,
            keypair.public_key,
            10000,
            500,
            0,
            test_metadata(&format!("validator_{}", i)),
        );
        validators.push(validator);
    }
    validators
}

fn test_metadata(name: &str) -> ValidatorMetadata {
    ValidatorMetadata { name: name.to_string(), website: None, description: None, contact: None }
}

fn create_test_validator(address: Address, stake: u64) -> Validator {
    Validator::new(address, [0u8; 32], stake, 500, 0, test_metadata("test"))
}

fn create_test_block(height: u64, previous_hash: [u8; 32]) -> Block {
    let mut block = Block::default();
    block.header.height = height;
    block.header.previous_hash = previous_hash;
    block.header.proposer = Address([0u8; 32]);
    block
}

#[test]
fn test_fork_choice_basic() {
    let mut fork_choice = ForkChoice::new();

    let genesis = create_test_block(0, [0u8; 32]);
    let genesis_hash = genesis.hash();
    fork_choice.add_block(genesis);

    let block1 = create_test_block(1, genesis_hash);
    fork_choice.add_block(block1.clone_block());

    let head = fork_choice.get_head().unwrap();
    assert_eq!(head, block1.hash());
}

#[test]
fn integration_tests_test_proposer_selection() {
    let config = ConsensusConfig::default();
    let selector = ProposerSelector::new(config);

    let mut validator_set = ValidatorSet::new(1000, 100, 0);
    for validator in create_test_validators(5) {
        validator_set.add_validator(validator).unwrap();
    }

    let proposer1 = selector.select_proposer(1, &validator_set).unwrap();
    let proposer2 = selector.select_proposer(1, &validator_set).unwrap();
    assert_eq!(proposer1, proposer2);

    let proposer_slot_2 = selector.select_proposer(2, &validator_set).unwrap();
    assert!(validator_set.contains(&proposer_slot_2));
}

#[test]
fn test_fork_choice_single_block() {
    let mut fork_choice = ForkChoice::new();
    let block = create_test_block(1, [0u8; 32]);
    let block_hash = block.hash();

    fork_choice.add_block(block);

    assert_eq!(fork_choice.get_head(), Some(block_hash));
}

#[test]
fn test_fork_choice_linear_chain() {
    let mut fork_choice = ForkChoice::new();

    let block1 = create_test_block(1, [0u8; 32]);
    let block1_hash = block1.hash();
    fork_choice.add_block(block1);

    let block2 = create_test_block(2, block1_hash);
    let block2_hash = block2.hash();
    fork_choice.add_block(block2);

    assert_eq!(fork_choice.get_head(), Some(block2_hash));
}

#[test]
fn test_is_descendant() {
    let mut fork_choice = ForkChoice::new();

    let block1 = create_test_block(1, [0u8; 32]);
    let block1_hash = block1.hash();
    fork_choice.add_block(block1);

    let block2 = create_test_block(2, block1_hash);
    let block2_hash = block2.hash();
    fork_choice.add_block(block2);

    assert!(fork_choice.is_descendant(block1_hash, block2_hash));
    assert!(!fork_choice.is_descendant(block2_hash, block1_hash));
    assert!(fork_choice.is_descendant(block1_hash, block1_hash));
}

#[test]
fn test_fork_choice_attestations_steer_head() {
    let mut fork_choice = ForkChoice::new();

    let genesis = create_test_block(0, [0u8; 32]);
    let genesis_hash = genesis.hash();
    fork_choice.add_block(genesis);

    let mut left = create_test_block(1, genesis_hash);
    left.header.slot = 1;
    let left_hash = left.hash();
    fork_choice.add_block(left);

    let mut right = create_test_block(1, genesis_hash);
    right.header.slot = 2;
    let right_hash = right.hash();
    fork_choice.add_block(right);

    // the boost sits on the latest insertion; outvote it through the left
    for index in 0..200u64 {
        let attestation = Attestation {
            slot: 1,
            beacon_block_root: left_hash,
            source_epoch: 0,
            source_root: [0u8; 32],
            target_epoch: 0,
            target_root: left_hash,
            validator_index: index,
            signature: Signature([0u8; 64]),
        };
        fork_choice.add_attestation(attestation);
    }

    assert_eq!(fork_choice.get_head(), Some(left_hash));
    assert!(fork_choice.has_block(&right_hash));
}

#[test]
fn test_fork_choice_attestation_supersedes() {
    let mut fork_choice = ForkChoice::new();
    let target_a = [3u8; 32];
    let target_b = [4u8; 32];

    let vote = |target: [u8; 32]| Attestation {
        slot: 1,
        beacon_block_root: target,
        source_epoch: 0,
        source_root: [0u8; 32],
        target_epoch: 0,
        target_root: target,
        validator_index: 7,
        signature: Signature([0u8; 64]),
    };

    fork_choice.add_attestation(vote(target_a));
    fork_choice.add_attestation(vote(target_b));

    // one validator holds one vote: the earlier target lost its weight
    assert_eq!(fork_choice.get_weight(target_a), 0);
    assert_eq!(fork_choice.get_weight(target_b), 1);
}

#[test]
fn test_checkpoint_monotonicity() {
    let mut fork_choice = ForkChoice::new();

    assert!(fork_choice.update_justified_checkpoint(Checkpoint { epoch: 2, root: [1u8; 32] })
        .is_ok());
    // the justified epoch never goes backwards
    assert!(fork_choice.update_justified_checkpoint(Checkpoint { epoch: 1, root: [2u8; 32] })
        .is_err());
    // finalization cannot overtake justification
    assert!(fork_choice.update_finalized_checkpoint(Checkpoint { epoch: 3, root: [1u8; 32] })
        .is_err());
    assert!(fork_choice.update_finalized_checkpoint(Checkpoint { epoch: 2, root: [1u8; 32] })
        .is_ok());
    // nor backwards
    assert!(fork_choice.update_finalized_checkpoint(Checkpoint { epoch: 2, root: [1u8; 32] })
        .is_err());
    assert_eq!(fork_choice.justified_checkpoint.epoch, 2);
    assert_eq!(fork_choice.finalized_checkpoint.epoch, 2);
}

#[test]
fn test_finalization_prunes_stale_branch() {
    let mut fork_choice = ForkChoice::new();

    let genesis = create_test_block(0, [0u8; 32]);
    let genesis_hash = genesis.hash();
    fork_choice.add_block(genesis);

    let block1 = create_test_block(1, genesis_hash);
    let block1_hash = block1.hash();
    fork_choice.add_block(block1);

    // a sibling branch next to the first block
    let mut sibling = create_test_block(1, genesis_hash);
    sibling.header.slot = 9;
    let sibling_hash = sibling.hash();
    fork_choice.add_block(sibling);

    let block2 = create_test_block(2, block1_hash);
    let block2_hash = block2.hash();
    fork_choice.add_block(block2);

    let block3 = create_test_block(3, block2_hash);
    let block3_hash = block3.hash();
    fork_choice.add_block(block3);

    fork_choice.update_justified_checkpoint(Checkpoint { epoch: 1, root: block2_hash }).unwrap();
    fork_choice.update_finalized_checkpoint(Checkpoint { epoch: 1, root: block2_hash }).unwrap();

    // the sibling and everything above the finalized root are gone
    assert!(fork_choice.get_block(&sibling_hash).is_none());
    assert!(fork_choice.get_block(&genesis_hash).is_none());
    assert!(fork_choice.get_block(&block1_hash).is_none());
    // the finalized root and its descendants stay, and the head walks on
    assert!(fork_choice.has_block(&block2_hash));
    assert!(fork_choice.has_block(&block3_hash));
    assert_eq!(fork_choice.get_head(), Some(block3_hash));
    assert!(fork_choice.is_descendant(block2_hash, block3_hash));
}

#[test]
fn test_get_ancestor_and_chain_length() {
    let mut fork_choice = ForkChoice::new();

    let mut block1 = create_test_block(1, [0u8; 32]);
    block1.header.slot = 10;
    let block1_hash = block1.hash();
    fork_choice.add_block(block1);

    let mut block2 = create_test_block(2, block1_hash);
    block2.header.slot = 20;
    let block2_hash = block2.hash();
    fork_choice.add_block(block2);

    assert_eq!(fork_choice.get_ancestor(block2_hash, 20), Some(block2_hash));
    assert_eq!(fork_choice.get_ancestor(block2_hash, 15), Some(block1_hash));
    assert_eq!(fork_choice.get_ancestor(block2_hash, 5), None);
    assert_eq!(fork_choice.get_chain_length(block2_hash), 2);
    assert_eq!(fork_choice.get_chain_length([7u8; 32]), 0);

    fork_choice.clear_proposer_boost();
    assert!(fork_choice.proposer_boost_root.is_none());
}

#[test]
fn proposer_selection_test_proposer_selection() {
    let config = ConsensusConfig::default();
    let selector = ProposerSelector::new(config);

    let mut validator_set = ValidatorSet::new(1000, 100, 0);

    let addr1 = Address([1u8; 32]);
    let addr2 = Address([2u8; 32]);
    let validator1 = create_test_validator(addr1, 5000);
    let validator2 = create_test_validator(addr2, 10000);

    validator_set.add_validator(validator1).unwrap();
    validator_set.add_validator(validator2).unwrap();

    let proposer = selector.select_proposer(1, &validator_set).unwrap();
    assert!(proposer == addr1 || proposer == addr2);
}

#[test]
fn test_committee_generation() {
    let config = ConsensusConfig::default();
    let selector = ProposerSelector::new(config);

    let mut validator_set = ValidatorSet::new(1000, 100, 0);

    for i in 0..10 {
        let mut addr = [0u8; 32];
        addr[0] = i as u8;
        let validator = create_test_validator(Address(addr), 1000);
        validator_set.add_validator(validator).unwrap();
    }

    let committee = selector.get_committee(1, 0, &validator_set);
    assert!(!committee.is_empty());
    assert!(committee.len() <= 10);
}

#[test]
fn test_deterministic_selection() {
    let config = ConsensusConfig::default();
    let selector = ProposerSelector::new(config);

    let mut validator_set = ValidatorSet::new(1000, 100, 0);
    let validator = create_test_validator(Address([1u8; 32]), 5000);
    validator_set.add_validator(validator).unwrap();

    let proposer1 = selector.select_proposer(100, &validator_set).unwrap();
    let proposer2 = selector.select_proposer(100, &validator_set).unwrap();
    assert_eq!(proposer1, proposer2);
}

#[test]
fn test_independent_nodes_agree_on_proposer() {
    // two engines seeded alike pick the same proposer for every slot
    let build_set = || {
        let mut set = ValidatorSet::new(1000, 100, 0);
        set.add_validator(create_test_validator(Address([1u8; 32]), 5000)).unwrap();
        set.add_validator(create_test_validator(Address([2u8; 32]), 10000)).unwrap();
        set
    };
    let selector_a = ProposerSelector::new(ConsensusConfig::default());
    let selector_b = ProposerSelector::new(ConsensusConfig::default());
    let set_a = build_set();
    let set_b = build_set();

    for slot in 100..110u64 {
        assert_eq!(
            selector_a.select_proposer(slot, &set_a).unwrap(),
            selector_b.select_proposer(slot, &set_b).unwrap()
        );
    }
}

#[test]
fn test_selection_without_active_validators() {
    let config = ConsensusConfig::default();
    let selector = ProposerSelector::new(config);
    let validator_set = ValidatorSet::new(1000, 100, 0);
    assert!(selector.select_proposer(1, &validator_set).is_err());
    assert!(selector.get_committee(1, 0, &validator_set).is_empty());
}

#[test]
fn test_committee_is_permutation_prefix() {
    let config = ConsensusConfig::default();
    let selector = ProposerSelector::new(config);
    let mut validator_set = ValidatorSet::new(1000, 100, 0);
    for i in 0..5 {
        let mut addr = [0u8; 32];
        addr[0] = i as u8;
        validator_set.add_validator(create_test_validator(Address(addr), 1000)).unwrap();
    }

    let committee = selector.get_committee(3, 1, &validator_set);
    assert_eq!(committee.len(), 5);
    let mut sorted = committee.clone();
    sorted.sort();
    assert_eq!(sorted, vec![0u64, 1, 2, 3, 4]);

    // the same slot and index shuffle the same way twice
    let again = selector.get_committee(3, 1, &validator_set);
    assert_eq!(committee, again);
}

#[test]
fn test_engine_process_block() {
    let config = ConsensusConfig::default();
    let keypair = KeyPair::generate();
    let validator = Validator::new(
        keypair.address,
        keypair.public_key,
        config.min_deposit_amount,
        500,
        0,
        test_metadata("genesis"),
    );

    let mut engine = ConsensusEngine::new(config, vec![validator]).unwrap();

    let proposer = engine.get_proposer_for_slot(1).unwrap();
    assert_eq!(proposer, keypair.address);

    let mut block = Block::new(
        1,
        [0u8; 32],
        [0u8; 32],
        1,
        0,
        proposer,
        Vec::new(),
        [0u8; 32],
        1_000_000,
    );
    block.sign(&keypair.private_key);

    assert!(engine.process_block(&block).is_ok());
    assert_eq!(engine.current_slot, 1);
    assert_eq!(engine.get_head(), Some(block.hash()));

    // a replay fails the slot monotonicity check and changes nothing
    assert!(engine.process_block(&block).is_err());
    assert_eq!(engine.current_slot, 1);
}

#[test]
fn test_engine_rejects_wrong_proposer() {
    let config = ConsensusConfig::default();
    let keypair = KeyPair::generate();
    let outsider = KeyPair::generate();
    let validator = Validator::new(
        keypair.address,
        keypair.public_key,
        config.min_deposit_amount,
        500,
        0,
        test_metadata("genesis"),
    );
    let mut engine = ConsensusEngine::new(config, vec![validator]).unwrap();

    let mut block = Block::new(
        1,
        [0u8; 32],
        [0u8; 32],
        1,
        0,
        outsider.address,
        Vec::new(),
        [0u8; 32],
        1_000_000,
    );
    block.sign(&outsider.private_key);
    assert!(engine.process_block(&block).is_err());
}

#[test]
fn test_engine_rejects_bad_signature() {
    let config = ConsensusConfig::default();
    let keypair = KeyPair::generate();
    let outsider = KeyPair::generate();
    let validator = Validator::new(
        keypair.address,
        keypair.public_key,
        config.min_deposit_amount,
        500,
        0,
        test_metadata("genesis"),
    );
    let mut engine = ConsensusEngine::new(config, vec![validator]).unwrap();

    let mut block = Block::new(
        1,
        [0u8; 32],
        [0u8; 32],
        1,
        0,
        keypair.address,
        Vec::new(),
        [0u8; 32],
        1_000_000,
    );
    // signed by the wrong key
    block.sign(&outsider.private_key);
    assert!(engine.process_block(&block).is_err());
}

#[test]
fn test_engine_clock() {
    let config = ConsensusConfig::default();
    let engine = ConsensusEngine::new(config, Vec::new()).unwrap();
    assert_eq!(engine.slot_to_epoch(0), 0);
    assert_eq!(engine.slot_to_epoch(31), 0);
    assert_eq!(engine.slot_to_epoch(32), 1);
    assert_eq!(engine.epoch_to_slot(2), 64);
    assert!(engine.is_epoch_boundary(64));
    assert!(!engine.is_epoch_boundary(65));
}

#[test]
fn test_engine_attestations() {
    let config = ConsensusConfig::default();
    let keypair = KeyPair::generate();
    let validator = Validator::new(
        keypair.address,
        keypair.public_key,
        config.min_deposit_amount,
        500,
        0,
        test_metadata("genesis"),
    );
    let mut engine = ConsensusEngine::new(config, vec![validator]).unwrap();

    let attestation = Attestation {
        slot: 1,
        beacon_block_root: [5u8; 32],
        source_epoch: 0,
        source_root: [0u8; 32],
        target_epoch: 0,
        target_root: [5u8; 32],
        validator_index: 0,
        signature: Signature([0u8; 64]),
    };
    assert!(engine.process_attestation(&attestation).is_ok());

    let out_of_range = Attestation { validator_index: 9, ..attestation };
    assert!(engine.process_attestation(&out_of_range).is_err());
}

#[test]
fn test_engine_finalize_epoch_rewards_and_ejection() {
    let mut config = ConsensusConfig::default();
    config.min_deposit_amount = 1000;
    config.ejection_balance = 2000;
    config.min_validator_withdrawability_delay = 0;

    let rich = create_test_validator(Address([1u8; 32]), 1_000_000_000);
    let poor = create_test_validator(Address([2u8; 32]), 1000);

    let mut engine = ConsensusEngine::new(config, vec![rich, poor]).unwrap();
    let total_before = engine.validator_set.total_stake;

    engine.finalize_epoch(5).unwrap();

    // the rich validator took nearly the whole epoch reward
    let kept = engine.validator_set.get_validator(&Address([1u8; 32])).unwrap();
    assert!(kept.stake > 1_000_000_000);
    // the poor validator fell under the ejection balance and left at once
    assert!(engine.validator_set.get_validator(&Address([2u8; 32])).is_none());
    assert_eq!(engine.validator_set.epoch, 5);
    assert!(engine.validator_set.total_stake > total_before - 1000 - 1);
}

#[test]
fn test_reward_is_single_floor() {
    // the reward is one floor over the whole product: a share of 3 with
    // ratios 1/2 and 2/3 earns floor(3*1*2/(2*3)) = 1, not the nested
    // floor(floor(3/2)*2/3) = 0
    let mut config = ConsensusConfig::default();
    config.min_deposit_amount = 1;
    config.ejection_balance = 0;

    let mut small = create_test_validator(Address([1u8; 32]), 3);
    small.performance.blocks_proposed = 1;
    small.performance.blocks_missed = 1;
    small.performance.attestations_made = 2;
    small.performance.attestations_missed = 1;
    let large = create_test_validator(Address([2u8; 32]), 999_997);

    let mut engine = ConsensusEngine::new(config, vec![small, large]).unwrap();
    assert_eq!(engine.validator_set.total_stake, 1_000_000);

    engine.finalize_epoch(1).unwrap();
    let rewarded = engine.validator_set.get_validator(&Address([1u8; 32])).unwrap();
    assert_eq!(rewarded.stake, 4);
}

#[test]
fn test_slashing_detection() {
    let processor = SlashingProcessor::new();

    let base = Attestation {
        slot: 5,
        beacon_block_root: [1u8; 32],
        source_epoch: 1,
        source_root: [1u8; 32],
        target_epoch: 3,
        target_root: [2u8; 32],
        validator_index: 4,
        signature: Signature([0u8; 64]),
    };

    // a double vote: same target epoch, different roots
    let double = Attestation { target_root: [9u8; 32], ..base };
    assert!(processor.check_attester_slashing(&base, &double).unwrap().is_some());

    // a surround vote: one attestation strictly surrounds the other
    let inner = Attestation { source_epoch: 2, target_epoch: 2, target_root: [9u8; 32], ..base };
    assert!(processor.check_attester_slashing(&base, &inner).unwrap().is_some());

    // a different validator never convicts
    let other = Attestation { validator_index: 5, target_root: [9u8; 32], ..base };
    assert!(processor.check_attester_slashing(&base, &other).unwrap().is_none());

    // the same vote twice is no offence
    assert!(processor.check_attester_slashing(&base, &base).unwrap().is_none());
}

#[test]
fn test_slashing_penalty_and_jail() {
    let processor = SlashingProcessor::new();
    let mut validator = create_test_validator(Address([3u8; 32]), 12_800_000);

    let penalty = processor.compute_penalty(&validator, 128);
    assert_eq!(penalty, 100_000);

    let mut small = create_test_validator(Address([4u8; 32]), 10);
    assert_eq!(processor.compute_penalty(&small, 128), 1);

    // a heavy penalty jails the validator
    let mut proc2 = SlashingProcessor::new();
    proc2.process_slashing(&mut small, 9, 7).unwrap();
    assert_eq!(small.stake, 1);
    assert_eq!(small.status, ValidatorStatus::Jailed);
    assert_eq!(small.performance.last_slash_epoch, Some(7));

    // a light penalty leaves the validator active
    proc2.process_slashing(&mut validator, 1, 7).unwrap();
    assert_eq!(validator.status, ValidatorStatus::Active);
}
