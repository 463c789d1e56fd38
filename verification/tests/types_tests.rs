use production_pos::consensus::attestation::AttestationProcessor;
use production_pos::validator::ValidatorService;
use production_pos::crypto::keys::KeyPair;
use production_pos::network::messages::{MessageType, NetworkMessage, ValidationResult};
use production_pos::types::account::AccountState;
use production_pos::types::block::Block;
use production_pos::types::consensus::{Attestation, ConsensusConfig};
use production_pos::types::transaction::Transaction;
use production_pos::types::validator::{
    Validator, ValidatorMetadata, ValidatorSet, ValidatorStatus,
};
use production_pos::types::{Address, NetworkId, Signature};

fn test_metadata(name: &str) -> ValidatorMetadata {
    ValidatorMetadata { name: name.to_string(), website: None, description: None, contact: None }
}

fn create_test_validators(count: usize) -> Vec<Validator> {
    let mut validators = Vec::new();
    for i in 0..count {
        let keypair = KeyPair::generate();
        let validator = Validator::new(
            keypair.address,
            keypair.public_key,
            10000,
            500,
            0,
            test_metadata(&format!("validator_{}", i)),
        );
        validators.push(validator);
    }
    validators
}

#[test]
fn test_transaction_creation_and_validation() {
    let keypair = KeyPair::generate();
    let from = keypair.address;
    let to = Address([1u8; 32]);

    let mut transaction = Transaction::new(from, to, 1000, 21000, 1000000, 1, Vec::new());

    transaction.sign(&keypair.private_key);

    assert!(transaction.is_valid());
    assert!(transaction.verify_signature(&keypair.public_key).is_ok());
}

#[test]
fn test_transaction_rejections() {
    let from = Address([1u8; 32]);
    let to = Address([2u8; 32]);

    // a value-free, payload-free transaction does nothing
    let noop = Transaction::new(from, to, 0, 21000, 1, 1, Vec::new());
    assert!(!noop.is_valid());

    // gas parameters must be positive
    let no_gas = Transaction::new(from, to, 5, 0, 1, 1, Vec::new());
    assert!(!no_gas.is_valid());

    // a transaction more than a day old has lapsed
    let mut stale = Transaction::new(from, to, 5, 21000, 1, 1, Vec::new());
    stale.timestamp = 0;
    assert!(!stale.is_valid_at(100_000_000));
    assert!(stale.is_valid_at(50_000));
}

#[test]
fn test_transaction_wrong_key_detected() {
    let signer = KeyPair::generate();
    let other = KeyPair::generate();
    let mut tx = Transaction::new(signer.address, Address([1u8; 32]), 7, 21000, 1, 1, Vec::new());
    tx.sign(&signer.private_key);
    assert!(tx.verify_signature(&signer.public_key).is_ok());
    assert!(tx.verify_signature(&other.public_key).is_err());
}

#[test]
fn test_transaction_fee_and_hash() {
    let from = Address([1u8; 32]);
    let to = Address([2u8; 32]);
    let tx = Transaction::new(from, to, 1000, 21000, 3, 1, Vec::new());
    assert_eq!(tx.fee(), 63000);
    assert_eq!(tx.total_cost(), 64000);

    // the identity covers the signature: signing changes the hash
    let keypair = KeyPair::generate();
    let mut signed = tx.clone();
    let before = signed.hash();
    signed.sign(&keypair.private_key);
    assert_ne!(before, signed.hash());
}

#[test]
fn test_block_signing_and_verification() {
    let keypair = KeyPair::generate();
    let proposer = keypair.address;

    let mut block = Block::new(
        1,
        [0u8; 32],
        [0u8; 32],
        1,
        0,
        proposer,
        Vec::new(),
        [0u8; 32],
        1000000,
    );
    block.sign(&keypair.private_key);

    assert!(block.verify_signature(&keypair.public_key).is_ok());

    let wrong_keypair = KeyPair::generate();
    assert!(block.verify_signature(&wrong_keypair.public_key).is_err());
}

#[test]
fn test_block_validity() {
    let keypair = KeyPair::generate();
    let tx = Transaction::new(keypair.address, Address([1u8; 32]), 5, 21000, 1, 1, Vec::new());
    let block = Block::new(
        1,
        [0u8; 32],
        [0u8; 32],
        1,
        0,
        keypair.address,
        vec![tx],
        [0u8; 32],
        1_000_000,
    );
    assert!(block.is_valid());
    assert_eq!(block.header.gas_used, 21000);

    // gas over the limit fails
    let mut over = block.clone();
    over.header.gas_used = over.header.gas_limit + 1;
    assert!(!over.is_valid());

    // a doctored transaction list breaks the recorded Merkle root
    let mut doctored = block.clone();
    doctored.transactions.clear();
    assert!(!doctored.is_valid());
}

#[test]
fn test_validator_set_operations() {
    let mut validator_set = ValidatorSet::new(1000, 10, 0);

    for validator in create_test_validators(3) {
        validator_set.add_validator(validator).unwrap();
    }

    assert_eq!(validator_set.len(), 3);
    assert_eq!(validator_set.get_active_validators().len(), 3);

    let randomness = [42u8; 32];
    let proposer = validator_set.select_proposer(1, &randomness);
    assert!(proposer.is_some());

    let selected_address = proposer.unwrap();
    assert!(validator_set.contains(&selected_address));
}

#[test]
fn test_validator_set_admission_rules() {
    let mut validator_set = ValidatorSet::new(1000, 1, 0);

    // too little stake
    let poor = create_test_validators(1).pop().unwrap();
    let mut poor = poor;
    poor.stake = 999;
    assert!(validator_set.add_validator(poor).is_err());

    // admitted
    let good = create_test_validators(1).pop().unwrap();
    let good_address = good.address;
    validator_set.add_validator(good).unwrap();

    // full
    let extra = create_test_validators(1).pop().unwrap();
    assert!(validator_set.add_validator(extra).is_err());

    // the cached total tracks the members at every step
    assert_eq!(validator_set.total_stake, 10000);
    let removed = validator_set.remove_validator(&good_address).unwrap();
    assert_eq!(removed.address, good_address);
    assert_eq!(validator_set.total_stake, 0);
    assert!(validator_set.remove_validator(&good_address).is_err());
}

#[test]
fn test_validator_set_replaces_reregistration() {
    // registering the same address again replaces the member and keeps the
    // cached total on the sum of the members
    let mut validator_set = ValidatorSet::new(1000, 10, 0);
    let address = Address([1u8; 32]);
    validator_set.add_validator(Validator::new(address, [0u8; 32], 5000, 500, 0, test_metadata("a"))).unwrap();
    validator_set.add_validator(Validator::new(address, [0u8; 32], 7000, 500, 0, test_metadata("b"))).unwrap();
    assert_eq!(validator_set.len(), 1);
    assert_eq!(validator_set.total_stake, 7000);
}

#[test]
fn test_validator_performance_and_slashing() {
    let mut validator = create_test_validators(1).pop().unwrap();
    validator.update_performance(true, false, 3);
    assert_eq!(validator.performance.blocks_proposed, 1);
    assert_eq!(validator.performance.attestations_missed, 1);
    assert_eq!(validator.last_active_epoch, 3);

    // a heavy slash jails
    validator.slash(5000, 4);
    assert_eq!(validator.stake, 5000);
    assert_eq!(validator.status, ValidatorStatus::Jailed);
    assert_eq!(validator.performance.slash_count, 1);

    assert!(!validator.is_active());
    assert!(!validator.is_eligible(1000));
}

#[test]
fn test_account_state_transfers() {
    let mut state = AccountState::new();
    let alice = Address([1u8; 32]);
    let bob = Address([2u8; 32]);

    state.create_account(alice, 1000);
    assert_eq!(state.total_supply, 1000);

    // moving value opens the recipient's account
    state.transfer(&alice, &bob, 300).unwrap();
    assert_eq!(state.get_account(&alice).unwrap().balance, 700);
    assert_eq!(state.get_account(&bob).unwrap().balance, 300);

    // a short balance moves nothing
    assert!(state.transfer(&alice, &bob, 100_000).is_err());
    // an unknown sender moves nothing
    assert!(state.transfer(&Address([9u8; 32]), &bob, 1).is_err());
}

#[test]
fn test_account_state_staking() {
    let mut state = AccountState::new();
    let delegator = Address([1u8; 32]);
    let validator = Address([2u8; 32]);

    state.create_account(delegator, 1000);
    state.stake(delegator, validator, 600).unwrap();
    assert_eq!(state.get_account(&delegator).unwrap().balance, 400);
    assert_eq!(state.get_total_staked(&delegator), 600);
    assert_eq!(state.get_validator_total_stake(&validator), 600);

    // unbonding frees the bond and clears it from the active totals
    state.unstake(delegator, validator, 600, 42).unwrap();
    assert_eq!(state.get_total_staked(&delegator), 0);
    assert_eq!(state.get_validator_total_stake(&validator), 0);

    // more than was bonded cannot be unbonded
    state.stake(delegator, validator, 100).unwrap();
    assert!(state.unstake(delegator, validator, 500, 43).is_err());
    assert!(state.unstake(Address([9u8; 32]), validator, 1, 43).is_err());
}

#[test]
fn test_unstake_failure_changes_nothing() {
    // a shortfall is reported before anything moves
    let mut state = AccountState::new();
    let delegator = Address([1u8; 32]);
    let validator = Address([2u8; 32]);
    state.create_account(delegator, 100);
    state.stake(delegator, validator, 5).unwrap();

    let before = state.clone();
    assert!(state.unstake(delegator, validator, 10, 9).is_err());
    assert_eq!(state, before);
    assert_eq!(state.get_total_staked(&delegator), 5);

    // the covered part can still be unbonded afterwards
    state.unstake(delegator, validator, 5, 9).unwrap();
    assert_eq!(state.get_total_staked(&delegator), 0);
}

#[test]
fn test_account_basics() {
    let mut state = AccountState::new();
    let addr = Address([1u8; 32]);
    state.create_account(addr, 50);
    let account = state.get_account_mut(&addr).unwrap();
    assert!(!account.is_contract());
    account.increment_nonce();
    account.credit(10);
    assert!(account.debit(100).is_err());
    assert!(account.debit(60).is_ok());
    assert_eq!(account.balance, 0);
    assert_eq!(account.nonce, 1);
}

#[test]
fn test_network_message_rules() {
    let ping = NetworkMessage::ping();
    assert_eq!(ping.msg_type, MessageType::Ping);
    assert!(ping.validate().is_ok());
    assert_eq!(ping.size(), 9);

    // a ping with a payload is malformed
    let bad_ping = NetworkMessage::new(MessageType::Ping, vec![1]);
    assert!(bad_ping.validate().is_err());

    // a block envelope needs a payload
    let empty_block = NetworkMessage::new(MessageType::Block, Vec::new());
    assert!(empty_block.validate().is_err());
    let block_msg = NetworkMessage::new(MessageType::Block, vec![1, 2, 3]);
    assert!(block_msg.validate().is_ok());

    // a stale envelope is turned away
    let mut old_msg = NetworkMessage::new(MessageType::Transaction, vec![1]);
    old_msg.timestamp = 0;
    assert!(old_msg.validate_at(10_000_000).is_err());

    let verdict: ValidationResult = old_msg.validate_at(10_000_000).into();
    assert_eq!(verdict, ValidationResult::Invalid);
    let verdict: ValidationResult = block_msg.validate().into();
    assert_eq!(verdict, ValidationResult::Valid);
}

#[test]
fn test_network_id_wire_encoding() {
    assert_eq!(NetworkId::Mainnet.wire_value(), 1);
    assert_eq!(NetworkId::Testnet.wire_value(), 2);
    assert_eq!(NetworkId::Devnet.wire_value(), 3);
    assert_eq!(NetworkId::from_wire(2), Some(NetworkId::Testnet));
    assert_eq!(NetworkId::from_wire(0), None);
    assert_eq!(NetworkId::from_wire(4), None);
    assert_eq!(NetworkId::default(), NetworkId::Devnet);
}

#[test]
fn test_address_from_public_key() {
    let keypair = KeyPair::generate();
    let address = Address::from_public_key(&keypair.public_key);
    assert_eq!(address, keypair.address);
    // the address is a digest, not the key handed back
    assert_ne!(address.0, keypair.public_key);
}

#[test]
fn test_attestation_processor() {
    let processor = AttestationProcessor::new();
    let good = Attestation {
        slot: 1,
        beacon_block_root: [1u8; 32],
        source_epoch: 1,
        source_root: [0u8; 32],
        target_epoch: 2,
        target_root: [1u8; 32],
        validator_index: 0,
        signature: Signature([0u8; 64]),
    };
    assert!(processor.validate_attestation(&good).is_ok());

    let bad = Attestation { source_epoch: 3, ..good };
    assert!(processor.validate_attestation(&bad).is_err());
}

#[test]
fn test_validator_service() {
    let mut service = ValidatorService::new();
    assert!(!service.is_active());
    assert!(service.get_address().is_none());
    assert!(service.start_validating().is_err());

    let keypair = KeyPair::generate();
    service.load_keypair(keypair.private_key).unwrap();
    assert_eq!(service.get_address(), Some(keypair.address));
    service.start_validating().unwrap();
    assert!(service.is_active());

    let mut block = Block::default();
    service.sign_block(&mut block).unwrap();
    assert!(block.verify_signature(&keypair.public_key).is_ok());

    let attestation = service.create_attestation(64, [5u8; 32]).unwrap();
    assert_eq!(attestation.slot, 64);
    assert_eq!(attestation.target_epoch, 2);
    assert_eq!(attestation.target_root, [5u8; 32]);

    service.stop_validating();
    assert!(!service.is_active());
}

#[test]
fn test_engine_defaults() {
    let config = ConsensusConfig::default();
    assert_eq!(config.slots_per_epoch, 32);
    assert_eq!(config.min_deposit_amount, 1_000_000_000);
    assert_eq!(config.ejection_balance, 16_000_000_000);
    assert_eq!(config.min_slashing_penalty_quotient, 128);
}
