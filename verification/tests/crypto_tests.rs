use production_pos::crypto::hash::{compute_domain, compute_signing_root, HashBuilder, Hasher};
use production_pos::crypto::keys::KeyPair;
use production_pos::crypto::merkle::{MerkleTree, SparseMerkleTree};
use production_pos::crypto::signatures::{MultiSignature, SignatureUtils};
use production_pos::crypto::CryptoProvider;

#[test]
fn test_hash() {
    let data = b"hello world";
    let hash1 = Hasher::hash(data);
    let hash2 = Hasher::hash(data);

    assert_eq!(hash1, hash2);
    assert_eq!(hash1.len(), 32);
}

#[test]
fn test_hash_builder() {
    let data1 = b"hello";
    let data2 = b"world";

    let hash1 = {
        let mut builder = HashBuilder::new();
        builder.update(data1);
        builder.update(data2);
        builder.finalize()
    };

    let hash2 = Hasher::hash_multiple(&[data1, data2]);

    assert_eq!(hash1, hash2);
}

#[test]
fn test_hash_two() {
    let hash1 = Hasher::hash(b"left");
    let hash2 = Hasher::hash(b"right");

    let combined = Hasher::hash_two(&hash1, &hash2);
    assert_eq!(combined.len(), 32);
}

#[test]
fn test_double_hash() {
    let data = b"test data";
    let single = Hasher::hash(data);
    let double = Hasher::double_hash(data);

    assert_ne!(single, double);
    assert_eq!(double, Hasher::hash(&single));
}

#[test]
fn test_hash_builder_typed_updates() {
    // the builder's typed updates buffer little-endian bytes
    let mut builder = HashBuilder::new();
    builder.update_u64(7);
    builder.update_u32(9);
    let via_builder = builder.finalize();

    let mut bytes = Vec::new();
    bytes.extend_from_slice(&7u64.to_le_bytes());
    bytes.extend_from_slice(&9u32.to_le_bytes());
    assert_eq!(via_builder, Hasher::hash(&bytes));
}

#[test]
fn test_hash_changes_input() {
    // the digest is not the input handed back
    let data = [0u8; 32];
    let hash = Hasher::hash(&data);
    assert_ne!(hash, data);
}

#[test]
fn test_compute_domain_and_signing_root() {
    let domain_type = [1u8, 0, 0, 0];
    let fork_version = [0u8, 0, 0, 1];
    let genesis_root = Hasher::hash(b"genesis");

    let domain = compute_domain(&domain_type, &fork_version, &genesis_root);

    // the domain folds in the first 28 bytes of the fork-data digest
    let mut fork_data = Vec::new();
    fork_data.extend_from_slice(&fork_version);
    fork_data.extend_from_slice(&genesis_root);
    let fork_data_root = Hasher::hash(&fork_data);
    let mut expected = Vec::new();
    expected.extend_from_slice(&domain_type);
    expected.extend_from_slice(&fork_data_root[..28]);
    assert_eq!(domain, Hasher::hash(&expected));

    let object_root = Hasher::hash(b"object");
    let signing_root = compute_signing_root(&object_root, &domain);
    let mut concat = Vec::new();
    concat.extend_from_slice(&object_root);
    concat.extend_from_slice(&domain);
    assert_eq!(signing_root, Hasher::hash(&concat));
}

#[test]
fn test_keypair_generation() {
    let keypair = KeyPair::generate();
    assert_eq!(keypair.private_key.len(), 32);
    assert_eq!(keypair.public_key.len(), 32);
}

#[test]
fn test_keypair_from_private_key() {
    let keypair1 = KeyPair::generate();
    let keypair2 = KeyPair::from_private_key(keypair1.private_key).unwrap();

    assert_eq!(keypair1.private_key, keypair2.private_key);
    assert_eq!(keypair1.public_key, keypair2.public_key);
    assert_eq!(keypair1.address, keypair2.address);
}

#[test]
fn test_keypair_hex_conversion() {
    let keypair1 = KeyPair::generate();
    let hex = keypair1.to_hex();
    let keypair2 = KeyPair::from_hex(&hex).unwrap();

    assert_eq!(keypair1.private_key, keypair2.private_key);
    assert_eq!(keypair1.public_key, keypair2.public_key);
    assert_eq!(keypair1.address, keypair2.address);
}

#[test]
fn test_keypair_from_hex_rejects_bad_input() {
    // odd length, non-digits, and wrong sizes are all turned away
    assert!(KeyPair::from_hex("abc").is_err());
    assert!(KeyPair::from_hex("zz").is_err());
    assert!(KeyPair::from_hex("ab").is_err());
}

#[test]
fn test_sign_and_verify() {
    let keypair = KeyPair::generate();
    let message = b"test message";

    let signature = SignatureUtils::sign(&keypair.private_key, message);
    let result = SignatureUtils::verify(&keypair.public_key, message, &signature);

    assert!(result.is_ok());
}

#[test]
fn test_verify_invalid_signature() {
    let keypair1 = KeyPair::generate();
    let keypair2 = KeyPair::generate();
    let message = b"test message";

    let signature = SignatureUtils::sign(&keypair1.private_key, message);
    let result = SignatureUtils::verify(&keypair2.public_key, message, &signature);

    assert!(result.is_err());
}

#[test]
fn test_multi_signature() {
    let keypair1 = KeyPair::generate();
    let keypair2 = KeyPair::generate();
    let message = b"test message";

    let sig1 = SignatureUtils::sign(&keypair1.private_key, message);
    let sig2 = SignatureUtils::sign(&keypair2.private_key, message);

    let mut multi_sig = MultiSignature::new(2);
    multi_sig.add_signature(sig1, keypair1.public_key).unwrap();
    multi_sig.add_signature(sig2, keypair2.public_key).unwrap();

    assert!(multi_sig.is_valid());
    assert!(multi_sig.verify(message).is_ok());
}

#[test]
fn test_multi_signature_rejects_duplicate_signer() {
    let keypair = KeyPair::generate();
    let message = b"test message";
    let sig = SignatureUtils::sign(&keypair.private_key, message);

    let mut multi_sig = MultiSignature::new(2);
    multi_sig.add_signature(sig, keypair.public_key).unwrap();
    assert!(multi_sig.add_signature(sig, keypair.public_key).is_err());
    assert!(!multi_sig.is_valid());
    assert!(multi_sig.verify(message).is_err());
}

#[test]
fn test_batch_verify() {
    let keypair1 = KeyPair::generate();
    let keypair2 = KeyPair::generate();
    let m1: &[u8] = b"first";
    let m2: &[u8] = b"second";
    let s1 = SignatureUtils::sign(&keypair1.private_key, m1);
    let s2 = SignatureUtils::sign(&keypair2.private_key, m2);

    let keys = [keypair1.public_key, keypair2.public_key];
    let messages = [m1, m2];
    let sigs = [s1, s2];
    assert!(SignatureUtils::batch_verify(&keys, &messages, &sigs).is_ok());

    // a swapped signature fails the batch
    let swapped = [s2, s1];
    assert!(SignatureUtils::batch_verify(&keys, &messages, &swapped).is_err());
    // mismatched lengths fail outright
    assert!(SignatureUtils::batch_verify(&keys, &messages[..1], &sigs).is_err());
}

#[test]
fn test_aggregate_signatures() {
    let keypair = KeyPair::generate();
    let sig = SignatureUtils::sign(&keypair.private_key, b"payload");
    assert_eq!(SignatureUtils::aggregate_signatures(&[sig]).unwrap(), sig);
    assert!(SignatureUtils::aggregate_signatures(&[]).is_err());
}

#[test]
fn test_crypto_provider_roundtrip() {
    let (private_key, public_key) = CryptoProvider::generate_keypair();
    let message = b"provider message";
    let signature = CryptoProvider::sign(&private_key, message).unwrap();
    assert!(CryptoProvider::verify(&public_key, message, &signature).is_ok());

    let wrong = b"another message";
    assert!(CryptoProvider::verify(&public_key, wrong, &signature).is_err());

    assert_eq!(CryptoProvider::hash(b"x"), Hasher::hash(b"x"));
    assert_eq!(CryptoProvider::generate_random_bytes(16).len(), 16);
    assert_eq!(CryptoProvider::generate_random_hash().len(), 32);
}

#[test]
fn test_crypto_operations() {
    let keypair = KeyPair::generate();
    assert_eq!(keypair.private_key.len(), 32);
    assert_eq!(keypair.public_key.len(), 32);

    let message = b"test message";
    let signature = SignatureUtils::sign(&keypair.private_key, message);

    assert!(SignatureUtils::verify(&keypair.public_key, message, &signature).is_ok());

    let wrong_message = b"wrong message";
    assert!(SignatureUtils::verify(&keypair.public_key, wrong_message, &signature).is_err());
}

#[test]
fn test_merkle_tree() {
    let data: Vec<&[u8]> = vec![b"a", b"b", b"c", b"d"];
    let tree = MerkleTree::from_data(&data);

    let proof = tree.get_proof(1).unwrap();
    assert!(proof.verify());
    assert!(proof.verify_with_root(&tree.root));

    let wrong_root = [1u8; 32];
    assert!(!proof.verify_with_root(&wrong_root));
}

#[test]
fn test_merkle_tree_creation() {
    let data: Vec<&[u8]> = vec![b"a", b"b", b"c", b"d"];
    let tree = MerkleTree::from_data(&data);

    assert_eq!(tree.leaves.len(), 4);
    assert!(!tree.is_empty());
}

#[test]
fn test_merkle_proof() {
    let data: Vec<&[u8]> = vec![b"a", b"b", b"c", b"d"];
    let tree = MerkleTree::from_data(&data);

    let proof = tree.get_proof(1).unwrap();
    assert!(proof.verify());
    assert!(proof.verify_with_root(&tree.root));
}

#[test]
fn test_merkle_proof_wrong_root() {
    let data: Vec<&[u8]> = vec![b"a", b"b", b"c", b"d"];
    let tree = MerkleTree::from_data(&data);

    let proof = tree.get_proof(1).unwrap();
    let wrong_root = [1u8; 32];
    assert!(!proof.verify_with_root(&wrong_root));
}

#[test]
fn test_merkle_proof_altered_leaf_fails() {
    let data: Vec<&[u8]> = vec![b"a", b"b", b"c", b"d"];
    let tree = MerkleTree::from_data(&data);

    let mut proof = tree.get_proof(2).unwrap();
    proof.leaf_hash = Hasher::hash(b"tampered");
    assert!(!proof.verify());
}

#[test]
fn test_merkle_proof_odd_leaves() {
    // an odd tail node pairs with itself, and its proof still verifies
    let data: Vec<&[u8]> = vec![b"a", b"b", b"c"];
    let tree = MerkleTree::from_data(&data);
    for index in 0..3 {
        let proof = tree.get_proof(index).unwrap();
        assert!(proof.verify());
    }
    assert!(tree.get_proof(3).is_none());
}

#[test]
fn test_empty_merkle_tree() {
    let tree = MerkleTree::new(vec![]);
    assert!(tree.is_empty());
    assert_eq!(tree.root, [0u8; 32]);
}

#[test]
fn test_merkle_update_leaf() {
    let data: Vec<&[u8]> = vec![b"a", b"b", b"c", b"d"];
    let mut tree = MerkleTree::from_data(&data);
    let old_root = tree.root;

    assert!(tree.update_leaf(0, Hasher::hash(b"e")).is_ok());
    assert_ne!(tree.root, old_root);
    assert!(tree.update_leaf(9, Hasher::hash(b"f")).is_err());

    tree.add_leaf(Hasher::hash(b"g"));
    assert_eq!(tree.size(), 5);
}

#[test]
fn test_sparse_merkle_tree() {
    let mut smt = SparseMerkleTree::new(8);
    let value = Hasher::hash(b"test");

    smt.update(5, value);
    let proof = smt.get_proof(5);

    assert!(smt.verify_proof(5, value, &proof));
}

#[test]
fn test_sparse_merkle_tree_wrong_value() {
    let mut smt = SparseMerkleTree::new(8);
    let value = Hasher::hash(b"test");

    smt.update(5, value);
    let proof = smt.get_proof(5);
    let other = Hasher::hash(b"other");
    assert!(!smt.verify_proof(5, other, &proof));
}
