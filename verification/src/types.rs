//! Primitive types of the consensus core: hashes, keys, signatures,
//! addresses, amounts, and the error kinds that validation surfaces.

use vstd::prelude::*;

pub mod account;
pub mod block;
pub mod consensus;
pub mod transaction;
pub mod validator;

verus! {

/// A 32-byte SHA-256 digest.
pub type Hash = [u8; 32];

/// A 32-byte Ed25519 public key.
pub type PublicKey = [u8; 32];

/// A 32-byte Ed25519 secret key.
pub type PrivateKey = [u8; 32];

/// A token amount in base units.
pub type Amount = u64;

/// A per-account transaction counter.
pub type Nonce = u64;

/// A discrete time unit; one proposer per slot.
pub type Slot = u64;

/// A fixed number of consecutive slots.
pub type Epoch = u64;

/// A 64-byte Ed25519 signature.
#[derive(Debug, Clone, Copy, Eq)]
pub struct Signature(pub [u8; 64]);

impl PartialEq for Signature {
    fn eq(&self, o: &Signature) -> (r: bool) {
        bytes_eq(self.0.as_slice(), o.0.as_slice())
    }
}

impl vstd::std_specs::cmp::PartialEqSpecImpl for Signature {
    open spec fn obeys_eq_spec() -> bool {
        true
    }

    open spec fn eq_spec(&self, o: &Signature) -> bool {
        self.0@ == o.0@
    }
}

/// A 32-byte identifier derived from a public key by SHA-256.
#[derive(Debug, Clone, Copy, Eq, Hash)]
pub struct Address(pub Hash);

impl PartialEq for Address {
    fn eq(&self, o: &Address) -> (r: bool) {
        bytes_eq(self.0.as_slice(), o.0.as_slice())
    }
}

impl vstd::std_specs::cmp::PartialEqSpecImpl for Address {
    open spec fn obeys_eq_spec() -> bool {
        true
    }

    open spec fn eq_spec(&self, o: &Address) -> bool {
        self.0@ == o.0@
    }
}

impl Address {
    /// The address of a public key: its SHA-256 digest.
    pub fn from_public_key(public_key: &PublicKey) -> (r: Address)
        ensures
            r.0@ == crate::crypto::hash::sha256_of(public_key@),
    {
        Address(crate::crypto::hash::Hasher::hash(public_key.as_slice()))
    }
}

/// The error kinds that validation and state transitions surface.
#[derive(Debug, Clone, Copy, PartialEq, Eq, Structural)]
pub enum ConsensusError {
    /// Malformed block, attestation or transaction.
    StructuralInvalid,
    /// Cryptographic verification failed.
    SignatureInvalid,
    /// Wrong proposer for a slot, or an unknown validator index.
    AuthorityMismatch,
    /// A slot, epoch or checkpoint regressed.
    NonMonotonic,
    /// Validator admission rejected: the set is full.
    CapacityExceeded,
    /// Validator admission rejected: stake below the threshold.
    InsufficientStake,
    /// Unknown address or block.
    NotFound,
    /// Persistence or transport failure.
    IOFailure,
}

/// The networks a node can join, encoded on the wire as 1, 2 and 3.
#[derive(Debug, Clone, Copy, PartialEq, Eq, Structural)]
pub enum NetworkId {
    Mainnet,
    Testnet,
    Devnet,
}

impl NetworkId {
    /// The integer that stands for this network on the wire.
    pub fn wire_value(&self) -> (r: u8)
        ensures
            r == self.spec_wire_value(),
    {
        match self {
            NetworkId::Mainnet => 1,
            NetworkId::Testnet => 2,
            NetworkId::Devnet => 3,
        }
    }

    pub open spec fn spec_wire_value(&self) -> u8 {
        match self {
            NetworkId::Mainnet => 1,
            NetworkId::Testnet => 2,
            NetworkId::Devnet => 3,
        }
    }

    /// Reads a wire integer back; only 1, 2 and 3 stand for networks.
    pub fn from_wire(v: u8) -> (r: Option<NetworkId>)
        ensures
            r is Some <==> 1 <= v <= 3,
            r is Some ==> r->0.spec_wire_value() == v,
    {
        if v == 1 {
            Some(NetworkId::Mainnet)
        } else if v == 2 {
            Some(NetworkId::Testnet)
        } else if v == 3 {
            Some(NetworkId::Devnet)
        } else {
            None
        }
    }
}

impl Default for NetworkId {
    fn default() -> (r: Self)
        ensures
            r == NetworkId::Devnet,
    {
        NetworkId::Devnet
    }
}

/// The all-zero hash: the parent of a genesis block and the root of an
/// empty tree.
pub open spec fn spec_zero_hash() -> Seq<u8> {
    Seq::new(32, |i: int| 0u8)
}

pub fn zero_hash() -> (r: Hash)
    ensures
        r@ == spec_zero_hash(),
{
    let r: Hash = [0u8; 32];
    proof {
        assert(r@ =~= spec_zero_hash());
    }
    r
}

/// Relies on chrono::Utc::now (timestamp): the wall clock in whole seconds;
/// any value may come back.
#[verifier::external_body]
pub(crate) fn now_seconds() -> (r: u64) {
    chrono::Utc::now().timestamp() as u64
}

/// Relies on chrono::Utc::now (timestamp_millis): the wall clock in
/// milliseconds; any value may come back.
#[verifier::external_body]
pub(crate) fn now_millis() -> (r: u64) {
    chrono::Utc::now().timestamp_millis() as u64
}

/// Appends every byte of a slice to a vector.
pub fn append_bytes(out: &mut Vec<u8>, s: &[u8])
    ensures
        final(out)@ == old(out)@ + s@,
{
    let mut i: usize = 0;
    while i < s.len()
        invariant
            i <= s@.len(),
            out@ == old(out)@ + s@.take(i as int),
        decreases s@.len() - i,
    {
        out.push(s[i]);
        proof {
            assert(old(out)@ + s@.take(i as int) + seq![s@[i as int]] =~= old(out)@ + s@.take(
                i as int + 1,
            ));
        }
        i += 1;
    }
    proof {
        assert(s@.take(s@.len() as int) =~= s@);
    }
}

/// Compares two byte slices for element-wise equality.
pub fn bytes_eq(a: &[u8], b: &[u8]) -> (r: bool)
    ensures
        r == (a@ == b@),
{
    if a.len() != b.len() {
        return false;
    }
    let mut i: usize = 0;
    while i < a.len()
        invariant
            i <= a@.len(),
            a@.len() == b@.len(),
            forall|j: int| 0 <= j < i ==> a@[j] == b@[j],
        decreases a@.len() - i,
    {
        if a[i] != b[i] {
            return false;
        }
        i += 1;
    }
    proof {
        assert(a@ =~= b@);
    }
    true
}

/// Compares two hashes.
pub fn hash_eq(a: &Hash, b: &Hash) -> (r: bool)
    ensures
        r == (a@ == b@),
{
    bytes_eq(a.as_slice(), b.as_slice())
}

/// Compares two addresses.
pub fn address_eq(a: &Address, b: &Address) -> (r: bool)
    ensures
        r == (a == b),
{
    let r = bytes_eq(a.0.as_slice(), b.0.as_slice());
    proof {
        if a.0@ == b.0@ {
            assert(a.0 =~= b.0);
        } else {
            assert(a.0 != b.0);
        }
    }
    r
}

} // verus!
