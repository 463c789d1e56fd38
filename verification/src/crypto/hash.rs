//! SHA-256 hashing: single and chained digests, a streaming builder, and
//! domain-separated signing roots.

use crate::types::append_bytes;
use vstd::prelude::*;

verus! {

/// The SHA-256 digest of a byte sequence. The digest itself is not spelled
/// out; every contract of this crate speaks of it through this name.
pub uninterp spec fn sha256_of(data: Seq<u8>) -> Seq<u8>;

/// Relies on sha2::Sha256 (via the Digest trait): the SHA-256 digest of the
/// input, 32 bytes, a function of the input bytes alone.
#[verifier::external_body]
fn sha256_bytes(data: &[u8]) -> (r: crate::types::Hash)
    ensures
        r@ == sha256_of(data@),
{
    let mut hasher = <sha2::Sha256 as sha2::Digest>::new();
    sha2::Digest::update(&mut hasher, data);
    sha2::Digest::finalize(hasher).into()
}

/// The digest of two 32-byte hashes laid side by side.
pub open spec fn spec_hash_two(left: Seq<u8>, right: Seq<u8>) -> Seq<u8> {
    sha256_of(left + right)
}

pub struct Hasher;

impl Hasher {
    /// SHA-256 of one byte slice.
    pub fn hash(data: &[u8]) -> (r: crate::types::Hash)
        ensures
            r@ == sha256_of(data@),
    {
        sha256_bytes(data)
    }

    /// SHA-256 of several chunks laid side by side, equal to hashing their
    /// concatenation.
    pub fn hash_multiple(data_chunks: &[&[u8]]) -> (r: crate::types::Hash)
        ensures
            r@ == sha256_of(spec_concat_chunks(data_chunks@)),
    {
        let mut buf: Vec<u8> = Vec::new();
        let mut i: usize = 0;
        while i < data_chunks.len()
            invariant
                i <= data_chunks@.len(),
                buf@ == spec_concat_chunks(data_chunks@.take(i as int)),
            decreases data_chunks@.len() - i,
        {
            append_bytes(&mut buf, data_chunks[i]);
            proof {
                lemma_concat_chunks_take_step(data_chunks@, i as int);
            }
            i += 1;
        }
        proof {
            assert(data_chunks@.take(data_chunks@.len() as int) =~= data_chunks@);
        }
        sha256_bytes(buf.as_slice())
    }

    /// SHA-256 of two 32-byte hashes laid side by side.
    pub fn hash_two(left: &crate::types::Hash, right: &crate::types::Hash) -> (r: crate::types::Hash)
        ensures
            r@ == spec_hash_two(left@, right@),
    {
        let mut buf: Vec<u8> = Vec::new();
        append_bytes(&mut buf, left.as_slice());
        append_bytes(&mut buf, right.as_slice());
        sha256_bytes(buf.as_slice())
    }

    /// SHA-256 applied twice.
    pub fn double_hash(data: &[u8]) -> (r: crate::types::Hash)
        ensures
            r@ == sha256_of(sha256_of(data@)),
    {
        let first_hash = Self::hash(data);
        Self::hash(first_hash.as_slice())
    }

    /// An alternative digest: the same double SHA-256.
    pub fn alternative_hash(data: &[u8]) -> (r: crate::types::Hash)
        ensures
            r@ == sha256_of(sha256_of(data@)),
    {
        let first = Self::hash(data);
        Self::hash(first.as_slice())
    }

    /// SHA-256 of a domain tag followed by the data.
    pub fn hash_with_domain(domain: &[u8], data: &[u8]) -> (r: crate::types::Hash)
        ensures
            r@ == sha256_of(domain@ + data@),
    {
        let mut buf: Vec<u8> = Vec::new();
        append_bytes(&mut buf, domain);
        append_bytes(&mut buf, data);
        sha256_bytes(buf.as_slice())
    }
}

/// The chunks of a slice-of-slices laid side by side.
pub open spec fn spec_concat_chunks(chunks: Seq<&[u8]>) -> Seq<u8>
    decreases chunks.len(),
{
    if chunks.len() == 0 {
        Seq::empty()
    } else {
        spec_concat_chunks(chunks.drop_last()) + chunks.last()@
    }
}

proof fn lemma_concat_chunks_take_step(chunks: Seq<&[u8]>, i: int)
    requires
        0 <= i < chunks.len(),
    ensures
        spec_concat_chunks(chunks.take(i + 1)) == spec_concat_chunks(chunks.take(i))
            + chunks[i]@,
{
    assert(chunks.take(i + 1).drop_last() =~= chunks.take(i));
    assert(chunks.take(i + 1).last() == chunks[i]);
}

/// A streaming hash builder: bytes are buffered and hashed on `finalize`.
pub struct HashBuilder {
    buf: Vec<u8>,
}

impl HashBuilder {
    /// The bytes buffered so far.
    pub closed spec fn bytes(&self) -> Seq<u8> {
        self.buf@
    }

    pub fn new() -> (r: Self)
        ensures
            r.bytes() == Seq::<u8>::empty(),
    {
        HashBuilder { buf: Vec::new() }
    }

    /// Buffers a byte slice.
    pub fn update(&mut self, data: &[u8])
        ensures
            final(self).bytes() == old(self).bytes() + data@,
    {
        append_bytes(&mut self.buf, data);
    }

    /// Buffers a 64-bit integer as 8 little-endian bytes.
    pub fn update_u64(&mut self, value: u64)
        ensures
            final(self).bytes() == old(self).bytes() + vstd::bytes::spec_u64_to_le_bytes(value),
    {
        let le = vstd::bytes::u64_to_le_bytes(value);
        append_bytes(&mut self.buf, le.as_slice());
    }

    /// Buffers a 32-bit integer as 4 little-endian bytes.
    pub fn update_u32(&mut self, value: u32)
        ensures
            final(self).bytes() == old(self).bytes() + vstd::bytes::spec_u32_to_le_bytes(value),
    {
        let le = vstd::bytes::u32_to_le_bytes(value);
        append_bytes(&mut self.buf, le.as_slice());
    }

    /// Buffers a 32-byte hash.
    pub fn update_hash(&mut self, hash: &crate::types::Hash)
        ensures
            final(self).bytes() == old(self).bytes() + hash@,
    {
        append_bytes(&mut self.buf, hash.as_slice());
    }

    /// Hashes everything buffered.
    pub fn finalize(self) -> (r: crate::types::Hash)
        ensures
            r@ == sha256_of(self.bytes()),
    {
        sha256_bytes(self.buf.as_slice())
    }
}

impl Default for HashBuilder {
    fn default() -> (r: Self)
        ensures
            r.bytes() == Seq::<u8>::empty(),
    {
        Self::new()
    }
}

/// The domain for signing: SHA-256 of the 4-byte domain type followed by
/// the first 28 bytes of the digest of the fork version and the genesis
/// validators root.
pub open spec fn spec_compute_domain(
    domain_type: Seq<u8>,
    fork_version: Seq<u8>,
    genesis_validators_root: Seq<u8>,
) -> Seq<u8> {
    sha256_of(domain_type + sha256_of(fork_version + genesis_validators_root).take(28))
}

pub fn compute_domain(
    domain_type: &[u8; 4],
    fork_version: &[u8; 4],
    genesis_validators_root: &crate::types::Hash,
) -> (r: crate::types::Hash)
    ensures
        r@ == spec_compute_domain(domain_type@, fork_version@, genesis_validators_root@),
{
    let mut fork_data_root = HashBuilder::new();
    fork_data_root.update(fork_version.as_slice());
    fork_data_root.update(genesis_validators_root.as_slice());
    let fork_data_root = fork_data_root.finalize();

    let mut domain = HashBuilder::new();
    domain.update(domain_type.as_slice());
    domain.update(vstd::slice::slice_subrange(fork_data_root.as_slice(), 0, 28));
    proof {
        assert(Seq::<u8>::empty() + fork_version@ + genesis_validators_root@ =~= fork_version@
            + genesis_validators_root@);
        assert(fork_data_root@.subrange(0, 28) =~= fork_data_root@.take(28));
        assert(Seq::<u8>::empty() + domain_type@ + fork_data_root@.take(28) =~= domain_type@
            + fork_data_root@.take(28));
    }
    domain.finalize()
}

/// The signing root: SHA-256 of the object root followed by the domain.
pub open spec fn spec_signing_root(object_root: Seq<u8>, domain: Seq<u8>) -> Seq<u8> {
    sha256_of(object_root + domain)
}

pub fn compute_signing_root(object_root: &crate::types::Hash, domain: &crate::types::Hash) -> (r: crate::types::Hash)
    ensures
        r@ == spec_signing_root(object_root@, domain@),
{
    let mut signing_root = HashBuilder::new();
    signing_root.update(object_root.as_slice());
    signing_root.update(domain.as_slice());
    proof {
        assert(Seq::<u8>::empty() + object_root@ + domain@ =~= object_root@ + domain@);
    }
    signing_root.finalize()
}

} // verus!
