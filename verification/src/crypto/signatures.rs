//! Ed25519 signing and verification, batch checks, and a threshold
//! multi-signature container.

use crate::types::{bytes_eq, ConsensusError, PrivateKey, PublicKey, Signature};
use ed25519_dalek::Signer;
use ed25519_dalek::Verifier;
use vstd::prelude::*;

verus! {

/// The Ed25519 public key derived from a secret key.
pub uninterp spec fn ed25519_pubkey_of(sk: Seq<u8>) -> Seq<u8>;

/// The Ed25519 signature of a message under a secret key; the scheme is
/// deterministic, so the bytes are a function of key and message alone.
pub uninterp spec fn ed25519_sig_of(sk: Seq<u8>, msg: Seq<u8>) -> Seq<u8>;

/// Whether an Ed25519 signature verifies under a public key; a key whose
/// bytes decode to no curve point verifies nothing.
pub uninterp spec fn ed25519_verifies(pk: Seq<u8>, msg: Seq<u8>, sig: Seq<u8>) -> bool;

/// Relies on ed25519_dalek::SigningKey::verifying_key: the public key is
/// derived from the secret key bytes alone.
#[verifier::external_body]
pub(crate) fn ed25519_derive_public_key(private_key: &[u8; 32]) -> (r: [u8; 32])
    ensures
        r@ == ed25519_pubkey_of(private_key@),
{
    let signing_key = ed25519_dalek::SigningKey::from_bytes(private_key);
    signing_key.verifying_key().to_bytes()
}

/// Relies on ed25519_dalek::SigningKey::sign: Ed25519 signing is
/// deterministic in key and message, and the signature it produces verifies
/// under the key's own public key.
#[verifier::external_body]
pub(crate) fn ed25519_sign_bytes(private_key: &[u8; 32], message: &[u8]) -> (r: [u8; 64])
    ensures
        r@ == ed25519_sig_of(private_key@, message@),
        ed25519_verifies(ed25519_pubkey_of(private_key@), message@, r@),
{
    let signing_key = ed25519_dalek::SigningKey::from_bytes(private_key);
    signing_key.sign(message).to_bytes()
}

/// Relies on ed25519_dalek::VerifyingKey::verify: whether a signature
/// verifies depends on the key, message and signature bytes alone; a public
/// key that decodes to no curve point fails.
#[verifier::external_body]
pub(crate) fn ed25519_verify_bytes(public_key: &[u8; 32], message: &[u8], signature: &[u8; 64]) -> (r:
    bool)
    ensures
        r == ed25519_verifies(public_key@, message@, signature@),
{
    match ed25519_dalek::VerifyingKey::from_bytes(public_key) {
        Ok(verifying_key) => {
            let sig = ed25519_dalek::Signature::from_bytes(signature);
            verifying_key.verify(message, &sig).is_ok()
        },
        Err(_) => false,
    }
}

pub struct SignatureUtils;

impl SignatureUtils {
    /// Signs a message; the signature verifies under the matching public key.
    pub fn sign(private_key: &PrivateKey, message: &[u8]) -> (r: Signature)
        ensures
            r.0@ == ed25519_sig_of(private_key@, message@),
            ed25519_verifies(ed25519_pubkey_of(private_key@), message@, r.0@),
    {
        Signature(ed25519_sign_bytes(private_key, message))
    }

    /// Verifies a signature; fails exactly when Ed25519 rejects it.
    pub fn verify(public_key: &PublicKey, message: &[u8], signature: &Signature) -> (r: Result<
        (),
        ConsensusError,
    >)
        ensures
            r is Ok <==> ed25519_verifies(public_key@, message@, signature.0@),
            r is Err ==> r->Err_0 == ConsensusError::SignatureInvalid,
    {
        if ed25519_verify_bytes(public_key, message, &signature.0) {
            Ok(())
        } else {
            Err(ConsensusError::SignatureInvalid)
        }
    }

    /// Signs a 32-byte hash.
    pub fn sign_hash(private_key: &PrivateKey, hash: &[u8; 32]) -> (r: Signature)
        ensures
            r.0@ == ed25519_sig_of(private_key@, hash@),
            ed25519_verifies(ed25519_pubkey_of(private_key@), hash@, r.0@),
    {
        Self::sign(private_key, hash.as_slice())
    }

    /// Verifies a signature over a 32-byte hash.
    pub fn verify_hash(public_key: &PublicKey, hash: &[u8; 32], signature: &Signature) -> (r:
        Result<(), ConsensusError>)
        ensures
            r is Ok <==> ed25519_verifies(public_key@, hash@, signature.0@),
            r is Err ==> r->Err_0 == ConsensusError::SignatureInvalid,
    {
        Self::verify(public_key, hash.as_slice(), signature)
    }

    /// Stands in for true aggregation: hands back the first signature, and
    /// fails only on an empty list.
    pub fn aggregate_signatures(signatures: &[Signature]) -> (r: Result<Signature, ConsensusError>)
        ensures
            r is Ok <==> signatures@.len() > 0,
            r is Ok ==> r->Ok_0 == signatures@[0],
            r is Err ==> r->Err_0 == ConsensusError::StructuralInvalid,
    {
        if signatures.len() == 0 {
            return Err(ConsensusError::StructuralInvalid);
        }
        Ok(signatures[0])
    }

    /// Checks an aggregate the way it was built: the signature must verify
    /// for the first key and message. An empty key or message list is a
    /// structural failure; a signature that does not verify a cryptographic
    /// one.
    pub fn verify_aggregated(
        public_keys: &[PublicKey],
        messages: &[&[u8]],
        aggregated_signature: &Signature,
    ) -> (r: Result<(), ConsensusError>)
        ensures
            r is Ok <==> public_keys@.len() > 0 && messages@.len() > 0 && ed25519_verifies(
                public_keys@[0]@,
                messages@[0]@,
                aggregated_signature.0@,
            ),
            r == Err::<(), ConsensusError>(ConsensusError::StructuralInvalid) <==> (
            public_keys@.len() == 0 || messages@.len() == 0),
            r is Err && public_keys@.len() > 0 && messages@.len() > 0 ==> r->Err_0
                == ConsensusError::SignatureInvalid,
    {
        if public_keys.len() == 0 || messages.len() == 0 {
            return Err(ConsensusError::StructuralInvalid);
        }
        Self::verify(&public_keys[0], messages[0], aggregated_signature)
    }

    /// Verifies each signature against its key and message; succeeds exactly
    /// when the lists line up and every signature verifies. Mismatched list
    /// lengths are a structural failure; a failing signature a cryptographic
    /// one.
    pub fn batch_verify(
        public_keys: &[PublicKey],
        messages: &[&[u8]],
        signatures: &[Signature],
    ) -> (r: Result<(), ConsensusError>)
        ensures
            r is Ok <==> public_keys@.len() == messages@.len() && messages@.len()
                == signatures@.len() && (forall|i: int|
                0 <= i < public_keys@.len() ==> #[trigger] ed25519_verifies(
                    public_keys@[i]@,
                    messages@[i]@,
                    signatures@[i].0@,
                )),
            r == Err::<(), ConsensusError>(ConsensusError::StructuralInvalid) <==> !(
            public_keys@.len() == messages@.len() && messages@.len() == signatures@.len()),
            r is Err && public_keys@.len() == messages@.len() && messages@.len()
                == signatures@.len() ==> r->Err_0 == ConsensusError::SignatureInvalid,
    {
        if public_keys.len() != messages.len() || messages.len() != signatures.len() {
            return Err(ConsensusError::StructuralInvalid);
        }
        let mut i: usize = 0;
        while i < public_keys.len()
            invariant
                public_keys@.len() == messages@.len(),
                messages@.len() == signatures@.len(),
                i <= public_keys@.len(),
                forall|j: int|
                    0 <= j < i ==> #[trigger] ed25519_verifies(
                        public_keys@[j]@,
                        messages@[j]@,
                        signatures@[j].0@,
                    ),
            decreases public_keys@.len() - i,
        {
            let r = Self::verify(&public_keys[i], messages[i], &signatures[i]);
            if r.is_err() {
                return Err(ConsensusError::SignatureInvalid);
            }
            i += 1;
        }
        Ok(())
    }
}

/// A collection of signatures over one message, valid once a threshold of
/// distinct signers have signed.
#[derive(Debug, Clone)]
pub struct MultiSignature {
    pub signatures: Vec<Signature>,
    pub signers: Vec<PublicKey>,
    pub threshold: usize,
}

impl MultiSignature {
    /// Whether a signer is already recorded.
    pub open spec fn spec_has_signer(&self, signer: PublicKey) -> bool {
        exists|j: int| 0 <= j < self.signers@.len() && #[trigger] self.signers@[j]@ == signer@
    }

    pub fn new(threshold: usize) -> (r: Self)
        ensures
            r.signatures@.len() == 0,
            r.signers@.len() == 0,
            r.threshold == threshold,
    {
        MultiSignature { signatures: Vec::new(), signers: Vec::new(), threshold }
    }

    /// Records a signature; each signer may sign once.
    pub fn add_signature(&mut self, signature: Signature, signer: PublicKey) -> (r: Result<
        (),
        ConsensusError,
    >)
        ensures
            r is Ok <==> !old(self).spec_has_signer(signer),
            r is Ok ==> final(self).signatures@ == old(self).signatures@.push(signature)
                && final(self).signers@ == old(self).signers@.push(signer) && final(self).threshold
                == old(self).threshold,
            r is Err ==> *final(self) == *old(self) && r->Err_0 == ConsensusError::StructuralInvalid,
    {
        let mut j: usize = 0;
        while j < self.signers.len()
            invariant
                j <= self.signers@.len(),
                forall|k: int| 0 <= k < j ==> #[trigger] self.signers@[k]@ != signer@,
            decreases self.signers@.len() - j,
        {
            if bytes_eq(self.signers[j].as_slice(), signer.as_slice()) {
                return Err(ConsensusError::StructuralInvalid);
            }
            j += 1;
        }
        self.signatures.push(signature);
        self.signers.push(signer);
        Ok(())
    }

    /// Whether enough signatures are present and every one has its signer.
    pub fn is_valid(&self) -> (r: bool)
        ensures
            r == (self.signatures@.len() >= self.threshold && self.signatures@.len()
                == self.signers@.len()),
    {
        self.signatures.len() >= self.threshold && self.signatures.len() == self.signers.len()
    }

    /// Verifies every recorded signature over the message; succeeds exactly
    /// when the threshold is met and each signature verifies for its signer.
    /// Too few signatures, or signers out of step with them, are a
    /// structural failure; a failing signature a cryptographic one.
    pub fn verify(&self, message: &[u8]) -> (r: Result<(), ConsensusError>)
        ensures
            r is Ok <==> self.signatures@.len() >= self.threshold && self.signatures@.len()
                == self.signers@.len() && (forall|i: int|
                0 <= i < self.signatures@.len() ==> #[trigger] ed25519_verifies(
                    self.signers@[i]@,
                    message@,
                    self.signatures@[i].0@,
                )),
            r == Err::<(), ConsensusError>(ConsensusError::StructuralInvalid) <==> !(
            self.signatures@.len() >= self.threshold && self.signatures@.len()
                == self.signers@.len()),
            r is Err && self.signatures@.len() >= self.threshold && self.signatures@.len()
                == self.signers@.len() ==> r->Err_0 == ConsensusError::SignatureInvalid,
    {
        if !(self.signatures.len() >= self.threshold && self.signatures.len()
            == self.signers.len()) {
            return Err(ConsensusError::StructuralInvalid);
        }
        let mut i: usize = 0;
        while i < self.signatures.len()
            invariant
                self.signatures@.len() == self.signers@.len(),
                self.signatures@.len() >= self.threshold,
                i <= self.signatures@.len(),
                forall|j: int|
                    0 <= j < i ==> #[trigger] ed25519_verifies(
                        self.signers@[j]@,
                        message@,
                        self.signatures@[j].0@,
                    ),
            decreases self.signatures@.len() - i,
        {
            let r = SignatureUtils::verify(&self.signers[i], message, &self.signatures[i]);
            if r.is_err() {
                return Err(ConsensusError::SignatureInvalid);
            }
            i += 1;
        }
        Ok(())
    }
}

} // verus!
