//! Standalone attestation checks, ahead of fork choice.

use crate::types::consensus::Attestation;
use crate::types::ConsensusError;
use vstd::prelude::*;

verus! {

/// Checks attestations before they reach fork choice.
pub struct AttestationProcessor {}

/// The structural rule an attestation must meet on its own: the source
/// epoch cannot come after the target epoch.
pub open spec fn spec_attestation_ok(a: Attestation) -> bool {
    a.source_epoch <= a.target_epoch
}

impl AttestationProcessor {
    pub fn new() -> (r: Self) {
        AttestationProcessor {  }
    }

    /// Accepts an attestation exactly when it is well formed.
    pub fn process_attestation(&mut self, attestation: &Attestation) -> (r: Result<
        (),
        ConsensusError,
    >)
        ensures
            r is Ok <==> spec_attestation_ok(*attestation),
            r is Err ==> r->Err_0 == ConsensusError::StructuralInvalid,
    {
        self.validate_attestation(attestation)
    }

    /// An attestation is well formed exactly when its source epoch does not
    /// come after its target epoch.
    pub fn validate_attestation(&self, attestation: &Attestation) -> (r: Result<
        (),
        ConsensusError,
    >)
        ensures
            r is Ok <==> spec_attestation_ok(*attestation),
            r is Err ==> r->Err_0 == ConsensusError::StructuralInvalid,
    {
        if attestation.source_epoch > attestation.target_epoch {
            return Err(ConsensusError::StructuralInvalid);
        }
        Ok(())
    }
}

impl Default for AttestationProcessor {
    fn default() -> (r: Self) {
        Self::new()
    }
}

} // verus!
