use vstd::prelude::*;
use ark_relations::r1cs::SynthesisError;

verus! {

#[verifier::external_type_specification]
#[verifier::external_body]
pub struct ExSynthesisError(SynthesisError);

/// Why a range proof was rejected. There is a single reason on purpose: a
/// verifier must not reveal which of its checks failed.
#[derive(Clone, Copy, Debug, PartialEq, Eq, Structural)]
pub enum VerificationError {
    VerificationFailed,
}

/// Combines the two checks of a range proof: the SNARK's own verification
/// (which may also fail outright) and the equality of the proof's link
/// element, less the first link base, with the statement's commitment. The
/// proof is accepted only when the SNARK check returned `Ok(true)` and the
/// link matches; every other case gives the same error.
pub fn verification_outcome(snark_check: Result<bool, SynthesisError>, link_matches: bool) -> (r:
    Result<(), VerificationError>)
    ensures
        r is Ok <==> (snark_check matches Ok(true) && link_matches),
        r matches Err(e) ==> e == VerificationError::VerificationFailed,
{
    match snark_check {
        Ok(true) => {},
        _ => {
            return Err(VerificationError::VerificationFailed);
        },
    }
    if !link_matches {
        return Err(VerificationError::VerificationFailed);
    }
    Ok(())
}

} // verus!
