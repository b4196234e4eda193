use vstd::prelude::*;
use crate::sign::{artifact_verify, decode_rejects, verify_accepts, ValidationError};

verus! {

/// Why a signature was not accepted.
#[derive(Debug, PartialEq, Eq, Structural)]
pub enum EternityError {
    /// The key or the signature is malformed.
    InvalidInput,
    /// The signature does not match the key and the message.
    VerificationFailed,
}

/// The outcome of verifying `signature` on `message` under `key`: acceptance, a malformed
/// input, or a mismatch.
pub open spec fn verify_outcome(signature: Seq<u8>, message: Seq<u8>, key: Seq<u8>) -> Result<(), EternityError> {
    if verify_accepts(signature, message, key) {
        Ok(())
    } else if decode_rejects(signature, key) {
        Err(EternityError::InvalidInput)
    } else {
        Err(EternityError::VerificationFailed)
    }
}

/// Verification depends on its three inputs alone: two calls on the same signature, message
/// and key, whose results each meet the contract of `verify_transformation`, agree.
pub proof fn lemma_verification_deterministic(
    signature: Seq<u8>,
    message: Seq<u8>,
    key: Seq<u8>,
    first: Result<(), EternityError>,
    second: Result<(), EternityError>,
)
    requires
        first == verify_outcome(signature, message, key),
        second == verify_outcome(signature, message, key),
    ensures
        first == second,
{
}

/// Verifies `signature` on `artifact` (the message) under `public_key`. Fails with
/// `InvalidInput` exactly where the inputs do not decode; otherwise accepts or fails with
/// `VerificationFailed`.
pub fn verify_transformation(signature: &[u8], artifact: &[u8], public_key: &[u8]) -> (res: Result<(), EternityError>)
    ensures
        res == verify_outcome(signature@, artifact@, public_key@),
        res == Err::<(), EternityError>(EternityError::InvalidInput) <==> decode_rejects(signature@, public_key@),
        res.is_err() ==> res == Err::<(), EternityError>(EternityError::InvalidInput) || res == Err::<(), EternityError>(EternityError::VerificationFailed),
{
    match artifact_verify(signature, artifact, public_key) {
        Ok(()) => Ok(()),
        Err(ValidationError::Input) => Err(EternityError::InvalidInput),
        Err(ValidationError::Verify) => Err(EternityError::VerificationFailed),
    }
}

} // verus!
