use vstd::prelude::*;
use crate::api::{verify_outcome, verify_transformation, EternityError};
use crate::errors::PlayerError;
use crate::sign::decode_rejects;

verus! {

/// Space reserved for a vault account.
pub const VAULT_MAXIMUM_SIZE: usize = 5000;

/// A vault: the 32-byte key of its owner and whether it was initialized.
#[derive(Debug)]
pub struct Vault {
    pub owner_pubkey: [u8; 32],
    pub is_initialized: bool,
}

impl Vault {
    /// Records the owner and marks the vault initialized; a vault is initialized once.
    pub fn init(&mut self, owner_pubkey: [u8; 32]) -> (res: Result<(), PlayerError>)
        ensures
            old(self).is_initialized ==> res == Err::<(), PlayerError>(PlayerError::AlreadyInitialized) && *final(self) == *old(self),
            !old(self).is_initialized ==> res.is_ok() && final(self).owner_pubkey == owner_pubkey && final(self).is_initialized,
    {
        if self.is_initialized {
            return Err(PlayerError::AlreadyInitialized);
        }
        self.owner_pubkey = owner_pubkey;
        self.is_initialized = true;
        Ok(())
    }
}

/// The arguments of an account initialization: a signature, a 32-byte message, and the
/// public key of the account's creator.
pub struct ArtifactVerifyArgs {
    pub signature: Vec<u8>,
    pub message: [u8; 32],
    pub relic_key: Vec<u8>,
}

/// The decision of an account initialization: it goes ahead only where the signature on the
/// message verifies under the creator's key.
pub fn init_artifact_accounts(args: &ArtifactVerifyArgs) -> (res: Result<(), EternityError>)
    ensures
        res == verify_outcome(args.signature@, args.message@, args.relic_key@),
        res == Err::<(), EternityError>(EternityError::InvalidInput) <==> decode_rejects(args.signature@, args.relic_key@),
        res.is_err() ==> res == Err::<(), EternityError>(EternityError::InvalidInput) || res == Err::<(), EternityError>(EternityError::VerificationFailed),
{
    verify_transformation(args.signature.as_slice(), &args.message, args.relic_key.as_slice())
}

} // verus!
