//! The cryptographic service the state machine is driven with. Its results
//! are never trusted: the functions that decide take them as arguments, and
//! their contracts hold whatever the service returned.
use vstd::prelude::*;
use crate::types::{
    CryptoError, Dealing, NodeId, SignatureRequest, SignatureShare, TranscriptConfig,
};

verus! {

/// The cryptographic operations of threshold ECDSA. Every operation may fail
/// with `InvalidArtifact`, when its input is invalid, or with `Operational`,
/// when it could not be carried out.
pub trait EcdsaCrypto {
    /// Builds `dealer`'s dealing for `config`; returns its material.
    fn create_dealing(&self, config: &TranscriptConfig, dealer: NodeId) -> Result<u64, CryptoError>;

    /// Checks what anyone can check of a dealing.
    fn verify_dealing_public(&self, config: &TranscriptConfig, dealing: &Dealing) -> Result<
        (),
        CryptoError,
    >;

    /// Checks that `dealing` holds a good share for `receiver`.
    fn verify_dealing_private(
        &self,
        config: &TranscriptConfig,
        dealing: &Dealing,
        receiver: NodeId,
    ) -> Result<(), CryptoError>;

    /// Builds `supporter`'s support of `dealing`; returns its material.
    fn create_support(&self, config: &TranscriptConfig, dealing: &Dealing, supporter: NodeId) -> Result<
        u64,
        CryptoError,
    >;

    /// Builds `signer`'s signature share for `request`; returns its material.
    fn create_signature_share(&self, request: &SignatureRequest, signer: NodeId) -> Result<
        u64,
        CryptoError,
    >;

    /// Checks a signature share for `request`.
    fn verify_share(&self, request: &SignatureRequest, share: &SignatureShare) -> Result<
        (),
        CryptoError,
    >;

    /// Combines shares into a full signature for `request`; returns its
    /// material.
    fn aggregate(&self, request: &SignatureRequest, shares: &Vec<SignatureShare>) -> Result<
        u64,
        CryptoError,
    >;
}

} // verus!
