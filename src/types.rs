//! The data model of the threshold ECDSA core: identities, transcript
//! configs, the artifacts exchanged between replicas, and change sets.
use vstd::prelude::*;

verus! {

/// Identity of a replica.
pub type NodeId = u64;

/// Identity of a transcript config or of a signing request: the height of the
/// block that issued it, and a sequence number unique at that height.
#[derive(Clone, Copy, Debug, PartialEq, Eq, Structural)]
pub struct ConfigId {
    pub height: u64,
    pub seq: u64,
}

impl ConfigId {
    /// Whether this id was issued strictly before `height`.
    pub fn is_older_than(&self, height: u64) -> (r: bool)
        ensures
            r == (self.height < height),
    {
        self.height < height
    }
}

/// What a dealing round shares.
#[derive(Clone, Copy, Debug, PartialEq, Eq, Structural)]
pub enum TranscriptKind {
    /// A fresh random value, masked.
    RandomMasked,
    /// The value of the transcript of `source`, reshared unmasked.
    ReshareToUnmasked { source: ConfigId },
    /// The product of the unmasked transcript of `unmasked` and the masked
    /// transcript of `masked`, masked.
    MaskedMultiplication { unmasked: ConfigId, masked: ConfigId },
}

/// A config as recorded in a block payload: its id and its kind. The dealers
/// are those of the subnet.
#[derive(Clone, Copy, Debug, PartialEq, Eq, Structural)]
pub struct ConfigRef {
    pub id: ConfigId,
    pub kind: TranscriptKind,
}

/// The descriptor of one interactive dealing round.
#[derive(Clone, Debug)]
pub struct TranscriptConfig {
    pub id: ConfigId,
    pub kind: TranscriptKind,
    pub dealers: Vec<NodeId>,
}

/// The finished output of a config: an opaque handle on the shared value.
#[derive(Clone, Copy, Debug, PartialEq, Eq, Structural)]
pub struct Transcript {
    pub config_id: ConfigId,
    pub material: u64,
}

/// A pending request for a signature over `message`, signed by `threshold`
/// distinct members of `signers`.
#[derive(Clone, Debug)]
pub struct SignatureRequest {
    pub id: ConfigId,
    pub threshold: u64,
    pub signers: Vec<NodeId>,
    pub message: u64,
}

/// One dealer's contribution toward a config.
#[derive(Clone, Copy, Debug, PartialEq, Eq, Structural)]
pub struct Dealing {
    pub config_id: ConfigId,
    pub dealer: NodeId,
    pub material: u64,
}

/// A recipient's attestation that a dealing decrypts correctly for it.
#[derive(Clone, Copy, Debug, PartialEq, Eq, Structural)]
pub struct DealingSupport {
    pub config_id: ConfigId,
    pub dealer: NodeId,
    pub supporter: NodeId,
    pub material: u64,
}

/// One signer's partial signature for a signing request.
#[derive(Clone, Copy, Debug, PartialEq, Eq, Structural)]
pub struct SignatureShare {
    pub request_id: ConfigId,
    pub signer: NodeId,
    pub material: u64,
}

/// A full signature for a signing request.
#[derive(Clone, Copy, Debug, PartialEq, Eq, Structural)]
pub struct Signature {
    pub request_id: ConfigId,
    pub material: u64,
}

/// An artifact of the ECDSA pool.
#[derive(Clone, Copy, Debug, PartialEq, Eq, Structural)]
pub enum EcdsaMessage {
    Dealing(Dealing),
    Support(DealingSupport),
    Share(SignatureShare),
    Signature(Signature),
}

/// One mutation of the ECDSA pool.
#[derive(Clone, Copy, Debug, PartialEq, Eq, Structural)]
pub enum ChangeAction {
    /// Add an artifact created locally to the validated partition.
    AddToValidated(EcdsaMessage),
    /// Move an artifact from the unvalidated to the validated partition.
    MoveToValidated(EcdsaMessage),
    /// Remove an artifact from the validated partition.
    RemoveValidated(EcdsaMessage),
    /// Remove an artifact from the unvalidated partition.
    RemoveUnvalidated(EcdsaMessage),
}

/// The outcome of a cryptographic check that did not succeed.
#[derive(Clone, Copy, Debug, PartialEq, Eq, Structural)]
pub enum CryptoError {
    /// The artifact is invalid: it is discarded and never retried.
    InvalidArtifact,
    /// The check could not be run: the artifact stays pending.
    Operational,
}

/// The outcome of verifying one artifact, as the state machine reads it.
#[derive(Clone, Copy, Debug, PartialEq, Eq, Structural)]
pub enum Verdict {
    Valid,
    Invalid,
    /// Not checked, or the check failed for operational reasons.
    Unavailable,
}

/// Turns the result of a cryptographic check into a verdict.
pub fn verdict_of(r: Result<(), CryptoError>) -> (v: Verdict)
    ensures
        v == spec_verdict_of(r),
{
    match r {
        Ok(()) => Verdict::Valid,
        Err(CryptoError::InvalidArtifact) => Verdict::Invalid,
        Err(CryptoError::Operational) => Verdict::Unavailable,
    }
}

pub open spec fn spec_verdict_of(r: Result<(), CryptoError>) -> Verdict {
    match r {
        Ok(()) => Verdict::Valid,
        Err(CryptoError::InvalidArtifact) => Verdict::Invalid,
        Err(CryptoError::Operational) => Verdict::Unavailable,
    }
}

/// The ECDSA part of the finalized tip: its height, the config of the
/// subnet's signing key transcript, the live configs and the live signature
/// requests.
#[derive(Clone, Debug)]
pub struct EcdsaTip {
    pub height: u64,
    pub key_transcript: ConfigId,
    pub configs: Vec<TranscriptConfig>,
    pub requests: Vec<SignatureRequest>,
}

impl EcdsaTip {
    /// Config ids and request ids are each unique in a tip.
    pub open spec fn wf(&self) -> bool {
        &&& forall|i: int, j: int|
            0 <= i < j < self.configs@.len() ==> self.configs@[i].id != self.configs@[j].id
        &&& forall|i: int, j: int|
            0 <= i < j < self.requests@.len() ==> self.requests@[i].id != self.requests@[j].id
    }

    pub open spec fn config_live(&self, id: ConfigId) -> bool {
        exists|i: int| 0 <= i < self.configs@.len() && self.configs@[i].id == id
    }

    pub open spec fn request_live(&self, id: ConfigId) -> bool {
        exists|i: int| 0 <= i < self.requests@.len() && self.requests@[i].id == id
    }

    /// The position of the config with the given id.
    pub fn find_config(&self, id: ConfigId) -> (r: Option<usize>)
        ensures
            match r {
                Some(i) => i < self.configs@.len() && self.configs@[i as int].id == id,
                None => !self.config_live(id),
            },
    {
        let mut i: usize = 0;
        while i < self.configs.len()
            invariant
                i <= self.configs@.len(),
                forall|j: int| 0 <= j < i ==> self.configs@[j].id != id,
            decreases self.configs@.len() - i,
        {
            if self.configs[i].id == id {
                return Some(i);
            }
            i = i + 1;
        }
        None
    }

    /// The position of the signature request with the given id.
    pub fn find_request(&self, id: ConfigId) -> (r: Option<usize>)
        ensures
            match r {
                Some(i) => i < self.requests@.len() && self.requests@[i as int].id == id,
                None => !self.request_live(id),
            },
    {
        let mut i: usize = 0;
        while i < self.requests.len()
            invariant
                i <= self.requests@.len(),
                forall|j: int| 0 <= j < i ==> self.requests@[j].id != id,
            decreases self.requests@.len() - i,
        {
            if self.requests[i].id == id {
                return Some(i);
            }
            i = i + 1;
        }
        None
    }
}

/// Whether `n` is in `v`.
pub fn contains_node(v: &Vec<NodeId>, n: NodeId) -> (r: bool)
    ensures
        r == v@.contains(n),
{
    let mut i: usize = 0;
    while i < v.len()
        invariant
            i <= v@.len(),
            forall|j: int| 0 <= j < i ==> v@[j] != n,
        decreases v@.len() - i,
    {
        if v[i] == n {
            return true;
        }
        i = i + 1;
    }
    false
}

} // verus!
