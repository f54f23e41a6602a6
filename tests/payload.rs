use threshold_ecdsa::crypto::EcdsaCrypto;
use threshold_ecdsa::ecdsa::EcdsaImpl;
use threshold_ecdsa::payload::{
    completed, signers_with_shares, CompleteTuple, EcdsaPayload, OngoingSigning, TupleInCreation,
};
use threshold_ecdsa::pool::EcdsaPool;
use threshold_ecdsa::types::{
    ConfigId, ConfigRef, CryptoError, Dealing, EcdsaMessage, EcdsaTip, NodeId, Signature,
    SignatureRequest, SignatureShare, Transcript, TranscriptConfig, TranscriptKind,
};

const A: NodeId = 1;
const B: NodeId = 2;
const C: NodeId = 3;
const D: NodeId = 4;

/// Aggregation adds up the share materials; nothing else is called here.
struct SummingCrypto;

impl EcdsaCrypto for SummingCrypto {
    fn create_dealing(&self, _config: &TranscriptConfig, _dealer: NodeId) -> Result<u64, CryptoError> {
        Err(CryptoError::Operational)
    }

    fn verify_dealing_public(&self, _config: &TranscriptConfig, _dealing: &Dealing) -> Result<(), CryptoError> {
        Err(CryptoError::Operational)
    }

    fn verify_dealing_private(&self, _config: &TranscriptConfig, _dealing: &Dealing, _receiver: NodeId) -> Result<(), CryptoError> {
        Err(CryptoError::Operational)
    }

    fn create_support(&self, _config: &TranscriptConfig, _dealing: &Dealing, _supporter: NodeId) -> Result<u64, CryptoError> {
        Err(CryptoError::Operational)
    }

    fn create_signature_share(&self, _request: &SignatureRequest, _signer: NodeId) -> Result<u64, CryptoError> {
        Err(CryptoError::Operational)
    }

    fn verify_share(&self, _request: &SignatureRequest, _share: &SignatureShare) -> Result<(), CryptoError> {
        Ok(())
    }

    fn aggregate(&self, _request: &SignatureRequest, shares: &Vec<SignatureShare>) -> Result<u64, CryptoError> {
        Ok(shares.iter().map(|s| s.material).sum())
    }
}

fn cid(height: u64, seq: u64) -> ConfigId {
    ConfigId { height, seq }
}

fn key() -> ConfigId {
    cid(0, 999)
}

fn tip(height: u64, requests: Vec<SignatureRequest>) -> EcdsaTip {
    EcdsaTip { height, key_transcript: key(), configs: vec![], requests }
}

fn transcript(c: ConfigId, material: u64) -> Transcript {
    Transcript { config_id: c, material }
}

fn share(r: ConfigId, signer: NodeId, material: u64) -> EcdsaMessage {
    EcdsaMessage::Share(SignatureShare { request_id: r, signer, material })
}

fn complete_tuple(m: u64) -> CompleteTuple {
    CompleteTuple {
        kappa_unmasked: transcript(cid(1, m), m),
        lambda_masked: transcript(cid(1, m + 1), m + 1),
        key_times_lambda: transcript(cid(1, m + 2), m + 2),
        kappa_times_lambda: transcript(cid(1, m + 3), m + 3),
    }
}

fn request(id: ConfigId, threshold: u64) -> SignatureRequest {
    SignatureRequest { id, threshold, signers: vec![A, B, C, D], message: 9 }
}

#[test]
fn empty_payload_starts_one_fresh_tuple() {
    let p = EcdsaPayload::new();
    let next = p.next_payload(&tip(1, vec![]), &vec![], 2, 3);
    assert_eq!(next.in_creation.len(), 1);
    let t = next.in_creation[0];
    assert_eq!(t.kappa_config, ConfigRef { id: cid(2, 0), kind: TranscriptKind::RandomMasked });
    assert_eq!(t.lambda_config, ConfigRef { id: cid(2, 1), kind: TranscriptKind::RandomMasked });
    assert_eq!(t.unmask_kappa_config, None);
    assert!(next.available.is_empty() && next.ongoing.is_empty() && next.signatures.is_empty());
}

#[test]
fn no_fresh_tuple_once_target_is_reached() {
    let mut p = EcdsaPayload::new();
    p.available.push(complete_tuple(10));
    p.available.push(complete_tuple(20));
    let next = p.next_payload(&tip(1, vec![]), &vec![], 2, 2);
    assert!(next.in_creation.is_empty());
    assert_eq!(next.available.len(), 2);
}

#[test]
fn tuple_advances_to_complete_only_with_all_four_transcripts() {
    let t = tip(1, vec![]);
    let mut p = EcdsaPayload::new();
    p = p.next_payload(&t, &vec![], 2, 1);
    let kappa = p.in_creation[0].kappa_config.id;
    let lambda = p.in_creation[0].lambda_config.id;

    // kappa and lambda complete: the reshare and the key multiplication are issued.
    p = p.next_payload(&t, &vec![transcript(kappa, 100), transcript(lambda, 200)], 3, 1);
    assert_eq!(p.in_creation.len(), 1);
    let s = p.in_creation[0];
    assert_eq!(s.kappa_masked, Some(transcript(kappa, 100)));
    assert_eq!(s.lambda_masked, Some(transcript(lambda, 200)));
    assert_eq!(
        s.unmask_kappa_config,
        Some(ConfigRef { id: cid(3, 0), kind: TranscriptKind::ReshareToUnmasked { source: kappa } })
    );
    assert_eq!(
        s.key_times_lambda_config,
        Some(ConfigRef {
            id: cid(3, 1),
            kind: TranscriptKind::MaskedMultiplication { unmasked: key(), masked: lambda },
        })
    );
    assert_eq!(s.kappa_times_lambda_config, None);
    assert_eq!(completed(&s), None);

    // kappa unmasked and key times lambda complete: the last product is issued.
    p = p.next_payload(&t, &vec![transcript(cid(3, 0), 300), transcript(cid(3, 1), 400)], 4, 1);
    assert_eq!(p.in_creation.len(), 1);
    let s = p.in_creation[0];
    assert_eq!(
        s.kappa_times_lambda_config,
        Some(ConfigRef {
            id: cid(4, 2),
            kind: TranscriptKind::MaskedMultiplication { unmasked: cid(3, 0), masked: lambda },
        })
    );
    assert_eq!(completed(&s), None);
    assert!(p.available.is_empty());

    // The fourth transcript completes the tuple, and a fresh one starts.
    p = p.next_payload(&t, &vec![transcript(cid(4, 2), 500)], 5, 1);
    assert_eq!(
        p.available,
        vec![CompleteTuple {
            kappa_unmasked: transcript(cid(3, 0), 300),
            lambda_masked: transcript(lambda, 200),
            key_times_lambda: transcript(cid(3, 1), 400),
            kappa_times_lambda: transcript(cid(4, 2), 500),
        }]
    );
    assert!(p.in_creation.is_empty());
    let p = p.next_payload(&t, &vec![], 6, 2);
    assert_eq!(p.in_creation.len(), 1);
    assert_eq!(p.in_creation[0].kappa_config.id, cid(6, 0));
}

#[test]
fn tuple_with_three_transcripts_is_not_complete() {
    let mut t = TupleInCreation::fresh(cid(1, 0), cid(1, 1));
    t.kappa_unmasked = Some(transcript(cid(2, 0), 1));
    t.lambda_masked = Some(transcript(cid(1, 1), 2));
    t.key_times_lambda = Some(transcript(cid(2, 1), 3));
    assert_eq!(completed(&t), None);
    t.kappa_times_lambda = Some(transcript(cid(2, 2), 4));
    assert!(completed(&t).is_some());
}

#[test]
fn requests_take_available_tuples_oldest_first() {
    let r1 = cid(1, 50);
    let r2 = cid(1, 51);
    let r3 = cid(1, 52);
    let mut p = EcdsaPayload::new();
    p.available.push(complete_tuple(10));
    p.available.push(complete_tuple(20));
    let t = tip(1, vec![request(r1, 1), request(r2, 1), request(r3, 1)]);
    let next = p.next_payload(&t, &vec![], 2, 0);
    assert_eq!(
        next.ongoing,
        vec![
            OngoingSigning { request_id: r1, tuple: complete_tuple(10) },
            OngoingSigning { request_id: r2, tuple: complete_tuple(20) },
        ]
    );
    assert!(next.available.is_empty());
    let mut refilled = next.clone();
    refilled.available.push(complete_tuple(30));
    let next2 = refilled.next_payload(&t, &vec![], 3, 0);
    assert_eq!(next2.ongoing.len(), 3);
    assert_eq!(next2.ongoing[2], OngoingSigning { request_id: r3, tuple: complete_tuple(30) });
}

#[test]
fn removing_request_drops_its_pairing() {
    let r1 = cid(1, 50);
    let r2 = cid(1, 51);
    let mut p = EcdsaPayload::new();
    p.ongoing.push(OngoingSigning { request_id: r1, tuple: complete_tuple(10) });
    p.ongoing.push(OngoingSigning { request_id: r2, tuple: complete_tuple(20) });
    let next = p.next_payload(&tip(2, vec![request(r2, 1)]), &vec![], 3, 0);
    assert_eq!(next.ongoing, vec![OngoingSigning { request_id: r2, tuple: complete_tuple(20) }]);
}

#[test]
fn distinct_signers_count_each_signer_once() {
    let r = cid(1, 50);
    let v = vec![share(r, A, 1), share(r, A, 2), share(r, B, 3), share(cid(1, 51), C, 4)];
    assert_eq!(signers_with_shares(&v, r, &vec![A, B, C, A]), vec![A, B]);
}

#[test]
fn signature_needs_threshold_distinct_signers() {
    let r = cid(1, 50);
    let t = tip(2, vec![request(r, 3)]);
    let mut pool = EcdsaPool::new();
    pool.validated.push(share(r, A, 1));
    pool.validated.push(share(r, B, 2));
    pool.validated.push(share(r, B, 2));
    let mut prev = EcdsaPayload::new();
    prev.ongoing.push(OngoingSigning { request_id: r, tuple: complete_tuple(10) });
    let ecdsa = EcdsaImpl::new(A, SummingCrypto);
    let next = ecdsa.build_payload(&prev, &t, &vec![], &pool, 3, 0);
    assert!(next.signatures.is_empty());
    assert_eq!(next.ongoing.len(), 1);
}

#[test]
fn signature_assembled_once_third_share_arrives() {
    let r = cid(1, 50);
    let t = tip(2, vec![request(r, 3)]);
    let ecdsa = EcdsaImpl::new(A, SummingCrypto);
    let mut pool = EcdsaPool::new();
    pool.validated.push(share(r, A, 1));
    pool.validated.push(share(r, B, 2));
    let mut prev = EcdsaPayload::new();
    prev.ongoing.push(OngoingSigning { request_id: r, tuple: complete_tuple(10) });

    let next = ecdsa.build_payload(&prev, &t, &vec![], &pool, 3, 0);
    assert!(next.signatures.is_empty());
    assert_eq!(next.ongoing.len(), 1);

    pool.insert_unvalidated(share(r, C, 4));
    let changes = EcdsaImpl::new(D, SummingCrypto).on_state_change(&t, &pool);
    pool.apply_changes(&changes);
    let next = ecdsa.build_payload(&prev, &t, &vec![], &pool, 3, 0);
    assert_eq!(next.signatures, vec![Signature { request_id: r, material: 7 }]);
    assert!(next.ongoing.is_empty());
}
