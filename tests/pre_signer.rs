use threshold_ecdsa::crypto::EcdsaCrypto;
use threshold_ecdsa::ecdsa::EcdsaImpl;
use threshold_ecdsa::pool::EcdsaPool;
use threshold_ecdsa::pre_signer::{PreSigner, PreSignerOutcomes};
use threshold_ecdsa::types::{
    verdict_of, ChangeAction, ConfigId, CryptoError, Dealing, DealingSupport, EcdsaMessage,
    EcdsaTip, NodeId, SignatureRequest, SignatureShare, TranscriptConfig, TranscriptKind, Verdict,
};

const A: NodeId = 1;
const B: NodeId = 2;
const C: NodeId = 3;
const D: NodeId = 4;
const BAD: u64 = 666;

/// Deterministic stand-in for the cryptographic service: materials are
/// derived from their inputs, and `BAD` material never verifies.
struct StubCrypto {
    operational_failure: bool,
}

impl EcdsaCrypto for StubCrypto {
    fn create_dealing(&self, config: &TranscriptConfig, dealer: NodeId) -> Result<u64, CryptoError> {
        if self.operational_failure {
            return Err(CryptoError::Operational);
        }
        Ok(config.id.seq * 100 + dealer)
    }

    fn verify_dealing_public(&self, _config: &TranscriptConfig, dealing: &Dealing) -> Result<(), CryptoError> {
        if self.operational_failure {
            Err(CryptoError::Operational)
        } else if dealing.material == BAD {
            Err(CryptoError::InvalidArtifact)
        } else {
            Ok(())
        }
    }

    fn verify_dealing_private(&self, _config: &TranscriptConfig, dealing: &Dealing, _receiver: NodeId) -> Result<(), CryptoError> {
        if dealing.material == BAD {
            Err(CryptoError::InvalidArtifact)
        } else {
            Ok(())
        }
    }

    fn create_support(&self, _config: &TranscriptConfig, dealing: &Dealing, supporter: NodeId) -> Result<u64, CryptoError> {
        Ok(dealing.material * 10 + supporter)
    }

    fn create_signature_share(&self, request: &SignatureRequest, signer: NodeId) -> Result<u64, CryptoError> {
        Ok(request.message + signer)
    }

    fn verify_share(&self, _request: &SignatureRequest, share: &SignatureShare) -> Result<(), CryptoError> {
        if share.material == BAD {
            Err(CryptoError::InvalidArtifact)
        } else {
            Ok(())
        }
    }

    fn aggregate(&self, _request: &SignatureRequest, shares: &Vec<SignatureShare>) -> Result<u64, CryptoError> {
        Ok(shares.iter().map(|s| s.material).sum())
    }
}

fn stub() -> StubCrypto {
    StubCrypto { operational_failure: false }
}

fn cid(height: u64, seq: u64) -> ConfigId {
    ConfigId { height, seq }
}

fn config(id: ConfigId, dealers: Vec<NodeId>) -> TranscriptConfig {
    TranscriptConfig { id, kind: TranscriptKind::RandomMasked, dealers }
}

fn tip(height: u64, configs: Vec<TranscriptConfig>, requests: Vec<SignatureRequest>) -> EcdsaTip {
    EcdsaTip { height, key_transcript: cid(0, 999), configs, requests }
}

fn dealing(c: ConfigId, dealer: NodeId, material: u64) -> EcdsaMessage {
    EcdsaMessage::Dealing(Dealing { config_id: c, dealer, material })
}

fn share(r: ConfigId, signer: NodeId, material: u64) -> EcdsaMessage {
    EcdsaMessage::Share(SignatureShare { request_id: r, signer, material })
}

fn dealings_in(p: &[EcdsaMessage], c: ConfigId) -> Vec<NodeId> {
    p.iter()
        .filter_map(|m| match m {
            EcdsaMessage::Dealing(d) if d.config_id == c => Some(d.dealer),
            _ => None,
        })
        .collect()
}

fn tick(node: NodeId, t: &EcdsaTip, pool: &mut EcdsaPool) -> Vec<ChangeAction> {
    let ecdsa = EcdsaImpl::new(node, stub());
    let changes = ecdsa.on_state_change(t, pool);
    pool.apply_changes(&changes);
    changes
}

#[test]
fn dealer_issues_missing_dealing_in_one_tick() {
    let c = cid(5, 0);
    let t = tip(5, vec![config(c, vec![A, B, C])], vec![]);
    let mut pool = EcdsaPool::new();
    let changes = tick(A, &t, &mut pool);
    assert_eq!(changes, vec![ChangeAction::AddToValidated(dealing(c, A, 1))]);
    assert_eq!(dealings_in(&pool.validated, c), vec![A]);
}

#[test]
fn non_dealer_issues_no_dealing() {
    let c = cid(5, 0);
    let t = tip(5, vec![config(c, vec![B, C])], vec![]);
    let mut pool = EcdsaPool::new();
    let changes = tick(A, &t, &mut pool);
    assert!(changes.is_empty());
}

#[test]
fn dealer_never_deals_twice_for_one_config() {
    let c = cid(5, 0);
    let t = tip(5, vec![config(c, vec![A, B])], vec![]);
    let mut pool = EcdsaPool::new();
    for _ in 0..5 {
        tick(A, &t, &mut pool);
    }
    assert_eq!(dealings_in(&pool.validated, c), vec![A]);
}

#[test]
fn peer_dealing_is_validated_then_supported() {
    let c = cid(5, 0);
    let t = tip(5, vec![config(c, vec![A, B])], vec![]);
    let mut pool = EcdsaPool::new();
    pool.insert_unvalidated(dealing(c, B, 7));
    let first = tick(A, &t, &mut pool);
    assert!(first.contains(&ChangeAction::MoveToValidated(dealing(c, B, 7))));
    assert!(pool.unvalidated.is_empty());
    let second = tick(A, &t, &mut pool);
    assert!(second.contains(&ChangeAction::AddToValidated(EcdsaMessage::Support(DealingSupport {
        config_id: c,
        dealer: B,
        supporter: A,
        material: 7 * 10 + A,
    }))));
}

#[test]
fn duplicate_dealings_converge_to_one() {
    let c = cid(5, 0);
    let t = tip(5, vec![config(c, vec![A, B])], vec![]);
    let mut pool = EcdsaPool::new();
    pool.insert_unvalidated(dealing(c, B, 7));
    pool.insert_unvalidated(dealing(c, B, 8));
    pool.insert_unvalidated(dealing(c, B, 9));
    let changes = tick(A, &t, &mut pool);
    assert!(changes.contains(&ChangeAction::MoveToValidated(dealing(c, B, 7))));
    assert!(changes.contains(&ChangeAction::RemoveUnvalidated(dealing(c, B, 8))));
    assert!(changes.contains(&ChangeAction::RemoveUnvalidated(dealing(c, B, 9))));
    assert_eq!(dealings_in(&pool.validated, c), vec![A, B]);
    assert!(pool.unvalidated.is_empty());
    pool.insert_unvalidated(dealing(c, B, 10));
    let again = tick(A, &t, &mut pool);
    assert!(again.contains(&ChangeAction::RemoveUnvalidated(dealing(c, B, 10))));
    assert_eq!(dealings_in(&pool.validated, c), vec![A, B]);
}

#[test]
fn invalid_dealing_is_never_validated() {
    let c = cid(5, 0);
    let t = tip(5, vec![config(c, vec![A, B])], vec![]);
    let mut pool = EcdsaPool::new();
    pool.insert_unvalidated(dealing(c, B, BAD));
    let changes = tick(A, &t, &mut pool);
    assert!(changes.contains(&ChangeAction::RemoveUnvalidated(dealing(c, B, BAD))));
    for _ in 0..3 {
        tick(A, &t, &mut pool);
    }
    assert_eq!(dealings_in(&pool.validated, c), vec![A]);
    assert!(pool.unvalidated.is_empty());
}

#[test]
fn dealing_from_non_dealer_or_claiming_own_identity_is_removed() {
    let c = cid(5, 0);
    let t = tip(5, vec![config(c, vec![A, B])], vec![]);
    let mut pool = EcdsaPool::new();
    pool.insert_unvalidated(dealing(c, D, 7));
    pool.insert_unvalidated(dealing(c, A, 7));
    let changes = tick(A, &t, &mut pool);
    assert!(changes.contains(&ChangeAction::RemoveUnvalidated(dealing(c, D, 7))));
    assert!(changes.contains(&ChangeAction::RemoveUnvalidated(dealing(c, A, 7))));
    assert_eq!(dealings_in(&pool.validated, c), vec![A]);
    assert_eq!(pool.validated.len(), 1);
    assert_eq!(pool.validated[0], dealing(c, A, 1));
}

#[test]
fn operational_failure_leaves_dealing_pending() {
    let c = cid(5, 0);
    let t = tip(5, vec![config(c, vec![B])], vec![]);
    let mut pool = EcdsaPool::new();
    pool.insert_unvalidated(dealing(c, B, 7));
    let failing = EcdsaImpl::new(A, StubCrypto { operational_failure: true });
    let changes = failing.on_state_change(&t, &pool);
    assert!(changes.is_empty());
    pool.apply_changes(&changes);
    assert_eq!(pool.unvalidated, vec![dealing(c, B, 7)]);
    let changes = tick(A, &t, &mut pool);
    assert!(changes.contains(&ChangeAction::MoveToValidated(dealing(c, B, 7))));
}

#[test]
fn stale_artifacts_are_purged() {
    let old = cid(3, 0);
    let future = cid(9, 0);
    let live = cid(5, 1);
    let t = tip(5, vec![config(live, vec![B])], vec![]);
    let mut pool = EcdsaPool::new();
    pool.validated.push(dealing(old, B, 7));
    pool.validated.push(EcdsaMessage::Support(DealingSupport { config_id: old, dealer: B, supporter: A, material: 1 }));
    pool.unvalidated.push(dealing(old, C, 7));
    pool.unvalidated.push(dealing(future, C, 7));
    let changes = tick(A, &t, &mut pool);
    assert_eq!(changes.len(), 3);
    assert!(pool.validated.is_empty());
    assert_eq!(pool.unvalidated, vec![dealing(future, C, 7)]);
}

#[test]
fn signer_issues_share_and_validates_peer_shares() {
    let r = cid(5, 7);
    let req = SignatureRequest { id: r, threshold: 2, signers: vec![A, B], message: 40 };
    let t = tip(5, vec![], vec![req]);
    let mut pool = EcdsaPool::new();
    pool.insert_unvalidated(share(r, B, 3));
    pool.insert_unvalidated(share(r, C, 3));
    pool.insert_unvalidated(share(r, B, BAD));
    let changes = tick(A, &t, &mut pool);
    assert_eq!(
        changes,
        vec![
            ChangeAction::AddToValidated(share(r, A, 41)),
            ChangeAction::MoveToValidated(share(r, B, 3)),
            ChangeAction::RemoveUnvalidated(share(r, C, 3)),
            ChangeAction::RemoveUnvalidated(share(r, B, BAD)),
        ]
    );
    assert_eq!(pool.validated, vec![share(r, A, 41), share(r, B, 3)]);
    assert!(pool.unvalidated.is_empty());
}

#[test]
fn removed_request_gets_no_more_shares() {
    let r = cid(5, 7);
    let t = tip(6, vec![], vec![]);
    let mut pool = EcdsaPool::new();
    pool.insert_unvalidated(share(r, B, 3));
    let changes = tick(A, &t, &mut pool);
    assert!(changes.is_empty());
    assert!(pool.validated.is_empty());
}

#[test]
fn settled_pool_is_a_fixed_point() {
    let c = cid(5, 0);
    let r = cid(5, 7);
    let req = SignatureRequest { id: r, threshold: 1, signers: vec![A, B], message: 40 };
    let t = tip(5, vec![config(c, vec![A, B])], vec![req]);
    let mut pool = EcdsaPool::new();
    pool.insert_unvalidated(dealing(c, B, 7));
    let mut rounds = 0;
    while !tick(A, &t, &mut pool).is_empty() {
        rounds += 1;
        assert!(rounds < 10);
    }
    let snapshot = pool.clone();
    assert!(tick(A, &t, &mut pool).is_empty());
    assert_eq!(pool.validated, snapshot.validated);
    assert_eq!(pool.unvalidated, snapshot.unvalidated);
}

#[test]
fn three_dealers_fill_the_pool_with_three_dealings() {
    let c = cid(5, 0);
    let mut cfg = config(c, vec![A, B, C]);
    cfg.kind = TranscriptKind::RandomMasked;
    let t = tip(5, vec![cfg], vec![]);
    let mut pool = EcdsaPool::new();
    for node in [A, B, C] {
        tick(node, &t, &mut pool);
    }
    let mut dealers = dealings_in(&pool.validated, c);
    dealers.sort();
    assert_eq!(dealers, vec![A, B, C]);
    assert!(pool.unvalidated.is_empty());
}

#[test]
fn steps_follow_given_outcomes() {
    let c = cid(5, 0);
    let t = tip(5, vec![config(c, vec![A, B])], vec![]);
    let mut pool = EcdsaPool::new();
    pool.insert_unvalidated(dealing(c, B, 7));
    let signer = PreSigner::new(A);
    let outcomes = PreSignerOutcomes {
        dealings: vec![None],
        dealing_checks: vec![Verdict::Invalid],
        supports: vec![],
        shares: vec![],
        share_checks: vec![Verdict::Unavailable],
    };
    let changes = signer.on_state_change_with(&t, &pool, &outcomes);
    assert_eq!(changes, vec![ChangeAction::RemoveUnvalidated(dealing(c, B, 7))]);
    let outcomes = PreSignerOutcomes {
        dealings: vec![Some(55)],
        dealing_checks: vec![Verdict::Unavailable],
        supports: vec![],
        shares: vec![],
        share_checks: vec![Verdict::Unavailable],
    };
    let changes = signer.on_state_change_with(&t, &pool, &outcomes);
    assert_eq!(changes, vec![ChangeAction::AddToValidated(dealing(c, A, 55))]);
}

#[test]
fn verdicts_of_check_results() {
    assert_eq!(verdict_of(Ok(())), Verdict::Valid);
    assert_eq!(verdict_of(Err(CryptoError::InvalidArtifact)), Verdict::Invalid);
    assert_eq!(verdict_of(Err(CryptoError::Operational)), Verdict::Unavailable);
}

#[test]
fn config_age_is_by_height() {
    assert!(cid(3, 9).is_older_than(4));
    assert!(!cid(4, 0).is_older_than(4));
}
