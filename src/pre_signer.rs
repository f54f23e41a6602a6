//! The pre-signer: keeps the pool populated with the dealings, supports and
//! signature shares this replica owes, and sorts peers' artifacts into
//! validated and removed.
//!
//! Each step is a function of the finalized tip, a snapshot of the pool and
//! the outcomes of the cryptographic operations it needs, one per visited
//! artifact. `PreSigner::on_state_change` runs those operations and hands
//! their outcomes to the steps.
use vstd::prelude::*;
use crate::crypto::EcdsaCrypto;
use crate::gather::gather;
use crate::pool::{
    has_dealing, has_share, has_support, holds_dealing, holds_share, holds_support, is_dealing_by,
    is_share_by, EcdsaPool,
};
use crate::types::{
    contains_node, verdict_of, ChangeAction, ConfigId, Dealing, DealingSupport, EcdsaMessage,
    EcdsaTip, NodeId, SignatureShare, Verdict,
};

verus! {

/// An artifact for config `c` is stale: `c` is no longer live and was issued
/// before the tip.
pub open spec fn stale(tip: EcdsaTip, c: ConfigId) -> bool {
    !tip.config_live(c) && c.height < tip.height
}

/// `d` is a dealer of the live config `c`.
pub open spec fn dealer_listed(tip: EcdsaTip, c: ConfigId, d: NodeId) -> bool {
    exists|k: int|
        0 <= k < tip.configs@.len() && tip.configs@[k].id == c
            && #[trigger] tip.configs@[k].dealers@.contains(d)
}

/// `s` is a signer of the live request `r`.
pub open spec fn signer_listed(tip: EcdsaTip, r: ConfigId, s: NodeId) -> bool {
    exists|k: int|
        0 <= k < tip.requests@.len() && tip.requests@[k].id == r
            && #[trigger] tip.requests@[k].signers@.contains(s)
}

/// `node` owes a dealing for the config at position `i` of the tip.
pub open spec fn dealing_due(node: NodeId, tip: EcdsaTip, pool: EcdsaPool, i: int) -> bool {
    tip.configs@[i].dealers@.contains(node) && !has_dealing(
        pool.validated@,
        tip.configs@[i].id,
        node,
    )
}

/// `node` owes a support for the validated artifact at position `i`.
pub open spec fn support_due(node: NodeId, tip: EcdsaTip, pool: EcdsaPool, i: int) -> bool {
    match pool.validated@[i] {
        EcdsaMessage::Dealing(x) => tip.config_live(x.config_id) && !has_support(
            pool.validated@,
            x.config_id,
            x.dealer,
            node,
        ),
        _ => false,
    }
}

/// `node` owes a signature share for the request at position `i` of the tip.
pub open spec fn share_due(node: NodeId, tip: EcdsaTip, pool: EcdsaPool, i: int) -> bool {
    tip.requests@[i].signers@.contains(node) && !has_share(
        pool.validated@,
        tip.requests@[i].id,
        node,
    )
}

/// Issuing dealings: config `i` gets this node's dealing where it is owed and
/// the material could be built.
pub open spec fn issue_dealing_step(
    node: NodeId,
    tip: EcdsaTip,
    pool: EcdsaPool,
    outs: Seq<Option<u64>>,
) -> spec_fn(int) -> Option<ChangeAction> {
    |i: int|
        if dealing_due(node, tip, pool, i) {
            match outs[i] {
                Some(m) => Some(
                    ChangeAction::AddToValidated(
                        EcdsaMessage::Dealing(
                            Dealing { config_id: tip.configs@[i].id, dealer: node, material: m },
                        ),
                    ),
                ),
                None => None,
            }
        } else {
            None
        }
}

/// A dealing by `d` for `c` that passed its check stands before position `i`.
pub open spec fn earlier_valid_dealing(
    u: Seq<EcdsaMessage>,
    checks: Seq<Verdict>,
    i: int,
    c: ConfigId,
    d: NodeId,
) -> bool {
    exists|j: int| 0 <= j < i && #[trigger] is_dealing_by(u[j], c, d) && checks[j] == Verdict::Valid
}

/// What becomes of the unvalidated artifact at position `i` if it is a
/// dealing. A dealing for a config that is not live is left to the
/// stale-artifact step. One that repeats a validated dealing, claims to be
/// this node's own, or comes from a node that is no dealer of the config is
/// removed. Otherwise its public check decides: it is moved when valid and
/// the first valid one of its key, removed when invalid or a later
/// duplicate, and left pending when the check could not be made.
pub open spec fn dealing_decision(
    node: NodeId,
    tip: EcdsaTip,
    pool: EcdsaPool,
    checks: Seq<Verdict>,
    i: int,
) -> Option<ChangeAction> {
    let m = pool.unvalidated@[i];
    match m {
        EcdsaMessage::Dealing(x) => if !tip.config_live(x.config_id) {
            None
        } else if x.dealer == node || has_dealing(pool.validated@, x.config_id, x.dealer)
            || !dealer_listed(tip, x.config_id, x.dealer) {
            Some(ChangeAction::RemoveUnvalidated(m))
        } else {
            match checks[i] {
                Verdict::Valid => if earlier_valid_dealing(
                    pool.unvalidated@,
                    checks,
                    i,
                    x.config_id,
                    x.dealer,
                ) {
                    Some(ChangeAction::RemoveUnvalidated(m))
                } else {
                    Some(ChangeAction::MoveToValidated(m))
                },
                Verdict::Invalid => Some(ChangeAction::RemoveUnvalidated(m)),
                Verdict::Unavailable => None,
            }
        },
        _ => None,
    }
}

pub open spec fn validate_dealing_step(
    node: NodeId,
    tip: EcdsaTip,
    pool: EcdsaPool,
    checks: Seq<Verdict>,
) -> spec_fn(int) -> Option<ChangeAction> {
    |i: int| dealing_decision(node, tip, pool, checks, i)
}

/// Supporting dealings: a validated dealing of a live config gets this node's
/// support where it is owed and the private check and the support succeeded.
pub open spec fn support_step(
    node: NodeId,
    tip: EcdsaTip,
    pool: EcdsaPool,
    outs: Seq<Option<u64>>,
) -> spec_fn(int) -> Option<ChangeAction> {
    |i: int|
        if support_due(node, tip, pool, i) {
            match (pool.validated@[i], outs[i]) {
                (EcdsaMessage::Dealing(x), Some(m)) => Some(
                    ChangeAction::AddToValidated(
                        EcdsaMessage::Support(
                            DealingSupport {
                                config_id: x.config_id,
                                dealer: x.dealer,
                                supporter: node,
                                material: m,
                            },
                        ),
                    ),
                ),
                _ => None,
            }
        } else {
            None
        }
}

/// The config a dealing or a support belongs to.
pub open spec fn dealing_config(m: EcdsaMessage) -> Option<ConfigId> {
    match m {
        EcdsaMessage::Dealing(x) => Some(x.config_id),
        EcdsaMessage::Support(x) => Some(x.config_id),
        _ => None,
    }
}

/// Removing stale validated dealings and supports.
pub open spec fn purge_validated_step(tip: EcdsaTip, pool: EcdsaPool) -> spec_fn(int) -> Option<
    ChangeAction,
> {
    |i: int|
        match dealing_config(pool.validated@[i]) {
            Some(c) => if stale(tip, c) {
                Some(ChangeAction::RemoveValidated(pool.validated@[i]))
            } else {
                None
            },
            None => None,
        }
}

/// Removing stale unvalidated dealings and supports.
pub open spec fn purge_unvalidated_step(tip: EcdsaTip, pool: EcdsaPool) -> spec_fn(int) -> Option<
    ChangeAction,
> {
    |i: int|
        match dealing_config(pool.unvalidated@[i]) {
            Some(c) => if stale(tip, c) {
                Some(ChangeAction::RemoveUnvalidated(pool.unvalidated@[i]))
            } else {
                None
            },
            None => None,
        }
}

/// Issuing signature shares: request `i` gets this node's share where it is
/// owed and the share could be built.
pub open spec fn issue_share_step(
    node: NodeId,
    tip: EcdsaTip,
    pool: EcdsaPool,
    outs: Seq<Option<u64>>,
) -> spec_fn(int) -> Option<ChangeAction> {
    |i: int|
        if share_due(node, tip, pool, i) {
            match outs[i] {
                Some(m) => Some(
                    ChangeAction::AddToValidated(
                        EcdsaMessage::Share(
                            SignatureShare {
                                request_id: tip.requests@[i].id,
                                signer: node,
                                material: m,
                            },
                        ),
                    ),
                ),
                None => None,
            }
        } else {
            None
        }
}

/// A share by `s` for `r` that passed its check stands before position `i`.
pub open spec fn earlier_valid_share(
    u: Seq<EcdsaMessage>,
    checks: Seq<Verdict>,
    i: int,
    r: ConfigId,
    s: NodeId,
) -> bool {
    exists|j: int| 0 <= j < i && #[trigger] is_share_by(u[j], r, s) && checks[j] == Verdict::Valid
}

/// What becomes of the unvalidated artifact at position `i` if it is a
/// signature share; the rules are those of dealings, over live requests.
pub open spec fn share_decision(
    node: NodeId,
    tip: EcdsaTip,
    pool: EcdsaPool,
    checks: Seq<Verdict>,
    i: int,
) -> Option<ChangeAction> {
    let m = pool.unvalidated@[i];
    match m {
        EcdsaMessage::Share(x) => if !tip.request_live(x.request_id) {
            None
        } else if x.signer == node || has_share(pool.validated@, x.request_id, x.signer)
            || !signer_listed(tip, x.request_id, x.signer) {
            Some(ChangeAction::RemoveUnvalidated(m))
        } else {
            match checks[i] {
                Verdict::Valid => if earlier_valid_share(
                    pool.unvalidated@,
                    checks,
                    i,
                    x.request_id,
                    x.signer,
                ) {
                    Some(ChangeAction::RemoveUnvalidated(m))
                } else {
                    Some(ChangeAction::MoveToValidated(m))
                },
                Verdict::Invalid => Some(ChangeAction::RemoveUnvalidated(m)),
                Verdict::Unavailable => None,
            }
        },
        _ => None,
    }
}

pub open spec fn validate_share_step(
    node: NodeId,
    tip: EcdsaTip,
    pool: EcdsaPool,
    checks: Seq<Verdict>,
) -> spec_fn(int) -> Option<ChangeAction> {
    |i: int| share_decision(node, tip, pool, checks, i)
}

/// The outcomes of the cryptographic operations of one tick, one per
/// visited item: built materials (`None` when building failed) and check
/// verdicts.
#[derive(Clone, Debug)]
pub struct PreSignerOutcomes {
    /// Per config of the tip: this node's dealing.
    pub dealings: Vec<Option<u64>>,
    /// Per unvalidated artifact: the public check of a dealing.
    pub dealing_checks: Vec<Verdict>,
    /// Per validated artifact: this node's support of a dealing.
    pub supports: Vec<Option<u64>>,
    /// Per request of the tip: this node's signature share.
    pub shares: Vec<Option<u64>>,
    /// Per unvalidated artifact: the check of a signature share.
    pub share_checks: Vec<Verdict>,
}

impl PreSignerOutcomes {
    /// One outcome per visited item.
    pub open spec fn fits(&self, tip: EcdsaTip, pool: EcdsaPool) -> bool {
        &&& self.dealings@.len() == tip.configs@.len()
        &&& self.dealing_checks@.len() == pool.unvalidated@.len()
        &&& self.supports@.len() == pool.validated@.len()
        &&& self.shares@.len() == tip.requests@.len()
        &&& self.share_checks@.len() == pool.unvalidated@.len()
    }
}

/// The change set of one tick, step after step.
pub open spec fn pre_signer_changes(
    node: NodeId,
    tip: EcdsaTip,
    pool: EcdsaPool,
    o: PreSignerOutcomes,
) -> Seq<ChangeAction> {
    let nc = tip.configs@.len() as int;
    let nr = tip.requests@.len() as int;
    let nv = pool.validated@.len() as int;
    let nu = pool.unvalidated@.len() as int;
    gather(issue_dealing_step(node, tip, pool, o.dealings@), nc) + gather(
        validate_dealing_step(node, tip, pool, o.dealing_checks@),
        nu,
    ) + gather(support_step(node, tip, pool, o.supports@), nv) + gather(
        purge_validated_step(tip, pool),
        nv,
    ) + gather(purge_unvalidated_step(tip, pool), nu) + gather(
        issue_share_step(node, tip, pool, o.shares@),
        nr,
    ) + gather(validate_share_step(node, tip, pool, o.share_checks@), nu)
}

proof fn lemma_dealer_listed_at(tip: EcdsaTip, k: int, c: ConfigId, d: NodeId)
    requires
        tip.wf(),
        0 <= k < tip.configs@.len(),
        tip.configs@[k].id == c,
    ensures
        dealer_listed(tip, c, d) == tip.configs@[k].dealers@.contains(d),
{
    if dealer_listed(tip, c, d) {
        let k2 = choose|k2: int|
            0 <= k2 < tip.configs@.len() && tip.configs@[k2].id == c
                && #[trigger] tip.configs@[k2].dealers@.contains(d);
        if k2 < k {
            assert(tip.configs@[k2].id != tip.configs@[k].id);
        } else if k < k2 {
            assert(tip.configs@[k].id != tip.configs@[k2].id);
        }
    }
}

proof fn lemma_signer_listed_at(tip: EcdsaTip, k: int, r: ConfigId, s: NodeId)
    requires
        tip.wf(),
        0 <= k < tip.requests@.len(),
        tip.requests@[k].id == r,
    ensures
        signer_listed(tip, r, s) == tip.requests@[k].signers@.contains(s),
{
    if signer_listed(tip, r, s) {
        let k2 = choose|k2: int|
            0 <= k2 < tip.requests@.len() && tip.requests@[k2].id == r
                && #[trigger] tip.requests@[k2].signers@.contains(s);
        if k2 < k {
            assert(tip.requests@[k2].id != tip.requests@[k].id);
        } else if k < k2 {
            assert(tip.requests@[k].id != tip.requests@[k2].id);
        }
    }
}

fn valid_dealing_before(
    u: &Vec<EcdsaMessage>,
    checks: &Vec<Verdict>,
    i: usize,
    c: ConfigId,
    d: NodeId,
) -> (r: bool)
    requires
        i <= u@.len(),
        checks@.len() == u@.len(),
    ensures
        r == earlier_valid_dealing(u@, checks@, i as int, c, d),
{
    let mut j: usize = 0;
    while j < i
        invariant
            j <= i <= u@.len(),
            checks@.len() == u@.len(),
            forall|k: int|
                0 <= k < j ==> !(#[trigger] is_dealing_by(u@[k], c, d) && checks@[k]
                    == Verdict::Valid),
        decreases i - j,
    {
        if let EcdsaMessage::Dealing(x) = u[j] {
            if x.config_id == c && x.dealer == d && checks[j] == Verdict::Valid {
                assert(is_dealing_by(u@[j as int], c, d));
                return true;
            }
        }
        j = j + 1;
    }
    false
}

fn valid_share_before(
    u: &Vec<EcdsaMessage>,
    checks: &Vec<Verdict>,
    i: usize,
    req: ConfigId,
    s: NodeId,
) -> (r: bool)
    requires
        i <= u@.len(),
        checks@.len() == u@.len(),
    ensures
        r == earlier_valid_share(u@, checks@, i as int, req, s),
{
    let mut j: usize = 0;
    while j < i
        invariant
            j <= i <= u@.len(),
            checks@.len() == u@.len(),
            forall|k: int|
                0 <= k < j ==> !(#[trigger] is_share_by(u@[k], req, s) && checks@[k]
                    == Verdict::Valid),
        decreases i - j,
    {
        if let EcdsaMessage::Share(x) = u[j] {
            if x.request_id == req && x.signer == s && checks[j] == Verdict::Valid {
                assert(is_share_by(u@[j as int], req, s));
                return true;
            }
        }
        j = j + 1;
    }
    false
}

/// The pre-signer of one replica.
pub struct PreSigner {
    pub node_id: NodeId,
}

impl PreSigner {
    pub fn new(node_id: NodeId) -> (r: Self)
        ensures
            r.node_id == node_id,
    {
        PreSigner { node_id }
    }

    /// Issues the dealings this node owes, from the built materials `outs`.
    pub fn issue_dealings(&self, tip: &EcdsaTip, pool: &EcdsaPool, outs: &Vec<Option<u64>>) -> (r:
        Vec<ChangeAction>)
        requires
            outs@.len() == tip.configs@.len(),
        ensures
            r@ == gather(
                issue_dealing_step(self.node_id, *tip, *pool, outs@),
                tip.configs@.len() as int,
            ),
    {
        let mut r: Vec<ChangeAction> = Vec::new();
        let mut i: usize = 0;
        while i < tip.configs.len()
            invariant
                i <= tip.configs@.len(),
                outs@.len() == tip.configs@.len(),
                r@ == gather(issue_dealing_step(self.node_id, *tip, *pool, outs@), i as int),
            decreases tip.configs@.len() - i,
        {
            let c = &tip.configs[i];
            if contains_node(&c.dealers, self.node_id) && !holds_dealing(
                &pool.validated,
                c.id,
                self.node_id,
            ) {
                if let Some(m) = outs[i] {
                    r.push(
                        ChangeAction::AddToValidated(
                            EcdsaMessage::Dealing(
                                Dealing { config_id: c.id, dealer: self.node_id, material: m },
                            ),
                        ),
                    );
                }
            }
            i = i + 1;
        }
        r
    }

    /// Sorts the unvalidated dealings by the verdicts of their public checks.
    pub fn validate_dealings(&self, tip: &EcdsaTip, pool: &EcdsaPool, checks: &Vec<Verdict>) -> (r:
        Vec<ChangeAction>)
        requires
            tip.wf(),
            checks@.len() == pool.unvalidated@.len(),
        ensures
            r@ == gather(
                validate_dealing_step(self.node_id, *tip, *pool, checks@),
                pool.unvalidated@.len() as int,
            ),
    {
        let mut r: Vec<ChangeAction> = Vec::new();
        let mut i: usize = 0;
        while i < pool.unvalidated.len()
            invariant
                tip.wf(),
                i <= pool.unvalidated@.len(),
                checks@.len() == pool.unvalidated@.len(),
                r@ == gather(
                    validate_dealing_step(self.node_id, *tip, *pool, checks@),
                    i as int,
                ),
            decreases pool.unvalidated@.len() - i,
        {
            let m = pool.unvalidated[i];
            if let EcdsaMessage::Dealing(x) = m {
                if let Some(k) = tip.find_config(x.config_id) {
                    proof {
                        lemma_dealer_listed_at(*tip, k as int, x.config_id, x.dealer);
                    }
                    if x.dealer == self.node_id || holds_dealing(
                        &pool.validated,
                        x.config_id,
                        x.dealer,
                    ) || !contains_node(&tip.configs[k].dealers, x.dealer) {
                        r.push(ChangeAction::RemoveUnvalidated(m));
                    } else {
                        match checks[i] {
                            Verdict::Valid => {
                                if valid_dealing_before(
                                    &pool.unvalidated,
                                    checks,
                                    i,
                                    x.config_id,
                                    x.dealer,
                                ) {
                                    r.push(ChangeAction::RemoveUnvalidated(m));
                                } else {
                                    r.push(ChangeAction::MoveToValidated(m));
                                }
                            },
                            Verdict::Invalid => r.push(ChangeAction::RemoveUnvalidated(m)),
                            Verdict::Unavailable => {},
                        }
                    }
                }
            }
            i = i + 1;
        }
        r
    }

    /// Supports the validated dealings that this node has not supported yet,
    /// from the materials `outs` of the supports that could be built.
    pub fn support_dealings(&self, tip: &EcdsaTip, pool: &EcdsaPool, outs: &Vec<Option<u64>>) -> (r:
        Vec<ChangeAction>)
        requires
            outs@.len() == pool.validated@.len(),
        ensures
            r@ == gather(
                support_step(self.node_id, *tip, *pool, outs@),
                pool.validated@.len() as int,
            ),
    {
        let mut r: Vec<ChangeAction> = Vec::new();
        let mut i: usize = 0;
        while i < pool.validated.len()
            invariant
                i <= pool.validated@.len(),
                outs@.len() == pool.validated@.len(),
                r@ == gather(support_step(self.node_id, *tip, *pool, outs@), i as int),
            decreases pool.validated@.len() - i,
        {
            if let EcdsaMessage::Dealing(x) = pool.validated[i] {
                if tip.find_config(x.config_id).is_some() && !holds_support(
                    &pool.validated,
                    x.config_id,
                    x.dealer,
                    self.node_id,
                ) {
                    if let Some(m) = outs[i] {
                        r.push(
                            ChangeAction::AddToValidated(
                                EcdsaMessage::Support(
                                    DealingSupport {
                                        config_id: x.config_id,
                                        dealer: x.dealer,
                                        supporter: self.node_id,
                                        material: m,
                                    },
                                ),
                            ),
                        );
                    }
                }
            }
            i = i + 1;
        }
        r
    }

    /// Removes the stale dealings and supports of the validated partition.
    pub fn purge_validated(&self, tip: &EcdsaTip, pool: &EcdsaPool) -> (r: Vec<ChangeAction>)
        ensures
            r@ == gather(purge_validated_step(*tip, *pool), pool.validated@.len() as int),
    {
        let mut r: Vec<ChangeAction> = Vec::new();
        let mut i: usize = 0;
        while i < pool.validated.len()
            invariant
                i <= pool.validated@.len(),
                r@ == gather(purge_validated_step(*tip, *pool), i as int),
            decreases pool.validated@.len() - i,
        {
            let m = pool.validated[i];
            let c = match m {
                EcdsaMessage::Dealing(x) => Some(x.config_id),
                EcdsaMessage::Support(x) => Some(x.config_id),
                _ => None,
            };
            if let Some(c) = c {
                if tip.find_config(c).is_none() && c.is_older_than(tip.height) {
                    r.push(ChangeAction::RemoveValidated(m));
                }
            }
            i = i + 1;
        }
        r
    }

    /// Removes the stale dealings and supports of the unvalidated partition.
    pub fn purge_unvalidated(&self, tip: &EcdsaTip, pool: &EcdsaPool) -> (r: Vec<ChangeAction>)
        ensures
            r@ == gather(purge_unvalidated_step(*tip, *pool), pool.unvalidated@.len() as int),
    {
        let mut r: Vec<ChangeAction> = Vec::new();
        let mut i: usize = 0;
        while i < pool.unvalidated.len()
            invariant
                i <= pool.unvalidated@.len(),
                r@ == gather(purge_unvalidated_step(*tip, *pool), i as int),
            decreases pool.unvalidated@.len() - i,
        {
            let m = pool.unvalidated[i];
            let c = match m {
                EcdsaMessage::Dealing(x) => Some(x.config_id),
                EcdsaMessage::Support(x) => Some(x.config_id),
                _ => None,
            };
            if let Some(c) = c {
                if tip.find_config(c).is_none() && c.is_older_than(tip.height) {
                    r.push(ChangeAction::RemoveUnvalidated(m));
                }
            }
            i = i + 1;
        }
        r
    }

    /// Issues the signature shares this node owes, from the built materials
    /// `outs`.
    pub fn issue_shares(&self, tip: &EcdsaTip, pool: &EcdsaPool, outs: &Vec<Option<u64>>) -> (r:
        Vec<ChangeAction>)
        requires
            outs@.len() == tip.requests@.len(),
        ensures
            r@ == gather(
                issue_share_step(self.node_id, *tip, *pool, outs@),
                tip.requests@.len() as int,
            ),
    {
        let mut r: Vec<ChangeAction> = Vec::new();
        let mut i: usize = 0;
        while i < tip.requests.len()
            invariant
                i <= tip.requests@.len(),
                outs@.len() == tip.requests@.len(),
                r@ == gather(issue_share_step(self.node_id, *tip, *pool, outs@), i as int),
            decreases tip.requests@.len() - i,
        {
            let q = &tip.requests[i];
            if contains_node(&q.signers, self.node_id) && !holds_share(
                &pool.validated,
                q.id,
                self.node_id,
            ) {
                if let Some(m) = outs[i] {
                    r.push(
                        ChangeAction::AddToValidated(
                            EcdsaMessage::Share(
                                SignatureShare { request_id: q.id, signer: self.node_id, material: m },
                            ),
                        ),
                    );
                }
            }
            i = i + 1;
        }
        r
    }

    /// Sorts the unvalidated signature shares by the verdicts of their checks.
    pub fn validate_shares(&self, tip: &EcdsaTip, pool: &EcdsaPool, checks: &Vec<Verdict>) -> (r:
        Vec<ChangeAction>)
        requires
            tip.wf(),
            checks@.len() == pool.unvalidated@.len(),
        ensures
            r@ == gather(
                validate_share_step(self.node_id, *tip, *pool, checks@),
                pool.unvalidated@.len() as int,
            ),
    {
        let mut r: Vec<ChangeAction> = Vec::new();
        let mut i: usize = 0;
        while i < pool.unvalidated.len()
            invariant
                tip.wf(),
                i <= pool.unvalidated@.len(),
                checks@.len() == pool.unvalidated@.len(),
                r@ == gather(validate_share_step(self.node_id, *tip, *pool, checks@), i as int),
            decreases pool.unvalidated@.len() - i,
        {
            let m = pool.unvalidated[i];
            if let EcdsaMessage::Share(x) = m {
                if let Some(k) = tip.find_request(x.request_id) {
                    proof {
                        lemma_signer_listed_at(*tip, k as int, x.request_id, x.signer);
                    }
                    if x.signer == self.node_id || holds_share(
                        &pool.validated,
                        x.request_id,
                        x.signer,
                    ) || !contains_node(&tip.requests[k].signers, x.signer) {
                        r.push(ChangeAction::RemoveUnvalidated(m));
                    } else {
                        match checks[i] {
                            Verdict::Valid => {
                                if valid_share_before(
                                    &pool.unvalidated,
                                    checks,
                                    i,
                                    x.request_id,
                                    x.signer,
                                ) {
                                    r.push(ChangeAction::RemoveUnvalidated(m));
                                } else {
                                    r.push(ChangeAction::MoveToValidated(m));
                                }
                            },
                            Verdict::Invalid => r.push(ChangeAction::RemoveUnvalidated(m)),
                            Verdict::Unavailable => {},
                        }
                    }
                }
            }
            i = i + 1;
        }
        r
    }

    /// The change set of one tick, given the outcomes of its cryptographic
    /// operations.
    pub fn on_state_change_with(
        &self,
        tip: &EcdsaTip,
        pool: &EcdsaPool,
        outcomes: &PreSignerOutcomes,
    ) -> (r: Vec<ChangeAction>)
        requires
            tip.wf(),
            outcomes.fits(*tip, *pool),
        ensures
            r@ == pre_signer_changes(self.node_id, *tip, *pool, *outcomes),
    {
        let mut r = self.issue_dealings(tip, pool, &outcomes.dealings);
        let mut part = self.validate_dealings(tip, pool, &outcomes.dealing_checks);
        r.append(&mut part);
        let mut part = self.support_dealings(tip, pool, &outcomes.supports);
        r.append(&mut part);
        let mut part = self.purge_validated(tip, pool);
        r.append(&mut part);
        let mut part = self.purge_unvalidated(tip, pool);
        r.append(&mut part);
        let mut part = self.issue_shares(tip, pool, &outcomes.shares);
        r.append(&mut part);
        let mut part = self.validate_shares(tip, pool, &outcomes.share_checks);
        r.append(&mut part);
        r
    }

    /// Runs the cryptographic operations that one tick needs.
    pub fn crypto_outcomes<C: EcdsaCrypto>(&self, tip: &EcdsaTip, pool: &EcdsaPool, crypto: &C) -> (r:
        PreSignerOutcomes)
        ensures
            r.fits(*tip, *pool),
    {
        let mut dealings: Vec<Option<u64>> = Vec::new();
        let mut i: usize = 0;
        while i < tip.configs.len()
            invariant
                i <= tip.configs@.len(),
                dealings@.len() == i,
            decreases tip.configs@.len() - i,
        {
            let c = &tip.configs[i];
            let mut out: Option<u64> = None;
            if contains_node(&c.dealers, self.node_id) && !holds_dealing(
                &pool.validated,
                c.id,
                self.node_id,
            ) {
                if let Ok(m) = crypto.create_dealing(c, self.node_id) {
                    out = Some(m);
                }
            }
            dealings.push(out);
            i = i + 1;
        }
        let mut dealing_checks: Vec<Verdict> = Vec::new();
        let mut share_checks: Vec<Verdict> = Vec::new();
        let mut i: usize = 0;
        while i < pool.unvalidated.len()
            invariant
                i <= pool.unvalidated@.len(),
                dealing_checks@.len() == i,
                share_checks@.len() == i,
            decreases pool.unvalidated@.len() - i,
        {
            let mut dealing_check = Verdict::Unavailable;
            let mut share_check = Verdict::Unavailable;
            match pool.unvalidated[i] {
                EcdsaMessage::Dealing(x) => {
                    if let Some(k) = tip.find_config(x.config_id) {
                        if x.dealer != self.node_id && contains_node(
                            &tip.configs[k].dealers,
                            x.dealer,
                        ) && !holds_dealing(&pool.validated, x.config_id, x.dealer) {
                            dealing_check =
                            verdict_of(crypto.verify_dealing_public(&tip.configs[k], &x));
                        }
                    }
                },
                EcdsaMessage::Share(x) => {
                    if let Some(k) = tip.find_request(x.request_id) {
                        if x.signer != self.node_id && contains_node(
                            &tip.requests[k].signers,
                            x.signer,
                        ) && !holds_share(&pool.validated, x.request_id, x.signer) {
                            share_check = verdict_of(crypto.verify_share(&tip.requests[k], &x));
                        }
                    }
                },
                _ => {},
            }
            dealing_checks.push(dealing_check);
            share_checks.push(share_check);
            i = i + 1;
        }
        let mut supports: Vec<Option<u64>> = Vec::new();
        let mut i: usize = 0;
        while i < pool.validated.len()
            invariant
                i <= pool.validated@.len(),
                supports@.len() == i,
            decreases pool.validated@.len() - i,
        {
            let mut out: Option<u64> = None;
            if let EcdsaMessage::Dealing(x) = pool.validated[i] {
                if let Some(k) = tip.find_config(x.config_id) {
                    if !holds_support(&pool.validated, x.config_id, x.dealer, self.node_id) {
                        let c = &tip.configs[k];
                        if crypto.verify_dealing_private(c, &x, self.node_id).is_ok() {
                            if let Ok(m) = crypto.create_support(c, &x, self.node_id) {
                                out = Some(m);
                            }
                        }
                    }
                }
            }
            supports.push(out);
            i = i + 1;
        }
        let mut shares: Vec<Option<u64>> = Vec::new();
        let mut i: usize = 0;
        while i < tip.requests.len()
            invariant
                i <= tip.requests@.len(),
                shares@.len() == i,
            decreases tip.requests@.len() - i,
        {
            let q = &tip.requests[i];
            let mut out: Option<u64> = None;
            if contains_node(&q.signers, self.node_id) && !holds_share(
                &pool.validated,
                q.id,
                self.node_id,
            ) {
                if let Ok(m) = crypto.create_signature_share(q, self.node_id) {
                    out = Some(m);
                }
            }
            shares.push(out);
            i = i + 1;
        }
        PreSignerOutcomes { dealings, dealing_checks, supports, shares, share_checks }
    }

    /// One tick: the change set that this node proposes for `pool` under
    /// `tip`. It is the change set of the steps for the outcomes of the
    /// operations that `crypto` carried out.
    pub fn on_state_change<C: EcdsaCrypto>(&self, tip: &EcdsaTip, pool: &EcdsaPool, crypto: &C) -> (r:
        Vec<ChangeAction>)
        requires
            tip.wf(),
        ensures
            exists|o: PreSignerOutcomes|
                o.fits(*tip, *pool) && r@ == #[trigger] pre_signer_changes(
                    self.node_id,
                    *tip,
                    *pool,
                    o,
                ),
    {
        let outcomes = self.crypto_outcomes(tip, pool, crypto);
        let r = self.on_state_change_with(tip, pool, &outcomes);
        assert(outcomes.fits(*tip, *pool) && r@ == pre_signer_changes(
            self.node_id,
            *tip,
            *pool,
            outcomes,
        ));
        r
    }
}

} // verus!
