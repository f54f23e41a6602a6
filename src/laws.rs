//! Properties of the state machine across its functions: what a tick's
//! change set does to the pool, and what a payload transition does to
//! tuples, pairings and signatures.
use vstd::prelude::*;
use crate::gather::{
    gather, lemma_gather_contains, lemma_gather_forall, lemma_gather_pairwise,
    lemma_gather_source,
};
use crate::gather::{lemma_gather_none};
use crate::payload::{
    distinct_signers, ongoing_kept, pairing, request_ready, signed, signer_with_share,
    spec_completed, spec_next_payload, spec_with_signatures, still_in_creation, unsigned,
    PayloadView, TupleInCreation,
};
use crate::pool::{
    added, has_dealing, has_share, is_dealing_by, kept_validated, validated_after, EcdsaPool,
};
use crate::pre_signer::{
    dealing_config, dealing_decision, dealing_due, earlier_valid_dealing, issue_dealing_step,
    issue_share_step, pre_signer_changes, purge_unvalidated_step, purge_validated_step,
    share_due, stale, support_due, support_step, validate_dealing_step, validate_share_step,
    PreSignerOutcomes,
};
use crate::types::{
    ChangeAction, ConfigId, Dealing, EcdsaMessage, EcdsaTip, NodeId, Signature, Transcript, Verdict,
};

verus! {

/// `a` and `b` are dealings by the same dealer for the same config.
pub open spec fn same_dealing_key(a: EcdsaMessage, b: EcdsaMessage) -> bool {
    match (a, b) {
        (EcdsaMessage::Dealing(x), EcdsaMessage::Dealing(y)) => x.config_id == y.config_id
            && x.dealer == y.dealer,
        _ => false,
    }
}

/// No two dealings of `v` share a config and a dealer.
pub open spec fn dealings_unique(v: Seq<EcdsaMessage>) -> bool {
    forall|i: int, j: int|
        0 <= i < j < v.len() ==> !same_dealing_key(#[trigger] v[i], #[trigger] v[j])
}

/// The dealing that `a` adds or moves to the validated partition.
pub open spec fn added_dealing(a: ChangeAction) -> Option<Dealing> {
    match a {
        ChangeAction::AddToValidated(EcdsaMessage::Dealing(x)) => Some(x),
        ChangeAction::MoveToValidated(EcdsaMessage::Dealing(x)) => Some(x),
        _ => None,
    }
}

/// `a` and `b` do not both bring a dealing of one key to validated.
pub open spec fn distinct_dealing_adds(a: ChangeAction, b: ChangeAction) -> bool {
    match (added_dealing(a), added_dealing(b)) {
        (Some(x), Some(y)) => !(x.config_id == y.config_id && x.dealer == y.dealer),
        _ => true,
    }
}

/// The dealing `a` brings to validated is new to `v`.
pub open spec fn adds_new_dealing(a: ChangeAction, v: Seq<EcdsaMessage>) -> bool {
    match added_dealing(a) {
        Some(x) => !has_dealing(v, x.config_id, x.dealer),
        None => true,
    }
}

/// What a tick's change set brings to validated: dealings new to the
/// validated partition, and no two of one key.
proof fn lemma_added_dealings(node: NodeId, tip: EcdsaTip, pool: EcdsaPool, o: PreSignerOutcomes)
    requires
        tip.wf(),
        o.fits(tip, pool),
    ensures
        forall|j: int|
            0 <= j < pre_signer_changes(node, tip, pool, o).len() ==> adds_new_dealing(
                #[trigger] pre_signer_changes(node, tip, pool, o)[j],
                pool.validated@,
            ),
        forall|i: int, j: int|
            0 <= i < j < pre_signer_changes(node, tip, pool, o).len() ==> distinct_dealing_adds(
                #[trigger] pre_signer_changes(node, tip, pool, o)[i],
                #[trigger] pre_signer_changes(node, tip, pool, o)[j],
            ),
{
    let v = pool.validated@;
    let u = pool.unvalidated@;
    let nc = tip.configs@.len() as int;
    let nr = tip.requests@.len() as int;
    let nv = v.len() as int;
    let nu = u.len() as int;
    let f1 = issue_dealing_step(node, tip, pool, o.dealings@);
    let f2 = validate_dealing_step(node, tip, pool, o.dealing_checks@);
    let f3 = support_step(node, tip, pool, o.supports@);
    let f4 = purge_validated_step(tip, pool);
    let f5 = purge_unvalidated_step(tip, pool);
    let f6 = issue_share_step(node, tip, pool, o.shares@);
    let f7 = validate_share_step(node, tip, pool, o.share_checks@);
    let part1 = gather(f1, nc);
    let part2 = gather(f2, nu);
    let part3 = gather(f3, nv);
    let part4 = gather(f4, nv);
    let part5 = gather(f5, nu);
    let part6 = gather(f6, nr);
    let part7 = gather(f7, nu);
    let ch = pre_signer_changes(node, tip, pool, o);
    assert(ch == part1 + part2 + part3 + part4 + part5 + part6 + part7);

    // Issued dealings are this node's and new; validated ones are peers' and new.
    let own_new = |a: ChangeAction|
        match added_dealing(a) {
            Some(x) => x.dealer == node && !has_dealing(v, x.config_id, x.dealer),
            None => false,
        };
    lemma_gather_forall(f1, nc, own_new);
    let peer_new = |a: ChangeAction|
        match added_dealing(a) {
            Some(x) => x.dealer != node && !has_dealing(v, x.config_id, x.dealer),
            None => true,
        };
    lemma_gather_forall(f2, nu, peer_new);
    let no_dealing = |a: ChangeAction| added_dealing(a) is None;
    lemma_gather_forall(f3, nv, no_dealing);
    lemma_gather_forall(f4, nv, no_dealing);
    lemma_gather_forall(f5, nu, no_dealing);
    lemma_gather_forall(f6, nr, no_dealing);
    lemma_gather_forall(f7, nu, no_dealing);

    // Within each of the two parts, no key twice.
    let rel = |a: ChangeAction, b: ChangeAction| distinct_dealing_adds(a, b);
    assert forall|i: int, j: int| 0 <= i < j < nc && #[trigger] f1(i) is Some && #[trigger] f1(j) is Some implies rel(f1(i)->0, f1(j)->0) by {
        assert(tip.configs@[i].id != tip.configs@[j].id);
    }
    lemma_gather_pairwise(f1, nc, rel);
    assert forall|i: int, j: int| 0 <= i < j < nu && #[trigger] f2(i) is Some && #[trigger] f2(j) is Some implies rel(f2(i)->0, f2(j)->0) by {
        let checks = o.dealing_checks@;
        if let (Some(x), Some(y)) = (added_dealing(f2(i)->0), added_dealing(f2(j)->0)) {
            if x.config_id == y.config_id && x.dealer == y.dealer {
                assert(f2(j) == dealing_decision(node, tip, pool, checks, j));
                assert(u[j] == EcdsaMessage::Dealing(y));
                assert(u[i] == EcdsaMessage::Dealing(x));
                assert(is_dealing_by(u[i], y.config_id, y.dealer));
                assert(earlier_valid_dealing(u, checks, j, y.config_id, y.dealer));
            }
        }
    }
    lemma_gather_pairwise(f2, nu, rel);

    let s2 = part1 + part2;
    let s3 = s2 + part3;
    let s4 = s3 + part4;
    let s5 = s4 + part5;
    let s6 = s5 + part6;
    assert(ch == s6 + part7);
    let l12 = s2.len() as int;
    assert forall|j: int| 0 <= j < ch.len() && l12 <= j implies #[trigger] added_dealing(ch[j]) is None by {
        if j < s3.len() {
            assert(ch[j] == part3[j - l12]);
        } else if j < s4.len() {
            assert(ch[j] == part4[j - s3.len()]);
        } else if j < s5.len() {
            assert(ch[j] == part5[j - s4.len()]);
        } else if j < s6.len() {
            assert(ch[j] == part6[j - s5.len()]);
        } else {
            assert(ch[j] == part7[j - s6.len()]);
        }
    }
    assert forall|j: int| 0 <= j < l12 implies #[trigger] ch[j] == s2[j] by {}
    assert forall|j: int| 0 <= j < ch.len() implies adds_new_dealing(#[trigger] ch[j], v) by {
        if j < l12 {
            assert(ch[j] == s2[j]);
            if j < part1.len() {
                assert(s2[j] == part1[j]);
            } else {
                assert(s2[j] == part2[j - part1.len()]);
            }
        } else {
            assert(added_dealing(ch[j]) is None);
        }
    }
    assert forall|i: int, j: int| 0 <= i < j < ch.len() implies distinct_dealing_adds(
        #[trigger] ch[i],
        #[trigger] ch[j],
    ) by {
        if j >= l12 {
            assert(added_dealing(ch[j]) is None);
        } else {
            assert(ch[i] == s2[i]);
            assert(ch[j] == s2[j]);
            if j < part1.len() {
                assert(s2[i] == part1[i]);
                assert(s2[j] == part1[j]);
            } else if i >= part1.len() {
                assert(s2[i] == part2[i - part1.len()]);
                assert(s2[j] == part2[j - part1.len()]);
            } else {
                assert(s2[i] == part1[i]);
                assert(s2[j] == part2[j - part1.len()]);
            }
        }
    }
}

/// At most one validated dealing per config and dealer: a validated
/// partition that holds at most one dealing for each config and dealer
/// still does after a tick's change set is applied, whatever the
/// cryptographic outcomes were.
pub proof fn lemma_dealings_stay_unique(
    node: NodeId,
    tip: EcdsaTip,
    pool: EcdsaPool,
    o: PreSignerOutcomes,
)
    requires
        tip.wf(),
        o.fits(tip, pool),
        dealings_unique(pool.validated@),
    ensures
        dealings_unique(validated_after(pool.validated@, pre_signer_changes(node, tip, pool, o))),
{
    let v = pool.validated@;
    let ch = pre_signer_changes(node, tip, pool, o);
    lemma_added_dealings(node, tip, pool, o);
    let fk = kept_validated(ch, v);
    let fa = added(ch);
    let kept = gather(fk, v.len() as int);
    let add = gather(fa, ch.len() as int);
    let rel = |x: EcdsaMessage, y: EcdsaMessage| !same_dealing_key(x, y);
    assert forall|i: int, j: int| 0 <= i < j < v.len() && #[trigger] fk(i) is Some && #[trigger] fk(j) is Some implies rel(fk(i)->0, fk(j)->0) by {
        assert(!same_dealing_key(v[i], v[j]));
    }
    lemma_gather_pairwise(fk, v.len() as int, rel);
    assert forall|i: int, j: int| 0 <= i < j < ch.len() && #[trigger] fa(i) is Some && #[trigger] fa(j) is Some implies rel(fa(i)->0, fa(j)->0) by {
        assert(distinct_dealing_adds(ch[i], ch[j]));
    }
    lemma_gather_pairwise(fa, ch.len() as int, rel);
    let fresh = |x: EcdsaMessage|
        match x {
            EcdsaMessage::Dealing(d) => !has_dealing(v, d.config_id, d.dealer),
            _ => true,
        };
    assert forall|j: int| 0 <= j < ch.len() && #[trigger] fa(j) is Some implies fresh(fa(j)->0) by {
        assert(adds_new_dealing(ch[j], v));
    }
    lemma_gather_forall(fa, ch.len() as int, fresh);
    let w = validated_after(v, ch);
    assert(w == kept + add);
    assert forall|a: int, b: int| 0 <= a < b < w.len() implies !same_dealing_key(
        #[trigger] w[a],
        #[trigger] w[b],
    ) by {
        if b < kept.len() {
            assert(w[a] == kept[a] && w[b] == kept[b]);
        } else if a >= kept.len() {
            assert(w[a] == add[a - kept.len()] && w[b] == add[b - kept.len()]);
        } else {
            assert(w[a] == kept[a] && w[b] == add[b - kept.len()]);
            let i = lemma_gather_source(fk, v.len() as int, a);
            assert(kept[a] == v[i]);
            if let (EcdsaMessage::Dealing(x), EcdsaMessage::Dealing(y)) = (w[a], w[b]) {
                if x.config_id == y.config_id && x.dealer == y.dealer {
                    assert(is_dealing_by(v[i], y.config_id, y.dealer));
                }
            }
        }
    }
}

/// What holds of every element of two sequences holds of every element of
/// their concatenation.
proof fn lemma_concat_forall<T>(a: Seq<T>, b: Seq<T>, p: spec_fn(T) -> bool)
    requires
        forall|k: int| 0 <= k < a.len() ==> p(#[trigger] a[k]),
        forall|k: int| 0 <= k < b.len() ==> p(#[trigger] b[k]),
    ensures
        forall|k: int| 0 <= k < (a + b).len() ==> p(#[trigger] (a + b)[k]),
{
    assert forall|k: int| 0 <= k < (a + b).len() implies p(#[trigger] (a + b)[k]) by {
        if k < a.len() {
            assert((a + b)[k] == a[k]);
        } else {
            assert((a + b)[k] == b[k - a.len()]);
        }
    }
}

/// A property of every change that each step proposes is one of every
/// change of the tick.
proof fn lemma_changes_forall(
    node: NodeId,
    tip: EcdsaTip,
    pool: EcdsaPool,
    o: PreSignerOutcomes,
    p: spec_fn(ChangeAction) -> bool,
)
    requires
        forall|i: int|
            0 <= i < tip.configs@.len() && #[trigger] issue_dealing_step(node, tip, pool, o.dealings@)(i) is Some ==> p(issue_dealing_step(node, tip, pool, o.dealings@)(i)->0),
        forall|i: int|
            0 <= i < pool.unvalidated@.len() && #[trigger] validate_dealing_step(node, tip, pool, o.dealing_checks@)(i) is Some ==> p(validate_dealing_step(node, tip, pool, o.dealing_checks@)(i)->0),
        forall|i: int|
            0 <= i < pool.validated@.len() && #[trigger] support_step(node, tip, pool, o.supports@)(i) is Some ==> p(support_step(node, tip, pool, o.supports@)(i)->0),
        forall|i: int|
            0 <= i < pool.validated@.len() && #[trigger] purge_validated_step(tip, pool)(i) is Some ==> p(purge_validated_step(tip, pool)(i)->0),
        forall|i: int|
            0 <= i < pool.unvalidated@.len() && #[trigger] purge_unvalidated_step(tip, pool)(i) is Some ==> p(purge_unvalidated_step(tip, pool)(i)->0),
        forall|i: int|
            0 <= i < tip.requests@.len() && #[trigger] issue_share_step(node, tip, pool, o.shares@)(i) is Some ==> p(issue_share_step(node, tip, pool, o.shares@)(i)->0),
        forall|i: int|
            0 <= i < pool.unvalidated@.len() && #[trigger] validate_share_step(node, tip, pool, o.share_checks@)(i) is Some ==> p(validate_share_step(node, tip, pool, o.share_checks@)(i)->0),
    ensures
        forall|k: int|
            0 <= k < pre_signer_changes(node, tip, pool, o).len() ==> p(
                #[trigger] pre_signer_changes(node, tip, pool, o)[k],
            ),
{
    let nc = tip.configs@.len() as int;
    let nr = tip.requests@.len() as int;
    let nv = pool.validated@.len() as int;
    let nu = pool.unvalidated@.len() as int;
    let f1 = issue_dealing_step(node, tip, pool, o.dealings@);
    let f2 = validate_dealing_step(node, tip, pool, o.dealing_checks@);
    let f3 = support_step(node, tip, pool, o.supports@);
    let f4 = purge_validated_step(tip, pool);
    let f5 = purge_unvalidated_step(tip, pool);
    let f6 = issue_share_step(node, tip, pool, o.shares@);
    let f7 = validate_share_step(node, tip, pool, o.share_checks@);
    lemma_gather_forall(f1, nc, p);
    lemma_gather_forall(f2, nu, p);
    lemma_gather_forall(f3, nv, p);
    lemma_gather_forall(f4, nv, p);
    lemma_gather_forall(f5, nu, p);
    lemma_gather_forall(f6, nr, p);
    lemma_gather_forall(f7, nu, p);
    let part1 = gather(f1, nc);
    let s2 = part1 + gather(f2, nu);
    lemma_concat_forall(part1, gather(f2, nu), p);
    let s3 = s2 + gather(f3, nv);
    lemma_concat_forall(s2, gather(f3, nv), p);
    let s4 = s3 + gather(f4, nv);
    lemma_concat_forall(s3, gather(f4, nv), p);
    let s5 = s4 + gather(f5, nu);
    lemma_concat_forall(s4, gather(f5, nu), p);
    let s6 = s5 + gather(f6, nr);
    lemma_concat_forall(s5, gather(f6, nr), p);
    lemma_concat_forall(s6, gather(f7, nu), p);
}

/// A dealer that has not dealt for a config of the tip holds a validated
/// dealing for it after one tick, where its dealing could be built.
pub proof fn lemma_dealing_issued(
    node: NodeId,
    tip: EcdsaTip,
    pool: EcdsaPool,
    o: PreSignerOutcomes,
    k: int,
)
    requires
        tip.wf(),
        o.fits(tip, pool),
        0 <= k < tip.configs@.len(),
        tip.configs@[k].dealers@.contains(node),
        !has_dealing(pool.validated@, tip.configs@[k].id, node),
        o.dealings@[k] is Some,
    ensures
        has_dealing(
            validated_after(pool.validated@, pre_signer_changes(node, tip, pool, o)),
            tip.configs@[k].id,
            node,
        ),
{
    let v = pool.validated@;
    let c = tip.configs@[k].id;
    let d = Dealing { config_id: c, dealer: node, material: o.dealings@[k]->0 };
    let a = ChangeAction::AddToValidated(EcdsaMessage::Dealing(d));
    let f1 = issue_dealing_step(node, tip, pool, o.dealings@);
    let nc = tip.configs@.len() as int;
    assert(dealing_due(node, tip, pool, k));
    assert(f1(k) == Some(a));
    lemma_gather_contains(f1, nc, a);
    let part1 = gather(f1, nc);
    let t = choose|t: int| 0 <= t < part1.len() && part1[t] == a;
    let ch = pre_signer_changes(node, tip, pool, o);
    assert(ch[t] == a);
    let fa = added(ch);
    assert(fa(t) == Some(EcdsaMessage::Dealing(d)));
    lemma_gather_contains(fa, ch.len() as int, EcdsaMessage::Dealing(d));
    let kept = gather(kept_validated(ch, v), v.len() as int);
    let add = gather(fa, ch.len() as int);
    let b = choose|b: int| 0 <= b < add.len() && add[b] == EcdsaMessage::Dealing(d);
    let w = validated_after(v, ch);
    assert(w[kept.len() + b] == EcdsaMessage::Dealing(d));
    assert(is_dealing_by(w[kept.len() + b], c, node));
}

/// An invalid dealing is never promoted: a peer's dealing that is not
/// validated, and whose public check fails wherever it stands in the
/// unvalidated partition, is still not validated after a tick. Applied tick
/// after tick, it never becomes validated.
pub proof fn lemma_invalid_dealing_not_validated(
    node: NodeId,
    tip: EcdsaTip,
    pool: EcdsaPool,
    o: PreSignerOutcomes,
    x: Dealing,
)
    requires
        tip.wf(),
        o.fits(tip, pool),
        x.dealer != node,
        !pool.validated@.contains(EcdsaMessage::Dealing(x)),
        forall|i: int|
            0 <= i < pool.unvalidated@.len() && pool.unvalidated@[i] == EcdsaMessage::Dealing(x)
                ==> #[trigger] o.dealing_checks@[i] == Verdict::Invalid,
    ensures
        !validated_after(pool.validated@, pre_signer_changes(node, tip, pool, o)).contains(
            EcdsaMessage::Dealing(x),
        ),
{
    let v = pool.validated@;
    let ch = pre_signer_changes(node, tip, pool, o);
    let not_x = |a: ChangeAction| added_dealing(a) != Some(x);
    let f2 = validate_dealing_step(node, tip, pool, o.dealing_checks@);
    assert forall|i: int|
        0 <= i < pool.unvalidated@.len() && #[trigger] f2(i) is Some implies not_x(f2(i)->0) by {
        if pool.unvalidated@[i] == EcdsaMessage::Dealing(x) {
            assert(o.dealing_checks@[i] == Verdict::Invalid);
        }
    }
    lemma_changes_forall(node, tip, pool, o, not_x);
    let fk = kept_validated(ch, v);
    let fa = added(ch);
    let kept = gather(fk, v.len() as int);
    let add = gather(fa, ch.len() as int);
    let m = EcdsaMessage::Dealing(x);
    lemma_gather_contains(fk, v.len() as int, m);
    lemma_gather_contains(fa, ch.len() as int, m);
    if kept.contains(m) {
        let i = choose|i: int| 0 <= i < v.len() && #[trigger] fk(i) == Some(m);
        assert(v[i] == m);
    }
    if add.contains(m) {
        let j = choose|j: int| 0 <= j < ch.len() && #[trigger] fa(j) == Some(m);
        assert(not_x(ch[j]));
    }
    let w = validated_after(v, ch);
    if w.contains(m) {
        let k = choose|k: int| 0 <= k < w.len() && w[k] == m;
        if k < kept.len() {
            assert(kept[k] == m);
        } else {
            assert(add[k - kept.len()] == m);
        }
    }
}

/// Once a request has left the tip, a tick neither issues nor validates a
/// signature share for it.
pub proof fn lemma_no_share_for_removed_request(
    node: NodeId,
    tip: EcdsaTip,
    pool: EcdsaPool,
    o: PreSignerOutcomes,
    r: ConfigId,
)
    requires
        tip.wf(),
        o.fits(tip, pool),
        !tip.request_live(r),
    ensures
        forall|k: int|
            0 <= k < pre_signer_changes(node, tip, pool, o).len() ==> match #[trigger] pre_signer_changes(
                node,
                tip,
                pool,
                o,
            )[k] {
                ChangeAction::AddToValidated(EcdsaMessage::Share(s)) => s.request_id != r,
                ChangeAction::MoveToValidated(EcdsaMessage::Share(s)) => s.request_id != r,
                _ => true,
            },
{
    let p = |a: ChangeAction|
        match a {
            ChangeAction::AddToValidated(EcdsaMessage::Share(s)) => s.request_id != r,
            ChangeAction::MoveToValidated(EcdsaMessage::Share(s)) => s.request_id != r,
            _ => true,
        };
    let f6 = issue_share_step(node, tip, pool, o.shares@);
    assert forall|i: int| 0 <= i < tip.requests@.len() && #[trigger] f6(i) is Some implies p(f6(i)->0) by {
        if tip.requests@[i].id == r {
            assert(tip.request_live(r));
        }
    }
    lemma_changes_forall(node, tip, pool, o, p);
}

/// Nothing is owed, pending or stale for `node` in `pool` under `tip`.
pub open spec fn settled(node: NodeId, tip: EcdsaTip, pool: EcdsaPool) -> bool {
    &&& forall|i: int| 0 <= i < tip.configs@.len() ==> !#[trigger] dealing_due(node, tip, pool, i)
    &&& forall|i: int|
        0 <= i < pool.validated@.len() ==> !#[trigger] support_due(node, tip, pool, i)
    &&& forall|i: int| 0 <= i < tip.requests@.len() ==> !#[trigger] share_due(node, tip, pool, i)
    &&& forall|i: int|
        0 <= i < pool.validated@.len() ==> match dealing_config(#[trigger] pool.validated@[i]) {
            Some(c) => !stale(tip, c),
            None => true,
        }
    &&& forall|i: int|
        0 <= i < pool.unvalidated@.len() ==> match #[trigger] pool.unvalidated@[i] {
            EcdsaMessage::Dealing(x) => !tip.config_live(x.config_id) && !stale(tip, x.config_id),
            EcdsaMessage::Support(x) => !stale(tip, x.config_id),
            EcdsaMessage::Share(x) => !tip.request_live(x.request_id),
            _ => true,
        }
}

/// A settled pool is a fixed point: a tick on it proposes no change,
/// whatever the cryptographic outcomes.
pub proof fn lemma_settled_fixed_point(node: NodeId, tip: EcdsaTip, pool: EcdsaPool, o: PreSignerOutcomes)
    requires
        o.fits(tip, pool),
        settled(node, tip, pool),
    ensures
        pre_signer_changes(node, tip, pool, o) == Seq::<ChangeAction>::empty(),
{
    let nc = tip.configs@.len() as int;
    let nr = tip.requests@.len() as int;
    let nv = pool.validated@.len() as int;
    let nu = pool.unvalidated@.len() as int;
    let f1 = issue_dealing_step(node, tip, pool, o.dealings@);
    let f2 = validate_dealing_step(node, tip, pool, o.dealing_checks@);
    let f3 = support_step(node, tip, pool, o.supports@);
    let f4 = purge_validated_step(tip, pool);
    let f5 = purge_unvalidated_step(tip, pool);
    let f6 = issue_share_step(node, tip, pool, o.shares@);
    let f7 = validate_share_step(node, tip, pool, o.share_checks@);
    assert forall|i: int| 0 <= i < nc implies #[trigger] f1(i) is None by {
        assert(!dealing_due(node, tip, pool, i));
    }
    assert forall|i: int| 0 <= i < nu implies #[trigger] f2(i) is None by {}
    assert forall|i: int| 0 <= i < nv implies #[trigger] f3(i) is None by {
        assert(!support_due(node, tip, pool, i));
    }
    assert forall|i: int| 0 <= i < nv implies #[trigger] f4(i) is None by {}
    assert forall|i: int| 0 <= i < nu implies #[trigger] f5(i) is None by {}
    assert forall|i: int| 0 <= i < nr implies #[trigger] f6(i) is None by {
        assert(!share_due(node, tip, pool, i));
    }
    assert forall|i: int| 0 <= i < nu implies #[trigger] f7(i) is None by {}
    lemma_gather_none(f1, nc);
    lemma_gather_none(f2, nu);
    lemma_gather_none(f3, nv);
    lemma_gather_none(f4, nv);
    lemma_gather_none(f5, nu);
    lemma_gather_none(f6, nr);
    lemma_gather_none(f7, nu);
    assert(pre_signer_changes(node, tip, pool, o) =~= Seq::<ChangeAction>::empty());
}

/// The four transcripts that a signature consumes are all there.
pub open spec fn four_present(t: TupleInCreation) -> bool {
    &&& t.kappa_unmasked is Some
    &&& t.lambda_masked is Some
    &&& t.key_times_lambda is Some
    &&& t.kappa_times_lambda is Some
}

/// A tuple is complete exactly when its four terminal transcripts are
/// there; after a transition, no tuple left in creation has all four.
pub proof fn lemma_tuple_completes_iff_four(
    prev: PayloadView,
    tip: EcdsaTip,
    done: Seq<Transcript>,
    height: u64,
    target: u64,
    t: TupleInCreation,
)
    ensures
        spec_completed(t) is Some <==> four_present(t),
        forall|k: int|
            0 <= k < spec_next_payload(prev, tip, done, height, target).in_creation.len()
                ==> !four_present(
                #[trigger] spec_next_payload(prev, tip, done, height, target).in_creation[k],
            ),
{
    let n = prev.in_creation.len() as int;
    let f = still_in_creation(prev, done, tip, height);
    lemma_gather_forall(f, n, |x: TupleInCreation| !four_present(x));
    let ic = gather(f, n);
    let next = spec_next_payload(prev, tip, done, height, target);
    assert forall|k: int| 0 <= k < next.in_creation.len() implies !four_present(
        #[trigger] next.in_creation[k],
    ) by {
        if k < ic.len() {
            assert(next.in_creation[k] == ic[k]);
        }
    }
}

/// The distinct signers counted for a request are the listed signers that
/// hold a validated share for it, each once.
pub proof fn lemma_distinct_signers(v: Seq<EcdsaMessage>, r: ConfigId, signers: Seq<NodeId>)
    ensures
        distinct_signers(v, r, signers).no_duplicates(),
        forall|x: NodeId|
            #[trigger] distinct_signers(v, r, signers).contains(x) <==> signers.contains(x)
                && has_share(v, r, x),
{
    let n = signers.len() as int;
    let f = signer_with_share(v, r, signers);
    let d = distinct_signers(v, r, signers);
    assert forall|i: int, j: int| 0 <= i < j < n && #[trigger] f(i) is Some && #[trigger] f(j) is Some implies (|a: NodeId, b: NodeId| a != b)(f(i)->0, f(j)->0) by {
        assert(signers.take(j)[i] == signers[i]);
    }
    lemma_gather_pairwise(f, n, |a: NodeId, b: NodeId| a != b);
    assert forall|x: NodeId| #[trigger] d.contains(x) <==> signers.contains(x) && has_share(v, r, x) by {
        lemma_gather_contains(f, n, x);
        if signers.contains(x) && has_share(v, r, x) {
            let k = choose|k: int| 0 <= k < n && signers[k] == x;
            lemma_first_listed(v, r, signers, k);
        }
    }
}

proof fn lemma_first_listed(v: Seq<EcdsaMessage>, r: ConfigId, signers: Seq<NodeId>, k: int)
    requires
        0 <= k < signers.len(),
        has_share(v, r, signers[k]),
    ensures
        distinct_signers(v, r, signers).contains(signers[k]),
    decreases k,
{
    let f = signer_with_share(v, r, signers);
    lemma_gather_contains(f, signers.len() as int, signers[k]);
    if signers.take(k).contains(signers[k]) {
        let k2 = choose|k2: int| 0 <= k2 < signers.take(k).len() && signers.take(k)[k2] == signers[k];
        assert(signers[k2] == signers[k]);
        lemma_first_listed(v, r, signers, k2);
    } else {
        assert(f(k) == Some(signers[k]));
    }
}

/// A signature is assembled only for a request with shares from at least
/// its threshold of distinct signers; for such a request, wherever
/// aggregation gives a material, its signature is delivered.
pub proof fn lemma_signatures_need_threshold(
    p: PayloadView,
    tip: EcdsaTip,
    v: Seq<EcdsaMessage>,
    outs: Seq<Option<u64>>,
)
    requires
        outs.len() == p.ongoing.len(),
    ensures
        forall|k: int|
            p.signatures.len() <= k < spec_with_signatures(p, tip, v, outs).signatures.len()
                ==> request_ready(
                tip,
                v,
                (#[trigger] spec_with_signatures(p, tip, v, outs).signatures[k]).request_id,
            ),
        forall|i: int|
            0 <= i < p.ongoing.len() && request_ready(tip, v, #[trigger] p.ongoing[i].request_id)
                && outs[i] is Some ==> spec_with_signatures(p, tip, v, outs).signatures.contains(
                Signature { request_id: p.ongoing[i].request_id, material: outs[i]->0 },
            ),
{
    let n = p.ongoing.len() as int;
    let f = signed(p, tip, v, outs);
    let g = gather(f, n);
    let q = spec_with_signatures(p, tip, v, outs);
    lemma_gather_forall(f, n, |s: Signature| request_ready(tip, v, s.request_id));
    assert forall|k: int| p.signatures.len() <= k < q.signatures.len() implies request_ready(
        tip,
        v,
        (#[trigger] q.signatures[k]).request_id,
    ) by {
        assert(q.signatures[k] == g[k - p.signatures.len()]);
    }
    assert forall|i: int|
        0 <= i < n && request_ready(tip, v, #[trigger] p.ongoing[i].request_id) && outs[i] is Some
            implies q.signatures.contains(
            Signature { request_id: p.ongoing[i].request_id, material: outs[i]->0 },
        ) by {
        let s = Signature { request_id: p.ongoing[i].request_id, material: outs[i]->0 };
        assert(f(i) == Some(s));
        lemma_gather_contains(f, n, s);
        let b = choose|b: int| 0 <= b < g.len() && g[b] == s;
        assert(q.signatures[p.signatures.len() + b] == s);
    }
}

/// Once a request has left the tip, the payload built from it holds no
/// pairing for the request.
pub proof fn lemma_pairing_dropped(
    prev: PayloadView,
    tip: EcdsaTip,
    done: Seq<Transcript>,
    v: Seq<EcdsaMessage>,
    height: u64,
    target: u64,
    outs: Seq<Option<u64>>,
    r: ConfigId,
)
    requires
        !tip.request_live(r),
    ensures
        forall|k: int|
            0 <= k < spec_next_payload(prev, tip, done, height, target).ongoing.len()
                ==> (#[trigger] spec_next_payload(prev, tip, done, height, target).ongoing[k]).request_id
                != r,
        forall|k: int|
            0 <= k < spec_with_signatures(
                spec_next_payload(prev, tip, done, height, target),
                tip,
                v,
                outs,
            ).ongoing.len() ==> (#[trigger] spec_with_signatures(
                spec_next_payload(prev, tip, done, height, target),
                tip,
                v,
                outs,
            ).ongoing[k]).request_id != r,
{
    let next = spec_next_payload(prev, tip, done, height, target);
    let live = |o: crate::payload::OngoingSigning| tip.request_live(o.request_id);
    let fk = ongoing_kept(prev, tip);
    lemma_gather_forall(fk, prev.ongoing.len() as int, live);
    let kept = gather(fk, prev.ongoing.len() as int);
    let n = prev.in_creation.len() as int;
    let available = prev.available + gather(crate::payload::newly_complete(prev, done, tip, height), n);
    let fp = pairing(tip, kept, available);
    let nreq = tip.requests@.len() as int;
    assert forall|k: int| 0 <= k < nreq && #[trigger] fp(k) is Some implies live(fp(k)->0) by {}
    lemma_gather_forall(fp, nreq, live);
    lemma_concat_forall(kept, gather(fp, nreq), live);
    assert(next.ongoing == kept + gather(fp, nreq));
    let fu = unsigned(next, tip, v, outs);
    assert forall|i: int| 0 <= i < next.ongoing.len() && #[trigger] fu(i) is Some implies live(fu(i)->0) by {
        assert(live(next.ongoing[i]));
    }
    lemma_gather_forall(fu, next.ongoing.len() as int, live);
}

} // verus!
