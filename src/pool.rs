//! The ECDSA artifact pool: a validated and an unvalidated partition of
//! messages, the lookups the state machine makes on them, and how a change set
//! is applied.
use vstd::prelude::*;
use crate::gather::gather;
use crate::types::{ChangeAction, ConfigId, EcdsaMessage, NodeId};

verus! {

/// A snapshot of the ECDSA pool.
#[derive(Clone, Debug)]
pub struct EcdsaPool {
    pub validated: Vec<EcdsaMessage>,
    pub unvalidated: Vec<EcdsaMessage>,
}

/// `m` is a dealing by `d` for config `c`.
pub open spec fn is_dealing_by(m: EcdsaMessage, c: ConfigId, d: NodeId) -> bool {
    match m {
        EcdsaMessage::Dealing(x) => x.config_id == c && x.dealer == d,
        _ => false,
    }
}

/// `m` is a support by `s` of the dealing by `d` for config `c`.
pub open spec fn is_support_by(m: EcdsaMessage, c: ConfigId, d: NodeId, s: NodeId) -> bool {
    match m {
        EcdsaMessage::Support(x) => x.config_id == c && x.dealer == d && x.supporter == s,
        _ => false,
    }
}

/// `m` is a signature share by `s` for request `r`.
pub open spec fn is_share_by(m: EcdsaMessage, r: ConfigId, s: NodeId) -> bool {
    match m {
        EcdsaMessage::Share(x) => x.request_id == r && x.signer == s,
        _ => false,
    }
}

pub open spec fn has_dealing(p: Seq<EcdsaMessage>, c: ConfigId, d: NodeId) -> bool {
    exists|i: int| 0 <= i < p.len() && #[trigger] is_dealing_by(p[i], c, d)
}

pub open spec fn has_support(p: Seq<EcdsaMessage>, c: ConfigId, d: NodeId, s: NodeId) -> bool {
    exists|i: int| 0 <= i < p.len() && #[trigger] is_support_by(p[i], c, d, s)
}

pub open spec fn has_share(p: Seq<EcdsaMessage>, r: ConfigId, s: NodeId) -> bool {
    exists|i: int| 0 <= i < p.len() && #[trigger] is_share_by(p[i], r, s)
}

/// Whether `p` holds a dealing by `d` for config `c`.
pub fn holds_dealing(p: &Vec<EcdsaMessage>, c: ConfigId, d: NodeId) -> (r: bool)
    ensures
        r == has_dealing(p@, c, d),
{
    let mut i: usize = 0;
    while i < p.len()
        invariant
            i <= p@.len(),
            forall|j: int| 0 <= j < i ==> !#[trigger] is_dealing_by(p@[j], c, d),
        decreases p@.len() - i,
    {
        if let EcdsaMessage::Dealing(x) = p[i] {
            if x.config_id == c && x.dealer == d {
                assert(is_dealing_by(p@[i as int], c, d));
                return true;
            }
        }
        i = i + 1;
    }
    false
}

/// Whether `p` holds a support by `s` of the dealing by `d` for config `c`.
pub fn holds_support(p: &Vec<EcdsaMessage>, c: ConfigId, d: NodeId, s: NodeId) -> (r: bool)
    ensures
        r == has_support(p@, c, d, s),
{
    let mut i: usize = 0;
    while i < p.len()
        invariant
            i <= p@.len(),
            forall|j: int| 0 <= j < i ==> !#[trigger] is_support_by(p@[j], c, d, s),
        decreases p@.len() - i,
    {
        if let EcdsaMessage::Support(x) = p[i] {
            if x.config_id == c && x.dealer == d && x.supporter == s {
                assert(is_support_by(p@[i as int], c, d, s));
                return true;
            }
        }
        i = i + 1;
    }
    false
}

/// Whether `p` holds a signature share by `s` for request `r`.
pub fn holds_share(p: &Vec<EcdsaMessage>, req: ConfigId, s: NodeId) -> (r: bool)
    ensures
        r == has_share(p@, req, s),
{
    let mut i: usize = 0;
    while i < p.len()
        invariant
            i <= p@.len(),
            forall|j: int| 0 <= j < i ==> !#[trigger] is_share_by(p@[j], req, s),
        decreases p@.len() - i,
    {
        if let EcdsaMessage::Share(x) = p[i] {
            if x.request_id == req && x.signer == s {
                assert(is_share_by(p@[i as int], req, s));
                return true;
            }
        }
        i = i + 1;
    }
    false
}

/// Whether `changes` holds `a`.
fn holds_action(changes: &Vec<ChangeAction>, a: ChangeAction) -> (r: bool)
    ensures
        r == changes@.contains(a),
{
    let mut i: usize = 0;
    while i < changes.len()
        invariant
            i <= changes@.len(),
            forall|j: int| 0 <= j < i ==> changes@[j] != a,
        decreases changes@.len() - i,
    {
        if changes[i] == a {
            return true;
        }
        i = i + 1;
    }
    false
}

/// What stays of the validated partition `v` under `changes`.
pub open spec fn kept_validated(changes: Seq<ChangeAction>, v: Seq<EcdsaMessage>) -> spec_fn(
    int,
) -> Option<EcdsaMessage> {
    |i: int|
        if changes.contains(ChangeAction::RemoveValidated(v[i])) {
            None
        } else {
            Some(v[i])
        }
}

/// What stays of the unvalidated partition `u` under `changes`.
pub open spec fn kept_unvalidated(changes: Seq<ChangeAction>, u: Seq<EcdsaMessage>) -> spec_fn(
    int,
) -> Option<EcdsaMessage> {
    |i: int|
        if changes.contains(ChangeAction::RemoveUnvalidated(u[i])) || changes.contains(
            ChangeAction::MoveToValidated(u[i]),
        ) {
            None
        } else {
            Some(u[i])
        }
}

/// What `changes` adds to the validated partition.
pub open spec fn added(changes: Seq<ChangeAction>) -> spec_fn(int) -> Option<EcdsaMessage> {
    |i: int|
        match changes[i] {
            ChangeAction::AddToValidated(m) => Some(m),
            ChangeAction::MoveToValidated(m) => Some(m),
            _ => None,
        }
}

/// The validated partition after `changes`.
pub open spec fn validated_after(v: Seq<EcdsaMessage>, changes: Seq<ChangeAction>) -> Seq<
    EcdsaMessage,
> {
    gather(kept_validated(changes, v), v.len() as int) + gather(added(changes), changes.len() as int)
}

/// The unvalidated partition after `changes`.
pub open spec fn unvalidated_after(u: Seq<EcdsaMessage>, changes: Seq<ChangeAction>) -> Seq<
    EcdsaMessage,
> {
    gather(kept_unvalidated(changes, u), u.len() as int)
}

impl EcdsaPool {
    /// An empty pool.
    pub fn new() -> (r: Self)
        ensures
            r.validated@ == Seq::<EcdsaMessage>::empty(),
            r.unvalidated@ == Seq::<EcdsaMessage>::empty(),
    {
        EcdsaPool { validated: Vec::new(), unvalidated: Vec::new() }
    }

    /// Receives an artifact from a peer into the unvalidated partition.
    pub fn insert_unvalidated(&mut self, m: EcdsaMessage)
        ensures
            final(self).validated@ == old(self).validated@,
            final(self).unvalidated@ == old(self).unvalidated@.push(m),
    {
        self.unvalidated.push(m);
    }

    /// Applies a change set as one batch: removals and moves take artifacts
    /// out of their partition, and additions and moves append to the
    /// validated partition in the order of the change set.
    pub fn apply_changes(&mut self, changes: &Vec<ChangeAction>)
        ensures
            final(self).validated@ == validated_after(old(self).validated@, changes@),
            final(self).unvalidated@ == unvalidated_after(old(self).unvalidated@, changes@),
    {
        let mut validated: Vec<EcdsaMessage> = Vec::new();
        let mut i: usize = 0;
        while i < self.validated.len()
            invariant
                i <= self.validated@.len(),
                validated@ == gather(kept_validated(changes@, self.validated@), i as int),
            decreases self.validated@.len() - i,
        {
            let m = self.validated[i];
            if !holds_action(changes, ChangeAction::RemoveValidated(m)) {
                validated.push(m);
            }
            i = i + 1;
        }
        let mut j: usize = 0;
        let ghost kept = validated@;
        while j < changes.len()
            invariant
                j <= changes@.len(),
                validated@ == kept + gather(added(changes@), j as int),
            decreases changes@.len() - j,
        {
            match changes[j] {
                ChangeAction::AddToValidated(m) => validated.push(m),
                ChangeAction::MoveToValidated(m) => validated.push(m),
                _ => {},
            }
            j = j + 1;
        }
        let mut unvalidated: Vec<EcdsaMessage> = Vec::new();
        let mut k: usize = 0;
        while k < self.unvalidated.len()
            invariant
                k <= self.unvalidated@.len(),
                unvalidated@ == gather(kept_unvalidated(changes@, self.unvalidated@), k as int),
            decreases self.unvalidated@.len() - k,
        {
            let m = self.unvalidated[k];
            if !holds_action(changes, ChangeAction::RemoveUnvalidated(m)) && !holds_action(
                changes,
                ChangeAction::MoveToValidated(m),
            ) {
                unvalidated.push(m);
            }
            k = k + 1;
        }
        self.validated = validated;
        self.unvalidated = unvalidated;
    }
}

} // verus!
