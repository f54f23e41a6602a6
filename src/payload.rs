//! The block payload of threshold ECDSA and its transition: 4-tuples advance
//! through their creation stages as transcripts complete, complete tuples are
//! paired with signature requests, and signatures are assembled.
use vstd::prelude::*;
use crate::crypto::EcdsaCrypto;
use crate::gather::gather;
use crate::pool::{has_share, holds_share};
use crate::types::{
    ConfigId, ConfigRef, EcdsaMessage, EcdsaTip, NodeId, Signature, SignatureShare, Transcript,
    TranscriptKind,
};

verus! {

/// A 4-tuple being created: a config for each transcript, and the transcript
/// once it is complete.
#[derive(Clone, Copy, Debug, PartialEq, Eq, Structural)]
pub struct TupleInCreation {
    pub kappa_config: ConfigRef,
    pub kappa_masked: Option<Transcript>,
    pub lambda_config: ConfigRef,
    pub lambda_masked: Option<Transcript>,
    pub unmask_kappa_config: Option<ConfigRef>,
    pub kappa_unmasked: Option<Transcript>,
    pub key_times_lambda_config: Option<ConfigRef>,
    pub key_times_lambda: Option<Transcript>,
    pub kappa_times_lambda_config: Option<ConfigRef>,
    pub kappa_times_lambda: Option<Transcript>,
}

/// The four transcripts that one signature consumes.
#[derive(Clone, Copy, Debug, PartialEq, Eq, Structural)]
pub struct CompleteTuple {
    pub kappa_unmasked: Transcript,
    pub lambda_masked: Transcript,
    pub key_times_lambda: Transcript,
    pub kappa_times_lambda: Transcript,
}

/// A signature request paired with the tuple that will sign it.
#[derive(Clone, Copy, Debug, PartialEq, Eq, Structural)]
pub struct OngoingSigning {
    pub request_id: ConfigId,
    pub tuple: CompleteTuple,
}

/// A transcript slot holds a transcript of its config.
pub open spec fn slot_matches(t: Option<Transcript>, c: Option<ConfigRef>) -> bool {
    match t {
        Some(x) => c is Some && x.config_id == c->0.id,
        None => true,
    }
}

impl TupleInCreation {
    /// A later config is issued only once the transcripts it is made from
    /// are there, and each transcript belongs to its slot's config.
    pub open spec fn wf(&self) -> bool {
        &&& self.unmask_kappa_config is Some ==> self.kappa_masked is Some
        &&& self.key_times_lambda_config is Some ==> self.lambda_masked is Some
        &&& self.kappa_times_lambda_config is Some ==> self.lambda_masked is Some
            && self.kappa_unmasked is Some
        &&& slot_matches(self.kappa_masked, Some(self.kappa_config))
        &&& slot_matches(self.lambda_masked, Some(self.lambda_config))
        &&& slot_matches(self.kappa_unmasked, self.unmask_kappa_config)
        &&& slot_matches(self.key_times_lambda, self.key_times_lambda_config)
        &&& slot_matches(self.kappa_times_lambda, self.kappa_times_lambda_config)
    }

    /// A fresh tuple: two random masked configs and nothing else.
    pub open spec fn spec_fresh(kappa: ConfigId, lambda: ConfigId) -> TupleInCreation {
        TupleInCreation {
            kappa_config: ConfigRef { id: kappa, kind: TranscriptKind::RandomMasked },
            kappa_masked: None,
            lambda_config: ConfigRef { id: lambda, kind: TranscriptKind::RandomMasked },
            lambda_masked: None,
            unmask_kappa_config: None,
            kappa_unmasked: None,
            key_times_lambda_config: None,
            key_times_lambda: None,
            kappa_times_lambda_config: None,
            kappa_times_lambda: None,
        }
    }

    pub fn fresh(kappa: ConfigId, lambda: ConfigId) -> (r: Self)
        ensures
            r == Self::spec_fresh(kappa, lambda),
            r.wf(),
    {
        TupleInCreation {
            kappa_config: ConfigRef { id: kappa, kind: TranscriptKind::RandomMasked },
            kappa_masked: None,
            lambda_config: ConfigRef { id: lambda, kind: TranscriptKind::RandomMasked },
            lambda_masked: None,
            unmask_kappa_config: None,
            kappa_unmasked: None,
            key_times_lambda_config: None,
            key_times_lambda: None,
            kappa_times_lambda_config: None,
            kappa_times_lambda: None,
        }
    }
}

/// The tuple as a complete one, exactly when its four terminal transcripts
/// are all there.
pub open spec fn spec_completed(t: TupleInCreation) -> Option<CompleteTuple> {
    match (t.kappa_unmasked, t.lambda_masked, t.key_times_lambda, t.kappa_times_lambda) {
        (Some(a), Some(b), Some(c), Some(d)) => Some(
            CompleteTuple { kappa_unmasked: a, lambda_masked: b, key_times_lambda: c, kappa_times_lambda: d },
        ),
        _ => None,
    }
}

pub fn completed(t: &TupleInCreation) -> (r: Option<CompleteTuple>)
    ensures
        r == spec_completed(*t),
{
    match (t.kappa_unmasked, t.lambda_masked, t.key_times_lambda, t.kappa_times_lambda) {
        (Some(a), Some(b), Some(c), Some(d)) => Some(
            CompleteTuple { kappa_unmasked: a, lambda_masked: b, key_times_lambda: c, kappa_times_lambda: d },
        ),
        _ => None,
    }
}

/// The first of the first `n` completed transcripts that belongs to `id`.
pub open spec fn find_transcript(done: Seq<Transcript>, id: ConfigId, n: int) -> Option<Transcript>
    decreases n,
{
    if n <= 0 {
        None
    } else {
        match find_transcript(done, id, n - 1) {
            Some(t) => Some(t),
            None => if done[n - 1].config_id == id {
                Some(done[n - 1])
            } else {
                None
            },
        }
    }
}

pub proof fn lemma_find_transcript(done: Seq<Transcript>, id: ConfigId, n: int)
    ensures
        match find_transcript(done, id, n) {
            Some(t) => t.config_id == id,
            None => true,
        },
    decreases n,
{
    if n > 0 {
        lemma_find_transcript(done, id, n - 1);
    }
}

pub fn find_completed(done: &Vec<Transcript>, id: ConfigId) -> (r: Option<Transcript>)
    ensures
        r == find_transcript(done@, id, done@.len() as int),
{
    let mut r: Option<Transcript> = None;
    let mut i: usize = 0;
    while i < done.len()
        invariant
            i <= done@.len(),
            r == find_transcript(done@, id, i as int),
        decreases done@.len() - i,
    {
        if r.is_none() && done[i].config_id == id {
            r = Some(done[i]);
        }
        i = i + 1;
    }
    r
}

/// A transcript slot after the transcripts `done` completed: once filled it
/// stays, and it fills with its config's transcript.
pub open spec fn spec_fill(slot: Option<Transcript>, config: Option<ConfigRef>, done: Seq<Transcript>) -> Option<Transcript> {
    match slot {
        Some(t) => Some(t),
        None => match config {
            Some(c) => find_transcript(done, c.id, done.len() as int),
            None => None,
        },
    }
}

fn fill(slot: Option<Transcript>, config: Option<ConfigRef>, done: &Vec<Transcript>) -> (r: Option<Transcript>)
    ensures
        r == spec_fill(slot, config, done@),
        slot_matches(slot, config) ==> slot_matches(r, config),
{
    proof {
        if let Some(c) = config {
            lemma_find_transcript(done@, c.id, done@.len() as int);
        }
    }
    match slot {
        Some(t) => Some(t),
        None => match config {
            Some(c) => find_completed(done, c.id),
            None => None,
        },
    }
}

/// The id that the tuple at position `i` gives the config of its slot
/// `slot` (0, 1 or 2) when that config is issued at `height`.
pub open spec fn derived_id(height: u64, i: int, slot: int) -> ConfigId {
    ConfigId { height, seq: (3 * i + slot) as u64 }
}

/// The tuple at position `i` once the transcripts `done` completed, at
/// `height`: its transcript slots fill, and then each config whose inputs
/// are now there is issued.
pub open spec fn spec_advance(
    t: TupleInCreation,
    done: Seq<Transcript>,
    key: ConfigId,
    height: u64,
    i: int,
) -> TupleInCreation {
    let kappa_masked = spec_fill(t.kappa_masked, Some(t.kappa_config), done);
    let lambda_masked = spec_fill(t.lambda_masked, Some(t.lambda_config), done);
    let kappa_unmasked = spec_fill(t.kappa_unmasked, t.unmask_kappa_config, done);
    let key_times_lambda = spec_fill(t.key_times_lambda, t.key_times_lambda_config, done);
    let kappa_times_lambda = spec_fill(t.kappa_times_lambda, t.kappa_times_lambda_config, done);
    let unmask_kappa_config = if t.unmask_kappa_config is Some {
        t.unmask_kappa_config
    } else if kappa_masked is Some {
        Some(
            ConfigRef {
                id: derived_id(height, i, 0),
                kind: TranscriptKind::ReshareToUnmasked { source: t.kappa_config.id },
            },
        )
    } else {
        None
    };
    let key_times_lambda_config = if t.key_times_lambda_config is Some {
        t.key_times_lambda_config
    } else if lambda_masked is Some {
        Some(
            ConfigRef {
                id: derived_id(height, i, 1),
                kind: TranscriptKind::MaskedMultiplication {
                    unmasked: key,
                    masked: t.lambda_config.id,
                },
            },
        )
    } else {
        None
    };
    let kappa_times_lambda_config = if t.kappa_times_lambda_config is Some {
        t.kappa_times_lambda_config
    } else if lambda_masked is Some && kappa_unmasked is Some {
        Some(
            ConfigRef {
                id: derived_id(height, i, 2),
                kind: TranscriptKind::MaskedMultiplication {
                    unmasked: unmask_kappa_config->0.id,
                    masked: t.lambda_config.id,
                },
            },
        )
    } else {
        None
    };
    TupleInCreation {
        kappa_config: t.kappa_config,
        kappa_masked,
        lambda_config: t.lambda_config,
        lambda_masked,
        unmask_kappa_config,
        kappa_unmasked,
        key_times_lambda_config,
        key_times_lambda,
        kappa_times_lambda_config,
        kappa_times_lambda,
    }
}

pub fn advance(t: &TupleInCreation, done: &Vec<Transcript>, key: ConfigId, height: u64, i: u64) -> (r:
    TupleInCreation)
    requires
        t.wf(),
        3 * i + 2 <= u64::MAX,
    ensures
        r == spec_advance(*t, done@, key, height, i as int),
        r.wf(),
{
    let kappa_masked = fill(t.kappa_masked, Some(t.kappa_config), done);
    let lambda_masked = fill(t.lambda_masked, Some(t.lambda_config), done);
    let kappa_unmasked = fill(t.kappa_unmasked, t.unmask_kappa_config, done);
    let key_times_lambda = fill(t.key_times_lambda, t.key_times_lambda_config, done);
    let kappa_times_lambda = fill(t.kappa_times_lambda, t.kappa_times_lambda_config, done);
    let unmask_kappa_config = if t.unmask_kappa_config.is_some() {
        t.unmask_kappa_config
    } else if kappa_masked.is_some() {
        Some(
            ConfigRef {
                id: ConfigId { height, seq: 3 * i },
                kind: TranscriptKind::ReshareToUnmasked { source: t.kappa_config.id },
            },
        )
    } else {
        None
    };
    let key_times_lambda_config = if t.key_times_lambda_config.is_some() {
        t.key_times_lambda_config
    } else if lambda_masked.is_some() {
        Some(
            ConfigRef {
                id: ConfigId { height, seq: 3 * i + 1 },
                kind: TranscriptKind::MaskedMultiplication {
                    unmasked: key,
                    masked: t.lambda_config.id,
                },
            },
        )
    } else {
        None
    };
    let kappa_times_lambda_config = if t.kappa_times_lambda_config.is_some() {
        t.kappa_times_lambda_config
    } else if lambda_masked.is_some() && kappa_unmasked.is_some() {
        match unmask_kappa_config {
            Some(u) => Some(
                ConfigRef {
                    id: ConfigId { height, seq: 3 * i + 2 },
                    kind: TranscriptKind::MaskedMultiplication {
                        unmasked: u.id,
                        masked: t.lambda_config.id,
                    },
                },
            ),
            None => None,
        }
    } else {
        None
    };
    TupleInCreation {
        kappa_config: t.kappa_config,
        kappa_masked,
        lambda_config: t.lambda_config,
        lambda_masked,
        unmask_kappa_config,
        kappa_unmasked,
        key_times_lambda_config,
        key_times_lambda,
        kappa_times_lambda_config,
        kappa_times_lambda,
    }
}

/// The ECDSA payload of a block: the tuples being created, the complete
/// tuples not used yet (oldest first), the ongoing signing requests, and the
/// signatures this block delivers.
#[derive(Clone, Debug)]
pub struct EcdsaPayload {
    pub in_creation: Vec<TupleInCreation>,
    pub available: Vec<CompleteTuple>,
    pub ongoing: Vec<OngoingSigning>,
    pub signatures: Vec<Signature>,
}

/// The contents of a payload.
pub struct PayloadView {
    pub in_creation: Seq<TupleInCreation>,
    pub available: Seq<CompleteTuple>,
    pub ongoing: Seq<OngoingSigning>,
    pub signatures: Seq<Signature>,
}

impl View for EcdsaPayload {
    type V = PayloadView;

    open spec fn view(&self) -> PayloadView {
        PayloadView {
            in_creation: self.in_creation@,
            available: self.available@,
            ongoing: self.ongoing@,
            signatures: self.signatures@,
        }
    }
}

impl PayloadView {
    /// Every tuple being created is well formed.
    pub open spec fn wf(&self) -> bool {
        forall|i: int| 0 <= i < self.in_creation.len() ==> (#[trigger] self.in_creation[i]).wf()
    }
}

/// The ongoing requests whose request is still live.
pub open spec fn ongoing_kept(prev: PayloadView, tip: EcdsaTip) -> spec_fn(int) -> Option<
    OngoingSigning,
> {
    |i: int|
        if tip.request_live(prev.ongoing[i].request_id) {
            Some(prev.ongoing[i])
        } else {
            None
        }
}

/// The tuple at position `i` after the transition.
pub open spec fn advanced(prev: PayloadView, done: Seq<Transcript>, tip: EcdsaTip, height: u64) -> spec_fn(int) -> TupleInCreation {
    |i: int| spec_advance(prev.in_creation[i], done, tip.key_transcript, height, i)
}

/// The advanced tuples that are not complete yet.
pub open spec fn still_in_creation(
    prev: PayloadView,
    done: Seq<Transcript>,
    tip: EcdsaTip,
    height: u64,
) -> spec_fn(int) -> Option<TupleInCreation> {
    |i: int|
        if spec_completed(advanced(prev, done, tip, height)(i)) is Some {
            None
        } else {
            Some(advanced(prev, done, tip, height)(i))
        }
}

/// The advanced tuples that are complete.
pub open spec fn newly_complete(
    prev: PayloadView,
    done: Seq<Transcript>,
    tip: EcdsaTip,
    height: u64,
) -> spec_fn(int) -> Option<CompleteTuple> {
    |i: int| spec_completed(advanced(prev, done, tip, height)(i))
}

/// Request `r` is paired in `ongoing`.
pub open spec fn is_paired(ongoing: Seq<OngoingSigning>, r: ConfigId) -> bool {
    exists|j: int| 0 <= j < ongoing.len() && #[trigger] ongoing[j].request_id == r
}

/// The positions of the requests of the tip that are not paired.
pub open spec fn unpaired(tip: EcdsaTip, ongoing: Seq<OngoingSigning>) -> spec_fn(int) -> Option<
    int,
> {
    |k: int|
        if !is_paired(ongoing, tip.requests@[k].id) {
            Some(k)
        } else {
            None
        }
}

/// How many of the first `k` requests are not paired.
pub open spec fn unpaired_count(tip: EcdsaTip, ongoing: Seq<OngoingSigning>, k: int) -> int {
    gather(unpaired(tip, ongoing), k).len() as int
}

/// Pairing: the requests that are not paired take the available tuples in
/// order, oldest first, while there are any.
pub open spec fn pairing(
    tip: EcdsaTip,
    ongoing: Seq<OngoingSigning>,
    available: Seq<CompleteTuple>,
) -> spec_fn(int) -> Option<OngoingSigning> {
    |k: int|
        if !is_paired(ongoing, tip.requests@[k].id) && unpaired_count(tip, ongoing, k)
            < available.len() {
            Some(
                OngoingSigning {
                    request_id: tip.requests@[k].id,
                    tuple: available[unpaired_count(tip, ongoing, k)],
                },
            )
        } else {
            None
        }
}

/// The smaller of `a` and `b`.
pub open spec fn min(a: int, b: int) -> int {
    if a < b {
        a
    } else {
        b
    }
}

/// The payload that follows `prev` under `tip`, for a block at `height`,
/// once the transcripts `done` completed, before any signature is
/// assembled. At most one fresh tuple starts, while fewer than `target`
/// tuples are in creation or available.
pub open spec fn spec_next_payload(
    prev: PayloadView,
    tip: EcdsaTip,
    done: Seq<Transcript>,
    height: u64,
    target: u64,
) -> PayloadView {
    let n = prev.in_creation.len() as int;
    let ongoing = gather(ongoing_kept(prev, tip), prev.ongoing.len() as int);
    let in_creation = gather(still_in_creation(prev, done, tip, height), n);
    let available = prev.available + gather(newly_complete(prev, done, tip, height), n);
    let nreq = tip.requests@.len() as int;
    let used = min(unpaired_count(tip, ongoing, nreq), available.len() as int);
    let remaining = available.subrange(used, available.len() as int);
    PayloadView {
        in_creation: if in_creation.len() + remaining.len() < target {
            in_creation.push(
                TupleInCreation::spec_fresh(derived_id(height, n, 0), derived_id(height, n, 1)),
            )
        } else {
            in_creation
        },
        available: remaining,
        ongoing: ongoing + gather(pairing(tip, ongoing, available), nreq),
        signatures: Seq::empty(),
    }
}

fn paired(ongoing: &Vec<OngoingSigning>, r: ConfigId) -> (b: bool)
    ensures
        b == is_paired(ongoing@, r),
{
    let mut j: usize = 0;
    while j < ongoing.len()
        invariant
            j <= ongoing@.len(),
            forall|k: int| 0 <= k < j ==> ongoing@[k].request_id != r,
        decreases ongoing@.len() - j,
    {
        if ongoing[j].request_id == r {
            return true;
        }
        j = j + 1;
    }
    false
}

impl EcdsaPayload {
    /// The empty payload.
    pub fn new() -> (r: Self)
        ensures
            r@.in_creation.len() == 0,
            r@.available.len() == 0,
            r@.ongoing.len() == 0,
            r@.signatures.len() == 0,
    {
        EcdsaPayload {
            in_creation: Vec::new(),
            available: Vec::new(),
            ongoing: Vec::new(),
            signatures: Vec::new(),
        }
    }

    /// The payload of the block at `height`, from this one, the finalized
    /// `tip` and the transcripts `done` completed: requests that left the tip
    /// lose their pairing, tuples advance, complete ones become available,
    /// unpaired requests take available tuples, and a fresh tuple starts
    /// while fewer than `target` are in creation or available.
    pub fn next_payload(&self, tip: &EcdsaTip, done: &Vec<Transcript>, height: u64, target: u64) -> (r:
        EcdsaPayload)
        requires
            self@.wf(),
            3 * self.in_creation@.len() + 2 <= u64::MAX,
        ensures
            r@ == spec_next_payload(self@, *tip, done@, height, target),
            r@.wf(),
    {
        let ghost prev = self@;
        // Requests that left the tip lose their pairing.
        let mut ongoing: Vec<OngoingSigning> = Vec::new();
        let mut i: usize = 0;
        while i < self.ongoing.len()
            invariant
                prev == self@,
                i <= self.ongoing@.len(),
                ongoing@ == gather(ongoing_kept(prev, *tip), i as int),
            decreases self.ongoing@.len() - i,
        {
            if tip.find_request(self.ongoing[i].request_id).is_some() {
                ongoing.push(self.ongoing[i]);
            }
            i = i + 1;
        }
        // Tuples advance; complete ones become available.
        let n = self.in_creation.len();
        let mut in_creation: Vec<TupleInCreation> = Vec::new();
        let mut available: Vec<CompleteTuple> = self.available.clone();
        let mut i: usize = 0;
        while i < n
            invariant
                prev == self@,
                prev.wf(),
                n == prev.in_creation.len(),
                3 * n + 2 <= u64::MAX,
                i <= n,
                in_creation@ == gather(still_in_creation(prev, done@, *tip, height), i as int),
                available@ == prev.available + gather(
                    newly_complete(prev, done@, *tip, height),
                    i as int,
                ),
                forall|j: int| 0 <= j < in_creation@.len() ==> (#[trigger] in_creation@[j]).wf(),
            decreases n - i,
        {
            let t = advance(&self.in_creation[i], done, tip.key_transcript, height, i as u64);
            assert(t == advanced(prev, done@, *tip, height)(i as int));
            match completed(&t) {
                Some(c) => available.push(c),
                None => in_creation.push(t),
            }
            i = i + 1;
        }
        // Unpaired requests take available tuples, oldest first.
        let ghost available_all = available@;
        let mut pairs: Vec<OngoingSigning> = Vec::new();
        let mut used: usize = 0;
        let mut k: usize = 0;
        while k < tip.requests.len()
            invariant
                k <= tip.requests@.len(),
                available@ == available_all,
                used == min(unpaired_count(*tip, ongoing@, k as int), available_all.len() as int),
                pairs@ == gather(pairing(*tip, ongoing@, available_all), k as int),
            decreases tip.requests@.len() - k,
        {
            if !paired(&ongoing, tip.requests[k].id) {
                if used < available.len() {
                    pairs.push(
                        OngoingSigning { request_id: tip.requests[k].id, tuple: available[used] },
                    );
                    used = used + 1;
                }
            }
            k = k + 1;
        }
        let mut remaining: Vec<CompleteTuple> = Vec::new();
        let mut j: usize = used;
        while j < available.len()
            invariant
                used <= j <= available@.len(),
                remaining@ == available@.subrange(used as int, j as int),
            decreases available@.len() - j,
        {
            remaining.push(available[j]);
            j = j + 1;
        }
        ongoing.append(&mut pairs);
        // A fresh tuple starts while the pipeline is short.
        if (in_creation.len() as u128) + (remaining.len() as u128) < target as u128 {
            in_creation.push(
                TupleInCreation::fresh(
                    ConfigId { height, seq: 3 * (n as u64) },
                    ConfigId { height, seq: 3 * (n as u64) + 1 },
                ),
            );
        }
        EcdsaPayload { in_creation, available: remaining, ongoing, signatures: Vec::new() }
    }
}

/// The signer at position `k` of `signers`, where it holds a validated share
/// for `r` and does not appear earlier in `signers`.
pub open spec fn signer_with_share(v: Seq<EcdsaMessage>, r: ConfigId, signers: Seq<NodeId>) -> spec_fn(
    int,
) -> Option<NodeId> {
    |k: int|
        if has_share(v, r, signers[k]) && !signers.take(k).contains(signers[k]) {
            Some(signers[k])
        } else {
            None
        }
}

/// The distinct listed signers that hold a validated share for `r`.
pub open spec fn distinct_signers(v: Seq<EcdsaMessage>, r: ConfigId, signers: Seq<NodeId>) -> Seq<
    NodeId,
> {
    gather(signer_with_share(v, r, signers), signers.len() as int)
}

/// Request `r` is live and has shares from at least its threshold of
/// distinct signers.
pub open spec fn request_ready(tip: EcdsaTip, v: Seq<EcdsaMessage>, r: ConfigId) -> bool {
    exists|k: int|
        0 <= k < tip.requests@.len() && tip.requests@[k].id == r && #[trigger] distinct_signers(
            v,
            r,
            tip.requests@[k].signers@,
        ).len() >= tip.requests@[k].threshold
}

/// The signature assembled for the ongoing request at position `i`: where
/// the request is ready and aggregation gave a material.
pub open spec fn signed(
    p: PayloadView,
    tip: EcdsaTip,
    v: Seq<EcdsaMessage>,
    outs: Seq<Option<u64>>,
) -> spec_fn(int) -> Option<Signature> {
    |i: int|
        if request_ready(tip, v, p.ongoing[i].request_id) {
            match outs[i] {
                Some(m) => Some(Signature { request_id: p.ongoing[i].request_id, material: m }),
                None => None,
            }
        } else {
            None
        }
}

/// The ongoing requests that stay: those not signed now.
pub open spec fn unsigned(
    p: PayloadView,
    tip: EcdsaTip,
    v: Seq<EcdsaMessage>,
    outs: Seq<Option<u64>>,
) -> spec_fn(int) -> Option<OngoingSigning> {
    |i: int|
        if signed(p, tip, v, outs)(i) is Some {
            None
        } else {
            Some(p.ongoing[i])
        }
}

/// `p` once the signatures of the ready requests are assembled from the
/// aggregation outcomes `outs`, one per ongoing request.
pub open spec fn spec_with_signatures(
    p: PayloadView,
    tip: EcdsaTip,
    v: Seq<EcdsaMessage>,
    outs: Seq<Option<u64>>,
) -> PayloadView {
    PayloadView {
        in_creation: p.in_creation,
        available: p.available,
        ongoing: gather(unsigned(p, tip, v, outs), p.ongoing.len() as int),
        signatures: p.signatures + gather(signed(p, tip, v, outs), p.ongoing.len() as int),
    }
}

fn appears_before(s: &Vec<NodeId>, k: usize, x: NodeId) -> (b: bool)
    requires
        k <= s@.len(),
    ensures
        b == s@.take(k as int).contains(x),
{
    let mut j: usize = 0;
    while j < k
        invariant
            j <= k <= s@.len(),
            forall|i: int| 0 <= i < j ==> s@[i] != x,
        decreases k - j,
    {
        if s[j] == x {
            assert(s@.take(k as int)[j as int] == x);
            return true;
        }
        j = j + 1;
    }
    assert forall|i: int| 0 <= i < k implies s@.take(k as int)[i] != x by {}
    false
}

/// The distinct signers of `signers` that hold a validated share for `r`.
pub fn signers_with_shares(v: &Vec<EcdsaMessage>, r: ConfigId, signers: &Vec<NodeId>) -> (out: Vec<
    NodeId,
>)
    ensures
        out@ == distinct_signers(v@, r, signers@),
{
    let mut out: Vec<NodeId> = Vec::new();
    let mut k: usize = 0;
    while k < signers.len()
        invariant
            k <= signers@.len(),
            out@ == gather(signer_with_share(v@, r, signers@), k as int),
        decreases signers@.len() - k,
    {
        let s = signers[k];
        if holds_share(v, r, s) && !appears_before(signers, k, s) {
            out.push(s);
        }
        k = k + 1;
    }
    out
}

proof fn lemma_ready_at(tip: EcdsaTip, v: Seq<EcdsaMessage>, k: int, r: ConfigId)
    requires
        tip.wf(),
        0 <= k < tip.requests@.len(),
        tip.requests@[k].id == r,
    ensures
        request_ready(tip, v, r) == (distinct_signers(v, r, tip.requests@[k].signers@).len()
            >= tip.requests@[k].threshold),
{
    if request_ready(tip, v, r) {
        let k2 = choose|k2: int|
            0 <= k2 < tip.requests@.len() && tip.requests@[k2].id == r
                && #[trigger] distinct_signers(v, r, tip.requests@[k2].signers@).len()
                >= tip.requests@[k2].threshold;
        if k2 < k {
            assert(tip.requests@[k2].id != tip.requests@[k].id);
        } else if k < k2 {
            assert(tip.requests@[k].id != tip.requests@[k2].id);
        }
    }
}

/// Where the request `r` is ready, the position of it in the tip.
pub fn ready_request(tip: &EcdsaTip, v: &Vec<EcdsaMessage>, r: ConfigId) -> (res: Option<usize>)
    requires
        tip.wf(),
    ensures
        match res {
            Some(k) => request_ready(*tip, v@, r) && k < tip.requests@.len() && tip.requests@[k as int].id == r,
            None => !request_ready(*tip, v@, r),
        },
{
    match tip.find_request(r) {
        Some(k) => {
            proof {
                lemma_ready_at(*tip, v@, k as int, r);
            }
            let signers = signers_with_shares(v, r, &tip.requests[k].signers);
            if signers.len() as u64 >= tip.requests[k].threshold {
                Some(k)
            } else {
                None
            }
        },
        None => None,
    }
}

/// The signature share at position `i` of `v`, where it is one for `r`.
pub open spec fn share_for(v: Seq<EcdsaMessage>, r: ConfigId) -> spec_fn(int) -> Option<SignatureShare> {
    |i: int|
        match v[i] {
            EcdsaMessage::Share(s) => if s.request_id == r {
                Some(s)
            } else {
                None
            },
            _ => None,
        }
}

/// The validated signature shares for `r`, in pool order.
pub fn shares_for(v: &Vec<EcdsaMessage>, r: ConfigId) -> (out: Vec<SignatureShare>)
    ensures
        out@ == gather(share_for(v@, r), v@.len() as int),
{
    let mut out: Vec<SignatureShare> = Vec::new();
    let mut i: usize = 0;
    while i < v.len()
        invariant
            i <= v@.len(),
            out@ == gather(share_for(v@, r), i as int),
        decreases v@.len() - i,
    {
        if let EcdsaMessage::Share(s) = v[i] {
            if s.request_id == r {
                out.push(s);
            }
        }
        i = i + 1;
    }
    out
}

impl EcdsaPayload {
    /// Assembles the signatures of the ready ongoing requests from the
    /// aggregation outcomes `outs`, one per ongoing request: each signed
    /// request is delivered and leaves the ongoing ones.
    pub fn with_signatures(&self, tip: &EcdsaTip, v: &Vec<EcdsaMessage>, outs: &Vec<Option<u64>>) -> (r:
        EcdsaPayload)
        requires
            tip.wf(),
            outs@.len() == self.ongoing@.len(),
        ensures
            r@ == spec_with_signatures(self@, *tip, v@, outs@),
    {
        let ghost p = self@;
        let mut ongoing: Vec<OngoingSigning> = Vec::new();
        let mut signatures: Vec<Signature> = self.signatures.clone();
        let mut i: usize = 0;
        while i < self.ongoing.len()
            invariant
                p == self@,
                tip.wf(),
                outs@.len() == self.ongoing@.len(),
                i <= self.ongoing@.len(),
                ongoing@ == gather(unsigned(p, *tip, v@, outs@), i as int),
                signatures@ == p.signatures + gather(signed(p, *tip, v@, outs@), i as int),
            decreases self.ongoing@.len() - i,
        {
            let o = self.ongoing[i];
            let mut done = false;
            if ready_request(tip, v, o.request_id).is_some() {
                if let Some(m) = outs[i] {
                    signatures.push(Signature { request_id: o.request_id, material: m });
                    done = true;
                }
            }
            if !done {
                ongoing.push(o);
            }
            i = i + 1;
        }
        EcdsaPayload {
            in_creation: self.in_creation.clone(),
            available: self.available.clone(),
            ongoing,
            signatures,
        }
    }

    /// Runs the aggregations that the ready ongoing requests need.
    pub fn aggregation_outcomes<C: EcdsaCrypto>(&self, tip: &EcdsaTip, v: &Vec<EcdsaMessage>, crypto: &C) -> (outs:
        Vec<Option<u64>>)
        requires
            tip.wf(),
        ensures
            outs@.len() == self.ongoing@.len(),
    {
        let mut outs: Vec<Option<u64>> = Vec::new();
        let mut i: usize = 0;
        while i < self.ongoing.len()
            invariant
                tip.wf(),
                i <= self.ongoing@.len(),
                outs@.len() == i,
            decreases self.ongoing@.len() - i,
        {
            let r = self.ongoing[i].request_id;
            let mut out: Option<u64> = None;
            if let Some(k) = ready_request(tip, v, r) {
                let shares = shares_for(v, r);
                if let Ok(m) = crypto.aggregate(&tip.requests[k], &shares) {
                    out = Some(m);
                }
            }
            outs.push(out);
            i = i + 1;
        }
        outs
    }

    /// The payload of the block at `height`: `next_payload`, then the
    /// signatures that `crypto` assembles for the ready requests from the
    /// validated pool `v`.
    pub fn build<C: EcdsaCrypto>(
        &self,
        tip: &EcdsaTip,
        done: &Vec<Transcript>,
        v: &Vec<EcdsaMessage>,
        height: u64,
        target: u64,
        crypto: &C,
    ) -> (r: EcdsaPayload)
        requires
            self@.wf(),
            tip.wf(),
            3 * self.in_creation@.len() + 2 <= u64::MAX,
        ensures
            r@.wf(),
            exists|outs: Seq<Option<u64>>|
                outs.len() == spec_next_payload(self@, *tip, done@, height, target).ongoing.len()
                    && r@ == #[trigger] spec_with_signatures(
                    spec_next_payload(self@, *tip, done@, height, target),
                    *tip,
                    v@,
                    outs,
                ),
    {
        let next = self.next_payload(tip, done, height, target);
        let outs = next.aggregation_outcomes(tip, v, crypto);
        let r = next.with_signatures(tip, v, &outs);
        assert(r@ == spec_with_signatures(
            spec_next_payload(self@, *tip, done@, height, target),
            *tip,
            v@,
            outs@,
        ));
        r
    }
}

} // verus!
