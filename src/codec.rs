//! The canonical encoding of the block payload. Every replica computes its
//! payload and encodes it alike, so that payloads compare bit for bit: equal
//! encodings mean equal payloads.
//!
//! A payload is laid out as 64-bit words, and each word is written as 8
//! little-endian bytes. Each record takes a fixed number of words: a variant
//! starts with a tag word and an absent value is padded with zero words. A
//! list is its length followed by its items.
use vstd::prelude::*;
use vstd::bytes::{spec_u64_from_le_bytes, spec_u64_to_le_bytes, u64_to_le_bytes};
use crate::payload::{CompleteTuple, EcdsaPayload, OngoingSigning, PayloadView, TupleInCreation};
use crate::types::{ConfigId, ConfigRef, Signature, Transcript, TranscriptKind};

verus! {

/// The encodings of `items`, one after the other.
pub open spec fn concat_map<T, U>(items: Seq<T>, enc: spec_fn(T) -> Seq<U>) -> Seq<U>
    decreases items.len(),
{
    if items.len() == 0 {
        Seq::empty()
    } else {
        concat_map(items.drop_last(), enc) + enc(items.last())
    }
}

/// An encoding of fixed size `n` that tells its values apart.
pub open spec fn fixed_injective<T, U>(enc: spec_fn(T) -> Seq<U>, n: nat) -> bool {
    &&& forall|x: T| (#[trigger] enc(x)).len() == n
    &&& forall|x: T, y: T| #[trigger] enc(x) == #[trigger] enc(y) ==> x == y
}

pub proof fn lemma_concat_map_len<T, U>(items: Seq<T>, enc: spec_fn(T) -> Seq<U>, n: nat)
    requires
        forall|x: T| (#[trigger] enc(x)).len() == n,
    ensures
        concat_map(items, enc).len() == n * items.len(),
    decreases items.len(),
{
    if items.len() > 0 {
        lemma_concat_map_len(items.drop_last(), enc, n);
        assert(n * items.len() == n * (items.len() - 1) + n) by (nonlinear_arith);
    }
}

/// Lists of one length with equal encodings are equal.
pub proof fn lemma_concat_map_injective<T, U>(a: Seq<T>, b: Seq<T>, enc: spec_fn(T) -> Seq<U>, n: nat)
    requires
        fixed_injective(enc, n),
        a.len() == b.len(),
        concat_map(a, enc) == concat_map(b, enc),
    ensures
        a == b,
    decreases a.len(),
{
    if a.len() > 0 {
        let pa = concat_map(a.drop_last(), enc);
        let pb = concat_map(b.drop_last(), enc);
        lemma_concat_map_len(a.drop_last(), enc, n);
        lemma_concat_map_len(b.drop_last(), enc, n);
        let whole = concat_map(a, enc);
        assert(pa == whole.subrange(0, pa.len() as int));
        assert(pb == whole.subrange(0, pb.len() as int));
        assert(enc(a.last()) == whole.subrange(pa.len() as int, whole.len() as int));
        assert(enc(b.last()) == whole.subrange(pb.len() as int, whole.len() as int));
        lemma_concat_map_injective(a.drop_last(), b.drop_last(), enc, n);
        assert(a == a.drop_last().push(a.last()));
        assert(b == b.drop_last().push(b.last()));
    }
}

pub open spec fn enc_id(c: ConfigId) -> Seq<u64> {
    seq![c.height, c.seq]
}

pub open spec fn enc_kind(k: TranscriptKind) -> Seq<u64> {
    match k {
        TranscriptKind::RandomMasked => seq![0u64, 0u64, 0u64, 0u64, 0u64],
        TranscriptKind::ReshareToUnmasked { source } => seq![1u64, source.height, source.seq, 0u64, 0u64],
        TranscriptKind::MaskedMultiplication { unmasked, masked } => seq![
            2u64,
            unmasked.height,
            unmasked.seq,
            masked.height,
            masked.seq,
        ],
    }
}

pub open spec fn enc_ref(r: ConfigRef) -> Seq<u64> {
    enc_id(r.id) + enc_kind(r.kind)
}

pub open spec fn enc_transcript(t: Transcript) -> Seq<u64> {
    seq![t.config_id.height, t.config_id.seq, t.material]
}

pub open spec fn enc_opt_transcript(o: Option<Transcript>) -> Seq<u64> {
    match o {
        None => seq![0u64, 0u64, 0u64, 0u64],
        Some(t) => seq![1u64] + enc_transcript(t),
    }
}

pub open spec fn enc_opt_ref(o: Option<ConfigRef>) -> Seq<u64> {
    match o {
        None => seq![0u64, 0u64, 0u64, 0u64, 0u64, 0u64, 0u64, 0u64],
        Some(r) => seq![1u64] + enc_ref(r),
    }
}

proof fn lemma_enc_ref(x: ConfigRef, y: ConfigRef)
    ensures
        enc_ref(x).len() == 7,
        enc_ref(x) == enc_ref(y) ==> x == y,
{
    if enc_ref(x) == enc_ref(y) {
        assert(enc_ref(x)[0] == enc_ref(y)[0] && enc_ref(x)[1] == enc_ref(y)[1]);
        assert(enc_kind(x.kind) == enc_ref(x).subrange(2, 7));
        assert(enc_kind(y.kind) == enc_ref(y).subrange(2, 7));
        let (a, b) = (enc_kind(x.kind), enc_kind(y.kind));
        assert(a[0] == b[0] && a[1] == b[1] && a[2] == b[2] && a[3] == b[3] && a[4] == b[4]);
    }
}

proof fn lemma_enc_transcript(x: Transcript, y: Transcript)
    ensures
        enc_transcript(x).len() == 3,
        enc_transcript(x) == enc_transcript(y) ==> x == y,
{
    if enc_transcript(x) == enc_transcript(y) {
        let (a, b) = (enc_transcript(x), enc_transcript(y));
        assert(a[0] == b[0] && a[1] == b[1] && a[2] == b[2]);
    }
}

proof fn lemma_enc_opt_transcript(x: Option<Transcript>, y: Option<Transcript>)
    ensures
        enc_opt_transcript(x).len() == 4,
        enc_opt_transcript(x) == enc_opt_transcript(y) ==> x == y,
{
    if enc_opt_transcript(x) == enc_opt_transcript(y) {
        let (a, b) = (enc_opt_transcript(x), enc_opt_transcript(y));
        assert(a[0] == b[0] && a[1] == b[1] && a[2] == b[2] && a[3] == b[3]);
    }
}

proof fn lemma_enc_opt_ref(x: Option<ConfigRef>, y: Option<ConfigRef>)
    ensures
        enc_opt_ref(x).len() == 8,
        enc_opt_ref(x) == enc_opt_ref(y) ==> x == y,
{
    if let Some(r) = x {
        lemma_enc_ref(r, r);
    }
    if let Some(r) = y {
        lemma_enc_ref(r, r);
    }
    if enc_opt_ref(x) == enc_opt_ref(y) {
        let (a, b) = (enc_opt_ref(x), enc_opt_ref(y));
        assert(a[0] == b[0]);
        if let (Some(r), Some(s)) = (x, y) {
            assert(enc_ref(r) == a.subrange(1, 8));
            assert(enc_ref(s) == b.subrange(1, 8));
            lemma_enc_ref(r, s);
        }
    }
}

pub open spec fn enc_tuple(t: TupleInCreation) -> Seq<u64> {
    enc_ref(t.kappa_config) + enc_opt_transcript(t.kappa_masked) + enc_ref(t.lambda_config)
        + enc_opt_transcript(t.lambda_masked) + enc_opt_ref(t.unmask_kappa_config)
        + enc_opt_transcript(t.kappa_unmasked) + enc_opt_ref(t.key_times_lambda_config)
        + enc_opt_transcript(t.key_times_lambda) + enc_opt_ref(t.kappa_times_lambda_config)
        + enc_opt_transcript(t.kappa_times_lambda)
}

pub open spec fn enc_complete(c: CompleteTuple) -> Seq<u64> {
    enc_transcript(c.kappa_unmasked) + enc_transcript(c.lambda_masked) + enc_transcript(
        c.key_times_lambda,
    ) + enc_transcript(c.kappa_times_lambda)
}

pub open spec fn enc_ongoing(o: OngoingSigning) -> Seq<u64> {
    enc_id(o.request_id) + enc_complete(o.tuple)
}

pub open spec fn enc_signature(s: Signature) -> Seq<u64> {
    seq![s.request_id.height, s.request_id.seq, s.material]
}

/// The words of a list: its length, then its items.
pub open spec fn enc_list<T>(items: Seq<T>, enc: spec_fn(T) -> Seq<u64>) -> Seq<u64> {
    seq![items.len() as u64] + concat_map(items, enc)
}

/// The words of a payload.
pub open spec fn enc_payload(p: PayloadView) -> Seq<u64> {
    enc_list(p.in_creation, |t: TupleInCreation| enc_tuple(t)) + enc_list(
        p.available,
        |c: CompleteTuple| enc_complete(c),
    ) + enc_list(p.ongoing, |o: OngoingSigning| enc_ongoing(o)) + enc_list(
        p.signatures,
        |s: Signature| enc_signature(s),
    )
}

/// The bytes of a payload.
pub open spec fn payload_bytes(p: PayloadView) -> Seq<u8> {
    concat_map(enc_payload(p), |w: u64| spec_u64_to_le_bytes(w))
}

proof fn lemma_enc_tuple(x: TupleInCreation, y: TupleInCreation)
    ensures
        enc_tuple(x).len() == 58,
        enc_tuple(x) == enc_tuple(y) ==> x == y,
{
    lemma_enc_ref(x.kappa_config, y.kappa_config);
    lemma_enc_ref(x.lambda_config, y.lambda_config);
    lemma_enc_opt_transcript(x.kappa_masked, y.kappa_masked);
    lemma_enc_opt_transcript(x.lambda_masked, y.lambda_masked);
    lemma_enc_opt_transcript(x.kappa_unmasked, y.kappa_unmasked);
    lemma_enc_opt_transcript(x.key_times_lambda, y.key_times_lambda);
    lemma_enc_opt_transcript(x.kappa_times_lambda, y.kappa_times_lambda);
    lemma_enc_opt_ref(x.unmask_kappa_config, y.unmask_kappa_config);
    lemma_enc_opt_ref(x.key_times_lambda_config, y.key_times_lambda_config);
    lemma_enc_opt_ref(x.kappa_times_lambda_config, y.kappa_times_lambda_config);
    lemma_enc_ref(y.kappa_config, y.kappa_config);
    lemma_enc_ref(y.lambda_config, y.lambda_config);
    lemma_enc_opt_transcript(y.kappa_masked, y.kappa_masked);
    lemma_enc_opt_transcript(y.lambda_masked, y.lambda_masked);
    lemma_enc_opt_transcript(y.kappa_unmasked, y.kappa_unmasked);
    lemma_enc_opt_transcript(y.key_times_lambda, y.key_times_lambda);
    lemma_enc_opt_transcript(y.kappa_times_lambda, y.kappa_times_lambda);
    lemma_enc_opt_ref(y.unmask_kappa_config, y.unmask_kappa_config);
    lemma_enc_opt_ref(y.key_times_lambda_config, y.key_times_lambda_config);
    lemma_enc_opt_ref(y.kappa_times_lambda_config, y.kappa_times_lambda_config);
    if enc_tuple(x) == enc_tuple(y) {
        let (a, b) = (enc_tuple(x), enc_tuple(y));
        assert(a.subrange(0, 7) =~= enc_ref(x.kappa_config));
        assert(b.subrange(0, 7) =~= enc_ref(y.kappa_config));
        assert(a.subrange(7, 11) =~= enc_opt_transcript(x.kappa_masked));
        assert(b.subrange(7, 11) =~= enc_opt_transcript(y.kappa_masked));
        assert(a.subrange(11, 18) =~= enc_ref(x.lambda_config));
        assert(b.subrange(11, 18) =~= enc_ref(y.lambda_config));
        assert(a.subrange(18, 22) =~= enc_opt_transcript(x.lambda_masked));
        assert(b.subrange(18, 22) =~= enc_opt_transcript(y.lambda_masked));
        assert(a.subrange(22, 30) =~= enc_opt_ref(x.unmask_kappa_config));
        assert(b.subrange(22, 30) =~= enc_opt_ref(y.unmask_kappa_config));
        assert(a.subrange(30, 34) =~= enc_opt_transcript(x.kappa_unmasked));
        assert(b.subrange(30, 34) =~= enc_opt_transcript(y.kappa_unmasked));
        assert(a.subrange(34, 42) =~= enc_opt_ref(x.key_times_lambda_config));
        assert(b.subrange(34, 42) =~= enc_opt_ref(y.key_times_lambda_config));
        assert(a.subrange(42, 46) =~= enc_opt_transcript(x.key_times_lambda));
        assert(b.subrange(42, 46) =~= enc_opt_transcript(y.key_times_lambda));
        assert(a.subrange(46, 54) =~= enc_opt_ref(x.kappa_times_lambda_config));
        assert(b.subrange(46, 54) =~= enc_opt_ref(y.kappa_times_lambda_config));
        assert(a.subrange(54, 58) =~= enc_opt_transcript(x.kappa_times_lambda));
        assert(b.subrange(54, 58) =~= enc_opt_transcript(y.kappa_times_lambda));
    }
}

proof fn lemma_enc_complete(x: CompleteTuple, y: CompleteTuple)
    ensures
        enc_complete(x).len() == 12,
        enc_complete(x) == enc_complete(y) ==> x == y,
{
    lemma_enc_transcript(x.kappa_unmasked, y.kappa_unmasked);
    lemma_enc_transcript(x.lambda_masked, y.lambda_masked);
    lemma_enc_transcript(x.key_times_lambda, y.key_times_lambda);
    lemma_enc_transcript(x.kappa_times_lambda, y.kappa_times_lambda);
    lemma_enc_transcript(y.kappa_unmasked, y.kappa_unmasked);
    lemma_enc_transcript(y.lambda_masked, y.lambda_masked);
    lemma_enc_transcript(y.key_times_lambda, y.key_times_lambda);
    lemma_enc_transcript(y.kappa_times_lambda, y.kappa_times_lambda);
    if enc_complete(x) == enc_complete(y) {
        let (a, b) = (enc_complete(x), enc_complete(y));
        assert(a.subrange(0, 3) =~= enc_transcript(x.kappa_unmasked));
        assert(b.subrange(0, 3) =~= enc_transcript(y.kappa_unmasked));
        assert(a.subrange(3, 6) =~= enc_transcript(x.lambda_masked));
        assert(b.subrange(3, 6) =~= enc_transcript(y.lambda_masked));
        assert(a.subrange(6, 9) =~= enc_transcript(x.key_times_lambda));
        assert(b.subrange(6, 9) =~= enc_transcript(y.key_times_lambda));
        assert(a.subrange(9, 12) =~= enc_transcript(x.kappa_times_lambda));
        assert(b.subrange(9, 12) =~= enc_transcript(y.kappa_times_lambda));
    }
}

proof fn lemma_enc_ongoing(x: OngoingSigning, y: OngoingSigning)
    ensures
        enc_ongoing(x).len() == 14,
        enc_ongoing(x) == enc_ongoing(y) ==> x == y,
{
    lemma_enc_complete(x.tuple, y.tuple);
    lemma_enc_complete(y.tuple, y.tuple);
    if enc_ongoing(x) == enc_ongoing(y) {
        let (a, b) = (enc_ongoing(x), enc_ongoing(y));
        assert(a[0] == b[0] && a[1] == b[1]);
        assert(a.subrange(2, 14) =~= enc_complete(x.tuple));
        assert(b.subrange(2, 14) =~= enc_complete(y.tuple));
    }
}

proof fn lemma_enc_signature(x: Signature, y: Signature)
    ensures
        enc_signature(x).len() == 3,
        enc_signature(x) == enc_signature(y) ==> x == y,
{
    if enc_signature(x) == enc_signature(y) {
        let (a, b) = (enc_signature(x), enc_signature(y));
        assert(a[0] == b[0] && a[1] == b[1] && a[2] == b[2]);
    }
}

/// A list of one length with equal encodings before equal or different
/// tails: the lists are equal, and so are the tails.
proof fn lemma_list_prefix<T>(
    a: Seq<T>,
    b: Seq<T>,
    enc: spec_fn(T) -> Seq<u64>,
    n: nat,
    ra: Seq<u64>,
    rb: Seq<u64>,
)
    requires
        fixed_injective(enc, n),
        a.len() <= u64::MAX,
        b.len() <= u64::MAX,
        enc_list(a, enc) + ra == enc_list(b, enc) + rb,
    ensures
        a == b,
        ra == rb,
{
    let la = enc_list(a, enc);
    let lb = enc_list(b, enc);
    assert((la + ra)[0] == la[0]);
    assert((lb + rb)[0] == lb[0]);
    assert(a.len() == b.len());
    lemma_concat_map_len(a, enc, n);
    lemma_concat_map_len(b, enc, n);
    assert(la == (la + ra).subrange(0, la.len() as int));
    assert(lb == (lb + rb).subrange(0, lb.len() as int));
    assert(ra == (la + ra).subrange(la.len() as int, (la + ra).len() as int));
    assert(rb == (lb + rb).subrange(lb.len() as int, (lb + rb).len() as int));
    assert(concat_map(a, enc) == la.subrange(1, la.len() as int));
    assert(concat_map(b, enc) == lb.subrange(1, lb.len() as int));
    lemma_concat_map_injective(a, b, enc, n);
}

/// Every list of the payload has a length that a word holds.
pub open spec fn fits_words(p: PayloadView) -> bool {
    &&& p.in_creation.len() <= u64::MAX
    &&& p.available.len() <= u64::MAX
    &&& p.ongoing.len() <= u64::MAX
    &&& p.signatures.len() <= u64::MAX
}

/// Payloads compare by their bytes: two payloads with the same encoding are
/// the same payload.
pub proof fn lemma_payload_bytes_injective(p: PayloadView, q: PayloadView)
    requires
        fits_words(p),
        fits_words(q),
        payload_bytes(p) == payload_bytes(q),
    ensures
        p == q,
{
    let to_bytes = |w: u64| spec_u64_to_le_bytes(w);
    vstd::bytes::lemma_auto_spec_u64_to_from_le_bytes();
    assert forall|x: u64, y: u64| #[trigger] to_bytes(x) == #[trigger] to_bytes(y) implies x == y by {
        assert(spec_u64_from_le_bytes(to_bytes(x)) == x);
        assert(spec_u64_from_le_bytes(to_bytes(y)) == y);
    }
    assert forall|x: u64| (#[trigger] to_bytes(x)).len() == 8 by {}
    let wp = enc_payload(p);
    let wq = enc_payload(q);
    lemma_concat_map_len(wp, to_bytes, 8);
    lemma_concat_map_len(wq, to_bytes, 8);
    lemma_concat_map_injective(wp, wq, to_bytes, 8);

    let et = |t: TupleInCreation| enc_tuple(t);
    let ec = |c: CompleteTuple| enc_complete(c);
    let eo = |o: OngoingSigning| enc_ongoing(o);
    let es = |s: Signature| enc_signature(s);
    assert forall|x: TupleInCreation, y: TupleInCreation| #[trigger] et(x) == #[trigger] et(y) implies x == y by {
        lemma_enc_tuple(x, y);
    }
    assert forall|x: TupleInCreation| (#[trigger] et(x)).len() == 58 by {
        lemma_enc_tuple(x, x);
    }
    assert forall|x: CompleteTuple, y: CompleteTuple| #[trigger] ec(x) == #[trigger] ec(y) implies x == y by {
        lemma_enc_complete(x, y);
    }
    assert forall|x: CompleteTuple| (#[trigger] ec(x)).len() == 12 by {
        lemma_enc_complete(x, x);
    }
    assert forall|x: OngoingSigning, y: OngoingSigning| #[trigger] eo(x) == #[trigger] eo(y) implies x == y by {
        lemma_enc_ongoing(x, y);
    }
    assert forall|x: OngoingSigning| (#[trigger] eo(x)).len() == 14 by {
        lemma_enc_ongoing(x, x);
    }
    assert forall|x: Signature, y: Signature| #[trigger] es(x) == #[trigger] es(y) implies x == y by {
        lemma_enc_signature(x, y);
    }
    assert forall|x: Signature| (#[trigger] es(x)).len() == 3 by {
        lemma_enc_signature(x, x);
    }
    let (a1, a2, a3, a4) = (
        enc_list(p.in_creation, et),
        enc_list(p.available, ec),
        enc_list(p.ongoing, eo),
        enc_list(p.signatures, es),
    );
    let (b1, b2, b3, b4) = (
        enc_list(q.in_creation, et),
        enc_list(q.available, ec),
        enc_list(q.ongoing, eo),
        enc_list(q.signatures, es),
    );
    assert(wp =~= a1 + (a2 + (a3 + a4)));
    assert(wq =~= b1 + (b2 + (b3 + b4)));
    lemma_list_prefix(p.in_creation, q.in_creation, et, 58, a2 + (a3 + a4), b2 + (b3 + b4));
    lemma_list_prefix(p.available, q.available, ec, 12, a3 + a4, b3 + b4);
    lemma_list_prefix(p.ongoing, q.ongoing, eo, 14, a4, b4);
    assert(a4 == a4 + Seq::<u64>::empty());
    assert(b4 == b4 + Seq::<u64>::empty());
    lemma_list_prefix(p.signatures, q.signatures, es, 3, Seq::<u64>::empty(), Seq::<u64>::empty());
}

fn put_ref(out: &mut Vec<u64>, r: ConfigRef)
    ensures
        final(out)@ == old(out)@ + enc_ref(r),
{
    out.push(r.id.height);
    out.push(r.id.seq);
    match r.kind {
        TranscriptKind::RandomMasked => {
            out.push(0);
            out.push(0);
            out.push(0);
            out.push(0);
            out.push(0);
        },
        TranscriptKind::ReshareToUnmasked { source } => {
            out.push(1);
            out.push(source.height);
            out.push(source.seq);
            out.push(0);
            out.push(0);
        },
        TranscriptKind::MaskedMultiplication { unmasked, masked } => {
            out.push(2);
            out.push(unmasked.height);
            out.push(unmasked.seq);
            out.push(masked.height);
            out.push(masked.seq);
        },
    }
    assert(out@ =~= old(out)@ + enc_ref(r));
}

fn put_transcript(out: &mut Vec<u64>, t: Transcript)
    ensures
        final(out)@ == old(out)@ + enc_transcript(t),
{
    out.push(t.config_id.height);
    out.push(t.config_id.seq);
    out.push(t.material);
    assert(out@ =~= old(out)@ + enc_transcript(t));
}

fn put_opt_transcript(out: &mut Vec<u64>, o: Option<Transcript>)
    ensures
        final(out)@ == old(out)@ + enc_opt_transcript(o),
{
    match o {
        None => {
            out.push(0);
            out.push(0);
            out.push(0);
            out.push(0);
        },
        Some(t) => {
            out.push(1);
            put_transcript(out, t);
        },
    }
    assert(out@ =~= old(out)@ + enc_opt_transcript(o));
}

fn put_opt_ref(out: &mut Vec<u64>, o: Option<ConfigRef>)
    ensures
        final(out)@ == old(out)@ + enc_opt_ref(o),
{
    match o {
        None => {
            let mut k: usize = 0;
            let ghost start = out@;
            while k < 8
                invariant
                    k <= 8,
                    out@ == start + Seq::new(k as nat, |i: int| 0u64),
                decreases 8 - k,
            {
                out.push(0);
                k = k + 1;
                assert(out@ =~= start + Seq::new(k as nat, |i: int| 0u64));
            }
        },
        Some(r) => {
            out.push(1);
            put_ref(out, r);
        },
    }
    assert(out@ =~= old(out)@ + enc_opt_ref(o));
}

fn put_tuple(out: &mut Vec<u64>, t: TupleInCreation)
    ensures
        final(out)@ == old(out)@ + enc_tuple(t),
{
    put_ref(out, t.kappa_config);
    put_opt_transcript(out, t.kappa_masked);
    put_ref(out, t.lambda_config);
    put_opt_transcript(out, t.lambda_masked);
    put_opt_ref(out, t.unmask_kappa_config);
    put_opt_transcript(out, t.kappa_unmasked);
    put_opt_ref(out, t.key_times_lambda_config);
    put_opt_transcript(out, t.key_times_lambda);
    put_opt_ref(out, t.kappa_times_lambda_config);
    put_opt_transcript(out, t.kappa_times_lambda);
    assert(out@ =~= old(out)@ + enc_tuple(t));
}

fn put_complete(out: &mut Vec<u64>, c: CompleteTuple)
    ensures
        final(out)@ == old(out)@ + enc_complete(c),
{
    put_transcript(out, c.kappa_unmasked);
    put_transcript(out, c.lambda_masked);
    put_transcript(out, c.key_times_lambda);
    put_transcript(out, c.kappa_times_lambda);
    assert(out@ =~= old(out)@ + enc_complete(c));
}

fn put_ongoing(out: &mut Vec<u64>, o: OngoingSigning)
    ensures
        final(out)@ == old(out)@ + enc_ongoing(o),
{
    out.push(o.request_id.height);
    out.push(o.request_id.seq);
    put_complete(out, o.tuple);
    assert(out@ =~= old(out)@ + enc_ongoing(o));
}

fn put_signature(out: &mut Vec<u64>, s: Signature)
    ensures
        final(out)@ == old(out)@ + enc_signature(s),
{
    out.push(s.request_id.height);
    out.push(s.request_id.seq);
    out.push(s.material);
    assert(out@ =~= old(out)@ + enc_signature(s));
}

proof fn lemma_concat_map_take<T, U>(items: Seq<T>, enc: spec_fn(T) -> Seq<U>, i: int)
    requires
        0 <= i < items.len(),
    ensures
        concat_map(items.take(i + 1), enc) == concat_map(items.take(i), enc) + enc(items[i]),
{
    assert(items.take(i + 1).drop_last() =~= items.take(i));
}

fn put_tuples(out: &mut Vec<u64>, items: &Vec<TupleInCreation>)
    ensures
        final(out)@ == old(out)@ + enc_list(items@, |t: TupleInCreation| enc_tuple(t)),
{
    let ghost enc = |t: TupleInCreation| enc_tuple(t);
    out.push(items.len() as u64);
    let ghost start = out@;
    let mut i: usize = 0;
    while i < items.len()
        invariant
            enc == (|t: TupleInCreation| enc_tuple(t)),
            i <= items@.len(),
            out@ == start + concat_map(items@.take(i as int), enc),
        decreases items@.len() - i,
    {
        proof {
            lemma_concat_map_take(items@, enc, i as int);
        }
        put_tuple(out, items[i]);
        assert(out@ =~= start + concat_map(items@.take(i as int + 1), enc));
        i = i + 1;
    }
    assert(items@.take(i as int) =~= items@);
    assert(out@ =~= old(out)@ + enc_list(items@, enc));
}

fn put_completes(out: &mut Vec<u64>, items: &Vec<CompleteTuple>)
    ensures
        final(out)@ == old(out)@ + enc_list(items@, |c: CompleteTuple| enc_complete(c)),
{
    let ghost enc = |c: CompleteTuple| enc_complete(c);
    out.push(items.len() as u64);
    let ghost start = out@;
    let mut i: usize = 0;
    while i < items.len()
        invariant
            enc == (|c: CompleteTuple| enc_complete(c)),
            i <= items@.len(),
            out@ == start + concat_map(items@.take(i as int), enc),
        decreases items@.len() - i,
    {
        proof {
            lemma_concat_map_take(items@, enc, i as int);
        }
        put_complete(out, items[i]);
        assert(out@ =~= start + concat_map(items@.take(i as int + 1), enc));
        i = i + 1;
    }
    assert(items@.take(i as int) =~= items@);
    assert(out@ =~= old(out)@ + enc_list(items@, enc));
}

fn put_ongoings(out: &mut Vec<u64>, items: &Vec<OngoingSigning>)
    ensures
        final(out)@ == old(out)@ + enc_list(items@, |o: OngoingSigning| enc_ongoing(o)),
{
    let ghost enc = |o: OngoingSigning| enc_ongoing(o);
    out.push(items.len() as u64);
    let ghost start = out@;
    let mut i: usize = 0;
    while i < items.len()
        invariant
            enc == (|o: OngoingSigning| enc_ongoing(o)),
            i <= items@.len(),
            out@ == start + concat_map(items@.take(i as int), enc),
        decreases items@.len() - i,
    {
        proof {
            lemma_concat_map_take(items@, enc, i as int);
        }
        put_ongoing(out, items[i]);
        assert(out@ =~= start + concat_map(items@.take(i as int + 1), enc));
        i = i + 1;
    }
    assert(items@.take(i as int) =~= items@);
    assert(out@ =~= old(out)@ + enc_list(items@, enc));
}

fn put_signatures(out: &mut Vec<u64>, items: &Vec<Signature>)
    ensures
        final(out)@ == old(out)@ + enc_list(items@, |s: Signature| enc_signature(s)),
{
    let ghost enc = |s: Signature| enc_signature(s);
    out.push(items.len() as u64);
    let ghost start = out@;
    let mut i: usize = 0;
    while i < items.len()
        invariant
            enc == (|s: Signature| enc_signature(s)),
            i <= items@.len(),
            out@ == start + concat_map(items@.take(i as int), enc),
        decreases items@.len() - i,
    {
        proof {
            lemma_concat_map_take(items@, enc, i as int);
        }
        put_signature(out, items[i]);
        assert(out@ =~= start + concat_map(items@.take(i as int + 1), enc));
        i = i + 1;
    }
    assert(items@.take(i as int) =~= items@);
    assert(out@ =~= old(out)@ + enc_list(items@, enc));
}

/// Each word as its 8 little-endian bytes.
pub fn words_to_bytes(w: &Vec<u64>) -> (r: Vec<u8>)
    ensures
        r@ == concat_map(w@, |x: u64| spec_u64_to_le_bytes(x)),
{
    let ghost enc = |x: u64| spec_u64_to_le_bytes(x);
    let mut r: Vec<u8> = Vec::new();
    let mut i: usize = 0;
    while i < w.len()
        invariant
            enc == (|x: u64| spec_u64_to_le_bytes(x)),
            i <= w@.len(),
            r@ == concat_map(w@.take(i as int), enc),
        decreases w@.len() - i,
    {
        proof {
            lemma_concat_map_take(w@, enc, i as int);
        }
        let mut b = u64_to_le_bytes(w[i]);
        r.append(&mut b);
        assert(r@ =~= concat_map(w@.take(i as int + 1), enc));
        i = i + 1;
    }
    assert(w@.take(i as int) =~= w@);
    r
}

impl EcdsaPayload {
    /// The words of this payload.
    pub fn to_words(&self) -> (r: Vec<u64>)
        ensures
            r@ == enc_payload(self@),
    {
        let mut out: Vec<u64> = Vec::new();
        put_tuples(&mut out, &self.in_creation);
        put_completes(&mut out, &self.available);
        put_ongoings(&mut out, &self.ongoing);
        put_signatures(&mut out, &self.signatures);
        assert(out@ =~= enc_payload(self@));
        out
    }

    /// The canonical bytes of this payload.
    pub fn encode(&self) -> (r: Vec<u8>)
        ensures
            r@ == payload_bytes(self@),
    {
        let w = self.to_words();
        words_to_bytes(&w)
    }

    /// Whether `bytes` are the canonical bytes of this payload: what a
    /// validator checks of a proposed block's payload against the one it
    /// computed itself.
    pub fn agrees_with(&self, bytes: &Vec<u8>) -> (r: bool)
        ensures
            r == (payload_bytes(self@) == bytes@),
    {
        let mine = self.encode();
        if mine.len() != bytes.len() {
            return false;
        }
        let mut i: usize = 0;
        while i < mine.len()
            invariant
                mine@ == payload_bytes(self@),
                mine@.len() == bytes@.len(),
                i <= mine@.len(),
                forall|k: int| 0 <= k < i ==> mine@[k] == bytes@[k],
            decreases mine@.len() - i,
        {
            if mine[i] != bytes[i] {
                return false;
            }
            i = i + 1;
        }
        assert(mine@ =~= bytes@);
        true
    }
}

} // verus!
