use threshold_ecdsa::codec::words_to_bytes;
use threshold_ecdsa::payload::{CompleteTuple, EcdsaPayload, OngoingSigning, TupleInCreation};
use threshold_ecdsa::types::{ConfigId, Signature, Transcript};

fn cid(height: u64, seq: u64) -> ConfigId {
    ConfigId { height, seq }
}

fn transcript(c: ConfigId, material: u64) -> Transcript {
    Transcript { config_id: c, material }
}

#[test]
fn empty_payload_is_four_zero_counts() {
    let p = EcdsaPayload::new();
    assert_eq!(p.to_words(), vec![0, 0, 0, 0]);
    assert_eq!(p.encode(), vec![0u8; 32]);
}

#[test]
fn words_are_little_endian() {
    assert_eq!(words_to_bytes(&vec![0x0102030405060708, 1]), vec![8, 7, 6, 5, 4, 3, 2, 1, 1, 0, 0, 0, 0, 0, 0, 0]);
}

#[test]
fn signature_list_layout() {
    let mut p = EcdsaPayload::new();
    p.signatures.push(Signature { request_id: cid(3, 4), material: 99 });
    assert_eq!(p.to_words(), vec![0, 0, 0, 1, 3, 4, 99]);
}

#[test]
fn fresh_tuple_layout() {
    let mut p = EcdsaPayload::new();
    p.in_creation.push(TupleInCreation::fresh(cid(2, 0), cid(2, 1)));
    let w = p.to_words();
    assert_eq!(w.len(), 4 + 58);
    assert_eq!(w[0], 1);
    // kappa config: id, then the random-masked kind padded to five words
    assert_eq!(&w[1..8], &[2, 0, 0, 0, 0, 0, 0]);
    // no kappa transcript yet
    assert_eq!(&w[8..12], &[0, 0, 0, 0]);
    assert_eq!(&w[12..19], &[2, 1, 0, 0, 0, 0, 0]);
    assert!(w[19..59].iter().all(|x| *x == 0));
    assert_eq!(&w[59..], &[0, 0, 0]);
}

#[test]
fn ongoing_layout() {
    let mut p = EcdsaPayload::new();
    let tuple = CompleteTuple {
        kappa_unmasked: transcript(cid(1, 1), 10),
        lambda_masked: transcript(cid(1, 2), 20),
        key_times_lambda: transcript(cid(1, 3), 30),
        kappa_times_lambda: transcript(cid(1, 4), 40),
    };
    p.ongoing.push(OngoingSigning { request_id: cid(7, 8), tuple });
    assert_eq!(
        p.to_words(),
        vec![0, 0, 1, 7, 8, 1, 1, 10, 1, 2, 20, 1, 3, 30, 1, 4, 40, 0]
    );
}

#[test]
fn payload_agrees_with_its_own_bytes_only() {
    let mut p = EcdsaPayload::new();
    p.signatures.push(Signature { request_id: cid(3, 4), material: 99 });
    let bytes = p.encode();
    assert!(p.agrees_with(&bytes));
    let mut q = p.clone();
    q.signatures[0].material = 98;
    assert!(!q.agrees_with(&bytes));
    assert_ne!(q.encode(), bytes);
    let mut moved = EcdsaPayload::new();
    moved.available.push(CompleteTuple {
        kappa_unmasked: transcript(cid(1, 1), 10),
        lambda_masked: transcript(cid(1, 2), 20),
        key_times_lambda: transcript(cid(1, 3), 30),
        kappa_times_lambda: transcript(cid(1, 4), 40),
    });
    assert!(!moved.agrees_with(&bytes));
    assert!(!p.agrees_with(&bytes[..bytes.len() - 1].to_vec()));
}
