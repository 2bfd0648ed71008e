use bee_core::codec::CodecError;
use bee_core::ids::MessageId;
use bee_core::milestone::{MilestonePayload, MilestonePayloadEssence, MilestoneValidationError};

use crypto::signatures::ed25519::SecretKey;

fn keys() -> (SecretKey, SecretKey) {
    (SecretKey::from_bytes(&[1u8; 32]), SecretKey::from_bytes(&[2u8; 32]))
}

fn essence() -> MilestonePayloadEssence {
    let (k0, k1) = keys();
    MilestonePayloadEssence::new(
        7,
        1_600_000_000,
        MessageId::new([3u8; 32]),
        MessageId::new([4u8; 32]),
        [5u8; 32],
        vec![k0.public_key().to_bytes(), k1.public_key().to_bytes()],
    )
}

fn signed(essence: &MilestonePayloadEssence) -> Vec<[u8; 64]> {
    let (k0, k1) = keys();
    let bytes = essence.pack();
    vec![k0.sign(&bytes).to_bytes(), k1.sign(&bytes).to_bytes()]
}

fn hex_keys() -> (String, String) {
    let (k0, k1) = keys();
    (hex::encode(k0.public_key().to_bytes()), hex::encode(k1.public_key().to_bytes()))
}

#[test]
fn milestone_threshold_met() {
    let e = essence();
    let sigs = signed(&e);
    let (h0, h1) = hex_keys();
    let payload = MilestonePayload::new(e, sigs);
    assert_eq!(payload.validate(&[h0, h1], 2), Ok(()));
}

#[test]
fn milestone_too_few_signatures() {
    let e = essence();
    let mut sigs = signed(&e);
    sigs.pop();
    let (h0, h1) = hex_keys();
    let payload = MilestonePayload::new(e, sigs);
    assert_eq!(
        payload.validate(&[h0, h1], 2),
        Err(MilestoneValidationError::TooFewSignatures(2, 1))
    );
}

#[test]
fn milestone_unapplicable_key() {
    let e = essence();
    let sigs = signed(&e);
    let (h0, h1) = hex_keys();
    let payload = MilestonePayload::new(e, sigs);
    assert_eq!(
        payload.validate(&[h0], 1),
        Err(MilestoneValidationError::UnapplicablePublicKey(h1))
    );
}

#[test]
fn milestone_invalid_min_threshold() {
    let e = essence();
    let sigs = signed(&e);
    let (h0, h1) = hex_keys();
    let payload = MilestonePayload::new(e, sigs);
    assert_eq!(payload.validate(&[h0, h1], 0), Err(MilestoneValidationError::InvalidMinThreshold));
}

#[test]
fn milestone_insufficient_applicable_keys() {
    let e = essence();
    let sigs = signed(&e);
    let (h0, _) = hex_keys();
    let payload = MilestonePayload::new(e, sigs);
    assert_eq!(
        payload.validate(&[h0], 2),
        Err(MilestoneValidationError::InsufficientApplicablePublicKeys(1, 2))
    );
}

#[test]
fn milestone_count_mismatch() {
    let e = essence();
    let mut sigs = signed(&e);
    sigs.push([0u8; 64]);
    let (h0, h1) = hex_keys();
    let payload = MilestonePayload::new(e, sigs);
    assert_eq!(
        payload.validate(&[h0, h1], 2),
        Err(MilestoneValidationError::SignaturesPublicKeysCountMismatch(3, 2))
    );
}

#[test]
fn milestone_invalid_signature_reports_first_index() {
    let e = essence();
    let mut sigs = signed(&e);
    sigs[1][0] ^= 1;
    let (h0, h1) = hex_keys();
    let payload = MilestonePayload::new(e, sigs);
    assert_eq!(
        payload.validate(&[h0, h1.clone()], 2),
        Err(MilestoneValidationError::InvalidSignature(1, h1))
    );
}

#[test]
fn milestone_signature_over_other_essence_fails() {
    let e = essence();
    let sigs = signed(&e);
    let (h0, h1) = hex_keys();
    let other = MilestonePayloadEssence::new(
        8,
        e.timestamp(),
        *e.parent1(),
        *e.parent2(),
        [5u8; 32],
        e.public_keys().clone(),
    );
    let payload = MilestonePayload::new(other, sigs);
    assert_eq!(
        payload.validate(&[h0.clone(), h1], 2),
        Err(MilestoneValidationError::InvalidSignature(0, h0))
    );
}

#[test]
fn essence_round_trip_and_length() {
    let e = essence();
    let bytes = e.pack();
    assert_eq!(bytes.len(), e.packed_len());
    assert_eq!(bytes.len(), 109 + 2 * 32);
    assert_eq!(&bytes[0..4], &[7, 0, 0, 0]);
    assert_eq!(bytes[108], 2);
    let back = MilestonePayloadEssence::unpack(&bytes).unwrap();
    assert_eq!(back.index(), 7);
    assert_eq!(back.timestamp(), 1_600_000_000);
    assert_eq!(back.public_keys(), e.public_keys());
    assert_eq!(back.merkle_proof(), e.merkle_proof());
    assert_eq!(back.pack(), bytes);
}

#[test]
fn payload_round_trip_and_length() {
    let e = essence();
    let sigs = signed(&e);
    let payload = MilestonePayload::new(e, sigs.clone());
    let bytes = payload.pack();
    assert_eq!(bytes.len(), payload.packed_len());
    assert_eq!(bytes.len(), 109 + 2 * 32 + 1 + 2 * 64);
    let back = MilestonePayload::unpack(&bytes).unwrap();
    assert_eq!(back.signatures(), &sigs);
    assert_eq!(back.pack(), bytes);
}

#[test]
fn payload_truncated_is_eof() {
    let e = essence();
    let sigs = signed(&e);
    let bytes = MilestonePayload::new(e, sigs).pack();
    for cut in [0, 50, 108, 109, 200, bytes.len() - 1] {
        assert_eq!(
            MilestonePayload::unpack(&bytes[..cut]).unwrap_err(),
            CodecError::UnexpectedEof
        );
    }
}

#[test]
fn payload_trailing_bytes_fail() {
    let e = essence();
    let sigs = signed(&e);
    let mut bytes = MilestonePayload::new(e, sigs).pack();
    bytes.push(0);
    assert_eq!(MilestonePayload::unpack(&bytes).unwrap_err(), CodecError::TrailingBytes);
}

#[test]
fn verdicts_decide_after_applicability() {
    let e = essence();
    let sigs = signed(&e);
    let (h0, h1) = hex_keys();
    let payload = MilestonePayload::new(e, sigs);
    assert_eq!(payload.validate_with_verdicts(&[h0.clone(), h1.clone()], 2, &[true, true]), Ok(()));
    assert_eq!(
        payload.validate_with_verdicts(&[h0.clone(), h1.clone()], 2, &[false, false]),
        Err(MilestoneValidationError::InvalidSignature(0, h0.clone()))
    );
    assert_eq!(
        payload.validate_with_verdicts(&[h0.clone(), h1.clone()], 2, &[true, false]),
        Err(MilestoneValidationError::InvalidSignature(1, h1.clone()))
    );
    assert_eq!(
        payload.validate_with_verdicts(&[h1.clone(), "00".to_string()], 2, &[false, true]),
        Err(MilestoneValidationError::UnapplicablePublicKey(h0))
    );
}
