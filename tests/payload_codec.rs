use bee_core::codec::CodecError;
use bee_core::ids::MessageId;
use bee_core::milestone::{MilestonePayload, MilestonePayloadEssence};
use bee_core::payload::{IndexationPayload, Payload, PayloadKind};

#[test]
fn indexation_round_trip() {
    let p = IndexationPayload::new(b"bee".to_vec(), vec![1, 2, 3, 4]);
    let bytes = p.pack();
    assert_eq!(bytes, vec![3, 0, b'b', b'e', b'e', 4, 0, 1, 2, 3, 4]);
    assert_eq!(p.packed_len(), bytes.len());
    let back = IndexationPayload::unpack(&bytes).unwrap();
    assert_eq!(back.index(), b"bee");
    assert_eq!(back.data(), &[1, 2, 3, 4]);
}

#[test]
fn indexation_truncated_and_trailing() {
    let bytes = IndexationPayload::new(b"bee".to_vec(), vec![1]).pack();
    for cut in 0..bytes.len() {
        assert_eq!(IndexationPayload::unpack(&bytes[..cut]).unwrap_err(), CodecError::UnexpectedEof);
    }
    let mut longer = bytes.clone();
    longer.push(9);
    assert_eq!(IndexationPayload::unpack(&longer).unwrap_err(), CodecError::TrailingBytes);
}

#[test]
fn payload_tag_dispatch() {
    let idx = Payload::Indexation(IndexationPayload::new(b"a".to_vec(), vec![]));
    let bytes = idx.pack();
    assert_eq!(&bytes[..4], &[2, 0, 0, 0]);
    assert_eq!(Payload::unpack(&bytes).unwrap().kind(), PayloadKind::Indexation);

    let e = MilestonePayloadEssence::new(3, 4, MessageId::new([1; 32]), MessageId::new([2; 32]), [0; 32], vec![[7; 32]]);
    let ms = Payload::Milestone(MilestonePayload::new(e, vec![[8; 64]]));
    let bytes = ms.pack();
    assert_eq!(&bytes[..4], &[1, 0, 0, 0]);
    match Payload::unpack(&bytes).unwrap() {
        Payload::Milestone(m) => {
            assert_eq!(m.essence().index(), 3);
            assert_eq!(m.signatures(), &vec![[8u8; 64]]);
        }
        _ => panic!("expected a milestone payload"),
    }

    let mut unknown = bytes.clone();
    unknown[0] = 9;
    assert_eq!(Payload::unpack(&unknown).unwrap_err(), CodecError::InvalidTag);
    assert_eq!(Payload::unpack(&bytes[..3]).unwrap_err(), CodecError::UnexpectedEof);
}

fn message(payload: Option<Payload>) -> bee_core::payload::Message {
    bee_core::payload::Message {
        network_id: 0x0102030405060708,
        parent1: MessageId::new([1; 32]),
        parent2: MessageId::new([2; 32]),
        payload,
        nonce: 99,
    }
}

#[test]
fn message_round_trip_without_payload() {
    let m = message(None);
    let bytes = m.pack();
    assert_eq!(bytes.len(), 8 + 32 + 32 + 4 + 8);
    assert_eq!(&bytes[..8], &[8, 7, 6, 5, 4, 3, 2, 1]);
    assert_eq!(&bytes[72..76], &[0, 0, 0, 0]);
    let back = bee_core::payload::Message::unpack(&bytes).unwrap();
    assert_eq!(back.network_id, m.network_id);
    assert_eq!(back.parent2, m.parent2);
    assert_eq!(back.nonce, 99);
    assert!(back.payload.is_none());
}

#[test]
fn message_round_trip_with_indexation() {
    let m = message(Some(Payload::Indexation(IndexationPayload::new(b"k".to_vec(), b"v".to_vec()))));
    let bytes = m.pack();
    assert_eq!(&bytes[72..76], &[10, 0, 0, 0]);
    let back = bee_core::payload::Message::unpack(&bytes).unwrap();
    match back.payload {
        Some(Payload::Indexation(i)) => {
            assert_eq!(i.index(), b"k");
            assert_eq!(i.data(), b"v");
        }
        _ => panic!("expected an indexation payload"),
    }
    for cut in 0..bytes.len() {
        assert_eq!(bee_core::payload::Message::unpack(&bytes[..cut]).unwrap_err(), CodecError::UnexpectedEof);
    }
    let mut longer = bytes.clone();
    longer.push(0);
    assert_eq!(bee_core::payload::Message::unpack(&longer).unwrap_err(), CodecError::TrailingBytes);
}

#[test]
fn message_payload_length_must_match() {
    let m = message(Some(Payload::Indexation(IndexationPayload::new(b"k".to_vec(), b"v".to_vec()))));
    let mut bytes = m.pack();
    // Declare one byte more than the payload holds, and supply it.
    bytes[72] = 11;
    bytes.insert(86, 0);
    assert_eq!(bee_core::payload::Message::unpack(&bytes).unwrap_err(), CodecError::InvalidLength);
}

#[test]
fn receipt_and_treasury_are_kept_as_stored() {
    let r = Payload::Receipt(vec![9, 8, 7]);
    let bytes = r.pack();
    assert_eq!(bytes, vec![3, 0, 0, 0, 9, 8, 7]);
    match Payload::unpack(&bytes).unwrap() {
        Payload::Receipt(b) => assert_eq!(b, vec![9, 8, 7]),
        _ => panic!("expected a receipt"),
    }
    let t = Payload::TreasuryTransaction(vec![1]);
    assert_eq!(Payload::unpack(&t.pack()).unwrap().kind(), PayloadKind::TreasuryTransaction);
    let m = message(Some(Payload::Receipt(vec![5, 5])));
    let back = bee_core::payload::Message::unpack(&m.pack()).unwrap();
    assert!(matches!(back.payload, Some(Payload::Receipt(ref b)) if b == &vec![5, 5]));
    assert_eq!(back.nonce, 99);
    assert_eq!(Payload::unpack(&[0, 0, 0, 0]).unwrap_err(), CodecError::InvalidTag);
}
