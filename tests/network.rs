use bee_core::ids::MessageId;
use bee_core::milestone::{MilestonePayload, MilestonePayloadEssence};
use bee_core::network::{
    step, GossipProtocolHandler, GossipProtocolUpgrade, HandshakeAction, HandshakeEvent, HandshakeState,
    IotaGossipInfo, IotaGossipProtocolUpgrade, Origin, PeerRelation, UpgradeErrorKind,
};
use bee_core::payload::{
    IndexationIndex, IndexationPayload, Message, Payload, PayloadKind, PayloadQueues, TransactionPayload,
};

#[test]
fn protocol_names() {
    let info = IotaGossipInfo::new("iota-gossip".to_string(), 42, "1.0.0".to_string());
    assert_eq!(info.protocol_name(), b"/iota-gossip/42/1.0.0");
    let upgrade = IotaGossipProtocolUpgrade::new(info);
    assert_eq!(upgrade.info().protocol_name(), b"/iota-gossip/42/1.0.0");
    assert_eq!(GossipProtocolUpgrade.protocol_info(0), b"/iota-gossip/0/1.0.0".to_vec());
    assert_eq!(
        GossipProtocolUpgrade.protocol_info(u64::MAX),
        format!("/iota-gossip/{}/1.0.0", u64::MAX).into_bytes()
    );
}

#[test]
fn origin_and_relation() {
    assert!(Origin::Inbound.is_inbound() && !Origin::Inbound.is_outbound());
    assert!(Origin::Outbound.is_outbound());
    assert_eq!(Origin::Outbound.to_string(), "outbound");
    assert_eq!(Origin::Inbound.to_string(), "inbound");
    assert!(PeerRelation::Known.is_known());
    assert!(PeerRelation::Unknown.is_unknown());
    assert!(PeerRelation::Discovered.is_discovered() && !PeerRelation::Discovered.is_known());
}

#[test]
fn gossip_handshake_outbound() {
    let info = IotaGossipInfo::new("iota-gossip".to_string(), 1, "1.0.0".to_string());
    let mut h = GossipProtocolHandler::new(0, 0, info);
    assert_eq!(
        h.handle(HandshakeEvent::ConnectionEstablished(Origin::Outbound)),
        HandshakeAction::RequestOutboundSubstream
    );
    assert_eq!(h.handle(HandshakeEvent::InboundNegotiated), HandshakeAction::Nothing);
    assert_eq!(h.handle(HandshakeEvent::OutboundNegotiated), HandshakeAction::EmitUpgradeCompleted);
    assert_eq!(h.current_state(), HandshakeState::Established);
    assert_eq!(
        h.handle(HandshakeEvent::ConnectionEstablished(Origin::Outbound)),
        HandshakeAction::Nothing
    );
    assert_eq!(h.handle(HandshakeEvent::RemoteEof), HandshakeAction::EmitConnectionDropped);
    assert_eq!(h.current_state(), HandshakeState::Closing);
}

#[test]
fn gossip_handshake_inbound() {
    assert_eq!(
        step(HandshakeState::New, HandshakeEvent::ConnectionEstablished(Origin::Inbound)),
        (HandshakeState::AwaitingRequest, HandshakeAction::Nothing)
    );
    assert_eq!(
        step(HandshakeState::AwaitingRequest, HandshakeEvent::OutboundNegotiated),
        (HandshakeState::AwaitingRequest, HandshakeAction::Nothing)
    );
    assert_eq!(
        step(HandshakeState::AwaitingRequest, HandshakeEvent::InboundNegotiated),
        (HandshakeState::Established, HandshakeAction::EmitUpgradeCompleted)
    );
    assert_eq!(
        step(HandshakeState::Established, HandshakeEvent::SendError),
        (HandshakeState::Closing, HandshakeAction::EmitConnectionDropped)
    );
}

#[test]
fn gossip_upgrade_error_terminates() {
    assert_eq!(
        step(HandshakeState::SendingRequest, HandshakeEvent::UpgradeError(UpgradeErrorKind::Timeout)),
        (HandshakeState::Terminal, HandshakeAction::EmitUpgradeError(UpgradeErrorKind::Timeout))
    );
}

fn message(payload: Option<Payload>) -> Message {
    Message { network_id: 1, parent1: MessageId::new([1; 32]), parent2: MessageId::new([2; 32]), payload, nonce: 0 }
}

fn milestone() -> MilestonePayload {
    let e = MilestonePayloadEssence::new(1, 0, MessageId::new([1; 32]), MessageId::new([2; 32]), [0; 32], vec![]);
    MilestonePayload::new(e, vec![])
}

#[test]
fn dispatch_routing() {
    let mut q = PayloadQueues::new();
    let idx = IndexationPayload::new(b"tag".to_vec(), b"data".to_vec());
    let tx = TransactionPayload { inputs: vec![], payload: Some(idx.clone()) };
    q.dispatch(MessageId::new([10; 32]), &message(Some(Payload::Transaction(tx.clone()))));
    q.dispatch(MessageId::new([11; 32]), &message(Some(Payload::Milestone(milestone()))));
    q.dispatch(MessageId::new([12; 32]), &message(Some(Payload::Indexation(idx.clone()))));
    q.dispatch(MessageId::new([13; 32]), &message(Some(Payload::Receipt(vec![]))));
    q.dispatch(MessageId::new([14; 32]), &message(None));
    assert_eq!(q.transaction, vec![MessageId::new([10; 32])]);
    assert_eq!(q.milestone, vec![MessageId::new([11; 32])]);
    assert_eq!(q.indexation, vec![MessageId::new([12; 32])]);

    let mut index = IndexationIndex::new();
    index.process(MessageId::new([10; 32]), &message(Some(Payload::Transaction(tx))));
    index.process(MessageId::new([13; 32]), &message(Some(Payload::Receipt(vec![]))));
    index.process(
        MessageId::new([15; 32]),
        &message(Some(Payload::Transaction(TransactionPayload { inputs: vec![], payload: None }))),
    );
    let hashed: [u8; 32] = <crypto::hashes::blake2b::Blake2b256 as crypto::hashes::Digest>::digest(b"tag").into();
    assert_eq!(index.entries, vec![(hashed, MessageId::new([10; 32]))]);
    assert_eq!(idx.hash(), hashed);
    assert_ne!(&hashed[..3], b"tag");
}

#[test]
fn payload_type_ids() {
    assert_eq!(PayloadKind::Indexation.type_id(), 2);
    assert_eq!(PayloadKind::from_type_id(1), Some(PayloadKind::Milestone));
    assert_eq!(PayloadKind::from_type_id(5), None);
    assert_eq!(Payload::Receipt(vec![]).kind(), PayloadKind::Receipt);
}
