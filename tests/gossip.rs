use bee_core::gossip::{
    connection_step, process_command, process_swarm_event, BehaviourAction, Command, HandlerEvent, IoAction,
    IoEvent, IotaGossipProtocol, NetworkError, SwarmNotice,
};
use bee_core::network::{HandshakeAction, HandshakeState, Origin, UpgradeErrorKind};

#[test]
fn behaviour_notifies_handlers_then_reports() {
    let mut p = IotaGossipProtocol::new(1);
    let h = p.new_handler();
    assert_eq!(h.current_state(), HandshakeState::New);
    p.inject_connection_established(7, 70, Origin::Outbound);
    p.inject_connection_established(8, 80, Origin::Inbound);
    p.inject_event(HandlerEvent { peer: 7, connection: 70, origin: Origin::Outbound, action: HandshakeAction::RequestOutboundSubstream });
    p.inject_event(HandlerEvent { peer: 7, connection: 70, origin: Origin::Outbound, action: HandshakeAction::EmitUpgradeCompleted });
    p.inject_event(HandlerEvent { peer: 8, connection: 80, origin: Origin::Inbound, action: HandshakeAction::EmitUpgradeError(UpgradeErrorKind::Negotiation) });
    assert_eq!(p.poll(), Some(BehaviourAction::NotifyHandler { peer: 7, connection: 70, origin: Origin::Outbound }));
    assert_eq!(p.poll(), Some(BehaviourAction::NotifyHandler { peer: 8, connection: 80, origin: Origin::Inbound }));
    assert_eq!(p.poll(), Some(BehaviourAction::UpgradeCompleted { peer: 7, connection: 70, origin: Origin::Outbound }));
    assert_eq!(p.poll(), Some(BehaviourAction::UpgradeError { peer: 8, kind: UpgradeErrorKind::Negotiation }));
    assert_eq!(p.poll(), None);
}

#[test]
fn connection_task_steps() {
    let buffer = [5u8, 6, 7, 8];
    assert_eq!(connection_step(IoEvent::Outgoing(Some(vec![1, 2])), &buffer), IoAction::Send(vec![1, 2]));
    assert_eq!(connection_step(IoEvent::Outgoing(None), &buffer), IoAction::Stop);
    assert_eq!(connection_step(IoEvent::Read(Some(3)), &buffer), IoAction::Deliver(vec![5, 6, 7]));
    assert_eq!(connection_step(IoEvent::Read(Some(0)), &buffer), IoAction::DropConnection);
    assert_eq!(connection_step(IoEvent::Read(None), &buffer), IoAction::DropConnection);
    assert_eq!(connection_step(IoEvent::WriteFailed, &buffer), IoAction::DropConnection);
}

#[test]
fn host_commands_and_events() {
    assert_eq!(process_command(&Command::DialPeer { peer: 3 }, true), Some(Ok(())));
    assert_eq!(process_command(&Command::DialPeer { peer: 3 }, false), Some(Err(NetworkError::DialingPeerDenied(3))));
    assert_eq!(
        process_command(&Command::DialAddress { address: "/ip4/1.2.3.4/tcp/15600".to_string() }, false),
        Some(Err(NetworkError::DialingAddressDenied("/ip4/1.2.3.4/tcp/15600".to_string())))
    );
    assert_eq!(process_command(&Command::BanPeer { peer: 3 }, true), None);
    assert_eq!(
        process_swarm_event(&SwarmNotice::NewListenAddr("/ip4/0.0.0.0/tcp/15600".to_string())),
        Some("/ip4/0.0.0.0/tcp/15600".to_string())
    );
    assert_eq!(process_swarm_event(&SwarmNotice::ListenerError), None);
}
