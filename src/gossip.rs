//! The gossip behaviour and the connection tasks, as decisions over plain
//! values: peers and connections are handles that the runtime assigns, and
//! the runtime performs each returned action.

use vstd::prelude::*;

use crate::network::{GossipProtocolHandler, HandshakeAction, IotaGossipInfo, Origin, UpgradeErrorKind};

verus! {

/// A connection as the behaviour learns of it from the transport.
#[derive(Clone, Copy, Debug, PartialEq, Eq, Structural)]
pub struct SwarmEvent {
    pub peer: u64,
    pub connection: u64,
    pub origin: Origin,
}

/// What a connection's handler reported, with the connection it came from.
#[derive(Clone, Copy, Debug, PartialEq, Eq, Structural)]
pub struct HandlerEvent {
    pub peer: u64,
    pub connection: u64,
    pub origin: Origin,
    pub action: HandshakeAction,
}

/// What the behaviour asks of the swarm when polled.
#[derive(Clone, Copy, Debug, PartialEq, Eq, Structural)]
pub enum BehaviourAction {
    /// Tell the handler of `connection` its peer and origin.
    NotifyHandler { peer: u64, connection: u64, origin: Origin },
    /// The gossip protocol is up on a connection.
    UpgradeCompleted { peer: u64, connection: u64, origin: Origin },
    /// The upgrade failed on a connection.
    UpgradeError { peer: u64, kind: UpgradeErrorKind },
}

/// The behaviour's report for a handler event, if it makes one.
pub open spec fn report_of(e: HandlerEvent) -> Option<BehaviourAction> {
    match e.action {
        HandshakeAction::EmitUpgradeCompleted => Some(
            BehaviourAction::UpgradeCompleted { peer: e.peer, connection: e.connection, origin: e.origin },
        ),
        HandshakeAction::EmitUpgradeError(kind) => Some(
            BehaviourAction::UpgradeError { peer: e.peer, kind },
        ),
        _ => None,
    }
}

/// The first position from `i` on whose handler event makes a report.
pub open spec fn first_report(es: Seq<HandlerEvent>, i: int) -> int
    decreases es.len() - i,
{
    if i < 0 || i >= es.len() {
        es.len() as int
    } else if report_of(es[i]) is Some {
        i
    } else {
        first_report(es, i + 1)
    }
}

proof fn lemma_first_report_bounds(es: Seq<HandlerEvent>, i: int)
    requires
        0 <= i <= es.len(),
    ensures
        i <= first_report(es, i) <= es.len(),
        first_report(es, i) < es.len() ==> report_of(es[first_report(es, i)]) is Some,
        forall|j: int| i <= j < first_report(es, i) ==> report_of(#[trigger] es[j]) is None,
    decreases es.len() - i,
{
    if i < es.len() && report_of(es[i]) is None {
        lemma_first_report_bounds(es, i + 1);
    }
}

/// The gossip protocol's behaviour: it counts the connections by direction,
/// tells each new connection's handler its origin, and reports completed and
/// failed upgrades.
pub struct IotaGossipProtocol {
    info: IotaGossipInfo,
    num_handlers: u64,
    num_inbounds: u64,
    num_outbounds: u64,
    swarm_events: Vec<SwarmEvent>,
    handler_events: Vec<HandlerEvent>,
}

pub struct ProtocolView {
    pub num_handlers: int,
    pub num_inbounds: int,
    pub num_outbounds: int,
    pub swarm_events: Seq<SwarmEvent>,
    pub handler_events: Seq<HandlerEvent>,
}

impl View for IotaGossipProtocol {
    type V = ProtocolView;

    closed spec fn view(&self) -> ProtocolView {
        ProtocolView {
            num_handlers: self.num_handlers as int,
            num_inbounds: self.num_inbounds as int,
            num_outbounds: self.num_outbounds as int,
            swarm_events: self.swarm_events@,
            handler_events: self.handler_events@,
        }
    }
}

impl IotaGossipProtocol {
    /// The behaviour for network `network_id`, with nothing counted or queued.
    pub fn new(network_id: u64) -> (r: IotaGossipProtocol)
        ensures
            r@.num_handlers == 0 && r@.num_inbounds == 0 && r@.num_outbounds == 0,
            r@.swarm_events.len() == 0 && r@.handler_events.len() == 0,
    {
        IotaGossipProtocol {
            info: IotaGossipInfo::new(
                crate::network::IOTA_GOSSIP_NAME.to_string(),
                network_id,
                crate::network::IOTA_GOSSIP_VERSION.to_string(),
            ),
            num_handlers: 0,
            num_inbounds: 0,
            num_outbounds: 0,
            swarm_events: Vec::new(),
            handler_events: Vec::new(),
        }
    }

    /// A handler for a new connection; its substream indices are the
    /// connection counts so far.
    pub fn new_handler(&mut self) -> (r: GossipProtocolHandler)
        requires
            old(self)@.num_handlers < u64::MAX,
        ensures
            final(self)@ == (ProtocolView { num_handlers: old(self)@.num_handlers + 1, ..old(self)@ }),
            r.state() == crate::network::HandshakeState::New,
    {
        self.num_handlers = self.num_handlers + 1;
        GossipProtocolHandler::new(
            self.num_inbounds as usize,
            self.num_outbounds as usize,
            self.info.clone(),
        )
    }

    /// A connection is established: it is counted by its direction and its
    /// handler will be told its origin.
    pub fn inject_connection_established(&mut self, peer: u64, connection: u64, origin: Origin)
        requires
            old(self)@.num_inbounds < u64::MAX,
            old(self)@.num_outbounds < u64::MAX,
        ensures
            final(self)@.num_handlers == old(self)@.num_handlers,
            final(self)@.num_inbounds == old(self)@.num_inbounds + if origin == Origin::Inbound {
                1int
            } else {
                0
            },
            final(self)@.num_outbounds == old(self)@.num_outbounds + if origin == Origin::Outbound {
                1int
            } else {
                0
            },
            final(self)@.swarm_events == old(self)@.swarm_events.push(
                SwarmEvent { peer, connection, origin },
            ),
            final(self)@.handler_events == old(self)@.handler_events,
    {
        match origin {
            Origin::Inbound => self.num_inbounds = self.num_inbounds + 1,
            Origin::Outbound => self.num_outbounds = self.num_outbounds + 1,
        }
        self.swarm_events.push(SwarmEvent { peer, connection, origin });
    }

    /// A handler reported an action.
    pub fn inject_event(&mut self, event: HandlerEvent)
        ensures
            final(self)@ == (ProtocolView {
                handler_events: old(self)@.handler_events.push(event),
                ..old(self)@
            }),
    {
        self.handler_events.push(event);
    }

    /// The next thing for the swarm to do: first each new connection's handler
    /// is told its origin, oldest first; then the oldest handler event that
    /// makes a report is reported, and the events before it, which make none,
    /// are dropped. `None` when nothing is left to do.
    pub fn poll(&mut self) -> (r: Option<BehaviourAction>)
        ensures
            final(self)@.num_handlers == old(self)@.num_handlers,
            final(self)@.num_inbounds == old(self)@.num_inbounds,
            final(self)@.num_outbounds == old(self)@.num_outbounds,
            old(self)@.swarm_events.len() > 0 ==> {
                let e = old(self)@.swarm_events[0];
                &&& r == Some(
                    BehaviourAction::NotifyHandler { peer: e.peer, connection: e.connection, origin: e.origin },
                )
                &&& final(self)@.swarm_events == old(self)@.swarm_events.drop_first()
                &&& final(self)@.handler_events == old(self)@.handler_events
            },
            old(self)@.swarm_events.len() == 0 ==> {
                let es = old(self)@.handler_events;
                let k = first_report(es, 0);
                &&& final(self)@.swarm_events == old(self)@.swarm_events
                &&& k < es.len() ==> r == report_of(es[k]) && final(self)@.handler_events
                    == es.subrange(k + 1, es.len() as int)
                &&& k == es.len() ==> r is None && final(self)@.handler_events.len() == 0
            },
    {
        if self.swarm_events.len() > 0 {
            let e = self.swarm_events.remove(0);
            assert(self.swarm_events@ =~= old(self)@.swarm_events.drop_first());
            return Some(
                BehaviourAction::NotifyHandler { peer: e.peer, connection: e.connection, origin: e.origin },
            );
        }
        let ghost es = old(self)@.handler_events;
        proof {
            lemma_first_report_bounds(es, 0);
        }
        let ghost mut dropped: int = 0;
        while self.handler_events.len() > 0
            invariant
                self@.num_handlers == old(self)@.num_handlers,
                self@.num_inbounds == old(self)@.num_inbounds,
                self@.num_outbounds == old(self)@.num_outbounds,
                self@.swarm_events == old(self)@.swarm_events,
                old(self)@.swarm_events.len() == 0,
                es == old(self)@.handler_events,
                0 <= dropped <= first_report(es, 0) <= es.len(),
                first_report(es, 0) < es.len() ==> report_of(es[first_report(es, 0)]) is Some,
                forall|j: int| 0 <= j < first_report(es, 0) ==> report_of(#[trigger] es[j]) is None,
                self@.handler_events == es.subrange(dropped, es.len() as int),
            decreases self.handler_events@.len(),
        {
            let e = self.handler_events.remove(0);
            proof {
                assert(e == es[dropped]);
                if report_of(e) is Some {
                    assert(dropped == first_report(es, 0));
                } else {
                    assert(dropped < first_report(es, 0));
                }
                dropped = dropped + 1;
                assert(self@.handler_events =~= es.subrange(dropped, es.len() as int));
            }
            match e.action {
                HandshakeAction::EmitUpgradeCompleted => {
                    return Some(
                        BehaviourAction::UpgradeCompleted {
                            peer: e.peer,
                            connection: e.connection,
                            origin: e.origin,
                        },
                    );
                },
                HandshakeAction::EmitUpgradeError(kind) => {
                    return Some(BehaviourAction::UpgradeError { peer: e.peer, kind });
                },
                _ => {},
            }
        }
        proof {
            assert(dropped == es.len());
        }
        None
    }
}

/// What a connection task observes.
#[derive(Clone, Debug)]
pub enum IoEvent {
    /// A message to send arrived on the outbound channel; `None` when the
    /// channel closed.
    Outgoing(Option<Vec<u8>>),
    /// A read from the stream finished: the number of bytes read into the
    /// buffer, or `None` when reading failed.
    Read(Option<usize>),
    /// Writing or flushing a message to the stream failed.
    WriteFailed,
}

/// What a connection task does next.
#[derive(Clone, Debug, PartialEq, Eq)]
pub enum IoAction {
    /// Write these bytes to the stream, then flush it.
    Send(Vec<u8>),
    /// Hand these received bytes to the node as a message from the peer.
    Deliver(Vec<u8>),
    /// Report the connection as dropped, then stop.
    DropConnection,
    /// Stop without a report.
    Stop,
}

/// A connection task's step: outgoing messages are written; a closed outgoing
/// channel stops the task; bytes read are delivered; a failed read, an end of
/// stream (zero bytes) or a failed write drops the connection.
pub fn connection_step(event: IoEvent, buffer: &[u8]) -> (r: IoAction)
    ensures
        match event {
            IoEvent::Outgoing(Some(m)) => r == IoAction::Send(m),
            IoEvent::Outgoing(None) => r == IoAction::Stop,
            IoEvent::Read(Some(n)) => if 0 < n <= buffer@.len() {
                r matches IoAction::Deliver(m) && m@ == buffer@.subrange(0, n as int)
            } else {
                r == IoAction::DropConnection
            },
            IoEvent::Read(None) => r == IoAction::DropConnection,
            IoEvent::WriteFailed => r == IoAction::DropConnection,
        },
{
    match event {
        IoEvent::Outgoing(Some(m)) => IoAction::Send(m),
        IoEvent::Outgoing(None) => IoAction::Stop,
        IoEvent::Read(Some(n)) => {
            if n == 0 || n > buffer.len() {
                IoAction::DropConnection
            } else {
                let mut m: Vec<u8> = Vec::new();
                let mut i: usize = 0;
                while i < n
                    invariant
                        n <= buffer@.len(),
                        0 <= i <= n,
                        m@ == buffer@.subrange(0, i as int),
                    decreases n - i,
                {
                    m.push(buffer[i]);
                    i = i + 1;
                    assert(m@ =~= buffer@.subrange(0, i as int));
                }
                IoAction::Deliver(m)
            }
        },
        IoEvent::Read(None) => IoAction::DropConnection,
        IoEvent::WriteFailed => IoAction::DropConnection,
    }
}

/// Failures of the network layer.
#[derive(Clone, Debug, PartialEq, Eq)]
pub enum NetworkError {
    BindingAddressFailed,
    DialingAddressDenied(String),
    DialingAddressFailed(String),
    DialingPeerDenied(u64),
    DialingPeerFailed(u64),
    CreatingInboundSubstreamFailed,
    CreatingOutboundSubstreamFailed,
    SubstreamProtocolUpgradeFailed,
    InternalEventSendFailure(String),
    MessageSendError,
    MessageRecvError,
    StreamClosedByRemote,
}

/// A command to the network host.
#[derive(Clone, Debug, PartialEq, Eq)]
pub enum Command {
    DialPeer { peer: u64 },
    DialAddress { address: String },
    BanPeer { peer: u64 },
    UnbanPeer { peer: u64 },
    DisconnectPeer { peer: u64 },
}

/// What the host does for a command, given whether the peer list allows the
/// dial: the host dials peers and addresses the peer list allows, refuses the
/// others, and leaves the other commands to the peer manager.
pub fn process_command(command: &Command, allowed: bool) -> (r: Option<Result<(), NetworkError>>)
    ensures
        match *command {
            Command::DialPeer { peer } => r == Some(
                if allowed {
                    Ok::<(), NetworkError>(())
                } else {
                    Err(NetworkError::DialingPeerDenied(peer))
                },
            ),
            Command::DialAddress { address } => if allowed {
                r == Some(Ok::<(), NetworkError>(()))
            } else {
                r matches Some(Err(NetworkError::DialingAddressDenied(a))) && a@ == address@
            },
            _ => r is None,
        },
{
    match command {
        Command::DialPeer { peer } => Some(
            if allowed {
                Ok(())
            } else {
                Err(NetworkError::DialingPeerDenied(*peer))
            },
        ),
        Command::DialAddress { address } => Some(
            if allowed {
                Ok(())
            } else {
                Err(NetworkError::DialingAddressDenied(address.clone()))
            },
        ),
        _ => None,
    }
}

/// What the swarm reports to the host.
#[derive(Clone, Debug, PartialEq, Eq)]
pub enum SwarmNotice {
    NewListenAddr(String),
    ConnectionEstablished(u64),
    ConnectionClosed(u64),
    ListenerError,
    Dialing(u64),
    IncomingConnection,
}

/// The internal event the host emits for a swarm report: a new listening
/// address is announced as bound; the other reports are only logged.
pub fn process_swarm_event(notice: &SwarmNotice) -> (r: Option<String>)
    ensures
        match *notice {
            SwarmNotice::NewListenAddr(a) => r matches Some(b) && b@ == a@,
            _ => r is None,
        },
{
    match notice {
        SwarmNotice::NewListenAddr(a) => Some(a.clone()),
        _ => None,
    }
}

} // verus!
