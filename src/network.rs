//! The decisions of the gossip layer: connection origin, peer relations, the
//! protocol name, the per-connection handshake and the dial policy.

use vstd::prelude::*;
use vstd::utf8::encode_utf8;

verus! {

/// The direction of an established connection.
#[derive(Clone, Copy, Debug, PartialEq, Eq, Structural)]
pub enum Origin {
    /// The connection is inbound (server).
    Inbound,
    /// The connection is outbound (client).
    Outbound,
}

impl Origin {
    pub fn is_inbound(&self) -> (r: bool)
        ensures
            r == (*self == Origin::Inbound),
    {
        *self == Origin::Inbound
    }

    pub fn is_outbound(&self) -> (r: bool)
        ensures
            r == (*self == Origin::Outbound),
    {
        *self == Origin::Outbound
    }

    /// The word for this direction.
    pub fn to_string(&self) -> (r: String)
        ensures
            r@ == (if *self == Origin::Outbound {
                "outbound"@
            } else {
                "inbound"@
            }),
    {
        match self {
            Origin::Outbound => "outbound".to_string(),
            Origin::Inbound => "inbound".to_string(),
        }
    }
}

/// How this node knows a peer.
#[derive(Clone, Copy, Debug, PartialEq, Eq, Structural)]
pub enum PeerRelation {
    Known,
    Unknown,
    Discovered,
}

impl PeerRelation {
    pub fn is_known(&self) -> (r: bool)
        ensures
            r == (*self == PeerRelation::Known),
    {
        *self == PeerRelation::Known
    }

    pub fn is_unknown(&self) -> (r: bool)
        ensures
            r == (*self == PeerRelation::Unknown),
    {
        *self == PeerRelation::Unknown
    }

    pub fn is_discovered(&self) -> (r: bool)
        ensures
            r == (*self == PeerRelation::Discovered),
    {
        *self == PeerRelation::Discovered
    }
}

/// The ASCII bytes of the decimal digits of `n`.
pub open spec fn decimal_bytes(n: nat) -> Seq<u8>
    decreases n,
{
    if n < 10 {
        seq![(48 + n) as u8]
    } else {
        decimal_bytes(n / 10) + seq![(48 + n % 10) as u8]
    }
}

/// Appends the decimal digits of `n`.
pub fn write_decimal(out: &mut Vec<u8>, n: u64)
    ensures
        final(out)@ == old(out)@ + decimal_bytes(n as nat),
    decreases n,
{
    if n >= 10 {
        write_decimal(out, n / 10);
    }
    out.push((48 + n % 10) as u8);
    assert(final(out)@ =~= old(out)@ + decimal_bytes(n as nat));
}

/// Appends the UTF-8 bytes of `s`.
fn write_str(out: &mut Vec<u8>, s: &str)
    ensures
        final(out)@ == old(out)@ + encode_utf8(s@),
{
    let b = s.as_bytes();
    let mut i: usize = 0;
    while i < b.len()
        invariant
            0 <= i <= b@.len(),
            b@ == encode_utf8(s@),
            out@ == old(out)@ + b@.subrange(0, i as int),
        decreases b@.len() - i,
    {
        out.push(b[i]);
        i = i + 1;
        assert(out@ =~= old(out)@ + b@.subrange(0, i as int));
    }
    assert(b@.subrange(0, i as int) =~= b@);
}

/// The protocol name `/{name}/{network_id}/{version}` as bytes.
pub open spec fn protocol_name_bytes(name: Seq<u8>, network_id: u64, version: Seq<u8>) -> Seq<u8> {
    seq![47u8] + name + seq![47u8] + decimal_bytes(network_id as nat) + seq![47u8] + version
}

pub const IOTA_GOSSIP_NAME: &'static str = "iota-gossip";

pub const IOTA_GOSSIP_VERSION: &'static str = "1.0.0";

/// The name and version of the gossip protocol on a network.
#[derive(Clone, Debug)]
pub struct IotaGossipInfo {
    name: String,
    network_id: u64,
    version: String,
    buffered: Vec<u8>,
}

impl IotaGossipInfo {
    pub fn new(name: String, network_id: u64, version: String) -> (r: IotaGossipInfo)
        ensures
            r.protocol_name_view() == protocol_name_bytes(
                encode_utf8(name@),
                network_id,
                encode_utf8(version@),
            ),
            r.network_id() == network_id,
    {
        let mut buffered: Vec<u8> = Vec::new();
        buffered.push(47u8);
        write_str(&mut buffered, name.as_str());
        buffered.push(47u8);
        write_decimal(&mut buffered, network_id);
        buffered.push(47u8);
        write_str(&mut buffered, version.as_str());
        assert(buffered@ =~= protocol_name_bytes(
            encode_utf8(name@),
            network_id,
            encode_utf8(version@),
        ));
        IotaGossipInfo { name, network_id, version, buffered }
    }

    pub closed spec fn protocol_name_view(&self) -> Seq<u8> {
        self.buffered@
    }

    pub closed spec fn network_id(&self) -> u64 {
        self.network_id
    }

    /// The protocol name that peers negotiate.
    pub fn protocol_name(&self) -> (r: &[u8])
        ensures
            r@ == self.protocol_name_view(),
    {
        self.buffered.as_slice()
    }
}

/// The upgrade that turns a substream into a gossip stream.
#[derive(Clone, Debug)]
pub struct IotaGossipProtocolUpgrade {
    info: IotaGossipInfo,
}

impl IotaGossipProtocolUpgrade {
    pub fn new(info: IotaGossipInfo) -> (r: IotaGossipProtocolUpgrade)
        ensures
            r.protocol_name_view() == info.protocol_name_view(),
    {
        IotaGossipProtocolUpgrade { info }
    }

    pub closed spec fn protocol_name_view(&self) -> Seq<u8> {
        self.info.protocol_name_view()
    }

    pub fn info(&self) -> (r: &IotaGossipInfo)
        ensures
            r.protocol_name_view() == self.protocol_name_view(),
    {
        &self.info
    }
}

/// The upgrade to the gossip protocol of a network, named by its network id.
#[derive(Clone, Copy, Debug, Default)]
pub struct GossipProtocolUpgrade;

impl GossipProtocolUpgrade {
    /// The protocol name `/iota-gossip/{network_id}/1.0.0`.
    pub fn protocol_info(&self, network_id: u64) -> (r: Vec<u8>)
        ensures
            r@ == protocol_name_bytes(
                encode_utf8(IOTA_GOSSIP_NAME@),
                network_id,
                encode_utf8(IOTA_GOSSIP_VERSION@),
            ),
    {
        let mut out: Vec<u8> = Vec::new();
        out.push(47u8);
        write_str(&mut out, IOTA_GOSSIP_NAME);
        out.push(47u8);
        write_decimal(&mut out, network_id);
        out.push(47u8);
        write_str(&mut out, IOTA_GOSSIP_VERSION);
        assert(out@ =~= protocol_name_bytes(
            encode_utf8(IOTA_GOSSIP_NAME@),
            network_id,
            encode_utf8(IOTA_GOSSIP_VERSION@),
        ));
        out
    }
}

/// Where a connection's protocol handshake stands.
#[derive(Clone, Copy, Debug, PartialEq, Eq, Structural)]
pub enum HandshakeState {
    New,
    AwaitingRequest,
    SendingRequest,
    Established,
    Closing,
    Terminal,
}

/// Why a protocol upgrade failed.
#[derive(Clone, Copy, Debug, PartialEq, Eq, Structural)]
pub enum UpgradeErrorKind {
    Timeout,
    Timer,
    Negotiation,
    Apply,
}

/// What happens to a connection.
#[derive(Clone, Copy, Debug, PartialEq, Eq, Structural)]
pub enum HandshakeEvent {
    /// The transport established the connection, with its direction.
    ConnectionEstablished(Origin),
    /// The outbound substream finished negotiating.
    OutboundNegotiated,
    /// The inbound substream finished negotiating.
    InboundNegotiated,
    /// The upgrade failed.
    UpgradeError(UpgradeErrorKind),
    /// The remote side closed the stream.
    RemoteEof,
    /// Writing to the stream failed.
    SendError,
}

/// What the handler asks of the runtime after an event.
#[derive(Clone, Copy, Debug, PartialEq, Eq, Structural)]
pub enum HandshakeAction {
    Nothing,
    /// Open an outbound substream and send the upgrade request.
    RequestOutboundSubstream,
    EmitUpgradeCompleted,
    EmitUpgradeError(UpgradeErrorKind),
    EmitConnectionDropped,
}

/// The handshake's transitions: only the dialer sends the upgrade request,
/// the dialee waits for it; either reaches `Established` on its own
/// negotiated substream; an upgrade error ends the connection from anywhere;
/// an established stream that fails is dropped. Any other event changes nothing.
pub open spec fn spec_step(s: HandshakeState, e: HandshakeEvent) -> (HandshakeState, HandshakeAction) {
    match (s, e) {
        (_, HandshakeEvent::UpgradeError(k)) => (
            HandshakeState::Terminal,
            HandshakeAction::EmitUpgradeError(k),
        ),
        (HandshakeState::New, HandshakeEvent::ConnectionEstablished(Origin::Outbound)) => (
            HandshakeState::SendingRequest,
            HandshakeAction::RequestOutboundSubstream,
        ),
        (HandshakeState::New, HandshakeEvent::ConnectionEstablished(Origin::Inbound)) => (
            HandshakeState::AwaitingRequest,
            HandshakeAction::Nothing,
        ),
        (HandshakeState::SendingRequest, HandshakeEvent::OutboundNegotiated) => (
            HandshakeState::Established,
            HandshakeAction::EmitUpgradeCompleted,
        ),
        (HandshakeState::AwaitingRequest, HandshakeEvent::InboundNegotiated) => (
            HandshakeState::Established,
            HandshakeAction::EmitUpgradeCompleted,
        ),
        (HandshakeState::Established, HandshakeEvent::RemoteEof) => (
            HandshakeState::Closing,
            HandshakeAction::EmitConnectionDropped,
        ),
        (HandshakeState::Established, HandshakeEvent::SendError) => (
            HandshakeState::Closing,
            HandshakeAction::EmitConnectionDropped,
        ),
        _ => (s, HandshakeAction::Nothing),
    }
}

/// One step of the handshake.
pub fn step(s: HandshakeState, e: HandshakeEvent) -> (r: (HandshakeState, HandshakeAction))
    ensures
        r == spec_step(s, e),
{
    match (s, e) {
        (_, HandshakeEvent::UpgradeError(k)) => (
            HandshakeState::Terminal,
            HandshakeAction::EmitUpgradeError(k),
        ),
        (HandshakeState::New, HandshakeEvent::ConnectionEstablished(Origin::Outbound)) => (
            HandshakeState::SendingRequest,
            HandshakeAction::RequestOutboundSubstream,
        ),
        (HandshakeState::New, HandshakeEvent::ConnectionEstablished(Origin::Inbound)) => (
            HandshakeState::AwaitingRequest,
            HandshakeAction::Nothing,
        ),
        (HandshakeState::SendingRequest, HandshakeEvent::OutboundNegotiated) => (
            HandshakeState::Established,
            HandshakeAction::EmitUpgradeCompleted,
        ),
        (HandshakeState::AwaitingRequest, HandshakeEvent::InboundNegotiated) => (
            HandshakeState::Established,
            HandshakeAction::EmitUpgradeCompleted,
        ),
        (HandshakeState::Established, HandshakeEvent::RemoteEof) => (
            HandshakeState::Closing,
            HandshakeAction::EmitConnectionDropped,
        ),
        (HandshakeState::Established, HandshakeEvent::SendError) => (
            HandshakeState::Closing,
            HandshakeAction::EmitConnectionDropped,
        ),
        _ => (s, HandshakeAction::Nothing),
    }
}

/// The state after `es` from `s`, and how many upgrade requests were issued.
pub open spec fn run(s: HandshakeState, es: Seq<HandshakeEvent>) -> (HandshakeState, nat)
    decreases es.len(),
{
    if es.len() == 0 {
        (s, 0)
    } else {
        let (s1, n1) = run(s, es.drop_last());
        let (s2, a) = spec_step(s1, es.last());
        (s2, if a == HandshakeAction::RequestOutboundSubstream {
            n1 + 1
        } else {
            n1
        })
    }
}

/// Whether every connection event in `es` is inbound.
pub open spec fn all_inbound(es: Seq<HandshakeEvent>) -> bool {
    forall|j: int|
        0 <= j < es.len() ==> #[trigger] es[j] != HandshakeEvent::ConnectionEstablished(Origin::Outbound)
}

/// Over any run of a connection, the upgrade request is issued at most once,
/// and only from a fresh connection; a connection that is only ever inbound
/// never issues it.
pub proof fn lemma_request_at_most_once(es: Seq<HandshakeEvent>)
    ensures
        run(HandshakeState::New, es).1 <= 1,
        run(HandshakeState::New, es).0 == HandshakeState::New ==> run(HandshakeState::New, es).1 == 0,
        all_inbound(es) ==> run(HandshakeState::New, es).1 == 0,
    decreases es.len(),
{
    if es.len() > 0 {
        let init = es.drop_last();
        lemma_request_at_most_once(init);
        if all_inbound(es) {
            assert(all_inbound(init)) by {
                assert forall|j: int| 0 <= j < init.len() implies #[trigger] init[j]
                    != HandshakeEvent::ConnectionEstablished(Origin::Outbound) by {
                    assert(init[j] == es[j]);
                }
            }
            assert(es.last() == es[es.len() - 1]);
        }
    }
}

/// A dialer that negotiates its outbound substream, and a dialee that
/// negotiates its inbound one, both reach `Established`, the dialer having
/// issued exactly one upgrade request and the dialee none.
pub proof fn lemma_peering_establishes()
    ensures
        run(
            HandshakeState::New,
            seq![
                HandshakeEvent::ConnectionEstablished(Origin::Outbound),
                HandshakeEvent::OutboundNegotiated,
            ],
        ) == (HandshakeState::Established, 1nat),
        run(
            HandshakeState::New,
            seq![
                HandshakeEvent::ConnectionEstablished(Origin::Inbound),
                HandshakeEvent::InboundNegotiated,
            ],
        ) == (HandshakeState::Established, 0nat),
{
    let o = seq![
        HandshakeEvent::ConnectionEstablished(Origin::Outbound),
        HandshakeEvent::OutboundNegotiated,
    ];
    let i = seq![
        HandshakeEvent::ConnectionEstablished(Origin::Inbound),
        HandshakeEvent::InboundNegotiated,
    ];
    assert(o.drop_last().drop_last() =~= Seq::<HandshakeEvent>::empty());
    assert(i.drop_last().drop_last() =~= Seq::<HandshakeEvent>::empty());
    assert(o.drop_last().last() == HandshakeEvent::ConnectionEstablished(Origin::Outbound));
    assert(i.drop_last().last() == HandshakeEvent::ConnectionEstablished(Origin::Inbound));
    assert(run(HandshakeState::New, o.drop_last().drop_last()) == (HandshakeState::New, 0nat));
    assert(run(HandshakeState::New, i.drop_last().drop_last()) == (HandshakeState::New, 0nat));
    assert(o.drop_last().len() == 1);
    assert(run(HandshakeState::New, o.drop_last()) == (HandshakeState::SendingRequest, 1nat));
    assert(run(HandshakeState::New, i.drop_last()) == (HandshakeState::AwaitingRequest, 0nat));
}

/// The per-connection handler of the gossip protocol.
pub struct GossipProtocolHandler {
    info: IotaGossipInfo,
    inbound_index: usize,
    outbound_index: usize,
    state: HandshakeState,
}

impl GossipProtocolHandler {
    pub fn new(inbound_index: usize, outbound_index: usize, info: IotaGossipInfo) -> (r: GossipProtocolHandler)
        ensures
            r.state() == HandshakeState::New,
            r.protocol_name_view() == info.protocol_name_view(),
    {
        GossipProtocolHandler { info, inbound_index, outbound_index, state: HandshakeState::New }
    }

    pub closed spec fn state(&self) -> HandshakeState {
        self.state
    }

    pub fn current_state(&self) -> (r: HandshakeState)
        ensures
            r == self.state(),
    {
        self.state
    }

    pub closed spec fn protocol_name_view(&self) -> Seq<u8> {
        self.info.protocol_name_view()
    }

    pub fn info(&self) -> (r: &IotaGossipInfo)
        ensures
            r.protocol_name_view() == self.protocol_name_view(),
    {
        &self.info
    }

    /// Feeds one event to the handler; returns what the runtime must do.
    pub fn handle(&mut self, event: HandshakeEvent) -> (r: HandshakeAction)
        ensures
            (final(self).state(), r) == spec_step(old(self).state(), event),
    {
        let (next, action) = step(self.state, event);
        self.state = next;
        action
    }
}

} // verus!
