//! The worker: sole owner of the protocol state. It applies the service's commands in
//! the order they were submitted and the multiplexer's events one at a time, and says
//! what the surrounding event loop must do next.
use crate::behaviour::{BehaviourOut, DhtEvent, IdentifyInfo};
use crate::config::{
    not_local, check_duplicate_bootnodes, conflicting, ensure_addresses_consistent_with_transport,
    filter_local, foreign_addresses, without_local, Error, MultiaddrWithPeerId,
    NotificationConfig, PeerSetConfig, TransportConfig,
};
use crate::notifications::{NotificationSinks, SinkHandle, StreamOpening};
use crate::peer::{Direction, Multiaddr, PeerId, Protocol, contains_peer, distinct_peers, position, lemma_push_peer, lemma_remove_peer};
use crate::peer_store::{saturating_add, PeerStore, ReputationChange};
use crate::protocol_controller::{ControllerAction, ProtocolController, SetConfig, SetId};
use crate::request_responses::{
    distinct_names, IfDisconnected, InboundFailure, Offer, OutboundFailure, ProtocolConfig, RegisterError,
    RequestFailure, RequestResponses, RequestStart, ResponseFailure,
};
use crate::service::{MsgView, NetworkService, ServiceToWorkerMsg};
use vstd::prelude::*;

verus! {

/// Most addresses of a peer's identification that are kept.
pub const MAX_IDENTIFY_ADDRESSES: usize = 30;

/// Buffered notifications per sink before senders must wait.
pub const NOTIFICATION_BUFFER: usize = 1024;

/// How a connection was made.
#[derive(Debug)]
pub enum ConnectedPoint {
    /// We dialed this address.
    Dialer { address: Multiaddr },
    /// The remote dialed us.
    Listener { local_addr: Multiaddr, send_back_addr: Multiaddr },
}

/// Failure of a connection handler.
#[derive(Clone, Copy, Debug, PartialEq, Eq, Structural)]
pub enum HandlerError {
    /// The peer stopped answering pings.
    PingTimeout,
    /// The peer does not read the sync notifications fast enough.
    SyncNotificationsClogged,
    /// Another protocol failed.
    Other,
}

/// Why a connection closed on error.
#[derive(Clone, Copy, Debug, PartialEq, Eq, Structural)]
pub enum ConnectionError {
    /// Transport error.
    Io,
    /// A handler failed.
    Handler(HandlerError),
    /// Nothing kept the connection alive.
    KeepAliveTimeout,
}

/// Why a dial failed.
#[derive(Debug)]
pub enum DialError {
    /// A connection limit or another policy refused it.
    Denied { limit_reached: bool },
    /// The connection limit was reached.
    ConnectionLimit,
    /// The address holds an invalid identity.
    InvalidPeerId,
    /// The peer answered with another identity than expected.
    WrongPeerId { obtained: PeerId, endpoint: ConnectedPoint },
    /// The dialed identity is the local one.
    LocalPeerId,
    /// The transport failed.
    Transport,
    /// The peer is banned.
    Banned,
    /// No address is known for the peer.
    NoAddresses,
    /// The dial condition did not hold.
    DialPeerConditionFalse,
    /// The dial was aborted.
    Aborted,
}

/// Why an incoming connection failed.
#[derive(Clone, Copy, Debug, PartialEq, Eq, Structural)]
pub enum ListenError {
    /// A connection limit or another policy refused it.
    Denied { limit_reached: bool },
    /// The connection limit was reached.
    ConnectionLimit,
    /// The peer answered with another identity than expected.
    WrongPeerId,
    /// The remote has the local identity.
    LocalPeerId,
    /// The transport failed.
    Transport,
    /// The connection was aborted.
    Aborted,
}

/// Events of the connection multiplexer.
#[derive(Debug)]
pub enum SwarmEvent {
    /// An event of the composite behaviour.
    Behaviour(BehaviourOut),
    /// A notification substream with a peer opened.
    SubstreamOpened {
        remote: PeerId,
        set_id: SetId,
        direction: Direction,
        negotiated_fallback: Option<String>,
        received_handshake: Vec<u8>,
    },
    /// The notification substream with a peer closed.
    SubstreamClosed { remote: PeerId, set_id: SetId },
    /// A peer asks to open a substream on a set.
    IncomingSubstream { remote: PeerId, set_id: SetId, index: u64 },
    /// The transport completed an outbound request, with the index of the offer taken.
    RequestOutcome { id: u64, outcome: Result<(usize, Vec<u8>), OutboundFailure>, duration: u64 },
    /// A connection was established; `num_established` counts the peer's connections now.
    ConnectionEstablished { peer_id: PeerId, endpoint: ConnectedPoint, num_established: u32 },
    /// A connection closed; `num_established` counts the peer's remaining connections.
    ConnectionClosed { peer_id: PeerId, endpoint: ConnectedPoint, num_established: u32, cause: Option<ConnectionError> },
    /// A remote is connecting.
    IncomingConnection { local_addr: Multiaddr, send_back_addr: Multiaddr },
    /// An incoming connection failed.
    IncomingConnectionError { local_addr: Multiaddr, send_back_addr: Multiaddr, error: ListenError },
    /// A dial failed.
    OutgoingConnectionError { peer_id: Option<PeerId>, error: DialError },
    /// A banned peer connected.
    BannedPeer { peer_id: PeerId, endpoint: ConnectedPoint },
    /// The node listens on a new address.
    NewListenAddr { address: Multiaddr },
    /// The node no longer listens on an address.
    ExpiredListenAddr { address: Multiaddr },
    /// A listener closed.
    ListenerClosed { addresses: Vec<Multiaddr>, reason: Result<(), String> },
    /// A listener failed.
    ListenerError { error: String },
    /// A dial started.
    Dialing(PeerId),
}

/// An event for the subscribers of the service.
#[derive(Clone, Debug)]
pub enum Event {
    /// Outcome of a DHT query.
    Dht(DhtEvent),
    /// A notification substream opened.
    NotificationStreamOpened {
        remote: PeerId,
        set_id: SetId,
        direction: Direction,
        negotiated_fallback: Option<String>,
        received_handshake: Vec<u8>,
        sink: SinkHandle,
    },
    /// The sink of a peer on a set was replaced.
    NotificationStreamReplaced { remote: PeerId, set_id: SetId, sink: SinkHandle },
    /// A notification substream closed.
    NotificationStreamClosed { remote: PeerId, set_id: SetId },
    /// A notification came in.
    NotificationsReceived { remote: PeerId, set_id: SetId, notification: Vec<u8> },
}

/// A measurement for the metrics registry. Durations are in milliseconds.
#[derive(Debug)]
pub enum MetricEvent {
    RequestInSuccess { protocol: String, serve_time: u64 },
    RequestInFailure { protocol: String, reason: &'static str },
    RequestOutSuccess { protocol: String, duration: u64 },
    RequestOutFailure { protocol: String, reason: &'static str },
    KademliaRandomQuery,
    KademliaQuery { query_type: &'static str, duration: u64 },
    ConnectionOpened { direction: &'static str, first_with_peer: bool },
    ConnectionClosed { direction: &'static str, reason: &'static str, last_with_peer: bool },
    ListenAddressAdded,
    ListenAddressesRemoved(u64),
    PendingConnectionError { reason: &'static str },
    IncomingConnection,
    IncomingConnectionError { reason: &'static str },
    ListenerError,
}

/// High-level network status.
#[derive(Clone, Copy, Debug, PartialEq, Eq, Structural)]
pub struct NetworkStatus {
    /// Peers with at least one connection.
    pub num_connected_peers: usize,
    /// Bytes received.
    pub total_bytes_inbound: u64,
    /// Bytes sent.
    pub total_bytes_outbound: u64,
}

/// A connected peer and the addresses known for it.
#[derive(Clone, Debug)]
pub struct PeerEntry {
    pub peer_id: PeerId,
    pub known_addresses: Vec<Multiaddr>,
}

/// Snapshot of the network for debugging.
#[derive(Clone, Debug)]
pub struct NetworkState {
    pub peer_id: PeerId,
    pub listened_addresses: Vec<Multiaddr>,
    pub connected_peers: Vec<PeerEntry>,
}

/// What the worker asks the event loop to do.
#[derive(Debug)]
pub enum WorkerOutput {
    /// Carry out an admission decision of a peer-set.
    Controller(SetId, ControllerAction),
    /// Dial a peer.
    Dial(PeerId),
    /// Offer a request to a peer, protocol by protocol.
    SendRequest { id: u64, peer: PeerId, offers: Vec<Offer> },
    /// The answer to the request queued under `token`.
    RequestResolved { token: u64, result: Result<(Vec<u8>, String), RequestFailure> },
    /// The status asked for under `token`.
    Status { token: u64, status: NetworkStatus },
    /// The state asked for under `token`.
    State { token: u64, state: NetworkState },
    /// Look a key up in the DHT.
    DhtGet(Vec<u8>),
    /// Store a record in the DHT.
    DhtPut(Vec<u8>, Vec<u8>),
    /// Close the substream with the peer on the protocol.
    Disconnect(PeerId, String),
    /// Publish an event to the subscribers.
    Publish(Event),
    /// Record a measurement.
    Metric(MetricEvent),
    /// A bootnode answered with another identity than configured.
    InvalidBootNode { address: Multiaddr, expected: PeerId, obtained: PeerId },
}

/// Everything the worker is built from.
#[derive(Debug)]
pub struct Params {
    /// Identity of the local node.
    pub local_peer_id: PeerId,
    /// Nodes to connect to at startup.
    pub boot_nodes: Vec<MultiaddrWithPeerId>,
    /// Name of the block-announce protocol, whose set is the default one.
    pub block_announce_protocol: String,
    /// Configuration of the default set.
    pub default_peers_set: PeerSetConfig,
    /// The other notification protocols, with their sets.
    pub notification_protocols: Vec<NotificationConfig>,
    /// The request-response protocols.
    pub request_response_protocols: Vec<ProtocolConfig>,
    /// Addresses to listen on.
    pub listen_addresses: Vec<Multiaddr>,
    /// Addresses to announce.
    pub public_addresses: Vec<Multiaddr>,
    /// Transports to use.
    pub transport: TransportConfig,
}

/// Metric label of an outbound request failure.
pub open spec fn request_failure_label(f: RequestFailure) -> &'static str {
    match f {
        RequestFailure::NotConnected => "not-connected",
        RequestFailure::UnknownProtocol => "unknown-protocol",
        RequestFailure::Refused => "refused",
        RequestFailure::Obsolete => "obsolete",
        RequestFailure::IdentifiersExhausted => "identifiers-exhausted",
        RequestFailure::Network(OutboundFailure::DialFailure) => "dial-failure",
        RequestFailure::Network(OutboundFailure::Timeout) => "timeout",
        RequestFailure::Network(OutboundFailure::ConnectionClosed) => "connection-closed",
        RequestFailure::Network(OutboundFailure::UnsupportedProtocols) => "unsupported",
    }
}

/// Metric label of an outbound request failure.
pub fn request_failure_reason(f: RequestFailure) -> (r: &'static str)
    ensures
        r == request_failure_label(f),
{
    match f {
        RequestFailure::NotConnected => "not-connected",
        RequestFailure::UnknownProtocol => "unknown-protocol",
        RequestFailure::Refused => "refused",
        RequestFailure::Obsolete => "obsolete",
        RequestFailure::IdentifiersExhausted => "identifiers-exhausted",
        RequestFailure::Network(OutboundFailure::DialFailure) => "dial-failure",
        RequestFailure::Network(OutboundFailure::Timeout) => "timeout",
        RequestFailure::Network(OutboundFailure::ConnectionClosed) => "connection-closed",
        RequestFailure::Network(OutboundFailure::UnsupportedProtocols) => "unsupported",
    }
}

/// Metric label of an inbound request failure; unsupported protocols are expected
/// noise and get none.
pub fn inbound_failure_reason(f: ResponseFailure) -> (r: Option<&'static str>)
    ensures
        f == ResponseFailure::Network(InboundFailure::UnsupportedProtocols) <==> r is None,
        f == ResponseFailure::Network(InboundFailure::Timeout) ==> r == Some("timeout"),
        f == ResponseFailure::Network(InboundFailure::ResponseOmission) ==> r == Some("busy-omitted"),
        f == ResponseFailure::Network(InboundFailure::ConnectionClosed) ==> r == Some("connection-closed"),
{
    match f {
        ResponseFailure::Network(InboundFailure::Timeout) => Some("timeout"),
        ResponseFailure::Network(InboundFailure::UnsupportedProtocols) => None,
        ResponseFailure::Network(InboundFailure::ResponseOmission) => Some("busy-omitted"),
        ResponseFailure::Network(InboundFailure::ConnectionClosed) => Some("connection-closed"),
    }
}

/// Metric label of a DHT query outcome.
pub fn dht_query_type(e: &DhtEvent) -> (r: &'static str)
    ensures
        e is ValueFound ==> r == "value-found",
        e is ValueNotFound ==> r == "value-not-found",
        e is ValuePut ==> r == "value-put",
        e is ValuePutFailed ==> r == "value-put-failed",
{
    match e {
        DhtEvent::ValueFound(_) => "value-found",
        DhtEvent::ValueNotFound(_) => "value-not-found",
        DhtEvent::ValuePut(_) => "value-put",
        DhtEvent::ValuePutFailed(_) => "value-put-failed",
    }
}

/// Metric label of the direction of a connection.
pub fn endpoint_direction(e: &ConnectedPoint) -> (r: &'static str)
    ensures
        e is Dialer ==> r == "out",
        e is Listener ==> r == "in",
{
    match e {
        ConnectedPoint::Dialer { .. } => "out",
        ConnectedPoint::Listener { .. } => "in",
    }
}

/// Metric label of why a connection closed.
pub fn connection_closed_reason(cause: Option<ConnectionError>) -> (r: &'static str)
    ensures
        cause is None ==> r == "actively-closed",
        cause == Some(ConnectionError::Io) ==> r == "transport-error",
        cause == Some(ConnectionError::Handler(HandlerError::PingTimeout)) ==> r == "ping-timeout",
        cause == Some(ConnectionError::Handler(HandlerError::SyncNotificationsClogged)) ==> r
            == "sync-notifications-clogged",
        cause == Some(ConnectionError::Handler(HandlerError::Other)) ==> r == "protocol-error",
        cause == Some(ConnectionError::KeepAliveTimeout) ==> r == "keep-alive-timeout",
{
    match cause {
        None => "actively-closed",
        Some(ConnectionError::Io) => "transport-error",
        Some(ConnectionError::Handler(HandlerError::PingTimeout)) => "ping-timeout",
        Some(ConnectionError::Handler(HandlerError::SyncNotificationsClogged)) => "sync-notifications-clogged",
        Some(ConnectionError::Handler(HandlerError::Other)) => "protocol-error",
        Some(ConnectionError::KeepAliveTimeout) => "keep-alive-timeout",
    }
}

/// Metric label of a failed dial; the ordinary outcomes get none.
pub fn dial_error_reason(e: &DialError) -> (r: Option<&'static str>)
    ensures
        match e {
            DialError::Denied { limit_reached } => if *limit_reached {
                r == Some("limit-reached")
            } else {
                r is None
            },
            DialError::ConnectionLimit => r == Some("limit-reached"),
            DialError::InvalidPeerId | DialError::WrongPeerId { .. } | DialError::LocalPeerId => r == Some(
                "invalid-peer-id",
            ),
            DialError::Transport => r == Some("transport-error"),
            _ => r is None,
        },
{
    match e {
        DialError::Denied { limit_reached } => if *limit_reached {
            Some("limit-reached")
        } else {
            None
        },
        DialError::ConnectionLimit => Some("limit-reached"),
        DialError::InvalidPeerId | DialError::WrongPeerId { .. } | DialError::LocalPeerId => Some(
            "invalid-peer-id",
        ),
        DialError::Transport => Some("transport-error"),
        DialError::Banned | DialError::NoAddresses | DialError::DialPeerConditionFalse
        | DialError::Aborted => None,
    }
}

/// Metric label of a failed incoming connection; an aborted one gets none.
pub fn listen_error_reason(e: ListenError) -> (r: Option<&'static str>)
    ensures
        match e {
            ListenError::Denied { limit_reached } => if limit_reached {
                r == Some("limit-reached")
            } else {
                r is None
            },
            ListenError::ConnectionLimit => r == Some("limit-reached"),
            ListenError::WrongPeerId | ListenError::LocalPeerId => r == Some("invalid-peer-id"),
            ListenError::Transport => r == Some("transport-error"),
            ListenError::Aborted => r is None,
        },
{
    match e {
        ListenError::Denied { limit_reached } => if limit_reached {
            Some("limit-reached")
        } else {
            None
        },
        ListenError::ConnectionLimit => Some("limit-reached"),
        ListenError::WrongPeerId | ListenError::LocalPeerId => Some("invalid-peer-id"),
        ListenError::Transport => Some("transport-error"),
        ListenError::Aborted => None,
    }
}

/// The address with a trailing peer identity removed, if it has one.
pub fn address_without_peer_id(a: &Multiaddr) -> (r: Multiaddr)
    ensures
        a@.len() > 0 && a@.last() is P2p ==> r@ == a@.drop_last(),
        !(a@.len() > 0 && a@.last() is P2p) ==> r@ == a@,
{
    let n = a.components.len();
    if n > 0 {
        assert(a@.last() == a.components@[n - 1]@);
        if let Protocol::P2p(_) = &a.components[n - 1] {
            let mut rest: Vec<Protocol> = Vec::new();
            let mut i: usize = 0;
            while i + 1 < n
                invariant
                    n == a.components@.len(),
                    n > 0,
                    i + 1 <= n,
                    rest@.len() == i,
                    forall|j: int| 0 <= j < i ==> rest@[j]@ == a.components@[j]@,
                decreases n - i,
            {
                rest.push(a.components[i].duplicate());
                i = i + 1;
            }
            let r = Multiaddr { components: rest };
            assert(r@ =~= a@.drop_last());
            return r;
        }
    }
    a.duplicate()
}

/// Reputation after applying `changes` in order, starting from `rep`.
pub open spec fn apply_changes(rep: i32, changes: Seq<ReputationChange>) -> i32
    decreases changes.len(),
{
    if changes.len() == 0 {
        rep
    } else {
        saturating_add(apply_changes(rep, changes.drop_last()), changes.last().value)
    }
}

/// Whether `(peer, addr)` is in the address book.
pub open spec fn in_book(book: Seq<(PeerId, Multiaddr)>, peer: (u64, Seq<u8>), addr: Seq<crate::peer::ProtocolView>) -> bool {
    exists|i: int| 0 <= i < book.len() && (#[trigger] book[i]).0@ == peer && book[i].1@ == addr
}

/// Whether one of `s` is the address `a`.
pub open spec fn seq_has_addr(s: Seq<Multiaddr>, a: Seq<crate::peer::ProtocolView>) -> bool {
    exists|k: int| 0 <= k < s.len() && (#[trigger] s[k])@ == a
}

/// The event that reports a new substream with `remote` on `set_id`, given the sinks
/// before it opened: a replacement if the peer had a live sink there, an opening otherwise.
/// The new sink's handle is the position after the existing sinks.
pub open spec fn opening_event(
    sinks: Seq<crate::notifications::SinkView>,
    remote: PeerId,
    set_id: SetId,
    direction: Direction,
    negotiated_fallback: Option<String>,
    received_handshake: Vec<u8>,
) -> Event {
    let sink = SinkHandle { id: sinks.len() as usize };
    if crate::notifications::active_sink(sinks, remote@, set_id) is Some {
        Event::NotificationStreamReplaced { remote, set_id, sink }
    } else {
        Event::NotificationStreamOpened { remote, set_id, direction, negotiated_fallback, received_handshake, sink }
    }
}

/// The addresses of an identification that are kept: the first thirty.
pub open spec fn identify_kept(addrs: Seq<Multiaddr>) -> Seq<Multiaddr> {
    if addrs.len() <= MAX_IDENTIFY_ADDRESSES {
        addrs
    } else {
        addrs.take(MAX_IDENTIFY_ADDRESSES as int)
    }
}

/// One command `m` applied to `w0` gives `w1` and the outputs `out`.
pub open spec fn message_applied(w0: NetworkWorker, m: MsgView, w1: NetworkWorker, out: Seq<WorkerOutput>) -> bool {
    &&& w1.wf()
    &&& w1.applied_commands() == w0.applied_commands().push(m)
    &&& w1.local() == w0.local()
    &&& w1.num_sets() == w0.num_sets()
    &&& w1.sink_states() == w0.sink_states()
    &&& w1.same_listen(&w0)
    &&& match m {
        MsgView::GetValue(k) => out.len() == 1 && out[0] is DhtGet && out[0]->DhtGet_0@ == k && w1.same_state(&w0),
        MsgView::PutValue(k, v) => out.len() == 1 && out[0] is DhtPut && out[0]->DhtPut_0@ == k && out[0]->DhtPut_1@
            == v && w1.same_state(&w0),
        MsgView::AddKnownAddress(p, a) => out.len() == 0 && w1.same_sets(&w0) && w1.same_peers(&w0) && forall|
            q: (u64, Seq<u8>),
            b: Seq<crate::peer::ProtocolView>,
        | #[trigger] w1.knows_address(q, b) == (w0.knows_address(q, b) || (q == p && b == a && p != w0.local())),
        MsgView::EventStream => out.len() == 0 && w1.same_state(&w0),
        MsgView::Request { token, target, protocol, connect, .. } => w1.same_state(&w0) && (!w0.registered(protocol)
            ==> out == seq![WorkerOutput::RequestResolved { token, result: Err(RequestFailure::UnknownProtocol) }]) && (
        w0.registered(protocol) && !w0.is_connected(target) && connect == IfDisconnected::ImmediateError ==> out
            == seq![WorkerOutput::RequestResolved { token, result: Err(RequestFailure::NotConnected) }]) && (
        w0.registered(protocol) && (w0.is_connected(target) || connect == IfDisconnected::TryConnect)
            && w0.request_ids_exhausted() ==> out == seq![
            WorkerOutput::RequestResolved { token, result: Err(RequestFailure::IdentifiersExhausted) },
        ]) && (w0.registered(protocol) && w0.is_connected(target) && !w0.request_ids_exhausted() ==> out.len() == 1
            && out[0] is SendRequest && out[0]->SendRequest_peer@ == target) && (w0.registered(protocol)
            && !w0.is_connected(target) && connect == IfDisconnected::TryConnect && !w0.request_ids_exhausted() ==> out.len()
            == 2 && out[0] is Dial && out[0]->Dial_0@ == target && out[1] is SendRequest && out[1]->SendRequest_peer@
            == target),
        MsgView::NetworkStatus { token } => out.len() == 1 && out[0] is Status && out[0]->Status_token == token
            && out[0]->Status_status.num_connected_peers == w0.num_connected() && w1.same_state(&w0),
        MsgView::NetworkState { token } => out.len() == 1 && out[0] is State && out[0]->State_token == token
            && out[0]->State_state.connected_peers@.len() == w0.num_connected() && out[0]->State_state.peer_id@ == w0.local()
            && w1.same_state(&w0),
        MsgView::DisconnectPeer(p, n) => out.len() == 1 && out[0] is Disconnect && out[0]->Disconnect_0@ == p
            && out[0]->Disconnect_1@ == n && w1.same_state(&w0),
        MsgView::ReportPeer(p, v) => out.len() == 0 && w1.same_sets(&w0) && w1.same_book(&w0) && w1.store().reputation(
            p,
        ) == saturating_add(w0.store().reputation(p), v) && (forall|q: (u64, Seq<u8>)|
            q != p ==> #[trigger] w1.store().reputation(q) == w0.store().reputation(q)) && w1.num_connected()
            == w0.num_connected() && (forall|q: (u64, Seq<u8>)| #[trigger] w1.is_connected(q) == w0.is_connected(q)),
        MsgView::SetReservedPeers { set_id, peers } => set_update(w0, w1, out, set_id) && (set_id < w0.num_sets()
            && !peers.contains(w0.local()) ==> forall|q: (u64, Seq<u8>)|
            #[trigger] w1.controller(set_id as int).is_reserved(q) == peers.contains(q)) && (set_id >= w0.num_sets()
            || peers.contains(w0.local()) ==> w1.same_sets(&w0) && out.len() == 0),
        MsgView::AddReservedPeer { set_id, peer } => set_update(w0, w1, out, set_id) && (set_id < w0.num_sets() && peer
            != w0.local() ==> w1.controller(set_id as int).is_reserved(peer)) && (set_id >= w0.num_sets() || peer
            == w0.local() ==> w1.same_sets(&w0) && out.len() == 0),
        MsgView::RemoveReservedPeer { set_id, peer } => set_update(w0, w1, out, set_id) && (set_id < w0.num_sets()
            ==> !w1.controller(set_id as int).is_reserved(peer)) && (set_id >= w0.num_sets() ==> w1.same_sets(&w0)
            && out.len() == 0),
        MsgView::SetReservedOnly { set_id, reserved_only } => set_update(w0, w1, out, set_id) && (set_id
            < w0.num_sets() ==> w1.controller(set_id as int).only_reserved() == reserved_only) && (set_id >= w0.num_sets()
            ==> w1.same_sets(&w0) && out.len() == 0),
    }
}

/// A command about the set `set_id` changes no other set, nor the peers or the address
/// book, and every output is an admission decision of that set.
pub open spec fn set_update(w0: NetworkWorker, w1: NetworkWorker, out: Seq<WorkerOutput>, set_id: SetId) -> bool {
    &&& w1.same_peers(&w0)
    &&& w1.same_book(&w0)
    &&& forall|s: int| 0 <= s < w0.num_sets() && s != set_id ==> #[trigger] w1.controller(s) == w0.controller(s)
    &&& forall|i: int| 0 <= i < out.len() ==> (#[trigger] out[i]) is Controller && out[i]->Controller_0 == set_id
}

/// The protocol state the worker owns.
pub struct NetworkWorker {
    local_peer_id: PeerId,
    controllers: Vec<ProtocolController>,
    peer_store: PeerStore,
    sinks: NotificationSinks,
    requests: RequestResponses,
    request_tokens: Vec<(u64, u64)>,
    notification_protocols: Vec<String>,
    known_addresses: Vec<(PeerId, Multiaddr)>,
    connected: Vec<PeerId>,
    listen_addresses: Vec<Multiaddr>,
    boot_nodes: Vec<MultiaddrWithPeerId>,
    reported_invalid_boot_nodes: Vec<PeerId>,
    event_streams: u64,
    total_bytes_inbound: u64,
    total_bytes_outbound: u64,
    applied: Ghost<Seq<MsgView>>,
}

impl NetworkWorker {
    /// The parts agree with each other.
    pub closed spec fn wf(&self) -> bool {
        &&& forall|i: int| 0 <= i < self.controllers@.len() ==> (#[trigger] self.controllers@[i]).wf()
            && self.controllers@[i].set() == i
        &&& self.peer_store.wf()
        &&& self.sinks.wf()
        &&& self.requests.wf()
        &&& distinct_peers(self.connected@)
        &&& forall|i: int| 0 <= i < self.controllers@.len() ==> !(#[trigger] self.controllers@[i]).is_reserved(self.local_peer_id@)
        &&& forall|i: int| 0 <= i < self.known_addresses@.len() ==> (#[trigger] self.known_addresses@[i]).0@ != self.local_peer_id@
        &&& forall|i: int, j: int|
            0 <= i < self.listen_addresses@.len() && 0 <= j < self.listen_addresses@.len() && i != j ==> (
            #[trigger] self.listen_addresses@[i])@ != (#[trigger] self.listen_addresses@[j])@
    }

    /// Identity of the local node.
    pub closed spec fn local(&self) -> (u64, Seq<u8>) {
        self.local_peer_id@
    }

    /// The commands applied so far, oldest first.
    pub closed spec fn applied_commands(&self) -> Seq<MsgView> {
        self.applied@
    }

    /// Number of peer-sets.
    pub closed spec fn num_sets(&self) -> nat {
        self.controllers@.len()
    }

    /// The controller of a set.
    pub closed spec fn controller(&self, set_id: int) -> ProtocolController {
        self.controllers@[set_id]
    }

    /// The peer store.
    pub closed spec fn store(&self) -> PeerStore {
        self.peer_store
    }

    /// Whether the peer has a connection.
    pub closed spec fn is_connected(&self, p: (u64, Seq<u8>)) -> bool {
        contains_peer(self.connected@, p)
    }

    /// The connected peers, in the order they connected.
    pub closed spec fn connected_list(&self) -> Seq<PeerId> {
        self.connected@
    }

    /// Peers with at least one connection.
    pub closed spec fn num_connected(&self) -> nat {
        self.connected@.len()
    }

    /// Whether the address book holds the address for the peer.
    pub closed spec fn knows_address(&self, p: (u64, Seq<u8>), a: Seq<crate::peer::ProtocolView>) -> bool {
        in_book(self.known_addresses@, p, a)
    }

    /// Whether the node listens on the address.
    pub closed spec fn listening(&self, a: Seq<crate::peer::ProtocolView>) -> bool {
        seq_has_addr(self.listen_addresses@, a)
    }

    /// The sinks of the notification substreams.
    pub closed spec fn sink_states(&self) -> Seq<crate::notifications::SinkView> {
        self.sinks@
    }

    /// Whether a request-response protocol of this name is registered.
    pub closed spec fn registered(&self, name: Seq<char>) -> bool {
        self.requests.names().contains(name)
    }

    /// Whether no identifier is left for a new request.
    pub closed spec fn request_ids_exhausted(&self) -> bool {
        self.requests.exhausted()
    }

    /// Bootnodes already reported for answering with another identity.
    pub closed spec fn reported_boot_node(&self, p: (u64, Seq<u8>)) -> bool {
        contains_peer(self.reported_invalid_boot_nodes@, p)
    }

    /// Every part of the worker but the flagged ones is as in `o`.
    pub closed spec fn unchanged_but(
        &self,
        o: &NetworkWorker,
        store: bool,
        conn: bool,
        book: bool,
        listen: bool,
        sinks: bool,
        sets: bool,
        reqs: bool,
        boots: bool,
    ) -> bool {
        &&& self.local_peer_id == o.local_peer_id
        &&& self.applied == o.applied
        &&& self.notification_protocols == o.notification_protocols
        &&& self.boot_nodes == o.boot_nodes
        &&& self.event_streams == o.event_streams
        &&& self.total_bytes_inbound == o.total_bytes_inbound
        &&& self.total_bytes_outbound == o.total_bytes_outbound
        &&& (store || self.peer_store == o.peer_store)
        &&& (conn || self.connected == o.connected)
        &&& (book || self.known_addresses == o.known_addresses)
        &&& (listen || self.listen_addresses == o.listen_addresses)
        &&& (sinks || self.sinks == o.sinks)
        &&& (sets || self.controllers == o.controllers)
        &&& (reqs || (self.requests == o.requests && self.request_tokens == o.request_tokens))
        &&& (boots || self.reported_invalid_boot_nodes == o.reported_invalid_boot_nodes)
    }

    /// Every set's controller is as in `o`.
    pub open spec fn same_sets(&self, o: &NetworkWorker) -> bool {
        &&& self.num_sets() == o.num_sets()
        &&& forall|s: int| 0 <= s < self.num_sets() ==> #[trigger] self.controller(s) == o.controller(s)
    }

    /// The peer store and the connected peers are as in `o`.
    pub open spec fn same_peers(&self, o: &NetworkWorker) -> bool {
        &&& self.store() == o.store()
        &&& self.num_connected() == o.num_connected()
        &&& forall|q: (u64, Seq<u8>)| #[trigger] self.is_connected(q) == o.is_connected(q)
    }

    /// The address book is as in `o`.
    pub open spec fn same_book(&self, o: &NetworkWorker) -> bool {
        forall|q: (u64, Seq<u8>), b: Seq<crate::peer::ProtocolView>|
            #[trigger] self.knows_address(q, b) == o.knows_address(q, b)
    }

    /// The listen addresses are as in `o`.
    pub open spec fn same_listen(&self, o: &NetworkWorker) -> bool {
        forall|a: Seq<crate::peer::ProtocolView>| #[trigger] self.listening(a) == o.listening(a)
    }

    /// Sets, peers, address book, listen addresses and sinks are as in `o`.
    pub open spec fn same_state(&self, o: &NetworkWorker) -> bool {
        &&& self.same_sets(o)
        &&& self.same_peers(o)
        &&& self.same_book(o)
        &&& self.same_listen(o)
        &&& self.sink_states() == o.sink_states()
    }

    /// Builds the worker and the service from the configuration. The local identity is
    /// dropped from the bootnodes and reserved nodes; addresses the transport cannot use,
    /// bootnodes sharing an address under different identities, and request-response
    /// protocols sharing a name are refused.
    pub fn new(params: Params) -> (r: Result<(NetworkWorker, NetworkService), Error>)
        ensures
            match r {
                Ok((w, s)) => w.wf() && w.applied_commands().len() == 0 && w.num_connected() == 0
                    && w.num_sets() == params.notification_protocols@.len() + 1 && w.local()
                    == params.local_peer_id@ && s.local() == params.local_peer_id@ && s.pending().len() == 0
                    && s.protocols() == seq![params.block_announce_protocol@]
                    + params.notification_protocols@.map_values(|n: NotificationConfig| n.protocol_name@)
                    && built_as_configured(w, &params),
                Err(Error::AddressesForAnotherTransport { transport, .. }) => transport == params.transport
                    && !addresses_accepted(&params),
                Err(Error::DuplicateBootnode { address, first_id, second_id }) => addresses_accepted(&params)
                    && exists|i: int, j: int|
                    0 <= i < boot_without_local(&params).len() && 0 <= j < boot_without_local(&params).len()
                        && conflicting(boot_without_local(&params), i, j) && address@
                        == boot_without_local(&params)[i].multiaddr@ && first_id@ == boot_without_local(
                        &params,
                    )[i].peer_id@ && second_id@ == boot_without_local(&params)[j].peer_id@,
                Err(Error::DuplicateRequestResponseProtocol { protocol }) => addresses_accepted(&params)
                    && bootnodes_accepted(&params) && exists|i: int, j: int|
                    0 <= i < j < params.request_response_protocols@.len()
                        && params.request_response_protocols@[i].name@ == protocol@
                        && params.request_response_protocols@[j].name@ == protocol@,
            },
            r is Ok <==> config_accepted(&params),
    {
        let ghost pc = params;
        let Params {
            local_peer_id,
            boot_nodes,
            block_announce_protocol,
            default_peers_set,
            notification_protocols,
            request_response_protocols,
            listen_addresses,
            public_addresses,
            transport,
        } = params;
        let boot_nodes = filter_local(boot_nodes, &local_peer_id);
        let PeerSetConfig { in_peers, out_peers, reserved_nodes, reserved_only } = default_peers_set;
        let reserved_nodes = filter_local(reserved_nodes, &local_peer_id);
        match ensure_addresses_consistent_with_transport(&listen_addresses, transport) {
            Err(e) => {
                return Err(e);
            },
            Ok(()) => {},
        }
        match ensure_addresses_consistent_with_transport(&addresses_of_nodes(&boot_nodes), transport) {
            Err(e) => {
                return Err(e);
            },
            Ok(()) => {},
        }
        match ensure_addresses_consistent_with_transport(&addresses_of_nodes(&reserved_nodes), transport) {
            Err(e) => {
                return Err(e);
            },
            Ok(()) => {},
        }
        let mut k: usize = 0;
        while k < notification_protocols.len()
            invariant
                pc == params,
                notification_protocols@ == pc.notification_protocols@,
                transport == pc.transport,
                boot_nodes@ == without_local(pc.boot_nodes@, pc.local_peer_id@),
                reserved_nodes@ == without_local(pc.default_peers_set.reserved_nodes@, pc.local_peer_id@),
                foreign_addresses(pc.listen_addresses@.map_values(|a: Multiaddr| a@), pc.transport).len() == 0,
                foreign_addresses(node_addrs(boot_nodes@), pc.transport).len() == 0,
                foreign_addresses(node_addrs(reserved_nodes@), pc.transport).len() == 0,
                k <= notification_protocols@.len(),
                forall|j: int| 0 <= j < k ==> foreign_addresses(
                    node_addrs((#[trigger] notification_protocols@[j]).set_config.reserved_nodes@),
                    transport,
                ).len() == 0,
            decreases notification_protocols@.len() - k,
        {
            let addrs = addresses_of_nodes(&notification_protocols[k].set_config.reserved_nodes);
            let checked = ensure_addresses_consistent_with_transport(&addrs, transport);
            match checked {
                Err(e) => {
                    proof {
                        assert(pc.notification_protocols@[k as int] == notification_protocols@[k as int]);
                        assert(foreign_addresses(
                            node_addrs(pc.notification_protocols@[k as int].set_config.reserved_nodes@),
                            pc.transport,
                        ).len() != 0);
                        assert(!config_accepted(&pc));
                    }
                    return Err(e);
                },
                Ok(()) => {},
            }
            k = k + 1;
        }
        match ensure_addresses_consistent_with_transport(&public_addresses, transport) {
            Err(e) => {
                return Err(e);
            },
            Ok(()) => {},
        }
        proof {
            assert(addresses_accepted(&pc));
        }
        match check_duplicate_bootnodes(&boot_nodes) {
            Err(e) => {
                proof {
                    assert(boot_nodes@ == boot_without_local(&pc));
                }
                return Err(e);
            },
            Ok(()) => {},
        }
        proof {
            assert(bootnodes_accepted(&pc));
        }
        let requests = match RequestResponses::new(request_response_protocols) {
            Ok(rr) => rr,
            Err(RegisterError::DuplicateProtocol(protocol)) => {
                proof {
                    let names = pc.request_response_protocols@.map_values(|c: ProtocolConfig| c.name@);
                    let (i, j) = choose|i: int, j: int|
                        0 <= i < j < pc.request_response_protocols@.len()
                            && pc.request_response_protocols@[i].name@ == protocol@
                            && pc.request_response_protocols@[j].name@ == protocol@;
                    assert(names[i] == names[j]);
                }
                return Err(Error::DuplicateRequestResponseProtocol { protocol });
            },
        };
        let ghost local = local_peer_id@;
        let ghost notif_names = pc.notification_protocols@.map_values(|n: NotificationConfig| n.protocol_name@);
        let mut controllers: Vec<ProtocolController> = Vec::new();
        let mut names: Vec<String> = Vec::new();
        let default_config = SetConfig {
            in_peers,
            out_peers,
            reserved_nodes: peers_of_nodes(&reserved_nodes, &local_peer_id),
            reserved_only,
        };
        controllers.push(ProtocolController::new(0, &default_config));
        names.push(block_announce_protocol);
        let mut known: Vec<(PeerId, Multiaddr)> = Vec::new();
        add_nodes_to_book(&mut known, &reserved_nodes, &local_peer_id);
        proof {
            assert(names@.map_values(|n: String| n@) =~= seq![pc.block_announce_protocol@] + notif_names.take(0));
            assert forall|q: (u64, Seq<u8>)| #[trigger] controllers@[0].is_reserved(q) == node_named(
                pc.default_peers_set.reserved_nodes@,
                q,
                local,
            ) by {
                lemma_without_local_named(pc.default_peers_set.reserved_nodes@, q, local);
            }
            assert forall|i: int| 0 <= i < pc.default_peers_set.reserved_nodes@.len()
                && (#[trigger] pc.default_peers_set.reserved_nodes@[i]).peer_id@ != local implies in_book(
                known@,
                pc.default_peers_set.reserved_nodes@[i].peer_id@,
                pc.default_peers_set.reserved_nodes@[i].multiaddr@,
            ) by {
                lemma_without_local_keeps(pc.default_peers_set.reserved_nodes@, i, local);
            }
        }
        let mut k: usize = 0;
        while k < notification_protocols.len()
            invariant
                notification_protocols@ == pc.notification_protocols@,
                notif_names == pc.notification_protocols@.map_values(|n: NotificationConfig| n.protocol_name@),
                local == local_peer_id@,
                k <= notification_protocols@.len(),
                controllers@.len() == k + 1,
                names@.map_values(|n: String| n@) == seq![pc.block_announce_protocol@] + notif_names.take(k as int),
                forall|i: int| 0 <= i < controllers@.len() ==> (#[trigger] controllers@[i]).wf()
                    && controllers@[i].set() == i && !controllers@[i].is_reserved(local),
                forall|q: (u64, Seq<u8>)| #[trigger] controllers@[0].is_reserved(q) == node_named(
                    pc.default_peers_set.reserved_nodes@,
                    q,
                    local,
                ),
                forall|i: int, q: (u64, Seq<u8>)|
                    1 <= i <= k ==> #[trigger] controllers@[i].is_reserved(q) == node_named(
                        pc.notification_protocols@[i - 1].set_config.reserved_nodes@,
                        q,
                        local,
                    ),
                forall|i: int| 0 <= i < known@.len() ==> (#[trigger] known@[i]).0@ != local,
                forall|i: int| 0 <= i < pc.default_peers_set.reserved_nodes@.len()
                    && (#[trigger] pc.default_peers_set.reserved_nodes@[i]).peer_id@ != local ==> in_book(
                    known@,
                    pc.default_peers_set.reserved_nodes@[i].peer_id@,
                    pc.default_peers_set.reserved_nodes@[i].multiaddr@,
                ),
                forall|j: int, i: int| 0 <= j < k && 0 <= i < pc.notification_protocols@[j].set_config.reserved_nodes@.len()
                    && (#[trigger] pc.notification_protocols@[j].set_config.reserved_nodes@[i]).peer_id@ != local ==> in_book(
                    known@,
                    pc.notification_protocols@[j].set_config.reserved_nodes@[i].peer_id@,
                    pc.notification_protocols@[j].set_config.reserved_nodes@[i].multiaddr@,
                ),
            decreases notification_protocols@.len() - k,
        {
            let n = &notification_protocols[k];
            let config = SetConfig {
                in_peers: n.set_config.in_peers,
                out_peers: n.set_config.out_peers,
                reserved_nodes: peers_of_nodes(&n.set_config.reserved_nodes, &local_peer_id),
                reserved_only: n.set_config.reserved_only,
            };
            let ghost before = controllers@;
            let ghost names_before = names@.map_values(|n: String| n@);
            controllers.push(ProtocolController::new(k + 1, &config));
            names.push(n.protocol_name.clone());
            proof {
                assert(names@.map_values(|n: String| n@) =~= names_before.push(n.protocol_name@));
                assert(notif_names[k as int] == n.protocol_name@);
            }
            add_nodes_to_book(&mut known, &n.set_config.reserved_nodes, &local_peer_id);
            proof {
                assert(notif_names.take(k + 1) =~= notif_names.take(k as int).push(n.protocol_name@));
                assert(names@.map_values(|n: String| n@) =~= seq![pc.block_announce_protocol@] + notif_names.take(k + 1));
                assert(controllers@[0] == before[0]);
                assert forall|i: int, q: (u64, Seq<u8>)|
                    1 <= i <= k + 1 implies #[trigger] controllers@[i].is_reserved(q) == node_named(
                        pc.notification_protocols@[i - 1].set_config.reserved_nodes@,
                        q,
                        local,
                    ) by {
                    if i <= k {
                        assert(controllers@[i] == before[i]);
                    }
                }
            }
            k = k + 1;
        }
        let ghost book_before_boot = known@;
        add_nodes_to_book(&mut known, &boot_nodes, &local_peer_id);
        proof {
            assert(notif_names.take(k as int) =~= notif_names);
            assert forall|i: int| 0 <= i < pc.boot_nodes@.len() && (#[trigger] pc.boot_nodes@[i]).peer_id@ != local implies in_book(
                known@,
                pc.boot_nodes@[i].peer_id@,
                pc.boot_nodes@[i].multiaddr@,
            ) by {
                lemma_without_local_keeps(pc.boot_nodes@, i, local);
                let j = choose|j: int| 0 <= j < boot_nodes@.len() && boot_nodes@[j] == pc.boot_nodes@[i];
                assert(boot_nodes@[j].peer_id@ != local);
            }
        }
        let mut service_names: Vec<String> = Vec::new();
        let mut j: usize = 0;
        while j < names.len()
            invariant
                j <= names@.len(),
                service_names@.map_values(|n: String| n@) == names@.map_values(|n: String| n@).take(j as int),
            decreases names@.len() - j,
        {
            let ghost sb = service_names@.map_values(|n: String| n@);
            service_names.push(names[j].clone());
            proof {
                assert(service_names@.map_values(|n: String| n@) =~= sb.push(names@[j as int]@));
                assert(names@.map_values(|n: String| n@).take(j + 1) =~= names@.map_values(|n: String| n@).take(
                    j as int,
                ).push(names@[j as int]@));
            }
            j = j + 1;
            proof {
                assert(service_names@.map_values(|n: String| n@) =~= names@.map_values(|n: String| n@).take(j as int));
            }
        }
        proof {
            assert(names@.map_values(|n: String| n@).take(j as int) =~= names@.map_values(|n: String| n@));
        }
        let service = NetworkService::new(local_peer_id.duplicate(), service_names);
        let worker = NetworkWorker {
            local_peer_id,
            controllers,
            peer_store: PeerStore::new(),
            sinks: NotificationSinks::new(NOTIFICATION_BUFFER),
            requests,
            request_tokens: Vec::new(),
            notification_protocols: names,
            known_addresses: known,
            connected: Vec::new(),
            listen_addresses: Vec::new(),
            boot_nodes,
            reported_invalid_boot_nodes: Vec::new(),
            event_streams: 0,
            total_bytes_inbound: 0,
            total_bytes_outbound: 0,
            applied: Ghost(Seq::empty()),
        };
        Ok((worker, service))
    }

    /// Identity of the local node.
    pub fn local_peer_id(&self) -> (r: &PeerId)
        ensures
            r@ == self.local(),
    {
        &self.local_peer_id
    }

    /// Number of peers with at least one connection.
    pub fn num_connected_peers(&self) -> (r: usize)
        ensures
            r == self.num_connected(),
    {
        self.connected.len()
    }

    /// Records the bandwidth counters measured by the transport.
    pub fn set_bandwidth(&mut self, inbound: u64, outbound: u64)
        requires
            old(self).wf(),
        ensures
            final(self).wf(),
            final(self).applied_commands() == old(self).applied_commands(),
            final(self).num_connected() == old(self).num_connected(),
    {
        self.total_bytes_inbound = inbound;
        self.total_bytes_outbound = outbound;
    }

    /// High-level network status information.
    pub fn status(&self) -> (r: NetworkStatus)
        ensures
            r.num_connected_peers == self.num_connected(),
    {
        NetworkStatus {
            num_connected_peers: self.connected.len(),
            total_bytes_inbound: self.total_bytes_inbound,
            total_bytes_outbound: self.total_bytes_outbound,
        }
    }

    /// The reserved peers of a set, if the set exists.
    pub fn reserved_peers(&self, set_id: SetId) -> (r: Option<Vec<PeerId>>)
        requires
            self.wf(),
        ensures
            set_id >= self.num_sets() ==> r is None,
            set_id < self.num_sets() ==> r is Some && distinct_peers(r->0@) && !contains_peer(r->0@, self.local())
                && forall|q: (u64, Seq<u8>)|
                #[trigger] contains_peer(r->0@, q) == self.controller(set_id as int).is_reserved(q),
    {
        if set_id < self.controllers.len() {
            proof {
                assert(self.controllers@[set_id as int].wf());
            }
            Some(self.controllers[set_id].reserved_peers())
        } else {
            None
        }
    }

    /// Current reputation of a peer.
    pub fn peer_reputation(&self, p: &PeerId) -> (r: i32)
        requires
            self.wf(),
        ensures
            r == self.store().reputation(p@),
    {
        self.peer_store.peer_reputation(p)
    }

    /// Peers to dial on the default set: at most `count` known peers that are neither
    /// banned nor connected.
    pub fn dial_candidates(&self, count: usize) -> (r: Vec<PeerId>)
        requires
            self.wf(),
        ensures
            r@.map_values(|p: PeerId| p@) == self.store().candidates(count as nat, self.connected_list()),
            r@.len() <= count,
            forall|i: int|
                0 <= i < r@.len() ==> !self.store().is_banned_spec((#[trigger] r@[i])@) && !self.is_connected(
                    r@[i]@,
                ),
    {
        self.peer_store.outgoing_candidates(count, &self.connected)
    }

    /// The addresses known for the peer, oldest first.
    pub fn addresses_of(&self, p: &PeerId) -> (r: Vec<Multiaddr>)
        ensures
            forall|i: int| 0 <= i < r@.len() ==> self.knows_address(p@, (#[trigger] r@[i])@),
            forall|b: Seq<crate::peer::ProtocolView>|
                #[trigger] self.knows_address(p@, b) ==> exists|j: int| 0 <= j < r@.len() && r@[j]@ == b,
    {
        let mut out: Vec<Multiaddr> = Vec::new();
        let mut i: usize = 0;
        while i < self.known_addresses.len()
            invariant
                i <= self.known_addresses@.len(),
                forall|k: int| 0 <= k < out@.len() ==> self.knows_address(p@, (#[trigger] out@[k])@),
                forall|k: int|
                    0 <= k < i && (#[trigger] self.known_addresses@[k]).0@ == p@ ==> exists|j: int|
                        0 <= j < out@.len() && out@[j]@ == self.known_addresses@[k].1@,
            decreases self.known_addresses@.len() - i,
        {
            if self.known_addresses[i].0.same(p) {
                let a = self.known_addresses[i].1.duplicate();
                proof {
                    assert(in_book(self.known_addresses@, p@, a@));
                }
                let ghost old_out = out@;
                out.push(a);
                proof {
                    assert(out@[out@.len() - 1]@ == self.known_addresses@[i as int].1@);
                    assert forall|k: int|
                        0 <= k < i + 1 && (#[trigger] self.known_addresses@[k]).0@ == p@ implies exists|j: int|
                            0 <= j < out@.len() && out@[j]@ == self.known_addresses@[k].1@ by {
                        if k < i {
                            let j = choose|j: int| 0 <= j < old_out.len() && old_out[j]@ == self.known_addresses@[k].1@;
                            assert(out@[j] == old_out[j]);
                        } else {
                            assert(out@[out@.len() - 1]@ == self.known_addresses@[k].1@);
                        }
                    }
                }
            }
            i = i + 1;
        }
        proof {
            assert forall|b: Seq<crate::peer::ProtocolView>| #[trigger] self.knows_address(p@, b) implies exists|j: int|
                0 <= j < out@.len() && out@[j]@ == b by {
                let k = choose|k: int| 0 <= k < self.known_addresses@.len() && (#[trigger] self.known_addresses@[k]).0@ == p@
                    && self.known_addresses@[k].1@ == b;
                assert(self.known_addresses@[k].0@ == p@);
            }
        }
        out
    }

    /// Snapshot of the network: the local identity, the listen addresses, and each
    /// connected peer with the addresses known for it.
    pub fn network_state(&self) -> (r: NetworkState)
        ensures
            r.peer_id@ == self.local(),
            r.connected_peers@.len() == self.num_connected(),
            forall|i: int|
                0 <= i < r.connected_peers@.len() ==> self.is_connected((#[trigger] r.connected_peers@[i]).peer_id@),
            forall|i: int, b: Seq<crate::peer::ProtocolView>|
                0 <= i < r.connected_peers@.len() ==> (#[trigger] seq_has_addr(r.connected_peers@[i].known_addresses@, b)
                    <==> self.knows_address(r.connected_peers@[i].peer_id@, b)),
            forall|b: Seq<crate::peer::ProtocolView>| #[trigger] seq_has_addr(r.listened_addresses@, b) == self.listening(b),
    {
        let mut peers: Vec<PeerEntry> = Vec::new();
        let mut i: usize = 0;
        while i < self.connected.len()
            invariant
                i <= self.connected@.len(),
                peers@.len() == i,
                forall|k: int| 0 <= k < i ==> (#[trigger] peers@[k]).peer_id@ == self.connected@[k]@,
                forall|k: int, b: Seq<crate::peer::ProtocolView>|
                    0 <= k < i ==> (#[trigger] seq_has_addr(peers@[k].known_addresses@, b) <==> self.knows_address(
                        peers@[k].peer_id@,
                        b,
                    )),
            decreases self.connected@.len() - i,
        {
            let p = self.connected[i].duplicate();
            let addrs = self.addresses_of(&p);
            proof {
                assert forall|b: Seq<crate::peer::ProtocolView>| seq_has_addr(addrs@, b) <==> self.knows_address(p@, b) by {
                    if seq_has_addr(addrs@, b) {
                        let k = choose|k: int| 0 <= k < addrs@.len() && (#[trigger] addrs@[k])@ == b;
                        assert(self.knows_address(p@, addrs@[k]@));
                    }
                    if self.knows_address(p@, b) {
                        let k = choose|k: int| 0 <= k < addrs@.len() && addrs@[k]@ == b;
                        assert(addrs@[k]@ == b);
                    }
                }
            }
            peers.push(PeerEntry { peer_id: p, known_addresses: addrs });
            i = i + 1;
        }
        proof {
            assert forall|k: int| 0 <= k < peers@.len() implies self.is_connected((#[trigger] peers@[k]).peer_id@) by {
                assert(self.connected@[k]@ == peers@[k].peer_id@);
            }
        }
        let mut listened: Vec<Multiaddr> = Vec::new();
        let mut j: usize = 0;
        while j < self.listen_addresses.len()
            invariant
                j <= self.listen_addresses@.len(),
                listened@.len() == j,
                forall|k: int| 0 <= k < j ==> (#[trigger] listened@[k])@ == self.listen_addresses@[k]@,
            decreases self.listen_addresses@.len() - j,
        {
            listened.push(self.listen_addresses[j].duplicate());
            j = j + 1;
        }
        proof {
            assert forall|b: Seq<crate::peer::ProtocolView>| #[trigger] seq_has_addr(listened@, b) == self.listening(b) by {
                if seq_has_addr(listened@, b) {
                    let k = choose|k: int| 0 <= k < listened@.len() && (#[trigger] listened@[k])@ == b;
                    assert(self.listen_addresses@[k]@ == b);
                }
                if self.listening(b) {
                    let k = choose|k: int| 0 <= k < self.listen_addresses@.len() && (#[trigger] self.listen_addresses@[k])@ == b;
                    assert(listened@[k]@ == b);
                }
            }
        }
        NetworkState { peer_id: self.local_peer_id.duplicate(), listened_addresses: listened, connected_peers: peers }
    }

    /// Remembers an address of a peer, once; an address of the local node is ignored.
    pub fn add_known_address(&mut self, p: &PeerId, a: &Multiaddr)
        requires
            old(self).wf(),
        ensures
            final(self).wf(),
            p@ != old(self).local() ==> final(self).knows_address(p@, a@),
            forall|q: (u64, Seq<u8>), b: Seq<crate::peer::ProtocolView>|
                #[trigger] final(self).knows_address(q, b) == (old(self).knows_address(q, b) || (q == p@ && b == a@
                    && p@ != old(self).local())),
            final(self).unchanged_but(old(self), false, false, true, false, false, false, false, false),
    {
        if p.same(&self.local_peer_id) || book_contains(&self.known_addresses, p, a) {
            return;
        }
        let ghost before = self.known_addresses@;
        self.known_addresses.push((p.duplicate(), a.duplicate()));
        proof {
            let n = before.len() as int;
            assert(self.known_addresses@[n].0@ == p@ && self.known_addresses@[n].1@ == a@);
            assert forall|q: (u64, Seq<u8>), b: Seq<crate::peer::ProtocolView>|
                #[trigger] in_book(self.known_addresses@, q, b) == (in_book(before, q, b) || (q == p@ && b == a@)) by {
                if in_book(before, q, b) {
                    let k = choose|k: int| 0 <= k < before.len() && (#[trigger] before[k]).0@ == q && before[k].1@ == b;
                    assert(self.known_addresses@[k] == before[k]);
                }
                if in_book(self.known_addresses@, q, b) {
                    let k = choose|k: int| 0 <= k < self.known_addresses@.len() && (#[trigger] self.known_addresses@[k]).0@ == q
                        && self.known_addresses@[k].1@ == b;
                    if k < n {
                        assert(self.known_addresses@[k] == before[k]);
                    }
                }
            }
        }
    }

    fn report_changes(&mut self, p: &PeerId, changes: &Vec<ReputationChange>)
        requires
            old(self).wf(),
        ensures
            final(self).wf(),
            final(self).store().reputation(p@) == apply_changes(old(self).store().reputation(p@), changes@),
            forall|q: (u64, Seq<u8>)|
                q != p@ ==> #[trigger] final(self).store().reputation(q) == old(self).store().reputation(q),
            final(self).unchanged_but(old(self), true, false, false, false, false, false, false, false),
    {
        let mut i: usize = 0;
        while i < changes.len()
            invariant
                self.wf(),
                i <= changes@.len(),
                self.store().reputation(p@) == apply_changes(old(self).store().reputation(p@), changes@.subrange(0, i as int)),
                forall|q: (u64, Seq<u8>)|
                    q != p@ ==> #[trigger] self.store().reputation(q) == old(self).store().reputation(q),
                self.unchanged_but(old(self), true, false, false, false, false, false, false, false),
            decreases changes@.len() - i,
        {
            self.peer_store.report_peer(p, &changes[i]);
            proof {
                assert(changes@.subrange(0, i + 1).drop_last() =~= changes@.subrange(0, i as int));
            }
            i = i + 1;
        }
        proof {
            assert(changes@.subrange(0, i as int) =~= changes@);
        }
    }

    fn mark_connected(&mut self, p: &PeerId)
        requires
            old(self).wf(),
        ensures
            final(self).wf(),
            final(self).is_connected(p@),
            forall|q: (u64, Seq<u8>)| q != p@ ==> #[trigger] final(self).is_connected(q) == old(self).is_connected(q),
            final(self).num_connected() == old(self).num_connected() + if old(self).is_connected(p@) {
                0nat
            } else {
                1nat
            },
            final(self).unchanged_but(old(self), false, true, false, false, false, false, false, false),
    {
        match position(&self.connected, p) {
            Some(i) => {
                assert(contains_peer(self.connected@, p@));
            },
            None => {
                let d = p.duplicate();
                proof {
                    lemma_push_peer(self.connected@, d);
                }
                self.connected.push(d);
            },
        }
    }

    fn mark_disconnected(&mut self, p: &PeerId)
        requires
            old(self).wf(),
        ensures
            final(self).wf(),
            !final(self).is_connected(p@),
            forall|q: (u64, Seq<u8>)| q != p@ ==> #[trigger] final(self).is_connected(q) == old(self).is_connected(q),
            final(self).num_connected() + if old(self).is_connected(p@) {
                1nat
            } else {
                0nat
            } == old(self).num_connected(),
            final(self).unchanged_but(old(self), false, true, false, false, false, false, false, false),
    {
        match position(&self.connected, p) {
            Some(i) => {
                proof {
                    assert(contains_peer(self.connected@, p@));
                    lemma_remove_peer(self.connected@, i as int);
                }
                self.connected.remove(i);
            },
            None => {},
        }
    }

    /// Applies one command of the service and records it as applied.
    pub fn handle_worker_message(&mut self, msg: ServiceToWorkerMsg) -> (r: Vec<WorkerOutput>)
        requires
            old(self).wf(),
        ensures
            message_applied(*old(self), msg@, *final(self), r@),
    {
        let ghost m = msg@;
        self.applied = Ghost(self.applied@.push(m));
        let mut out: Vec<WorkerOutput> = Vec::new();
        match msg {
            ServiceToWorkerMsg::GetValue(key) => {
                out.push(WorkerOutput::DhtGet(key));
            },
            ServiceToWorkerMsg::PutValue(key, value) => {
                out.push(WorkerOutput::DhtPut(key, value));
            },
            ServiceToWorkerMsg::AddKnownAddress(p, a) => {
                self.add_known_address(&p, &a);
            },
            ServiceToWorkerMsg::EventStream => {
                if self.event_streams < u64::MAX {
                    self.event_streams = self.event_streams + 1;
                }
            },
            ServiceToWorkerMsg::Request { token, target, protocol, request, fallback_request, connect } => {
                let connected = position(&self.connected, &target).is_some();
                match self.requests.start_request(&target, &protocol, &request, &fallback_request, connected, connect) {
                    RequestStart::Fail(f) => {
                        out.push(WorkerOutput::RequestResolved { token, result: Err(f) });
                    },
                    RequestStart::Open { id, peer, dial, offers } => {
                        self.request_tokens.push((id, token));
                        if dial {
                            out.push(WorkerOutput::Dial(peer.duplicate()));
                        }
                        out.push(WorkerOutput::SendRequest { id, peer, offers });
                    },
                }
            },
            ServiceToWorkerMsg::NetworkStatus { token } => {
                out.push(WorkerOutput::Status { token, status: self.status() });
            },
            ServiceToWorkerMsg::NetworkState { token } => {
                out.push(WorkerOutput::State { token, state: self.network_state() });
            },
            ServiceToWorkerMsg::DisconnectPeer(p, protocol) => {
                out.push(WorkerOutput::Disconnect(p, protocol));
            },
            ServiceToWorkerMsg::ReportPeer(p, change) => {
                self.peer_store.report_peer(&p, &change);
            },
            ServiceToWorkerMsg::SetReservedPeers { set_id, peers } => {
                let local_pos = position(&peers, &self.local_peer_id);
                proof {
                    if let Some(i) = local_pos {
                        assert(crate::service::ids(peers@)[i as int] == self.local_peer_id@);
                    }
                }
                if set_id < self.controllers.len() && local_pos.is_none() {
                    proof {
                        assert(self.controllers@[set_id as int].wf());
                    }
                    let ghost before = self.controllers@;
                    let mut c = self.controllers.remove(set_id);
                    let actions = c.set_reserved_peers(&peers, &self.peer_store);
                    let ghost cg = c;
                    self.controllers.insert(set_id, c);
                    proof {
                        assert(self.controllers@ =~= before.update(set_id as int, cg));
                    }
                    push_actions(&mut out, set_id, actions);
                    proof {
                        assert forall|q: (u64, Seq<u8>)| #[trigger] self.controller(set_id as int).is_reserved(q)
                            == crate::service::ids(peers@).contains(q) by {
                            if contains_peer(peers@, q) {
                                let k = choose|k: int| 0 <= k < peers@.len() && (#[trigger] peers@[k])@ == q;
                                assert(crate::service::ids(peers@)[k] == q);
                            }
                            if crate::service::ids(peers@).contains(q) {
                                let k = choose|k: int| 0 <= k < crate::service::ids(peers@).len() && crate::service::ids(peers@)[k] == q;
                                assert(peers@[k]@ == q);
                            }
                        }
                    }
                }
            },
            ServiceToWorkerMsg::AddReservedPeer { set_id, peer } => {
                if set_id < self.controllers.len() && !peer.same(&self.local_peer_id) {
                    proof {
                        assert(self.controllers@[set_id as int].wf());
                    }
                    let ghost before = self.controllers@;
                    let mut c = self.controllers.remove(set_id);
                    let actions = c.add_reserved_peer(&peer, &self.peer_store);
                    let ghost cg = c;
                    self.controllers.insert(set_id, c);
                    proof {
                        assert(self.controllers@ =~= before.update(set_id as int, cg));
                    }
                    push_actions(&mut out, set_id, actions);
                }
            },
            ServiceToWorkerMsg::RemoveReservedPeer { set_id, peer } => {
                if set_id < self.controllers.len() {
                    proof {
                        assert(self.controllers@[set_id as int].wf());
                    }
                    let ghost before = self.controllers@;
                    let mut c = self.controllers.remove(set_id);
                    let actions = c.remove_reserved_peer(&peer);
                    let ghost cg = c;
                    self.controllers.insert(set_id, c);
                    proof {
                        assert(self.controllers@ =~= before.update(set_id as int, cg));
                    }
                    push_actions(&mut out, set_id, actions);
                }
            },
            ServiceToWorkerMsg::SetReservedOnly { set_id, reserved_only } => {
                if set_id < self.controllers.len() {
                    proof {
                        assert(self.controllers@[set_id as int].wf());
                    }
                    let ghost before = self.controllers@;
                    let mut c = self.controllers.remove(set_id);
                    let actions = c.set_reserved_only(reserved_only, &self.peer_store);
                    let ghost cg = c;
                    self.controllers.insert(set_id, c);
                    proof {
                        assert(self.controllers@ =~= before.update(set_id as int, cg));
                    }
                    push_actions(&mut out, set_id, actions);
                }
            },
        }
        out
    }

    #[verifier::loop_isolation(false)]
    fn add_listen_address(&mut self, a: &Multiaddr)
        requires
            old(self).wf(),
        ensures
            final(self).wf(),
            final(self).listening(a@),
            forall|b: Seq<crate::peer::ProtocolView>| b != a@ ==> #[trigger] final(self).listening(b) == old(self).listening(b),
            final(self).unchanged_but(old(self), false, false, false, true, false, false, false, false),
    {
        let mut i: usize = 0;
        while i < self.listen_addresses.len()
            invariant
                i <= self.listen_addresses@.len(),
                forall|k: int| 0 <= k < i ==> (#[trigger] self.listen_addresses@[k])@ != a@,
            decreases self.listen_addresses@.len() - i,
        {
            if self.listen_addresses[i].same(a) {
                assert((self.listen_addresses@[i as int])@ == a@);
                return;
            }
            i = i + 1;
        }
        let ghost before = self.listen_addresses@;
        self.listen_addresses.push(a.duplicate());
        proof {
            assert(self.listen_addresses@[self.listen_addresses@.len() - 1]@ == a@);
            let t = self.listen_addresses@;
            assert forall|x: int, y: int| 0 <= x < t.len() && 0 <= y < t.len() && x != y implies (
            #[trigger] t[x])@ != (#[trigger] t[y])@ by {
                if x < before.len() {
                    assert(t[x] == before[x]);
                }
                if y < before.len() {
                    assert(t[y] == before[y]);
                }
            }
            assert forall|b: Seq<crate::peer::ProtocolView>| b != a@ implies #[trigger] self.listening(b) == old(self).listening(b) by {
                if old(self).listening(b) {
                    let k = choose|k: int| 0 <= k < before.len() && (#[trigger] before[k])@ == b;
                    assert(self.listen_addresses@[k] == before[k]);
                }
                if self.listening(b) {
                    let k = choose|k: int| 0 <= k < self.listen_addresses@.len() && (#[trigger] self.listen_addresses@[k])@ == b;
                    if k < before.len() {
                        assert(self.listen_addresses@[k] == before[k]);
                    }
                }
            }
        }
    }

    #[verifier::loop_isolation(false)]
    fn remove_listen_address(&mut self, a: &Multiaddr)
        requires
            old(self).wf(),
        ensures
            final(self).wf(),
            !final(self).listening(a@),
            forall|b: Seq<crate::peer::ProtocolView>| b != a@ ==> #[trigger] final(self).listening(b) == old(self).listening(b),
            final(self).unchanged_but(old(self), false, false, false, true, false, false, false, false),
    {
        let mut i: usize = 0;
        let mut found: Option<usize> = None;
        while i < self.listen_addresses.len() && found.is_none()
            invariant
                i <= self.listen_addresses@.len(),
                found is Some ==> found->0 < self.listen_addresses@.len() && self.listen_addresses@[found->0 as int]@
                    == a@,
                found is None ==> forall|k: int| 0 <= k < i ==> (#[trigger] self.listen_addresses@[k])@ != a@,
            decreases self.listen_addresses@.len() - i,
        {
            if self.listen_addresses[i].same(a) {
                found = Some(i);
            }
            i = i + 1;
        }
        let ghost before = self.listen_addresses@;
        match found {
            Some(k) => {
                self.listen_addresses.remove(k);
                proof {
                    let t = self.listen_addresses@;
                    assert forall|x: int, y: int| 0 <= x < t.len() && 0 <= y < t.len() && x != y implies (
                    #[trigger] t[x])@ != (#[trigger] t[y])@ by {
                        let x2 = if x < k { x } else { x + 1 };
                        let y2 = if y < k { y } else { y + 1 };
                        assert(t[x] == before[x2] && t[y] == before[y2]);
                    }
                    assert forall|b: Seq<crate::peer::ProtocolView>| #[trigger] seq_has_addr(t, b) == (seq_has_addr(before, b)
                        && b != a@) by {
                        if seq_has_addr(t, b) {
                            let x = choose|x: int| 0 <= x < t.len() && (#[trigger] t[x])@ == b;
                            let x2 = if x < k { x } else { x + 1 };
                            assert(t[x] == before[x2]);
                            assert(x2 != k);
                        }
                        if seq_has_addr(before, b) && b != a@ {
                            let x = choose|x: int| 0 <= x < before.len() && (#[trigger] before[x])@ == b;
                            assert(x != k);
                            let x2 = if x < k { x } else { x - 1 };
                            assert(t[x2] == before[x]);
                        }
                    }
                }
            },
            None => {
                proof {
                    assert forall|b: Seq<crate::peer::ProtocolView>| #[trigger] seq_has_addr(before, b) implies b != a@ by {
                        let x = choose|x: int| 0 <= x < before.len() && (#[trigger] before[x])@ == b;
                    }
                }
            },
        }
    }

    fn publish_opening(
        &mut self,
        remote: PeerId,
        set_id: SetId,
        direction: Direction,
        negotiated_fallback: Option<String>,
        received_handshake: Vec<u8>,
    ) -> (r: Event)
        requires
            old(self).wf(),
        ensures
            final(self).wf(),
            final(self).unchanged_but(old(self), false, false, false, false, true, false, false, false),
            final(self).sink_states() == crate::notifications::after_open(old(self).sink_states(), remote@, set_id),
            r == opening_event(old(self).sink_states(), remote, set_id, direction, negotiated_fallback, received_handshake),
    {
        match self.sinks.open_stream(&remote, set_id) {
            StreamOpening::Opened(sink) => Event::NotificationStreamOpened {
                remote,
                set_id,
                direction,
                negotiated_fallback,
                received_handshake,
                sink,
            },
            StreamOpening::Replaced(sink) => Event::NotificationStreamReplaced { remote, set_id, sink },
        }
    }

    /// Processes one event of the multiplexer.
    pub fn handle_swarm_event(&mut self, event: SwarmEvent) -> (r: Vec<WorkerOutput>)
        requires
            old(self).wf(),
        ensures
            final(self).wf(),
            final(self).applied_commands() == old(self).applied_commands(),
            final(self).local() == old(self).local(),
            final(self).num_sets() == old(self).num_sets(),
            match event {
                SwarmEvent::Behaviour(BehaviourOut::InboundRequest { protocol, result, .. }) => final(self).same_state(
                    old(self),
                ) && match result {
                    Ok(t) => r@ == seq![
                        WorkerOutput::Metric(MetricEvent::RequestInSuccess { protocol, serve_time: t }),
                    ],
                    Err(f) => (f == ResponseFailure::Network(InboundFailure::UnsupportedProtocols) ==> r@.len() == 0) && (f
                        != ResponseFailure::Network(InboundFailure::UnsupportedProtocols) ==> r@.len() == 1 && r@[0] is Metric
                        && r@[0]->Metric_0 is RequestInFailure),
                },
                SwarmEvent::Behaviour(BehaviourOut::RequestFinished { protocol, duration, result, .. }) => final(self).same_state(old(self)) && match result {
                    Ok(_) => r@ == seq![WorkerOutput::Metric(MetricEvent::RequestOutSuccess { protocol, duration })],
                    Err(f) => r@ == seq![
                        WorkerOutput::Metric(MetricEvent::RequestOutFailure { protocol, reason: request_failure_label(f) }),
                    ],
                },
                SwarmEvent::Behaviour(BehaviourOut::ReputationChanges { peer, changes }) => r@.len() == 0
                    && final(self).store().reputation(peer@) == apply_changes(old(self).store().reputation(peer@), changes@)
                    && (forall|q: (u64, Seq<u8>)|
                    q != peer@ ==> #[trigger] final(self).store().reputation(q) == old(self).store().reputation(q))
                    && final(self).same_sets(old(self)) && final(self).same_book(old(self)) && final(self).same_listen(
                    old(self),
                ) && final(self).num_connected() == old(self).num_connected(),
                SwarmEvent::Behaviour(BehaviourOut::Discovered(p)) => r@.len() == 0 && final(self).store().knows(p@)
                    && (forall|q: (u64, Seq<u8>)| #[trigger] final(self).store().reputation(q) == old(self).store().reputation(q))
                    && final(self).same_sets(old(self)) && final(self).same_book(old(self)) && final(self).same_listen(
                    old(self),
                ) && final(self).num_connected() == old(self).num_connected(),
                SwarmEvent::Behaviour(BehaviourOut::PeerIdentify { peer_id, info }) => r@.len() == 0 && final(self).store().knows(peer_id@) && (forall|q: (u64, Seq<u8>), b: Seq<crate::peer::ProtocolView>|
                    #[trigger] final(self).knows_address(q, b) == (old(self).knows_address(q, b) || (q == peer_id@ && q
                        != old(self).local() && seq_has_addr(identify_kept(info.listen_addrs@), b)))) && (forall|
                    q: (u64, Seq<u8>),
                | #[trigger] final(self).store().reputation(q) == old(self).store().reputation(q)) && final(self).same_sets(
                    old(self),
                ) && final(self).same_listen(old(self)) && final(self).num_connected() == old(self).num_connected(),
                SwarmEvent::Behaviour(BehaviourOut::RandomKademliaStarted) => r@ == seq![
                    WorkerOutput::Metric(MetricEvent::KademliaRandomQuery),
                ] && final(self).same_state(old(self)),
                SwarmEvent::Behaviour(
                    BehaviourOut::NotificationStreamOpened {
                        remote,
                        set_id,
                        direction,
                        negotiated_fallback,
                        notifications_sink,
                        received_handshake,
                    },
                ) => r@ == seq![
                    WorkerOutput::Publish(
                        Event::NotificationStreamOpened {
                            remote,
                            set_id,
                            direction,
                            negotiated_fallback,
                            received_handshake,
                            sink: notifications_sink,
                        },
                    ),
                ] && final(self).same_state(old(self)),
                SwarmEvent::Behaviour(BehaviourOut::NotificationStreamReplaced { remote, set_id, notifications_sink }) =>
                    r@ == seq![
                    WorkerOutput::Publish(Event::NotificationStreamReplaced { remote, set_id, sink: notifications_sink }),
                ] && final(self).same_state(old(self)),
                SwarmEvent::Behaviour(BehaviourOut::NotificationStreamClosed { remote, set_id }) => r@ == seq![
                    WorkerOutput::Publish(Event::NotificationStreamClosed { remote, set_id }),
                ] && final(self).same_state(old(self)),
                SwarmEvent::Behaviour(BehaviourOut::NotificationsReceived { remote, set_id, notification }) => r@
                    == seq![WorkerOutput::Publish(Event::NotificationsReceived { remote, set_id, notification })] && final(self).same_state(old(self)),
                SwarmEvent::Behaviour(BehaviourOut::Dht(e, _)) => r@.len() == 2 && r@[0] is Metric && r@[0]->Metric_0 is KademliaQuery
                    && r@[1] == WorkerOutput::Publish(Event::Dht(e)) && final(self).same_state(old(self)),
                SwarmEvent::Behaviour(BehaviourOut::Ignored) => r@.len() == 0 && final(self).same_state(old(self)),
                SwarmEvent::SubstreamOpened { remote, set_id, direction, negotiated_fallback, received_handshake } => r@
                    == seq![
                    WorkerOutput::Publish(
                        opening_event(
                            old(self).sink_states(),
                            remote,
                            set_id,
                            direction,
                            negotiated_fallback,
                            received_handshake,
                        ),
                    ),
                ] && final(self).sink_states() == crate::notifications::after_open(
                    old(self).sink_states(),
                    remote@,
                    set_id,
                ) && final(self).same_sets(old(self)) && final(self).same_peers(old(self)) && final(self).same_book(
                    old(self),
                ) && final(self).same_listen(old(self)),
                SwarmEvent::SubstreamClosed { remote, set_id } => final(self).sink_states()
                    == crate::notifications::after_close(old(self).sink_states(), remote@, set_id) && (
                crate::notifications::active_sink(old(self).sink_states(), remote@, set_id) is Some ==> r@ == seq![
                    WorkerOutput::Publish(Event::NotificationStreamClosed { remote, set_id }),
                ]) && (crate::notifications::active_sink(old(self).sink_states(), remote@, set_id) is None ==> r@.len()
                    == 0) && final(self).same_sets(old(self)) && final(self).same_peers(old(self)) && final(self).same_book(
                    old(self),
                ) && final(self).same_listen(old(self)),
                SwarmEvent::IncomingSubstream { remote, set_id, index } => r@.len() == 1 && r@[0] is Controller
                    && r@[0]->Controller_0 == set_id && (set_id >= old(self).num_sets() ==> r@[0]->Controller_1
                    == ControllerAction::Reject(index) && final(self).same_sets(old(self))) && (forall|s: int|
                    0 <= s < old(self).num_sets() && s != set_id ==> #[trigger] final(self).controller(s) == old(self).controller(s)) && final(self).same_peers(old(self)) && final(self).same_book(old(self)) && final(self).same_listen(old(self)) && final(self).sink_states() == old(self).sink_states(),
                SwarmEvent::RequestOutcome { .. } => r@.len() <= 1 && (r@.len() == 1 ==> r@[0] is RequestResolved)
                    && final(self).same_state(old(self)),
                SwarmEvent::ConnectionEstablished { peer_id, .. } => r@.len() == 1 && r@[0] is Metric && final(self).is_connected(peer_id@) && final(self).num_connected() == old(self).num_connected() + if old(self).is_connected(peer_id@) {
                    0nat
                } else {
                    1nat
                } && (forall|q: (u64, Seq<u8>)|
                    q != peer_id@ ==> #[trigger] final(self).is_connected(q) == old(self).is_connected(q)) && final(self).same_sets(old(self)) && final(self).store() == old(self).store() && final(self).same_book(old(self))
                    && final(self).same_listen(old(self)) && final(self).sink_states() == old(self).sink_states(),
                SwarmEvent::ConnectionClosed { peer_id, num_established, .. } => r@.len() == 1 && r@[0] is Metric && (
                num_established != 0 ==> final(self).same_state(old(self))) && (num_established == 0 ==> !final(self).is_connected(peer_id@) && final(self).num_connected() + if old(self).is_connected(peer_id@) {
                    1nat
                } else {
                    0nat
                } == old(self).num_connected() && (forall|q: (u64, Seq<u8>)|
                    q != peer_id@ ==> #[trigger] final(self).is_connected(q) == old(self).is_connected(q))
                    && final(self).store().reputation(peer_id@) == saturating_add(
                    old(self).store().reputation(peer_id@),
                    crate::peer_store::DISCONNECT_REPUTATION_CHANGE,
                ) && (forall|q: (u64, Seq<u8>)|
                    q != peer_id@ ==> #[trigger] final(self).store().reputation(q) == old(self).store().reputation(q))
                    && (forall|s: int, q: (u64, Seq<u8>)|
                    0 <= s < old(self).num_sets() ==> #[trigger] final(self).controller(s).is_reserved(q) == old(self).controller(s).is_reserved(q)) && (forall|s: int|
                    0 <= s < old(self).num_sets() ==> !(#[trigger] final(self).controller(s)).in_slot(peer_id@)
                        && !final(self).controller(s).out_slot(peer_id@)) && final(self).same_book(old(self)) && final(self).same_listen(old(self)) && final(self).sink_states() == old(self).sink_states()),
                SwarmEvent::OutgoingConnectionError { peer_id, .. } => final(self).same_state(old(self)) && r@.len() <= 2
                    && (forall|q: (u64, Seq<u8>)|
                    old(self).reported_boot_node(q) ==> #[trigger] final(self).reported_boot_node(q)) && (forall|i: int|
                    0 <= i < r@.len() && (#[trigger] r@[i]) is InvalidBootNode ==> peer_id is Some
                        && !old(self).reported_boot_node(peer_id->0@) && final(self).reported_boot_node(peer_id->0@)),
                SwarmEvent::NewListenAddr { address } => final(self).listening(address@) && (forall|
                    b: Seq<crate::peer::ProtocolView>,
                | b != address@ ==> #[trigger] final(self).listening(b) == old(self).listening(b)) && final(self).same_sets(
                    old(self),
                ) && final(self).same_peers(old(self)) && final(self).same_book(old(self)) && final(self).sink_states()
                    == old(self).sink_states(),
                SwarmEvent::ExpiredListenAddr { address } => !final(self).listening(address@) && (forall|
                    b: Seq<crate::peer::ProtocolView>,
                | b != address@ ==> #[trigger] final(self).listening(b) == old(self).listening(b)) && final(self).same_sets(
                    old(self),
                ) && final(self).same_peers(old(self)) && final(self).same_book(old(self)) && final(self).sink_states()
                    == old(self).sink_states(),
                SwarmEvent::ListenerClosed { addresses, .. } => (forall|i: int|
                    0 <= i < addresses@.len() ==> !final(self).listening((#[trigger] addresses@[i])@)) && (forall|
                    b: Seq<crate::peer::ProtocolView>,
                | !seq_has_addr(addresses@, b) ==> #[trigger] final(self).listening(b) == old(self).listening(b)) && final(self).same_sets(old(self)) && final(self).same_peers(old(self)) && final(self).same_book(old(self)) && final(self).sink_states() == old(self).sink_states(),
                _ => final(self).same_state(old(self)),
            },
    {
        let mut out: Vec<WorkerOutput> = Vec::new();
        match event {
            SwarmEvent::Behaviour(b) => {
                match b {
                    BehaviourOut::InboundRequest { protocol, result, .. } => match result {
                        Ok(serve_time) => out.push(
                            WorkerOutput::Metric(MetricEvent::RequestInSuccess { protocol, serve_time }),
                        ),
                        Err(err) => match inbound_failure_reason(err) {
                            Some(reason) => out.push(
                                WorkerOutput::Metric(MetricEvent::RequestInFailure { protocol, reason }),
                            ),
                            None => {},
                        },
                    },
                    BehaviourOut::RequestFinished { protocol, duration, result, .. } => match result {
                        Ok(_) => out.push(
                            WorkerOutput::Metric(MetricEvent::RequestOutSuccess { protocol, duration }),
                        ),
                        Err(err) => out.push(
                            WorkerOutput::Metric(
                                MetricEvent::RequestOutFailure { protocol, reason: request_failure_reason(err) },
                            ),
                        ),
                    },
                    BehaviourOut::ReputationChanges { peer, changes } => {
                        self.report_changes(&peer, &changes);
                    },
                    BehaviourOut::PeerIdentify { peer_id, info } => {
                        let IdentifyInfo { listen_addrs, .. } = info;
                        let ghost addrs = listen_addrs@;
                        let ghost w0 = *self;
                        let mut i: usize = 0;
                        proof {
                            assert forall|b: Seq<crate::peer::ProtocolView>| !seq_has_addr(addrs.take(0), b) by {}
                        }
                        while i < listen_addrs.len() && i < MAX_IDENTIFY_ADDRESSES
                            invariant
                                self.wf(),
                                w0 == *old(self),
                                self.unchanged_but(&w0, false, false, true, false, false, false, false, false),
                                addrs == listen_addrs@,
                                i <= addrs.len(),
                                i <= MAX_IDENTIFY_ADDRESSES,
                                forall|q: (u64, Seq<u8>), b: Seq<crate::peer::ProtocolView>|
                                    #[trigger] self.knows_address(q, b) == (w0.knows_address(q, b) || (q == peer_id@ && q
                                        != w0.local() && seq_has_addr(addrs.take(i as int), b))),
                            decreases addrs.len() - i,
                        {
                            self.add_known_address(&peer_id, &listen_addrs[i]);
                            proof {
                                assert forall|b: Seq<crate::peer::ProtocolView>| #[trigger] seq_has_addr(addrs.take(i + 1), b)
                                    == (seq_has_addr(addrs.take(i as int), b) || addrs[i as int]@ == b) by {
                                    if seq_has_addr(addrs.take(i + 1), b) {
                                        let k = choose|k: int| 0 <= k < addrs.take(i + 1).len() && (#[trigger] addrs.take(i + 1)[k])@ == b;
                                        if k < i {
                                            assert(addrs.take(i as int)[k] == addrs.take(i + 1)[k]);
                                        }
                                    }
                                    if seq_has_addr(addrs.take(i as int), b) {
                                        let k = choose|k: int| 0 <= k < addrs.take(i as int).len() && (#[trigger] addrs.take(i as int)[k])@ == b;
                                        assert(addrs.take(i + 1)[k] == addrs.take(i as int)[k]);
                                    }
                                    if addrs[i as int]@ == b {
                                        assert(addrs.take(i + 1)[i as int] == addrs[i as int]);
                                    }
                                }
                            }
                            i = i + 1;
                        }
                        proof {
                            assert(addrs.take(i as int) =~= identify_kept(addrs));
                        }
                        let ghost mid = *self;
                        self.peer_store.add_known_peer(&peer_id);
                        proof {
                            assert forall|q: (u64, Seq<u8>), b: Seq<crate::peer::ProtocolView>|
                                #[trigger] self.knows_address(q, b) == mid.knows_address(q, b) by {}
                        }
                    },
                    BehaviourOut::Discovered(p) => {
                        self.peer_store.add_known_peer(&p);
                    },
                    BehaviourOut::RandomKademliaStarted => {
                        out.push(WorkerOutput::Metric(MetricEvent::KademliaRandomQuery));
                    },
                    BehaviourOut::NotificationStreamOpened {
                        remote,
                        set_id,
                        direction,
                        negotiated_fallback,
                        notifications_sink,
                        received_handshake,
                    } => {
                        out.push(
                            WorkerOutput::Publish(
                                Event::NotificationStreamOpened {
                                    remote,
                                    set_id,
                                    direction,
                                    negotiated_fallback,
                                    received_handshake,
                                    sink: notifications_sink,
                                },
                            ),
                        );
                    },
                    BehaviourOut::NotificationStreamReplaced { remote, set_id, notifications_sink } => {
                        out.push(
                            WorkerOutput::Publish(
                                Event::NotificationStreamReplaced { remote, set_id, sink: notifications_sink },
                            ),
                        );
                    },
                    BehaviourOut::NotificationStreamClosed { remote, set_id } => {
                        out.push(WorkerOutput::Publish(Event::NotificationStreamClosed { remote, set_id }));
                    },
                    BehaviourOut::NotificationsReceived { remote, set_id, notification } => {
                        out.push(
                            WorkerOutput::Publish(Event::NotificationsReceived { remote, set_id, notification }),
                        );
                    },
                    BehaviourOut::Dht(e, duration) => {
                        let query_type = dht_query_type(&e);
                        out.push(WorkerOutput::Metric(MetricEvent::KademliaQuery { query_type, duration }));
                        out.push(WorkerOutput::Publish(Event::Dht(e)));
                    },
                    BehaviourOut::Ignored => {},
                }
            },
            SwarmEvent::SubstreamOpened { remote, set_id, direction, negotiated_fallback, received_handshake } => {
                let e = self.publish_opening(remote, set_id, direction, negotiated_fallback, received_handshake);
                out.push(WorkerOutput::Publish(e));
            },
            SwarmEvent::SubstreamClosed { remote, set_id } => {
                if self.sinks.close_stream(&remote, set_id) {
                    out.push(WorkerOutput::Publish(Event::NotificationStreamClosed { remote, set_id }));
                }
            },
            SwarmEvent::IncomingSubstream { remote, set_id, index } => {
                if set_id < self.controllers.len() {
                    proof {
                        assert(self.controllers@[set_id as int].wf());
                    }
                    let ghost before = self.controllers@;
                    let mut c = self.controllers.remove(set_id);
                    let action = c.incoming_connection(&remote, index, &self.peer_store);
                    let ghost cg = c;
                    self.controllers.insert(set_id, c);
                    proof {
                        assert(self.controllers@ =~= before.update(set_id as int, cg));
                    }
                    out.push(WorkerOutput::Controller(set_id, action));
                } else {
                    out.push(WorkerOutput::Controller(set_id, ControllerAction::Reject(index)));
                }
            },
            SwarmEvent::RequestOutcome { id, outcome, .. } => {
                match self.requests.finish_request(id, outcome) {
                    Some(result) => {
                        match self.take_token(id) {
                            Some(token) => out.push(WorkerOutput::RequestResolved { token, result }),
                            None => {},
                        }
                    },
                    None => {},
                }
            },
            SwarmEvent::ConnectionEstablished { peer_id, endpoint, num_established } => {
                let direction = endpoint_direction(&endpoint);
                out.push(
                    WorkerOutput::Metric(
                        MetricEvent::ConnectionOpened { direction, first_with_peer: num_established == 1 },
                    ),
                );
                self.mark_connected(&peer_id);
            },
            SwarmEvent::ConnectionClosed { peer_id, endpoint, num_established, cause } => {
                let direction = endpoint_direction(&endpoint);
                let reason = connection_closed_reason(cause);
                out.push(
                    WorkerOutput::Metric(
                        MetricEvent::ConnectionClosed { direction, reason, last_with_peer: num_established == 0 },
                    ),
                );
                if num_established == 0 {
                    self.mark_disconnected(&peer_id);
                    let ghost wm = *self;
                    self.peer_store.report_disconnect(&peer_id);
                    let ghost w1 = *self;
                    let mut k: usize = 0;
                    while k < self.controllers.len()
                        invariant
                            self.wf(),
                            k <= self.controllers@.len(),
                            self.controllers@.len() == w1.controllers@.len(),
                            self.unchanged_but(&w1, false, false, false, false, false, true, false, false),
                            forall|s: int| k <= s < self.controllers@.len() ==> #[trigger] self.controllers@[s] == w1.controllers@[s],
                            forall|s: int, q: (u64, Seq<u8>)|
                                0 <= s < k ==> #[trigger] self.controllers@[s].is_reserved(q) == w1.controllers@[s].is_reserved(q),
                            forall|s: int|
                                0 <= s < k ==> !(#[trigger] self.controllers@[s]).in_slot(peer_id@) && !self.controllers@[s].out_slot(
                                    peer_id@,
                                ),
                        decreases self.controllers@.len() - k,
                    {
                        proof {
                            assert(self.controllers@[k as int].wf());
                        }
                        let ghost before = self.controllers@;
                        let mut c = self.controllers.remove(k);
                        c.dropped(&peer_id);
                        let ghost cg = c;
                        self.controllers.insert(k, c);
                        proof {
                            assert(self.controllers@ =~= before.update(k as int, cg));
                        }
                        k = k + 1;
                    }
                    proof {
                        assert forall|q: (u64, Seq<u8>)| #[trigger] self.is_connected(q) == wm.is_connected(q) by {}
                        assert forall|q: (u64, Seq<u8>)| #[trigger] self.store().reputation(q) == w1.store().reputation(q) by {}
                        assert forall|q: (u64, Seq<u8>), b: Seq<crate::peer::ProtocolView>|
                            #[trigger] self.knows_address(q, b) == old(self).knows_address(q, b) by {}
                        assert forall|b: Seq<crate::peer::ProtocolView>| #[trigger] self.listening(b) == old(self).listening(b) by {}
                    }
                }
            },
            SwarmEvent::IncomingConnection { .. } => {
                out.push(WorkerOutput::Metric(MetricEvent::IncomingConnection));
            },
            SwarmEvent::IncomingConnectionError { error, .. } => {
                match listen_error_reason(error) {
                    Some(reason) => out.push(WorkerOutput::Metric(MetricEvent::IncomingConnectionError { reason })),
                    None => {},
                }
            },
            SwarmEvent::OutgoingConnectionError { peer_id, error } => {
                let reason = dial_error_reason(&error);
                match peer_id {
                    Some(p) => {
                        match self.check_boot_node_identity(&p, &error) {
                            Some(o) => out.push(o),
                            None => {},
                        }
                    },
                    None => {},
                }
                match reason {
                    Some(reason) => out.push(WorkerOutput::Metric(MetricEvent::PendingConnectionError { reason })),
                    None => {},
                }
            },
            SwarmEvent::BannedPeer { .. } => {
                out.push(WorkerOutput::Metric(MetricEvent::IncomingConnectionError { reason: "banned" }));
            },
            SwarmEvent::NewListenAddr { address } => {
                out.push(WorkerOutput::Metric(MetricEvent::ListenAddressAdded));
                self.add_listen_address(&address);
            },
            SwarmEvent::ExpiredListenAddr { address } => {
                out.push(WorkerOutput::Metric(MetricEvent::ListenAddressesRemoved(1)));
                self.remove_listen_address(&address);
            },
            SwarmEvent::ListenerClosed { addresses, .. } => {
                out.push(WorkerOutput::Metric(MetricEvent::ListenAddressesRemoved(addresses.len() as u64)));
                let ghost w0 = *self;
                let mut i: usize = 0;
                while i < addresses.len()
                    invariant
                        self.wf(),
                        i <= addresses@.len(),
                        self.unchanged_but(&w0, false, false, false, true, false, false, false, false),
                        forall|j: int| 0 <= j < i ==> !self.listening((#[trigger] addresses@[j])@),
                        forall|b: Seq<crate::peer::ProtocolView>|
                            !seq_has_addr(addresses@.take(i as int), b) ==> #[trigger] self.listening(b) == w0.listening(b),
                    decreases addresses@.len() - i,
                {
                    self.remove_listen_address(&addresses[i]);
                    proof {
                        assert forall|b: Seq<crate::peer::ProtocolView>|
                            !seq_has_addr(addresses@.take(i + 1), b) implies #[trigger] self.listening(b) == w0.listening(b) by {
                            assert(addresses@.take(i + 1)[i as int] == addresses@[i as int]);
                            if seq_has_addr(addresses@.take(i as int), b) {
                                let k = choose|k: int| 0 <= k < addresses@.take(i as int).len() && (#[trigger] addresses@.take(i as int)[k])@ == b;
                                assert(addresses@.take(i + 1)[k] == addresses@.take(i as int)[k]);
                            }
                        }
                    }
                    i = i + 1;
                }
                proof {
                    assert(addresses@.take(i as int) =~= addresses@);
                }
            },
            SwarmEvent::ListenerError { .. } => {
                out.push(WorkerOutput::Metric(MetricEvent::ListenerError));
            },
            SwarmEvent::Dialing(_) => {},
        }
        out
    }

    #[verifier::loop_isolation(false)]
    fn take_token(&mut self, id: u64) -> (r: Option<u64>)
        requires
            old(self).wf(),
        ensures
            final(self).wf(),
            final(self).unchanged_but(old(self), false, false, false, false, false, false, true, false),
    {
        let mut i: usize = 0;
        let mut found: Option<usize> = None;
        while i < self.request_tokens.len() && found.is_none()
            invariant
                i <= self.request_tokens@.len(),
                found is Some ==> found->0 < self.request_tokens@.len(),
            decreases self.request_tokens@.len() - i,
        {
            if self.request_tokens[i].0 == id {
                found = Some(i);
            }
            i = i + 1;
        }
        match found {
            Some(k) => {
                let (_, token) = self.request_tokens.remove(k);
                Some(token)
            },
            None => None,
        }
    }

    /// When a bootnode, dialed at one of its configured addresses, answered with another
    /// identity, reports it once.
    #[verifier::loop_isolation(false)]
    fn check_boot_node_identity(&mut self, p: &PeerId, error: &DialError) -> (r: Option<WorkerOutput>)
        requires
            old(self).wf(),
        ensures
            final(self).wf(),
            final(self).unchanged_but(old(self), false, false, false, false, false, false, false, true),
            forall|q: (u64, Seq<u8>)| old(self).reported_boot_node(q) ==> #[trigger] final(self).reported_boot_node(q),
            r is None ==> final(self).reported_invalid_boot_nodes == old(self).reported_invalid_boot_nodes,
            r is Some ==> r->0 is InvalidBootNode && !old(self).reported_boot_node(p@) && final(self).reported_boot_node(p@),
    {
        if position(&self.reported_invalid_boot_nodes, p).is_some() {
            return None;
        }
        assert(!self.reported_boot_node(p@));
        match error {
            DialError::WrongPeerId { obtained, endpoint: ConnectedPoint::Dialer { address } } => {
                let bare = address_without_peer_id(address);
                let mut i: usize = 0;
                let mut matched = false;
                while i < self.boot_nodes.len()
                    invariant
                        i <= self.boot_nodes@.len(),
                    decreases self.boot_nodes@.len() - i,
                {
                    if self.boot_nodes[i].peer_id.same(p) && self.boot_nodes[i].multiaddr.same(&bare) {
                        matched = true;
                    }
                    i = i + 1;
                }
                if matched {
                    let d = p.duplicate();
                    proof {
                        lemma_push_peer(self.reported_invalid_boot_nodes@, d);
                    }
                    self.reported_invalid_boot_nodes.push(d);
                    Some(
                        WorkerOutput::InvalidBootNode {
                            address: address.duplicate(),
                            expected: p.duplicate(),
                            obtained: obtained.duplicate(),
                        },
                    )
                } else {
                    None
                }
            },
            _ => None,
        }
    }

    /// Applies every queued command of the service, oldest first: the result is that of
    /// applying the commands one after the other in submission order.
    pub fn process_commands(&mut self, service: &mut NetworkService) -> (r: Vec<WorkerOutput>)
        requires
            old(self).wf(),
        ensures
            final(self).wf(),
            messages_applied(*old(self), old(service).pending(), *final(self), r@),
            final(self).applied_commands() == old(self).applied_commands() + old(service).pending(),
            final(service).pending().len() == 0,
            final(service).local() == old(service).local(),
            final(service).protocols() == old(service).protocols(),
    {
        let mut out: Vec<WorkerOutput> = Vec::new();
        let ghost all = service.pending();
        let ghost w0 = *self;
        let ghost mut k: int = 0;
        let ghost mut ws: Seq<NetworkWorker> = seq![*self];
        let ghost mut outs: Seq<Seq<WorkerOutput>> = Seq::empty();
        proof {
            assert(all.take(0) =~= Seq::<MsgView>::empty());
            assert(out@ =~= outs.flatten());
        }
        while service.num_pending() > 0
            invariant
                self.wf(),
                0 <= k <= all.len(),
                service.pending() == all.subrange(k, all.len() as int),
                applied_trace(w0, all.take(k), *self, out@, ws, outs),
                self.applied_commands() == w0.applied_commands() + all.take(k),
                all == old(service).pending(),
                w0 == *old(self),
                service.local() == old(service).local(),
                service.protocols() == old(service).protocols(),
            decreases service.pending().len(),
        {
            let ghost prev_out = out@;
            if let Some(msg) = service.next_command() {
                proof {
                    assert(msg@ == all[k]);
                }
                let mut more = self.handle_worker_message(msg);
                let ghost more_v = more@;
                out.append(&mut more);
                proof {
                    let t = all.take(k + 1);
                    let ws2 = ws.push(*self);
                    let outs2 = outs.push(more_v);
                    outs.lemma_flatten_push(more_v);
                    assert(out@ =~= outs2.flatten());
                    assert forall|i: int| 0 <= i < t.len() implies #[trigger] message_applied(ws2[i], t[i], ws2[i + 1], outs2[i]) by {
                        if i < k {
                            assert(t[i] == all.take(k)[i]);
                            assert(ws2[i] == ws[i] && ws2[i + 1] == ws[i + 1] && outs2[i] == outs[i]);
                        } else {
                            assert(t[i] == all[k]);
                        }
                    }
                    assert(applied_trace(w0, t, *self, out@, ws2, outs2));
                    assert(self.applied_commands() =~= w0.applied_commands() + t);
                    ws = ws2;
                    outs = outs2;
                    k = k + 1;
                    assert(service.pending() =~= all.subrange(k, all.len() as int));
                }
            }
        }
        proof {
            assert(all.take(k) =~= all);
            assert(applied_trace(*old(self), old(service).pending(), *self, out@, ws, outs));
        }
        proof {
            assert(all.take(k) =~= all);
        }
        out
    }
}

/// Commands `ms` applied one after the other to `w0` give `w1` and the outputs `out`.
pub open spec fn messages_applied(w0: NetworkWorker, ms: Seq<MsgView>, w1: NetworkWorker, out: Seq<WorkerOutput>) -> bool {
    exists|ws: Seq<NetworkWorker>, outs: Seq<Seq<WorkerOutput>>| #[trigger] applied_trace(w0, ms, w1, out, ws, outs)
}

/// `ws` are the workers between the commands `ms` and `outs` what each command gave.
pub open spec fn applied_trace(
    w0: NetworkWorker,
    ms: Seq<MsgView>,
    w1: NetworkWorker,
    out: Seq<WorkerOutput>,
    ws: Seq<NetworkWorker>,
    outs: Seq<Seq<WorkerOutput>>,
) -> bool {
    &&& ws.len() == ms.len() + 1
    &&& outs.len() == ms.len()
    &&& ws[0] == w0
    &&& ws[ms.len() as int] == w1
    &&& out == outs.flatten()
    &&& forall|i: int| 0 <= i < ms.len() ==> #[trigger] message_applied(ws[i], ms[i], ws[i + 1], outs[i])
}

/// The addresses of a list of nodes.
pub open spec fn node_addrs(nodes: Seq<MultiaddrWithPeerId>) -> Seq<Seq<crate::peer::ProtocolView>> {
    nodes.map_values(|n: MultiaddrWithPeerId| n.multiaddr@)
}

/// The bootnodes, the local node left out.
pub open spec fn boot_without_local(p: &Params) -> Seq<MultiaddrWithPeerId> {
    without_local(p.boot_nodes@, p.local_peer_id@)
}

/// Every configured address suits the transport.
pub open spec fn addresses_accepted(p: &Params) -> bool {
    let boot = without_local(p.boot_nodes@, p.local_peer_id@);
    let reserved = without_local(p.default_peers_set.reserved_nodes@, p.local_peer_id@);
    &&& foreign_addresses(p.listen_addresses@.map_values(|a: Multiaddr| a@), p.transport).len() == 0
    &&& foreign_addresses(node_addrs(boot), p.transport).len() == 0
    &&& foreign_addresses(node_addrs(reserved), p.transport).len() == 0
    &&& forall|j: int|
        0 <= j < p.notification_protocols@.len() ==> foreign_addresses(
            node_addrs((#[trigger] p.notification_protocols@[j]).set_config.reserved_nodes@),
            p.transport,
        ).len() == 0
    &&& foreign_addresses(p.public_addresses@.map_values(|a: Multiaddr| a@), p.transport).len() == 0
}

/// No two bootnodes share an address under different identities, the local node left out.
pub open spec fn bootnodes_accepted(p: &Params) -> bool {
    let boot = without_local(p.boot_nodes@, p.local_peer_id@);
    forall|i: int, j: int| 0 <= i < boot.len() && 0 <= j < boot.len() ==> !conflicting(boot, i, j)
}

/// What a worker built from `p` holds: each set reserves the peers configured for it but
/// the local one, and the address book knows every configured node but the local one.
pub open spec fn built_as_configured(w: NetworkWorker, p: &Params) -> bool {
    let local = p.local_peer_id@;
    &&& forall|q: (u64, Seq<u8>)|
        #[trigger] w.controller(0).is_reserved(q) == node_named(p.default_peers_set.reserved_nodes@, q, local)
    &&& forall|i: int, q: (u64, Seq<u8>)|
        1 <= i <= p.notification_protocols@.len() ==> #[trigger] w.controller(i).is_reserved(q) == node_named(
            p.notification_protocols@[i - 1].set_config.reserved_nodes@,
            q,
            local,
        )
    &&& forall|i: int|
        0 <= i < p.default_peers_set.reserved_nodes@.len() && (#[trigger] p.default_peers_set.reserved_nodes@[i]).peer_id@
            != local ==> w.knows_address(
            p.default_peers_set.reserved_nodes@[i].peer_id@,
            p.default_peers_set.reserved_nodes@[i].multiaddr@,
        )
    &&& forall|j: int, i: int|
        0 <= j < p.notification_protocols@.len() && 0 <= i < p.notification_protocols@[j].set_config.reserved_nodes@.len()
            && (#[trigger] p.notification_protocols@[j].set_config.reserved_nodes@[i]).peer_id@ != local
            ==> w.knows_address(
            p.notification_protocols@[j].set_config.reserved_nodes@[i].peer_id@,
            p.notification_protocols@[j].set_config.reserved_nodes@[i].multiaddr@,
        )
    &&& forall|i: int|
        0 <= i < p.boot_nodes@.len() && (#[trigger] p.boot_nodes@[i]).peer_id@ != local ==> w.knows_address(
            p.boot_nodes@[i].peer_id@,
            p.boot_nodes@[i].multiaddr@,
        )
}

/// Whether the worker can be built from `p`: every address suits the transport, no two
/// bootnodes share an address under different identities (the local node left out), and
/// no two request-response protocols share a name.
pub open spec fn config_accepted(p: &Params) -> bool {
    addresses_accepted(p) && bootnodes_accepted(p) && config_names_distinct(p)
}

/// No two request-response protocols share a name.
pub open spec fn config_names_distinct(p: &Params) -> bool {
    distinct_names(p.request_response_protocols@.map_values(|c: ProtocolConfig| c.name@))
}

/// The addresses of a list of nodes.
fn addresses_of_nodes(nodes: &Vec<MultiaddrWithPeerId>) -> (r: Vec<Multiaddr>)
    ensures
        r@.map_values(|a: Multiaddr| a@) == node_addrs(nodes@),
{
    let mut out: Vec<Multiaddr> = Vec::new();
    let mut i: usize = 0;
    while i < nodes.len()
        invariant
            i <= nodes@.len(),
            out@.len() == i,
            forall|k: int| 0 <= k < i ==> (#[trigger] out@[k])@ == nodes@[k].multiaddr@,
        decreases nodes@.len() - i,
    {
        out.push(nodes[i].multiaddr.duplicate());
        i = i + 1;
    }
    assert(out@.map_values(|a: Multiaddr| a@) =~= node_addrs(nodes@));
    out
}

/// Whether `q` is the identity of one of `nodes` and not the local one.
pub open spec fn node_named(nodes: Seq<MultiaddrWithPeerId>, q: (u64, Seq<u8>), local: (u64, Seq<u8>)) -> bool {
    q != local && exists|k: int| 0 <= k < nodes.len() && (#[trigger] nodes[k]).peer_id@ == q
}

proof fn lemma_without_local_named(nodes: Seq<MultiaddrWithPeerId>, q: (u64, Seq<u8>), local: (u64, Seq<u8>))
    ensures
        node_named(without_local(nodes, local), q, local) == node_named(nodes, q, local),
{
    let f = without_local(nodes, local);
    if node_named(nodes, q, local) {
        let k = choose|k: int| 0 <= k < nodes.len() && (#[trigger] nodes[k]).peer_id@ == q;
        nodes.lemma_filter_contains(not_local(local), k);
        let j = choose|j: int| 0 <= j < f.len() && f[j] == nodes[k];
        assert(f[j].peer_id@ == q);
    }
    if node_named(f, q, local) {
        let j = choose|j: int| 0 <= j < f.len() && (#[trigger] f[j]).peer_id@ == q;
        assert(f.contains(f[j]));
        nodes.lemma_filter_contains_rev(not_local(local), f[j]);
        let k = choose|k: int| 0 <= k < nodes.len() && nodes[k] == f[j];
        assert(nodes[k].peer_id@ == q);
    }
}

proof fn lemma_without_local_keeps(nodes: Seq<MultiaddrWithPeerId>, i: int, local: (u64, Seq<u8>))
    requires
        0 <= i < nodes.len(),
        nodes[i].peer_id@ != local,
    ensures
        exists|j: int| 0 <= j < without_local(nodes, local).len() && without_local(nodes, local)[j] == nodes[i],
{
    nodes.lemma_filter_contains(not_local(local), i);
    assert(without_local(nodes, local).contains(nodes[i]));
}

/// The identities of a list of nodes, the local one left out.
fn peers_of_nodes(nodes: &Vec<MultiaddrWithPeerId>, local: &PeerId) -> (r: Vec<PeerId>)
    ensures
        forall|q: (u64, Seq<u8>)| #[trigger] contains_peer(r@, q) == node_named(nodes@, q, local@),
{
    let mut out: Vec<PeerId> = Vec::new();
    let mut i: usize = 0;
    while i < nodes.len()
        invariant
            i <= nodes@.len(),
            forall|q: (u64, Seq<u8>)| #[trigger] contains_peer(out@, q) == node_named(nodes@.take(i as int), q, local@),
        decreases nodes@.len() - i,
    {
        let ghost before = out@;
        if !nodes[i].peer_id.same(local) {
            let d = nodes[i].peer_id.duplicate();
            proof {
                lemma_push_peer(before, d);
            }
            out.push(d);
        }
        proof {
            assert forall|q: (u64, Seq<u8>)| #[trigger] contains_peer(out@, q) == node_named(nodes@.take(i + 1), q, local@) by {
                let t = nodes@.take(i + 1);
                if node_named(t, q, local@) {
                    let k = choose|k: int| 0 <= k < t.len() && (#[trigger] t[k]).peer_id@ == q;
                    if k < i {
                        assert(nodes@.take(i as int)[k] == t[k]);
                    }
                }
                if node_named(nodes@.take(i as int), q, local@) {
                    let k = choose|k: int| 0 <= k < i && (#[trigger] nodes@.take(i as int)[k]).peer_id@ == q;
                    assert(t[k] == nodes@.take(i as int)[k]);
                }
                if q == nodes@[i as int].peer_id@ && q != local@ {
                    assert(t[i as int] == nodes@[i as int]);
                }
            }
        }
        i = i + 1;
    }
    proof {
        assert(nodes@.take(i as int) =~= nodes@);
    }
    out
}

/// Adds each node's identity and address to the address book, once each, leaving the
/// local identity out.
fn add_nodes_to_book(book: &mut Vec<(PeerId, Multiaddr)>, nodes: &Vec<MultiaddrWithPeerId>, local: &PeerId)
    requires
        forall|i: int| 0 <= i < old(book)@.len() ==> (#[trigger] old(book)@[i]).0@ != local@,
    ensures
        forall|i: int| 0 <= i < final(book)@.len() ==> (#[trigger] final(book)@[i]).0@ != local@,
        forall|i: int|
            0 <= i < nodes@.len() && (#[trigger] nodes@[i]).peer_id@ != local@ ==> in_book(
                final(book)@,
                nodes@[i].peer_id@,
                nodes@[i].multiaddr@,
            ),
        forall|q: (u64, Seq<u8>), a: Seq<crate::peer::ProtocolView>|
            #[trigger] in_book(old(book)@, q, a) ==> in_book(final(book)@, q, a),
{
    let mut i: usize = 0;
    while i < nodes.len()
        invariant
            i <= nodes@.len(),
            forall|k: int| 0 <= k < book@.len() ==> (#[trigger] book@[k]).0@ != local@,
            forall|k: int|
                0 <= k < i && (#[trigger] nodes@[k]).peer_id@ != local@ ==> in_book(book@, nodes@[k].peer_id@, nodes@[k].multiaddr@),
            forall|q: (u64, Seq<u8>), a: Seq<crate::peer::ProtocolView>|
                #[trigger] in_book(old(book)@, q, a) ==> in_book(book@, q, a),
        decreases nodes@.len() - i,
    {
        let n = &nodes[i];
        if !n.peer_id.same(local) && !book_contains(book, &n.peer_id, &n.multiaddr) {
            let ghost before = book@;
            book.push((n.peer_id.duplicate(), n.multiaddr.duplicate()));
            proof {
                assert(book@[before.len() as int].0@ == n.peer_id@);
                assert forall|q: (u64, Seq<u8>), a: Seq<crate::peer::ProtocolView>|
                    in_book(before, q, a) implies #[trigger] in_book(book@, q, a) by {
                    let w = choose|w: int| 0 <= w < before.len() && (#[trigger] before[w]).0@ == q && before[w].1@ == a;
                    assert(book@[w] == before[w]);
                }
                assert forall|q: (u64, Seq<u8>), a: Seq<crate::peer::ProtocolView>|
                    #[trigger] in_book(old(book)@, q, a) implies in_book(book@, q, a) by {
                    if in_book(old(book)@, q, a) {
                        assert(in_book(before, q, a));
                        let w = choose|w: int| 0 <= w < before.len() && (#[trigger] before[w]).0@ == q && before[w].1@ == a;
                        assert(book@[w] == before[w]);
                    }
                }
                assert forall|k: int| 0 <= k < i && (#[trigger] nodes@[k]).peer_id@ != local@ implies in_book(
                    book@,
                    nodes@[k].peer_id@,
                    nodes@[k].multiaddr@,
                ) by {
                    assert(in_book(before, nodes@[k].peer_id@, nodes@[k].multiaddr@));
                    let w = choose|w: int| 0 <= w < before.len() && (#[trigger] before[w]).0@ == nodes@[k].peer_id@
                        && before[w].1@ == nodes@[k].multiaddr@;
                    assert(book@[w] == before[w]);
                }
            }
        }
        i = i + 1;
    }
}

/// Whether the address book holds the address for the peer.
fn book_contains(book: &Vec<(PeerId, Multiaddr)>, p: &PeerId, a: &Multiaddr) -> (r: bool)
    ensures
        r == in_book(book@, p@, a@),
{
    let mut i: usize = 0;
    while i < book.len()
        invariant
            i <= book@.len(),
            forall|k: int| 0 <= k < i ==> !((#[trigger] book@[k]).0@ == p@ && book@[k].1@ == a@),
        decreases book@.len() - i,
    {
        if book[i].0.same(p) && book[i].1.same(a) {
            return true;
        }
        i = i + 1;
    }
    false
}

/// Appends the admission decisions of a set to the outputs.
fn push_actions(out: &mut Vec<WorkerOutput>, set_id: SetId, actions: Vec<ControllerAction>)
    ensures
        final(out)@.len() == old(out)@.len() + actions@.len(),
        forall|i: int| 0 <= i < old(out)@.len() ==> final(out)@[i] == old(out)@[i],
        forall|i: int|
            old(out)@.len() <= i < final(out)@.len() ==> (#[trigger] final(out)@[i]) is Controller
                && final(out)@[i]->Controller_0 == set_id,
{
    let mut rest = actions;
    let ghost start = out@;
    let ghost n = rest@.len();
    while rest.len() > 0
        invariant
            out@.len() + rest@.len() == start.len() + n,
            start.len() <= out@.len(),
            forall|i: int| 0 <= i < start.len() ==> out@[i] == start[i],
            forall|i: int|
                start.len() <= i < out@.len() ==> (#[trigger] out@[i]) is Controller && out@[i]->Controller_0 == set_id,
        decreases rest@.len(),
    {
        let a = rest.remove(0);
        out.push(WorkerOutput::Controller(set_id, a));
    }
}

} // verus!
