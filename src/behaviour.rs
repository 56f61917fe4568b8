//! The composite behaviour's event type, and the explicit mapping of each sub-protocol's
//! events into it.
use crate::notifications::SinkHandle;
use crate::peer::{Direction, Multiaddr, PeerId};
use crate::peer_store::ReputationChange;
use crate::protocol_controller::SetId;
use crate::request_responses::{RequestFailure, ResponseFailure};
use vstd::prelude::*;

verus! {

/// A record of the DHT.
#[derive(Clone, Debug)]
pub struct DhtRecord {
    pub key: Vec<u8>,
    pub value: Vec<u8>,
}

/// Outcome of a DHT query.
#[derive(Clone, Debug)]
pub enum DhtEvent {
    /// The records found under the key.
    ValueFound(Vec<DhtRecord>),
    /// Nothing was found under the key.
    ValueNotFound(Vec<u8>),
    /// The record under the key was stored.
    ValuePut(Vec<u8>),
    /// The record under the key could not be stored.
    ValuePutFailed(Vec<u8>),
}

/// What a peer told about itself.
#[derive(Debug)]
pub struct IdentifyInfo {
    pub protocol_version: String,
    pub agent_version: String,
    pub listen_addrs: Vec<Multiaddr>,
    pub protocols: Vec<String>,
}

/// Events of the discovery sub-protocol. Durations are in milliseconds.
#[derive(Debug)]
pub enum DiscoveryOut {
    /// A peer was found whose addresses are not known.
    UnroutablePeer(PeerId),
    /// A peer was found.
    Discovered(PeerId),
    /// A query found records.
    ValueFound(Vec<DhtRecord>, u64),
    /// A query found nothing under the key.
    ValueNotFound(Vec<u8>, u64),
    /// A record was stored.
    ValuePut(Vec<u8>, u64),
    /// A record could not be stored.
    ValuePutFailed(Vec<u8>, u64),
    /// A random walk started.
    RandomKademliaStarted,
}

/// Event of the peer-info sub-protocol.
#[derive(Debug)]
pub enum PeerInfoEvent {
    /// A peer was identified.
    Identified { peer_id: PeerId, info: IdentifyInfo },
}

/// Events of the notification protocols.
#[derive(Debug)]
pub enum CustomMessageOutcome {
    /// A substream opened.
    NotificationStreamOpened {
        remote: PeerId,
        set_id: SetId,
        direction: Direction,
        negotiated_fallback: Option<String>,
        received_handshake: Vec<u8>,
        notifications_sink: SinkHandle,
    },
    /// The peer's sink was replaced.
    NotificationStreamReplaced { remote: PeerId, set_id: SetId, notifications_sink: SinkHandle },
    /// A substream closed.
    NotificationStreamClosed { remote: PeerId, set_id: SetId },
    /// A notification came in.
    NotificationsReceived { remote: PeerId, set_id: SetId, notification: Vec<u8> },
}

/// Events of the request-response protocols. Durations are in milliseconds.
#[derive(Debug)]
pub enum RequestResponsesEvent {
    /// An inbound request was answered, or failed.
    InboundRequest { peer: PeerId, protocol: String, result: Result<u64, ResponseFailure> },
    /// An outbound request finished.
    RequestFinished { peer: PeerId, protocol: String, duration: u64, result: Result<(), RequestFailure> },
    /// A handler asked for reputation changes.
    ReputationChanges { peer: PeerId, changes: Vec<ReputationChange> },
}

/// Event generated by the composite behaviour.
#[derive(Debug)]
pub enum BehaviourOut {
    /// Started a random iterative Kademlia discovery query.
    RandomKademliaStarted,
    /// We have received a request from a peer and answered it.
    InboundRequest { peer: PeerId, protocol: String, result: Result<u64, ResponseFailure> },
    /// A request has succeeded or failed.
    RequestFinished { peer: PeerId, protocol: String, duration: u64, result: Result<(), RequestFailure> },
    /// A request protocol handler issued reputation changes for the given peer.
    ReputationChanges { peer: PeerId, changes: Vec<ReputationChange> },
    /// Opened a substream with the given node with the given notifications protocol.
    NotificationStreamOpened {
        remote: PeerId,
        set_id: SetId,
        direction: Direction,
        negotiated_fallback: Option<String>,
        notifications_sink: SinkHandle,
        received_handshake: Vec<u8>,
    },
    /// The sink used to send notifications to the peer must be replaced by this one.
    NotificationStreamReplaced { remote: PeerId, set_id: SetId, notifications_sink: SinkHandle },
    /// Closed a substream with the given node.
    NotificationStreamClosed { remote: PeerId, set_id: SetId },
    /// Received a message from the given node.
    NotificationsReceived { remote: PeerId, set_id: SetId, notification: Vec<u8> },
    /// We have obtained identity information from a peer.
    PeerIdentify { peer_id: PeerId, info: IdentifyInfo },
    /// We have learned about the existence of a node on the default set.
    Discovered(PeerId),
    /// Outcome of a DHT query, with its duration in milliseconds.
    Dht(DhtEvent, u64),
    /// Ignored event generated by lower layers.
    Ignored,
}

/// How a notification event maps to a behaviour event.
pub open spec fn from_notification(e: CustomMessageOutcome) -> BehaviourOut {
    match e {
        CustomMessageOutcome::NotificationStreamOpened {
            remote,
            set_id,
            direction,
            negotiated_fallback,
            received_handshake,
            notifications_sink,
        } => BehaviourOut::NotificationStreamOpened {
            remote,
            set_id,
            direction,
            negotiated_fallback,
            notifications_sink,
            received_handshake,
        },
        CustomMessageOutcome::NotificationStreamReplaced { remote, set_id, notifications_sink } =>
            BehaviourOut::NotificationStreamReplaced { remote, set_id, notifications_sink },
        CustomMessageOutcome::NotificationStreamClosed { remote, set_id } =>
            BehaviourOut::NotificationStreamClosed { remote, set_id },
        CustomMessageOutcome::NotificationsReceived { remote, set_id, notification } =>
            BehaviourOut::NotificationsReceived { remote, set_id, notification },
    }
}

/// How a request-response event maps to a behaviour event.
pub open spec fn from_request_responses(e: RequestResponsesEvent) -> BehaviourOut {
    match e {
        RequestResponsesEvent::InboundRequest { peer, protocol, result } =>
            BehaviourOut::InboundRequest { peer, protocol, result },
        RequestResponsesEvent::RequestFinished { peer, protocol, duration, result } =>
            BehaviourOut::RequestFinished { peer, protocol, duration, result },
        RequestResponsesEvent::ReputationChanges { peer, changes } =>
            BehaviourOut::ReputationChanges { peer, changes },
    }
}

/// How a peer-info event maps to a behaviour event.
pub open spec fn from_peer_info(e: PeerInfoEvent) -> BehaviourOut {
    match e {
        PeerInfoEvent::Identified { peer_id, info } => BehaviourOut::PeerIdentify { peer_id, info },
    }
}

/// How a discovery event maps to a behaviour event. An unroutable peer is ignored here:
/// its addresses come through identification instead.
pub open spec fn from_discovery(e: DiscoveryOut) -> BehaviourOut {
    match e {
        DiscoveryOut::UnroutablePeer(_) => BehaviourOut::Ignored,
        DiscoveryOut::Discovered(p) => BehaviourOut::Discovered(p),
        DiscoveryOut::ValueFound(r, d) => BehaviourOut::Dht(DhtEvent::ValueFound(r), d),
        DiscoveryOut::ValueNotFound(k, d) => BehaviourOut::Dht(DhtEvent::ValueNotFound(k), d),
        DiscoveryOut::ValuePut(k, d) => BehaviourOut::Dht(DhtEvent::ValuePut(k), d),
        DiscoveryOut::ValuePutFailed(k, d) => BehaviourOut::Dht(DhtEvent::ValuePutFailed(k), d),
        DiscoveryOut::RandomKademliaStarted => BehaviourOut::RandomKademliaStarted,
    }
}

impl From<CustomMessageOutcome> for BehaviourOut {
    fn from(event: CustomMessageOutcome) -> (r: BehaviourOut)
        ensures
            r == from_notification(event),
    {
        match event {
            CustomMessageOutcome::NotificationStreamOpened {
                remote,
                set_id,
                direction,
                negotiated_fallback,
                received_handshake,
                notifications_sink,
            } => BehaviourOut::NotificationStreamOpened {
                remote,
                set_id,
                direction,
                negotiated_fallback,
                notifications_sink,
                received_handshake,
            },
            CustomMessageOutcome::NotificationStreamReplaced { remote, set_id, notifications_sink } =>
                BehaviourOut::NotificationStreamReplaced { remote, set_id, notifications_sink },
            CustomMessageOutcome::NotificationStreamClosed { remote, set_id } =>
                BehaviourOut::NotificationStreamClosed { remote, set_id },
            CustomMessageOutcome::NotificationsReceived { remote, set_id, notification } =>
                BehaviourOut::NotificationsReceived { remote, set_id, notification },
        }
    }
}

impl vstd::std_specs::convert::FromSpecImpl<CustomMessageOutcome> for BehaviourOut {
    open spec fn obeys_from_spec() -> bool {
        true
    }

    open spec fn from_spec(event: CustomMessageOutcome) -> BehaviourOut {
        from_notification(event)
    }
}

impl From<RequestResponsesEvent> for BehaviourOut {
    fn from(event: RequestResponsesEvent) -> (r: BehaviourOut)
        ensures
            r == from_request_responses(event),
    {
        match event {
            RequestResponsesEvent::InboundRequest { peer, protocol, result } =>
                BehaviourOut::InboundRequest { peer, protocol, result },
            RequestResponsesEvent::RequestFinished { peer, protocol, duration, result } =>
                BehaviourOut::RequestFinished { peer, protocol, duration, result },
            RequestResponsesEvent::ReputationChanges { peer, changes } =>
                BehaviourOut::ReputationChanges { peer, changes },
        }
    }
}

impl vstd::std_specs::convert::FromSpecImpl<RequestResponsesEvent> for BehaviourOut {
    open spec fn obeys_from_spec() -> bool {
        true
    }

    open spec fn from_spec(event: RequestResponsesEvent) -> BehaviourOut {
        from_request_responses(event)
    }
}

impl From<PeerInfoEvent> for BehaviourOut {
    fn from(event: PeerInfoEvent) -> (r: BehaviourOut)
        ensures
            r == from_peer_info(event),
    {
        match event {
            PeerInfoEvent::Identified { peer_id, info } => BehaviourOut::PeerIdentify { peer_id, info },
        }
    }
}

impl vstd::std_specs::convert::FromSpecImpl<PeerInfoEvent> for BehaviourOut {
    open spec fn obeys_from_spec() -> bool {
        true
    }

    open spec fn from_spec(event: PeerInfoEvent) -> BehaviourOut {
        from_peer_info(event)
    }
}

impl From<DiscoveryOut> for BehaviourOut {
    fn from(event: DiscoveryOut) -> (r: BehaviourOut)
        ensures
            r == from_discovery(event),
    {
        match event {
            DiscoveryOut::UnroutablePeer(_) => BehaviourOut::Ignored,
            DiscoveryOut::Discovered(p) => BehaviourOut::Discovered(p),
            DiscoveryOut::ValueFound(r, d) => BehaviourOut::Dht(DhtEvent::ValueFound(r), d),
            DiscoveryOut::ValueNotFound(k, d) => BehaviourOut::Dht(DhtEvent::ValueNotFound(k), d),
            DiscoveryOut::ValuePut(k, d) => BehaviourOut::Dht(DhtEvent::ValuePut(k), d),
            DiscoveryOut::ValuePutFailed(k, d) => BehaviourOut::Dht(DhtEvent::ValuePutFailed(k), d),
            DiscoveryOut::RandomKademliaStarted => BehaviourOut::RandomKademliaStarted,
        }
    }
}

impl vstd::std_specs::convert::FromSpecImpl<DiscoveryOut> for BehaviourOut {
    open spec fn obeys_from_spec() -> bool {
        true
    }

    open spec fn from_spec(event: DiscoveryOut) -> BehaviourOut {
        from_discovery(event)
    }
}

} // verus!
