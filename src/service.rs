//! The façade the rest of the node uses: it validates arguments, rejects the local
//! identity, and queues commands for the worker in submission order.
use crate::bytes::copy_bytes;
use crate::peer::{contains_peer, position, split_peer, trailing_peer, Multiaddr, PeerId, ProtocolView, SplitError};
use crate::peer_store::{ObservedRole, PeerStoreProvider, ReputationChange};
use crate::protocol_controller::SetId;
use crate::request_responses::IfDisconnected;
use vstd::prelude::*;
use vstd::string::StringExecFns;

verus! {

/// Messages sent from the service to the worker.
#[derive(Debug)]
pub enum ServiceToWorkerMsg {
    /// Look a key up in the DHT.
    GetValue(Vec<u8>),
    /// Store a record in the DHT.
    PutValue(Vec<u8>, Vec<u8>),
    /// Remember an address of a peer.
    AddKnownAddress(PeerId, Multiaddr),
    /// Register one more event subscriber.
    EventStream,
    /// Send a request; the answer is reported under `token`.
    Request {
        token: u64,
        target: PeerId,
        protocol: String,
        request: Vec<u8>,
        fallback_request: Option<(Vec<u8>, String)>,
        connect: IfDisconnected,
    },
    /// Report the network status under `token`.
    NetworkStatus { token: u64 },
    /// Report the network state under `token`.
    NetworkState { token: u64 },
    /// Close the notification substream with the peer on the protocol.
    DisconnectPeer(PeerId, String),
    /// Change the reputation of a peer.
    ReportPeer(PeerId, ReputationChange),
    /// Replace the reserved peers of a set.
    SetReservedPeers { set_id: SetId, peers: Vec<PeerId> },
    /// Reserve a peer on a set.
    AddReservedPeer { set_id: SetId, peer: PeerId },
    /// Stop reserving a peer on a set.
    RemoveReservedPeer { set_id: SetId, peer: PeerId },
    /// Switch the reserved-only mode of a set.
    SetReservedOnly { set_id: SetId, reserved_only: bool },
}

/// What a message carries, as plain values.
pub enum MsgView {
    GetValue(Seq<u8>),
    PutValue(Seq<u8>, Seq<u8>),
    AddKnownAddress((u64, Seq<u8>), Seq<ProtocolView>),
    EventStream,
    Request {
        token: u64,
        target: (u64, Seq<u8>),
        protocol: Seq<char>,
        request: Seq<u8>,
        fallback: Option<(Seq<u8>, Seq<char>)>,
        connect: IfDisconnected,
    },
    NetworkStatus { token: u64 },
    NetworkState { token: u64 },
    DisconnectPeer((u64, Seq<u8>), Seq<char>),
    ReportPeer((u64, Seq<u8>), i32),
    SetReservedPeers { set_id: SetId, peers: Seq<(u64, Seq<u8>)> },
    AddReservedPeer { set_id: SetId, peer: (u64, Seq<u8>) },
    RemoveReservedPeer { set_id: SetId, peer: (u64, Seq<u8>) },
    SetReservedOnly { set_id: SetId, reserved_only: bool },
}

/// The identities of a list of peers.
pub open spec fn ids(peers: Seq<PeerId>) -> Seq<(u64, Seq<u8>)> {
    peers.map_values(|p: PeerId| p@)
}

impl View for ServiceToWorkerMsg {
    type V = MsgView;

    open spec fn view(&self) -> MsgView {
        match self {
            ServiceToWorkerMsg::GetValue(k) => MsgView::GetValue(k@),
            ServiceToWorkerMsg::PutValue(k, v) => MsgView::PutValue(k@, v@),
            ServiceToWorkerMsg::AddKnownAddress(p, a) => MsgView::AddKnownAddress(p@, a@),
            ServiceToWorkerMsg::EventStream => MsgView::EventStream,
            ServiceToWorkerMsg::Request { token, target, protocol, request, fallback_request, connect } =>
                MsgView::Request {
                token: *token,
                target: target@,
                protocol: protocol@,
                request: request@,
                fallback: match fallback_request {
                    Some((b, n)) => Some((b@, n@)),
                    None => None,
                },
                connect: *connect,
            },
            ServiceToWorkerMsg::NetworkStatus { token } => MsgView::NetworkStatus { token: *token },
            ServiceToWorkerMsg::NetworkState { token } => MsgView::NetworkState { token: *token },
            ServiceToWorkerMsg::DisconnectPeer(p, n) => MsgView::DisconnectPeer(p@, n@),
            ServiceToWorkerMsg::ReportPeer(p, c) => MsgView::ReportPeer(p@, c.value),
            ServiceToWorkerMsg::SetReservedPeers { set_id, peers } => MsgView::SetReservedPeers {
                set_id: *set_id,
                peers: ids(peers@),
            },
            ServiceToWorkerMsg::AddReservedPeer { set_id, peer } => MsgView::AddReservedPeer {
                set_id: *set_id,
                peer: peer@,
            },
            ServiceToWorkerMsg::RemoveReservedPeer { set_id, peer } => MsgView::RemoveReservedPeer {
                set_id: *set_id,
                peer: peer@,
            },
            ServiceToWorkerMsg::SetReservedOnly { set_id, reserved_only } => MsgView::SetReservedOnly {
                set_id: *set_id,
                reserved_only: *reserved_only,
            },
        }
    }
}

/// The views of a list of messages.
pub open spec fn msgs(m: Seq<ServiceToWorkerMsg>) -> Seq<MsgView> {
    m.map_values(|x: ServiceToWorkerMsg| x@)
}

/// What a well-formed peer-set update is made of: each address ends with a valid peer
/// identity other than the local one.
pub open spec fn valid_peer_addr(a: Seq<ProtocolView>, local: (u64, Seq<u8>)) -> bool {
    match trailing_peer(a) {
        Some(p) => p != local,
        None => false,
    }
}

/// The address-book messages a peer-set update queues: one per address that is more
/// than the peer identity.
pub open spec fn known_address_msgs(addrs: Seq<Seq<ProtocolView>>) -> Seq<MsgView>
    decreases addrs.len(),
{
    if addrs.len() == 0 {
        Seq::empty()
    } else {
        let a = addrs.last();
        let rest = known_address_msgs(addrs.drop_last());
        if a.len() > 1 {
            rest.push(MsgView::AddKnownAddress(trailing_peer(a)->0, a.drop_last()))
        } else {
            rest
        }
    }
}

/// The peer identities that a list of addresses ends with.
pub open spec fn trailing_peers(addrs: Seq<Seq<ProtocolView>>) -> Seq<(u64, Seq<u8>)> {
    addrs.map_values(|a: Seq<ProtocolView>| trailing_peer(a)->0)
}

/// The messages that adding the peers of `addrs` to the reserved set `set_id` queues.
pub open spec fn add_to_set_msgs(addrs: Seq<Seq<ProtocolView>>, set_id: SetId) -> Seq<MsgView>
    decreases addrs.len(),
{
    if addrs.len() == 0 {
        Seq::empty()
    } else {
        let a = addrs.last();
        let rest = add_to_set_msgs(addrs.drop_last(), set_id);
        let p = trailing_peer(a)->0;
        let with_addr = if a.len() > 1 {
            rest.push(MsgView::AddKnownAddress(p, a.drop_last()))
        } else {
            rest
        };
        with_addr.push(MsgView::AddReservedPeer { set_id, peer: p })
    }
}

/// Error text for an unknown protocol.
pub open spec fn unknown_protocol_error(prefix: Seq<char>, protocol: Seq<char>) -> Seq<char> {
    prefix + protocol
}

/// The role a one-byte handshake announces: bit 4 is an authority, bit 1 a full node,
/// bit 2 a light node; other bits make it unreadable.
pub open spec fn role_from_handshake(h: Seq<u8>) -> Option<ObservedRole> {
    if h.len() != 1 || h[0] >= 8 {
        None
    } else if h[0] & 4u8 != 0 {
        Some(ObservedRole::Authority)
    } else if h[0] & 1u8 != 0 {
        Some(ObservedRole::Full)
    } else {
        Some(ObservedRole::Light)
    }
}

/// Façade held by the rest of the node: it only queues commands.
#[derive(Debug)]
pub struct NetworkService {
    local_peer_id: PeerId,
    notification_protocols: Vec<String>,
    queue: Vec<ServiceToWorkerMsg>,
    next_token: u64,
}

impl NetworkService {
    /// Identity of the local node.
    pub closed spec fn local(&self) -> (u64, Seq<u8>) {
        self.local_peer_id@
    }

    /// Names of the notification protocols; a name's position is its set.
    pub closed spec fn protocols(&self) -> Seq<Seq<char>> {
        self.notification_protocols@.map_values(|s: String| s@)
    }

    /// Commands waiting for the worker, oldest first.
    pub closed spec fn pending(&self) -> Seq<MsgView> {
        msgs(self.queue@)
    }

    /// The set of the protocol named `name`: its first position among the protocols.
    pub open spec fn set_of(&self, name: Seq<char>) -> Option<SetId> {
        if self.protocols().contains(name) {
            Some(choose|i: SetId| i < self.protocols().len() && self.protocols()[i as int] == name
                && forall|j: int| 0 <= j < i ==> self.protocols()[j] != name)
        } else {
            None
        }
    }

    /// A façade for the local node `local_peer_id` whose notification protocols are
    /// `notification_protocols`, the first of which is the default set.
    pub fn new(local_peer_id: PeerId, notification_protocols: Vec<String>) -> (r: NetworkService)
        ensures
            r.local() == local_peer_id@,
            r.protocols() == notification_protocols@.map_values(|s: String| s@),
            r.pending().len() == 0,
    {
        let r = NetworkService { local_peer_id, notification_protocols, queue: Vec::new(), next_token: 0 };
        assert(r.pending() =~= Seq::<MsgView>::empty());
        r
    }

    /// Identity of the local node.
    pub fn local_peer_id(&self) -> (r: &PeerId)
        ensures
            r@ == self.local(),
    {
        &self.local_peer_id
    }

    fn enqueue(&mut self, m: ServiceToWorkerMsg)
        ensures
            final(self).next_token() == old(self).next_token(),
            final(self).pending() == old(self).pending().push(m@),
            final(self).local() == old(self).local(),
            final(self).protocols() == old(self).protocols(),
    {
        self.queue.push(m);
        assert(self.pending() =~= old(self).pending().push(m@));
    }

    /// Number of queued commands.
    pub fn num_pending(&self) -> (r: usize)
        ensures
            r == self.pending().len(),
    {
        self.queue.len()
    }

    /// Hands the oldest queued command to the worker.
    pub fn next_command(&mut self) -> (r: Option<ServiceToWorkerMsg>)
        ensures
            final(self).local() == old(self).local(),
            final(self).protocols() == old(self).protocols(),
            old(self).pending().len() == 0 ==> r is None && final(self).pending() == old(self).pending(),
            old(self).pending().len() > 0 ==> r is Some && r->0@ == old(self).pending()[0]
                && final(self).pending() == old(self).pending().drop_first(),
    {
        if self.queue.len() == 0 {
            None
        } else {
            let m = self.queue.remove(0);
            assert(self.pending() =~= old(self).pending().drop_first());
            Some(m)
        }
    }

    /// The token the next answer-bearing command gets; tokens are handed out in
    /// increasing order, so no two commands share one.
    pub closed spec fn next_token(&self) -> u64 {
        self.next_token
    }

    /// Whether a token is left for one more answer-bearing command.
    pub fn has_token_left(&self) -> (r: bool)
        ensures
            r == (self.next_token() < u64::MAX),
    {
        self.next_token < u64::MAX
    }

    fn fresh_token(&mut self) -> (r: u64)
        requires
            old(self).next_token() < u64::MAX,
        ensures
            r == old(self).next_token(),
            final(self).next_token() == r + 1,
            final(self).pending() == old(self).pending(),
            final(self).local() == old(self).local(),
            final(self).protocols() == old(self).protocols(),
    {
        let t = self.next_token;
        self.next_token = t + 1;
        t
    }

    fn find_protocol(&self, name: &String) -> (r: Option<SetId>)
        ensures
            r == self.set_of(name@),
    {
        let ghost ps = self.protocols();
        let mut i: usize = 0;
        while i < self.notification_protocols.len()
            invariant
                ps == self.protocols(),
                i <= ps.len(),
                forall|j: int| 0 <= j < i ==> ps[j] != name@,
            decreases ps.len() - i,
        {
            if self.notification_protocols[i] == *name {
                proof {
                    assert(ps[i as int] == name@);
                    assert(ps.contains(name@));
                    let c = choose|c: SetId| c < ps.len() && ps[c as int] == name@
                        && forall|j: int| 0 <= j < c ==> ps[j] != name@;
                    assert(i < ps.len() && ps[i as int] == name@ && forall|j: int| 0 <= j < i ==> ps[j] != name@);
                    if c < i {
                        assert(ps[c as int] != name@);
                    } else if c > i {
                        assert(ps[i as int] != name@);
                    }
                }
                return Some(i);
            }
            i = i + 1;
        }
        proof {
            if ps.contains(name@) {
                let k = choose|k: int| 0 <= k < ps.len() && ps[k] == name@;
                assert(ps[k] != name@);
            }
        }
        None
    }

    /// Splits each address into the peer identity it ends with and the rest. Fails when an
    /// address does not end with a valid identity, or ends with the local one.
    pub fn split_multiaddr_and_peer_id(&self, peers: &Vec<Multiaddr>) -> (r: Result<Vec<(PeerId, Multiaddr)>, String>)
        ensures
            r is Ok <==> forall|i: int| 0 <= i < peers@.len() ==> valid_peer_addr(#[trigger] peers@[i]@, self.local()),
            match r {
                Ok(v) => v@.len() == peers@.len() && forall|i: int|
                    0 <= i < peers@.len() ==> Some((#[trigger] v@[i]).0@) == trailing_peer(peers@[i]@)
                        && v@[i].1@ == peers@[i]@.drop_last(),
                Err(_) => true,
            },
    {
        let mut out: Vec<(PeerId, Multiaddr)> = Vec::new();
        let mut i: usize = 0;
        while i < peers.len()
            invariant
                i <= peers@.len(),
                out@.len() == i,
                forall|k: int| 0 <= k < i ==> valid_peer_addr(#[trigger] peers@[k]@, self.local()),
                forall|k: int|
                    0 <= k < i ==> Some((#[trigger] out@[k]).0@) == trailing_peer(peers@[k]@) && out@[k].1@
                        == peers@[k]@.drop_last(),
            decreases peers@.len() - i,
        {
            match split_peer(&peers[i]) {
                Ok((p, rest)) => {
                    if p.same(&self.local_peer_id) {
                        return Err("Local peer ID in peer set.".to_string());
                    }
                    out.push((p, rest));
                },
                Err(SplitError::MissingPeerId) => {
                    return Err("Missing PeerId from address".to_string());
                },
                Err(SplitError::InvalidPeerId) => {
                    return Err("Invalid PeerId format".to_string());
                },
            }
            i = i + 1;
        }
        Ok(out)
    }

    /// Reserves a peer on the default set and remembers its address; the local identity
    /// is refused and nothing is queued then.
    pub fn add_reserved_peer(&mut self, peer: &PeerId, addr: &Multiaddr) -> (r: Result<(), String>)
        ensures
            final(self).local() == old(self).local(),
            final(self).protocols() == old(self).protocols(),
            peer@ == old(self).local() ==> r is Err && final(self).pending() == old(self).pending(),
            peer@ != old(self).local() ==> r is Ok && final(self).pending() == old(self).pending().push(
                MsgView::AddKnownAddress(peer@, addr@),
            ).push(MsgView::AddReservedPeer { set_id: 0, peer: peer@ }),
    {
        if peer.same(&self.local_peer_id) {
            return Err("Local peer ID cannot be added as a reserved peer.".to_string());
        }
        self.enqueue(ServiceToWorkerMsg::AddKnownAddress(peer.duplicate(), addr.duplicate()));
        self.enqueue(ServiceToWorkerMsg::AddReservedPeer { set_id: 0, peer: peer.duplicate() });
        Ok(())
    }

    /// Stops reserving a peer on the default set; the local identity is refused and
    /// nothing is queued then.
    pub fn remove_reserved_peer(&mut self, peer: &PeerId) -> (r: Result<(), String>)
        ensures
            final(self).local() == old(self).local(),
            final(self).protocols() == old(self).protocols(),
            peer@ == old(self).local() ==> r is Err && final(self).pending() == old(self).pending(),
            peer@ != old(self).local() ==> r is Ok && final(self).pending() == old(self).pending().push(
                MsgView::RemoveReservedPeer { set_id: 0, peer: peer@ },
            ),
    {
        if peer.same(&self.local_peer_id) {
            return Err("Local peer ID cannot be removed from a peer set.".to_string());
        }
        self.enqueue(ServiceToWorkerMsg::RemoveReservedPeer { set_id: 0, peer: peer.duplicate() });
        Ok(())
    }

    /// Replaces the reserved peers of the protocol's set by the peers the addresses end
    /// with, and remembers the addresses. An unknown protocol is named in the error; an
    /// address without a valid identity, or with the local one, is refused. Nothing is
    /// queued on error.
    pub fn set_reserved_peers(&mut self, protocol: &String, peers: &Vec<Multiaddr>) -> (r: Result<(), String>)
        ensures
            final(self).local() == old(self).local(),
            final(self).protocols() == old(self).protocols(),
            old(self).set_of(protocol@) is None ==> r is Err && r->Err_0@ == unknown_protocol_error(
                "Cannot set reserved peers for unknown protocol: "@,
                protocol@,
            ),
            r is Ok <==> (old(self).set_of(protocol@) is Some && forall|i: int|
                0 <= i < peers@.len() ==> valid_peer_addr(#[trigger] peers@[i]@, old(self).local())),
            r is Err ==> final(self).pending() == old(self).pending(),
            r is Ok ==> final(self).pending() == old(self).pending() + known_address_msgs(
                peers@.map_values(|a: Multiaddr| a@),
            ) + seq![
                MsgView::SetReservedPeers {
                    set_id: old(self).set_of(protocol@)->0,
                    peers: trailing_peers(peers@.map_values(|a: Multiaddr| a@)),
                },
            ],
    {
        let set_id = match self.find_protocol(protocol) {
            Some(s) => s,
            None => {
                let mut m = <String as StringExecFns>::from_str("Cannot set reserved peers for unknown protocol: ");
                m.append(protocol.as_str());
                return Err(m);
            },
        };
        let split = self.split_multiaddr_and_peer_id(peers)?;
        let ghost addrs = peers@.map_values(|a: Multiaddr| a@);
        let ghost start = self.pending();
        let mut ids_out: Vec<PeerId> = Vec::new();
        let mut i: usize = 0;
        while i < split.len()
            invariant
                split@.len() == peers@.len(),
                addrs == peers@.map_values(|a: Multiaddr| a@),
                forall|k: int|
                    0 <= k < peers@.len() ==> Some((#[trigger] split@[k]).0@) == trailing_peer(peers@[k]@)
                        && split@[k].1@ == peers@[k]@.drop_last(),
                i <= split@.len(),
                ids_out@.len() == i,
                forall|k: int| 0 <= k < i ==> (#[trigger] ids_out@[k])@ == split@[k].0@,
                self.pending() == start + known_address_msgs(addrs.subrange(0, i as int)),
                self.local() == old(self).local(),
                self.protocols() == old(self).protocols(),
            decreases split@.len() - i,
        {
            let (p, a) = &split[i];
            proof {
                assert(addrs.subrange(0, i + 1).drop_last() =~= addrs.subrange(0, i as int));
                assert(addrs.subrange(0, i + 1).last() == addrs[i as int]);
                assert(addrs[i as int] == peers@[i as int]@);
            }
            if !a.is_empty() {
                self.enqueue(ServiceToWorkerMsg::AddKnownAddress(p.duplicate(), a.duplicate()));
            }
            ids_out.push(p.duplicate());
            i = i + 1;
            proof {
                assert(self.pending() =~= start + known_address_msgs(addrs.subrange(0, i as int)));
            }
        }
        proof {
            assert(addrs.subrange(0, i as int) =~= addrs);
            assert(ids(ids_out@) =~= trailing_peers(addrs));
        }
        self.enqueue(ServiceToWorkerMsg::SetReservedPeers { set_id, peers: ids_out });
        Ok(())
    }

    /// Adds the peers the addresses end with to the reserved peers of the protocol's set,
    /// and remembers the addresses. Errors as [`Self::set_reserved_peers`] does; nothing is
    /// queued on error.
    pub fn add_peers_to_reserved_set(&mut self, protocol: &String, peers: &Vec<Multiaddr>) -> (r: Result<(), String>)
        ensures
            final(self).local() == old(self).local(),
            final(self).protocols() == old(self).protocols(),
            old(self).set_of(protocol@) is None ==> r is Err && r->Err_0@ == unknown_protocol_error(
                "Cannot add peers to reserved set of unknown protocol: "@,
                protocol@,
            ),
            r is Ok <==> (old(self).set_of(protocol@) is Some && forall|i: int|
                0 <= i < peers@.len() ==> valid_peer_addr(#[trigger] peers@[i]@, old(self).local())),
            r is Err ==> final(self).pending() == old(self).pending(),
            r is Ok ==> final(self).pending() == old(self).pending() + add_to_set_msgs(
                peers@.map_values(|a: Multiaddr| a@),
                old(self).set_of(protocol@)->0,
            ),
    {
        let set_id = match self.find_protocol(protocol) {
            Some(s) => s,
            None => {
                let mut m = <String as StringExecFns>::from_str("Cannot add peers to reserved set of unknown protocol: ");
                m.append(protocol.as_str());
                return Err(m);
            },
        };
        let split = self.split_multiaddr_and_peer_id(peers)?;
        let ghost addrs = peers@.map_values(|a: Multiaddr| a@);
        let ghost start = self.pending();
        let mut i: usize = 0;
        while i < split.len()
            invariant
                split@.len() == peers@.len(),
                addrs == peers@.map_values(|a: Multiaddr| a@),
                forall|k: int|
                    0 <= k < peers@.len() ==> Some((#[trigger] split@[k]).0@) == trailing_peer(peers@[k]@)
                        && split@[k].1@ == peers@[k]@.drop_last(),
                i <= split@.len(),
                self.pending() == start + add_to_set_msgs(addrs.subrange(0, i as int), set_id),
                self.local() == old(self).local(),
                self.protocols() == old(self).protocols(),
            decreases split@.len() - i,
        {
            let (p, a) = &split[i];
            proof {
                assert(addrs.subrange(0, i + 1).drop_last() =~= addrs.subrange(0, i as int));
                assert(addrs.subrange(0, i + 1).last() == addrs[i as int]);
                assert(addrs[i as int] == peers@[i as int]@);
            }
            if !a.is_empty() {
                self.enqueue(ServiceToWorkerMsg::AddKnownAddress(p.duplicate(), a.duplicate()));
            }
            self.enqueue(ServiceToWorkerMsg::AddReservedPeer { set_id, peer: p.duplicate() });
            i = i + 1;
            proof {
                assert(self.pending() =~= start + add_to_set_msgs(addrs.subrange(0, i as int), set_id));
            }
        }
        proof {
            assert(addrs.subrange(0, i as int) =~= addrs);
        }
        Ok(())
    }

    /// Removes the peers from the reserved peers of the protocol's set. An unknown
    /// protocol is named in the error and nothing is queued.
    pub fn remove_peers_from_reserved_set(&mut self, protocol: &String, peers: &Vec<PeerId>) -> (r: Result<(), String>)
        ensures
            final(self).local() == old(self).local(),
            final(self).protocols() == old(self).protocols(),
            old(self).set_of(protocol@) is None ==> r is Err && r->Err_0@ == unknown_protocol_error(
                "Cannot remove peers from reserved set of unknown protocol: "@,
                protocol@,
            ) && final(self).pending() == old(self).pending(),
            old(self).set_of(protocol@) is Some && contains_peer(peers@, old(self).local()) ==> r is Err
                && final(self).pending() == old(self).pending(),
            old(self).set_of(protocol@) is Some && !contains_peer(peers@, old(self).local()) ==> r is Ok
                && final(self).pending() == old(self).pending() + ids(peers@).map_values(
                |p: (u64, Seq<u8>)| MsgView::RemoveReservedPeer { set_id: old(self).set_of(protocol@)->0, peer: p },
            ),
    {
        let set_id = match self.find_protocol(protocol) {
            Some(s) => s,
            None => {
                let mut m = <String as StringExecFns>::from_str("Cannot remove peers from reserved set of unknown protocol: ");
                m.append(protocol.as_str());
                return Err(m);
            },
        };
        if self.names_local(peers) {
            return Err("Local peer ID cannot be removed from a peer set.".to_string());
        }
        let ghost start = self.pending();
        let ghost f = |p: (u64, Seq<u8>)| MsgView::RemoveReservedPeer { set_id, peer: p };
        let mut i: usize = 0;
        while i < peers.len()
            invariant
                i <= peers@.len(),
                f == (|p: (u64, Seq<u8>)| MsgView::RemoveReservedPeer { set_id, peer: p }),
                self.pending() == start + ids(peers@.subrange(0, i as int)).map_values(f),
                self.local() == old(self).local(),
                self.protocols() == old(self).protocols(),
            decreases peers@.len() - i,
        {
            self.enqueue(ServiceToWorkerMsg::RemoveReservedPeer { set_id, peer: peers[i].duplicate() });
            i = i + 1;
            proof {
                assert(self.pending() =~= start + ids(peers@.subrange(0, i as int)).map_values(f));
            }
        }
        proof {
            assert(peers@.subrange(0, i as int) =~= peers@);
        }
        Ok(())
    }

    /// Replaces the reserved peers of the default set; a list naming the local identity
    /// is refused and nothing is queued then.
    pub fn set_authorized_peers(&mut self, peers: &Vec<PeerId>) -> (r: Result<(), String>)
        ensures
            final(self).local() == old(self).local(),
            final(self).protocols() == old(self).protocols(),
            contains_peer(peers@, old(self).local()) ==> r is Err && final(self).pending() == old(self).pending(),
            !contains_peer(peers@, old(self).local()) ==> r is Ok && final(self).pending() == old(self).pending().push(
                MsgView::SetReservedPeers { set_id: 0, peers: ids(peers@) },
            ),
    {
        if self.names_local(peers) {
            return Err("Local peer ID cannot be added as a reserved peer.".to_string());
        }
        let mut v: Vec<PeerId> = Vec::new();
        let mut i: usize = 0;
        while i < peers.len()
            invariant
                i <= peers@.len(),
                v@.len() == i,
                forall|k: int| 0 <= k < i ==> (#[trigger] v@[k])@ == peers@[k]@,
            decreases peers@.len() - i,
        {
            v.push(peers[i].duplicate());
            i = i + 1;
        }
        assert(ids(v@) =~= ids(peers@));
        self.enqueue(ServiceToWorkerMsg::SetReservedPeers { set_id: 0, peers: v });
        Ok(())
    }

    fn names_local(&self, peers: &Vec<PeerId>) -> (r: bool)
        ensures
            r == contains_peer(peers@, self.local()),
    {
        match position(peers, &self.local_peer_id) {
            Some(i) => {
                assert(peers@[i as int]@ == self.local());
                true
            },
            None => false,
        }
    }

    /// Switches the reserved-only mode of the default set.
    pub fn set_authorized_only(&mut self, reserved_only: bool)
        ensures
            final(self).local() == old(self).local(),
            final(self).protocols() == old(self).protocols(),
            final(self).pending() == old(self).pending().push(
                MsgView::SetReservedOnly { set_id: 0, reserved_only },
            ),
    {
        self.enqueue(ServiceToWorkerMsg::SetReservedOnly { set_id: 0, reserved_only });
    }

    /// Lets non-reserved peers connect on the default set.
    pub fn accept_unreserved_peers(&mut self)
        ensures
            final(self).local() == old(self).local(),
            final(self).protocols() == old(self).protocols(),
            final(self).pending() == old(self).pending().push(
                MsgView::SetReservedOnly { set_id: 0, reserved_only: false },
            ),
    {
        self.set_authorized_only(false);
    }

    /// Lets only reserved peers connect on the default set.
    pub fn deny_unreserved_peers(&mut self)
        ensures
            final(self).local() == old(self).local(),
            final(self).protocols() == old(self).protocols(),
            final(self).pending() == old(self).pending().push(
                MsgView::SetReservedOnly { set_id: 0, reserved_only: true },
            ),
    {
        self.set_authorized_only(true);
    }

    /// Remembers an address of a peer; an address for the local identity is refused and
    /// nothing is queued then.
    pub fn add_known_address(&mut self, peer: &PeerId, addr: &Multiaddr) -> (r: Result<(), String>)
        ensures
            final(self).local() == old(self).local(),
            final(self).protocols() == old(self).protocols(),
            peer@ == old(self).local() ==> r is Err && final(self).pending() == old(self).pending(),
            peer@ != old(self).local() ==> r is Ok && final(self).pending() == old(self).pending().push(
                MsgView::AddKnownAddress(peer@, addr@),
            ),
    {
        if peer.same(&self.local_peer_id) {
            return Err("Local peer ID cannot be added as a known address.".to_string());
        }
        self.enqueue(ServiceToWorkerMsg::AddKnownAddress(peer.duplicate(), addr.duplicate()));
        Ok(())
    }

    /// Changes the reputation of a peer.
    pub fn report_peer(&mut self, peer: &PeerId, change: ReputationChange)
        ensures
            final(self).local() == old(self).local(),
            final(self).protocols() == old(self).protocols(),
            final(self).pending() == old(self).pending().push(MsgView::ReportPeer(peer@, change.value)),
    {
        self.enqueue(ServiceToWorkerMsg::ReportPeer(peer.duplicate(), change));
    }

    /// Closes the notification substream with the peer on the protocol.
    pub fn disconnect_peer(&mut self, peer: &PeerId, protocol: &String)
        ensures
            final(self).local() == old(self).local(),
            final(self).protocols() == old(self).protocols(),
            final(self).pending() == old(self).pending().push(MsgView::DisconnectPeer(peer@, protocol@)),
    {
        self.enqueue(ServiceToWorkerMsg::DisconnectPeer(peer.duplicate(), protocol.clone()));
    }

    /// Starts looking a key up in the DHT.
    pub fn get_value(&mut self, key: &Vec<u8>)
        ensures
            final(self).local() == old(self).local(),
            final(self).protocols() == old(self).protocols(),
            final(self).pending() == old(self).pending().push(MsgView::GetValue(key@)),
    {
        self.enqueue(ServiceToWorkerMsg::GetValue(copy_bytes(key.as_slice())));
    }

    /// Starts storing a record in the DHT.
    pub fn put_value(&mut self, key: Vec<u8>, value: Vec<u8>)
        ensures
            final(self).local() == old(self).local(),
            final(self).protocols() == old(self).protocols(),
            final(self).pending() == old(self).pending().push(MsgView::PutValue(key@, value@)),
    {
        self.enqueue(ServiceToWorkerMsg::PutValue(key, value));
    }

    /// Registers one more event subscriber.
    pub fn event_stream(&mut self)
        ensures
            final(self).local() == old(self).local(),
            final(self).protocols() == old(self).protocols(),
            final(self).pending() == old(self).pending().push(MsgView::EventStream),
    {
        self.enqueue(ServiceToWorkerMsg::EventStream);
    }

    /// Asks for the network status; the answer comes under the returned token.
    pub fn status(&mut self) -> (token: u64)
        requires
            old(self).next_token() < u64::MAX,
        ensures
            token == old(self).next_token(),
            final(self).next_token() == token + 1,
            final(self).local() == old(self).local(),
            final(self).protocols() == old(self).protocols(),
            final(self).pending() == old(self).pending().push(MsgView::NetworkStatus { token }),
    {
        let token = self.fresh_token();
        self.enqueue(ServiceToWorkerMsg::NetworkStatus { token });
        token
    }

    /// Asks for the network state; the answer comes under the returned token.
    pub fn network_state(&mut self) -> (token: u64)
        requires
            old(self).next_token() < u64::MAX,
        ensures
            token == old(self).next_token(),
            final(self).next_token() == token + 1,
            final(self).local() == old(self).local(),
            final(self).protocols() == old(self).protocols(),
            final(self).pending() == old(self).pending().push(MsgView::NetworkState { token }),
    {
        let token = self.fresh_token();
        self.enqueue(ServiceToWorkerMsg::NetworkState { token });
        token
    }

    /// Queues a request; its answer comes under the returned token.
    pub fn start_request(
        &mut self,
        target: &PeerId,
        protocol: String,
        request: Vec<u8>,
        fallback_request: Option<(Vec<u8>, String)>,
        connect: IfDisconnected,
    ) -> (token: u64)
        requires
            old(self).next_token() < u64::MAX,
        ensures
            token == old(self).next_token(),
            final(self).next_token() == token + 1,
            final(self).local() == old(self).local(),
            final(self).protocols() == old(self).protocols(),
            final(self).pending() == old(self).pending().push(
                MsgView::Request {
                    token,
                    target: target@,
                    protocol: protocol@,
                    request: request@,
                    fallback: match fallback_request {
                        Some((b, n)) => Some((b@, n@)),
                        None => None,
                    },
                    connect,
                },
            ),
    {
        let token = self.fresh_token();
        self.enqueue(
            ServiceToWorkerMsg::Request {
                token,
                target: target.duplicate(),
                protocol,
                request,
                fallback_request,
                connect,
            },
        );
        token
    }

    /// Role of a peer: read from its handshake when that is one valid role byte,
    /// otherwise taken from the peer store.
    pub fn peer_role<P: PeerStoreProvider>(&self, peer: &PeerId, handshake: &Vec<u8>, store: &P) -> (r: Option<ObservedRole>)
        requires
            store.ready(),
        ensures
            role_from_handshake(handshake@) is Some ==> r == role_from_handshake(handshake@),
            role_from_handshake(handshake@) is None ==> r == store.role_of(peer@),
    {
        if handshake.len() == 1 && handshake[0] < 8 {
            let b = handshake[0];
            if b & 4 != 0 {
                Some(ObservedRole::Authority)
            } else if b & 1 != 0 {
                Some(ObservedRole::Full)
            } else {
                Some(ObservedRole::Light)
            }
        } else {
            store.peer_role(peer)
        }
    }
}

/// An address that ends with the local identity is never a valid peer-set address, so
/// every peer-set update that names the local node fails and queues nothing.
pub proof fn lemma_local_peer_refused(s: NetworkService, addrs: Seq<Seq<ProtocolView>>, i: int)
    requires
        0 <= i < addrs.len(),
        trailing_peer(addrs[i]) == Some(s.local()),
    ensures
        !valid_peer_addr(addrs[i], s.local()),
        !(forall|k: int| 0 <= k < addrs.len() ==> valid_peer_addr(#[trigger] addrs[k], s.local())),
{
}

} // verus!
