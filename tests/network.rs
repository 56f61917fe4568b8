use sc_network_core::behaviour::BehaviourOut;
use sc_network_core::config::{MultiaddrWithPeerId, PeerSetConfig, TransportConfig};
use sc_network_core::multihash::Code;
use sc_network_core::notifications::{NotificationSinks, SinkError, StreamOpening};
use sc_network_core::peer::{Direction, Multiaddr, PeerId, Protocol};
use sc_network_core::peer_store::{MockPeerStore, PeerStore, ReputationChange, BANNED_THRESHOLD};
use sc_network_core::protocol_controller::{ControllerAction, ProtocolController, SetConfig};
use sc_network_core::request_responses::{
    IfDisconnected, OutboundFailure, ProtocolConfig, RequestFailure, RequestResponses, RequestStart,
};
use sc_network_core::service::NetworkService;
use sc_network_core::worker::{ConnectedPoint, Event, NetworkWorker, Params, SwarmEvent, WorkerOutput};

fn peer(name: &[u8]) -> PeerId {
    PeerId::from_multihash(&Code::Identity.digest(name)).unwrap()
}

fn p2p(name: &[u8]) -> Protocol {
    Protocol::P2p(Code::Identity.digest(name))
}

fn mem_addr(port: u64, name: &[u8]) -> Multiaddr {
    Multiaddr::from_components(vec![Protocol::Memory(port), p2p(name)])
}

fn bare_mem(port: u64) -> Multiaddr {
    Multiaddr::from_components(vec![Protocol::Memory(port)])
}

fn empty_set() -> PeerSetConfig {
    PeerSetConfig { in_peers: 25, out_peers: 75, reserved_nodes: Vec::new(), reserved_only: false }
}

fn params(local: &[u8], boot: Vec<MultiaddrWithPeerId>, protocols: Vec<ProtocolConfig>) -> Params {
    Params {
        local_peer_id: peer(local),
        boot_nodes: boot,
        block_announce_protocol: "/block-announces/1".to_string(),
        default_peers_set: empty_set(),
        notification_protocols: Vec::new(),
        request_response_protocols: protocols,
        listen_addresses: vec![bare_mem(1)],
        public_addresses: Vec::new(),
        transport: TransportConfig::MemoryOnly,
    }
}

fn echo_protocol(name: &str) -> ProtocolConfig {
    ProtocolConfig { name: name.to_string(), max_request_size: 1024, max_response_size: 1024 }
}

#[test]
fn local_peer_is_refused_by_every_peer_set_update() {
    let local = peer(b"local");
    let mut service = NetworkService::new(local.clone(), vec!["/block-announces/1".to_string()]);
    let proto = "/block-announces/1".to_string();
    assert!(service.add_reserved_peer(&local, &bare_mem(3)).is_err());
    assert!(service.set_reserved_peers(&proto, &vec![mem_addr(2, b"other"), mem_addr(3, b"local")]).is_err());
    assert!(service.add_peers_to_reserved_set(&proto, &vec![mem_addr(3, b"local")]).is_err());
    assert_eq!(service.num_pending(), 0);
    assert!(service.set_reserved_peers(&proto, &vec![mem_addr(2, b"other")]).is_ok());
    assert_eq!(service.num_pending(), 2);
}

#[test]
fn commands_are_applied_in_submission_order() {
    let (mut worker, mut service) = NetworkWorker::new(params(b"local", Vec::new(), Vec::new())).ok().unwrap();
    let b = peer(b"b");
    service.add_reserved_peer(&b, &bare_mem(2)).unwrap();
    service.remove_reserved_peer(&b);
    worker.process_commands(&mut service);
    assert_eq!(worker.reserved_peers(0).unwrap().len(), 0);

    service.remove_reserved_peer(&b);
    service.add_reserved_peer(&b, &bare_mem(2)).unwrap();
    worker.process_commands(&mut service);
    let reserved = worker.reserved_peers(0).unwrap();
    assert_eq!(reserved.len(), 1);
    assert!(reserved[0] == b);
    assert_eq!(service.num_pending(), 0);
}

#[test]
fn outbound_slots_are_never_exceeded() {
    let mut store = PeerStore::new();
    for i in 0..5u8 {
        store.add_known_peer(&peer(&[b'p', i]));
    }
    let config = SetConfig { in_peers: 1, out_peers: 2, reserved_nodes: Vec::new(), reserved_only: false };
    let mut c = ProtocolController::new(0, &config);
    let actions = c.alloc_slots(&store);
    assert_eq!(actions.len(), 2);
    assert!(actions.iter().all(|a| matches!(a, ControllerAction::Connect(_))));
    assert_eq!(c.num_outbound(), 2);
    let again = c.alloc_slots(&store);
    assert_eq!(again.len(), 0);
    assert_eq!(c.num_outbound(), 2);
}

#[test]
fn incoming_connections_respect_inbound_slots_and_bans() {
    let mut store = PeerStore::new();
    let banned = peer(b"banned");
    store.report_peer(&banned, &ReputationChange::new_fatal("bad"));
    let config = SetConfig { in_peers: 1, out_peers: 0, reserved_nodes: Vec::new(), reserved_only: false };
    let mut c = ProtocolController::new(0, &config);
    assert!(matches!(c.incoming_connection(&banned, 1, &store), ControllerAction::Reject(1)));
    assert!(matches!(c.incoming_connection(&peer(b"a"), 2, &store), ControllerAction::Accept(2)));
    assert!(matches!(c.incoming_connection(&peer(b"b"), 3, &store), ControllerAction::Reject(3)));
    assert_eq!(c.num_inbound(), 1);
}

#[test]
fn reserved_only_drops_other_peers() {
    let store = MockPeerStore {};
    let config = SetConfig { in_peers: 2, out_peers: 2, reserved_nodes: vec![peer(b"r")], reserved_only: false };
    let mut c = ProtocolController::new(0, &config);
    assert!(matches!(c.incoming_connection(&peer(b"a"), 1, &store), ControllerAction::Accept(1)));
    let drops = c.set_reserved_only(true, &store);
    assert_eq!(drops.len(), 1);
    assert_eq!(c.num_inbound(), 0);
    assert!(matches!(c.incoming_connection(&peer(b"b"), 2, &store), ControllerAction::Reject(2)));
    assert!(matches!(c.incoming_connection(&peer(b"r"), 3, &store), ControllerAction::Accept(3)));
}

#[test]
fn second_substream_replaces_the_sink_once() {
    let mut sinks = NotificationSinks::new(4);
    let p = peer(b"p");
    let first = match sinks.open_stream(&p, 1) {
        StreamOpening::Opened(h) => h,
        StreamOpening::Replaced(_) => panic!("first substream reported as a replacement"),
    };
    let ready = sinks.reserve(first).unwrap();
    let second = match sinks.open_stream(&p, 1) {
        StreamOpening::Replaced(h) => h,
        StreamOpening::Opened(_) => panic!("second substream reported as opened"),
    };
    assert_ne!(first, second);
    assert_eq!(sinks.send(ready, b"late"), Err(SinkError::Closed));
    assert!(matches!(sinks.reserve(first), Err(SinkError::Closed)));
    let ready = sinks.reserve(second).unwrap();
    assert_eq!(sinks.send(ready, b"hello"), Ok(()));
    assert_eq!(sinks.drain(second), vec![b"hello".to_vec()]);
}

#[test]
fn sink_applies_backpressure() {
    let mut sinks = NotificationSinks::new(1);
    let h = match sinks.open_stream(&peer(b"p"), 0) {
        StreamOpening::Opened(h) => h,
        StreamOpening::Replaced(h) => h,
    };
    let ready = sinks.reserve(h).unwrap();
    assert!(matches!(sinks.reserve(h), Err(SinkError::AlreadyReserved)));
    sinks.send(ready, b"a").unwrap();
    assert!(matches!(sinks.reserve(h), Err(SinkError::Full)));
    sinks.drain(h);
    assert!(sinks.reserve(h).is_ok());
    assert!(sinks.close_stream(&peer(b"p"), 0));
    assert!(!sinks.close_stream(&peer(b"p"), 0));
}

#[test]
fn fallback_protocol_answer_is_tagged_with_its_name() {
    let mut rr = RequestResponses::new(vec![echo_protocol("echo/2"), echo_protocol("echo/1")]).ok().unwrap();
    let target = peer(b"t");
    let start = rr.start_request(
        &target,
        &"echo/2".to_string(),
        &b"new".to_vec(),
        &Some((b"old".to_vec(), "echo/1".to_string())),
        true,
        IfDisconnected::ImmediateError,
    );
    let (id, offers) = match start {
        RequestStart::Open { id, dial, offers, .. } => {
            assert!(!dial);
            (id, offers)
        },
        RequestStart::Fail(f) => panic!("request failed: {:?}", f),
    };
    let names: Vec<String> = offers.iter().map(|o| o.protocol.clone()).collect();
    let chosen = RequestResponses::negotiate(&names, &vec!["echo/1".to_string()]).unwrap();
    assert_eq!(chosen, 1);
    assert_eq!(offers[chosen].payload, b"old".to_vec());
    let result = rr.finish_request(id, Ok((chosen, b"pong".to_vec()))).unwrap();
    assert_eq!(result, Ok((b"pong".to_vec(), "echo/1".to_string())));
    assert!(rr.finish_request(id, Ok((0, Vec::new()))).is_none());
}

#[test]
fn request_failures_are_classified() {
    let mut rr = RequestResponses::new(vec![echo_protocol("echo/1")]).ok().unwrap();
    let t = peer(b"t");
    let unknown = rr.start_request(&t, &"nope/1".to_string(), &Vec::new(), &None, true, IfDisconnected::TryConnect);
    assert!(matches!(unknown, RequestStart::Fail(RequestFailure::UnknownProtocol)));
    let id = match rr.start_request(&t, &"echo/1".to_string(), &Vec::new(), &None, false, IfDisconnected::TryConnect) {
        RequestStart::Open { id, dial, .. } => {
            assert!(dial);
            id
        },
        RequestStart::Fail(f) => panic!("request failed: {:?}", f),
    };
    let r = rr.finish_request(id, Err(OutboundFailure::Timeout)).unwrap();
    assert_eq!(r, Err(RequestFailure::Network(OutboundFailure::Timeout)));
    assert!(RequestResponses::new(vec![echo_protocol("a"), echo_protocol("a")]).is_err());
}

#[test]
fn unknown_protocol_is_named_and_nothing_is_queued() {
    let mut service = NetworkService::new(peer(b"local"), vec!["/block-announces/1".to_string()]);
    let err = service.set_reserved_peers(&"nonexistent/1".to_string(), &vec![mem_addr(2, b"x")]).unwrap_err();
    assert!(err.contains("nonexistent/1"));
    assert_eq!(service.num_pending(), 0);
    let err = service.remove_peers_from_reserved_set(&"nonexistent/1".to_string(), &vec![peer(b"x")]).unwrap_err();
    assert!(err.contains("nonexistent/1"));
    assert_eq!(service.num_pending(), 0);
}

#[test]
fn bootnode_connection_is_counted_and_listed() {
    let b = peer(b"boot");
    let boot = vec![MultiaddrWithPeerId { multiaddr: bare_mem(7), peer_id: b.clone() }];
    let (mut worker, mut service) = NetworkWorker::new(params(b"local", boot, Vec::new())).ok().unwrap();
    worker.handle_swarm_event(SwarmEvent::ConnectionEstablished {
        peer_id: b.clone(),
        endpoint: ConnectedPoint::Dialer { address: bare_mem(7) },
        num_established: 1,
    });
    let status_token = service.status();
    let state_token = service.network_state();
    let out = worker.process_commands(&mut service);
    let mut seen_status = false;
    let mut seen_state = false;
    for o in out {
        match o {
            WorkerOutput::Status { token, status } => {
                assert_eq!(token, status_token);
                assert_eq!(status.num_connected_peers, 1);
                seen_status = true;
            },
            WorkerOutput::State { token, state } => {
                assert_eq!(token, state_token);
                assert_eq!(state.connected_peers.len(), 1);
                assert!(state.connected_peers[0].peer_id == b);
                assert!(state.connected_peers[0].known_addresses.len() >= 1);
                seen_state = true;
            },
            _ => {},
        }
    }
    assert!(seen_status && seen_state);
}

#[test]
fn mutually_reserved_peers_each_see_one_stream_opened() {
    let a = peer(b"a");
    let b = peer(b"b");
    let mut pa = params(b"a", Vec::new(), Vec::new());
    pa.default_peers_set.reserved_nodes.push(MultiaddrWithPeerId { multiaddr: bare_mem(2), peer_id: b.clone() });
    let mut pb = params(b"b", Vec::new(), Vec::new());
    pb.default_peers_set.reserved_nodes.push(MultiaddrWithPeerId { multiaddr: bare_mem(1), peer_id: a.clone() });
    let (mut wa, _) = NetworkWorker::new(pa).ok().unwrap();
    let (mut wb, _) = NetworkWorker::new(pb).ok().unwrap();
    let out_a = wa.handle_swarm_event(SwarmEvent::SubstreamOpened {
        remote: b.clone(),
        set_id: 0,
        direction: Direction::Outbound,
        negotiated_fallback: None,
        received_handshake: vec![0x2a],
    });
    let out_b = wb.handle_swarm_event(SwarmEvent::SubstreamOpened {
        remote: a.clone(),
        set_id: 0,
        direction: Direction::Inbound,
        negotiated_fallback: None,
        received_handshake: vec![0x17],
    });
    assert_eq!(out_a.len(), 1);
    assert_eq!(out_b.len(), 1);
    match &out_a[0] {
        WorkerOutput::Publish(Event::NotificationStreamOpened { remote, received_handshake, .. }) => {
            assert!(*remote == b);
            assert_eq!(received_handshake, &vec![0x2a]);
        },
        other => panic!("unexpected output {:?}", other),
    }
    match &out_b[0] {
        WorkerOutput::Publish(Event::NotificationStreamOpened { remote, received_handshake, .. }) => {
            assert!(*remote == a);
            assert_eq!(received_handshake, &vec![0x17]);
        },
        other => panic!("unexpected output {:?}", other),
    }
}

#[test]
fn request_to_disconnected_peer_fails_without_dialing() {
    let (mut worker, mut service) =
        NetworkWorker::new(params(b"local", Vec::new(), vec![echo_protocol("echo/1")])).ok().unwrap();
    let token = service.start_request(&peer(b"t"), "echo/1".to_string(), b"ping".to_vec(), None, IfDisconnected::ImmediateError);
    let out = worker.process_commands(&mut service);
    assert_eq!(out.len(), 1);
    match &out[0] {
        WorkerOutput::RequestResolved { token: t, result } => {
            assert_eq!(*t, token);
            assert_eq!(*result, Err(RequestFailure::NotConnected));
        },
        other => panic!("unexpected output {:?}", other),
    }
}

#[test]
fn minimum_reputation_is_clamped_and_bans() {
    let (mut worker, mut service) = NetworkWorker::new(params(b"local", Vec::new(), Vec::new())).ok().unwrap();
    let bad = peer(b"bad");
    let good = peer(b"good");
    service.report_peer(&good, ReputationChange::new(10, "fine"));
    service.report_peer(&bad, ReputationChange::new(i32::MIN, "misbehaved"));
    service.report_peer(&bad, ReputationChange::new(-5, "again"));
    worker.process_commands(&mut service);
    assert_eq!(worker.peer_reputation(&bad), i32::MIN);
    assert!(worker.peer_reputation(&bad) < BANNED_THRESHOLD);
    let candidates = worker.dial_candidates(10);
    assert_eq!(candidates.len(), 1);
    assert!(candidates[0] == good);
}

#[test]
fn reputation_changes_from_behaviour_are_applied_in_order() {
    let (mut worker, _service) = NetworkWorker::new(params(b"local", Vec::new(), Vec::new())).ok().unwrap();
    let p = peer(b"p");
    worker.handle_swarm_event(SwarmEvent::Behaviour(BehaviourOut::ReputationChanges {
        peer: p.clone(),
        changes: vec![ReputationChange::new(i32::MAX, "up"), ReputationChange::new(1, "more"), ReputationChange::new(-10, "down")],
    }));
    assert_eq!(worker.peer_reputation(&p), i32::MAX - 10);
}

#[test]
fn listen_addresses_follow_events() {
    let (mut worker, _service) = NetworkWorker::new(params(b"local", Vec::new(), Vec::new())).ok().unwrap();
    worker.handle_swarm_event(SwarmEvent::NewListenAddr { address: bare_mem(9) });
    worker.handle_swarm_event(SwarmEvent::NewListenAddr { address: bare_mem(9) });
    assert_eq!(worker.network_state().listened_addresses.len(), 1);
    worker.handle_swarm_event(SwarmEvent::ExpiredListenAddr { address: bare_mem(9) });
    assert_eq!(worker.network_state().listened_addresses.len(), 0);
}

#[test]
fn wrong_bootnode_identity_is_reported_once() {
    let b = peer(b"boot");
    let boot = vec![MultiaddrWithPeerId { multiaddr: bare_mem(7), peer_id: b.clone() }];
    let (mut worker, _service) = NetworkWorker::new(params(b"local", boot, Vec::new())).ok().unwrap();
    let event = || SwarmEvent::OutgoingConnectionError {
        peer_id: Some(peer(b"boot")),
        error: sc_network_core::worker::DialError::WrongPeerId {
            obtained: peer(b"impostor"),
            endpoint: ConnectedPoint::Dialer { address: mem_addr(7, b"boot") },
        },
    };
    let first = worker.handle_swarm_event(event());
    assert!(first.iter().any(|o| matches!(o, WorkerOutput::InvalidBootNode { .. })));
    let second = worker.handle_swarm_event(event());
    assert!(!second.iter().any(|o| matches!(o, WorkerOutput::InvalidBootNode { .. })));
}

#[test]
fn local_peer_is_refused_by_removals_and_address_book() {
    let local = peer(b"local");
    let mut service = NetworkService::new(local.clone(), vec!["/block-announces/1".to_string()]);
    let proto = "/block-announces/1".to_string();
    assert!(service.set_authorized_peers(&vec![peer(b"x"), local.clone()]).is_err());
    assert!(service.remove_peers_from_reserved_set(&proto, &vec![local.clone()]).is_err());
    assert!(service.remove_reserved_peer(&local).is_err());
    assert!(service.add_known_address(&local, &bare_mem(4)).is_err());
    assert_eq!(service.num_pending(), 0);
    assert!(service.set_authorized_peers(&vec![peer(b"x")]).is_ok());
    assert!(service.add_known_address(&peer(b"x"), &bare_mem(4)).is_ok());
    assert_eq!(service.num_pending(), 2);
}

#[test]
fn worker_never_reserves_or_records_the_local_node() {
    let (mut worker, _service) = NetworkWorker::new(params(b"local", Vec::new(), Vec::new())).ok().unwrap();
    let local = peer(b"local");
    worker.add_known_address(&local, &bare_mem(3));
    assert_eq!(worker.addresses_of(&local).len(), 0);
    worker.handle_worker_message(sc_network_core::service::ServiceToWorkerMsg::AddReservedPeer { set_id: 0, peer: local.clone() });
    assert_eq!(worker.reserved_peers(0).unwrap().len(), 0);
}

#[test]
fn commands_report_their_outputs() {
    let (mut worker, mut service) = NetworkWorker::new(params(b"local", Vec::new(), Vec::new())).ok().unwrap();
    service.get_value(&b"key".to_vec());
    service.put_value(b"k".to_vec(), b"v".to_vec());
    service.disconnect_peer(&peer(b"p"), &"/block-announces/1".to_string());
    let out = worker.process_commands(&mut service);
    assert_eq!(out.len(), 3);
    assert!(matches!(&out[0], WorkerOutput::DhtGet(k) if k == b"key"));
    assert!(matches!(&out[1], WorkerOutput::DhtPut(k, v) if k == b"k" && v == b"v"));
    assert!(matches!(&out[2], WorkerOutput::Disconnect(..)));
}

#[test]
fn sha256_multihash_encodes_to_thirty_four_bytes() {
    let m = Code::Sha2_256.digest(b"abc");
    assert_eq!(m.to_bytes().len(), 34);
}
