use sc_network_core::cli::{
    Cors, Database, ExecutionMethod, ImportParams, NetworkSyncMode, OffchainWorkerEnabled,
    OffchainWorkerParams, Role, SyncMode, WasmExecutionMethod, WasmtimeInstantiationStrategy,
};
use sc_network_core::worker::{NetworkWorker, Params};
use sc_network_core::config::{
    check_duplicate_bootnodes, discovery_limit, ensure_addresses_consistent_with_transport,
    filter_local, yamux_maximum_buffer_size, Error, MultiaddrWithPeerId, NotificationConfig,
    PeerSetConfig, TransportConfig,
};
use sc_network_core::multihash::Code;
use sc_network_core::peer::{Multiaddr, PeerId, Protocol};
use sc_network_core::request_responses::{InboundFailure, OutboundFailure, ProtocolConfig, RequestFailure, ResponseFailure};
use sc_network_core::worker::{
    connection_closed_reason, inbound_failure_reason, request_failure_reason, ConnectionError,
    HandlerError,
};

fn peer(name: &[u8]) -> PeerId {
    PeerId::from_multihash(&Code::Identity.digest(name)).unwrap()
}

fn tcp(port: u16) -> Multiaddr {
    Multiaddr::from_components(vec![Protocol::Ip4(0x7f000001), Protocol::Tcp(port)])
}

fn mem(port: u64) -> Multiaddr {
    Multiaddr::from_components(vec![Protocol::Memory(port)])
}

#[test]
fn addresses_must_suit_the_transport() {
    assert!(ensure_addresses_consistent_with_transport(&vec![mem(1)], TransportConfig::MemoryOnly).is_ok());
    match ensure_addresses_consistent_with_transport(&vec![mem(1), tcp(30333)], TransportConfig::MemoryOnly) {
        Err(Error::AddressesForAnotherTransport { addresses, .. }) => assert_eq!(addresses.len(), 1),
        other => panic!("unexpected {:?}", other),
    }
    let normal = TransportConfig::Normal { enable_mdns: false, allow_private_ip: true };
    assert!(ensure_addresses_consistent_with_transport(&vec![tcp(1)], normal).is_ok());
    assert!(ensure_addresses_consistent_with_transport(&vec![tcp(1), mem(2)], normal).is_err());
}

#[test]
fn duplicate_bootnodes_are_refused() {
    let same = vec![
        MultiaddrWithPeerId { multiaddr: tcp(1), peer_id: peer(b"a") },
        MultiaddrWithPeerId { multiaddr: tcp(1), peer_id: peer(b"a") },
    ];
    assert!(check_duplicate_bootnodes(&same).is_ok());
    let clash = vec![
        MultiaddrWithPeerId { multiaddr: tcp(1), peer_id: peer(b"a") },
        MultiaddrWithPeerId { multiaddr: tcp(1), peer_id: peer(b"b") },
    ];
    match check_duplicate_bootnodes(&clash) {
        Err(Error::DuplicateBootnode { first_id, second_id, .. }) => {
            assert!(first_id == peer(b"a"));
            assert!(second_id == peer(b"b"));
        },
        other => panic!("unexpected {:?}", other),
    }
}

#[test]
fn local_node_is_filtered_out() {
    let nodes = vec![
        MultiaddrWithPeerId { multiaddr: tcp(1), peer_id: peer(b"me") },
        MultiaddrWithPeerId { multiaddr: tcp(2), peer_id: peer(b"x") },
    ];
    let kept = filter_local(nodes, &peer(b"me"));
    assert_eq!(kept.len(), 1);
    assert!(kept[0].peer_id == peer(b"x"));
}

#[test]
fn yamux_buffer_covers_the_largest_frame() {
    assert_eq!(yamux_maximum_buffer_size(&Vec::new(), &Vec::new()), 16 * 1024 * 1024 + 10);
    let big = vec![ProtocolConfig { name: "x".to_string(), max_request_size: 10, max_response_size: 64 * 1024 * 1024 }];
    assert_eq!(yamux_maximum_buffer_size(&big, &Vec::new()), 64 * 1024 * 1024 + 10);
    let notif = vec![NotificationConfig {
        protocol_name: "n".to_string(),
        max_notification_size: u64::MAX,
        set_config: PeerSetConfig { in_peers: 0, out_peers: 0, reserved_nodes: Vec::new(), reserved_only: false },
    }];
    assert_eq!(yamux_maximum_buffer_size(&Vec::new(), &notif), u64::MAX);
    assert_eq!(discovery_limit(25), 40);
}

#[test]
fn failure_labels() {
    assert_eq!(request_failure_reason(RequestFailure::NotConnected), "not-connected");
    assert_eq!(request_failure_reason(RequestFailure::Network(OutboundFailure::UnsupportedProtocols)), "unsupported");
    assert_eq!(inbound_failure_reason(ResponseFailure::Network(InboundFailure::UnsupportedProtocols)), None);
    assert_eq!(inbound_failure_reason(ResponseFailure::Network(InboundFailure::ResponseOmission)), Some("busy-omitted"));
    assert_eq!(connection_closed_reason(None), "actively-closed");
    assert_eq!(connection_closed_reason(Some(ConnectionError::Handler(HandlerError::PingTimeout))), "ping-timeout");
}

#[test]
fn cors_parsing() {
    match Cors::parse("http://a,http://b") {
        Cors::List(l) => assert_eq!(l, vec!["http://a".to_string(), "http://b".to_string()]),
        Cors::All => panic!("expected a list"),
    }
    assert!(matches!(Cors::parse("http://a,all"), Cors::All));
    assert!(matches!(Cors::parse("*"), Cors::All));
    match Cors::parse("") {
        Cors::List(l) => assert_eq!(l, vec![String::new()]),
        Cors::All => panic!("expected a list"),
    }
    let parsed: Cors = "x,,y".parse().unwrap();
    assert_eq!(parsed.into_origins(), Some(vec!["x".to_string(), String::new(), "y".to_string()]));
}

#[test]
fn cli_values() {
    assert_eq!(Database::variants(), &["paritydb", "paritydb-experimental", "auto"]);
    assert_eq!(NetworkSyncMode::from(SyncMode::FastUnsafe), NetworkSyncMode::LightState { skip_proofs: true, storage_chain_mode: false });
    assert_eq!(NetworkSyncMode::from(SyncMode::Warp), NetworkSyncMode::Warp);
    assert_eq!(WasmExecutionMethod::Compiled.name(), "Compiled");
}

#[test]
fn offchain_workers_follow_role() {
    let when = OffchainWorkerParams { enabled: OffchainWorkerEnabled::WhenAuthority, indexing_enabled: true };
    assert!(when.offchain_worker(&Role::Authority).enabled);
    assert!(!when.offchain_worker(&Role::Full).enabled);
    assert!(when.offchain_worker(&Role::Full).indexing_enabled);
    let never = OffchainWorkerParams { enabled: OffchainWorkerEnabled::Never, indexing_enabled: false };
    assert!(!never.offchain_worker(&Role::Authority).enabled);
}

#[test]
fn import_params_values() {
    let p = ImportParams {
        wasm_method: WasmExecutionMethod::Compiled,
        wasmtime_instantiation_strategy: WasmtimeInstantiationStrategy::Pooling,
        wasm_runtime_overrides: Some("/tmp/runtimes".to_string()),
        trie_cache_size: 0,
        state_cache_size: None,
    };
    assert_eq!(p.trie_cache_maximum_size(), None);
    assert_eq!(p.wasm_runtime_overrides(), Some("/tmp/runtimes".to_string()));
    assert_eq!(p.wasm_method(), ExecutionMethod::Compiled { instantiation_strategy: WasmtimeInstantiationStrategy::Pooling });
    let q = ImportParams { trie_cache_size: 1024, state_cache_size: Some(1), ..p };
    assert_eq!(q.trie_cache_maximum_size(), Some(1024));
    assert!(q.uses_deprecated_state_cache());
}

#[test]
fn worker_construction_refuses_bad_configuration() {
    let mk = |listen: Vec<Multiaddr>, boot: Vec<MultiaddrWithPeerId>, rr: Vec<ProtocolConfig>| Params {
        local_peer_id: peer(b"local"),
        boot_nodes: boot,
        block_announce_protocol: "/block-announces/1".to_string(),
        default_peers_set: PeerSetConfig { in_peers: 1, out_peers: 1, reserved_nodes: Vec::new(), reserved_only: false },
        notification_protocols: Vec::new(),
        request_response_protocols: rr,
        listen_addresses: listen,
        public_addresses: Vec::new(),
        transport: TransportConfig::MemoryOnly,
    };
    assert!(NetworkWorker::new(mk(vec![mem(1)], Vec::new(), Vec::new())).is_ok());
    assert!(matches!(
        NetworkWorker::new(mk(vec![tcp(1)], Vec::new(), Vec::new())),
        Err(Error::AddressesForAnotherTransport { .. })
    ));
    let rr = |n: &str| ProtocolConfig { name: n.to_string(), max_request_size: 1, max_response_size: 1 };
    assert!(matches!(
        NetworkWorker::new(mk(vec![mem(1)], Vec::new(), vec![rr("a"), rr("a")])),
        Err(Error::DuplicateRequestResponseProtocol { .. })
    ));
    let clash = vec![
        MultiaddrWithPeerId { multiaddr: mem(5), peer_id: peer(b"a") },
        MultiaddrWithPeerId { multiaddr: mem(5), peer_id: peer(b"b") },
    ];
    assert!(matches!(NetworkWorker::new(mk(vec![mem(1)], clash, Vec::new())), Err(Error::DuplicateBootnode { .. })));
    // The local node among the bootnodes is dropped rather than refused.
    let with_local = vec![
        MultiaddrWithPeerId { multiaddr: mem(5), peer_id: peer(b"local") },
        MultiaddrWithPeerId { multiaddr: mem(5), peer_id: peer(b"b") },
    ];
    assert!(NetworkWorker::new(mk(vec![mem(1)], with_local, Vec::new())).is_ok());
}
