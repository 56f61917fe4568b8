//! Network configuration and the checks made on it before the worker starts.
use crate::peer::{is_memory, Multiaddr, PeerId, ProtocolView};
use crate::request_responses::ProtocolConfig;
use vstd::prelude::*;

verus! {

/// Frame size allowed for the block-announce and transaction substreams.
pub const BLOCK_ANNOUNCES_TRANSACTIONS_SUBSTREAM_SIZE: u64 = 16_777_216;

/// Frame size every protocol is granted at least.
pub const DEFAULT_MAX_FRAME_SIZE: u64 = 1_048_576;

/// Room for the length prefix of a frame: the longest varint of a 64-bit number.
pub const LENGTH_PREFIX_SIZE: u64 = 10;

/// Peers the discovery keeps beyond the outbound slots of the default set.
pub const DISCOVERY_EXTRA_PEERS: u64 = 15;

/// Which transports the node uses.
#[derive(Clone, Copy, Debug, PartialEq, Eq, Structural)]
pub enum TransportConfig {
    /// In-process memory transport only.
    MemoryOnly,
    /// Real network transports.
    Normal { enable_mdns: bool, allow_private_ip: bool },
}

/// An address together with the identity of the peer reachable there.
#[derive(Debug)]
pub struct MultiaddrWithPeerId {
    pub multiaddr: Multiaddr,
    pub peer_id: PeerId,
}

/// Configuration of one notification peer-set.
#[derive(Debug)]
pub struct PeerSetConfig {
    pub in_peers: u32,
    pub out_peers: u32,
    pub reserved_nodes: Vec<MultiaddrWithPeerId>,
    pub reserved_only: bool,
}

/// A notification protocol and its peer-set.
#[derive(Debug)]
pub struct NotificationConfig {
    pub protocol_name: String,
    pub max_notification_size: u64,
    pub set_config: PeerSetConfig,
}

/// Configuration errors, fatal at startup.
#[derive(Debug)]
pub enum Error {
    /// Two bootnodes share an address but not an identity.
    DuplicateBootnode { address: Multiaddr, first_id: PeerId, second_id: PeerId },
    /// Addresses that the configured transport cannot use.
    AddressesForAnotherTransport { transport: TransportConfig, addresses: Vec<Multiaddr> },
    /// Two request-response protocols share a name.
    DuplicateRequestResponseProtocol { protocol: String },
}

/// Whether an address is unusable with the transport: a memory address on a real
/// network, or any other address on the memory transport.
pub open spec fn foreign_to(a: Seq<ProtocolView>, transport: TransportConfig) -> bool {
    match transport {
        TransportConfig::MemoryOnly => exists|j: int| 0 <= j < a.len() && !is_memory(#[trigger] a[j]),
        TransportConfig::Normal { .. } => exists|j: int| 0 <= j < a.len() && is_memory(#[trigger] a[j]),
    }
}

/// The addresses among `addrs` that the transport cannot use, in order.
pub open spec fn foreign_addresses(addrs: Seq<Seq<ProtocolView>>, transport: TransportConfig) -> Seq<Seq<ProtocolView>> {
    addrs.filter(|a: Seq<ProtocolView>| foreign_to(a, transport))
}

/// Checks that every address suits the transport; otherwise names those that do not.
pub fn ensure_addresses_consistent_with_transport(addresses: &Vec<Multiaddr>, transport: TransportConfig) -> (r: Result<(), Error>)
    ensures
        r is Ok <==> foreign_addresses(addresses@.map_values(|a: Multiaddr| a@), transport).len() == 0,
        match r {
            Err(Error::AddressesForAnotherTransport { transport: t, addresses: bad }) => t == transport
                && bad@.map_values(|a: Multiaddr| a@) == foreign_addresses(
                addresses@.map_values(|a: Multiaddr| a@),
                transport,
            ),
            Err(_) => false,
            Ok(_) => true,
        },
{
    let ghost all = addresses@.map_values(|a: Multiaddr| a@);
    let mut bad: Vec<Multiaddr> = Vec::new();
    let mut i: usize = 0;
    while i < addresses.len()
        invariant
            all == addresses@.map_values(|a: Multiaddr| a@),
            i <= addresses@.len(),
            bad@.map_values(|a: Multiaddr| a@) == foreign_addresses(all.subrange(0, i as int), transport),
        decreases addresses@.len() - i,
    {
        let a = &addresses[i];
        let foreign = match transport {
            TransportConfig::MemoryOnly => a.has_non_memory(),
            TransportConfig::Normal { .. } => a.has_memory(),
        };
        proof {
            assert(all.subrange(0, i + 1) =~= all.subrange(0, i as int).push(all[i as int]));
            all.subrange(0, i as int).lemma_filter_push(all[i as int], |a: Seq<ProtocolView>| foreign_to(a, transport));
            assert(all[i as int] == a@);
        }
        if foreign {
            bad.push(a.duplicate());
        }
        i = i + 1;
        proof {
            assert(bad@.map_values(|a: Multiaddr| a@) =~= foreign_addresses(all.subrange(0, i as int), transport));
        }
    }
    proof {
        assert(all.subrange(0, i as int) =~= all);
    }
    if bad.len() == 0 {
        Ok(())
    } else {
        Err(Error::AddressesForAnotherTransport { transport, addresses: bad })
    }
}

/// The nodes whose identity is not `local`, in order.
pub open spec fn without_local(nodes: Seq<MultiaddrWithPeerId>, local: (u64, Seq<u8>)) -> Seq<MultiaddrWithPeerId> {
    nodes.filter(not_local(local))
}

/// Whether a node is not the local one.
pub open spec fn not_local(local: (u64, Seq<u8>)) -> spec_fn(MultiaddrWithPeerId) -> bool {
    |n: MultiaddrWithPeerId| n.peer_id@ != local
}

/// Drops the nodes that name the local identity.
pub fn filter_local(nodes: Vec<MultiaddrWithPeerId>, local: &PeerId) -> (r: Vec<MultiaddrWithPeerId>)
    ensures
        r@ == without_local(nodes@, local@),
{
    let mut out: Vec<MultiaddrWithPeerId> = Vec::new();
    let mut rest = nodes;
    let ghost all = rest@;
    let mut i: usize = 0;
    let n = rest.len();
    proof {
        assert(all.subrange(0, 0) =~= Seq::<MultiaddrWithPeerId>::empty());
    }
    while rest.len() > 0
        invariant
            all.len() == n,
            i + rest@.len() == n,
            rest@ == all.subrange(i as int, n as int),
            out@ == without_local(all.subrange(0, i as int), local@),
        decreases rest@.len(),
    {
        let node = rest.remove(0);
        proof {
            assert(node == all[i as int]);
            assert(all.subrange(0, i + 1) =~= all.subrange(0, i as int).push(node));
            all.subrange(0, i as int).lemma_filter_push(node, not_local(local@));
            assert(rest@ =~= all.subrange(i + 1, n as int));
        }
        if !node.peer_id.same(local) {
            out.push(node);
        }
        i = i + 1;
    }
    proof {
        assert(all.subrange(0, n as int) =~= all);
    }
    out
}

/// Whether bootnode `i` shares its address with a later-listed or earlier-listed bootnode
/// `j` of another identity.
pub open spec fn conflicting(nodes: Seq<MultiaddrWithPeerId>, i: int, j: int) -> bool {
    nodes[j].multiaddr@ == nodes[i].multiaddr@ && nodes[j].peer_id@ != nodes[i].peer_id@
}

/// Refuses two bootnodes with the same address and different identities; the error
/// names the first such bootnode and the first other one it conflicts with.
pub fn check_duplicate_bootnodes(nodes: &Vec<MultiaddrWithPeerId>) -> (r: Result<(), Error>)
    ensures
        r is Ok <==> forall|i: int, j: int|
            0 <= i < nodes@.len() && 0 <= j < nodes@.len() ==> !conflicting(nodes@, i, j),
        match r {
            Err(Error::DuplicateBootnode { address, first_id, second_id }) => exists|i: int, j: int|
                0 <= i < nodes@.len() && 0 <= j < nodes@.len() && conflicting(nodes@, i, j)
                    && address@ == nodes@[i].multiaddr@ && first_id@ == nodes@[i].peer_id@ && second_id@
                    == nodes@[j].peer_id@,
            Err(_) => false,
            Ok(_) => true,
        },
{
    let mut i: usize = 0;
    while i < nodes.len()
        invariant
            i <= nodes@.len(),
            forall|a: int, b: int| 0 <= a < i && 0 <= b < nodes@.len() ==> !conflicting(nodes@, a, b),
        decreases nodes@.len() - i,
    {
        let mut j: usize = 0;
        while j < nodes.len()
            invariant
                i < nodes@.len(),
                j <= nodes@.len(),
                forall|b: int| 0 <= b < j ==> !conflicting(nodes@, i as int, b),
            decreases nodes@.len() - j,
        {
            if nodes[j].multiaddr.same(&nodes[i].multiaddr) && !nodes[j].peer_id.same(&nodes[i].peer_id) {
                assert(conflicting(nodes@, i as int, j as int));
                return Err(
                    Error::DuplicateBootnode {
                        address: nodes[i].multiaddr.duplicate(),
                        first_id: nodes[i].peer_id.duplicate(),
                        second_id: nodes[j].peer_id.duplicate(),
                    },
                );
            }
            j = j + 1;
        }
        i = i + 1;
    }
    Ok(())
}

/// The largest of `base` and the values of `s`.
pub open spec fn max_of(base: u64, s: Seq<u64>) -> u64
    decreases s.len(),
{
    if s.len() == 0 {
        base
    } else {
        let m = max_of(base, s.drop_last());
        if s.last() > m {
            s.last()
        } else {
            m
        }
    }
}

/// Buffer size of the stream multiplexer: the largest frame any protocol allows (and at
/// least the default and the block-announce sizes), plus room for the length prefix,
/// saturating at the largest `u64`.
pub fn yamux_maximum_buffer_size(request_response: &Vec<ProtocolConfig>, notifications: &Vec<NotificationConfig>) -> (r: u64)
    ensures
        r as int == min_u64(
            max_of(
                BLOCK_ANNOUNCES_TRANSACTIONS_SUBSTREAM_SIZE,
                request_response@.map_values(|c: ProtocolConfig| c.max_request_size)
                    + request_response@.map_values(|c: ProtocolConfig| c.max_response_size)
                    + notifications@.map_values(|c: NotificationConfig| c.max_notification_size),
            ) + LENGTH_PREFIX_SIZE,
        ),
{
    let ghost reqs = request_response@.map_values(|c: ProtocolConfig| c.max_request_size);
    let ghost resps = request_response@.map_values(|c: ProtocolConfig| c.max_response_size);
    let ghost notifs = notifications@.map_values(|c: NotificationConfig| c.max_notification_size);
    let base: u64 = if DEFAULT_MAX_FRAME_SIZE > BLOCK_ANNOUNCES_TRANSACTIONS_SUBSTREAM_SIZE {
        DEFAULT_MAX_FRAME_SIZE
    } else {
        BLOCK_ANNOUNCES_TRANSACTIONS_SUBSTREAM_SIZE
    };
    let mut m: u64 = base;
    let mut i: usize = 0;
    while i < request_response.len()
        invariant
            reqs == request_response@.map_values(|c: ProtocolConfig| c.max_request_size),
            i <= reqs.len(),
            m == max_of(BLOCK_ANNOUNCES_TRANSACTIONS_SUBSTREAM_SIZE, reqs.subrange(0, i as int)),
        decreases reqs.len() - i,
    {
        proof {
            assert(reqs.subrange(0, i + 1).drop_last() =~= reqs.subrange(0, i as int));
        }
        if request_response[i].max_request_size > m {
            m = request_response[i].max_request_size;
        }
        i = i + 1;
    }
    proof {
        assert(reqs.subrange(0, i as int) =~= reqs);
    }
    let ghost s1 = reqs;
    i = 0;
    while i < request_response.len()
        invariant
            reqs == request_response@.map_values(|c: ProtocolConfig| c.max_request_size),
            resps == request_response@.map_values(|c: ProtocolConfig| c.max_response_size),
            i <= resps.len(),
            m == max_of(BLOCK_ANNOUNCES_TRANSACTIONS_SUBSTREAM_SIZE, reqs + resps.subrange(0, i as int)),
        decreases resps.len() - i,
    {
        proof {
            assert((reqs + resps.subrange(0, i + 1)).drop_last() =~= reqs + resps.subrange(0, i as int));
            assert((reqs + resps.subrange(0, i + 1)).last() == resps[i as int]);
        }
        if request_response[i].max_response_size > m {
            m = request_response[i].max_response_size;
        }
        i = i + 1;
    }
    proof {
        assert(reqs + resps.subrange(0, i as int) =~= reqs + resps);
    }
    i = 0;
    while i < notifications.len()
        invariant
            reqs == request_response@.map_values(|c: ProtocolConfig| c.max_request_size),
            resps == request_response@.map_values(|c: ProtocolConfig| c.max_response_size),
            notifs == notifications@.map_values(|c: NotificationConfig| c.max_notification_size),
            i <= notifs.len(),
            m == max_of(BLOCK_ANNOUNCES_TRANSACTIONS_SUBSTREAM_SIZE, reqs + resps + notifs.subrange(0, i as int)),
        decreases notifs.len() - i,
    {
        proof {
            assert((reqs + resps + notifs.subrange(0, i + 1)).drop_last() =~= reqs + resps + notifs.subrange(0, i as int));
            assert((reqs + resps + notifs.subrange(0, i + 1)).last() == notifs[i as int]);
        }
        if notifications[i].max_notification_size > m {
            m = notifications[i].max_notification_size;
        }
        i = i + 1;
    }
    proof {
        assert(reqs + resps + notifs.subrange(0, i as int) =~= reqs + resps + notifs);
    }
    if m > u64::MAX - LENGTH_PREFIX_SIZE {
        u64::MAX
    } else {
        m + LENGTH_PREFIX_SIZE
    }
}

/// `x`, or the largest `u64` when `x` is larger.
pub open spec fn min_u64(x: int) -> int {
    if x > u64::MAX {
        u64::MAX as int
    } else {
        x
    }
}

/// How many peers the discovery keeps: the outbound slots of the default set and a margin.
pub fn discovery_limit(out_peers: u32) -> (r: u64)
    ensures
        r == out_peers + DISCOVERY_EXTRA_PEERS,
{
    out_peers as u64 + DISCOVERY_EXTRA_PEERS
}

} // verus!
