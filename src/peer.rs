//! Peer identities and composite network addresses.
use crate::bytes::bytes_eq;
use crate::multihash::{Multihash, IDENTITY_CODE, SHA2_256_CODE};
use vstd::prelude::*;

verus! {

/// Longest public key, in bytes, that a peer identity may inline with the identity hash.
pub const MAX_INLINE_KEY_LENGTH: usize = 42;

/// Whether a multihash may identify a peer: a SHA-256 hash of a key, or a short key
/// inlined with the identity hash.
pub open spec fn is_peer_multihash(m: (u64, Seq<u8>)) -> bool {
    m.0 == SHA2_256_CODE || (m.0 == IDENTITY_CODE && m.1.len() <= MAX_INLINE_KEY_LENGTH)
}

/// Identifier of a network participant: the multihash of its public key, compared by
/// its code and digest.
#[derive(Clone, Debug)]
pub struct PeerId {
    code: u64,
    digest: Vec<u8>,
}

impl View for PeerId {
    type V = (u64, Seq<u8>);

    closed spec fn view(&self) -> (u64, Seq<u8>) {
        (self.code, self.digest@)
    }
}

impl PartialEq for PeerId {
    fn eq(&self, other: &PeerId) -> (r: bool)
        ensures
            r == (self@ == other@),
    {
        self.code == other.code && bytes_eq(self.digest.as_slice(), other.digest.as_slice())
    }
}

impl vstd::std_specs::cmp::PartialEqSpecImpl for PeerId {
    open spec fn obeys_eq_spec() -> bool {
        true
    }

    open spec fn eq_spec(&self, other: &PeerId) -> bool {
        self@ == other@
    }
}

impl PeerId {
    /// The identity behind a multihash, if the multihash may identify a peer.
    pub fn from_multihash(m: &Multihash) -> (r: Option<PeerId>)
        ensures
            r is Some <==> is_peer_multihash(m@),
            r is Some ==> r->0@ == m@,
    {
        let code = m.code();
        let digest = m.digest();
        if code == SHA2_256_CODE || (code == IDENTITY_CODE && digest.len() <= MAX_INLINE_KEY_LENGTH) {
            Some(PeerId { code, digest: crate::bytes::copy_bytes(digest) })
        } else {
            None
        }
    }

    /// A copy of this identity.
    pub fn duplicate(&self) -> (r: PeerId)
        ensures
            r@ == self@,
    {
        PeerId { code: self.code, digest: crate::bytes::copy_bytes(self.digest.as_slice()) }
    }

    /// Whether two identities are the same.
    pub fn same(&self, other: &PeerId) -> (r: bool)
        ensures
            r == (self@ == other@),
    {
        self.code == other.code && bytes_eq(self.digest.as_slice(), other.digest.as_slice())
    }
}

/// Direction of a connection or a substream, seen from the local node.
#[derive(Clone, Copy, Debug, PartialEq, Eq, Structural)]
pub enum Direction {
    /// The remote opened it.
    Inbound,
    /// The local node opened it.
    Outbound,
}

/// One component of a [`Multiaddr`].
#[derive(Clone, Debug)]
pub enum Protocol {
    /// IPv4 address.
    Ip4(u32),
    /// IPv6 address.
    Ip6(u128),
    /// DNS name.
    Dns(String),
    /// TCP port.
    Tcp(u16),
    /// UDP port.
    Udp(u16),
    /// WebSocket upgrade.
    Ws,
    /// In-process memory transport port.
    Memory(u64),
    /// Identity of the peer reachable at the address.
    P2p(Multihash),
}

/// What a [`Protocol`] component holds, as plain values.
pub enum ProtocolView {
    Ip4(u32),
    Ip6(u128),
    Dns(Seq<char>),
    Tcp(u16),
    Udp(u16),
    Ws,
    Memory(u64),
    P2p((u64, Seq<u8>)),
}

impl View for Protocol {
    type V = ProtocolView;

    open spec fn view(&self) -> ProtocolView {
        match self {
            Protocol::Ip4(a) => ProtocolView::Ip4(*a),
            Protocol::Ip6(a) => ProtocolView::Ip6(*a),
            Protocol::Dns(s) => ProtocolView::Dns(s@),
            Protocol::Tcp(p) => ProtocolView::Tcp(*p),
            Protocol::Udp(p) => ProtocolView::Udp(*p),
            Protocol::Ws => ProtocolView::Ws,
            Protocol::Memory(p) => ProtocolView::Memory(*p),
            Protocol::P2p(m) => ProtocolView::P2p(m@),
        }
    }
}

impl Protocol {
    /// A copy of this component.
    pub fn duplicate(&self) -> (r: Protocol)
        ensures
            r@ == self@,
    {
        match self {
            Protocol::Ip4(a) => Protocol::Ip4(*a),
            Protocol::Ip6(a) => Protocol::Ip6(*a),
            Protocol::Dns(s) => Protocol::Dns(s.clone()),
            Protocol::Tcp(p) => Protocol::Tcp(*p),
            Protocol::Udp(p) => Protocol::Udp(*p),
            Protocol::Ws => Protocol::Ws,
            Protocol::Memory(p) => Protocol::Memory(*p),
            Protocol::P2p(m) => Protocol::P2p(m.duplicate()),
        }
    }

    /// Whether two components are the same.
    pub fn same(&self, other: &Protocol) -> (r: bool)
        ensures
            r == (self@ == other@),
    {
        match (self, other) {
            (Protocol::Ip4(a), Protocol::Ip4(b)) => *a == *b,
            (Protocol::Ip6(a), Protocol::Ip6(b)) => *a == *b,
            (Protocol::Dns(a), Protocol::Dns(b)) => *a == *b,
            (Protocol::Tcp(a), Protocol::Tcp(b)) => *a == *b,
            (Protocol::Udp(a), Protocol::Udp(b)) => *a == *b,
            (Protocol::Ws, Protocol::Ws) => true,
            (Protocol::Memory(a), Protocol::Memory(b)) => *a == *b,
            (Protocol::P2p(a), Protocol::P2p(b)) => a.code() == b.code() && bytes_eq(
                a.digest(),
                b.digest(),
            ),
            _ => false,
        }
    }
}

/// Self-describing composite network address: transport and location components,
/// optionally ending with the identity of the peer.
#[derive(Clone, Debug)]
pub struct Multiaddr {
    pub components: Vec<Protocol>,
}

impl View for Multiaddr {
    type V = Seq<ProtocolView>;

    open spec fn view(&self) -> Seq<ProtocolView> {
        self.components@.map_values(|c: Protocol| c@)
    }
}

/// Whether an address component is the memory transport.
pub open spec fn is_memory(c: ProtocolView) -> bool {
    c is Memory
}

impl Multiaddr {
    /// The empty address.
    pub fn empty() -> (r: Multiaddr)
        ensures
            r@ == Seq::<ProtocolView>::empty(),
    {
        let r = Multiaddr { components: Vec::new() };
        assert(r@ =~= Seq::<ProtocolView>::empty());
        r
    }

    /// An address made of the given components.
    pub fn from_components(components: Vec<Protocol>) -> (r: Multiaddr)
        ensures
            r.components@ == components@,
    {
        Multiaddr { components }
    }

    /// Whether the address has no component.
    pub fn is_empty(&self) -> (r: bool)
        ensures
            r == (self@.len() == 0),
    {
        self.components.len() == 0
    }

    /// A copy of this address.
    pub fn duplicate(&self) -> (r: Multiaddr)
        ensures
            r@ == self@,
    {
        let mut out: Vec<Protocol> = Vec::new();
        let mut i: usize = 0;
        while i < self.components.len()
            invariant
                i <= self.components@.len(),
                out@.len() == i,
                forall|j: int| 0 <= j < i ==> out@[j]@ == self.components@[j]@,
            decreases self.components@.len() - i,
        {
            out.push(self.components[i].duplicate());
            i = i + 1;
        }
        let r = Multiaddr { components: out };
        assert(r@ =~= self@);
        r
    }

    /// Whether two addresses are the same.
    pub fn same(&self, other: &Multiaddr) -> (r: bool)
        ensures
            r == (self@ == other@),
    {
        if self.components.len() != other.components.len() {
            assert(self@.len() != other@.len());
            return false;
        }
        let mut i: usize = 0;
        while i < self.components.len()
            invariant
                self.components@.len() == other.components@.len(),
                i <= self.components@.len(),
                forall|j: int| 0 <= j < i ==> self@[j] == other@[j],
            decreases self.components@.len() - i,
        {
            if !self.components[i].same(&other.components[i]) {
                assert(self@[i as int] != other@[i as int]);
                return false;
            }
            i = i + 1;
        }
        assert(self@ =~= other@);
        true
    }

    /// Whether some component is the memory transport.
    pub fn has_memory(&self) -> (r: bool)
        ensures
            r == (exists|j: int| 0 <= j < self@.len() && is_memory(#[trigger] self@[j])),
    {
        let mut i: usize = 0;
        while i < self.components.len()
            invariant
                i <= self.components@.len(),
                forall|j: int| 0 <= j < i ==> !is_memory(#[trigger] self@[j]),
            decreases self.components@.len() - i,
        {
            if let Protocol::Memory(_) = &self.components[i] {
                assert(is_memory(self@[i as int]));
                return true;
            }
            i = i + 1;
        }
        false
    }

    /// Whether some component is not the memory transport.
    pub fn has_non_memory(&self) -> (r: bool)
        ensures
            r == (exists|j: int| 0 <= j < self@.len() && !is_memory(#[trigger] self@[j])),
    {
        let mut i: usize = 0;
        while i < self.components.len()
            invariant
                i <= self.components@.len(),
                forall|j: int| 0 <= j < i ==> is_memory(#[trigger] self@[j]),
            decreases self.components@.len() - i,
        {
            if let Protocol::Memory(_) = &self.components[i] {
            } else {
                assert(!is_memory(self@[i as int]));
                return true;
            }
            i = i + 1;
        }
        false
    }
}

/// How an address that should end with a peer identity splits into the identity and
/// the rest of the address.
pub enum SplitError {
    /// The last component is not a peer identity.
    MissingPeerId,
    /// The last component holds a multihash that cannot identify a peer.
    InvalidPeerId,
}

/// The peer identity that an address ends with, if it ends with a valid one.
pub open spec fn trailing_peer(a: Seq<ProtocolView>) -> Option<(u64, Seq<u8>)> {
    if a.len() > 0 && a.last() is P2p && is_peer_multihash(a.last()->P2p_0) {
        Some(a.last()->P2p_0)
    } else {
        None
    }
}

/// Splits the trailing peer identity off an address.
pub fn split_peer(addr: &Multiaddr) -> (r: Result<(PeerId, Multiaddr), SplitError>)
    ensures
        match r {
            Ok((p, rest)) => trailing_peer(addr@) == Some(p@) && rest@ == addr@.drop_last(),
            Err(SplitError::MissingPeerId) => addr@.len() == 0 || !(addr@.last() is P2p),
            Err(SplitError::InvalidPeerId) => addr@.len() > 0 && addr@.last() is P2p
                && trailing_peer(addr@) is None,
        },
{
    let n = addr.components.len();
    if n == 0 {
        return Err(SplitError::MissingPeerId);
    }
    assert(addr@.last() == addr.components@[n - 1]@);
    match &addr.components[n - 1] {
        Protocol::P2p(m) => {
            match PeerId::from_multihash(m) {
                Some(p) => {
                    let mut rest: Vec<Protocol> = Vec::new();
                    let mut i: usize = 0;
                    while i + 1 < n
                        invariant
                            n == addr.components@.len(),
                            n > 0,
                            i + 1 <= n,
                            rest@.len() == i,
                            forall|j: int| 0 <= j < i ==> rest@[j]@ == addr.components@[j]@,
                        decreases n - i,
                    {
                        rest.push(addr.components[i].duplicate());
                        i = i + 1;
                    }
                    let rest = Multiaddr { components: rest };
                    assert(rest@ =~= addr@.drop_last());
                    Ok((p, rest))
                },
                None => Err(SplitError::InvalidPeerId),
            }
        },
        _ => Err(SplitError::MissingPeerId),
    }
}

/// Position of `p` in `peers`, if it is there.
pub fn position(peers: &Vec<PeerId>, p: &PeerId) -> (r: Option<usize>)
    ensures
        match r {
            Some(i) => i < peers@.len() && peers@[i as int]@ == p@,
            None => forall|j: int| 0 <= j < peers@.len() ==> (#[trigger] peers@[j])@ != p@,
        },
{
    let mut i: usize = 0;
    while i < peers.len()
        invariant
            i <= peers@.len(),
            forall|j: int| 0 <= j < i ==> (#[trigger] peers@[j])@ != p@,
        decreases peers@.len() - i,
    {
        if peers[i].same(p) {
            return Some(i);
        }
        i = i + 1;
    }
    None
}

/// Whether `p` is one of `peers`, by identity.
pub open spec fn contains_peer(peers: Seq<PeerId>, p: (u64, Seq<u8>)) -> bool {
    exists|j: int| 0 <= j < peers.len() && (#[trigger] peers[j])@ == p
}

/// No identity appears twice in `peers`.
pub open spec fn distinct_peers(peers: Seq<PeerId>) -> bool {
    forall|i: int, j: int|
        0 <= i < peers.len() && 0 <= j < peers.len() && i != j ==> (#[trigger] peers[i])@ != (
        #[trigger] peers[j])@
}

/// Position of the identity `p` among `peers`, where it is there.
pub open spec fn index_of(peers: Seq<PeerId>, p: (u64, Seq<u8>)) -> int {
    choose|i: int| 0 <= i < peers.len() && (#[trigger] peers[i])@ == p
}

/// In a list without repeats, an identity has exactly one position.
pub proof fn lemma_index_of(peers: Seq<PeerId>, p: (u64, Seq<u8>), i: int)
    requires
        distinct_peers(peers),
        0 <= i < peers.len(),
        peers[i]@ == p,
    ensures
        index_of(peers, p) == i,
{
    let j = index_of(peers, p);
    assert(0 <= j < peers.len() && peers[j]@ == p);
}

/// Removing one identity from a list without repeats leaves the others and no repeats.
pub proof fn lemma_remove_peer(s: Seq<PeerId>, i: int)
    requires
        distinct_peers(s),
        0 <= i < s.len(),
    ensures
        distinct_peers(s.remove(i)),
        forall|q: (u64, Seq<u8>)|
            #[trigger] contains_peer(s.remove(i), q) == (contains_peer(s, q) && q != s[i]@),
{
    let t = s.remove(i);
    assert forall|a: int, b: int|
        0 <= a < t.len() && 0 <= b < t.len() && a != b implies (#[trigger] t[a])@ != (
        #[trigger] t[b])@ by {
        let a2 = if a < i { a } else { a + 1 };
        let b2 = if b < i { b } else { b + 1 };
        assert(t[a] == s[a2] && t[b] == s[b2]);
    }
    assert forall|q: (u64, Seq<u8>)| #[trigger] contains_peer(t, q) == (contains_peer(s, q) && q != s[i]@) by {
        if contains_peer(t, q) {
            let a = choose|a: int| 0 <= a < t.len() && (#[trigger] t[a])@ == q;
            let a2 = if a < i { a } else { a + 1 };
            assert(t[a] == s[a2]);
            assert(a2 != i);
        }
        if contains_peer(s, q) && q != s[i]@ {
            let a = choose|a: int| 0 <= a < s.len() && (#[trigger] s[a])@ == q;
            assert(a != i);
            let a2 = if a < i { a } else { a - 1 };
            assert(t[a2] == s[a]);
        }
    }
}

/// Appending an identity adds it to what the list contains; a new one keeps the list
/// without repeats.
pub proof fn lemma_push_peer(s: Seq<PeerId>, p: PeerId)
    ensures
        forall|q: (u64, Seq<u8>)|
            #[trigger] contains_peer(s.push(p), q) == (contains_peer(s, q) || q == p@),
        distinct_peers(s) && !contains_peer(s, p@) ==> distinct_peers(s.push(p)),
{
    let t = s.push(p);
    assert forall|q: (u64, Seq<u8>)| #[trigger] contains_peer(t, q) == (contains_peer(s, q) || q == p@) by {
        if contains_peer(t, q) {
            let a = choose|a: int| 0 <= a < t.len() && (#[trigger] t[a])@ == q;
            if a < s.len() {
                assert(t[a] == s[a]);
            }
        }
        if contains_peer(s, q) {
            let a = choose|a: int| 0 <= a < s.len() && (#[trigger] s[a])@ == q;
            assert(t[a] == s[a]);
        }
        if q == p@ {
            assert(t[s.len() as int] == p);
        }
    }
    if distinct_peers(s) && !contains_peer(s, p@) {
        assert forall|a: int, b: int|
            0 <= a < t.len() && 0 <= b < t.len() && a != b implies (#[trigger] t[a])@ != (
            #[trigger] t[b])@ by {
            if a < s.len() && b < s.len() {
                assert(t[a] == s[a] && t[b] == s[b]);
            } else if a < s.len() {
                assert(t[a] == s[a]);
            } else {
                assert(t[b] == s[b]);
            }
        }
    }
}

} // verus!
