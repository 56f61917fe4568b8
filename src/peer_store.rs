//! Reputation and role tracking for known peers, shared by the worker and every peer-set.
use crate::peer::{contains_peer, distinct_peers, index_of, lemma_index_of, position, PeerId};
use vstd::prelude::*;

verus! {

/// Reputation below which a peer is banned: no connection is accepted from it or made to it.
pub const BANNED_THRESHOLD: i32 = -1_760_936_552;

/// Role a peer announced in its handshake.
#[derive(Clone, Copy, Debug, PartialEq, Eq, Structural)]
pub enum ObservedRole {
    /// Full node.
    Full,
    /// Light node.
    Light,
    /// Third-party authority.
    Authority,
}

/// A signed change of a peer's reputation, with the reason for it.
#[derive(Clone, Debug)]
pub struct ReputationChange {
    /// Reputation delta.
    pub value: i32,
    /// Reason for the change.
    pub reason: String,
}

impl ReputationChange {
    /// A change of `value` for the given reason.
    pub fn new(value: i32, reason: &str) -> (r: ReputationChange)
        ensures
            r.value == value,
            r.reason@ == reason@,
    {
        ReputationChange { value, reason: reason.to_owned() }
    }

    /// The change that bans a peer at once.
    pub fn new_fatal(reason: &str) -> (r: ReputationChange)
        ensures
            r.value == i32::MIN,
            r.reason@ == reason@,
    {
        ReputationChange { value: i32::MIN, reason: reason.to_owned() }
    }
}

/// `a + b`, clamped to the range of `i32`.
pub open spec fn saturating_add(a: i32, b: i32) -> i32 {
    if a + b < i32::MIN {
        i32::MIN
    } else if a + b > i32::MAX {
        i32::MAX
    } else {
        (a + b) as i32
    }
}

/// Reputation lost by a peer each time it disconnects.
pub const DISCONNECT_REPUTATION_CHANGE: i32 = -256;

/// What the peer-set admission logic needs from a peer store.
pub trait PeerStoreProvider {
    /// The store is in a consistent state.
    spec fn ready(&self) -> bool;

    /// Whether the store bans the peer `p`.
    spec fn banned(&self, p: (u64, Seq<u8>)) -> bool;

    /// Whether the peer is banned.
    fn is_banned(&self, p: &PeerId) -> (r: bool)
        requires
            self.ready(),
        ensures
            r == self.banned(p@),
    ;

    /// Current reputation of the peer.
    fn peer_reputation(&self, p: &PeerId) -> i32
        requires
            self.ready(),
    ;

    /// Role the store records for the peer `p`.
    spec fn role_of(&self, p: (u64, Seq<u8>)) -> Option<ObservedRole>;

    /// Role of the peer, if known.
    fn peer_role(&self, p: &PeerId) -> (r: Option<ObservedRole>)
        requires
            self.ready(),
        ensures
            r == self.role_of(p@),
    ;

    /// Applies a reputation change to the peer.
    fn report_peer(&mut self, p: &PeerId, change: &ReputationChange)
        requires
            old(self).ready(),
        ensures
            final(self).ready(),
    ;

    /// Records that the peer disconnected.
    fn report_disconnect(&mut self, p: &PeerId)
        requires
            old(self).ready(),
        ensures
            final(self).ready(),
    ;

    /// Records the role of the peer.
    fn set_peer_role(&mut self, p: &PeerId, role: ObservedRole)
        requires
            old(self).ready(),
        ensures
            final(self).ready(),
    ;

    /// At most `count` distinct peers to dial: none banned and none among `ignored`.
    fn outgoing_candidates(&self, count: usize, ignored: &Vec<PeerId>) -> (r: Vec<PeerId>)
        requires
            self.ready(),
        ensures
            r@.len() <= count,
            distinct_peers(r@),
            forall|i: int|
                0 <= i < r@.len() ==> !self.banned((#[trigger] r@[i])@) && !contains_peer(
                    ignored@,
                    r@[i]@,
                ),
    ;
}

/// Reputation and role of every peer the node has heard of, in the order it heard of them.
#[derive(Debug)]
pub struct PeerStore {
    peers: Vec<PeerId>,
    reputations: Vec<i32>,
    roles: Vec<Option<ObservedRole>>,
}

impl PeerStore {
    /// The three columns agree and no peer is listed twice.
    pub closed spec fn wf(&self) -> bool {
        &&& self.peers@.len() == self.reputations@.len()
        &&& self.peers@.len() == self.roles@.len()
        &&& distinct_peers(self.peers@)
    }

    /// Whether the store has heard of the peer `p`.
    pub closed spec fn knows(&self, p: (u64, Seq<u8>)) -> bool {
        contains_peer(self.peers@, p)
    }

    /// Number of known peers.
    pub closed spec fn num_known(&self) -> nat {
        self.peers@.len()
    }

    /// Reputation of `p`; a peer never heard of has reputation zero.
    pub closed spec fn reputation(&self, p: (u64, Seq<u8>)) -> i32 {
        if self.knows(p) {
            self.reputations@[index_of(self.peers@, p)]
        } else {
            0
        }
    }

    /// Role recorded for `p`.
    pub closed spec fn role(&self, p: (u64, Seq<u8>)) -> Option<ObservedRole> {
        if self.knows(p) {
            self.roles@[index_of(self.peers@, p)]
        } else {
            None
        }
    }

    /// Whether `p` is banned.
    pub open spec fn is_banned_spec(&self, p: (u64, Seq<u8>)) -> bool {
        self.reputation(p) < BANNED_THRESHOLD
    }

    /// Whether `p` may be dialed when the peers in `ignored` are left out.
    pub open spec fn dialable(&self, p: (u64, Seq<u8>), ignored: Seq<PeerId>) -> bool {
        !self.is_banned_spec(p) && !contains_peer(ignored, p)
    }

    /// The dialable peers among the first `n` known ones, in the order they became known.
    pub closed spec fn dialable_prefix(&self, n: int, ignored: Seq<PeerId>) -> Seq<(u64, Seq<u8>)>
        decreases n,
    {
        if n <= 0 {
            Seq::empty()
        } else if self.dialable(self.peers@[n - 1]@, ignored) {
            self.dialable_prefix(n - 1, ignored).push(self.peers@[n - 1]@)
        } else {
            self.dialable_prefix(n - 1, ignored)
        }
    }

    /// The first `count` dialable peers, in the order they became known.
    pub closed spec fn candidates(&self, count: nat, ignored: Seq<PeerId>) -> Seq<(u64, Seq<u8>)> {
        let all = self.dialable_prefix(self.peers@.len() as int, ignored);
        if all.len() <= count {
            all
        } else {
            all.take(count as int)
        }
    }

    proof fn lemma_prefix_grows(&self, i: int, j: int, ignored: Seq<PeerId>)
        requires
            0 <= i <= j,
        ensures
            self.dialable_prefix(i, ignored).len() <= self.dialable_prefix(j, ignored).len(),
            self.dialable_prefix(j, ignored).take(self.dialable_prefix(i, ignored).len() as int)
                == self.dialable_prefix(i, ignored),
        decreases j - i,
    {
        if i < j {
            self.lemma_prefix_grows(i, j - 1, ignored);
            let a = self.dialable_prefix(i, ignored);
            let b = self.dialable_prefix(j - 1, ignored);
            let c = self.dialable_prefix(j, ignored);
            if self.dialable(self.peers@[j - 1]@, ignored) {
                assert(c.take(a.len() as int) =~= b.take(a.len() as int));
            }
        } else {
            assert(self.dialable_prefix(j, ignored).take(self.dialable_prefix(j, ignored).len() as int)
                =~= self.dialable_prefix(j, ignored));
        }
    }

    proof fn lemma_prefix_members(&self, n: int, ignored: Seq<PeerId>)
        requires
            0 <= n <= self.peers@.len(),
            distinct_peers(self.peers@),
        ensures
            forall|k: int|
                0 <= k < self.dialable_prefix(n, ignored).len() ==> self.dialable(
                    #[trigger] self.dialable_prefix(n, ignored)[k],
                    ignored,
                ) && (exists|m: int| 0 <= m < n && self.peers@[m]@ == self.dialable_prefix(n, ignored)[k]),
            forall|k: int, l: int|
                0 <= k < l < self.dialable_prefix(n, ignored).len() ==> #[trigger] self.dialable_prefix(n, ignored)[k]
                    != #[trigger] self.dialable_prefix(n, ignored)[l],
        decreases n,
    {
        if n > 0 {
            self.lemma_prefix_members(n - 1, ignored);
            let b = self.dialable_prefix(n - 1, ignored);
            let c = self.dialable_prefix(n, ignored);
            if self.dialable(self.peers@[n - 1]@, ignored) {
                assert forall|k: int| 0 <= k < c.len() implies self.dialable(#[trigger] c[k], ignored)
                    && (exists|m: int| 0 <= m < n && self.peers@[m]@ == c[k]) by {
                    if k < b.len() {
                        assert(c[k] == b[k]);
                        let m = choose|m: int| 0 <= m < n - 1 && self.peers@[m]@ == b[k];
                        assert(0 <= m < n && self.peers@[m]@ == c[k]);
                    } else {
                        assert(0 <= n - 1 < n && self.peers@[n - 1]@ == c[k]);
                    }
                }
                assert forall|k: int, l: int| 0 <= k < l < c.len() implies #[trigger] c[k] != #[trigger] c[l] by {
                    if l < b.len() {
                        assert(c[k] == b[k] && c[l] == b[l]);
                    } else {
                        assert(c[k] == b[k]);
                        let m = choose|m: int| 0 <= m < n - 1 && self.peers@[m]@ == b[k];
                        assert(self.peers@[m]@ != self.peers@[n - 1]@);
                    }
                }
            }
        }
    }

    /// An empty store.
    pub fn new() -> (r: PeerStore)
        ensures
            r.wf(),
            r.num_known() == 0,
            forall|p: (u64, Seq<u8>)| !r.knows(p) && r.reputation(p) == 0 && r.role(p) is None,
    {
        PeerStore { peers: Vec::new(), reputations: Vec::new(), roles: Vec::new() }
    }

    /// Number of peers the store has heard of.
    pub fn num_known_peers(&self) -> (r: usize)
        ensures
            r == self.num_known(),
    {
        self.peers.len()
    }

    /// Makes the peer known, with reputation zero and no role, unless it already is.
    pub fn add_known_peer(&mut self, p: &PeerId)
        requires
            old(self).wf(),
        ensures
            final(self).wf(),
            final(self).knows(p@),
            forall|q: (u64, Seq<u8>)|
                q != p@ ==> (final(self).knows(q) == old(self).knows(q)),
            forall|q: (u64, Seq<u8>)|
                (#[trigger] final(self).reputation(q)) == old(self).reputation(q),
            forall|q: (u64, Seq<u8>)| (#[trigger] final(self).role(q)) == old(self).role(q),
    {
        self.ensure_known(p);
    }

    fn ensure_known(&mut self, p: &PeerId) -> (r: usize)
        requires
            old(self).wf(),
        ensures
            final(self).wf(),
            r < final(self).peers@.len(),
            final(self).peers@[r as int]@ == p@,
            final(self).knows(p@),
            forall|q: (u64, Seq<u8>)|
                q != p@ ==> (final(self).knows(q) == old(self).knows(q)),
            forall|q: (u64, Seq<u8>)|
                (#[trigger] final(self).reputation(q)) == old(self).reputation(q),
            forall|q: (u64, Seq<u8>)| (#[trigger] final(self).role(q)) == old(self).role(q),
            forall|i: int|
                0 <= i < old(self).peers@.len() ==> final(self).peers@[i] == old(self).peers@[i],
            final(self).peers@.len() >= old(self).peers@.len(),
            final(self).reputations@.subrange(0, old(self).peers@.len() as int)
                == old(self).reputations@,
            final(self).roles@.subrange(0, old(self).peers@.len() as int) == old(self).roles@,
    {
        match position(&self.peers, p) {
            Some(i) => {
                proof {
                    assert(self.reputations@.subrange(0, self.peers@.len() as int) =~= self.reputations@);
                    assert(self.roles@.subrange(0, self.peers@.len() as int) =~= self.roles@);
                }
                i
            },
            None => {
                let ghost old_peers = self.peers@;
                let ghost old_self = *self;
                self.peers.push(p.duplicate());
                self.reputations.push(0);
                self.roles.push(None);
                let n = self.peers.len() - 1;
                proof {
                    assert(distinct_peers(self.peers@)) by {
                        assert forall|a: int, b: int|
                            0 <= a < self.peers@.len() && 0 <= b < self.peers@.len() && a != b
                                implies (#[trigger] self.peers@[a])@ != (#[trigger] self.peers@[b])@ by {
                            if a < n && b < n {
                                assert(self.peers@[a] == old_peers[a]);
                                assert(self.peers@[b] == old_peers[b]);
                            } else if a == n {
                                assert(self.peers@[b] == old_peers[b]);
                            } else {
                                assert(self.peers@[a] == old_peers[a]);
                            }
                        }
                    }
                    assert(contains_peer(self.peers@, p@)) by {
                        assert(self.peers@[n as int]@ == p@);
                    }
                    assert forall|q: (u64, Seq<u8>)| q != p@ implies (self.knows(q) == old_self.knows(q)) by {
                        if self.knows(q) {
                            let j = choose|j: int| 0 <= j < self.peers@.len() && (#[trigger] self.peers@[j])@ == q;
                            assert(j < n);
                            assert(old_peers[j]@ == q);
                        }
                        if old_self.knows(q) {
                            let j = choose|j: int| 0 <= j < old_peers.len() && (#[trigger] old_peers[j])@ == q;
                            assert(self.peers@[j]@ == q);
                        }
                    }
                    assert forall|q: (u64, Seq<u8>)| (#[trigger] self.reputation(q)) == old_self.reputation(q)
                        && self.role(q) == old_self.role(q) by {
                        if q == p@ {
                            lemma_index_of(self.peers@, q, n as int);
                        } else if old_self.knows(q) {
                            let j = index_of(old_peers, q);
                            assert(self.peers@[j] == old_peers[j]);
                            lemma_index_of(self.peers@, q, j);
                        }
                    }
                    assert(self.reputations@.subrange(0, n as int) =~= old_self.reputations@);
                    assert(self.roles@.subrange(0, n as int) =~= old_self.roles@);
                }
                n
            },
        }
    }

    /// Applies a reputation change, clamped to the range of `i32`; an unknown peer becomes known.
    pub fn report_peer(&mut self, p: &PeerId, change: &ReputationChange)
        requires
            old(self).wf(),
        ensures
            final(self).wf(),
            final(self).knows(p@),
            final(self).reputation(p@) == saturating_add(old(self).reputation(p@), change.value),
            forall|q: (u64, Seq<u8>)|
                q != p@ ==> (final(self).knows(q) == old(self).knows(q)),
            forall|q: (u64, Seq<u8>)|
                q != p@ ==> (#[trigger] final(self).reputation(q)) == old(self).reputation(q),
            forall|q: (u64, Seq<u8>)| (#[trigger] final(self).role(q)) == old(self).role(q),
    {
        let i = self.ensure_known(p);
        let ghost mid = *self;
        proof {
            lemma_index_of(self.peers@, p@, i as int);
        }
        let cur = self.reputations[i];
        let sum: i64 = cur as i64 + change.value as i64;
        let next: i32 = if sum < i32::MIN as i64 {
            i32::MIN
        } else if sum > i32::MAX as i64 {
            i32::MAX
        } else {
            sum as i32
        };
        assert(cur == mid.reputation(p@));
        assert(next == saturating_add(cur, change.value));
        self.reputations.set(i, next);
        proof {
            lemma_index_of(self.peers@, p@, i as int);
            assert forall|q: (u64, Seq<u8>)| q != p@ implies (#[trigger] self.reputation(q)) == mid.reputation(q) by {
                if mid.knows(q) {
                    let j = index_of(self.peers@, q);
                    assert(j != i);
                }
            }
            assert forall|q: (u64, Seq<u8>)| (#[trigger] self.role(q)) == mid.role(q) by {}
        }
    }

    /// Lowers the reputation of a peer that disconnected; an unknown peer becomes known.
    pub fn report_disconnect(&mut self, p: &PeerId)
        requires
            old(self).wf(),
        ensures
            final(self).wf(),
            final(self).knows(p@),
            final(self).reputation(p@) == saturating_add(
                old(self).reputation(p@),
                DISCONNECT_REPUTATION_CHANGE,
            ),
            forall|q: (u64, Seq<u8>)|
                q != p@ ==> (#[trigger] final(self).reputation(q)) == old(self).reputation(q),
    {
        let change = ReputationChange { value: DISCONNECT_REPUTATION_CHANGE, reason: String::new() };
        self.report_peer(p, &change);
    }

    /// Current reputation of the peer.
    pub fn peer_reputation(&self, p: &PeerId) -> (r: i32)
        requires
            self.wf(),
        ensures
            r == self.reputation(p@),
    {
        match position(&self.peers, p) {
            Some(i) => {
                proof {
                    lemma_index_of(self.peers@, p@, i as int);
                }
                self.reputations[i]
            },
            None => 0,
        }
    }

    /// Whether the peer is banned.
    pub fn is_banned(&self, p: &PeerId) -> (r: bool)
        requires
            self.wf(),
        ensures
            r == self.is_banned_spec(p@),
    {
        self.peer_reputation(p) < BANNED_THRESHOLD
    }

    /// Role recorded for the peer.
    pub fn peer_role(&self, p: &PeerId) -> (r: Option<ObservedRole>)
        requires
            self.wf(),
        ensures
            r == self.role(p@),
    {
        match position(&self.peers, p) {
            Some(i) => {
                proof {
                    lemma_index_of(self.peers@, p@, i as int);
                }
                self.roles[i]
            },
            None => None,
        }
    }

    /// Records the role of the peer; an unknown peer becomes known.
    pub fn set_peer_role(&mut self, p: &PeerId, role: ObservedRole)
        requires
            old(self).wf(),
        ensures
            final(self).wf(),
            final(self).knows(p@),
            final(self).role(p@) == Some(role),
            forall|q: (u64, Seq<u8>)|
                q != p@ ==> (#[trigger] final(self).role(q)) == old(self).role(q),
            forall|q: (u64, Seq<u8>)|
                (#[trigger] final(self).reputation(q)) == old(self).reputation(q),
    {
        let i = self.ensure_known(p);
        let ghost mid = *self;
        self.roles.set(i, Some(role));
        proof {
            lemma_index_of(self.peers@, p@, i as int);
            assert forall|q: (u64, Seq<u8>)| q != p@ implies (#[trigger] self.role(q)) == mid.role(q) by {
                if mid.knows(q) {
                    let j = index_of(self.peers@, q);
                    assert(j != i);
                }
            }
            assert forall|q: (u64, Seq<u8>)| (#[trigger] self.reputation(q)) == mid.reputation(q) by {}
        }
    }

    /// The first `count` known peers, in the order they became known, that are neither
    /// banned nor among `ignored`.
    pub fn outgoing_candidates(&self, count: usize, ignored: &Vec<PeerId>) -> (r: Vec<PeerId>)
        requires
            self.wf(),
        ensures
            r@.map_values(|p: PeerId| p@) == self.candidates(count as nat, ignored@),
            r@.len() <= count,
            distinct_peers(r@),
            forall|i: int|
                0 <= i < r@.len() ==> self.dialable((#[trigger] r@[i])@, ignored@) && self.knows(r@[i]@),
    {
        let mut out: Vec<PeerId> = Vec::new();
        let mut i: usize = 0;
        proof {
            self.lemma_prefix_members(self.peers@.len() as int, ignored@);
        }
        while i < self.peers.len() && out.len() < count
            invariant
                self.wf(),
                i <= self.peers@.len(),
                out@.len() <= count,
                out@.map_values(|p: PeerId| p@) == self.dialable_prefix(i as int, ignored@),
            decreases self.peers@.len() - i,
        {
            let p = &self.peers[i];
            proof {
                lemma_index_of(self.peers@, p@, i as int);
                assert(self.knows(p@));
            }
            let banned = self.reputations[i] < BANNED_THRESHOLD;
            let ignored_here = match position(ignored, p) {
                Some(_) => true,
                None => false,
            };
            if !banned && !ignored_here {
                out.push(p.duplicate());
            }
            i = i + 1;
            proof {
                assert(out@.map_values(|p: PeerId| p@) =~= self.dialable_prefix(i as int, ignored@));
            }
        }
        proof {
            let all = self.dialable_prefix(self.peers@.len() as int, ignored@);
            self.lemma_prefix_grows(i as int, self.peers@.len() as int, ignored@);
            if i == self.peers@.len() {
                assert(out@.map_values(|p: PeerId| p@) == all);
            } else {
                assert(out@.len() == count);
                assert(all.take(count as int) == self.dialable_prefix(i as int, ignored@));
            }
            self.lemma_prefix_members(self.peers@.len() as int, ignored@);
            let v = out@.map_values(|p: PeerId| p@);
            assert forall|a: int| 0 <= a < out@.len() implies self.dialable((#[trigger] out@[a])@, ignored@)
                && self.knows(out@[a]@) by {
                assert(v[a] == out@[a]@);
                assert(v[a] == all[a]);
                let m = choose|m: int| 0 <= m < self.peers@.len() && self.peers@[m]@ == all[a];
                assert(contains_peer(self.peers@, out@[a]@));
            }
            assert forall|a: int, b: int|
                0 <= a < out@.len() && 0 <= b < out@.len() && a != b implies (#[trigger] out@[a])@
                    != (#[trigger] out@[b])@ by {
                assert(v[a] == all[a] && v[b] == all[b]);
                if a < b {
                    assert(all[a] != all[b]);
                } else {
                    assert(all[b] != all[a]);
                }
            }
        }
        out
    }
}

impl PeerStoreProvider for PeerStore {
    open spec fn ready(&self) -> bool {
        self.wf()
    }

    open spec fn banned(&self, p: (u64, Seq<u8>)) -> bool {
        self.is_banned_spec(p)
    }

    open spec fn role_of(&self, p: (u64, Seq<u8>)) -> Option<ObservedRole> {
        self.role(p)
    }

    fn is_banned(&self, p: &PeerId) -> (r: bool) {
        PeerStore::is_banned(self, p)
    }

    fn peer_reputation(&self, p: &PeerId) -> i32 {
        PeerStore::peer_reputation(self, p)
    }

    fn peer_role(&self, p: &PeerId) -> Option<ObservedRole> {
        PeerStore::peer_role(self, p)
    }

    fn report_peer(&mut self, p: &PeerId, change: &ReputationChange) {
        PeerStore::report_peer(self, p, change)
    }

    fn report_disconnect(&mut self, p: &PeerId) {
        PeerStore::report_disconnect(self, p)
    }

    fn set_peer_role(&mut self, p: &PeerId, role: ObservedRole) {
        PeerStore::set_peer_role(self, p, role)
    }

    fn outgoing_candidates(&self, count: usize, ignored: &Vec<PeerId>) -> (r: Vec<PeerId>) {
        PeerStore::outgoing_candidates(self, count, ignored)
    }
}

/// Peer store that knows nothing: it bans nobody and reports reputation zero.
#[derive(Debug)]
pub struct MockPeerStore {}

impl PeerStoreProvider for MockPeerStore {
    open spec fn ready(&self) -> bool {
        true
    }

    open spec fn banned(&self, p: (u64, Seq<u8>)) -> bool {
        false
    }

    open spec fn role_of(&self, p: (u64, Seq<u8>)) -> Option<ObservedRole> {
        None
    }

    fn is_banned(&self, p: &PeerId) -> (r: bool) {
        false
    }

    fn peer_reputation(&self, p: &PeerId) -> i32 {
        0
    }

    fn peer_role(&self, p: &PeerId) -> Option<ObservedRole> {
        None
    }

    fn report_peer(&mut self, p: &PeerId, change: &ReputationChange) {
    }

    fn report_disconnect(&mut self, p: &PeerId) {
    }

    fn set_peer_role(&mut self, p: &PeerId, role: ObservedRole) {
    }

    fn outgoing_candidates(&self, count: usize, ignored: &Vec<PeerId>) -> (r: Vec<PeerId>) {
        Vec::new()
    }
}

} // verus!
