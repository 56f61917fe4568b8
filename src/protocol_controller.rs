//! Admission policy of one notification peer-set: reserved peers, slot counts for
//! non-reserved inbound and outbound peers, and the reserved-only mode.
//!
//! Banned peers are hard-rejected here: a banned peer is neither accepted nor dialed,
//! whether reserved or not, unless it is already connected.
use crate::peer::{
    contains_peer, distinct_peers, index_of, lemma_index_of, lemma_push_peer, lemma_remove_peer,
    position, Direction, PeerId,
};
use crate::peer_store::PeerStoreProvider;
use vstd::prelude::*;

verus! {

/// Index of a configured notification peer-set; the default set is `0`.
pub type SetId = usize;

/// Connection state of a reserved peer.
#[derive(Clone, Copy, Debug, PartialEq, Eq, Structural)]
pub enum PeerState {
    /// No connection.
    NotConnected,
    /// Connected in the given direction.
    Connected(Direction),
}

/// What the controller asks the connection layer to do.
#[derive(Debug)]
pub enum ControllerAction {
    /// Open a connection to the peer.
    Connect(PeerId),
    /// Close the connection with the peer.
    Drop(PeerId),
    /// Accept the incoming connection with this index.
    Accept(u64),
    /// Reject the incoming connection with this index.
    Reject(u64),
}

/// Static configuration of a peer-set.
#[derive(Debug)]
pub struct SetConfig {
    /// Slots for non-reserved inbound peers.
    pub in_peers: u32,
    /// Slots for non-reserved outbound peers.
    pub out_peers: u32,
    /// Peers reserved from the start.
    pub reserved_nodes: Vec<PeerId>,
    /// Whether only reserved peers may connect.
    pub reserved_only: bool,
}

/// Admission state of one peer-set.
#[derive(Debug)]
pub struct ProtocolController {
    set_id: SetId,
    max_in: u32,
    max_out: u32,
    reserved: Vec<PeerId>,
    states: Vec<PeerState>,
    inbound: Vec<PeerId>,
    outbound: Vec<PeerId>,
    reserved_only: bool,
}

impl ProtocolController {
    /// Each peer is listed once, in one role, and the slot counts hold.
    pub closed spec fn wf(&self) -> bool {
        &&& self.reserved@.len() == self.states@.len()
        &&& distinct_peers(self.reserved@)
        &&& distinct_peers(self.inbound@)
        &&& distinct_peers(self.outbound@)
        &&& forall|q: (u64, Seq<u8>)|
            #[trigger] contains_peer(self.reserved@, q) ==> !contains_peer(self.inbound@, q)
                && !contains_peer(self.outbound@, q)
        &&& forall|q: (u64, Seq<u8>)|
            #[trigger] contains_peer(self.inbound@, q) ==> !contains_peer(self.outbound@, q)
        &&& self.inbound@.len() <= self.max_in
        &&& self.outbound@.len() <= self.max_out
    }

    /// The peer-set this controller governs.
    pub closed spec fn set(&self) -> SetId {
        self.set_id
    }

    /// Whether `q` is reserved.
    pub closed spec fn is_reserved(&self, q: (u64, Seq<u8>)) -> bool {
        contains_peer(self.reserved@, q)
    }

    /// Connection state of the reserved peer `q`.
    pub closed spec fn reserved_state(&self, q: (u64, Seq<u8>)) -> PeerState {
        self.states@[index_of(self.reserved@, q)]
    }

    /// Whether `q` holds a non-reserved inbound slot.
    pub closed spec fn in_slot(&self, q: (u64, Seq<u8>)) -> bool {
        contains_peer(self.inbound@, q)
    }

    /// Whether `q` holds a non-reserved outbound slot.
    pub closed spec fn out_slot(&self, q: (u64, Seq<u8>)) -> bool {
        contains_peer(self.outbound@, q)
    }

    /// Non-reserved inbound peers connected.
    pub closed spec fn num_in(&self) -> nat {
        self.inbound@.len()
    }

    /// Non-reserved outbound peers connected.
    pub closed spec fn num_out(&self) -> nat {
        self.outbound@.len()
    }

    /// Inbound slot count.
    pub closed spec fn in_cap(&self) -> nat {
        self.max_in as nat
    }

    /// Outbound slot count.
    pub closed spec fn out_cap(&self) -> nat {
        self.max_out as nat
    }

    /// Whether only reserved peers may connect.
    pub closed spec fn only_reserved(&self) -> bool {
        self.reserved_only
    }

    /// Whether `q` is a reserved peer without connection that the store does not ban.
    pub open spec fn to_dial<P: PeerStoreProvider>(&self, store: &P, q: (u64, Seq<u8>)) -> bool {
        self.is_reserved(q) && self.reserved_state(q) == PeerState::NotConnected && !store.banned(q)
    }

    /// The settings that no connection event changes.
    pub open spec fn same_settings(&self, other: &ProtocolController) -> bool {
        &&& self.set() == other.set()
        &&& self.in_cap() == other.in_cap()
        &&& self.out_cap() == other.out_cap()
        &&& self.only_reserved() == other.only_reserved()
    }

    /// A controller for the set `set_id`, with the reserved peers of `config` (each once)
    /// and nothing connected.
    pub fn new(set_id: SetId, config: &SetConfig) -> (r: ProtocolController)
        ensures
            r.wf(),
            r.set() == set_id,
            r.in_cap() == config.in_peers,
            r.out_cap() == config.out_peers,
            r.only_reserved() == config.reserved_only,
            r.num_in() == 0,
            r.num_out() == 0,
            forall|q: (u64, Seq<u8>)|
                #[trigger] r.is_reserved(q) == contains_peer(config.reserved_nodes@, q),
            forall|q: (u64, Seq<u8>)| r.is_reserved(q) ==> #[trigger] r.reserved_state(q) == PeerState::NotConnected,
    {
        let mut reserved: Vec<PeerId> = Vec::new();
        let mut states: Vec<PeerState> = Vec::new();
        let mut i: usize = 0;
        while i < config.reserved_nodes.len()
            invariant
                i <= config.reserved_nodes@.len(),
                reserved@.len() == states@.len(),
                distinct_peers(reserved@),
                forall|k: int| 0 <= k < states@.len() ==> states@[k] == PeerState::NotConnected,
                forall|q: (u64, Seq<u8>)|
                    #[trigger] contains_peer(reserved@, q) == contains_peer(
                        config.reserved_nodes@.subrange(0, i as int),
                        q,
                    ),
            decreases config.reserved_nodes@.len() - i,
        {
            let p = &config.reserved_nodes[i];
            proof {
                assert(config.reserved_nodes@.subrange(0, i + 1) =~= config.reserved_nodes@.subrange(
                    0,
                    i as int,
                ).push(*p));
                lemma_push_peer(config.reserved_nodes@.subrange(0, i as int), *p);
            }
            if position(&reserved, p).is_none() {
                let d = p.duplicate();
                proof {
                    lemma_push_peer(reserved@, d);
                }
                reserved.push(d);
                states.push(PeerState::NotConnected);
            }
            i = i + 1;
        }
        proof {
            assert(config.reserved_nodes@.subrange(0, i as int) =~= config.reserved_nodes@);
        }
        let r = ProtocolController {
            set_id,
            max_in: config.in_peers,
            max_out: config.out_peers,
            reserved,
            states,
            inbound: Vec::new(),
            outbound: Vec::new(),
            reserved_only: config.reserved_only,
        };
        proof {
            assert forall|q: (u64, Seq<u8>)| r.is_reserved(q) implies #[trigger] r.reserved_state(q)
                == PeerState::NotConnected by {
                let k = index_of(r.reserved@, q);
                assert(0 <= k < r.states@.len());
            }
        }
        r
    }

    /// The peer-set this controller governs.
    pub fn set_id(&self) -> (r: SetId)
        ensures
            r == self.set(),
    {
        self.set_id
    }

    /// The reserved peers, each once.
    pub fn reserved_peers(&self) -> (r: Vec<PeerId>)
        requires
            self.wf(),
        ensures
            distinct_peers(r@),
            forall|q: (u64, Seq<u8>)| #[trigger] contains_peer(r@, q) == self.is_reserved(q),
    {
        let mut out: Vec<PeerId> = Vec::new();
        let mut i: usize = 0;
        while i < self.reserved.len()
            invariant
                self.wf(),
                i <= self.reserved@.len(),
                out@.len() == i,
                forall|k: int| 0 <= k < i ==> (#[trigger] out@[k])@ == self.reserved@[k]@,
            decreases self.reserved@.len() - i,
        {
            out.push(self.reserved[i].duplicate());
            i = i + 1;
        }
        proof {
            assert forall|a: int, b: int|
                0 <= a < out@.len() && 0 <= b < out@.len() && a != b implies (#[trigger] out@[a])@
                    != (#[trigger] out@[b])@ by {
                assert(self.reserved@[a]@ != self.reserved@[b]@);
            }
            assert forall|q: (u64, Seq<u8>)| #[trigger] contains_peer(out@, q) == self.is_reserved(q) by {
                if contains_peer(out@, q) {
                    let k = choose|k: int| 0 <= k < out@.len() && (#[trigger] out@[k])@ == q;
                    assert(self.reserved@[k]@ == q);
                }
                if self.is_reserved(q) {
                    let k = choose|k: int| 0 <= k < self.reserved@.len() && (#[trigger] self.reserved@[k])@ == q;
                    assert(out@[k]@ == q);
                }
            }
        }
        out
    }

    /// Non-reserved outbound peers connected.
    pub fn num_outbound(&self) -> (r: usize)
        ensures
            r == self.num_out(),
    {
        self.outbound.len()
    }

    /// Non-reserved inbound peers connected.
    pub fn num_inbound(&self) -> (r: usize)
        ensures
            r == self.num_in(),
    {
        self.inbound.len()
    }

    /// Whether the peer is reserved.
    pub fn is_reserved_peer(&self, p: &PeerId) -> (r: bool)
        ensures
            r == self.is_reserved(p@),
    {
        position(&self.reserved, p).is_some()
    }

    /// Makes the peer reserved. A peer holding a slot keeps its connection and frees the
    /// slot; an unconnected peer that is not banned is dialed.
    pub fn add_reserved_peer<P: PeerStoreProvider>(&mut self, p: &PeerId, store: &P) -> (r: Vec<ControllerAction>)
        requires
            old(self).wf(),
            store.ready(),
        ensures
            final(self).wf(),
            final(self).same_settings(old(self)),
            final(self).is_reserved(p@),
            forall|q: (u64, Seq<u8>)|
                q != p@ ==> #[trigger] final(self).is_reserved(q) == old(self).is_reserved(q),
            forall|q: (u64, Seq<u8>)|
                q != p@ ==> #[trigger] final(self).in_slot(q) == old(self).in_slot(q),
            forall|q: (u64, Seq<u8>)|
                q != p@ ==> #[trigger] final(self).out_slot(q) == old(self).out_slot(q),
            !final(self).in_slot(p@),
            !final(self).out_slot(p@),
            r@.len() <= 1,
            r@.len() == 1 <==> (!old(self).is_reserved(p@) && !old(self).in_slot(p@) && !old(self).out_slot(p@)
                && !store.banned(p@)),
            r@.len() == 1 ==> r@[0] is Connect && r@[0]->Connect_0@ == p@,
    {
        let mut actions: Vec<ControllerAction> = Vec::new();
        if let Some(i) = position(&self.reserved, p) {
            assert(contains_peer(self.reserved@, p@));
            return actions;
        }
        let state = match position(&self.inbound, p) {
            Some(i) => {
                proof {
                    assert(contains_peer(self.inbound@, p@));
                    lemma_remove_peer(self.inbound@, i as int);
                }
                self.inbound.remove(i);
                PeerState::Connected(Direction::Inbound)
            },
            None => match position(&self.outbound, p) {
                Some(i) => {
                    proof {
                        lemma_remove_peer(self.outbound@, i as int);
                    }
                    self.outbound.remove(i);
                    PeerState::Connected(Direction::Outbound)
                },
                None => {
                    if store.is_banned(p) {
                        PeerState::NotConnected
                    } else {
                        actions.push(ControllerAction::Connect(p.duplicate()));
                        PeerState::Connected(Direction::Outbound)
                    }
                },
            },
        };
        let d = p.duplicate();
        proof {
            lemma_push_peer(self.reserved@, d);
        }
        self.reserved.push(d);
        self.states.push(state);
        actions
    }

    /// Makes the peer non-reserved. Its connection moves to a free slot of its direction,
    /// or is dropped when there is none or only reserved peers may connect.
    pub fn remove_reserved_peer(&mut self, p: &PeerId) -> (r: Vec<ControllerAction>)
        requires
            old(self).wf(),
        ensures
            final(self).wf(),
            final(self).same_settings(old(self)),
            !final(self).is_reserved(p@),
            forall|q: (u64, Seq<u8>)|
                q != p@ ==> #[trigger] final(self).is_reserved(q) == old(self).is_reserved(q),
            forall|q: (u64, Seq<u8>)|
                q != p@ ==> #[trigger] final(self).in_slot(q) == old(self).in_slot(q),
            forall|q: (u64, Seq<u8>)|
                q != p@ ==> #[trigger] final(self).out_slot(q) == old(self).out_slot(q),
            r@.len() <= 1,
            r@.len() == 1 ==> r@[0] is Drop && r@[0]->Drop_0@ == p@ && old(self).is_reserved(p@),
    {
        let mut actions: Vec<ControllerAction> = Vec::new();
        match position(&self.reserved, p) {
            None => actions,
            Some(i) => {
                let state = self.states[i];
                proof {
                    assert(contains_peer(self.reserved@, p@));
                    lemma_remove_peer(self.reserved@, i as int);
                }
                self.reserved.remove(i);
                self.states.remove(i);
                match state {
                    PeerState::NotConnected => {},
                    PeerState::Connected(Direction::Inbound) => {
                        if !self.reserved_only && self.inbound.len() < self.max_in as usize {
                            let d = p.duplicate();
                            proof {
                                lemma_push_peer(self.inbound@, d);
                            }
                            self.inbound.push(d);
                        } else {
                            actions.push(ControllerAction::Drop(p.duplicate()));
                        }
                    },
                    PeerState::Connected(Direction::Outbound) => {
                        if !self.reserved_only && self.outbound.len() < self.max_out as usize {
                            let d = p.duplicate();
                            proof {
                                lemma_push_peer(self.outbound@, d);
                            }
                            self.outbound.push(d);
                        } else {
                            actions.push(ControllerAction::Drop(p.duplicate()));
                        }
                    },
                }
                actions
            },
        }
    }

    /// Replaces the reserved set by `peers`.
    pub fn set_reserved_peers<P: PeerStoreProvider>(&mut self, peers: &Vec<PeerId>, store: &P) -> (r: Vec<
        ControllerAction,
    >)
        requires
            old(self).wf(),
            store.ready(),
        ensures
            final(self).wf(),
            final(self).same_settings(old(self)),
            forall|q: (u64, Seq<u8>)| #[trigger] final(self).is_reserved(q) == contains_peer(peers@, q),
    {
        let mut actions: Vec<ControllerAction> = Vec::new();
        let current = self.reserved_peers();
        let ghost start = *self;
        let mut i: usize = 0;
        while i < current.len()
            invariant
                self.wf(),
                self.same_settings(&start),
                i <= current@.len(),
                forall|q: (u64, Seq<u8>)| #[trigger] contains_peer(current@, q) == start.is_reserved(q),
                forall|q: (u64, Seq<u8>)|
                    #[trigger] self.is_reserved(q) == (start.is_reserved(q) && (contains_peer(peers@, q)
                        || !contains_peer(current@.subrange(0, i as int), q))),
            decreases current@.len() - i,
        {
            let c = &current[i];
            proof {
                assert(current@.subrange(0, i + 1) =~= current@.subrange(0, i as int).push(*c));
                lemma_push_peer(current@.subrange(0, i as int), *c);
            }
            if position(peers, c).is_none() {
                let mut more = self.remove_reserved_peer(c);
                actions.append(&mut more);
            }
            i = i + 1;
        }
        proof {
            assert(current@.subrange(0, i as int) =~= current@);
        }
        let mut j: usize = 0;
        while j < peers.len()
            invariant
                self.wf(),
                store.ready(),
                self.same_settings(&start),
                j <= peers@.len(),
                forall|q: (u64, Seq<u8>)|
                    #[trigger] self.is_reserved(q) == ((start.is_reserved(q) && contains_peer(peers@, q))
                        || contains_peer(peers@.subrange(0, j as int), q)),
            decreases peers@.len() - j,
        {
            let p = &peers[j];
            proof {
                assert(peers@.subrange(0, j + 1) =~= peers@.subrange(0, j as int).push(*p));
                lemma_push_peer(peers@.subrange(0, j as int), *p);
            }
            let mut more = self.add_reserved_peer(p, store);
            actions.append(&mut more);
            j = j + 1;
        }
        proof {
            assert(peers@.subrange(0, j as int) =~= peers@);
        }
        actions
    }

    /// Switches the reserved-only mode. Entering it drops every non-reserved connection;
    /// leaving it fills the free outbound slots.
    pub fn set_reserved_only<P: PeerStoreProvider>(&mut self, reserved_only: bool, store: &P) -> (r: Vec<
        ControllerAction,
    >)
        requires
            old(self).wf(),
            store.ready(),
        ensures
            final(self).wf(),
            final(self).set() == old(self).set(),
            final(self).in_cap() == old(self).in_cap(),
            final(self).out_cap() == old(self).out_cap(),
            final(self).only_reserved() == reserved_only,
            forall|q: (u64, Seq<u8>)| #[trigger] final(self).is_reserved(q) == old(self).is_reserved(q),
            reserved_only ==> final(self).num_in() == 0 && final(self).num_out() == 0,
    {
        self.reserved_only = reserved_only;
        if reserved_only {
            let mut actions: Vec<ControllerAction> = Vec::new();
            let mut i: usize = 0;
            while i < self.inbound.len()
                invariant
                    i <= self.inbound@.len(),
                decreases self.inbound@.len() - i,
            {
                actions.push(ControllerAction::Drop(self.inbound[i].duplicate()));
                i = i + 1;
            }
            let mut k: usize = 0;
            while k < self.outbound.len()
                invariant
                    k <= self.outbound@.len(),
                decreases self.outbound@.len() - k,
            {
                actions.push(ControllerAction::Drop(self.outbound[k].duplicate()));
                k = k + 1;
            }
            self.inbound = Vec::new();
            self.outbound = Vec::new();
            actions
        } else {
            self.alloc_slots(store)
        }
    }

    /// Decides on an incoming connection. A reserved peer is accepted unless it is banned
    /// and not yet connected; another peer needs the set to accept non-reserved peers, a
    /// free inbound slot and no ban. A non-reserved peer already connected gives up its
    /// slot first.
    pub fn incoming_connection<P: PeerStoreProvider>(&mut self, p: &PeerId, index: u64, store: &P) -> (r:
        ControllerAction)
        requires
            old(self).wf(),
            store.ready(),
        ensures
            final(self).wf(),
            final(self).same_settings(old(self)),
            forall|q: (u64, Seq<u8>)| #[trigger] final(self).is_reserved(q) == old(self).is_reserved(q),
            r is Accept || r is Reject,
            r is Accept ==> r->Accept_0 == index,
            r is Reject ==> r->Reject_0 == index,
            old(self).is_reserved(p@) ==> (r is Accept <==> (old(self).reserved_state(p@) is Connected
                || !store.banned(p@))),
            old(self).is_reserved(p@) && r is Accept ==> final(self).reserved_state(p@)
                == PeerState::Connected(Direction::Inbound),
            !old(self).is_reserved(p@) ==> (r is Accept <==> (!old(self).only_reserved() && (
            old(self).num_in() - (if old(self).in_slot(p@) {
                1int
            } else {
                0int
            })) < old(self).in_cap() && !store.banned(p@))),
            !old(self).is_reserved(p@) && r is Accept ==> final(self).in_slot(p@),
            forall|q: (u64, Seq<u8>)|
                q != p@ ==> #[trigger] final(self).in_slot(q) == old(self).in_slot(q),
            forall|q: (u64, Seq<u8>)|
                q != p@ ==> #[trigger] final(self).out_slot(q) == old(self).out_slot(q),
    {
        match position(&self.reserved, p) {
            Some(i) => {
                proof {
                    lemma_index_of(self.reserved@, p@, i as int);
                }
                match self.states[i] {
                    PeerState::Connected(_) => {
                        self.states.set(i, PeerState::Connected(Direction::Inbound));
                        return ControllerAction::Accept(index);
                    },
                    PeerState::NotConnected => {
                        if store.is_banned(p) {
                            return ControllerAction::Reject(index);
                        }
                        self.states.set(i, PeerState::Connected(Direction::Inbound));
                        return ControllerAction::Accept(index);
                    },
                }
            },
            None => {},
        }
        if self.reserved_only {
            return ControllerAction::Reject(index);
        }
        match position(&self.inbound, p) {
            Some(i) => {
                proof {
                    assert(contains_peer(self.inbound@, p@));
                    lemma_remove_peer(self.inbound@, i as int);
                }
                self.inbound.remove(i);
            },
            None => match position(&self.outbound, p) {
                Some(i) => {
                    proof {
                        lemma_remove_peer(self.outbound@, i as int);
                    }
                    self.outbound.remove(i);
                },
                None => {},
            },
        }
        if self.inbound.len() >= self.max_in as usize || store.is_banned(p) {
            return ControllerAction::Reject(index);
        }
        let d = p.duplicate();
        proof {
            lemma_push_peer(self.inbound@, d);
        }
        self.inbound.push(d);
        ControllerAction::Accept(index)
    }

    /// Records that the connection with the peer closed.
    pub fn dropped(&mut self, p: &PeerId)
        requires
            old(self).wf(),
        ensures
            final(self).wf(),
            final(self).same_settings(old(self)),
            forall|q: (u64, Seq<u8>)| #[trigger] final(self).is_reserved(q) == old(self).is_reserved(q),
            final(self).is_reserved(p@) ==> final(self).reserved_state(p@) == PeerState::NotConnected,
            !final(self).in_slot(p@),
            !final(self).out_slot(p@),
            forall|q: (u64, Seq<u8>)|
                q != p@ ==> #[trigger] final(self).in_slot(q) == old(self).in_slot(q),
            forall|q: (u64, Seq<u8>)|
                q != p@ ==> #[trigger] final(self).out_slot(q) == old(self).out_slot(q),
    {
        match position(&self.reserved, p) {
            Some(i) => {
                proof {
                    assert(contains_peer(self.reserved@, p@));
                    lemma_index_of(self.reserved@, p@, i as int);
                }
                self.states.set(i, PeerState::NotConnected);
            },
            None => match position(&self.inbound, p) {
                Some(i) => {
                    proof {
                        assert(contains_peer(self.inbound@, p@));
                        lemma_remove_peer(self.inbound@, i as int);
                    }
                    self.inbound.remove(i);
                },
                None => match position(&self.outbound, p) {
                    Some(i) => {
                        proof {
                            lemma_remove_peer(self.outbound@, i as int);
                        }
                        self.outbound.remove(i);
                    },
                    None => {},
                },
            },
        }
    }

    /// Dials every unconnected reserved peer that is not banned and, unless only reserved
    /// peers may connect, fills the free outbound slots with candidates of the peer store.
    pub fn alloc_slots<P: PeerStoreProvider>(&mut self, store: &P) -> (r: Vec<ControllerAction>)
        requires
            old(self).wf(),
            store.ready(),
        ensures
            final(self).wf(),
            final(self).same_settings(old(self)),
            forall|q: (u64, Seq<u8>)| #[trigger] final(self).is_reserved(q) == old(self).is_reserved(q),
            forall|q: (u64, Seq<u8>)| #[trigger] old(self).in_slot(q) == final(self).in_slot(q),
            forall|q: (u64, Seq<u8>)| #[trigger] old(self).out_slot(q) ==> final(self).out_slot(q),
            forall|q: (u64, Seq<u8>)|
                #[trigger] final(self).out_slot(q) && !old(self).out_slot(q) ==> !store.banned(q),
            forall|q: (u64, Seq<u8>)|
                old(self).is_reserved(q) ==> #[trigger] final(self).reserved_state(q) == if old(self).to_dial(store, q) {
                    PeerState::Connected(Direction::Outbound)
                } else {
                    old(self).reserved_state(q)
                },
            old(self).only_reserved() || old(self).num_out() >= old(self).out_cap() ==> final(self).num_out()
                == old(self).num_out(),
            forall|a: int|
                0 <= a < r@.len() ==> (#[trigger] r@[a]) is Connect && (old(self).to_dial(store, r@[a]->Connect_0@) || (
                final(self).out_slot(r@[a]->Connect_0@) && !old(self).out_slot(r@[a]->Connect_0@))),
            forall|q: (u64, Seq<u8>)|
                old(self).to_dial(store, q) || (#[trigger] final(self).out_slot(q) && !old(self).out_slot(q)) ==> exists|a: int|
                    0 <= a < r@.len() && r@[a] is Connect && r@[a]->Connect_0@ == q,
    {
        let mut actions: Vec<ControllerAction> = Vec::new();
        let mut i: usize = 0;
        while i < self.reserved.len()
            invariant
                self.wf(),
                store.ready(),
                self.same_settings(old(self)),
                self.reserved@ == old(self).reserved@,
                self.inbound@ == old(self).inbound@,
                self.outbound@ == old(self).outbound@,
                self.states@.len() == old(self).states@.len(),
                i <= self.reserved@.len(),
                forall|k: int| 0 <= k < i ==> #[trigger] self.states@[k] == if old(self).states@[k] == PeerState::NotConnected
                    && !store.banned(self.reserved@[k]@) {
                    PeerState::Connected(Direction::Outbound)
                } else {
                    old(self).states@[k]
                },
                forall|k: int| i <= k < self.states@.len() ==> #[trigger] self.states@[k] == old(self).states@[k],
                forall|a: int|
                    0 <= a < actions@.len() ==> (#[trigger] actions@[a]) is Connect && old(self).to_dial(
                        store,
                        actions@[a]->Connect_0@,
                    ),
                forall|k: int|
                    0 <= k < i && old(self).states@[k] == PeerState::NotConnected && !store.banned(
                        self.reserved@[k]@,
                    ) ==> exists|a: int|
                        0 <= a < actions@.len() && actions@[a] is Connect && actions@[a]->Connect_0@ == (
                        #[trigger] self.reserved@[k])@,
            decreases self.reserved@.len() - i,
        {
            proof {
                lemma_index_of(self.reserved@, self.reserved@[i as int]@, i as int);
                assert(contains_peer(self.reserved@, self.reserved@[i as int]@));
            }
            if self.states[i] == PeerState::NotConnected && !store.is_banned(&self.reserved[i]) {
                let ghost before = actions@;
                actions.push(ControllerAction::Connect(self.reserved[i].duplicate()));
                self.states.set(i, PeerState::Connected(Direction::Outbound));
                proof {
                    assert(old(self).to_dial(store, self.reserved@[i as int]@));
                    assert forall|k: int|
                        0 <= k < i + 1 && old(self).states@[k] == PeerState::NotConnected && !store.banned(
                            self.reserved@[k]@,
                        ) implies exists|a: int|
                            0 <= a < actions@.len() && actions@[a] is Connect && actions@[a]->Connect_0@ == (
                            #[trigger] self.reserved@[k])@ by {
                        if k < i {
                            let a = choose|a: int|
                                0 <= a < before.len() && before[a] is Connect && before[a]->Connect_0@ == self.reserved@[k]@;
                            assert(actions@[a] == before[a]);
                        } else {
                            assert(actions@[before.len() as int]->Connect_0@ == self.reserved@[k]@);
                        }
                    }
                }
            }
            i = i + 1;
        }
        proof {
            assert forall|q: (u64, Seq<u8>)| old(self).is_reserved(q) implies #[trigger] self.reserved_state(q) == if old(self).to_dial(store, q) {
                PeerState::Connected(Direction::Outbound)
            } else {
                old(self).reserved_state(q)
            } by {
                let k = index_of(self.reserved@, q);
                assert(0 <= k < self.reserved@.len() && self.reserved@[k]@ == q);
            }
            assert forall|q: (u64, Seq<u8>)| old(self).to_dial(store, q) implies exists|a: int|
                0 <= a < actions@.len() && actions@[a] is Connect && actions@[a]->Connect_0@ == q by {
                let k = index_of(self.reserved@, q);
                assert(0 <= k < self.reserved@.len() && self.reserved@[k]@ == q);
            }
        }
        if self.reserved_only || self.outbound.len() >= self.max_out as usize {
            proof {
                assert forall|q: (u64, Seq<u8>)| !(#[trigger] self.out_slot(q) && !old(self).out_slot(q)) by {}
            }
            return actions;
        }
        let ghost reserved_actions = actions@;
        let mut ignored: Vec<PeerId> = Vec::new();
        let mut k: usize = 0;
        while k < self.reserved.len()
            invariant
                k <= self.reserved@.len(),
                forall|q: (u64, Seq<u8>)|
                    #[trigger] contains_peer(ignored@, q) == contains_peer(self.reserved@.subrange(0, k as int), q),
            decreases self.reserved@.len() - k,
        {
            let d = self.reserved[k].duplicate();
            proof {
                assert(self.reserved@.subrange(0, k + 1) =~= self.reserved@.subrange(0, k as int).push(self.reserved@[k as int]));
                lemma_push_peer(self.reserved@.subrange(0, k as int), self.reserved@[k as int]);
                lemma_push_peer(ignored@, d);
            }
            ignored.push(d);
            k = k + 1;
        }
        proof {
            assert(self.reserved@.subrange(0, k as int) =~= self.reserved@);
        }
        let ghost after_reserved = ignored@;
        k = 0;
        while k < self.inbound.len()
            invariant
                k <= self.inbound@.len(),
                forall|q: (u64, Seq<u8>)|
                    #[trigger] contains_peer(ignored@, q) == (contains_peer(self.reserved@, q)
                        || contains_peer(self.inbound@.subrange(0, k as int), q)),
            decreases self.inbound@.len() - k,
        {
            let d = self.inbound[k].duplicate();
            proof {
                assert(self.inbound@.subrange(0, k + 1) =~= self.inbound@.subrange(0, k as int).push(self.inbound@[k as int]));
                lemma_push_peer(self.inbound@.subrange(0, k as int), self.inbound@[k as int]);
                lemma_push_peer(ignored@, d);
            }
            ignored.push(d);
            k = k + 1;
        }
        proof {
            assert(self.inbound@.subrange(0, k as int) =~= self.inbound@);
        }
        k = 0;
        while k < self.outbound.len()
            invariant
                k <= self.outbound@.len(),
                forall|q: (u64, Seq<u8>)|
                    #[trigger] contains_peer(ignored@, q) == (contains_peer(self.reserved@, q)
                        || contains_peer(self.inbound@, q) || contains_peer(
                        self.outbound@.subrange(0, k as int),
                        q,
                    )),
            decreases self.outbound@.len() - k,
        {
            let d = self.outbound[k].duplicate();
            proof {
                assert(self.outbound@.subrange(0, k + 1) =~= self.outbound@.subrange(0, k as int).push(self.outbound@[k as int]));
                lemma_push_peer(self.outbound@.subrange(0, k as int), self.outbound@[k as int]);
                lemma_push_peer(ignored@, d);
            }
            ignored.push(d);
            k = k + 1;
        }
        proof {
            assert(self.outbound@.subrange(0, k as int) =~= self.outbound@);
        }
        let free = self.max_out as usize - self.outbound.len();
        let candidates = store.outgoing_candidates(free, &ignored);
        let ghost mid = *self;
        let mut c: usize = 0;
        while c < candidates.len()
            invariant
                self.wf(),
                self.states@ == mid.states@,
                actions@.len() >= reserved_actions.len(),
                forall|a: int| 0 <= a < reserved_actions.len() ==> #[trigger] actions@[a] == reserved_actions[a],
                forall|a: int|
                    reserved_actions.len() <= a < actions@.len() ==> (#[trigger] actions@[a]) is Connect
                        && contains_peer(candidates@.subrange(0, c as int), actions@[a]->Connect_0@),
                forall|x: int|
                    0 <= x < c ==> exists|a: int|
                        0 <= a < actions@.len() && actions@[a] is Connect && actions@[a]->Connect_0@ == (
                        #[trigger] candidates@[x])@,
                self.same_settings(&mid),
                self.reserved@ == mid.reserved@,
                self.inbound@ == mid.inbound@,
                c <= candidates@.len(),
                candidates@.len() <= free,
                free == mid.max_out - mid.outbound@.len(),
                self.outbound@.len() == mid.outbound@.len() + c,
                distinct_peers(candidates@),
                forall|x: int|
                    0 <= x < candidates@.len() ==> !store.banned((#[trigger] candidates@[x])@)
                        && !contains_peer(ignored@, candidates@[x]@),
                forall|q: (u64, Seq<u8>)|
                    #[trigger] contains_peer(ignored@, q) == (contains_peer(mid.reserved@, q)
                        || contains_peer(mid.inbound@, q) || contains_peer(mid.outbound@, q)),
                forall|q: (u64, Seq<u8>)|
                    #[trigger] contains_peer(self.outbound@, q) == (contains_peer(mid.outbound@, q)
                        || contains_peer(candidates@.subrange(0, c as int), q)),
            decreases candidates@.len() - c,
        {
            let d = candidates[c].duplicate();
            proof {
                assert(candidates@.subrange(0, c + 1) =~= candidates@.subrange(0, c as int).push(candidates@[c as int]));
                lemma_push_peer(candidates@.subrange(0, c as int), candidates@[c as int]);
                if contains_peer(candidates@.subrange(0, c as int), d@) {
                    let y = choose|y: int| 0 <= y < c && (#[trigger] candidates@.subrange(0, c as int)[y])@ == d@;
                    assert(candidates@[y]@ == candidates@[c as int]@);
                }
                lemma_push_peer(self.outbound@, d);
            }
            let ghost ab = actions@;
            actions.push(ControllerAction::Connect(candidates[c].duplicate()));
            self.outbound.push(d);
            proof {
                assert forall|a: int|
                    reserved_actions.len() <= a < actions@.len() implies (#[trigger] actions@[a]) is Connect
                        && contains_peer(candidates@.subrange(0, c + 1), actions@[a]->Connect_0@) by {
                    if a < ab.len() {
                        assert(actions@[a] == ab[a]);
                        let y = choose|y: int| 0 <= y < c && (#[trigger] candidates@.subrange(0, c as int)[y])@ == actions@[a]->Connect_0@;
                        assert(candidates@.subrange(0, c + 1)[y] == candidates@.subrange(0, c as int)[y]);
                    } else {
                        assert(candidates@.subrange(0, c + 1)[c as int] == candidates@[c as int]);
                    }
                }
                assert forall|x: int| 0 <= x < c + 1 implies exists|a: int|
                    0 <= a < actions@.len() && actions@[a] is Connect && actions@[a]->Connect_0@ == (
                    #[trigger] candidates@[x])@ by {
                    if x < c {
                        let a = choose|a: int| 0 <= a < ab.len() && ab[a] is Connect && ab[a]->Connect_0@ == candidates@[x]@;
                        assert(actions@[a] == ab[a]);
                    } else {
                        assert(actions@[ab.len() as int]->Connect_0@ == candidates@[x]@);
                    }
                }
            }
            c = c + 1;
        }
        proof {
            assert(candidates@.subrange(0, c as int) =~= candidates@);
            assert forall|q: (u64, Seq<u8>)| #[trigger] self.out_slot(q) && !mid.out_slot(q) implies !store.banned(q) by {
                let y = choose|y: int| 0 <= y < candidates@.len() && (#[trigger] candidates@[y])@ == q;
            }
            assert forall|a: int| 0 <= a < actions@.len() implies (#[trigger] actions@[a]) is Connect && (old(self).to_dial(
                store,
                actions@[a]->Connect_0@,
            ) || (self.out_slot(actions@[a]->Connect_0@) && !old(self).out_slot(actions@[a]->Connect_0@))) by {
                if a >= reserved_actions.len() {
                    let q = actions@[a]->Connect_0@;
                    let y = choose|y: int| 0 <= y < candidates@.len() && (#[trigger] candidates@[y])@ == q;
                    assert(contains_peer(ignored@, q) == false);
                } else {
                    assert(actions@[a] == reserved_actions[a]);
                }
            }
            assert forall|q: (u64, Seq<u8>)|
                old(self).to_dial(store, q) || (#[trigger] self.out_slot(q) && !old(self).out_slot(q)) implies exists|a: int|
                    0 <= a < actions@.len() && actions@[a] is Connect && actions@[a]->Connect_0@ == q by {
                if old(self).to_dial(store, q) {
                    let a = choose|a: int|
                        0 <= a < reserved_actions.len() && reserved_actions[a] is Connect && reserved_actions[a]->Connect_0@ == q;
                    assert(actions@[a] == reserved_actions[a]);
                } else {
                    assert(mid.outbound@ == old(self).outbound@);
                    assert(contains_peer(candidates@.subrange(0, c as int), q));
                    let y = choose|y: int| 0 <= y < c && (#[trigger] candidates@.subrange(0, c as int)[y])@ == q;
                    assert(candidates@.subrange(0, c as int)[y] == candidates@[y]);
                }
            }
            assert forall|q: (u64, Seq<u8>)| old(self).is_reserved(q) implies #[trigger] self.reserved_state(q) == mid.reserved_state(q) by {}
            assert forall|q: (u64, Seq<u8>)| old(self).to_dial(store, q) implies exists|a: int|
                0 <= a < actions@.len() && actions@[a] is Connect && actions@[a]->Connect_0@ == q by {
                let a = choose|a: int|
                    0 <= a < reserved_actions.len() && reserved_actions[a] is Connect && reserved_actions[a]->Connect_0@ == q;
                assert(actions@[a] == reserved_actions[a]);
            }
        }
        actions
    }
}

/// For every peer-set, the non-reserved outbound peers connected never outnumber its
/// outbound slots: every operation of the controller keeps this.
pub proof fn lemma_outbound_within_slots(c: &ProtocolController)
    requires
        c.wf(),
    ensures
        c.num_out() <= c.out_cap(),
        c.num_in() <= c.in_cap(),
{
}

} // verus!
