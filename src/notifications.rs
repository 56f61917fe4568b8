//! Per-(peer, peer-set) notification sinks with two-phase, backpressured sends.
//!
//! A sink is opened with the substream and closed with it. A second substream to a peer
//! on the same set replaces the sink: the old one is retired, its unsent buffer is
//! discarded, and nothing re-announces the substream to the application (notification
//! delivery is best-effort).
use crate::bytes::copy_bytes;
use crate::peer::PeerId;
use crate::protocol_controller::SetId;
use vstd::prelude::*;

verus! {

/// What a sink holds, as plain values.
pub struct SinkView {
    pub peer: (u64, Seq<u8>),
    pub set_id: SetId,
    pub active: bool,
    pub reserved: bool,
    pub buffer: Seq<Seq<u8>>,
}

/// Why a reservation or a send failed.
#[derive(Clone, Copy, Debug, PartialEq, Eq, Structural)]
pub enum SinkError {
    /// The substream closed or the sink was replaced.
    Closed,
    /// A reservation is already outstanding on this sink.
    AlreadyReserved,
    /// The buffer is full: wait until the connection drains it.
    Full,
}

/// Handle on a sink.
#[derive(Clone, Copy, Debug, PartialEq, Eq, Structural)]
pub struct SinkHandle {
    pub id: usize,
}

/// Single-use permission to place one notification in a sink's buffer.
#[derive(Debug)]
pub struct Ready {
    id: usize,
}

impl Ready {
    /// The sink this permission is for.
    pub closed spec fn sink(&self) -> usize {
        self.id
    }
}

/// What opening a substream reports.
#[derive(Debug)]
pub enum StreamOpening {
    /// First substream with the peer on the set.
    Opened(SinkHandle),
    /// The peer's sink on the set was replaced by this one.
    Replaced(SinkHandle),
}

/// The active sink of `peer` on `set_id`, if any.
pub open spec fn active_sink(s: Seq<SinkView>, peer: (u64, Seq<u8>), set_id: SetId) -> Option<int> {
    if exists|i: int| 0 <= i < s.len() && is_active_for(#[trigger] s[i], peer, set_id) {
        Some(choose|i: int| 0 <= i < s.len() && is_active_for(#[trigger] s[i], peer, set_id))
    } else {
        None
    }
}

/// Whether `v` is the live sink of `peer` on `set_id`.
pub open spec fn is_active_for(v: SinkView, peer: (u64, Seq<u8>), set_id: SetId) -> bool {
    v.active && v.peer == peer && v.set_id == set_id
}

/// At most one live sink per peer and set; a retired sink holds nothing.
pub open spec fn sinks_wf(s: Seq<SinkView>) -> bool {
    &&& forall|i: int, j: int|
        0 <= i < s.len() && 0 <= j < s.len() && i != j && (#[trigger] s[i]).active
            && (#[trigger] s[j]).active ==> s[i].peer != s[j].peer || s[i].set_id != s[j].set_id
    &&& forall|i: int| 0 <= i < s.len() && !(#[trigger] s[i]).active ==> !s[i].reserved && s[i].buffer.len() == 0
}

/// A sink once its substream is gone.
pub open spec fn retired(v: SinkView) -> SinkView {
    SinkView { peer: v.peer, set_id: v.set_id, active: false, reserved: false, buffer: Seq::empty() }
}

/// The sinks after a substream with `peer` on `set_id` opens: the former live sink, if
/// any, is retired, and a fresh live sink is added.
pub open spec fn after_open(s: Seq<SinkView>, peer: (u64, Seq<u8>), set_id: SetId) -> Seq<SinkView> {
    let fresh = SinkView { peer, set_id, active: true, reserved: false, buffer: Seq::empty() };
    match active_sink(s, peer, set_id) {
        Some(i) => s.update(i, retired(s[i])).push(fresh),
        None => s.push(fresh),
    }
}

/// The sinks after the substream with `peer` on `set_id` closes.
pub open spec fn after_close(s: Seq<SinkView>, peer: (u64, Seq<u8>), set_id: SetId) -> Seq<SinkView> {
    match active_sink(s, peer, set_id) {
        Some(i) => s.update(i, retired(s[i])),
        None => s,
    }
}

/// Outcome of a reservation on sink `id` whose buffer holds `cap` notifications at most.
pub open spec fn reserve_outcome(s: Seq<SinkView>, cap: nat, id: int) -> Result<(), SinkError> {
    if !(0 <= id < s.len()) || !s[id].active {
        Err(SinkError::Closed)
    } else if s[id].reserved {
        Err(SinkError::AlreadyReserved)
    } else if s[id].buffer.len() >= cap {
        Err(SinkError::Full)
    } else {
        Ok(())
    }
}

/// Outcome of a send through a permission for sink `id`.
pub open spec fn send_outcome(s: Seq<SinkView>, id: int) -> Result<(), SinkError> {
    if 0 <= id < s.len() && s[id].active && s[id].reserved {
        Ok(())
    } else {
        Err(SinkError::Closed)
    }
}

/// A live substream to a peer that opens a second time on the same set is reported once,
/// as a replacement, and the sink it replaces refuses every later reservation and send.
pub proof fn lemma_replacement_retires(
    s: Seq<SinkView>,
    cap: nat,
    peer: (u64, Seq<u8>),
    set_id: SetId,
    old_id: int,
)
    requires
        sinks_wf(s),
        0 <= old_id < s.len(),
        is_active_for(s[old_id], peer, set_id),
    ensures
        active_sink(s, peer, set_id) == Some(old_id),
        active_sink(after_open(s, peer, set_id), peer, set_id) == Some(s.len() as int),
        reserve_outcome(after_open(s, peer, set_id), cap, old_id) == Err::<(), SinkError>(SinkError::Closed),
        send_outcome(after_open(s, peer, set_id), old_id) == Err::<(), SinkError>(SinkError::Closed),
        sinks_wf(after_open(s, peer, set_id)),
{
    lemma_active_unique(s, peer, set_id, old_id);
    lemma_open_wf(s, peer, set_id);
}

proof fn lemma_active_unique(s: Seq<SinkView>, peer: (u64, Seq<u8>), set_id: SetId, i: int)
    requires
        sinks_wf(s),
        0 <= i < s.len(),
        is_active_for(s[i], peer, set_id),
    ensures
        active_sink(s, peer, set_id) == Some(i),
{
    let j = choose|j: int| 0 <= j < s.len() && is_active_for(#[trigger] s[j], peer, set_id);
    assert(is_active_for(s[j], peer, set_id));
    if j != i {
        assert(s[i].active && s[j].active);
    }
}

proof fn lemma_open_wf(s: Seq<SinkView>, peer: (u64, Seq<u8>), set_id: SetId)
    requires
        sinks_wf(s),
    ensures
        sinks_wf(after_open(s, peer, set_id)),
        active_sink(after_open(s, peer, set_id), peer, set_id) == Some(s.len() as int),
{
    let t = after_open(s, peer, set_id);
    let n = s.len() as int;
    assert(t.len() == n + 1);
    assert(is_active_for(t[n], peer, set_id));
    assert forall|k: int| 0 <= k < n && (#[trigger] t[k]).active implies !(t[k].peer == peer
        && t[k].set_id == set_id) by {
        if t[k].peer == peer && t[k].set_id == set_id {
            assert(s[k] == t[k]);
            assert(is_active_for(s[k], peer, set_id));
            lemma_active_unique(s, peer, set_id, k);
        }
    }
    assert(sinks_wf(t)) by {
        assert forall|i: int, j: int|
            0 <= i < t.len() && 0 <= j < t.len() && i != j && (#[trigger] t[i]).active
                && (#[trigger] t[j]).active implies t[i].peer != t[j].peer || t[i].set_id != t[j].set_id by {
            if i < n && j < n {
                assert(t[i] == s[i] && t[j] == s[j]);
            }
        }
        assert forall|i: int| 0 <= i < t.len() && !(#[trigger] t[i]).active implies !t[i].reserved
            && t[i].buffer.len() == 0 by {
            if i < n && t[i] != retired(s[i]) {
                assert(t[i] == s[i]);
            }
        }
    }
    lemma_active_unique(t, peer, set_id, n);
}

/// Buffer and reservation state of one sink.
#[derive(Debug)]
struct Sink {
    peer: PeerId,
    set_id: SetId,
    active: bool,
    reserved: bool,
    buffer: Vec<Vec<u8>>,
}

impl View for Sink {
    type V = SinkView;

    closed spec fn view(&self) -> SinkView {
        SinkView {
            peer: self.peer@,
            set_id: self.set_id,
            active: self.active,
            reserved: self.reserved,
            buffer: self.buffer@.map_values(|b: Vec<u8>| b@),
        }
    }
}

/// Every sink the node has opened; a sink's handle is its position.
#[derive(Debug)]
pub struct NotificationSinks {
    sinks: Vec<Sink>,
    capacity: usize,
}

impl View for NotificationSinks {
    type V = Seq<SinkView>;

    closed spec fn view(&self) -> Seq<SinkView> {
        self.sinks@.map_values(|k: Sink| k@)
    }
}

impl NotificationSinks {
    /// Most notifications a sink buffers before its sender must wait.
    pub closed spec fn cap(&self) -> nat {
        self.capacity as nat
    }

    /// No sink buffered more than the capacity, and the sinks are well formed.
    pub open spec fn wf(&self) -> bool {
        &&& sinks_wf(self@)
        &&& forall|i: int| 0 <= i < self@.len() ==> (#[trigger] self@[i]).buffer.len() <= self.cap()
        &&& forall|i: int| 0 <= i < self@.len() && (#[trigger] self@[i]).reserved ==> self@[i].buffer.len() < self.cap()
    }

    /// No sink yet; each will buffer up to `capacity` notifications.
    pub fn new(capacity: usize) -> (r: NotificationSinks)
        ensures
            r.wf(),
            r@.len() == 0,
            r.cap() == capacity,
    {
        let r = NotificationSinks { sinks: Vec::new(), capacity };
        assert(r@ =~= Seq::<SinkView>::empty());
        r
    }

    /// A substream with `peer` on `set_id` opened: the live sink, if any, is retired and
    /// the new one reported as its replacement; otherwise the new one is reported as opened.
    pub fn open_stream(&mut self, peer: &PeerId, set_id: SetId) -> (r: StreamOpening)
        requires
            old(self).wf(),
        ensures
            final(self).wf(),
            final(self).cap() == old(self).cap(),
            final(self)@ == after_open(old(self)@, peer@, set_id),
            match r {
                StreamOpening::Opened(h) => active_sink(old(self)@, peer@, set_id) is None && h.id
                    == old(self)@.len(),
                StreamOpening::Replaced(h) => active_sink(old(self)@, peer@, set_id) is Some && h.id
                    == old(self)@.len(),
            },
    {
        let ghost s0 = self@;
        let found = self.find_active(peer, set_id);
        let replaced = match found {
            Some(i) => {
                self.retire(i);
                true
            },
            None => false,
        };
        let ghost s1 = self@;
        let n = self.sinks.len();
        self.sinks.push(Sink { peer: peer.duplicate(), set_id, active: true, reserved: false, buffer: Vec::new() });
        proof {
            let fresh = SinkView { peer: peer@, set_id, active: true, reserved: false, buffer: Seq::empty() };
            assert(self.sinks@[n as int]@.buffer =~= Seq::<Seq<u8>>::empty());
            assert(self@ =~= s1.push(fresh));
            lemma_open_wf(s0, peer@, set_id);
            assert(self@ == after_open(s0, peer@, set_id));
        }
        if replaced {
            StreamOpening::Replaced(SinkHandle { id: n })
        } else {
            StreamOpening::Opened(SinkHandle { id: n })
        }
    }

    /// The substream with `peer` on `set_id` closed; returns whether a live sink was retired.
    pub fn close_stream(&mut self, peer: &PeerId, set_id: SetId) -> (r: bool)
        requires
            old(self).wf(),
        ensures
            final(self).wf(),
            final(self).cap() == old(self).cap(),
            final(self)@ == after_close(old(self)@, peer@, set_id),
            r == active_sink(old(self)@, peer@, set_id) is Some,
    {
        match self.find_active(peer, set_id) {
            Some(i) => {
                self.retire(i);
                true
            },
            None => false,
        }
    }

    fn find_active(&self, peer: &PeerId, set_id: SetId) -> (r: Option<usize>)
        requires
            self.wf(),
        ensures
            match r {
                Some(i) => active_sink(self@, peer@, set_id) == Some(i as int),
                None => active_sink(self@, peer@, set_id) is None,
            },
    {
        let mut i: usize = 0;
        while i < self.sinks.len()
            invariant
                self.wf(),
                i <= self@.len(),
                self@.len() == self.sinks@.len(),
                forall|j: int| 0 <= j < i ==> !is_active_for(#[trigger] self@[j], peer@, set_id),
            decreases self.sinks@.len() - i,
        {
            let k = &self.sinks[i];
            assert(self@[i as int] == k@);
            if k.active && k.set_id == set_id && k.peer.same(peer) {
                proof {
                    lemma_active_unique(self@, peer@, set_id, i as int);
                }
                return Some(i);
            }
            i = i + 1;
        }
        None
    }

    fn retire(&mut self, i: usize)
        requires
            old(self).wf(),
            i < old(self)@.len(),
        ensures
            final(self).wf(),
            final(self).cap() == old(self).cap(),
            final(self)@ == old(self)@.update(i as int, retired(old(self)@[i as int])),
    {
        let ghost s0 = self@;
        let mut k = self.sinks.remove(i);
        k.active = false;
        k.reserved = false;
        k.buffer = Vec::new();
        self.sinks.insert(i, k);
        proof {
            assert(self.sinks@[i as int]@.buffer =~= Seq::<Seq<u8>>::empty());
            assert(self@ =~= s0.update(i as int, retired(s0[i as int])));
            let t = self@;
            assert forall|a: int, b: int|
                0 <= a < t.len() && 0 <= b < t.len() && a != b && (#[trigger] t[a]).active
                    && (#[trigger] t[b]).active implies t[a].peer != t[b].peer || t[a].set_id != t[b].set_id by {
                assert(t[a] == s0[a] && t[b] == s0[b]);
            }
        }
    }

    /// Reserves room for one notification in the sink's buffer.
    pub fn reserve(&mut self, h: SinkHandle) -> (r: Result<Ready, SinkError>)
        requires
            old(self).wf(),
        ensures
            final(self).wf(),
            final(self).cap() == old(self).cap(),
            match r {
                Ok(t) => reserve_outcome(old(self)@, old(self).cap(), h.id as int) is Ok && t.sink()
                    == h.id && final(self)@ == old(self)@.update(
                    h.id as int,
                    SinkView { reserved: true, ..old(self)@[h.id as int] },
                ),
                Err(e) => reserve_outcome(old(self)@, old(self).cap(), h.id as int) == Err::<(), SinkError>(e)
                    && final(self)@ == old(self)@,
            },
    {
        if h.id >= self.sinks.len() {
            return Err(SinkError::Closed);
        }
        let ghost s0 = self@;
        assert(s0[h.id as int] == self.sinks@[h.id as int]@);
        if !self.sinks[h.id].active {
            return Err(SinkError::Closed);
        }
        if self.sinks[h.id].reserved {
            return Err(SinkError::AlreadyReserved);
        }
        if self.sinks[h.id].buffer.len() >= self.capacity {
            return Err(SinkError::Full);
        }
        let mut k = self.sinks.remove(h.id);
        k.reserved = true;
        self.sinks.insert(h.id, k);
        proof {
            assert(self@ =~= s0.update(h.id as int, SinkView { reserved: true, ..s0[h.id as int] }));
        }
        Ok(Ready { id: h.id })
    }

    /// Places one notification in the buffer of the sink the permission is for; fails if
    /// that sink was retired since the reservation.
    pub fn send(&mut self, ready: Ready, notification: &[u8]) -> (r: Result<(), SinkError>)
        requires
            old(self).wf(),
        ensures
            final(self).wf(),
            final(self).cap() == old(self).cap(),
            r == send_outcome(old(self)@, ready.sink() as int),
            r is Ok ==> final(self)@ == old(self)@.update(
                ready.sink() as int,
                SinkView {
                    reserved: false,
                    buffer: old(self)@[ready.sink() as int].buffer.push(notification@),
                    ..old(self)@[ready.sink() as int]
                },
            ),
            r is Err ==> final(self)@ == old(self)@,
    {
        let id = ready.id;
        if id >= self.sinks.len() {
            return Err(SinkError::Closed);
        }
        let ghost s0 = self@;
        assert(s0[id as int] == self.sinks@[id as int]@);
        if !self.sinks[id].active || !self.sinks[id].reserved {
            return Err(SinkError::Closed);
        }
        let mut k = self.sinks.remove(id);
        k.reserved = false;
        k.buffer.push(copy_bytes(notification));
        self.sinks.insert(id, k);
        proof {
            let v = SinkView {
                reserved: false,
                buffer: s0[id as int].buffer.push(notification@),
                ..s0[id as int]
            };
            assert(self.sinks@[id as int]@.buffer =~= v.buffer);
            assert(self@ =~= s0.update(id as int, v));
        }
        Ok(())
    }

    /// Hands the buffered notifications of a live sink to the connection, oldest first.
    pub fn drain(&mut self, h: SinkHandle) -> (r: Vec<Vec<u8>>)
        requires
            old(self).wf(),
        ensures
            final(self).wf(),
            final(self).cap() == old(self).cap(),
            h.id < old(self)@.len() ==> r@.map_values(|b: Vec<u8>| b@) == old(self)@[h.id as int].buffer
                && final(self)@ == old(self)@.update(
                h.id as int,
                SinkView { buffer: Seq::empty(), ..old(self)@[h.id as int] },
            ),
            h.id >= old(self)@.len() ==> r@.len() == 0 && final(self)@ == old(self)@,
    {
        if h.id >= self.sinks.len() {
            return Vec::new();
        }
        let ghost s0 = self@;
        let mut k = self.sinks.remove(h.id);
        let out = k.buffer;
        k.buffer = Vec::new();
        self.sinks.insert(h.id, k);
        proof {
            let v = SinkView { buffer: Seq::empty(), ..s0[h.id as int] };
            assert(self.sinks@[h.id as int]@.buffer =~= Seq::<Seq<u8>>::empty());
            assert(self@ =~= s0.update(h.id as int, v));
            let t = self@;
            assert forall|a: int, b: int|
                0 <= a < t.len() && 0 <= b < t.len() && a != b && (#[trigger] t[a]).active
                    && (#[trigger] t[b]).active implies t[a].peer != t[b].peer || t[a].set_id != t[b].set_id by {
                assert(s0[a].active && s0[b].active);
            }
        }
        out
    }
}

} // verus!
