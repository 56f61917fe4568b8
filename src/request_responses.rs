//! Generic one-shot request/response protocols: registration, routing of outgoing
//! requests with an optional fallback protocol, and their completion.
use crate::bytes::copy_bytes;
use crate::peer::PeerId;
use vstd::prelude::*;

verus! {

/// Configuration of one request-response protocol.
#[derive(Clone, Debug)]
pub struct ProtocolConfig {
    /// Name of the protocol on the wire.
    pub name: String,
    /// Largest request accepted, in bytes.
    pub max_request_size: u64,
    /// Largest response accepted, in bytes.
    pub max_response_size: u64,
}

/// Error while registering the protocols.
#[derive(Clone, Debug)]
pub enum RegisterError {
    /// Two protocols share this name.
    DuplicateProtocol(String),
}

/// What to do with a request to a peer the node is not connected to.
#[derive(Clone, Copy, Debug, PartialEq, Eq, Structural)]
pub enum IfDisconnected {
    /// Dial the peer, then send the request.
    TryConnect,
    /// Fail at once without dialing.
    ImmediateError,
}

/// Failure of the transport while a request was outstanding.
#[derive(Clone, Copy, Debug, PartialEq, Eq, Structural)]
pub enum OutboundFailure {
    /// The peer could not be dialed.
    DialFailure,
    /// No response came in time.
    Timeout,
    /// The connection closed before the response came.
    ConnectionClosed,
    /// The peer supports none of the protocols offered.
    UnsupportedProtocols,
}

/// Why a request failed.
#[derive(Clone, Copy, Debug, PartialEq, Eq, Structural)]
pub enum RequestFailure {
    /// Not connected, and the caller asked not to dial.
    NotConnected,
    /// The protocol is not registered locally.
    UnknownProtocol,
    /// The remote refused to answer.
    Refused,
    /// The request was superseded.
    Obsolete,
    /// Every request identifier is in use or spent; no request can be started.
    IdentifiersExhausted,
    /// The transport failed.
    Network(OutboundFailure),
}

/// Failure while serving an inbound request.
#[derive(Clone, Copy, Debug, PartialEq, Eq, Structural)]
pub enum InboundFailure {
    /// The response was not sent in time.
    Timeout,
    /// The remote offered no protocol we support.
    UnsupportedProtocols,
    /// The local handler gave no response.
    ResponseOmission,
    /// The connection closed before the response was sent.
    ConnectionClosed,
}

/// Failure while serving an inbound request, as reported by the behaviour.
#[derive(Clone, Copy, Debug, PartialEq, Eq, Structural)]
pub enum ResponseFailure {
    /// The transport failed.
    Network(InboundFailure),
}

/// A protocol name offered for a request, with the payload to send under it.
#[derive(Clone, Debug)]
pub struct Offer {
    pub protocol: String,
    pub payload: Vec<u8>,
}

/// How a new request proceeds.
#[derive(Debug)]
pub enum RequestStart {
    /// It failed at once.
    Fail(RequestFailure),
    /// It is outstanding under `id`: dial the peer first if `dial`, then offer the
    /// protocols in order.
    Open { id: u64, peer: PeerId, dial: bool, offers: Vec<Offer> },
}

/// A request waiting for its outcome.
#[derive(Debug)]
struct Pending {
    id: u64,
    names: Vec<String>,
}

/// The index of the first name in `offered` that `supported` holds.
pub open spec fn selected(offered: Seq<Seq<char>>, supported: Seq<Seq<char>>) -> Option<int>
    decreases offered.len(),
{
    if offered.len() == 0 {
        None
    } else if supported.contains(offered[0]) {
        Some(0)
    } else {
        match selected(offered.drop_first(), supported) {
            Some(i) => Some(i + 1),
            None => None,
        }
    }
}

/// The names of the protocols offered for a request: the primary one, then the fallback
/// when it is registered.
pub open spec fn offered_names(
    registered: Seq<Seq<char>>,
    protocol: Seq<char>,
    fallback: Option<Seq<char>>,
) -> Seq<Seq<char>> {
    match fallback {
        Some(f) => if registered.contains(f) {
            seq![protocol, f]
        } else {
            seq![protocol]
        },
        None => seq![protocol],
    }
}

/// A request offered under a primary protocol and a registered fallback, to a peer that
/// supports the fallback alone, goes out under the fallback and its payload, and its
/// answer is tagged with the fallback's name.
pub proof fn lemma_fallback_negotiated(
    registered: Seq<Seq<char>>,
    protocol: Seq<char>,
    fallback: Seq<char>,
    supported: Seq<Seq<char>>,
)
    requires
        registered.contains(fallback),
        !supported.contains(protocol),
        supported.contains(fallback),
    ensures
        selected(offered_names(registered, protocol, Some(fallback)), supported) == Some(1int),
        offered_names(registered, protocol, Some(fallback))[1] == fallback,
{
    let o = offered_names(registered, protocol, Some(fallback));
    assert(o == seq![protocol, fallback]);
    assert(o.drop_first() =~= seq![fallback]);
    assert(o.drop_first()[0] == fallback);
    assert(selected(o.drop_first(), supported) == Some(0int));
}

/// Registered protocols and requests in flight.
#[derive(Debug)]
pub struct RequestResponses {
    protocols: Vec<ProtocolConfig>,
    pending: Vec<Pending>,
    next_id: u64,
}

/// Whether two configurations share no name.
pub open spec fn distinct_names(s: Seq<Seq<char>>) -> bool {
    forall|i: int, j: int| 0 <= i < j < s.len() ==> s[i] != s[j]
}

impl RequestResponses {
    /// Names of the registered protocols, in order.
    pub closed spec fn names(&self) -> Seq<Seq<char>> {
        self.protocols@.map_values(|c: ProtocolConfig| c.name@)
    }

    /// Identifiers of the requests in flight.
    pub closed spec fn in_flight(&self) -> Seq<u64> {
        self.pending@.map_values(|p: Pending| p.id)
    }

    /// Names offered for the request `id`, if it is in flight.
    pub closed spec fn offers_of(&self, id: u64) -> Option<Seq<Seq<char>>> {
        if exists|i: int| 0 <= i < self.pending@.len() && (#[trigger] self.pending@[i]).id == id {
            let i = choose|i: int| 0 <= i < self.pending@.len() && (#[trigger] self.pending@[i]).id == id;
            Some(self.pending@[i].names@.map_values(|n: String| n@))
        } else {
            None
        }
    }

    /// Registers the protocols; two of the same name are refused.
    pub fn new(protocols: Vec<ProtocolConfig>) -> (r: Result<RequestResponses, RegisterError>)
        ensures
            match r {
                Ok(rr) => rr.names() == protocols@.map_values(|c: ProtocolConfig| c.name@) && distinct_names(
                    rr.names(),
                ) && rr.in_flight().len() == 0 && rr.wf(),
                Err(RegisterError::DuplicateProtocol(n)) => exists|i: int, j: int|
                    0 <= i < j < protocols@.len() && protocols@[i].name@ == n@ && protocols@[j].name@
                        == n@,
            },
    {
        let ghost names = protocols@.map_values(|c: ProtocolConfig| c.name@);
        let mut j: usize = 1;
        while j < protocols.len()
            invariant
                names == protocols@.map_values(|c: ProtocolConfig| c.name@),
                1 <= j,
                forall|a: int, b: int| 0 <= a < b < j && b < protocols@.len() ==> names[a] != names[b],
            decreases protocols@.len() - j,
        {
            let mut i: usize = 0;
            while i < j
                invariant
                    names == protocols@.map_values(|c: ProtocolConfig| c.name@),
                    1 <= j < protocols@.len(),
                    i <= j,
                    forall|a: int, b: int| 0 <= a < b < j ==> names[a] != names[b],
                    forall|a: int| 0 <= a < i ==> names[a] != names[j as int],
                decreases j - i,
            {
                if protocols[i].name == protocols[j].name {
                    return Err(RegisterError::DuplicateProtocol(protocols[j].name.clone()));
                }
                i = i + 1;
            }
            j = j + 1;
        }
        let r = RequestResponses { protocols, pending: Vec::new(), next_id: 0 };
        proof {
            assert(r.in_flight() =~= Seq::<u64>::empty());
        }
        Ok(r)
    }

    /// Whether a protocol of this name is registered.
    pub fn is_registered(&self, name: &String) -> (r: bool)
        ensures
            r == self.names().contains(name@),
    {
        let mut i: usize = 0;
        while i < self.protocols.len()
            invariant
                i <= self.protocols@.len(),
                forall|a: int| 0 <= a < i ==> self.protocols@[a].name@ != name@,
            decreases self.protocols@.len() - i,
        {
            if self.protocols[i].name == *name {
                assert(self.names()[i as int] == name@);
                return true;
            }
            i = i + 1;
        }
        proof {
            if self.names().contains(name@) {
                let k = choose|k: int| 0 <= k < self.names().len() && self.names()[k] == name@;
                assert(self.protocols@[k].name@ == name@);
            }
        }
        false
    }

    /// No identifier is left for a new request.
    pub closed spec fn exhausted(&self) -> bool {
        self.next_id == u64::MAX
    }

    /// Every request in flight has a distinct identifier below the next one.
    pub closed spec fn wf(&self) -> bool {
        &&& forall|i: int, j: int|
            0 <= i < self.pending@.len() && 0 <= j < self.pending@.len() && i != j ==> (
            #[trigger] self.pending@[i]).id != (#[trigger] self.pending@[j]).id
        &&& forall|i: int| 0 <= i < self.pending@.len() ==> (#[trigger] self.pending@[i]).id < self.next_id
    }

    /// Starts a request to `target`. An unregistered protocol fails with
    /// `UnknownProtocol`; a peer that is not connected fails with `NotConnected` when the
    /// caller asked not to dial, and is dialed otherwise. The primary protocol is offered
    /// first, then the fallback when it is registered. Once every identifier has been
    /// used, a request fails as `IdentifiersExhausted`.
    pub fn start_request(
        &mut self,
        target: &PeerId,
        protocol: &String,
        request: &Vec<u8>,
        fallback: &Option<(Vec<u8>, String)>,
        connected: bool,
        connect: IfDisconnected,
    ) -> (r: RequestStart)
        requires
            old(self).wf(),
        ensures
            final(self).wf(),
            final(self).names() == old(self).names(),
            !old(self).names().contains(protocol@) ==> r == RequestStart::Fail(
                RequestFailure::UnknownProtocol,
            ),
            old(self).names().contains(protocol@) && !connected && connect == IfDisconnected::ImmediateError
                ==> r == RequestStart::Fail(RequestFailure::NotConnected),
            old(self).names().contains(protocol@) && (connected || connect == IfDisconnected::TryConnect)
                && old(self).exhausted() ==> r == RequestStart::Fail(RequestFailure::IdentifiersExhausted),
            r is Fail ==> final(self).in_flight() == old(self).in_flight(),
            old(self).names().contains(protocol@) && (connected || connect == IfDisconnected::TryConnect)
                && !old(self).exhausted() ==> r is Open,
            match r {
                RequestStart::Open { id, peer, dial, offers } => peer@ == target@ && dial == !connected
                    && offers_match(offers@, old(self).names(), protocol@, request@, *fallback)
                    && !old(self).in_flight().contains(id) && final(self).in_flight()
                    == old(self).in_flight().push(id) && final(self).offers_of(id) == Some(
                    offers@.map_values(|o: Offer| o.protocol@),
                ),
                _ => true,
            },
    {
        if !self.is_registered(protocol) {
            return RequestStart::Fail(RequestFailure::UnknownProtocol);
        }
        if !connected && connect == IfDisconnected::ImmediateError {
            return RequestStart::Fail(RequestFailure::NotConnected);
        }
        if self.next_id == u64::MAX {
            return RequestStart::Fail(RequestFailure::IdentifiersExhausted);
        }
        let mut offers: Vec<Offer> = Vec::new();
        let mut names: Vec<String> = Vec::new();
        offers.push(Offer { protocol: protocol.clone(), payload: copy_bytes(request.as_slice()) });
        names.push(protocol.clone());
        match fallback {
            Some((payload, name)) => {
                if self.is_registered(name) {
                    offers.push(Offer { protocol: name.clone(), payload: copy_bytes(payload.as_slice()) });
                    names.push(name.clone());
                }
            },
            None => {},
        }
        let id = self.next_id;
        let ghost before = self.pending@;
        proof {
            if self.in_flight().contains(id) {
                let k = choose|k: int| 0 <= k < self.in_flight().len() && self.in_flight()[k] == id;
                assert(self.pending@[k].id == id);
            }
        }
        self.pending.push(Pending { id, names });
        self.next_id = id + 1;
        proof {
            assert(self.in_flight() =~= old(self).in_flight().push(id));
            assert(offers@.map_values(|o: Offer| o.protocol@) =~= self.pending@[before.len() as int].names@.map_values(
                |n: String| n@,
            ));
            assert(self.pending@[before.len() as int].id == id);
            assert forall|i: int| 0 <= i < self.pending@.len() && (#[trigger] self.pending@[i]).id == id implies i
                == before.len() by {
                if i < before.len() {
                    assert(self.pending@[i] == before[i]);
                }
            }
            let ov = offers@.map_values(|o: Offer| o.protocol@);
            let fb = match fallback {
                Some((_, n)) => Some(n@),
                None => None,
            };
            assert(ov =~= offered_names(old(self).names(), protocol@, fb));
            assert(offers_match(offers@, old(self).names(), protocol@, request@, *fallback));
            let c = choose|i: int| 0 <= i < self.pending@.len() && (#[trigger] self.pending@[i]).id == id;
            assert(c == before.len());
            assert(self.offers_of(id) == Some(ov));
        }
        RequestStart::Open { id, peer: target.duplicate(), dial: !connected, offers }
    }

    /// The index of the first offered name that the peer supports.
    pub fn negotiate(offered: &Vec<String>, supported: &Vec<String>) -> (r: Option<usize>)
        ensures
            match selected(offered@.map_values(|n: String| n@), supported@.map_values(|n: String| n@)) {
                Some(i) => r == Some(i as usize),
                None => r is None,
            },
    {
        let ghost o = offered@.map_values(|n: String| n@);
        let ghost sup = supported@.map_values(|n: String| n@);
        let mut i: usize = 0;
        assert(o.subrange(0, o.len() as int) =~= o);
        while i < offered.len()
            invariant
                o == offered@.map_values(|n: String| n@),
                sup == supported@.map_values(|n: String| n@),
                i <= o.len(),
                selected(o, sup) == match selected(o.subrange(i as int, o.len() as int), sup) {
                    Some(k) => Some(k + i),
                    None => None::<int>,
                },
            decreases o.len() - i,
        {
            let mut j: usize = 0;
            let mut found = false;
            while j < supported.len()
                invariant
                    sup == supported@.map_values(|n: String| n@),
                    i < o.len(),
                    o == offered@.map_values(|n: String| n@),
                    j <= sup.len(),
                    found == (exists|k: int| 0 <= k < j && sup[k] == o[i as int]),
                decreases sup.len() - j,
            {
                assert(sup[j as int] == supported@[j as int]@);
                assert(o[i as int] == offered@[i as int]@);
                if supported[j] == offered[i] {
                    found = true;
                }
                j = j + 1;
            }
            let ghost rest = o.subrange(i as int, o.len() as int);
            assert(rest[0] == o[i as int]);
            if found {
                assert(sup.contains(o[i as int]));
                return Some(i);
            }
            assert(rest.drop_first() =~= o.subrange(i + 1, o.len() as int));
            i = i + 1;
        }
        proof {
            assert(o.subrange(i as int, o.len() as int).len() == 0);
        }
        None
    }

    /// Completes the request `id` with what the transport reported: the index of the
    /// offer the peer took and its response, or a failure. The answer is tagged with the
    /// name of the offer taken. An identifier not in flight gives `None`.
    pub fn finish_request(&mut self, id: u64, outcome: Result<(usize, Vec<u8>), OutboundFailure>) -> (r:
        Option<Result<(Vec<u8>, String), RequestFailure>>)
        requires
            old(self).wf(),
        ensures
            final(self).wf(),
            final(self).names() == old(self).names(),
            old(self).offers_of(id) is None <==> r is None,
            old(self).offers_of(id) is Some ==> final(self).offers_of(id) is None,
            match (old(self).offers_of(id), r) {
                (Some(names), Some(res)) => match outcome {
                    Ok((idx, resp)) => if idx < names.len() {
                        answer_is(res, resp@, names[idx as int])
                    } else {
                        res == Err::<(Vec<u8>, String), RequestFailure>(
                            RequestFailure::Network(OutboundFailure::UnsupportedProtocols),
                        )
                    },
                    Err(f) => res == Err::<(Vec<u8>, String), RequestFailure>(RequestFailure::Network(f)),
                },
                _ => true,
            },
    {
        let mut k: usize = 0;
        while k < self.pending.len()
            invariant
                self.wf(),
                self.names() == old(self).names(),
                self.pending@ == old(self).pending@,
                k <= self.pending@.len(),
                forall|a: int| 0 <= a < k ==> (#[trigger] self.pending@[a]).id != id,
            decreases self.pending@.len() - k,
        {
            if self.pending[k].id == id {
                let ghost before = self.pending@;
                proof {
                    let c = choose|i: int| 0 <= i < before.len() && (#[trigger] before[i]).id == id;
                    assert(before[k as int].id == id);
                    assert(c == k);
                }
                let p = self.pending.remove(k);
                proof {
                    assert forall|i: int| 0 <= i < self.pending@.len() implies (#[trigger] self.pending@[i]).id != id by {
                        let i2 = if i < k { i } else { i + 1 };
                        assert(self.pending@[i] == before[i2]);
                    }
                    assert forall|i: int, j: int|
                        0 <= i < self.pending@.len() && 0 <= j < self.pending@.len() && i != j implies (
                        #[trigger] self.pending@[i]).id != (#[trigger] self.pending@[j]).id
                        && self.pending@[i].id < self.next_id && self.pending@[j].id < self.next_id by {
                        let i2 = if i < k { i } else { i + 1 };
                        let j2 = if j < k { j } else { j + 1 };
                        assert(self.pending@[i] == before[i2]);
                        assert(self.pending@[j] == before[j2]);
                    }
                    assert forall|i: int| 0 <= i < self.pending@.len() implies (#[trigger] self.pending@[i]).id < self.next_id by {
                        let i2 = if i < k { i } else { i + 1 };
                        assert(self.pending@[i] == before[i2]);
                    }
                }
                let res = match outcome {
                    Ok((idx, resp)) => {
                        if idx < p.names.len() {
                            Ok((resp, p.names[idx].clone()))
                        } else {
                            Err(RequestFailure::Network(OutboundFailure::UnsupportedProtocols))
                        }
                    },
                    Err(f) => Err(RequestFailure::Network(f)),
                };
                return Some(res);
            }
            k = k + 1;
        }
        None
    }
}

/// `res` is the answer `resp` under the protocol named `name`.
pub open spec fn answer_is(res: Result<(Vec<u8>, String), RequestFailure>, resp: Seq<u8>, name: Seq<char>) -> bool {
    match res {
        Ok((bytes, n)) => bytes@ == resp && n@ == name,
        Err(_) => false,
    }
}

/// The offers of a request: the primary protocol with the request, then the fallback
/// with its payload when the fallback is registered.
pub open spec fn offers_match(
    offers: Seq<Offer>,
    registered: Seq<Seq<char>>,
    protocol: Seq<char>,
    request: Seq<u8>,
    fallback: Option<(Vec<u8>, String)>,
) -> bool {
    &&& offers.len() >= 1
    &&& offers[0].protocol@ == protocol
    &&& offers[0].payload@ == request
    &&& match fallback {
        Some((payload, name)) => if registered.contains(name@) {
            offers.len() == 2 && offers[1].protocol@ == name@ && offers[1].payload@ == payload@
        } else {
            offers.len() == 1
        },
        None => offers.len() == 1,
    }
    &&& offers.map_values(|o: Offer| o.protocol@) == offered_names(
        registered,
        protocol,
        match fallback {
            Some((_, name)) => Some(name@),
            None => None,
        },
    )
}

} // verus!
