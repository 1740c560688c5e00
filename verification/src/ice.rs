//! ICE-Lite agent: candidate data, per-stream candidate lists, pair
//! validation driven by observed USE-CANDIDATE ports, and completion events.

use vstd::prelude::*;
use crate::addr::{IpAddr, IpAddrV};
use crate::strings::str_bytes;
use vstd::string::StringExecFns;

verus! {

pub const RTP_COMPONENT_ID: u16 = 1;

pub const RTCP_COMPONENT_ID: u16 = 2;

#[derive(Clone, Debug, PartialEq, Eq, Structural)]
pub enum Proto {
    Udp,
    Tcp,
}

#[derive(Clone, Debug, PartialEq, Eq, Structural)]
pub enum CandidateType {
    Host,
    Srflx,
    Prflx,
    Relay,
}

#[derive(Clone, Debug, PartialEq)]
pub struct Candidate {
    pub conn: IpAddr,
    pub port: u16,
    pub proto: Proto,
    pub foundation: String,
    pub component_id: Option<u16>,
    pub priority: u32,
    pub candidate_type: CandidateType,
    pub rel_addr: Option<IpAddr>,
    pub rel_port: Option<u16>,
}

#[verifier::ext_equal]
pub struct CandidateV {
    pub conn: IpAddrV,
    pub port: u16,
    pub proto: Proto,
    pub foundation: Seq<u8>,
    pub component_id: Option<u16>,
    pub priority: u32,
    pub candidate_type: CandidateType,
    pub rel_addr: Option<IpAddrV>,
    pub rel_port: Option<u16>,
}

impl View for Candidate {
    type V = CandidateV;

    open spec fn view(&self) -> CandidateV {
        CandidateV {
            conn: self.conn@,
            port: self.port,
            proto: self.proto,
            foundation: str_bytes(self.foundation@),
            component_id: self.component_id,
            priority: self.priority,
            candidate_type: self.candidate_type,
            rel_addr: match self.rel_addr {
                Some(a) => Some(a@),
                None => None,
            },
            rel_port: self.rel_port,
        }
    }
}

/// The host-candidate priority: type preference 126, local preference
/// 65535, and the component offset, packed as RFC 5245 lays them out.
pub open spec fn spec_priority(component_id: u16) -> u32
    recommends
        1 <= component_id <= 256,
{
    (126 * 0x1000000 + 65535 * 0x100 + (256 - component_id)) as u32
}

/// priority(host, c) = 2^24·126 + 2^8·65535 + (256 − c).
pub fn candidate_priority(component_id: u16) -> (r: u32)
    requires
        1 <= component_id <= 256,
    ensures
        r == spec_priority(component_id),
        r == 126 * 0x1000000 + 65535 * 0x100 + (256 - component_id),
{
    let base: u32 = 126 * 0x1000000 + 65535 * 0x100;
    base + (256 - component_id as u32)
}

// ---------------------------------------------------------------------------
// Identifier generation

/// A character of a rendered identifier: a digit, a lowercase hex letter,
/// or a hyphen.
pub open spec fn is_id_char(c: char) -> bool {
    (48 <= c as u32 <= 57) || (97 <= c as u32 <= 102) || c as u32 == 45
}

/// Relies on `uuid::Uuid::new_v4` and its `Display` form: a fresh random
/// identifier, rendered in the 36-character hyphenated form (lowercase hex
/// digits and hyphens).
#[verifier::external_body]
pub(crate) fn fresh_id() -> (r: String)
    ensures
        r@.len() == 36,
        forall|i: int| 0 <= i < r@.len() ==> is_id_char(#[trigger] r@[i]),
{
    uuid::Uuid::new_v4().to_string()
}

/// Allocates local ports for gathered candidates, counting upward.
pub struct PortAllocator {
    pub next_port: u16,
}

impl PortAllocator {
    /// An allocator that starts at the conventional first media port.
    pub fn new() -> (r: PortAllocator)
        ensures
            r.next_port == 6000,
    {
        PortAllocator { next_port: 6000 }
    }

    /// The next free port, when one is left.
    pub fn take_port(&mut self) -> (r: Option<u16>)
        ensures
            old(self).next_port < u16::MAX ==> r == Some(old(self).next_port) && final(self).next_port == old(self).next_port + 1,
            old(self).next_port == u16::MAX ==> r is None && *final(self) == *old(self),
    {
        if self.next_port < 0xffff {
            let p = self.next_port;
            self.next_port = self.next_port + 1;
            Some(p)
        } else {
            None
        }
    }
}

// ---------------------------------------------------------------------------
// Streams

#[derive(Clone, Copy, Debug, PartialEq, Eq, Structural)]
pub enum StreamState {
    Running,
    Completed,
}

#[derive(Clone, Copy, Debug, PartialEq, Eq, Structural)]
pub enum IceState {
    Running,
    Completed,
}

/// A validated pairing of a local candidate with an offered one.
#[derive(Clone, Debug)]
pub struct PairCandidate {
    pub local_candidate: Candidate,
    pub peer_candidate: Candidate,
}

#[verifier::ext_equal]
pub struct PairCandidateV {
    pub local_candidate: CandidateV,
    pub peer_candidate: CandidateV,
}

impl View for PairCandidate {
    type V = PairCandidateV;

    open spec fn view(&self) -> PairCandidateV {
        PairCandidateV { local_candidate: self.local_candidate@, peer_candidate: self.peer_candidate@ }
    }
}

pub struct Stream {
    pub id: String,
    pub state: StreamState,
    pub offer_candidates: Vec<Candidate>,
    pub local_candidates: Vec<Candidate>,
    pub valid_list: Vec<PairCandidate>,
}

#[verifier::ext_equal]
pub struct StreamV {
    pub id: Seq<char>,
    pub state: StreamState,
    pub offer_candidates: Seq<CandidateV>,
    pub local_candidates: Seq<CandidateV>,
    pub valid_list: Seq<PairCandidateV>,
}

impl View for Stream {
    type V = StreamV;

    open spec fn view(&self) -> StreamV {
        StreamV {
            id: self.id@,
            state: self.state,
            offer_candidates: Seq::new(
                self.offer_candidates@.len(),
                |i: int| self.offer_candidates@[i]@,
            ),
            local_candidates: Seq::new(
                self.local_candidates@.len(),
                |i: int| self.local_candidates@[i]@,
            ),
            valid_list: Seq::new(self.valid_list@.len(), |i: int| self.valid_list@[i]@),
        }
    }
}

/// A fresh stream: running, with nothing gathered or offered yet.
pub open spec fn spec_fresh_stream(id: Seq<char>) -> StreamV {
    StreamV {
        id,
        state: StreamState::Running,
        offer_candidates: Seq::empty(),
        local_candidates: Seq::empty(),
        valid_list: Seq::empty(),
    }
}

/// The candidates of one component, in arrival order.
pub open spec fn cands_for(cands: Seq<CandidateV>, c: u16) -> Seq<CandidateV>
    decreases cands.len(),
{
    if cands.len() == 0 {
        Seq::empty()
    } else {
        let rest = cands_for(cands.drop_last(), c);
        if cands.last().component_id == Some(c) {
            rest.push(cands.last())
        } else {
            rest
        }
    }
}

/// The validated pairs of one component, in arrival order.
pub open spec fn pairs_for(pairs: Seq<PairCandidateV>, c: u16) -> Seq<PairCandidateV>
    decreases pairs.len(),
{
    if pairs.len() == 0 {
        Seq::empty()
    } else {
        let rest = pairs_for(pairs.drop_last(), c);
        if pairs.last().local_candidate.component_id == Some(c) {
            rest.push(pairs.last())
        } else {
            rest
        }
    }
}

/// A stream is complete when both components hold a validated pair.
pub open spec fn spec_stream_complete(s: StreamV) -> bool {
    pairs_for(s.valid_list, RTP_COMPONENT_ID).len() >= 1 && pairs_for(
        s.valid_list,
        RTCP_COMPONENT_ID,
    ).len() >= 1
}

/// The first candidate of the given component listening on the given port.
pub open spec fn spec_find_by_port(cands: Seq<CandidateV>, c: u16, port: u16) -> Option<CandidateV>
    decreases cands.len(),
{
    if cands.len() == 0 {
        None
    } else if cands[0].component_id == Some(c) && cands[0].port == port {
        Some(cands[0])
    } else {
        spec_find_by_port(cands.drop_first(), c, port)
    }
}

/// What the media plane is told when a stream completes: the chosen remote
/// candidate per component, to become that component's peer transport.
pub struct IceEvent {
    pub stream_id: String,
    pub remote: Candidate,
}

#[verifier::ext_equal]
pub struct IceEventV {
    pub stream_id: Seq<char>,
    pub remote: CandidateV,
}

impl View for IceEvent {
    type V = IceEventV;

    open spec fn view(&self) -> IceEventV {
        IceEventV { stream_id: self.stream_id@, remote: self.remote@ }
    }
}

// ---------------------------------------------------------------------------
// The agent

pub struct Agent {
    pub state: IceState,
    pub streams: Vec<Stream>,
}

#[verifier::ext_equal]
pub struct AgentV {
    pub state: IceState,
    pub streams: Seq<StreamV>,
}

impl View for Agent {
    type V = AgentV;

    open spec fn view(&self) -> AgentV {
        AgentV {
            state: self.state,
            streams: Seq::new(self.streams@.len(), |i: int| self.streams@[i]@),
        }
    }
}

/// The position of the first stream with the given id.
pub open spec fn spec_find_stream(streams: Seq<StreamV>, id: Seq<char>) -> Option<int>
    decreases streams.len(),
{
    if streams.len() == 0 {
        None
    } else if streams[0].id == id {
        Some(0)
    } else {
        match spec_find_stream(streams.drop_first(), id) {
            Some(i) => Some(i + 1),
            None => None,
        }
    }
}

impl Agent {
    /// An agent with no streams, still running.
    pub fn new() -> (r: Agent)
        ensures
            r@.state == IceState::Running,
            r@.streams == Seq::<StreamV>::empty(),
    {
        let r = Agent { state: IceState::Running, streams: Vec::new() };
        proof {
            assert(r@.streams =~= Seq::<StreamV>::empty());
        }
        r
    }

    /// The position of the first stream with the given id, if any.
    fn find_stream(&self, stream_id: &str) -> (r: Option<usize>)
        ensures
            match r {
                Some(i) => 0 <= i < self@.streams.len() && self@.streams[i as int].id == stream_id@
                    && (forall|j: int| 0 <= j < i ==> self@.streams[j].id != stream_id@),
                None => forall|j: int|
                    0 <= j < self@.streams.len() ==> self@.streams[j].id != stream_id@,
            },
    {
        let mut i: usize = 0;
        while i < self.streams.len()
            invariant
                0 <= i <= self.streams@.len(),
                self@.streams.len() == self.streams@.len(),
                forall|j: int|
                    0 <= j < self@.streams.len() ==> #[trigger] self@.streams[j]
                        == self.streams@[j]@,
                forall|j: int| 0 <= j < i ==> self@.streams[j].id != stream_id@,
            decreases self.streams@.len() - i,
        {
            if crate::strings::str_eq(self.streams[i].id.as_str(), stream_id) {
                return Some(i);
            }
            i = i + 1;
        }
        None
    }

    /// Opens a new stream under a fresh id and hands the id back. If the
    /// fresh id collides with an existing stream, that stream is reset.
    pub fn add_stream(&mut self) -> (r: String)
        ensures
            final(self)@.state == old(self)@.state,
            (exists|j: int|
                0 <= j < old(self)@.streams.len() && old(self)@.streams[j].id == r@) ==> (
            exists|i: int|
                0 <= i < old(self)@.streams.len() && final(self)@.streams == old(
                    self,
                )@.streams.update(i, spec_fresh_stream(r@))),
            !(exists|j: int|
                0 <= j < old(self)@.streams.len() && old(self)@.streams[j].id == r@) ==> final(self)@.streams == old(self)@.streams.push(spec_fresh_stream(r@)),
    {
        let id = fresh_id();
        let stream = Stream {
            id: id.clone(),
            state: StreamState::Running,
            offer_candidates: Vec::new(),
            local_candidates: Vec::new(),
            valid_list: Vec::new(),
        };
        let ghost old_streams = self@.streams;
        match self.find_stream(id.as_str()) {
            Some(i) => {
                let _ = self.streams.remove(i);
                self.streams.insert(i, stream);
                proof {
                    assert(stream@ =~~= spec_fresh_stream(id@));
                    assert(final(self)@.streams =~~= old_streams.update(
                        i as int,
                        spec_fresh_stream(id@),
                    ));
                }
            },
            None => {
                self.streams.push(stream);
                proof {
                    assert(stream@ =~~= spec_fresh_stream(id@));
                    assert(final(self)@.streams =~~= old_streams.push(spec_fresh_stream(id@)));
                }
            },
        }
        id
    }

    /// Records a candidate offered by the remote side for the given stream
    /// and component. An unknown stream id is ignored.
    pub fn add_offer_candidate(&mut self, stream_id: &str, component_id: u16, candidate: Candidate)
        ensures
            final(self)@.state == old(self)@.state,
            match spec_find_stream(old(self)@.streams, stream_id@) {
                Some(i) => final(self)@.streams == old(self)@.streams.update(
                    i,
                    StreamV {
                        offer_candidates: old(self)@.streams[i].offer_candidates.push(
                            CandidateV { component_id: Some(component_id), ..candidate@ },
                        ),
                        ..old(self)@.streams[i]
                    },
                ),
                None => final(self)@ == old(self)@,
            },
    {
        let ghost old_streams = self@.streams;
        match self.find_stream(stream_id) {
            Some(i) => {
                proof {
                    lemma_find_stream_agrees(old_streams, stream_id@, i as int);
                }
                let mut s = self.streams.remove(i);
                let mut c = candidate;
                c.component_id = Some(component_id);
                s.offer_candidates.push(c);
                self.streams.insert(i, s);
                proof {
                    let tgt = spec_find_stream(old_streams, stream_id@)->0;
                    assert(tgt == i as int);
                    assert(final(self)@.streams =~~= old_streams.update(
                        i as int,
                        StreamV {
                            offer_candidates: old_streams[i as int].offer_candidates.push(
                                CandidateV { component_id: Some(component_id), ..candidate@ },
                            ),
                            ..old_streams[i as int]
                        },
                    ));
                }
            },
            None => {
                proof {
                    lemma_find_stream_none(old_streams, stream_id@);
                    assert(final(self)@ =~~= old(self)@);
                }
            },
        }
    }
}

/// When a linear search finds index `i` as the first hit, the spec-level
/// search agrees.
pub proof fn lemma_find_stream_agrees(streams: Seq<StreamV>, id: Seq<char>, i: int)
    requires
        0 <= i < streams.len(),
        streams[i].id == id,
        forall|j: int| 0 <= j < i ==> streams[j].id != id,
    ensures
        spec_find_stream(streams, id) == Some(i),
    decreases streams.len(),
{
    if i == 0 {
    } else {
        assert(streams[0].id != id);
        let rest = streams.drop_first();
        assert(rest[i - 1].id == id);
        assert(forall|j: int| 0 <= j < i - 1 ==> #[trigger] rest[j].id == streams[j + 1].id);
        lemma_find_stream_agrees(rest, id, i - 1);
    }
}

/// When no stream has the id, the spec-level search finds none.
proof fn lemma_find_stream_none(streams: Seq<StreamV>, id: Seq<char>)
    requires
        forall|j: int| 0 <= j < streams.len() ==> streams[j].id != id,
    ensures
        spec_find_stream(streams, id) is None,
    decreases streams.len(),
{
    if streams.len() > 0 {
        let rest = streams.drop_first();
        assert(forall|j: int| 0 <= j < rest.len() ==> #[trigger] rest[j].id == streams[j + 1].id);
        lemma_find_stream_none(rest, id);
    }
}


impl Agent {
    /// Gathers one host candidate for the stream and component: the given
    /// local address and the next port, at host priority. Without a usable
    /// address, a free port, or a known stream, nothing is gathered.
    pub fn gather_candidates(
        &mut self,
        stream_id: &str,
        component_id: u16,
        local_addr: Option<&IpAddr>,
        ports: &mut PortAllocator,
    )
        requires
            1 <= component_id <= 256,
        ensures
            final(self)@.state == old(self)@.state,
            match (spec_find_stream(old(self)@.streams, stream_id@), local_addr) {
                (Some(i), Some(addr)) => {
                    if old(ports).next_port < u16::MAX {
                        &&& final(ports).next_port == old(ports).next_port + 1
                        &&& final(self)@.streams == old(self)@.streams.update(
                            i,
                            StreamV {
                                local_candidates: old(self)@.streams[i].local_candidates.push(
                                    spec_host_candidate(
                                        addr@,
                                        old(ports).next_port,
                                        component_id,
                                    ),
                                ),
                                ..old(self)@.streams[i]
                            },
                        )
                    } else {
                        final(self)@ == old(self)@ && *final(ports) == *old(ports)
                    }
                },
                _ => final(self)@ == old(self)@ && *final(ports) == *old(ports),
            },
    {
        let ghost old_streams = self@.streams;
        let found = self.find_stream(stream_id);
        if found.is_none() {
            proof {
                lemma_find_stream_none(old_streams, stream_id@);
                assert(final(self)@ =~~= old(self)@);
            }
            return ;
        }
        let i = found.unwrap();
        proof {
            lemma_find_stream_agrees(old_streams, stream_id@, i as int);
        }
        match local_addr {
            Some(addr) => {
                match ports.take_port() {
                    Some(port) => {
                        let cand = Candidate {
                            conn: addr.deep_clone(),
                            port,
                            proto: Proto::Udp,
                            foundation: host_foundation(),
                            component_id: Some(component_id),
                            priority: candidate_priority(component_id),
                            candidate_type: CandidateType::Host,
                            rel_addr: None,
                            rel_port: None,
                        };
                        proof {
                            assert(cand@ =~~= spec_host_candidate(addr@, port, component_id));
                        }
                        let mut s = self.streams.remove(i);
                        s.local_candidates.push(cand);
                        self.streams.insert(i, s);
                        proof {
                            assert(final(self)@.streams =~~= old_streams.update(
                                i as int,
                                StreamV {
                                    local_candidates: old_streams[i as int].local_candidates.push(
                                        spec_host_candidate(addr@, port, component_id),
                                    ),
                                    ..old_streams[i as int]
                                },
                            ));
                        }
                    },
                    None => {
                        proof {
                            assert(final(self)@ =~~= old(self)@);
                        }
                    },
                }
            },
            None => {
                proof {
                    assert(final(self)@ =~~= old(self)@);
                }
            },
        }
    }

    /// The local candidates gathered for one component of a stream, oldest
    /// first; `None` for an unknown stream, and for a component nothing was
    /// ever gathered for.
    pub fn get_stream_candidates(&self, stream_id: &str, component_id: u16) -> (r: Option<
        Vec<Candidate>,
    >)
        ensures
            match spec_find_stream(self@.streams, stream_id@) {
                Some(i) => {
                    let cands = cands_for(self@.streams[i].local_candidates, component_id);
                    if cands.len() == 0 {
                        r is None
                    } else {
                        r matches Some(v) && Seq::new(v@.len(), |k: int| v@[k]@) == cands
                    }
                },
                None => r is None,
            },
    {
        let ghost streams = self@.streams;
        let found = self.find_stream(stream_id);
        if found.is_none() {
            proof {
                lemma_find_stream_none(streams, stream_id@);
            }
            return None;
        }
        let i = found.unwrap();
        proof {
            lemma_find_stream_agrees(streams, stream_id@, i as int);
        }
        let s = &self.streams[i];
        let ghost sv = streams[i as int];
        let mut out: Vec<Candidate> = Vec::new();
        let mut k: usize = 0;
        proof {
            assert(sv == self.streams@[i as int]@);
            assert(Seq::new(out@.len(), |x: int| out@[x]@) =~~= cands_for(
                sv.local_candidates.subrange(0, 0),
                component_id,
            ));
        }
        while k < s.local_candidates.len()
            invariant
                0 <= k <= s.local_candidates@.len(),
                sv.local_candidates.len() == s.local_candidates@.len(),
                forall|j: int|
                    0 <= j < sv.local_candidates.len() ==> #[trigger] sv.local_candidates[j]
                        == s.local_candidates@[j]@,
                Seq::new(out@.len(), |x: int| out@[x]@) == cands_for(
                    sv.local_candidates.subrange(0, k as int),
                    component_id,
                ),
            decreases s.local_candidates@.len() - k,
        {
            let ghost before = Seq::new(out@.len(), |x: int| out@[x]@);
            proof {
                let p1 = sv.local_candidates.subrange(0, k as int + 1);
                assert(p1.drop_last() =~= sv.local_candidates.subrange(0, k as int));
                assert(p1.last() == sv.local_candidates[k as int]);
            }
            let keep = match s.local_candidates[k].component_id {
                Some(c) => c == component_id,
                None => false,
            };
            if keep {
                out.push(s.local_candidates[k].deep_clone());
                proof {
                    assert(Seq::new(out@.len(), |x: int| out@[x]@) =~~= before.push(
                        sv.local_candidates[k as int],
                    ));
                }
            } else {
                proof {
                    assert(Seq::new(out@.len(), |x: int| out@[x]@) =~~= before);
                }
            }
            k = k + 1;
        }
        proof {
            assert(sv.local_candidates.subrange(0, k as int) =~= sv.local_candidates);
        }
        if out.len() == 0 {
            return None;
        }
        Some(out)
    }

    /// Marks the agent completed once every stream is.
    pub fn set_ice_complete(&mut self)
        ensures
            final(self)@.streams == old(self)@.streams,
            (forall|i: int|
                0 <= i < old(self)@.streams.len() ==> (#[trigger] old(self)@.streams[i]).state
                    == StreamState::Completed) ==> final(self)@.state == IceState::Completed,
            !(forall|i: int|
                0 <= i < old(self)@.streams.len() ==> (#[trigger] old(self)@.streams[i]).state
                    == StreamState::Completed) ==> final(self)@.state == old(self)@.state,
    {
        let mut i: usize = 0;
        while i < self.streams.len()
            invariant
                0 <= i <= self.streams@.len(),
                self@ == old(self)@,
                self@.streams.len() == self.streams@.len(),
                forall|j: int|
                    0 <= j < self@.streams.len() ==> #[trigger] self@.streams[j]
                        == self.streams@[j]@,
                forall|j: int|
                    0 <= j < i ==> (#[trigger] self@.streams[j]).state == StreamState::Completed,
            decreases self.streams@.len() - i,
        {
            let done = match self.streams[i].state {
                StreamState::Completed => true,
                StreamState::Running => false,
            };
            if !done {
                proof {
                    assert(self@.streams[i as int].state != StreamState::Completed);
                }
                return ;
            }
            i = i + 1;
        }
        self.state = IceState::Completed;
        proof {
            assert(final(self)@.streams =~~= old(self)@.streams);
        }
    }
}

/// A gathered host candidate: the interface address, the allocated port,
/// UDP, and the host priority for its component.
pub open spec fn spec_host_candidate(addr: IpAddrV, port: u16, component_id: u16) -> CandidateV {
    CandidateV {
        conn: addr,
        port,
        proto: Proto::Udp,
        foundation: crate::strings::str_bytes(spec_host_foundation_chars()),
        component_id: Some(component_id),
        priority: spec_priority(component_id),
        candidate_type: CandidateType::Host,
        rel_addr: None,
        rel_port: None,
    }
}

/// The fixed foundation string for host candidates.
pub open spec fn spec_host_foundation_chars() -> Seq<char> {
    "deadbeef"@
}

fn host_foundation() -> (r: String)
    ensures
        r@ == spec_host_foundation_chars(),
{
    String::from_str("deadbeef")
}


/// The outcome of feeding one observed pairing into a stream: the stream
/// afterwards, and whether this pairing completed it.
pub open spec fn spec_add_pair(s: StreamV, c: u16, local_port: u16, remote_port: u16) -> (
    StreamV,
    bool,
) {
    if s.state == StreamState::Completed {
        (s, false)
    } else {
        match (
            spec_find_by_port(s.offer_candidates, c, remote_port),
            spec_find_by_port(s.local_candidates, c, local_port),
        ) {
            (Some(peer), Some(local)) => {
                let s1 = StreamV {
                    valid_list: s.valid_list.push(
                        PairCandidateV { local_candidate: local, peer_candidate: peer },
                    ),
                    ..s
                };
                if spec_stream_complete(s1) {
                    (StreamV { state: StreamState::Completed, ..s1 }, true)
                } else {
                    (s1, false)
                }
            },
            _ => (s, false),
        }
    }
}

/// A component has a validated pair exactly when some pair names it.
proof fn lemma_pairs_for_exists(pairs: Seq<PairCandidateV>, c: u16)
    ensures
        pairs_for(pairs, c).len() >= 1 <==> exists|i: int|
            0 <= i < pairs.len() && (#[trigger] pairs[i]).local_candidate.component_id == Some(c),
    decreases pairs.len(),
{
    if pairs.len() > 0 {
        lemma_pairs_for_exists(pairs.drop_last(), c);
        if pairs.last().local_candidate.component_id == Some(c) {
            assert(pairs[pairs.len() - 1].local_candidate.component_id == Some(c));
        } else {
            if exists|i: int|
                0 <= i < pairs.len() && (#[trigger] pairs[i]).local_candidate.component_id
                    == Some(c) {
                let i = choose|i: int|
                    0 <= i < pairs.len() && (#[trigger] pairs[i]).local_candidate.component_id
                        == Some(c);
                assert(pairs.drop_last()[i] == pairs[i]);
            }
        }
    }
}

/// The first pair recorded for a component heads that component's list.
proof fn lemma_pairs_for_first(pairs: Seq<PairCandidateV>, c: u16, i: int)
    requires
        0 <= i < pairs.len(),
        pairs[i].local_candidate.component_id == Some(c),
        forall|j: int| 0 <= j < i ==> pairs[j].local_candidate.component_id != Some(c),
    ensures
        pairs_for(pairs, c).len() >= 1,
        pairs_for(pairs, c)[0] == pairs[i],
    decreases pairs.len(),
{
    if i == pairs.len() - 1 {
        if pairs_for(pairs.drop_last(), c).len() >= 1 {
            lemma_pairs_for_exists(pairs.drop_last(), c);
            let j = choose|j: int|
                0 <= j < pairs.drop_last().len() && (#[trigger] pairs.drop_last()[j]).local_candidate.component_id
                    == Some(c);
            assert(pairs[j].local_candidate.component_id == Some(c));
            assert(false);
        }
    } else {
        lemma_pairs_for_first(pairs.drop_last(), c, i);
    }
}

/// The first candidate of a component on a port, found by scanning.
fn find_by_port(cands: &Vec<Candidate>, c: u16, port: u16) -> (r: Option<usize>)
    ensures
        match r {
            Some(ix) => 0 <= ix < cands@.len() && spec_find_by_port(
                Seq::new(cands@.len(), |i: int| cands@[i]@),
                c,
                port,
            ) == Some(cands@[ix as int]@),
            None => spec_find_by_port(Seq::new(cands@.len(), |i: int| cands@[i]@), c, port)
                is None,
        },
{
    let ghost cv = Seq::new(cands@.len(), |i: int| cands@[i]@);
    let mut j: usize = 0;
    proof {
        assert(cv.skip(0) =~= cv);
    }
    while j < cands.len()
        invariant
            0 <= j <= cands@.len(),
            cv == Seq::new(cands@.len(), |i: int| cands@[i]@),
            cv.len() == cands@.len(),
            forall|i: int| 0 <= i < cv.len() ==> #[trigger] cv[i] == cands@[i]@,
            spec_find_by_port(cv, c, port) == spec_find_by_port(cv.skip(j as int), c, port),
        decreases cands@.len() - j,
    {
        proof {
            assert(cv.skip(j as int)[0] == cv[j as int]);
            assert(cv.skip(j as int).drop_first() =~= cv.skip(j as int + 1));
        }
        let hit = match cands[j].component_id {
            Some(cc) => cc == c && cands[j].port == port,
            None => false,
        };
        if hit {
            return Some(j);
        }
        j = j + 1;
    }
    proof {
        assert(cv.skip(j as int) =~= Seq::<CandidateV>::empty());
    }
    None
}

impl Agent {
    /// Feeds one observed USE-CANDIDATE pairing into a stream: the local and
    /// offered candidates listening on the two ports become a validated
    /// pair. When that gives both components a pair, the stream completes,
    /// and the returned events name the chosen remote candidate of each
    /// component, RTP first. Otherwise no event is returned.
    pub fn add_pair_candidate(
        &mut self,
        stream_id: &str,
        component_id: u16,
        local_port: u16,
        remote_port: u16,
    ) -> (events: Vec<IceEvent>)
        ensures
            final(self)@.state == old(self)@.state,
            match spec_find_stream(old(self)@.streams, stream_id@) {
                Some(i) => {
                    let (s1, fired) = spec_add_pair(
                        old(self)@.streams[i],
                        component_id,
                        local_port,
                        remote_port,
                    );
                    &&& final(self)@.streams == old(self)@.streams.update(i, s1)
                    &&& (fired ==> Seq::new(events@.len(), |k: int| events@[k]@) == seq![
                        IceEventV {
                            stream_id: s1.id,
                            remote: pairs_for(s1.valid_list, RTP_COMPONENT_ID)[0].peer_candidate,
                        },
                        IceEventV {
                            stream_id: s1.id,
                            remote: pairs_for(s1.valid_list, RTCP_COMPONENT_ID)[0].peer_candidate,
                        },
                    ])
                    &&& (!fired ==> events@.len() == 0)
                },
                None => final(self)@ == old(self)@ && events@.len() == 0,
            },
    {
        let ghost old_streams = self@.streams;
        let found = self.find_stream(stream_id);
        if found.is_none() {
            proof {
                lemma_find_stream_none(old_streams, stream_id@);
                assert(final(self)@ =~~= old(self)@);
            }
            return Vec::new();
        }
        let i = found.unwrap();
        proof {
            lemma_find_stream_agrees(old_streams, stream_id@, i as int);
        }
        let ghost sv = old_streams[i as int];
        let completed_already = match self.streams[i].state {
            StreamState::Completed => true,
            StreamState::Running => false,
        };
        if completed_already {
            proof {
                assert(final(self)@.streams =~~= old_streams.update(i as int, sv));
            }
            return Vec::new();
        }
        let peer_ix = find_by_port(&self.streams[i].offer_candidates, component_id, remote_port);
        let local_ix = find_by_port(&self.streams[i].local_candidates, component_id, local_port);
        if peer_ix.is_none() || local_ix.is_none() {
            proof {
                assert(final(self)@.streams =~~= old_streams.update(i as int, sv));
            }
            return Vec::new();
        }
        let mut s = self.streams.remove(i);
        let peer = s.offer_candidates[peer_ix.unwrap()].deep_clone();
        let local = s.local_candidates[local_ix.unwrap()].deep_clone();
        s.valid_list.push(PairCandidate { local_candidate: local, peer_candidate: peer });
        let ghost s1 = StreamV {
            valid_list: sv.valid_list.push(
                PairCandidateV {
                    local_candidate: spec_find_by_port(
                        sv.local_candidates,
                        component_id,
                        local_port,
                    )->0,
                    peer_candidate: spec_find_by_port(
                        sv.offer_candidates,
                        component_id,
                        remote_port,
                    )->0,
                },
            ),
            ..sv
        };
        proof {
            assert(s@ =~~= s1);
        }
        let rtp_ready = pairs_exist(&s.valid_list, RTP_COMPONENT_ID);
        let rtcp_ready = pairs_exist(&s.valid_list, RTCP_COMPONENT_ID);
        if rtp_ready && rtcp_ready {
            s.state = StreamState::Completed;
            let rtp_first = first_pair_ix(&s.valid_list, RTP_COMPONENT_ID);
            let rtcp_first = first_pair_ix(&s.valid_list, RTCP_COMPONENT_ID);
            let mut events: Vec<IceEvent> = Vec::new();
            events.push(
                IceEvent {
                    stream_id: s.id.clone(),
                    remote: s.valid_list[rtp_first].peer_candidate.deep_clone(),
                },
            );
            events.push(
                IceEvent {
                    stream_id: s.id.clone(),
                    remote: s.valid_list[rtcp_first].peer_candidate.deep_clone(),
                },
            );
            proof {
                assert(s@ =~~= StreamV { state: StreamState::Completed, ..s1 });
            }
            self.streams.insert(i, s);
            proof {
                let s2 = StreamV { state: StreamState::Completed, ..s1 };
                assert(spec_stream_complete(s1));
                assert(final(self)@.streams =~~= old_streams.update(i as int, s2));
                assert(Seq::new(events@.len(), |k: int| events@[k]@) =~~= seq![
                    IceEventV {
                        stream_id: s2.id,
                        remote: pairs_for(s2.valid_list, RTP_COMPONENT_ID)[0].peer_candidate,
                    },
                    IceEventV {
                        stream_id: s2.id,
                        remote: pairs_for(s2.valid_list, RTCP_COMPONENT_ID)[0].peer_candidate,
                    },
                ]);
            }
            events
        } else {
            proof {
                lemma_pairs_for_exists(s1.valid_list, RTP_COMPONENT_ID);
                lemma_pairs_for_exists(s1.valid_list, RTCP_COMPONENT_ID);
                assert(!spec_stream_complete(s1));
            }
            self.streams.insert(i, s);
            proof {
                assert(final(self)@.streams =~~= old_streams.update(i as int, s1));
            }
            Vec::new()
        }
    }
}

/// Whether some validated pair serves the component.
fn pairs_exist(pairs: &Vec<PairCandidate>, c: u16) -> (r: bool)
    ensures
        r == (pairs_for(Seq::new(pairs@.len(), |i: int| pairs@[i]@), c).len() >= 1),
{
    let ghost pv = Seq::new(pairs@.len(), |i: int| pairs@[i]@);
    proof {
        lemma_pairs_for_exists(pv, c);
    }
    let mut j: usize = 0;
    while j < pairs.len()
        invariant
            0 <= j <= pairs@.len(),
            pv == Seq::new(pairs@.len(), |i: int| pairs@[i]@),
            pv.len() == pairs@.len(),
            forall|i: int| 0 <= i < pv.len() ==> #[trigger] pv[i] == pairs@[i]@,
            forall|i: int| 0 <= i < j ==> pv[i].local_candidate.component_id != Some(c),
            pairs_for(pv, c).len() >= 1 <==> exists|i: int|
                0 <= i < pv.len() && (#[trigger] pv[i]).local_candidate.component_id == Some(c),
        decreases pairs@.len() - j,
    {
        let hit = match pairs[j].local_candidate.component_id {
            Some(cc) => cc == c,
            None => false,
        };
        if hit {
            proof {
                assert(pv[j as int].local_candidate.component_id == Some(c));
            }
            return true;
        }
        j = j + 1;
    }
    false
}

/// The position of the first validated pair of the component.
fn first_pair_ix(pairs: &Vec<PairCandidate>, c: u16) -> (r: usize)
    requires
        pairs_for(Seq::new(pairs@.len(), |i: int| pairs@[i]@), c).len() >= 1,
    ensures
        0 <= r < pairs@.len(),
        pairs@[r as int]@ == pairs_for(Seq::new(pairs@.len(), |i: int| pairs@[i]@), c)[0],
{
    let ghost pv = Seq::new(pairs@.len(), |i: int| pairs@[i]@);
    let mut j: usize = 0;
    proof {
        lemma_pairs_for_exists(pv, c);
    }
    while j < pairs.len()
        invariant
            0 <= j <= pairs@.len(),
            pv == Seq::new(pairs@.len(), |i: int| pairs@[i]@),
            pv.len() == pairs@.len(),
            forall|i: int| 0 <= i < pv.len() ==> #[trigger] pv[i] == pairs@[i]@,
            forall|i: int| 0 <= i < j ==> pv[i].local_candidate.component_id != Some(c),
            pairs_for(pv, c).len() >= 1,
        decreases pairs@.len() - j,
    {
        let hit = match pairs[j].local_candidate.component_id {
            Some(cc) => cc == c,
            None => false,
        };
        if hit {
            proof {
                lemma_pairs_for_first(pv, c, j as int);
            }
            return j;
        }
        j = j + 1;
    }
    proof {
        lemma_pairs_for_exists(pv, c);
        assert(false);
    }
    0
}


} // verus!
