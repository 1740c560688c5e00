//! The per-member session: the SDP offer, its negotiated answer, and the ICE
//! binding between media lines and agent streams.
//!
//! Stream ids are recorded in media-line order: the k-th entry of
//! `sdp_to_ice` belongs to the k-th `m=` line of the offer and of the
//! answer, and every later per-stream step keys off that position.

use vstd::prelude::*;
use crate::addr::IpAddr;
use crate::addr::IpAddrV;
use crate::ice::{
    Agent, Candidate, CandidateV, PortAllocator, RTP_COMPONENT_ID, RTCP_COMPONENT_ID, StreamState,
    StreamV, cands_for, lemma_find_stream_agrees, spec_find_stream, spec_host_candidate,
};
use crate::negotiate::negotiate_with;
use crate::sdp::{Attr, AttrV, CandidateValue, SessionDescription};

verus! {

/// What the media plane needs to open one stream's sockets: the stream id
/// and the local RTP and RTCP candidates to bind.
pub struct MediaBinding {
    pub stream_id: String,
    pub rtp: Candidate,
    pub rtcp: Candidate,
}

#[verifier::ext_equal]
pub struct MediaBindingV {
    pub stream_id: Seq<char>,
    pub rtp: CandidateV,
    pub rtcp: CandidateV,
}

impl View for MediaBinding {
    type V = MediaBindingV;

    open spec fn view(&self) -> MediaBindingV {
        MediaBindingV { stream_id: self.stream_id@, rtp: self.rtp@, rtcp: self.rtcp@ }
    }
}

/// Pairwise distinct stream ids.
pub open spec fn distinct_ids(ids: Seq<Seq<char>>) -> bool {
    forall|i: int, j: int| 0 <= i < j < ids.len() ==> #[trigger] ids[i] != #[trigger] ids[j]
}

proof fn lemma_distinct_prefix(ids: Seq<Seq<char>>, x: Seq<char>)
    requires
        distinct_ids(ids.push(x)),
    ensures
        distinct_ids(ids),
        forall|k: int| 0 <= k < ids.len() ==> ids[k] != x,
{
    let p = ids.push(x);
    assert forall|i: int, j: int| 0 <= i < j < ids.len() implies #[trigger] ids[i] != #[trigger] ids[j] by {
        assert(p[i] == ids[i] && p[j] == ids[j]);
    }
    assert forall|k: int| 0 <= k < ids.len() implies ids[k] != x by {
        assert(p[k] == ids[k] && p[ids.len() as int] == x);
    }
}

/// The candidates a media line offers through its candidate attributes,
/// in order; a candidate naming no component is passed over.
pub open spec fn offered_candidates(attrs: Seq<crate::sdp::AttrV>) -> Seq<CandidateV>
    decreases attrs.len(),
{
    if attrs.len() == 0 {
        Seq::empty()
    } else {
        let rest = offered_candidates(attrs.drop_last());
        match attrs.last() {
            crate::sdp::AttrV::Candidate(c) => if c.component_id is Some {
                rest.push(c)
            } else {
                rest
            },
            _ => rest,
        }
    }
}

/// The stream one media line yields after the offer was processed: running,
/// with the line's offered candidates and the gathered local pair.
pub open spec fn spec_offer_stream(
    id: Seq<char>,
    m: crate::sdp::MediaDescriptionV,
    local: Seq<CandidateV>,
) -> StreamV {
    StreamV {
        id,
        state: StreamState::Running,
        offer_candidates: offered_candidates(m.attrs),
        local_candidates: local,
        valid_list: Seq::empty(),
    }
}

/// The local candidates one media line's gathering yields: the host pair on
/// successive ports, or nothing when no address was given.
pub open spec fn spec_locals(addr: Option<IpAddrV>, p: int) -> Seq<CandidateV>
    recommends
        0 <= p,
        p + 1 <= u16::MAX,
{
    match addr {
        Some(a) => seq![
            spec_host_candidate(a, p as u16, RTP_COMPONENT_ID),
            spec_host_candidate(a, (p + 1) as u16, RTCP_COMPONENT_ID),
        ],
        None => Seq::empty(),
    }
}

pub struct Session {
    pub offer_sdp: SessionDescription,
    pub base_sdp: Option<SessionDescription>,
    pub answer_sdp: Option<SessionDescription>,
    pub ice: Agent,
    pub sdp_to_ice: Vec<String>,
}

impl Session {
    /// A session holding an offer, before any negotiation.
    pub fn new(offer_sdp: SessionDescription) -> (r: Session)
        ensures
            r.offer_sdp@ == offer_sdp@,
            r.base_sdp is None,
            r.answer_sdp is None,
            r.ice@.streams.len() == 0,
            r.sdp_to_ice@.len() == 0,
    {
        Session {
            offer_sdp,
            base_sdp: None,
            answer_sdp: None,
            ice: Agent::new(),
            sdp_to_ice: Vec::new(),
        }
    }

    /// ICE support is assumed of every offer.
    pub fn ice_support() -> (r: bool)
        ensures
            r,
    {
        true
    }

    /// Opens one agent stream per media line of the offer, in order,
    /// gathering local RTP and RTCP candidates for each and ingesting the
    /// candidates the offer advertises. The k-th recorded stream id belongs
    /// to the k-th media line: whenever the randomly drawn ids are pairwise
    /// distinct (which nothing can promise outright) and the port space
    /// suffices, the agent ends up with exactly one stream per media line,
    /// in order, holding that line's offered candidates and the gathered
    /// host candidate pair.
    pub fn process_offer(&mut self, local_addr: Option<&IpAddr>, ports: &mut PortAllocator)
        requires
            old(self).sdp_to_ice@.len() == 0,
            old(self).ice@.streams.len() == 0,
        ensures
            final(self).offer_sdp == old(self).offer_sdp,
            final(self).base_sdp == old(self).base_sdp,
            final(self).answer_sdp == old(self).answer_sdp,
            final(self).ice@.state == old(self).ice@.state,
            final(self).sdp_to_ice@.len() == old(self).offer_sdp@.media.len(),
            local_addr is None ==> *final(ports) == *old(ports),
            (local_addr is Some && old(ports).next_port + 2 * old(self).offer_sdp@.media.len()
                <= u16::MAX && distinct_ids(
                Seq::new(final(self).sdp_to_ice@.len(), |k: int| final(self).sdp_to_ice@[k]@),
            )) ==> final(ports).next_port == old(ports).next_port + 2 * old(
                self,
            ).offer_sdp@.media.len(),
            ((local_addr is None || old(ports).next_port + 2 * old(self).offer_sdp@.media.len()
                <= u16::MAX) && distinct_ids(
                Seq::new(final(self).sdp_to_ice@.len(), |k: int| final(self).sdp_to_ice@[k]@),
            )) ==> final(self).ice@.streams == Seq::new(
                old(self).offer_sdp@.media.len(),
                |k: int|
                    spec_offer_stream(
                        final(self).sdp_to_ice@[k]@,
                        old(self).offer_sdp@.media[k],
                        spec_locals(
                            match local_addr {
                                Some(a) => Some(a@),
                                None => None,
                            },
                            old(ports).next_port + 2 * k,
                        ),
                    ),
            ),
    {
        let n = self.offer_sdp.media.len();
        let mut i: usize = 0;
        let ghost p0 = ports.next_port;
        let ghost offer = self.offer_sdp@;
        let ghost av = match local_addr {
            Some(a) => Some(a@),
            None => None,
        };
        while i < n
            invariant
                0 <= i <= n,
                n == self.offer_sdp.media@.len(),
                offer == self.offer_sdp@,
                offer.media.len() == n,
                av == (match local_addr {
                    Some(a) => Some(a@),
                    None => None,
                }),
                self.offer_sdp == old(self).offer_sdp,
                self.base_sdp == old(self).base_sdp,
                self.answer_sdp == old(self).answer_sdp,
                self.ice@.state == old(self).ice@.state,
                self.sdp_to_ice@.len() == i,
                p0 == old(ports).next_port,
                local_addr is None ==> *ports == *old(ports),
                (local_addr is Some && p0 + 2 * n <= u16::MAX && distinct_ids(
                    Seq::new(i as nat, |k: int| self.sdp_to_ice@[k]@),
                )) ==> ports.next_port == p0 + 2 * i,
                ((local_addr is None || p0 + 2 * n <= u16::MAX) && distinct_ids(
                    Seq::new(i as nat, |k: int| self.sdp_to_ice@[k]@),
                )) ==> self.ice@.streams == Seq::new(
                    i as nat,
                    |k: int|
                        spec_offer_stream(
                            self.sdp_to_ice@[k]@,
                            offer.media[k],
                            spec_locals(av, p0 + 2 * k),
                        ),
                ),
            decreases n - i,
        {
            let ghost pre_streams = self.ice@.streams;
            let ghost pre_ids = Seq::new(i as nat, |k: int| self.sdp_to_ice@[k]@);
            let ghost hp = local_addr is None || p0 + 2 * n <= u16::MAX;
            let stream_id = self.ice.add_stream();
            let ghost sid = stream_id@;
            let ghost streams1 = self.ice@.streams;
            proof {
                if hp && distinct_ids(pre_ids.push(sid)) {
                    lemma_distinct_prefix(pre_ids, sid);
                    assert forall|x: int| 0 <= x < pre_streams.len() implies (
                    #[trigger] pre_streams[x]).id != sid by {
                        assert(pre_streams[x].id == pre_ids[x]);
                    }
                    assert(streams1 =~~= pre_streams.push(crate::ice::spec_fresh_stream(sid)));
                    lemma_find_stream_agrees(streams1, sid, i as int);
                }
            }
            let ghost pb1 = ports.next_port;
            self.ice.gather_candidates(stream_id.as_str(), RTP_COMPONENT_ID, local_addr, ports);
            let ghost streams2 = self.ice@.streams;
            proof {
                if hp && distinct_ids(pre_ids.push(sid)) {
                    assert(streams2[i as int].id == streams1[i as int].id);
                    assert forall|x: int| 0 <= x < i implies (#[trigger] streams2[x]).id
                        != sid by {
                        assert(streams2[x].id == streams1[x].id);
                        assert(streams1[x].id == pre_ids[x]);
                    }
                    lemma_find_stream_agrees(streams2, sid, i as int);
                }
            }
            let ghost pb2 = ports.next_port;
            self.ice.gather_candidates(stream_id.as_str(), RTCP_COMPONENT_ID, local_addr, ports);
            self.sdp_to_ice.push(stream_id.clone());
            let ghost ids1 = Seq::new(i as nat + 1, |k: int| self.sdp_to_ice@[k]@);
            let ghost mid_streams = self.ice@.streams;
            proof {
                assert(ids1.drop_last() =~~= pre_ids);
                assert(ids1.last() == sid);
                if hp && distinct_ids(ids1) {
                    lemma_distinct_prefix(pre_ids, sid);
                    match local_addr {
                        Some(a) => {
                            assert(mid_streams == streams2.update(
                                i as int,
                                StreamV {
                                    local_candidates: streams2[i as int].local_candidates.push(
                                        crate::ice::spec_host_candidate(
                                            a@,
                                            (p0 + 2 * i + 1) as u16,
                                            RTCP_COMPONENT_ID,
                                        ),
                                    ),
                                    ..streams2[i as int]
                                },
                            ));
                            assert(mid_streams[i as int].local_candidates =~~= spec_locals(
                                av,
                                p0 + 2 * i,
                            ));
                        },
                        None => {
                            assert(mid_streams == streams2);
                            assert(mid_streams[i as int].local_candidates =~~= spec_locals(
                                av,
                                p0 + 2 * i,
                            ));
                        },
                    }
                    assert(mid_streams.len() == i + 1);
                    assert(mid_streams[i as int].id == sid);
                    assert(mid_streams[i as int].state == StreamState::Running);
                    assert(mid_streams[i as int].offer_candidates =~~= Seq::<CandidateV>::empty());
                    assert(mid_streams[i as int].valid_list =~~= Seq::<
                        crate::ice::PairCandidateV,
                    >::empty());
                    assert forall|x: int| 0 <= x < i implies #[trigger] mid_streams[x]
                        == spec_offer_stream(
                        ids1[x],
                        offer.media[x],
                        spec_locals(av, p0 + 2 * x),
                    ) by {
                        assert(mid_streams[x] == streams2[x]);
                        assert(streams2[x] == streams1[x]);
                        assert(streams1[x] == pre_streams[x]);
                        assert(pre_streams[x] == spec_offer_stream(
                            pre_ids[x],
                            offer.media[x],
                            spec_locals(av, p0 + 2 * x),
                        ));
                        assert(ids1[x] == pre_ids[x]);
                    }
                }
            }
            let attrs_len = self.media_attrs_len(i);
            let mut j: usize = 0;
            proof {
                if hp && distinct_ids(ids1) {
                    assert(offer.media[i as int].attrs.take(0) =~= Seq::<AttrV>::empty());
                    assert(self.ice@.streams =~~= mid_streams.update(
                        i as int,
                        StreamV {
                            offer_candidates: offered_candidates(
                                offer.media[i as int].attrs.take(0),
                            ),
                            ..mid_streams[i as int]
                        },
                    ));
                }
            }
            while j < attrs_len
                invariant
                    0 <= j <= attrs_len,
                    0 <= i < offer.media.len(),
                    i < n,
                    n == self.offer_sdp.media@.len(),
                    offer == self.offer_sdp@,
                    attrs_len == offer.media[i as int].attrs.len(),
                    self.offer_sdp == old(self).offer_sdp,
                    self.base_sdp == old(self).base_sdp,
                    self.answer_sdp == old(self).answer_sdp,
                    self.ice@.state == old(self).ice@.state,
                    self.sdp_to_ice@.len() == i + 1,
                    sid == self.sdp_to_ice@[i as int]@,
                    sid == stream_id@,
                    ids1 == Seq::new(i as nat + 1, |k: int| self.sdp_to_ice@[k]@),
                    *ports == *final(ports) || true,
                    local_addr is None ==> *ports == *old(ports),
                    (local_addr is Some && p0 + 2 * n <= u16::MAX && distinct_ids(ids1))
                        ==> ports.next_port == p0 + 2 * i + 2,
                    p0 == old(ports).next_port,
                    hp == (local_addr is None || p0 + 2 * n <= u16::MAX),
                    av == (match local_addr {
                        Some(a) => Some(a@),
                        None => None,
                    }),
                    (hp && distinct_ids(ids1)) ==> mid_streams.len() == i + 1 && (forall|x: int|
                        0 <= x < i + 1 ==> (#[trigger] mid_streams[x]).id == ids1[x]),
                    (hp && distinct_ids(ids1)) ==> self.ice@.streams == mid_streams.update(
                        i as int,
                        StreamV {
                            offer_candidates: offered_candidates(
                                offer.media[i as int].attrs.take(j as int),
                            ),
                            ..mid_streams[i as int]
                        },
                    ),
                decreases attrs_len - j,
            {
                let attr = &self.offer_sdp.media[i].attrs[j];
                let ghost pre = self.ice@.streams;
                proof {
                    let ta = offer.media[i as int].attrs.take(j as int + 1);
                    assert(ta.drop_last() =~= offer.media[i as int].attrs.take(j as int));
                    assert(ta.last() == offer.media[i as int].attrs[j as int]);
                    assert(offer.media[i as int].attrs[j as int] == attr@);
                    if hp && distinct_ids(ids1) {
                        assert(pre.len() == i + 1);
                        assert(pre[i as int].id == sid);
                        assert forall|x: int| 0 <= x < i implies (#[trigger] pre[x]).id != sid by {
                            assert(pre[x].id == mid_streams[x].id);
                            assert(mid_streams[x].id == ids1[x]);
                        }
                        lemma_find_stream_agrees(pre, sid, i as int);
                    }
                }
                match attr {
                    Attr::Candidate(c) => {
                        match c.ice_candidate.component_id {
                            Some(comp) => {
                                let cand = c.ice_candidate.deep_clone();
                                self.ice.add_offer_candidate(stream_id.as_str(), comp, cand);
                                proof {
                                    if hp && distinct_ids(ids1) {
                                        assert(pre[i as int].id == sid);
                                        assert forall|x: int| 0 <= x < i implies (
                                        #[trigger] pre[x]).id != sid by {
                                            assert(pre[x].id == mid_streams[x].id);
                                            assert(mid_streams[x].id == ids1[x]);
                                        }
                                        lemma_find_stream_agrees(pre, sid, i as int);
                                        let cv = c.ice_candidate@;
                                        let ta = offer.media[i as int].attrs.take(j as int + 1);
                                        assert(CandidateV { component_id: Some(comp), ..cv }
                                            =~~= cv);
                                        assert(cand@ == cv);
                                        assert(ta.last() == AttrV::Candidate(cv));
                                        assert(cv.component_id == Some(comp));
                                        assert(offered_candidates(ta) == offered_candidates(
                                            ta.drop_last(),
                                        ).push(cv));
                                        assert(pre[i as int] == StreamV {
                                            offer_candidates: offered_candidates(
                                                offer.media[i as int].attrs.take(j as int),
                                            ),
                                            ..mid_streams[i as int]
                                        });
                                        let pi = pre[i as int];
                                        assert(pi.offer_candidates.push(cv) =~~= offered_candidates(
                                            ta,
                                        ));
                                        assert(spec_find_stream(pre, sid) == Some(i as int));
                                        assert(match spec_find_stream(pre, stream_id@) {
                                            Some(ii) => self.ice@.streams == pre.update(
                                                ii,
                                                StreamV {
                                                    offer_candidates: pre[
                                                        ii
                                                    ].offer_candidates.push(
                                                        CandidateV {
                                                            component_id: Some(comp),
                                                            ..cand@
                                                        },
                                                    ),
                                                    ..pre[ii]
                                                },
                                            ),
                                            None => true,
                                        });
                                        assert(cand@ == cv);
                                        assert(CandidateV { component_id: Some(comp), ..cand@ }
                                            =~~= cv);
                                        assert(StreamV {
                                            offer_candidates: pi.offer_candidates.push(
                                                CandidateV { component_id: Some(comp), ..cand@ },
                                            ),
                                            ..pi
                                        } =~~= StreamV {
                                            offer_candidates: pi.offer_candidates.push(cv),
                                            ..pi
                                        });
                                        assert(match spec_find_stream(pre, stream_id@) {
                                            Some(ii) => self.ice@.streams == pre.update(
                                                ii,
                                                StreamV {
                                                    offer_candidates: pre[
                                                        ii
                                                    ].offer_candidates.push(cv),
                                                    ..pre[ii]
                                                },
                                            ),
                                            None => true,
                                        });
                                        assert(stream_id@ == sid);
                                        assert(spec_find_stream(pre, stream_id@) == Some(
                                            i as int,
                                        ));
                                        assert(self.ice@.streams == pre.update(
                                            i as int,
                                            StreamV {
                                                offer_candidates: pre[
                                                    i as int
                                                ].offer_candidates.push(cv),
                                                ..pre[i as int]
                                            },
                                        ));
                                        assert(self.ice@.streams =~~= mid_streams.update(
                                            i as int,
                                            StreamV {
                                                offer_candidates: offered_candidates(ta),
                                                ..mid_streams[i as int]
                                            },
                                        ));
                                    }
                                }
                            },
                            None => {
                                proof {
                                    if hp && distinct_ids(ids1) {
                                        assert(self.ice@.streams =~~= mid_streams.update(
                                            i as int,
                                            StreamV {
                                                offer_candidates: offered_candidates(
                                                    offer.media[i as int].attrs.take(j as int + 1),
                                                ),
                                                ..mid_streams[i as int]
                                            },
                                        ));
                                    }
                                }
                            },
                        }
                    },
                    _ => {
                        proof {
                            if hp && distinct_ids(ids1) {
                                assert(self.ice@.streams =~~= mid_streams.update(
                                    i as int,
                                    StreamV {
                                        offer_candidates: offered_candidates(
                                            offer.media[i as int].attrs.take(j as int + 1),
                                        ),
                                        ..mid_streams[i as int]
                                    },
                                ));
                            }
                        }
                    },
                }
                j = j + 1;
            }
            proof {
                if hp && distinct_ids(ids1) {
                    let full = offer.media[i as int].attrs;
                    assert(full.take(attrs_len as int) =~= full);
                    assert(self.ice@.streams =~~= Seq::new(
                        i as nat + 1,
                        |k: int|
                            spec_offer_stream(
                                ids1[k],
                                offer.media[k],
                                spec_locals(av, p0 + 2 * k),
                            ),
                    ));
                }
            }
            i = i + 1;
        }
        proof {
            assert(Seq::new(n as nat, |k: int| self.sdp_to_ice@[k]@) =~~= Seq::new(
                final(self).sdp_to_ice@.len(),
                |k: int| final(self).sdp_to_ice@[k]@,
            ));
        }
    }

    /// The number of attributes of the i-th media line of the offer.
    fn media_attrs_len(&self, i: usize) -> (r: usize)
        requires
            i < self.offer_sdp.media@.len(),
        ensures
            r == self.offer_sdp.media@[i as int].attrs@.len(),
    {
        self.offer_sdp.media[i].attrs.len()
    }

    /// Computes the answer to the stored offer, against the given base when
    /// one exists, and stores both.
    pub fn negotiate_with_base_sdp(&mut self, base_sdp: Option<&SessionDescription>)
        ensures
            final(self).offer_sdp == old(self).offer_sdp,
            final(self).sdp_to_ice == old(self).sdp_to_ice,
            final(self).ice@ == old(self).ice@,
            match base_sdp {
                Some(b) => final(self).base_sdp matches Some(s) && s@ == b@,
                None => final(self).base_sdp is None,
            },
            final(self).answer_sdp matches Some(a) && (match base_sdp {
                Some(b) => exists|uf: Seq<u8>, pw: Seq<u8>|
                    crate::negotiate::credential_bytes(uf) && crate::negotiate::credential_bytes(
                        pw,
                    ) && a@ == #[trigger] crate::negotiate::spec_negotiated(
                        Some(b@),
                        old(self).offer_sdp@,
                        uf,
                        pw,
                    ),
                None => exists|uf: Seq<u8>, pw: Seq<u8>|
                    crate::negotiate::credential_bytes(uf) && crate::negotiate::credential_bytes(
                        pw,
                    ) && a@ == #[trigger] crate::negotiate::spec_negotiated(
                        None,
                        old(self).offer_sdp@,
                        uf,
                        pw,
                    ),
            }),
    {
        let answer = match base_sdp {
            Some(b) => negotiate_with(Some(b), &self.offer_sdp),
            None => negotiate_with(None, &self.offer_sdp),
        };
        self.base_sdp = match base_sdp {
            Some(b) => Some(b.deep_clone()),
            None => None,
        };
        self.answer_sdp = Some(answer);
    }

    /// Appends the gathered local candidates of the k-th stream to the k-th
    /// media line of the answer (RTP then RTCP, in gathering order), returns
    /// one binding per media line whose stream gathered candidates for both
    /// components (carrying that stream's first RTP and RTCP candidates, in
    /// media-line order), and points the answer's session connection at the
    /// first bound candidate. A media line whose stream id is unknown, or
    /// whose stream lacks a component, is passed over.
    #[verifier::rlimit(100)]
    pub fn process_answer(&mut self) -> (bindings: Vec<MediaBinding>)
        requires
            old(self).answer_sdp is Some,
        ensures
            final(self).offer_sdp == old(self).offer_sdp,
            final(self).base_sdp == old(self).base_sdp,
            final(self).ice@ == old(self).ice@,
            final(self).sdp_to_ice == old(self).sdp_to_ice,
            Seq::new(bindings@.len(), |i: int| bindings@[i]@) == spec_bindings(
                old(self).ice@.streams,
                Seq::new(final(self).sdp_to_ice@.len(), |k: int| final(self).sdp_to_ice@[k]@),
                old(self).answer_sdp->0@.media.len() as int,
            ),
            final(self).answer_sdp matches Some(a) && {
                let a0 = old(self).answer_sdp->0;
                let n = final(self).sdp_to_ice@.len();
                &&& a@.ver == a0@.ver
                &&& a@.origin == a0@.origin
                &&& a@.name == a0@.name
                &&& a@.info == a0@.info
                &&& a@.uri == a0@.uri
                &&& a@.timing == a0@.timing
                &&& a@.attrs == a0@.attrs
                &&& a@.media.len() == a0@.media.len()
                &&& (forall|k: int|
                    0 <= k < a@.media.len() ==> (#[trigger] a@.media[k]).media == a0@.media[k].media
                        && a@.media[k].attrs == a0@.media[k].attrs + (if k < n {
                        spec_media_gain(
                            old(self).ice@.streams,
                            final(self).sdp_to_ice@[k]@,
                        )
                    } else {
                        Seq::<crate::sdp::AttrV>::empty()
                    }))
                &&& a@.conn == (if a0@.media.len() > 0 && a0@.conn is Some
                    && spec_first_candidate(a@.media[0].attrs) is Some {
                    Some(
                        crate::sdp::ConnectionV {
                            net_type: a0@.conn->0.net_type,
                            addr_type: a0@.conn->0.addr_type,
                            ip_address: spec_first_candidate(a@.media[0].attrs)->0.conn,
                            ttl: a0@.conn->0.ttl,
                            nr_addrs: a0@.conn->0.nr_addrs,
                        },
                    )
                } else {
                    a0@.conn
                })
            },
    {
        let mut bindings: Vec<MediaBinding> = Vec::new();
        let n = self.sdp_to_ice.len();
        let mut answer = self.answer_sdp.take().unwrap();
        let ghost a0 = old(self).answer_sdp->0@;
        let ghost ice0 = old(self).ice@;
        let ghost ids = Seq::new(n as nat, |k: int| self.sdp_to_ice@[k]@);
        let mut k: usize = 0;
        proof {
            assert(answer@ =~~= a0);
            assert(ids.take(0) =~= Seq::<Seq<char>>::empty());
        }
        while k < n
            invariant
                0 <= k <= n,
                n == self.sdp_to_ice@.len(),
                self.offer_sdp == old(self).offer_sdp,
                self.base_sdp == old(self).base_sdp,
                self.ice@ == ice0,
                self.sdp_to_ice == old(self).sdp_to_ice,
                self.answer_sdp is None,
                ids == Seq::new(n as nat, |j: int| self.sdp_to_ice@[j]@),
                answer@.ver == a0.ver,
                answer@.origin == a0.origin,
                answer@.name == a0.name,
                answer@.info == a0.info,
                answer@.uri == a0.uri,
                answer@.conn == a0.conn,
                answer@.timing == a0.timing,
                answer@.attrs == a0.attrs,
                answer@.media.len() == a0.media.len(),
                Seq::new(bindings@.len(), |i: int| bindings@[i]@) == spec_bindings(
                    ice0.streams,
                    ids.take(k as int),
                    a0.media.len() as int,
                ),
                forall|j: int|
                    k <= j < a0.media.len() ==> #[trigger] answer@.media[j] == a0.media[j],
                forall|j: int|
                    0 <= j < k && j < a0.media.len() ==> (#[trigger] answer@.media[j]).media
                        == a0.media[j].media && answer@.media[j].attrs == a0.media[j].attrs
                        + spec_media_gain(ice0.streams, ids[j]),
            decreases n - k,
        {
            proof {
                assert(ids.take(k as int + 1).drop_last() =~= ids.take(k as int));
                assert(ids.take(k as int + 1).last() == ids[k as int]);
            }
            if k >= answer.media.len() {
                k = k + 1;
                continue ;
            }
            let sid = self.sdp_to_ice[k].clone();
            let rtp_cands = self.ice.get_stream_candidates(sid.as_str(), RTP_COMPONENT_ID);
            let rtcp_cands = self.ice.get_stream_candidates(sid.as_str(), RTCP_COMPONENT_ID);
            match (rtp_cands, rtcp_cands) {
                (Some(rtp), Some(rtcp)) => {
                    let ghost am0 = answer@.media;
                    let ghost si = spec_find_stream(ice0.streams, ids[k as int])->0;
                    let ghost strm = ice0.streams[si];
                    let ghost all = cands_for(strm.local_candidates, RTP_COMPONENT_ID) + cands_for(
                        strm.local_candidates,
                        RTCP_COMPONENT_ID,
                    );
                    let mut md = answer.media.remove(k);
                    let ghost md0 = md@;
                    append_candidates(&mut md, &rtp, &rtcp);
                    proof {
                        assert(Seq::new(rtp@.len(), |i: int| rtp@[i]@) + Seq::new(
                            rtcp@.len(),
                            |i: int| rtcp@[i]@,
                        ) =~~= all);
                        assert(spec_media_gain(ice0.streams, ids[k as int])
                            == attrs_of_candidates(all));
                    }
                    answer.media.insert(k, md);
                    let ghost bv0 = Seq::new(bindings@.len(), |i: int| bindings@[i]@);
                    bindings.push(
                        MediaBinding {
                            stream_id: sid,
                            rtp: rtp[0].deep_clone(),
                            rtcp: rtcp[0].deep_clone(),
                        },
                    );
                    proof {
                        assert(md0 == am0[k as int]);
                        assert(answer@.media =~~= am0.update(
                            k as int,
                            crate::sdp::MediaDescriptionV {
                                media: md0.media,
                                attrs: md0.attrs + attrs_of_candidates(all),
                            },
                        ));
                        assert(Seq::new(bindings@.len(), |i: int| bindings@[i]@) =~~= bv0
                            + spec_binding_of(ice0.streams, ids[k as int]));
                        assert(Seq::new(bindings@.len(), |i: int| bindings@[i]@)
                            =~~= spec_bindings(
                            ice0.streams,
                            ids.take(k as int + 1),
                            a0.media.len() as int,
                        ));
                    }
                },
                _ => {
                    proof {
                        assert(spec_media_gain(ice0.streams, ids[k as int]) =~= Seq::<
                            crate::sdp::AttrV,
                        >::empty());
                        assert(answer@.media[k as int].attrs =~= a0.media[k as int].attrs
                            + spec_media_gain(ice0.streams, ids[k as int]));
                        assert(spec_binding_of(ice0.streams, ids[k as int]) =~~= Seq::<
                            MediaBindingV,
                        >::empty());
                        assert(Seq::new(bindings@.len(), |i: int| bindings@[i]@)
                            =~~= spec_bindings(
                            ice0.streams,
                            ids.take(k as int + 1),
                            a0.media.len() as int,
                        ));
                    }
                },
            }
            k = k + 1;
        }
        proof {
            assert(ids.take(k as int) =~= ids);
        }
        // the session-level connection follows the first bound candidate
        if answer.media.len() > 0 && answer.conn.is_some() {
            match first_candidate_attr(&answer.media[0].attrs) {
                Some(c) => {
                    let mut conn = answer.conn.take().unwrap();
                    conn.ip_address = c.conn;
                    answer.conn = Some(conn);
                },
                None => {},
            }
        }
        self.answer_sdp = Some(answer);
        bindings
    }
}

/// The candidate attributes the k-th media line gains: its stream's RTP and
/// RTCP candidates, when the stream is known and both components gathered.
pub open spec fn spec_media_gain(streams: Seq<crate::ice::StreamV>, id: Seq<char>) -> Seq<
    crate::sdp::AttrV,
> {
    match spec_find_stream(streams, id) {
        Some(si) => {
            let rtp = cands_for(streams[si].local_candidates, RTP_COMPONENT_ID);
            let rtcp = cands_for(streams[si].local_candidates, RTCP_COMPONENT_ID);
            if rtp.len() > 0 && rtcp.len() > 0 {
                attrs_of_candidates(rtp + rtcp)
            } else {
                Seq::empty()
            }
        },
        None => Seq::empty(),
    }
}

/// The binding one media line yields: its stream's first RTP and RTCP
/// candidates, when both components gathered; nothing otherwise.
pub open spec fn spec_binding_of(streams: Seq<crate::ice::StreamV>, id: Seq<char>) -> Seq<
    MediaBindingV,
> {
    match spec_find_stream(streams, id) {
        Some(si) => {
            let rtp = cands_for(streams[si].local_candidates, RTP_COMPONENT_ID);
            let rtcp = cands_for(streams[si].local_candidates, RTCP_COMPONENT_ID);
            if rtp.len() > 0 && rtcp.len() > 0 {
                seq![MediaBindingV { stream_id: id, rtp: rtp[0], rtcp: rtcp[0] }]
            } else {
                Seq::empty()
            }
        },
        None => Seq::empty(),
    }
}

/// The bindings of the first `mlen` recorded streams, in media-line order.
pub open spec fn spec_bindings(
    streams: Seq<crate::ice::StreamV>,
    ids: Seq<Seq<char>>,
    mlen: int,
) -> Seq<MediaBindingV>
    decreases ids.len(),
{
    if ids.len() == 0 {
        Seq::empty()
    } else {
        spec_bindings(streams, ids.drop_last(), mlen) + (if ids.len() - 1 < mlen {
            spec_binding_of(streams, ids.last())
        } else {
            Seq::empty()
        })
    }
}

/// The first candidate attribute of a list, if any.
pub open spec fn spec_first_candidate(attrs: Seq<crate::sdp::AttrV>) -> Option<CandidateV>
    decreases attrs.len(),
{
    if attrs.len() == 0 {
        None
    } else if attrs[0] is Candidate {
        Some(attrs[0]->Candidate_0)
    } else {
        spec_first_candidate(attrs.drop_first())
    }
}

/// Scans for the first candidate attribute.
fn first_candidate_attr(attrs: &Vec<Attr>) -> (r: Option<Candidate>)
    ensures
        match r {
            Some(c) => spec_first_candidate(Seq::new(attrs@.len(), |i: int| attrs@[i]@)) == Some(
                c@,
            ),
            None => spec_first_candidate(Seq::new(attrs@.len(), |i: int| attrs@[i]@)) is None,
        },
{
    let ghost av = Seq::new(attrs@.len(), |i: int| attrs@[i]@);
    let mut j: usize = 0;
    proof {
        assert(av.skip(0) =~= av);
    }
    while j < attrs.len()
        invariant
            0 <= j <= attrs@.len(),
            av == Seq::new(attrs@.len(), |i: int| attrs@[i]@),
            av.len() == attrs@.len(),
            spec_first_candidate(av) == spec_first_candidate(av.skip(j as int)),
        decreases attrs@.len() - j,
    {
        proof {
            assert(av.skip(j as int)[0] == av[j as int]);
            assert(av.skip(j as int).drop_first() =~= av.skip(j as int + 1));
        }
        match &attrs[j] {
            Attr::Candidate(c) => {
                return Some(c.ice_candidate.deep_clone());
            },
            _ => {},
        }
        j = j + 1;
    }
    proof {
        assert(av.skip(j as int) =~= Seq::<crate::sdp::AttrV>::empty());
    }
    None
}

/// Every attribute in the list is a candidate attribute.
pub open spec fn all_candidate_attrs(s: Seq<AttrV>) -> bool {
    forall|i: int| 0 <= i < s.len() ==> (#[trigger] s[i]) is Candidate
}

/// The longer list is the shorter one with only candidate attributes added.
pub open spec fn extends_by_candidates(short: Seq<AttrV>, long: Seq<AttrV>) -> bool {
    exists|suffix: Seq<AttrV>| all_candidate_attrs(suffix) && long == #[trigger] (short + suffix)
}

/// One description is another with candidate attributes bound into its media
/// blocks, and at most the session connection address rewritten.
pub open spec fn extends_with_candidates(
    a: crate::sdp::SessionDescriptionV,
    b: crate::sdp::SessionDescriptionV,
) -> bool {
    &&& a.ver == b.ver
    &&& a.origin == b.origin
    &&& a.name == b.name
    &&& a.info == b.info
    &&& a.uri == b.uri
    &&& a.timing == b.timing
    &&& a.attrs == b.attrs
    &&& a.media.len() == b.media.len()
    &&& (forall|k: int|
        0 <= k < a.media.len() ==> (#[trigger] a.media[k]).media == b.media[k].media
            && extends_by_candidates(b.media[k].attrs, a.media[k].attrs))
    &&& (a.conn == b.conn || (b.conn is Some && a.conn is Some && a.conn->0.net_type == b.conn
        ->0.net_type && a.conn->0.addr_type == b.conn->0.addr_type && a.conn->0.ttl == b.conn
        ->0.ttl && a.conn->0.nr_addrs == b.conn->0.nr_addrs))
}

/// The appended candidate attributes are all candidate attributes.
pub proof fn lemma_attrs_of_candidates_all(cands: Seq<CandidateV>)
    ensures
        all_candidate_attrs(attrs_of_candidates(cands)),
    decreases cands.len(),
{
    if cands.len() > 0 {
        lemma_attrs_of_candidates_all(cands.drop_last());
    }
}

/// The candidate attributes carrying the given candidates, in order.
pub open spec fn attrs_of_candidates(cands: Seq<CandidateV>) -> Seq<AttrV>
    decreases cands.len(),
{
    if cands.len() == 0 {
        Seq::empty()
    } else {
        attrs_of_candidates(cands.drop_last()).push(AttrV::Candidate(cands.last()))
    }
}

proof fn lemma_attrs_of_candidates_push(cands: Seq<CandidateV>, c: CandidateV)
    ensures
        attrs_of_candidates(cands.push(c)) == attrs_of_candidates(cands).push(AttrV::Candidate(c)),
{
    assert(cands.push(c).drop_last() =~= cands);
    assert(cands.push(c).last() == c);
}

proof fn lemma_attrs_of_candidates_add(a: Seq<CandidateV>, b: Seq<CandidateV>)
    ensures
        attrs_of_candidates(a + b) == attrs_of_candidates(a) + attrs_of_candidates(b),
    decreases b.len(),
{
    if b.len() == 0 {
        assert(a + b =~= a);
        assert(attrs_of_candidates(a) + attrs_of_candidates(b) =~= attrs_of_candidates(a));
    } else {
        lemma_attrs_of_candidates_add(a, b.drop_last());
        assert((a + b).drop_last() =~= a + b.drop_last());
        assert((a + b).last() == b.last());
        assert(attrs_of_candidates(a + b) =~= attrs_of_candidates(a) + attrs_of_candidates(b));
    }
}


/// Appends the RTP then RTCP candidates to a media block as candidate
/// attributes, in order.
fn append_candidates(
    md: &mut crate::sdp::MediaDescription,
    rtp: &Vec<Candidate>,
    rtcp: &Vec<Candidate>,
)
    ensures
        final(md)@.media == old(md)@.media,
        final(md)@.attrs == old(md)@.attrs + attrs_of_candidates(
            Seq::new(rtp@.len(), |i: int| rtp@[i]@) + Seq::new(rtcp@.len(), |i: int| rtcp@[i]@),
        ),
{
    let ghost md0 = md@;
    let ghost rv = Seq::new(rtp@.len(), |i: int| rtp@[i]@);
    let ghost cv = Seq::new(rtcp@.len(), |i: int| rtcp@[i]@);
    let mut x: usize = 0;
    proof {
        assert(md@.attrs =~~= md0.attrs + attrs_of_candidates(rv.subrange(0, 0)));
    }
    while x < rtp.len()
        invariant
            0 <= x <= rtp@.len(),
            rv == Seq::new(rtp@.len(), |i: int| rtp@[i]@),
            md@.media == md0.media,
            md@.attrs == md0.attrs + attrs_of_candidates(rv.subrange(0, x as int)),
        decreases rtp@.len() - x,
    {
        let ghost before = md@.attrs;
        md.attrs.push(
            Attr::Candidate(CandidateValue { ice_candidate: rtp[x].deep_clone() }),
        );
        proof {
            let p1 = rv.subrange(0, x as int + 1);
            assert(p1.drop_last() =~= rv.subrange(0, x as int));
            assert(p1.last() == rv[x as int]);
            lemma_attrs_of_candidates_push(rv.subrange(0, x as int), rv[x as int]);
            assert(md@.attrs =~~= before.push(AttrV::Candidate(rv[x as int])));
            assert(before.push(AttrV::Candidate(rv[x as int])) =~= md0.attrs
                + attrs_of_candidates(rv.subrange(0, x as int)).push(
                AttrV::Candidate(rv[x as int]),
            ));
        }
        x = x + 1;
    }
    proof {
        assert(rv.subrange(0, rtp@.len() as int) =~= rv);
    }
    let ghost mid_attrs = md@.attrs;
    let mut y: usize = 0;
    proof {
        assert(md@.attrs =~~= mid_attrs + attrs_of_candidates(cv.subrange(0, 0)));
    }
    while y < rtcp.len()
        invariant
            0 <= y <= rtcp@.len(),
            cv == Seq::new(rtcp@.len(), |i: int| rtcp@[i]@),
            md@.media == md0.media,
            md@.attrs == mid_attrs + attrs_of_candidates(cv.subrange(0, y as int)),
            mid_attrs == md0.attrs + attrs_of_candidates(rv),
            rv == Seq::new(rtp@.len(), |i: int| rtp@[i]@),
        decreases rtcp@.len() - y,
    {
        let ghost before = md@.attrs;
        md.attrs.push(
            Attr::Candidate(CandidateValue { ice_candidate: rtcp[y].deep_clone() }),
        );
        proof {
            let p1 = cv.subrange(0, y as int + 1);
            assert(p1.drop_last() =~= cv.subrange(0, y as int));
            assert(p1.last() == cv[y as int]);
            lemma_attrs_of_candidates_push(cv.subrange(0, y as int), cv[y as int]);
            assert(md@.attrs =~~= before.push(AttrV::Candidate(cv[y as int])));
            assert(before.push(AttrV::Candidate(cv[y as int])) =~= mid_attrs
                + attrs_of_candidates(cv.subrange(0, y as int)).push(
                AttrV::Candidate(cv[y as int]),
            ));
        }
        y = y + 1;
    }
    proof {
        assert(cv.subrange(0, rtcp@.len() as int) =~= cv);
        lemma_attrs_of_candidates_add(rv, cv);
        assert(md@.attrs =~~= md0.attrs + attrs_of_candidates(rv + cv));
    }
}


} // verus!
