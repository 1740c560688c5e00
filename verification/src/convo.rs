//! Conferences: named groups of members, the registry of conferences, and
//! the mixing step the engine runs on every tick.

use vstd::prelude::*;
use crate::addr::IpAddr;
use crate::ice::PortAllocator;
use crate::member::{Member, FRAME_BYTES};
use crate::sdp::SessionDescription;
use crate::session::MediaBinding;
use crate::strings::str_eq;

verus! {

/// Per-byte wrapping sum of two equally long buffers.
pub fn sum_payload(payload1: &Vec<u8>, payload2: &Vec<u8>) -> (r: Vec<u8>)
    requires
        payload1@.len() == payload2@.len(),
    ensures
        r@.len() == payload1@.len(),
        forall|i: int|
            0 <= i < r@.len() ==> r@[i] == (payload1@[i] + payload2@[i]) % 256,
{
    let mut r: Vec<u8> = Vec::new();
    let mut i: usize = 0;
    while i < payload1.len()
        invariant
            0 <= i <= payload1@.len(),
            payload1@.len() == payload2@.len(),
            r@.len() == i,
            forall|j: int| 0 <= j < i ==> r@[j] == (payload1@[j] + payload2@[j]) % 256,
        decreases payload1@.len() - i,
    {
        let s: u16 = payload1[i] as u16 + payload2[i] as u16;
        r.push((s % 256) as u8);
        i = i + 1;
    }
    r
}

/// A frame of silence.
pub fn zero_frame() -> (r: Vec<u8>)
    ensures
        r@.len() == FRAME_BYTES,
        forall|i: int| 0 <= i < r@.len() ==> r@[i] == 0,
{
    let mut r: Vec<u8> = Vec::new();
    let mut i: usize = 0;
    while i < FRAME_BYTES
        invariant
            0 <= i <= FRAME_BYTES,
            r@.len() == i,
            forall|j: int| 0 <= j < i ==> r@[j] == 0,
        decreases FRAME_BYTES - i,
    {
        r.push(0);
        i = i + 1;
    }
    r
}

/// The position of the first member with the given id.
pub open spec fn spec_first_member(members: Seq<Member>, id: Seq<char>) -> Option<int>
    decreases members.len(),
{
    if members.len() == 0 {
        None
    } else if members[0].id@ == id {
        Some(0)
    } else {
        match spec_first_member(members.drop_first(), id) {
            Some(i) => Some(i + 1),
            None => None,
        }
    }
}

pub proof fn lemma_first_member_agrees(members: Seq<Member>, id: Seq<char>, i: int)
    requires
        0 <= i < members.len(),
        members[i].id@ == id,
        forall|j: int| 0 <= j < i ==> (#[trigger] members[j]).id@ != id,
    ensures
        spec_first_member(members, id) == Some(i),
    decreases members.len(),
{
    if i > 0 {
        let rest = members.drop_first();
        assert(forall|j: int| 0 <= j < rest.len() ==> #[trigger] rest[j] == members[j + 1]);
        lemma_first_member_agrees(rest, id, i - 1);
    }
}

pub proof fn lemma_first_member_none(members: Seq<Member>, id: Seq<char>)
    requires
        forall|j: int| 0 <= j < members.len() ==> (#[trigger] members[j]).id@ != id,
    ensures
        spec_first_member(members, id) is None,
    decreases members.len(),
{
    if members.len() > 0 {
        let rest = members.drop_first();
        assert(forall|j: int| 0 <= j < rest.len() ==> #[trigger] rest[j] == members[j + 1]);
        lemma_first_member_none(rest, id);
    }
}

/// The position of the first conference with the given name.
pub open spec fn spec_first_convo(convos: Seq<Conference>, id: Seq<char>) -> Option<int>
    decreases convos.len(),
{
    if convos.len() == 0 {
        None
    } else if convos[0].id@ == id {
        Some(0)
    } else {
        match spec_first_convo(convos.drop_first(), id) {
            Some(i) => Some(i + 1),
            None => None,
        }
    }
}

pub proof fn lemma_first_convo_agrees(convos: Seq<Conference>, id: Seq<char>, i: int)
    requires
        0 <= i < convos.len(),
        convos[i].id@ == id,
        forall|j: int| 0 <= j < i ==> (#[trigger] convos[j]).id@ != id,
    ensures
        spec_first_convo(convos, id) == Some(i),
    decreases convos.len(),
{
    if i > 0 {
        let rest = convos.drop_first();
        assert(forall|j: int| 0 <= j < rest.len() ==> #[trigger] rest[j] == convos[j + 1]);
        lemma_first_convo_agrees(rest, id, i - 1);
    }
}

pub proof fn lemma_first_convo_none(convos: Seq<Conference>, id: Seq<char>)
    requires
        forall|j: int| 0 <= j < convos.len() ==> (#[trigger] convos[j]).id@ != id,
    ensures
        spec_first_convo(convos, id) is None,
    decreases convos.len(),
{
    if convos.len() > 0 {
        let rest = convos.drop_first();
        assert(forall|j: int| 0 <= j < rest.len() ==> #[trigger] rest[j] == convos[j + 1]);
        lemma_first_convo_none(rest, id);
    }
}

/// One frame of silence, as a sequence.
pub open spec fn zero_bytes() -> Seq<u8> {
    Seq::new(FRAME_BYTES as nat, |i: int| 0u8)
}

/// Per-byte wrapping sum at the model level.
pub open spec fn byte_mix(a: Seq<u8>, b: Seq<u8>) -> Seq<u8> {
    Seq::new(a.len(), |i: int| ((a[i] + b[i]) % 256) as u8)
}

/// The frame a member would contribute: the oldest full frame of its read
/// queue, when one is there.
pub open spec fn spec_peer_frame(ms: crate::member::MemberSession) -> Option<Seq<u8>> {
    if ms.r_payload@.len() >= FRAME_BYTES {
        Some(ms.r_payload@.take(FRAME_BYTES as int))
    } else {
        None
    }
}

/// The read queue after one pop: unchanged when no full frame was there,
/// else the remainder (emptied once it still holds a full second).
pub open spec fn popped_rel(
    pre: crate::member::MemberSession,
    post: crate::member::MemberSession,
) -> bool {
    &&& post.w_payload == pre.w_payload
    &&& post.init_packet == pre.init_packet
    &&& post.counter == pre.counter
    &&& post.ts == pre.ts
    &&& post.emissions == pre.emissions
    &&& (pre.r_payload@.len() < FRAME_BYTES ==> post.r_payload == pre.r_payload)
    &&& (pre.r_payload@.len() >= FRAME_BYTES ==> {
        let rest = pre.r_payload@.skip(FRAME_BYTES as int);
        &&& (rest.len() >= crate::member::READ_CAP ==> post.r_payload@ == Seq::<u8>::empty())
        &&& (rest.len() < crate::member::READ_CAP ==> post.r_payload@ == rest)
    })
}

/// The mix for a target over the first `i` members: the wrapping byte-sum
/// of exactly the peers' available frames, in member order.
pub open spec fn spec_mix_upto(members: Seq<Member>, t: int, i: int) -> Seq<u8>
    decreases i,
{
    if i <= 0 {
        zero_bytes()
    } else {
        let prev = spec_mix_upto(members, t, i - 1);
        if i - 1 == t {
            prev
        } else {
            match spec_peer_frame(members[i - 1].member_session) {
                Some(f) => byte_mix(prev, f),
                None => prev,
            }
        }
    }
}

/// Whether any of the first `i` members other than the target has a frame.
pub open spec fn any_peer_frame_upto(members: Seq<Member>, t: int, i: int) -> bool {
    exists|x: int|
        0 <= x < i && x != t && (#[trigger] spec_peer_frame(members[x].member_session)) is Some
}

/// One whole engine pass for one target: every other member popped once,
/// and the target's write queue extended by the mix when a peer contributed.
pub open spec fn collect_post(pre: Seq<Member>, post: Seq<Member>, t: int) -> bool {
    &&& post.len() == pre.len()
    &&& 0 <= t < pre.len()
    &&& (forall|x: int|
        0 <= x < pre.len() && x != t ==> (#[trigger] post[x]).id == pre[x].id && post[x].sdp
            == pre[x].sdp && post[x].session == pre[x].session && popped_rel(
            pre[x].member_session,
            post[x].member_session,
        ))
    &&& post[t].id == pre[t].id
    &&& post[t].sdp == pre[t].sdp
    &&& post[t].session == pre[t].session
    &&& post[t].member_session.r_payload == pre[t].member_session.r_payload
    &&& post[t].member_session.init_packet == pre[t].member_session.init_packet
    &&& post[t].member_session.counter == pre[t].member_session.counter
    &&& post[t].member_session.ts == pre[t].member_session.ts
    &&& post[t].member_session.emissions == pre[t].member_session.emissions
    &&& post[t].member_session.w_payload@ == pre[t].member_session.w_payload@ + (if
    any_peer_frame_upto(pre, t, pre.len() as int) {
        spec_mix_upto(pre, t, pre.len() as int)
    } else {
        Seq::<u8>::empty()
    })
}

/// The members after the engine served the first `t` targets, one
/// `collect_post` step per target.
pub open spec fn ticked_upto(pre: Seq<Member>, cur: Seq<Member>, t: int) -> bool
    decreases t,
{
    if t <= 0 {
        cur == pre
    } else {
        exists|mid: Seq<Member>|
            ticked_upto(pre, mid, t - 1) && #[trigger] collect_post(mid, cur, t - 1)
    }
}

/// One more served target extends the tick chain.
proof fn lemma_tick_step(pre: Seq<Member>, mid: Seq<Member>, cur: Seq<Member>, t: int)
    requires
        t >= 0,
        ticked_upto(pre, mid, t),
        collect_post(mid, cur, t),
    ensures
        ticked_upto(pre, cur, t + 1),
{
    assert(exists|m: Seq<Member>|
        ticked_upto(pre, m, (t + 1) - 1) && #[trigger] collect_post(m, cur, (t + 1) - 1)) by {
        assert(ticked_upto(pre, mid, (t + 1) - 1) && collect_post(mid, cur, (t + 1) - 1));
    }
    assert(ticked_upto(pre, cur, t + 1));
}

/// A named conference: its members in arrival order, and the base
/// description set by the first member's negotiation.
pub struct Conference {
    pub id: String,
    pub members: Vec<Member>,
    pub sdp: Option<SessionDescription>,
    /// Whether the conference's one engine task has been claimed.
    pub engine_running: bool,
}

/// Every member's pipeline state is well formed.
pub open spec fn members_wf(members: Seq<Member>) -> bool {
    forall|i: int| 0 <= i < members.len() ==> (#[trigger] members[i]).member_session.wf()
}

impl Conference {
    /// A fresh conference under the given name.
    pub fn new(id: &str) -> (r: Conference)
        ensures
            r.id@ == id@,
            r.members@.len() == 0,
            r.sdp is None,
            !r.engine_running,
    {
        Conference { id: id.to_owned(), members: Vec::new(), sdp: None, engine_running: false }
    }

    /// Claims the conference's engine: true exactly once, so at most one
    /// engine task ever runs per conference.
    pub fn claim_engine(&mut self) -> (r: bool)
        ensures
            r == !old(self).engine_running,
            final(self).engine_running,
            final(self).id == old(self).id,
            final(self).members == old(self).members,
            final(self).sdp == old(self).sdp,
    {
        let was = self.engine_running;
        self.engine_running = true;
        !was
    }

    /// The position of the first member with the given id.
    pub fn get_member(&self, id: &str) -> (r: Option<usize>)
        ensures
            match r {
                Some(i) => spec_first_member(self.members@, id@) == Some(i as int) && 0 <= i
                    < self.members@.len() && self.members@[i as int].id@ == id@,
                None => spec_first_member(self.members@, id@) is None && (forall|i: int|
                    0 <= i < self.members@.len() ==> (#[trigger] self.members@[i]).id@ != id@),
            },
    {
        let mut i: usize = 0;
        while i < self.members.len()
            invariant
                0 <= i <= self.members@.len(),
                forall|j: int| 0 <= j < i ==> (#[trigger] self.members@[j]).id@ != id@,
            decreases self.members@.len() - i,
        {
            if str_eq(self.members[i].id.as_str(), id) {
                proof {
                    lemma_first_member_agrees(self.members@, id@, i as int);
                }
                return Some(i);
            }
            i = i + 1;
        }
        proof {
            lemma_first_member_none(self.members@, id@);
        }
        None
    }

    /// Brings a member into the conference: prepares its media plane,
    /// negotiates its answer against the base, and keeps the member. The
    /// first member's answer becomes the conference base, set exactly once;
    /// later members negotiate against it and leave it standing. The answer
    /// and the media bindings for the member's sockets come back.
    pub fn add_member(
        &mut self,
        member: Member,
        local_addr: Option<&IpAddr>,
        ports: &mut PortAllocator,
    ) -> (r: (Option<SessionDescription>, Vec<MediaBinding>))
        requires
            member.member_session.wf(),
            member.session.sdp_to_ice@.len() == 0,
            member.session.ice@.streams.len() == 0,
            members_wf(old(self).members@),
        ensures
            members_wf(final(self).members@),
            final(self).id == old(self).id,
            final(self).engine_running == old(self).engine_running,
            final(self).members@.len() == old(self).members@.len() + 1,
            final(self).members@[old(self).members@.len() as int].id == member.id,
            forall|i: int|
                0 <= i < old(self).members@.len() ==> final(self).members@[i] == old(self).members@[i],
            r.0 matches Some(a) && final(self).members@[old(self).members@.len() as int].session.answer_sdp matches Some(sa) && sa@ == a@,
            old(self).sdp is Some ==> final(self).sdp == old(self).sdp,
            old(self).sdp is None ==> (final(self).sdp matches Some(b) && r.0 matches Some(a)
                && a@ == b@),
            r.0 matches Some(a) && (match old(self).sdp {
                Some(base) => exists|uf: Seq<u8>, pw: Seq<u8>|
                    crate::negotiate::credential_bytes(uf) && crate::negotiate::credential_bytes(
                        pw,
                    ) && crate::session::extends_with_candidates(
                        a@,
                        #[trigger] crate::negotiate::spec_negotiated(
                            Some(base@),
                            member.session.offer_sdp@,
                            uf,
                            pw,
                        ),
                    ),
                None => exists|uf: Seq<u8>, pw: Seq<u8>|
                    crate::negotiate::credential_bytes(uf) && crate::negotiate::credential_bytes(
                        pw,
                    ) && crate::session::extends_with_candidates(
                        a@,
                        #[trigger] crate::negotiate::spec_negotiated(
                            None,
                            member.session.offer_sdp@,
                            uf,
                            pw,
                        ),
                    ),
            }),
    {
        let mut member = member;
        member.init_session(local_addr, ports);
        let bindings = match &self.sdp {
            Some(base) => member.negotiate_session(Some(base)),
            None => member.negotiate_session(None),
        };
        let answer = member.get_session_answer();
        if self.sdp.is_none() {
            self.sdp = Some(answer.deep_clone());
        }
        let ghost old_members = self.members@;
        self.members.push(member);
        proof {
            assert forall|i: int|
                0 <= i < final(self).members@.len() implies (#[trigger] final(self).members@[i]).member_session.wf() by {
                if i < old_members.len() {
                    assert(final(self).members@[i] == old_members[i]);
                }
            }
        }
        (Some(answer), bindings)
    }

    /// One engine pass for one target member: pops a frame from every other
    /// member and mixes what came, byte-wise and wrapping. `None` exactly
    /// when no other member had a full frame waiting; otherwise the mix of
    /// exactly the peers' frames, in member order.
    pub fn collect_mix(&mut self, target: usize) -> (r: Option<Vec<u8>>)
        requires
            members_wf(old(self).members@),
            target < old(self).members@.len(),
        ensures
            members_wf(final(self).members@),
            final(self).id == old(self).id,
            final(self).sdp == old(self).sdp,
            final(self).engine_running == old(self).engine_running,
            final(self).members@.len() == old(self).members@.len(),
            final(self).members@[target as int] == old(self).members@[target as int],
            forall|x: int|
                0 <= x < old(self).members@.len() && x != target ==> (#[trigger] final(self).members@[x]).id == old(self).members@[x].id && final(self).members@[x].sdp
                    == old(self).members@[x].sdp && final(self).members@[x].session == old(self).members@[x].session && popped_rel(
                    old(self).members@[x].member_session,
                    final(self).members@[x].member_session,
                ),
            r is Some <==> any_peer_frame_upto(
                old(self).members@,
                target as int,
                old(self).members@.len() as int,
            ),
            r matches Some(f) ==> f@ == spec_mix_upto(
                old(self).members@,
                target as int,
                old(self).members@.len() as int,
            ) && f@.len() == FRAME_BYTES,
    {
        let mut acc = zero_frame();
        let mut any = false;
        let n = self.members.len();
        let mut i: usize = 0;
        proof {
            assert(acc@ =~= zero_bytes());
        }
        while i < n
            invariant
                0 <= i <= n,
                n == self.members@.len(),
                n == old(self).members@.len(),
                target < n,
                members_wf(self.members@),
                self.id == old(self).id,
                self.sdp == old(self).sdp,
                self.engine_running == old(self).engine_running,
                self.members@[target as int] == old(self).members@[target as int],
                forall|j: int|
                    i <= j < n ==> #[trigger] self.members@[j] == old(self).members@[j],
                forall|x: int|
                    0 <= x < i && x != target ==> (#[trigger] self.members@[x]).id == old(self).members@[x].id && self.members@[x].sdp == old(self).members@[x].sdp
                        && self.members@[x].session == old(self).members@[x].session && popped_rel(
                        old(self).members@[x].member_session,
                        self.members@[x].member_session,
                    ),
                acc@ == spec_mix_upto(old(self).members@, target as int, i as int),
                acc@.len() == FRAME_BYTES,
                any == any_peer_frame_upto(old(self).members@, target as int, i as int),
            decreases n - i,
        {
            if i != target {
                let ghost pre = self.members@;
                let ghost preacc = acc@;
                let mut m = self.members.remove(i);
                let got = m.get_read_payload();
                self.members.insert(i, m);
                proof {
                    assert(self.members@ =~~= pre.update(i as int, m));
                    assert(pre[i as int] == old(self).members@[i as int]);
                }
                match got {
                    Some(f) => {
                        acc = sum_payload(&acc, &f);
                        any = true;
                        proof {
                            let omi = old(self).members@[i as int].member_session;
                            assert(spec_peer_frame(omi) == Some(f@));
                            assert(acc@ =~= byte_mix(preacc, f@));
                            assert(acc@ == spec_mix_upto(
                                old(self).members@,
                                target as int,
                                i as int + 1,
                            ));
                            assert(0 <= i < i + 1 && i != target && spec_peer_frame(
                                old(self).members@[i as int].member_session,
                            ) is Some);
                        }
                    },
                    None => {
                        proof {
                            let omi = old(self).members@[i as int].member_session;
                            assert(spec_peer_frame(omi) is None);
                            assert(acc@ == spec_mix_upto(
                                old(self).members@,
                                target as int,
                                i as int + 1,
                            ));
                            assert(any_peer_frame_upto(
                                old(self).members@,
                                target as int,
                                i as int + 1,
                            ) == any_peer_frame_upto(
                                old(self).members@,
                                target as int,
                                i as int,
                            )) by {
                                if any_peer_frame_upto(
                                    old(self).members@,
                                    target as int,
                                    i as int + 1,
                                ) {
                                    let x = choose|x: int|
                                        0 <= x < i + 1 && x != target as int && (
                                        #[trigger] spec_peer_frame(
                                            old(self).members@[x].member_session,
                                        )) is Some;
                                    assert(x < i);
                                }
                            }
                        }
                    },
                }
            } else {
                proof {
                    assert(acc@ == spec_mix_upto(
                        old(self).members@,
                        target as int,
                        i as int + 1,
                    ));
                    assert(any_peer_frame_upto(old(self).members@, target as int, i as int + 1)
                        == any_peer_frame_upto(old(self).members@, target as int, i as int)) by {
                        if any_peer_frame_upto(
                            old(self).members@,
                            target as int,
                            i as int + 1,
                        ) {
                            let x = choose|x: int|
                                0 <= x < i + 1 && x != target as int && (#[trigger] spec_peer_frame(
                                    old(self).members@[x].member_session,
                                )) is Some;
                            assert(x < i);
                        }
                    }
                }
            }
            i = i + 1;
        }
        if any {
            Some(acc)
        } else {
            None
        }
    }

    /// One engine tick: the targets served in order, each receiving the mix
    /// of its peers' frames when any peer contributed and nothing otherwise
    /// (in particular, a member's own audio is never in its mix, and in a
    /// two-member conference with a silent peer a member's write queue does
    /// not change).
    pub fn engine_tick(&mut self)
        requires
            members_wf(old(self).members@),
        ensures
            members_wf(final(self).members@),
            final(self).id == old(self).id,
            final(self).sdp == old(self).sdp,
            final(self).engine_running == old(self).engine_running,
            final(self).members@.len() == old(self).members@.len(),
            forall|i: int|
                0 <= i < final(self).members@.len() ==> (#[trigger] final(self).members@[i]).id
                    == old(self).members@[i].id,
            ticked_upto(
                old(self).members@,
                final(self).members@,
                old(self).members@.len() as int,
            ),
    {
        let n = self.members.len();
        let mut t: usize = 0;
        proof {
            assert(ticked_upto(old(self).members@, self.members@, 0));
        }
        while t < n
            invariant
                0 <= t <= n,
                n == self.members@.len(),
                n == old(self).members@.len(),
                members_wf(self.members@),
                self.id == old(self).id,
                self.sdp == old(self).sdp,
                self.engine_running == old(self).engine_running,
                forall|j: int|
                    0 <= j < n ==> (#[trigger] self.members@[j]).id == old(self).members@[j].id,
                ticked_upto(old(self).members@, self.members@, t as int),
            decreases n - t,
        {
            let ghost midpre = self.members@;
            let got = self.collect_mix(t);
            let ghost collected = self.members@;
            match got {
                Some(frame) => {
                    let mut m = self.members.remove(t);
                    m.set_write_payload(&frame);
                    self.members.insert(t, m);
                    proof {
                        assert(self.members@ =~~= collected.update(t as int, m));
                        assert(collect_post(midpre, self.members@, t as int)) by {
                            assert(self.members@[t as int].member_session.w_payload@
                                =~= midpre[t as int].member_session.w_payload@ + spec_mix_upto(
                                midpre,
                                t as int,
                                midpre.len() as int,
                            ));
                        }
                        assert(ticked_upto(old(self).members@, midpre, t as int));
                        lemma_tick_step(
                            old(self).members@,
                            midpre,
                            self.members@,
                            t as int,
                        );
                    }
                },
                None => {
                    proof {
                        assert(collect_post(midpre, self.members@, t as int)) by {
                            assert(self.members@[t as int].member_session.w_payload@
                                =~= midpre[t as int].member_session.w_payload@ + Seq::<
                                u8,
                            >::empty());
                        }
                        assert(ticked_upto(old(self).members@, midpre, t as int));
                        lemma_tick_step(
                            old(self).members@,
                            midpre,
                            self.members@,
                            t as int,
                        );
                    }
                },
            }
            t = t + 1;
        }
    }
}

/// The process-wide registry: conference values by name, never removed.
pub struct Conferences {
    pub convos: Vec<Conference>,
}

impl Conferences {
    pub fn new() -> (r: Conferences)
        ensures
            r.convos@.len() == 0,
    {
        Conferences { convos: Vec::new() }
    }

    /// The position of the first conference with the given name.
    pub fn get_convo(&self, id: &str) -> (r: Option<usize>)
        ensures
            match r {
                Some(i) => spec_first_convo(self.convos@, id@) == Some(i as int) && 0 <= i
                    < self.convos@.len() && self.convos@[i as int].id@ == id@,
                None => spec_first_convo(self.convos@, id@) is None && (forall|i: int|
                    0 <= i < self.convos@.len() ==> (#[trigger] self.convos@[i]).id@ != id@),
            },
    {
        let mut i: usize = 0;
        while i < self.convos.len()
            invariant
                0 <= i <= self.convos@.len(),
                forall|j: int| 0 <= j < i ==> (#[trigger] self.convos@[j]).id@ != id@,
            decreases self.convos@.len() - i,
        {
            if str_eq(self.convos[i].id.as_str(), id) {
                proof {
                    lemma_first_convo_agrees(self.convos@, id@, i as int);
                }
                return Some(i);
            }
            i = i + 1;
        }
        proof {
            lemma_first_convo_none(self.convos@, id@);
        }
        None
    }

    /// The conference with the given name, created fresh if absent:
    /// asking twice keeps the first one.
    pub fn new_convo(&mut self, id: &str) -> (r: usize)
        ensures
            0 <= r < final(self).convos@.len(),
            final(self).convos@[r as int].id@ == id@,
            (exists|i: int|
                0 <= i < old(self).convos@.len() && (#[trigger] old(self).convos@[i]).id@ == id@)
                ==> final(self).convos == old(self).convos,
            !(exists|i: int|
                0 <= i < old(self).convos@.len() && (#[trigger] old(self).convos@[i]).id@ == id@)
                ==> final(self).convos@.len() == old(self).convos@.len() + 1,
    {
        match self.get_convo(id) {
            Some(i) => {
                proof {
                    assert((#[trigger] old(self).convos@[i as int]).id@ == id@);
                }
                i
            },
            None => {
                let n = self.convos.len();
                self.convos.push(Conference::new(id));
                n
            },
        }
    }
}

} // verus!
