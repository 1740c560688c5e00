//! The per-member audio pipeline state: the two PCM byte queues, the
//! template packet taken from the first inbound packet, and the outbound
//! sequence/timestamp counters. The codec and the sockets live outside; this
//! module owns every decision between them.

use vstd::prelude::*;
use crate::rtp::{RtpPkt, RtpHeader, RtpPktV};
use crate::text::clone_bytes;

verus! {

/// One PCM frame: 960 stereo samples of two bytes each, 20 ms at 48 kHz.
pub const FRAME_BYTES: usize = 3840;

/// One frame in 16-bit samples.
pub const FRAME_SAMPLES: usize = 1920;

/// The timestamp step per emitted frame (samples per channel).
pub const TS_STEP: u32 = 960;

/// The read queue's soft cap: about one second of audio.
pub const READ_CAP: usize = 192000;

/// The 16-bit sample formed by a little-endian byte pair.
pub open spec fn sample_of_pair(lo: u8, hi: u8) -> i16 {
    (((hi as u16) * 0x100 + (lo as u16)) as u16) as i16
}

pub open spec fn le_bytes_of_sample(s: i16) -> (u8, u8) {
    (((s as u16) % 0x100) as u8, ((s as u16) / 0x100) as u8)
}

/// Reads little-endian 16-bit samples out of a byte buffer; `dest` is
/// rebuilt to its previous length, as the original conversion filled a
/// preallocated buffer.
pub fn convert_u8_to_i16(orig: &Vec<u8>, dest: &mut Vec<i16>)
    requires
        2 * old(dest)@.len() <= orig@.len(),
    ensures
        final(dest)@.len() == old(dest)@.len(),
        forall|i: int|
            0 <= i < final(dest)@.len() ==> final(dest)@[i] == sample_of_pair(
                orig@[2 * i],
                orig@[2 * i + 1],
            ),
{
    let n = dest.len();
    let ol = orig.len();
    let mut out: Vec<i16> = Vec::new();
    let mut i: usize = 0;
    while i < n
        invariant
            0 <= i <= n,
            2 * n <= ol,
            ol == orig@.len(),
            out@.len() == i,
            forall|j: int|
                0 <= j < i ==> out@[j] == sample_of_pair(orig@[2 * j], orig@[2 * j + 1]),
        decreases n - i,
    {
        let lo = orig[2 * i];
        let hi = orig[2 * i + 1];
        let v: u16 = (hi as u16) * 0x100 + (lo as u16);
        out.push(#[verifier::truncate] (v as i16));
        i = i + 1;
    }
    *dest = out;
}

/// Writes 16-bit samples as little-endian byte pairs; `dest` becomes exactly
/// two bytes per sample.
pub fn convert_i16_to_u8(orig: &Vec<i16>, dest: &mut Vec<u8>)
    ensures
        final(dest)@.len() == 2 * orig@.len(),
        forall|i: int|
            0 <= i < orig@.len() ==> (final(dest)@[2 * i], final(dest)@[2 * i + 1])
                == le_bytes_of_sample(orig@[i]),
{
    let mut out: Vec<u8> = Vec::new();
    let mut i: usize = 0;
    while i < orig.len()
        invariant
            0 <= i <= orig@.len(),
            out@.len() == 2 * i,
            forall|j: int|
                0 <= j < i ==> (out@[2 * j], out@[2 * j + 1]) == le_bytes_of_sample(orig@[j]),
        decreases orig@.len() - i,
    {
        let s = orig[i];
        let v: u16 = s as u16;
        out.push((v % 0x100) as u8);
        out.push((v / 0x100) as u8);
        i = i + 1;
    }
    *dest = out;
}

/// The two conversions are inverses, sample for sample.
pub proof fn lemma_sample_bytes_round_trip(s: i16)
    ensures
        sample_of_pair(le_bytes_of_sample(s).0, le_bytes_of_sample(s).1) == s,
{
    let v = s as u16;
    let lo = (v % 0x100) as u8;
    let hi = (v / 0x100) as u8;
    assert((hi as u16) * 0x100 + (lo as u16) == v) by (bit_vector)
        requires
            lo == (v % 0x100) as u8,
            hi == (v / 0x100) as u8,
    ;
    assert((v as i16) == s) by (bit_vector)
        requires
            v == s as u16,
    ;
}

// ---------------------------------------------------------------------------
// The member's pipeline state

/// The pipeline state of one member. `r_payload` holds PCM decoded from the
/// member; `w_payload` holds PCM awaiting encoding for the member. The
/// template packet anchors outbound header fields, and the counters advance
/// once per emitted frame.
#[verifier::ext_equal]
pub struct MemberSession {
    pub r_payload: Vec<u8>,
    pub w_payload: Vec<u8>,
    pub init_packet: Option<RtpPkt>,
    pub counter: u16,
    pub ts: u32,
    pub emissions: Ghost<nat>,
}

impl MemberSession {
    /// The state invariant: the read queue holds whole frames and never more
    /// than the cap plus one frame, and the counters stand at the number of
    /// emitted frames (modulo their width).
    pub open spec fn wf(&self) -> bool {
        &&& self.r_payload@.len() % (FRAME_BYTES as nat) == 0
        &&& self.r_payload@.len() <= READ_CAP + FRAME_BYTES
        &&& self.counter == self.emissions@ % 0x10000
        &&& self.ts == (TS_STEP as nat * self.emissions@) % 0x1_0000_0000
    }

    pub fn new() -> (r: MemberSession)
        ensures
            r.wf(),
            r.r_payload@.len() == 0,
            r.w_payload@.len() == 0,
            r.init_packet is None,
            r.emissions@ == 0,
    {
        MemberSession {
            r_payload: Vec::new(),
            w_payload: Vec::new(),
            init_packet: None,
            counter: 0,
            ts: 0,
            emissions: Ghost(0),
        }
    }

    /// Appends one decoded frame to the read queue. When the queue already
    /// holds more than the cap, it is dropped first, so the queue never
    /// grows past the cap plus the new frame.
    pub fn push_decoded_frame(&mut self, frame: &Vec<u8>)
        requires
            old(self).wf(),
            frame@.len() == FRAME_BYTES,
        ensures
            final(self).wf(),
            final(self).w_payload == old(self).w_payload,
            final(self).init_packet == old(self).init_packet,
            final(self).counter == old(self).counter,
            final(self).ts == old(self).ts,
            final(self).emissions == old(self).emissions,
            old(self).r_payload@.len() > READ_CAP ==> final(self).r_payload@ == frame@,
            old(self).r_payload@.len() <= READ_CAP ==> final(self).r_payload@ == old(self).r_payload@ + frame@,
            final(self).r_payload@.len() <= READ_CAP + FRAME_BYTES,
    {
        if self.r_payload.len() > READ_CAP {
            self.r_payload = clone_bytes(frame);
        } else {
            let mut f = clone_bytes(frame);
            self.r_payload.append(&mut f);
        }
    }

    /// Pops the oldest frame from the read queue; after the pop, a queue
    /// still holding a full second is dropped. At the cap, this returns a
    /// frame and leaves the queue empty.
    pub fn get_read_payload(&mut self) -> (r: Option<Vec<u8>>)
        requires
            old(self).wf(),
        ensures
            final(self).wf(),
            final(self).w_payload == old(self).w_payload,
            final(self).init_packet == old(self).init_packet,
            final(self).counter == old(self).counter,
            final(self).ts == old(self).ts,
            final(self).emissions == old(self).emissions,
            old(self).r_payload@.len() < FRAME_BYTES ==> r is None && final(self).r_payload == old(self).r_payload,
            old(self).r_payload@.len() >= FRAME_BYTES ==> {
                let rest = old(self).r_payload@.skip(FRAME_BYTES as int);
                &&& r matches Some(f)
                &&& f@ == old(self).r_payload@.take(FRAME_BYTES as int)
                &&& f@.len() == FRAME_BYTES
                &&& (rest.len() >= READ_CAP ==> final(self).r_payload@ == Seq::<u8>::empty())
                &&& (rest.len() < READ_CAP ==> final(self).r_payload@ == rest)
            },
    {
        if self.r_payload.len() < FRAME_BYTES {
            return None;
        }
        let mut frame: Vec<u8> = Vec::new();
        let mut i: usize = 0;
        while i < FRAME_BYTES
            invariant
                0 <= i <= FRAME_BYTES,
                FRAME_BYTES <= self.r_payload@.len(),
                frame@ == self.r_payload@.take(i as int),
            decreases FRAME_BYTES - i,
        {
            frame.push(self.r_payload[i]);
            proof {
                assert(self.r_payload@.take(i as int + 1) =~= self.r_payload@.take(i as int).push(
                    self.r_payload@[i as int],
                ));
            }
            i = i + 1;
        }
        let mut rest: Vec<u8> = Vec::new();
        let mut j: usize = FRAME_BYTES;
        proof {
            assert(self.r_payload@.subrange(FRAME_BYTES as int, FRAME_BYTES as int) =~= Seq::<
                u8,
            >::empty());
        }
        while j < self.r_payload.len()
            invariant
                FRAME_BYTES <= j <= self.r_payload@.len(),
                rest@ == self.r_payload@.subrange(FRAME_BYTES as int, j as int),
            decreases self.r_payload@.len() - j,
        {
            rest.push(self.r_payload[j]);
            proof {
                assert(self.r_payload@.subrange(FRAME_BYTES as int, j as int + 1)
                    =~= self.r_payload@.subrange(FRAME_BYTES as int, j as int).push(
                    self.r_payload@[j as int],
                ));
            }
            j = j + 1;
        }
        proof {
            assert(rest@ =~= self.r_payload@.skip(FRAME_BYTES as int));
        }
        if rest.len() >= READ_CAP {
            self.r_payload = Vec::new();
            proof {
                assert(self.r_payload@ =~= Seq::<u8>::empty());
            }
        } else {
            self.r_payload = rest;
        }
        Some(frame)
    }

    /// Appends PCM destined for this member to the write queue.
    pub fn set_write_payload(&mut self, payload: &Vec<u8>)
        requires
            old(self).wf(),
        ensures
            final(self).wf(),
            final(self).w_payload@ == old(self).w_payload@ + payload@,
            final(self).r_payload == old(self).r_payload,
            final(self).init_packet == old(self).init_packet,
            final(self).counter == old(self).counter,
            final(self).ts == old(self).ts,
            final(self).emissions == old(self).emissions,
    {
        let mut p = clone_bytes(payload);
        self.w_payload.append(&mut p);
    }

    /// Takes the oldest full frame out of the write queue, already converted
    /// to samples for the encoder; `None` while less than a frame waits.
    pub fn take_write_frame(&mut self) -> (r: Option<Vec<i16>>)
        requires
            old(self).wf(),
        ensures
            final(self).wf(),
            final(self).r_payload == old(self).r_payload,
            final(self).init_packet == old(self).init_packet,
            final(self).counter == old(self).counter,
            final(self).ts == old(self).ts,
            final(self).emissions == old(self).emissions,
            old(self).w_payload@.len() < FRAME_BYTES ==> r is None && final(self).w_payload == old(self).w_payload,
            old(self).w_payload@.len() >= FRAME_BYTES ==> {
                &&& r matches Some(samples)
                &&& samples@.len() == FRAME_SAMPLES
                &&& (forall|i: int|
                    0 <= i < FRAME_SAMPLES as int ==> samples@[i] == sample_of_pair(
                        old(self).w_payload@[2 * i],
                        old(self).w_payload@[2 * i + 1],
                    ))
                &&& final(self).w_payload@ == old(self).w_payload@.skip(FRAME_BYTES as int)
            },
    {
        if self.w_payload.len() < FRAME_BYTES {
            return None;
        }
        let mut samples: Vec<i16> = Vec::new();
        let mut i: usize = 0;
        while i < FRAME_SAMPLES
            invariant
                0 <= i <= FRAME_SAMPLES,
                FRAME_BYTES <= self.w_payload@.len(),
                samples@.len() == i,
                forall|j: int|
                    0 <= j < i ==> samples@[j] == sample_of_pair(
                        self.w_payload@[2 * j],
                        self.w_payload@[2 * j + 1],
                    ),
            decreases FRAME_SAMPLES - i,
        {
            let lo = self.w_payload[2 * i];
            let hi = self.w_payload[2 * i + 1];
            let v: u16 = (hi as u16) * 0x100 + (lo as u16);
            samples.push(#[verifier::truncate] (v as i16));
            i = i + 1;
        }
        let mut rest: Vec<u8> = Vec::new();
        let mut j: usize = FRAME_BYTES;
        proof {
            assert(self.w_payload@.subrange(FRAME_BYTES as int, FRAME_BYTES as int) =~= Seq::<
                u8,
            >::empty());
        }
        while j < self.w_payload.len()
            invariant
                FRAME_BYTES <= j <= self.w_payload@.len(),
                rest@ == self.w_payload@.subrange(FRAME_BYTES as int, j as int),
            decreases self.w_payload@.len() - j,
        {
            rest.push(self.w_payload[j]);
            proof {
                assert(self.w_payload@.subrange(FRAME_BYTES as int, j as int + 1)
                    =~= self.w_payload@.subrange(FRAME_BYTES as int, j as int).push(
                    self.w_payload@[j as int],
                ));
            }
            j = j + 1;
        }
        proof {
            assert(rest@ =~= self.w_payload@.skip(FRAME_BYTES as int));
        }
        self.w_payload = rest;
        Some(samples)
    }

    /// Records the first inbound packet as the template for outbound
    /// headers; later packets leave it unchanged.
    pub fn note_inbound_packet(&mut self, pkt: RtpPkt)
        requires
            old(self).wf(),
        ensures
            final(self).wf(),
            old(self).init_packet is None ==> final(self).init_packet == Some(pkt),
            old(self).init_packet is Some ==> final(self).init_packet == old(self).init_packet,
            final(self).r_payload == old(self).r_payload,
            final(self).w_payload == old(self).w_payload,
            final(self).counter == old(self).counter,
            final(self).ts == old(self).ts,
            final(self).emissions == old(self).emissions,
    {
        if self.init_packet.is_none() {
            self.init_packet = Some(pkt);
        }
    }

    /// Builds the header of the next outbound packet and advances the
    /// counters. The k-th emitted packet (counting from one) carries
    /// seq = template.seq + k and ts = template.ts + 960·k, both wrapping in
    /// their fields. Without a template nothing is emitted.
    pub fn build_outbound_packet(&mut self, encoded: Vec<u8>) -> (r: Option<RtpPkt>)
        requires
            old(self).wf(),
        ensures
            final(self).wf(),
            final(self).r_payload == old(self).r_payload,
            final(self).w_payload == old(self).w_payload,
            final(self).init_packet == old(self).init_packet,
            old(self).init_packet is None ==> r is None && final(self).emissions == old(self).emissions && final(self).counter == old(self).counter && final(self).ts == old(self).ts,
            old(self).init_packet matches Some(t) ==> {
                let k = old(self).emissions@ + 1;
                &&& final(self).emissions@ == k
                &&& r matches Some(p)
                &&& p@.payload == encoded@
                &&& p@.header.version == 2
                &&& p@.header.padding == 0
                &&& p@.header.ext == 0
                &&& p@.header.cc == 0
                &&& p@.header.marker == 0
                &&& p@.header.payload_type == t@.header.payload_type
                &&& p@.header.ssrc == t@.header.ssrc
                &&& p@.header.csrc == t@.header.csrc
                &&& p@.header.seq_number == (t@.header.seq_number + k) % 0x10000
                &&& p@.header.timestamp == (t@.header.timestamp + TS_STEP as nat * k)
                    % 0x1_0000_0000
            },
    {
        match &self.init_packet {
            None => None,
            Some(t) => {
                let ghost old_emissions = self.emissions@;
                let ghost c0 = self.counter;
                let ghost t0 = self.ts;
                // advance first: the k-th emitted packet is offset by k
                self.counter = if self.counter == 0xffff {
                    0
                } else {
                    self.counter + 1
                };
                self.ts = if self.ts >= 0xffff_ffffu32 - TS_STEP + 1 {
                    (self.ts as u64 + TS_STEP as u64 - 0x1_0000_0000u64) as u32
                } else {
                    self.ts + TS_STEP
                };
                proof {
                    self.emissions@ = old_emissions + 1;
                    let c1 = self.counter;
                    let t1 = self.ts;
                    assert(c1 == (old_emissions + 1) % 0x10000) by (nonlinear_arith)
                        requires
                            c0 == old_emissions % 0x10000,
                            c1 == if c0 == 0xffff {
                                0u16
                            } else {
                                (c0 + 1) as u16
                            },
                            old_emissions >= 0,
                    ;
                    assert(t1 == (TS_STEP as nat * (old_emissions + 1)) % 0x1_0000_0000)
                        by (nonlinear_arith)
                        requires
                            t0 == (TS_STEP as nat * old_emissions) % 0x1_0000_0000,
                            t1 == if t0 >= 0x1_0000_0000 - TS_STEP {
                                (t0 + TS_STEP - 0x1_0000_0000) as u32
                            } else {
                                (t0 + TS_STEP) as u32
                            },
                            old_emissions >= 0,
                    ;
                }
                let seq = add_mod_u16(t.header.seq_number, self.counter);
                let ts = add_mod_u32(t.header.timestamp, self.ts);
                let pkt = RtpPkt {
                    header: RtpHeader {
                        version: 2,
                        padding: 0,
                        ext: 0,
                        cc: 0,
                        marker: 0,
                        payload_type: t.header.payload_type,
                        seq_number: seq,
                        timestamp: ts,
                        ssrc: t.header.ssrc,
                        csrc: clone_csrc(&t.header.csrc),
                    },
                    payload: encoded,
                };
                proof {
                    let tv = old(self).init_packet->0@;
                    let k = old_emissions + 1;
                    assert(seq == (tv.header.seq_number + k) % 0x10000) by (nonlinear_arith)
                        requires
                            seq == (tv.header.seq_number + self.counter) % 0x10000,
                            self.counter == k % 0x10000,
                            k >= 0,
                    ;
                    assert(ts == (tv.header.timestamp + TS_STEP as nat * k) % 0x1_0000_0000)
                        by (nonlinear_arith)
                        requires
                            ts == (tv.header.timestamp + self.ts) % 0x1_0000_0000,
                            self.ts == (TS_STEP as nat * k) % 0x1_0000_0000,
                            k >= 0,
                    ;
                }
                Some(pkt)
            },
        }
    }
}

/// Wrapping 16-bit addition.
fn add_mod_u16(a: u16, b: u16) -> (r: u16)
    ensures
        r == (a + b) % 0x10000,
{
    let s: u32 = a as u32 + b as u32;
    (s % 0x10000) as u16
}

/// Wrapping 32-bit addition.
fn add_mod_u32(a: u32, b: u32) -> (r: u32)
    ensures
        r == (a + b) % 0x1_0000_0000,
{
    let s: u64 = a as u64 + b as u64;
    (s % 0x1_0000_0000u64) as u32
}

fn clone_csrc(v: &Vec<u32>) -> (r: Vec<u32>)
    ensures
        r@ == v@,
{
    let mut r: Vec<u32> = Vec::new();
    let mut i: usize = 0;
    while i < v.len()
        invariant
            0 <= i <= v@.len(),
            r@ == v@.subrange(0, i as int),
        decreases v@.len() - i,
    {
        r.push(v[i]);
        proof {
            assert(v@.subrange(0, i as int + 1) =~= v@.subrange(0, i as int).push(v@[i as int]));
        }
        i = i + 1;
    }
    proof {
        assert(v@.subrange(0, i as int) =~= v@);
    }
    r
}

// ---------------------------------------------------------------------------
// A member: identity, offer, negotiation state, pipeline state

/// One conference member: its identity, the offer it arrived with, the
/// negotiation session, and the audio pipeline state.
pub struct Member {
    pub id: String,
    pub sdp: crate::sdp::SessionDescription,
    pub session: crate::session::Session,
    pub member_session: MemberSession,
}

impl Member {
    /// A member for the given (already parsed) offer, under a fresh id.
    pub fn new(sdp: crate::sdp::SessionDescription) -> (r: Member)
        ensures
            r.id@.len() == 36,
            r.sdp@ == sdp@,
            r.session.offer_sdp@ == sdp@,
            r.session.base_sdp is None,
            r.session.answer_sdp is None,
            r.session.sdp_to_ice@.len() == 0,
            r.session.ice@.streams.len() == 0,
            r.member_session.wf(),
            r.member_session.r_payload@.len() == 0,
            r.member_session.w_payload@.len() == 0,
            r.member_session.init_packet is None,
            r.member_session.counter == 0,
            r.member_session.ts == 0,
            r.member_session.emissions@ == 0,
    {
        let id = crate::ice::fresh_id();
        let offer = sdp.deep_clone();
        Member {
            id,
            sdp,
            session: crate::session::Session::new(offer),
            member_session: MemberSession::new(),
        }
    }

    /// Pops the oldest decoded frame of this member, with the drop-oldest
    /// cap discipline of the read queue.
    pub fn get_read_payload(&mut self) -> (r: Option<Vec<u8>>)
        requires
            old(self).member_session.wf(),
        ensures
            final(self).member_session.wf(),
            final(self).id == old(self).id,
            final(self).sdp == old(self).sdp,
            final(self).member_session.w_payload == old(self).member_session.w_payload,
            final(self).member_session.init_packet == old(self).member_session.init_packet,
            final(self).member_session.counter == old(self).member_session.counter,
            final(self).member_session.ts == old(self).member_session.ts,
            final(self).member_session.emissions == old(self).member_session.emissions,
            old(self).member_session.r_payload@.len() < FRAME_BYTES ==> r is None && final(self).member_session == old(self).member_session,
            old(self).member_session.r_payload@.len() >= FRAME_BYTES ==> {
                let rest = old(self).member_session.r_payload@.skip(FRAME_BYTES as int);
                &&& r matches Some(f)
                &&& f@ == old(self).member_session.r_payload@.take(FRAME_BYTES as int)
                &&& f@.len() == FRAME_BYTES
                &&& (rest.len() >= READ_CAP ==> final(self).member_session.r_payload@ == Seq::<
                    u8,
                >::empty())
                &&& (rest.len() < READ_CAP ==> final(self).member_session.r_payload@ == rest)
            },
            final(self).session == old(self).session,
    {
        let r = self.member_session.get_read_payload();
        proof {
            if old(self).member_session.r_payload@.len() < FRAME_BYTES {
                assert(self.member_session =~~= old(self).member_session);
            }
        }
        r
    }

    /// Appends mixed PCM destined for this member.
    pub fn set_write_payload(&mut self, payload: &Vec<u8>)
        requires
            old(self).member_session.wf(),
        ensures
            final(self).member_session.wf(),
            final(self).id == old(self).id,
            final(self).sdp == old(self).sdp,
            final(self).member_session.w_payload@ == old(self).member_session.w_payload@
                + payload@,
            final(self).member_session.r_payload == old(self).member_session.r_payload,
            final(self).member_session.init_packet == old(self).member_session.init_packet,
            final(self).member_session.counter == old(self).member_session.counter,
            final(self).member_session.ts == old(self).member_session.ts,
            final(self).member_session.emissions == old(self).member_session.emissions,
            final(self).session == old(self).session,
    {
        self.member_session.set_write_payload(payload)
    }

    /// Prepares the media plane for this member: one ICE stream per offered
    /// media line, in order, with local candidates gathered on the given
    /// address; the offered candidate attributes are handed to the agent.
    pub fn init_session(
        &mut self,
        local_addr: Option<&crate::addr::IpAddr>,
        ports: &mut crate::ice::PortAllocator,
    )
        requires
            old(self).session.sdp_to_ice@.len() == 0,
            old(self).session.ice@.streams.len() == 0,
        ensures
            final(self).id == old(self).id,
            final(self).sdp == old(self).sdp,
            final(self).member_session == old(self).member_session,
            final(self).session.offer_sdp == old(self).session.offer_sdp,
            final(self).session.base_sdp == old(self).session.base_sdp,
            final(self).session.answer_sdp == old(self).session.answer_sdp,
            final(self).session.sdp_to_ice@.len() == old(self).session.offer_sdp@.media.len(),
            ((local_addr is None || old(ports).next_port + 2 * old(
                self,
            ).session.offer_sdp@.media.len() <= u16::MAX) && crate::session::distinct_ids(
                Seq::new(
                    final(self).session.sdp_to_ice@.len(),
                    |k: int| final(self).session.sdp_to_ice@[k]@,
                ),
            )) ==> final(self).session.ice@.streams == Seq::new(
                old(self).session.offer_sdp@.media.len(),
                |k: int|
                    crate::session::spec_offer_stream(
                        final(self).session.sdp_to_ice@[k]@,
                        old(self).session.offer_sdp@.media[k],
                        crate::session::spec_locals(
                            match local_addr {
                                Some(a) => Some(a@),
                                None => None,
                            },
                            old(ports).next_port + 2 * k,
                        ),
                    ),
            ),
    {
        self.session.process_offer(local_addr, ports)
    }

    /// Negotiates this member's answer against the conference base, then
    /// binds the gathered candidates into it; the returned bindings tell the
    /// media plane which sockets to open. The stored answer is the
    /// negotiation of the stored offer, extended only by candidate
    /// attributes (and the connection rewrite they bring).
    pub fn negotiate_session(&mut self, base_sdp: Option<&crate::sdp::SessionDescription>) -> (r:
        Vec<crate::session::MediaBinding>)
        ensures
            final(self).id == old(self).id,
            final(self).sdp == old(self).sdp,
            final(self).member_session == old(self).member_session,
            final(self).session.offer_sdp == old(self).session.offer_sdp,
            final(self).session.answer_sdp matches Some(a) && (match base_sdp {
                Some(b) => exists|uf: Seq<u8>, pw: Seq<u8>|
                    crate::negotiate::credential_bytes(uf) && crate::negotiate::credential_bytes(
                        pw,
                    ) && crate::session::extends_with_candidates(
                        a@,
                        #[trigger] crate::negotiate::spec_negotiated(
                            Some(b@),
                            old(self).session.offer_sdp@,
                            uf,
                            pw,
                        ),
                    ),
                None => exists|uf: Seq<u8>, pw: Seq<u8>|
                    crate::negotiate::credential_bytes(uf) && crate::negotiate::credential_bytes(
                        pw,
                    ) && crate::session::extends_with_candidates(
                        a@,
                        #[trigger] crate::negotiate::spec_negotiated(
                            None,
                            old(self).session.offer_sdp@,
                            uf,
                            pw,
                        ),
                    ),
            }),
    {
        self.session.negotiate_with_base_sdp(base_sdp);
        let ghost mid = self.session.answer_sdp->0@;
        let ghost ice_mid = self.session.ice@.streams;
        let r = self.session.process_answer();
        proof {
            let a = self.session.answer_sdp->0@;
            let n = self.session.sdp_to_ice@.len() as int;
            let ids = Seq::new(
                self.session.sdp_to_ice@.len(),
                |k: int| self.session.sdp_to_ice@[k]@,
            );
            assert forall|k: int| 0 <= k < a.media.len() implies (#[trigger] a.media[k]).media
                == mid.media[k].media && crate::session::extends_by_candidates(
                mid.media[k].attrs,
                a.media[k].attrs,
            ) by {
                if k < n {
                    let g = crate::session::spec_media_gain(ice_mid, ids[k]);
                    assert(crate::session::all_candidate_attrs(g)) by {
                        match crate::ice::spec_find_stream(ice_mid, ids[k]) {
                            Some(si) => {
                                crate::session::lemma_attrs_of_candidates_all(
                                    crate::ice::cands_for(
                                        ice_mid[si].local_candidates,
                                        crate::ice::RTP_COMPONENT_ID,
                                    ) + crate::ice::cands_for(
                                        ice_mid[si].local_candidates,
                                        crate::ice::RTCP_COMPONENT_ID,
                                    ),
                                );
                            },
                            None => {},
                        }
                    }
                    assert(a.media[k].attrs == mid.media[k].attrs + g);
                } else {
                    let g = Seq::<crate::sdp::AttrV>::empty();
                    assert(crate::session::all_candidate_attrs(g));
                    assert(a.media[k].attrs == mid.media[k].attrs + g);
                }
            }
            assert(crate::session::extends_with_candidates(a, mid));
        }
        r
    }

    /// The negotiated answer; only meaningful once negotiation ran.
    pub fn get_session_answer(&self) -> (r: crate::sdp::SessionDescription)
        requires
            self.session.answer_sdp is Some,
        ensures
            r@ == self.session.answer_sdp->0@,
    {
        self.session.answer_sdp.as_ref().unwrap().deep_clone()
    }
}


} // verus!
