//! RTP packets as plain data, and their wire form.

use vstd::prelude::*;

verus! {

#[derive(Clone, Debug, PartialEq)]
pub struct RtpHeader {
    pub version: u8,
    pub padding: u8,
    pub ext: u8,
    pub cc: u8,
    pub marker: u8,
    pub payload_type: u8,
    pub seq_number: u16,
    pub timestamp: u32,
    pub ssrc: u32,
    pub csrc: Vec<u32>,
}

#[verifier::ext_equal]
pub struct RtpHeaderV {
    pub version: u8,
    pub padding: u8,
    pub ext: u8,
    pub cc: u8,
    pub marker: u8,
    pub payload_type: u8,
    pub seq_number: u16,
    pub timestamp: u32,
    pub ssrc: u32,
    pub csrc: Seq<u32>,
}

impl View for RtpHeader {
    type V = RtpHeaderV;

    open spec fn view(&self) -> RtpHeaderV {
        RtpHeaderV {
            version: self.version,
            padding: self.padding,
            ext: self.ext,
            cc: self.cc,
            marker: self.marker,
            payload_type: self.payload_type,
            seq_number: self.seq_number,
            timestamp: self.timestamp,
            ssrc: self.ssrc,
            csrc: self.csrc@,
        }
    }
}

#[derive(Clone, Debug, PartialEq)]
pub struct RtpPkt {
    pub header: RtpHeader,
    pub payload: Vec<u8>,
}

#[verifier::ext_equal]
pub struct RtpPktV {
    pub header: RtpHeaderV,
    pub payload: Seq<u8>,
}

impl View for RtpPkt {
    type V = RtpPktV;

    open spec fn view(&self) -> RtpPktV {
        RtpPktV { header: self.header@, payload: self.payload@ }
    }
}

/// A header whose flag fields fit their wire widths and whose CSRC count
/// matches its list.
pub open spec fn wf_header(h: RtpHeaderV) -> bool {
    &&& h.version < 4
    &&& h.padding < 2
    &&& h.ext < 2
    &&& h.marker < 2
    &&& h.payload_type < 128
    &&& h.cc == h.csrc.len()
    &&& h.csrc.len() <= 15
}

/// The four big-endian bytes of a 32-bit value.
pub open spec fn spec_be32(v: u32) -> Seq<u8> {
    seq![
        (v / 0x1000000) as u8,
        ((v / 0x10000) % 0x100) as u8,
        ((v / 0x100) % 0x100) as u8,
        (v % 0x100) as u8,
    ]
}

pub open spec fn spec_be16(v: u16) -> Seq<u8> {
    seq![(v / 0x100) as u8, (v % 0x100) as u8]
}

pub open spec fn spec_csrc_bytes(csrc: Seq<u32>) -> Seq<u8>
    decreases csrc.len(),
{
    if csrc.len() == 0 {
        Seq::empty()
    } else {
        spec_csrc_bytes(csrc.drop_last()) + spec_be32(csrc.last())
    }
}

/// The wire form: the two flag bytes, sequence number, timestamp, SSRC, the
/// CSRC list, then the payload.
pub open spec fn spec_encode_rtp(p: RtpPktV) -> Seq<u8>
    recommends
        wf_header(p.header),
{
    seq![
        (p.header.version * 64 + p.header.padding * 32 + p.header.ext * 16 + p.header.cc) as u8,
        (p.header.marker * 128 + p.header.payload_type) as u8,
    ] + spec_be16(p.header.seq_number) + spec_be32(p.header.timestamp) + spec_be32(p.header.ssrc)
        + spec_csrc_bytes(p.header.csrc) + p.payload
}

fn push_be16(out: &mut Vec<u8>, v: u16)
    ensures
        final(out)@ == old(out)@ + spec_be16(v),
{
    out.push((v / 0x100) as u8);
    out.push((v % 0x100) as u8);
    proof {
        assert(final(out)@ =~= old(out)@ + spec_be16(v));
    }
}

fn push_be32(out: &mut Vec<u8>, v: u32)
    ensures
        final(out)@ == old(out)@ + spec_be32(v),
{
    out.push((v / 0x1000000) as u8);
    out.push(((v / 0x10000) % 0x100) as u8);
    out.push(((v / 0x100) % 0x100) as u8);
    out.push((v % 0x100) as u8);
    proof {
        assert(final(out)@ =~= old(out)@ + spec_be32(v));
    }
}

/// Serializes a packet to its wire form.
pub fn encode_rtp(p: &RtpPkt) -> (out: Vec<u8>)
    requires
        wf_header(p@.header),
    ensures
        out@ == spec_encode_rtp(p@),
{
    let h = &p.header;
    let mut out: Vec<u8> = Vec::new();
    out.push(h.version * 64 + h.padding * 32 + h.ext * 16 + h.cc);
    out.push(h.marker * 128 + h.payload_type);
    push_be16(&mut out, h.seq_number);
    push_be32(&mut out, h.timestamp);
    push_be32(&mut out, h.ssrc);
    let ghost head = out@;
    let mut i: usize = 0;
    proof {
        assert(h@.csrc.subrange(0, 0) =~= Seq::<u32>::empty());
    }
    while i < h.csrc.len()
        invariant
            0 <= i <= h.csrc@.len(),
            out@ == head + spec_csrc_bytes(h.csrc@.subrange(0, i as int)),
        decreases h.csrc@.len() - i,
    {
        push_be32(&mut out, h.csrc[i]);
        proof {
            let p1 = h.csrc@.subrange(0, i as int + 1);
            assert(p1.drop_last() =~= h.csrc@.subrange(0, i as int));
            assert(p1.last() == h.csrc@[i as int]);
            assert(out@ =~= head + spec_csrc_bytes(p1));
        }
        i = i + 1;
    }
    proof {
        assert(h.csrc@.subrange(0, i as int) =~= h.csrc@);
    }
    let mut j: usize = 0;
    let ghost head2 = out@;
    while j < p.payload.len()
        invariant
            0 <= j <= p.payload@.len(),
            out@ == head2 + p.payload@.subrange(0, j as int),
        decreases p.payload@.len() - j,
    {
        out.push(p.payload[j]);
        proof {
            assert(p.payload@.subrange(0, j as int + 1) =~= p.payload@.subrange(0, j as int).push(
                p.payload@[j as int],
            ));
        }
        j = j + 1;
    }
    proof {
        assert(p.payload@.subrange(0, j as int) =~= p.payload@);
        assert(out@ =~= spec_encode_rtp(p@));
    }
    out
}

/// Reads a packet back from its wire form; `None` when the bytes are too
/// short for the header and CSRC list they announce.
pub fn decode_rtp(b: &[u8]) -> (r: Option<RtpPkt>)
    ensures
        r matches Some(p) ==> wf_header(p@.header) && spec_encode_rtp(p@) == b@,
        b@.len() < 12 ==> r is None,
{
    if b.len() < 12 {
        return None;
    }
    let b0 = b[0];
    let b1 = b[1];
    let version = b0 / 64;
    let padding = (b0 / 32) % 2;
    let ext = (b0 / 16) % 2;
    let cc = b0 % 16;
    let marker = b1 / 128;
    let payload_type = b1 % 128;
    let need: usize = 12 + 4 * (cc as usize);
    if b.len() < need {
        return None;
    }
    let seq_number: u16 = (b[2] as u16) * 0x100 + (b[3] as u16);
    let timestamp: u32 = (b[4] as u32) * 0x1000000 + (b[5] as u32) * 0x10000 + (b[6] as u32)
        * 0x100 + (b[7] as u32);
    let ssrc: u32 = (b[8] as u32) * 0x1000000 + (b[9] as u32) * 0x10000 + (b[10] as u32) * 0x100
        + (b[11] as u32);
    let mut csrc: Vec<u32> = Vec::new();
    let mut i: usize = 0;
    while i < cc as usize
        invariant
            0 <= i <= cc as usize,
            12 + 4 * (cc as usize) <= b@.len(),
            csrc@.len() == i,
            forall|k: int|
                0 <= k < i ==> #[trigger] csrc@[k] == (b@[12 + 4 * k] as u32) * 0x1000000 + (b@[13
                    + 4 * k] as u32) * 0x10000 + (b@[14 + 4 * k] as u32) * 0x100 + (b@[15 + 4 * k]
                    as u32),
        decreases cc as usize - i,
    {
        let base = 12 + 4 * i;
        let v: u32 = (b[base] as u32) * 0x1000000 + (b[base + 1] as u32) * 0x10000 + (b[base + 2]
            as u32) * 0x100 + (b[base + 3] as u32);
        csrc.push(v);
        i = i + 1;
    }
    let mut payload: Vec<u8> = Vec::new();
    let mut j: usize = need;
    proof {
        assert(b@.subrange(need as int, need as int) =~= Seq::<u8>::empty());
    }
    while j < b.len()
        invariant
            need <= j <= b@.len(),
            payload@ == b@.subrange(need as int, j as int),
        decreases b@.len() - j,
    {
        payload.push(b[j]);
        proof {
            assert(b@.subrange(need as int, j as int + 1) =~= b@.subrange(
                need as int,
                j as int,
            ).push(b@[j as int]));
        }
        j = j + 1;
    }
    let pkt = RtpPkt {
        header: RtpHeader {
            version,
            padding,
            ext,
            cc,
            marker,
            payload_type,
            seq_number,
            timestamp,
            ssrc,
            csrc,
        },
        payload,
    };
    proof {
        lemma_decode_encode(pkt@, b@, need as int);
    }
    Some(pkt)
}

/// The decoded fields reassemble to the bytes they were read from.
proof fn lemma_decode_encode(p: RtpPktV, b: Seq<u8>, need: int)
    requires
        b.len() >= 12,
        need == 12 + 4 * p.header.csrc.len() as int,
        need <= b.len(),
        p.header.version == b[0] / 64,
        p.header.padding == (b[0] / 32) % 2,
        p.header.ext == (b[0] / 16) % 2,
        p.header.cc == b[0] % 16,
        p.header.marker == b[1] / 128,
        p.header.payload_type == b[1] % 128,
        p.header.cc == p.header.csrc.len(),
        p.header.seq_number == (b[2] as u16) * 0x100 + (b[3] as u16),
        p.header.timestamp == (b[4] as u32) * 0x1000000 + (b[5] as u32) * 0x10000 + (b[6] as u32)
            * 0x100 + (b[7] as u32),
        p.header.ssrc == (b[8] as u32) * 0x1000000 + (b[9] as u32) * 0x10000 + (b[10] as u32)
            * 0x100 + (b[11] as u32),
        forall|k: int|
            0 <= k < p.header.csrc.len() ==> #[trigger] p.header.csrc[k] == (b[12 + 4 * k] as u32)
                * 0x1000000 + (b[13 + 4 * k] as u32) * 0x10000 + (b[14 + 4 * k] as u32) * 0x100 + (
            b[15 + 4 * k] as u32),
        p.payload == b.subrange(need, b.len() as int),
    ensures
        wf_header(p.header),
        spec_encode_rtp(p) == b,
{
    let h = p.header;
    let c0 = b[0];
    let c1 = b[1];
    let ver = h.version;
    let pad = h.padding;
    let ext = h.ext;
    let cc = h.cc;
    let mk = h.marker;
    let pt = h.payload_type;
    assert(ver < 4 && pad < 2 && ext < 2 && mk < 2 && pt < 128 && cc < 16) by (bit_vector)
        requires
            ver == c0 / 64,
            pad == (c0 / 32) % 2,
            ext == (c0 / 16) % 2,
            cc == c0 % 16,
            mk == c1 / 128,
            pt == c1 % 128,
    ;
    assert(ver * 64 + pad * 32 + ext * 16 + cc == c0) by (bit_vector)
        requires
            ver == c0 / 64,
            pad == (c0 / 32) % 2,
            ext == (c0 / 16) % 2,
            cc == c0 % 16,
    ;
    assert(mk * 128 + pt == c1) by (bit_vector)
        requires
            mk == c1 / 128,
            pt == c1 % 128,
    ;
    assert(spec_be16(h.seq_number) =~= seq![b[2], b[3]]) by {
        let sq = h.seq_number;
        let c2 = b[2];
        let c3 = b[3];
        assert(sq / 0x100 == c2 as u16 && sq % 0x100 == c3 as u16) by (bit_vector)
            requires
                sq == (c2 as u16) * 0x100 + (c3 as u16),
        ;
    }
    lemma_be32_of(h.timestamp, b[4], b[5], b[6], b[7]);
    lemma_be32_of(h.ssrc, b[8], b[9], b[10], b[11]);
    lemma_csrc_section(h.csrc, b);
    assert(spec_encode_rtp(p) =~= b);
}

proof fn lemma_be32_of(v: u32, x0: u8, x1: u8, x2: u8, x3: u8)
    requires
        v == (x0 as u32) * 0x1000000 + (x1 as u32) * 0x10000 + (x2 as u32) * 0x100 + (x3 as u32),
    ensures
        spec_be32(v) =~= seq![x0, x1, x2, x3],
{
    assert(v / 0x1000000 == x0 as u32 && (v / 0x10000) % 0x100 == x1 as u32 && (v / 0x100) % 0x100
        == x2 as u32 && v % 0x100 == x3 as u32) by (bit_vector)
        requires
            v == (x0 as u32) * 0x1000000 + (x1 as u32) * 0x10000 + (x2 as u32) * 0x100 + (
                x3 as u32
            ),
    ;
}

/// The CSRC section of the wire form is the announced slice of the input.
proof fn lemma_csrc_section(csrc: Seq<u32>, b: Seq<u8>)
    requires
        12 + 4 * csrc.len() as int <= b.len(),
        forall|k: int|
            0 <= k < csrc.len() ==> #[trigger] csrc[k] == (b[12 + 4 * k] as u32) * 0x1000000 + (
            b[13 + 4 * k] as u32) * 0x10000 + (b[14 + 4 * k] as u32) * 0x100 + (b[15 + 4 * k]
                as u32),
    ensures
        spec_csrc_bytes(csrc) =~= b.subrange(12, 12 + 4 * csrc.len() as int),
    decreases csrc.len(),
{
    if csrc.len() == 0 {
    } else {
        let n = csrc.len() as int;
        assert(forall|k: int| 0 <= k < n - 1 ==> #[trigger] csrc.drop_last()[k] == csrc[k]);
        lemma_csrc_section(csrc.drop_last(), b);
        lemma_be32_of(csrc.last(), b[12 + 4 * (n - 1)], b[13 + 4 * (n - 1)], b[14 + 4 * (n - 1)],
            b[15 + 4 * (n - 1)]);
        assert(spec_csrc_bytes(csrc) =~= b.subrange(12, 12 + 4 * n));
    }
}

} // verus!
