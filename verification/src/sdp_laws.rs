//! Round-trip laws of the SDP codec: parsing inverts serialization.
//!
//! Stated over the byte-level model, construct by construct: for every
//! well-formed value the serializer can emit, the parser reads the emitted
//! bytes back to the same value.

use vstd::prelude::*;
use vstd::utf8::valid_utf8;
use crate::addr::{wf_ip, spec_ser_ip, lemma_ser_ip_plain, lemma_ip_round_trip, is_v6_byte};
use crate::ice::CandidateV;
use crate::sdp::{
    AttrV, spec_ser_attr, spec_parse_attr, spec_parse_attr_bare, spec_parse_attr_valued,
    spec_kw_ptime, spec_kw_ice_ufrag, spec_kw_ice_pwd, spec_kw_rtpmap, spec_kw_fmtp,
    spec_kw_candidate, spec_ser_rtpmap, spec_parse_rtpmap, spec_ser_fmtp, spec_parse_fmtp,
    spec_ser_candidate, spec_parse_candidate, RtpMapV, FmtPV, spec_ser_timing, spec_parse_timing,
    spec_kw_typ, spec_kw_raddr, spec_kw_rport, spec_ser_proto, spec_parse_proto,
    spec_ser_cand_type, spec_parse_cand_type,
};
use crate::text::{
    all_digits, dec_val, is_dec, is_digit, lemma_fmt_nat, lemma_split_cons,
    lemma_split_single_chunk, spec_fmt_nat, spec_split, chunk_has_no_sep, chunks_have_no_sep,
};

verus! {

/// The canonical decimal form of a bounded number parses back to it.
proof fn lemma_dec_round_trip(v: nat, max: nat)
    requires
        v <= max,
    ensures
        is_dec(spec_fmt_nat(v), max),
        dec_val(spec_fmt_nat(v)) == v,
        chunk_has_no_sep(spec_fmt_nat(v), 0x20),
        chunk_has_no_sep(spec_fmt_nat(v), 0x3a),
        chunk_has_no_sep(spec_fmt_nat(v), 0x2f),
        chunk_has_no_sep(spec_fmt_nat(v), 0x0a),
{
    lemma_fmt_nat(v);
    assert forall|i: int| 0 <= i < spec_fmt_nat(v).len() implies is_digit(
        #[trigger] spec_fmt_nat(v)[i],
    ) by {}
}

/// Splitting two separator-free chunks joined by the separator gives the
/// two chunks.
proof fn lemma_split_two(a: Seq<u8>, b: Seq<u8>, sep: u8)
    requires
        chunk_has_no_sep(a, sep),
        chunk_has_no_sep(b, sep),
    ensures
        spec_split(a + seq![sep] + b, sep) == seq![a, b],
{
    lemma_split_cons(a, b, sep);
    lemma_split_single_chunk(b, sep);
    assert(spec_split(a + seq![sep] + b, sep) =~~= seq![a, b]);
}

/// The ptime attribute round-trips.
proof fn lemma_attr_rt_ptime(p: u32)
    ensures
        spec_parse_attr(spec_ser_attr(AttrV::PTime(p))) == Some(AttrV::PTime(p)),
{
    lemma_dec_round_trip(p as nat, u32::MAX as nat);
    assert(chunk_has_no_sep(spec_kw_ptime(), 0x3a));
    lemma_split_two(spec_kw_ptime(), spec_fmt_nat(p as nat), 0x3a);
    assert(spec_ser_attr(AttrV::PTime(p)) =~= spec_kw_ptime() + seq![0x3au8] + spec_fmt_nat(
        p as nat,
    ));
    let parts = spec_split(spec_ser_attr(AttrV::PTime(p)), 0x3a);
    assert(parts == seq![spec_kw_ptime(), spec_fmt_nat(p as nat)]);
    assert(spec_parse_attr_bare(spec_kw_ptime()) is None);
}

/// The bare attributes (directions, ice-mismatch, ice-lite) round-trip.
proof fn lemma_attr_rt_bare(a: AttrV)
    requires
        a == AttrV::SendRecv || a == AttrV::SendOnly || a == AttrV::RecvOnly || a
            == AttrV::Inactive || a == AttrV::IceMismatch || a == AttrV::IceLite,
    ensures
        spec_parse_attr(spec_ser_attr(a)) == Some(a),
{
    let s = spec_ser_attr(a);
    assert(chunk_has_no_sep(s, 0x3a)) by {
        match a {
            AttrV::SendRecv => assert(forall|i: int|
                0 <= i < s.len() ==> #[trigger] s[i] != 0x3a),
            AttrV::SendOnly => assert(forall|i: int|
                0 <= i < s.len() ==> #[trigger] s[i] != 0x3a),
            AttrV::RecvOnly => assert(forall|i: int|
                0 <= i < s.len() ==> #[trigger] s[i] != 0x3a),
            AttrV::Inactive => assert(forall|i: int|
                0 <= i < s.len() ==> #[trigger] s[i] != 0x3a),
            AttrV::IceMismatch => assert(forall|i: int|
                0 <= i < s.len() ==> #[trigger] s[i] != 0x3a),
            _ => assert(forall|i: int| 0 <= i < s.len() ==> #[trigger] s[i] != 0x3a),
        }
    }
    lemma_split_single_chunk(s, 0x3a);
    assert(spec_split(s, 0x3a) == seq![s]);
}

/// Credential attributes round-trip when their value has no ':' in it.
proof fn lemma_attr_rt_credentials(a: AttrV)
    requires
        a matches AttrV::IceUfrag(u) ==> valid_utf8(u) && chunk_has_no_sep(u, 0x3a),
        a matches AttrV::IcePwd(p) ==> valid_utf8(p) && chunk_has_no_sep(p, 0x3a),
        a is IceUfrag || a is IcePwd,
    ensures
        spec_parse_attr(spec_ser_attr(a)) == Some(a),
{
    match a {
        AttrV::IceUfrag(u) => {
            assert(chunk_has_no_sep(spec_kw_ice_ufrag(), 0x3a));
            lemma_split_two(spec_kw_ice_ufrag(), u, 0x3a);
            assert(spec_ser_attr(a) =~= spec_kw_ice_ufrag() + seq![0x3au8] + u);
            assert(spec_parse_attr_bare(spec_kw_ice_ufrag()) is None);
        },
        AttrV::IcePwd(p) => {
            assert(chunk_has_no_sep(spec_kw_ice_pwd(), 0x3a));
            lemma_split_two(spec_kw_ice_pwd(), p, 0x3a);
            assert(spec_ser_attr(a) =~= spec_kw_ice_pwd() + seq![0x3au8] + p);
            assert(spec_parse_attr_bare(spec_kw_ice_pwd()) is None);
        },
        _ => {},
    }
}


/// A plausible IPv6 literal always holds a ':', so a candidate attribute
/// (whose value is split on ':') can only carry dotted-quad addresses.
pub open spec fn rt_ip(ip: crate::addr::IpAddrV) -> bool {
    ip is V4
}

/// What the candidate serializer emits must come back in one piece: a
/// separator-free foundation, a named component, dotted-quad addresses, and
/// either both relay fields or neither.
pub open spec fn rt_candidate(c: CandidateV) -> bool {
    &&& c.component_id is Some
    &&& valid_utf8(c.foundation)
    &&& chunk_has_no_sep(c.foundation, 0x20)
    &&& chunk_has_no_sep(c.foundation, 0x3a)
    &&& chunk_has_no_sep(c.foundation, 0x0a)
    &&& rt_ip(c.conn)
    &&& (c.rel_addr is Some <==> c.rel_port is Some)
    &&& (c.rel_addr matches Some(ra) ==> rt_ip(ra))
}

/// A serialized dotted quad has no space, colon or newline in it.
proof fn lemma_v4_text_plain(ip: crate::addr::IpAddrV)
    requires
        rt_ip(ip),
    ensures
        chunk_has_no_sep(spec_ser_ip(ip), 0x20),
        chunk_has_no_sep(spec_ser_ip(ip), 0x3a),
        chunk_has_no_sep(spec_ser_ip(ip), 0x0a),
{
    match ip {
        crate::addr::IpAddrV::V4(a, b, c, d) => {
            lemma_fmt_nat(a as nat);
            lemma_fmt_nat(b as nat);
            lemma_fmt_nat(c as nat);
            lemma_fmt_nat(d as nat);
            let s = spec_ser_ip(ip);
            let fa = spec_fmt_nat(a as nat);
            let fb = spec_fmt_nat(b as nat);
            let fc = spec_fmt_nat(c as nat);
            let fd = spec_fmt_nat(d as nat);
            assert(s == fa + seq![0x2eu8] + fb + seq![0x2eu8] + fc + seq![0x2eu8] + fd);
            assert forall|i: int| 0 <= i < s.len() implies #[trigger] s[i] != 0x20 && s[i] != 0x3a
                && s[i] != 0x0a by {
                if i < fa.len() {
                    assert(is_digit(fa[i]));
                }
            }
        },
        _ => {
        },
    }
}

/// The space-split of a candidate value without relay fields.
#[verifier::rlimit(100)]
proof fn lemma_cand_tokens_base(c: CandidateV)
    requires
        rt_candidate(c),
        c.rel_addr is None,
        chunk_has_no_sep(spec_fmt_nat(c.component_id->0 as nat), 0x20),
        chunk_has_no_sep(spec_fmt_nat(c.priority as nat), 0x20),
        chunk_has_no_sep(spec_fmt_nat(c.port as nat), 0x20),
        chunk_has_no_sep(spec_ser_ip(c.conn), 0x20),
        chunk_has_no_sep(spec_ser_proto(c.proto), 0x20),
        chunk_has_no_sep(spec_ser_cand_type(c.candidate_type), 0x20),
    ensures
        spec_split(spec_ser_candidate(c), 0x20) == seq![
            c.foundation,
            spec_fmt_nat(c.component_id->0 as nat),
            spec_ser_proto(c.proto),
            spec_fmt_nat(c.priority as nat),
            spec_ser_ip(c.conn),
            spec_fmt_nat(c.port as nat),
            spec_kw_typ(),
            spec_ser_cand_type(c.candidate_type),
        ],
{
    assert(chunk_has_no_sep(spec_kw_typ(), 0x20));
    let chunks = seq![
        c.foundation,
            spec_fmt_nat(c.component_id->0 as nat),
            spec_ser_proto(c.proto),
            spec_fmt_nat(c.priority as nat),
            spec_ser_ip(c.conn),
            spec_fmt_nat(c.port as nat),
            spec_kw_typ(),
            spec_ser_cand_type(c.candidate_type),
    ];
    assert(chunks_have_no_sep(chunks, 0x20)) by {
        assert forall|i: int| 0 <= i < chunks.len() implies chunk_has_no_sep(#[trigger] chunks[i], 0x20) by {
            assert(chunks[0] == c.foundation);
            assert(chunks[1] == spec_fmt_nat(c.component_id->0 as nat));
            assert(chunks[2] == spec_ser_proto(c.proto));
            assert(chunks[3] == spec_fmt_nat(c.priority as nat));
            assert(chunks[4] == spec_ser_ip(c.conn));
            assert(chunks[5] == spec_fmt_nat(c.port as nat));
            assert(chunks[6] == spec_kw_typ());
            assert(chunks[7] == spec_ser_cand_type(c.candidate_type));
        }
    }
    reveal_with_fuel(crate::text::spec_join, 10);
    assert(spec_ser_candidate(c) =~= crate::text::spec_join(chunks, 0x20));
    crate::text::lemma_split_join(chunks, 0x20);
}

/// The space-split of a candidate value with relay fields.
#[verifier::rlimit(100)]
proof fn lemma_cand_tokens_ext(c: CandidateV)
    requires
        rt_candidate(c),
        c.rel_addr is Some,
        chunk_has_no_sep(spec_fmt_nat(c.component_id->0 as nat), 0x20),
        chunk_has_no_sep(spec_fmt_nat(c.priority as nat), 0x20),
        chunk_has_no_sep(spec_fmt_nat(c.port as nat), 0x20),
        chunk_has_no_sep(spec_fmt_nat(c.rel_port->0 as nat), 0x20),
        chunk_has_no_sep(spec_ser_ip(c.conn), 0x20),
        chunk_has_no_sep(spec_ser_ip(c.rel_addr->0), 0x20),
        chunk_has_no_sep(spec_ser_proto(c.proto), 0x20),
        chunk_has_no_sep(spec_ser_cand_type(c.candidate_type), 0x20),
    ensures
        spec_split(spec_ser_candidate(c), 0x20) == seq![
            c.foundation,
            spec_fmt_nat(c.component_id->0 as nat),
            spec_ser_proto(c.proto),
            spec_fmt_nat(c.priority as nat),
            spec_ser_ip(c.conn),
            spec_fmt_nat(c.port as nat),
            spec_kw_typ(),
            spec_ser_cand_type(c.candidate_type),
            spec_kw_raddr(),
            spec_ser_ip(c.rel_addr->0),
            spec_kw_rport(),
            spec_fmt_nat(c.rel_port->0 as nat),
        ],
{
    assert(chunk_has_no_sep(spec_kw_typ(), 0x20));
    assert(chunk_has_no_sep(spec_kw_raddr(), 0x20));
    assert(chunk_has_no_sep(spec_kw_rport(), 0x20));
    let chunks = seq![
        c.foundation,
            spec_fmt_nat(c.component_id->0 as nat),
            spec_ser_proto(c.proto),
            spec_fmt_nat(c.priority as nat),
            spec_ser_ip(c.conn),
            spec_fmt_nat(c.port as nat),
            spec_kw_typ(),
            spec_ser_cand_type(c.candidate_type),
            spec_kw_raddr(),
            spec_ser_ip(c.rel_addr->0),
            spec_kw_rport(),
            spec_fmt_nat(c.rel_port->0 as nat),
    ];
    assert(chunks_have_no_sep(chunks, 0x20)) by {
        assert forall|i: int| 0 <= i < chunks.len() implies chunk_has_no_sep(#[trigger] chunks[i], 0x20) by {
            assert(chunks[0] == c.foundation);
            assert(chunks[1] == spec_fmt_nat(c.component_id->0 as nat));
            assert(chunks[2] == spec_ser_proto(c.proto));
            assert(chunks[3] == spec_fmt_nat(c.priority as nat));
            assert(chunks[4] == spec_ser_ip(c.conn));
            assert(chunks[5] == spec_fmt_nat(c.port as nat));
            assert(chunks[6] == spec_kw_typ());
            assert(chunks[7] == spec_ser_cand_type(c.candidate_type));
            assert(chunks[8] == spec_kw_raddr());
            assert(chunks[9] == spec_ser_ip(c.rel_addr->0));
            assert(chunks[10] == spec_kw_rport());
            assert(chunks[11] == spec_fmt_nat(c.rel_port->0 as nat));
        }
    }
    reveal_with_fuel(crate::text::spec_join, 14);
    assert(spec_ser_candidate(c) =~= crate::text::spec_join(chunks, 0x20));
    crate::text::lemma_split_join(chunks, 0x20);
}

/// The candidate value round-trips through its parser.
#[verifier::rlimit(100)]
pub proof fn lemma_candidate_value_rt(c: CandidateV)
    requires
        rt_candidate(c),
    ensures
        spec_parse_candidate(spec_ser_candidate(c)) == Some(c),
{
    lemma_dec_round_trip(c.component_id->0 as nat, u16::MAX as nat);
    lemma_dec_round_trip(c.priority as nat, u32::MAX as nat);
    lemma_dec_round_trip(c.port as nat, u16::MAX as nat);
    lemma_v4_text_plain(c.conn);
    lemma_ip_round_trip(c.conn);
    assert(chunk_has_no_sep(spec_ser_proto(c.proto), 0x20) && spec_parse_proto(
        spec_ser_proto(c.proto),
    ) == Some(c.proto)) by {
        match c.proto {
            crate::ice::Proto::Udp => {
            },
            crate::ice::Proto::Tcp => {
            },
        }
    }
    assert(chunk_has_no_sep(spec_ser_cand_type(c.candidate_type), 0x20) && spec_parse_cand_type(
        spec_ser_cand_type(c.candidate_type),
    ) == Some(c.candidate_type)) by {
        match c.candidate_type {
            crate::ice::CandidateType::Host => {
            },
            crate::ice::CandidateType::Srflx => {
            },
            crate::ice::CandidateType::Prflx => {
            },
            crate::ice::CandidateType::Relay => {
            },
        }
    }
    match (c.rel_addr, c.rel_port) {
        (Some(ra), Some(rp)) => {
            lemma_v4_text_plain(ra);
            lemma_ip_round_trip(ra);
            lemma_dec_round_trip(rp as nat, u16::MAX as nat);
            lemma_cand_tokens_ext(c);
        },
        (None, None) => {
            lemma_cand_tokens_base(c);
        },
        _ => {
        },
    }
}


/// The rtpmap value round-trips when its encoding name is free of the
/// separators around it.
proof fn lemma_rtpmap_value_rt(r: RtpMapV)
    requires
        valid_utf8(r.encoding_name),
        chunk_has_no_sep(r.encoding_name, 0x20),
        chunk_has_no_sep(r.encoding_name, 0x2f),
        chunk_has_no_sep(r.encoding_name, 0x3a),
        chunk_has_no_sep(r.encoding_name, 0x0a),
    ensures
        spec_parse_rtpmap(spec_ser_rtpmap(r)) == Some(r),
{
    lemma_dec_round_trip(r.payload_type as nat, u32::MAX as nat);
    lemma_dec_round_trip(r.clock_rate as nat, u32::MAX as nat);
    let tail = match r.encoding_params {
        Some(p) => r.encoding_name + seq![0x2fu8] + spec_fmt_nat(r.clock_rate as nat)
            + seq![0x2fu8] + spec_fmt_nat(p as nat),
        None => r.encoding_name + seq![0x2fu8] + spec_fmt_nat(r.clock_rate as nat),
    };
    assert(chunk_has_no_sep(tail, 0x20)) by {
        match r.encoding_params {
            Some(p) => {
                lemma_dec_round_trip(p as nat, u32::MAX as nat);
            },
            None => {},
        }
    }
    assert(spec_ser_rtpmap(r) =~= spec_fmt_nat(r.payload_type as nat) + seq![0x20u8] + tail);
    lemma_split_two(spec_fmt_nat(r.payload_type as nat), tail, 0x20);
    match r.encoding_params {
        Some(p) => {
            lemma_dec_round_trip(p as nat, u32::MAX as nat);
            assert(tail =~= r.encoding_name + seq![0x2fu8] + (spec_fmt_nat(r.clock_rate as nat)
                + seq![0x2fu8] + spec_fmt_nat(p as nat)));
            lemma_split_cons(
                r.encoding_name,
                spec_fmt_nat(r.clock_rate as nat) + seq![0x2fu8] + spec_fmt_nat(p as nat),
                0x2f,
            );
            lemma_split_two(spec_fmt_nat(r.clock_rate as nat), spec_fmt_nat(p as nat), 0x2f);
            assert(spec_split(tail, 0x2f) =~~= seq![
                r.encoding_name,
                spec_fmt_nat(r.clock_rate as nat),
                spec_fmt_nat(p as nat),
            ]);
        },
        None => {
            lemma_split_two(r.encoding_name, spec_fmt_nat(r.clock_rate as nat), 0x2f);
        },
    }
}

/// The fmtp value round-trips when its parameter token is plain.
proof fn lemma_fmtp_value_rt(f: FmtPV)
    requires
        valid_utf8(f.format_params),
        chunk_has_no_sep(f.format_params, 0x20),
        chunk_has_no_sep(f.format_params, 0x3a),
        chunk_has_no_sep(f.format_params, 0x0a),
    ensures
        spec_parse_fmtp(spec_ser_fmtp(f)) == Some(f),
{
    lemma_dec_round_trip(f.format as nat, u32::MAX as nat);
    lemma_split_two(spec_fmt_nat(f.format as nat), f.format_params, 0x20);
    assert(spec_ser_fmtp(f) =~= spec_fmt_nat(f.format as nat) + seq![0x20u8] + f.format_params);
}

/// The attribute values the serializer can put on a line, as the colon
/// split sees them: tokens free of the bytes the parsers cut on.
pub open spec fn rt_attr(a: AttrV) -> bool {
    match a {
        AttrV::RtpMap(r) => {
            &&& valid_utf8(r.encoding_name)
            &&& chunk_has_no_sep(r.encoding_name, 0x20)
            &&& chunk_has_no_sep(r.encoding_name, 0x2f)
            &&& chunk_has_no_sep(r.encoding_name, 0x3a)
            &&& chunk_has_no_sep(r.encoding_name, 0x0a)
        },
        AttrV::FmtP(f) => {
            &&& valid_utf8(f.format_params)
            &&& chunk_has_no_sep(f.format_params, 0x20)
            &&& chunk_has_no_sep(f.format_params, 0x3a)
            &&& chunk_has_no_sep(f.format_params, 0x0a)
        },
        AttrV::Candidate(c) => rt_candidate(c),
        AttrV::IceUfrag(u) => valid_utf8(u) && chunk_has_no_sep(u, 0x3a) && chunk_has_no_sep(
            u,
            0x0a,
        ),
        AttrV::IcePwd(p) => valid_utf8(p) && chunk_has_no_sep(p, 0x3a) && chunk_has_no_sep(
            p,
            0x0a,
        ),
        _ => true,
    }
}

/// No occurrence of a byte in either part, none in the concatenation.
proof fn lemma_no_sep_concat(a: Seq<u8>, b: Seq<u8>, x: u8)
    requires
        chunk_has_no_sep(a, x),
        chunk_has_no_sep(b, x),
    ensures
        chunk_has_no_sep(a + b, x),
{
    assert forall|i: int| 0 <= i < (a + b).len() implies #[trigger] (a + b)[i] != x by {
        if i < a.len() {
            assert((a + b)[i] == a[i]);
        } else {
            assert((a + b)[i] == b[i - a.len()]);
        }
    }
}

/// A serialized attribute value holds no ':' outside the one after its name.
#[verifier::rlimit(100)]
proof fn lemma_ser_value_no_colon(a: AttrV)
    requires
        rt_attr(a),
    ensures
        a matches AttrV::PTime(p) ==> chunk_has_no_sep(spec_fmt_nat(p as nat), 0x3a),
        a matches AttrV::RtpMap(r) ==> chunk_has_no_sep(spec_ser_rtpmap(r), 0x3a),
        a matches AttrV::FmtP(f) ==> chunk_has_no_sep(spec_ser_fmtp(f), 0x3a),
        a matches AttrV::Candidate(c) ==> chunk_has_no_sep(spec_ser_candidate(c), 0x3a),
{
    match a {
        AttrV::PTime(p) => {
            lemma_dec_round_trip(p as nat, u32::MAX as nat);
        },
        AttrV::RtpMap(r) => {
            lemma_dec_round_trip(r.payload_type as nat, u32::MAX as nat);
            lemma_dec_round_trip(r.clock_rate as nat, u32::MAX as nat);
            match r.encoding_params {
                Some(p) => {
                    lemma_dec_round_trip(p as nat, u32::MAX as nat);
                },
                None => {},
            }
            assert(chunk_has_no_sep(spec_ser_rtpmap(r), 0x3a));
        },
        AttrV::FmtP(f) => {
            lemma_dec_round_trip(f.format as nat, u32::MAX as nat);
            assert(chunk_has_no_sep(spec_ser_fmtp(f), 0x3a));
        },
        AttrV::Candidate(c) => {
            lemma_dec_round_trip(c.component_id->0 as nat, u16::MAX as nat);
            lemma_dec_round_trip(c.priority as nat, u32::MAX as nat);
            lemma_dec_round_trip(c.port as nat, u16::MAX as nat);
            lemma_v4_text_plain(c.conn);
            assert(chunk_has_no_sep(seq![0x20u8], 0x3a));
            assert(chunk_has_no_sep(spec_ser_proto(c.proto), 0x3a)) by {
                match c.proto {
                    crate::ice::Proto::Udp => {},
                    crate::ice::Proto::Tcp => {},
                }
            }
            assert(chunk_has_no_sep(spec_ser_cand_type(c.candidate_type), 0x3a)) by {
                match c.candidate_type {
                    crate::ice::CandidateType::Host => {},
                    crate::ice::CandidateType::Srflx => {},
                    crate::ice::CandidateType::Prflx => {},
                    crate::ice::CandidateType::Relay => {},
                }
            }
            assert(chunk_has_no_sep(spec_kw_typ(), 0x3a));
            lemma_no_sep_concat(c.foundation, seq![0x20u8], 0x3a);
            lemma_no_sep_concat(c.foundation + seq![0x20u8], spec_fmt_nat(c.component_id->0 as nat), 0x3a);
            lemma_no_sep_concat(c.foundation + seq![0x20u8] + spec_fmt_nat(c.component_id->0 as nat), seq![0x20u8], 0x3a);
            lemma_no_sep_concat(c.foundation + seq![0x20u8] + spec_fmt_nat(c.component_id->0 as nat) + seq![0x20u8], spec_ser_proto(c.proto), 0x3a);
            lemma_no_sep_concat(c.foundation + seq![0x20u8] + spec_fmt_nat(c.component_id->0 as nat) + seq![0x20u8] + spec_ser_proto(c.proto), seq![0x20u8], 0x3a);
            lemma_no_sep_concat(c.foundation + seq![0x20u8] + spec_fmt_nat(c.component_id->0 as nat) + seq![0x20u8] + spec_ser_proto(c.proto) + seq![0x20u8], spec_fmt_nat(c.priority as nat), 0x3a);
            lemma_no_sep_concat(c.foundation + seq![0x20u8] + spec_fmt_nat(c.component_id->0 as nat) + seq![0x20u8] + spec_ser_proto(c.proto) + seq![0x20u8] + spec_fmt_nat(c.priority as nat), seq![0x20u8], 0x3a);
            lemma_no_sep_concat(c.foundation + seq![0x20u8] + spec_fmt_nat(c.component_id->0 as nat) + seq![0x20u8] + spec_ser_proto(c.proto) + seq![0x20u8] + spec_fmt_nat(c.priority as nat) + seq![0x20u8], spec_ser_ip(c.conn), 0x3a);
            lemma_no_sep_concat(c.foundation + seq![0x20u8] + spec_fmt_nat(c.component_id->0 as nat) + seq![0x20u8] + spec_ser_proto(c.proto) + seq![0x20u8] + spec_fmt_nat(c.priority as nat) + seq![0x20u8] + spec_ser_ip(c.conn), seq![0x20u8], 0x3a);
            lemma_no_sep_concat(c.foundation + seq![0x20u8] + spec_fmt_nat(c.component_id->0 as nat) + seq![0x20u8] + spec_ser_proto(c.proto) + seq![0x20u8] + spec_fmt_nat(c.priority as nat) + seq![0x20u8] + spec_ser_ip(c.conn) + seq![0x20u8], spec_fmt_nat(c.port as nat), 0x3a);
            lemma_no_sep_concat(c.foundation + seq![0x20u8] + spec_fmt_nat(c.component_id->0 as nat) + seq![0x20u8] + spec_ser_proto(c.proto) + seq![0x20u8] + spec_fmt_nat(c.priority as nat) + seq![0x20u8] + spec_ser_ip(c.conn) + seq![0x20u8] + spec_fmt_nat(c.port as nat), seq![0x20u8], 0x3a);
            lemma_no_sep_concat(c.foundation + seq![0x20u8] + spec_fmt_nat(c.component_id->0 as nat) + seq![0x20u8] + spec_ser_proto(c.proto) + seq![0x20u8] + spec_fmt_nat(c.priority as nat) + seq![0x20u8] + spec_ser_ip(c.conn) + seq![0x20u8] + spec_fmt_nat(c.port as nat) + seq![0x20u8], spec_kw_typ(), 0x3a);
            lemma_no_sep_concat(c.foundation + seq![0x20u8] + spec_fmt_nat(c.component_id->0 as nat) + seq![0x20u8] + spec_ser_proto(c.proto) + seq![0x20u8] + spec_fmt_nat(c.priority as nat) + seq![0x20u8] + spec_ser_ip(c.conn) + seq![0x20u8] + spec_fmt_nat(c.port as nat) + seq![0x20u8] + spec_kw_typ(), seq![0x20u8], 0x3a);
            lemma_no_sep_concat(c.foundation + seq![0x20u8] + spec_fmt_nat(c.component_id->0 as nat) + seq![0x20u8] + spec_ser_proto(c.proto) + seq![0x20u8] + spec_fmt_nat(c.priority as nat) + seq![0x20u8] + spec_ser_ip(c.conn) + seq![0x20u8] + spec_fmt_nat(c.port as nat) + seq![0x20u8] + spec_kw_typ() + seq![0x20u8], spec_ser_cand_type(c.candidate_type), 0x3a);
            match (c.rel_addr, c.rel_port) {
                (Some(ra), Some(rp)) => {
                    lemma_v4_text_plain(ra);
                    lemma_dec_round_trip(rp as nat, u16::MAX as nat);
                    assert(chunk_has_no_sep(spec_kw_raddr(), 0x3a));
                    assert(chunk_has_no_sep(spec_kw_rport(), 0x3a));
                    lemma_no_sep_concat(c.foundation, seq![0x20u8], 0x3a);
                    lemma_no_sep_concat(c.foundation + seq![0x20u8], spec_fmt_nat(c.component_id->0 as nat), 0x3a);
                    lemma_no_sep_concat(c.foundation + seq![0x20u8] + spec_fmt_nat(c.component_id->0 as nat), seq![0x20u8], 0x3a);
                    lemma_no_sep_concat(c.foundation + seq![0x20u8] + spec_fmt_nat(c.component_id->0 as nat) + seq![0x20u8], spec_ser_proto(c.proto), 0x3a);
                    lemma_no_sep_concat(c.foundation + seq![0x20u8] + spec_fmt_nat(c.component_id->0 as nat) + seq![0x20u8] + spec_ser_proto(c.proto), seq![0x20u8], 0x3a);
                    lemma_no_sep_concat(c.foundation + seq![0x20u8] + spec_fmt_nat(c.component_id->0 as nat) + seq![0x20u8] + spec_ser_proto(c.proto) + seq![0x20u8], spec_fmt_nat(c.priority as nat), 0x3a);
                    lemma_no_sep_concat(c.foundation + seq![0x20u8] + spec_fmt_nat(c.component_id->0 as nat) + seq![0x20u8] + spec_ser_proto(c.proto) + seq![0x20u8] + spec_fmt_nat(c.priority as nat), seq![0x20u8], 0x3a);
                    lemma_no_sep_concat(c.foundation + seq![0x20u8] + spec_fmt_nat(c.component_id->0 as nat) + seq![0x20u8] + spec_ser_proto(c.proto) + seq![0x20u8] + spec_fmt_nat(c.priority as nat) + seq![0x20u8], spec_ser_ip(c.conn), 0x3a);
                    lemma_no_sep_concat(c.foundation + seq![0x20u8] + spec_fmt_nat(c.component_id->0 as nat) + seq![0x20u8] + spec_ser_proto(c.proto) + seq![0x20u8] + spec_fmt_nat(c.priority as nat) + seq![0x20u8] + spec_ser_ip(c.conn), seq![0x20u8], 0x3a);
                    lemma_no_sep_concat(c.foundation + seq![0x20u8] + spec_fmt_nat(c.component_id->0 as nat) + seq![0x20u8] + spec_ser_proto(c.proto) + seq![0x20u8] + spec_fmt_nat(c.priority as nat) + seq![0x20u8] + spec_ser_ip(c.conn) + seq![0x20u8], spec_fmt_nat(c.port as nat), 0x3a);
                    lemma_no_sep_concat(c.foundation + seq![0x20u8] + spec_fmt_nat(c.component_id->0 as nat) + seq![0x20u8] + spec_ser_proto(c.proto) + seq![0x20u8] + spec_fmt_nat(c.priority as nat) + seq![0x20u8] + spec_ser_ip(c.conn) + seq![0x20u8] + spec_fmt_nat(c.port as nat), seq![0x20u8], 0x3a);
                    lemma_no_sep_concat(c.foundation + seq![0x20u8] + spec_fmt_nat(c.component_id->0 as nat) + seq![0x20u8] + spec_ser_proto(c.proto) + seq![0x20u8] + spec_fmt_nat(c.priority as nat) + seq![0x20u8] + spec_ser_ip(c.conn) + seq![0x20u8] + spec_fmt_nat(c.port as nat) + seq![0x20u8], spec_kw_typ(), 0x3a);
                    lemma_no_sep_concat(c.foundation + seq![0x20u8] + spec_fmt_nat(c.component_id->0 as nat) + seq![0x20u8] + spec_ser_proto(c.proto) + seq![0x20u8] + spec_fmt_nat(c.priority as nat) + seq![0x20u8] + spec_ser_ip(c.conn) + seq![0x20u8] + spec_fmt_nat(c.port as nat) + seq![0x20u8] + spec_kw_typ(), seq![0x20u8], 0x3a);
                    lemma_no_sep_concat(c.foundation + seq![0x20u8] + spec_fmt_nat(c.component_id->0 as nat) + seq![0x20u8] + spec_ser_proto(c.proto) + seq![0x20u8] + spec_fmt_nat(c.priority as nat) + seq![0x20u8] + spec_ser_ip(c.conn) + seq![0x20u8] + spec_fmt_nat(c.port as nat) + seq![0x20u8] + spec_kw_typ() + seq![0x20u8], spec_ser_cand_type(c.candidate_type), 0x3a);
                    lemma_no_sep_concat(c.foundation + seq![0x20u8] + spec_fmt_nat(c.component_id->0 as nat) + seq![0x20u8] + spec_ser_proto(c.proto) + seq![0x20u8] + spec_fmt_nat(c.priority as nat) + seq![0x20u8] + spec_ser_ip(c.conn) + seq![0x20u8] + spec_fmt_nat(c.port as nat) + seq![0x20u8] + spec_kw_typ() + seq![0x20u8] + spec_ser_cand_type(c.candidate_type), seq![0x20u8], 0x3a);
                    lemma_no_sep_concat(c.foundation + seq![0x20u8] + spec_fmt_nat(c.component_id->0 as nat) + seq![0x20u8] + spec_ser_proto(c.proto) + seq![0x20u8] + spec_fmt_nat(c.priority as nat) + seq![0x20u8] + spec_ser_ip(c.conn) + seq![0x20u8] + spec_fmt_nat(c.port as nat) + seq![0x20u8] + spec_kw_typ() + seq![0x20u8] + spec_ser_cand_type(c.candidate_type) + seq![0x20u8], spec_kw_raddr(), 0x3a);
                    lemma_no_sep_concat(c.foundation + seq![0x20u8] + spec_fmt_nat(c.component_id->0 as nat) + seq![0x20u8] + spec_ser_proto(c.proto) + seq![0x20u8] + spec_fmt_nat(c.priority as nat) + seq![0x20u8] + spec_ser_ip(c.conn) + seq![0x20u8] + spec_fmt_nat(c.port as nat) + seq![0x20u8] + spec_kw_typ() + seq![0x20u8] + spec_ser_cand_type(c.candidate_type) + seq![0x20u8] + spec_kw_raddr(), seq![0x20u8], 0x3a);
                    lemma_no_sep_concat(c.foundation + seq![0x20u8] + spec_fmt_nat(c.component_id->0 as nat) + seq![0x20u8] + spec_ser_proto(c.proto) + seq![0x20u8] + spec_fmt_nat(c.priority as nat) + seq![0x20u8] + spec_ser_ip(c.conn) + seq![0x20u8] + spec_fmt_nat(c.port as nat) + seq![0x20u8] + spec_kw_typ() + seq![0x20u8] + spec_ser_cand_type(c.candidate_type) + seq![0x20u8] + spec_kw_raddr() + seq![0x20u8], spec_ser_ip(c.rel_addr->0), 0x3a);
                    lemma_no_sep_concat(c.foundation + seq![0x20u8] + spec_fmt_nat(c.component_id->0 as nat) + seq![0x20u8] + spec_ser_proto(c.proto) + seq![0x20u8] + spec_fmt_nat(c.priority as nat) + seq![0x20u8] + spec_ser_ip(c.conn) + seq![0x20u8] + spec_fmt_nat(c.port as nat) + seq![0x20u8] + spec_kw_typ() + seq![0x20u8] + spec_ser_cand_type(c.candidate_type) + seq![0x20u8] + spec_kw_raddr() + seq![0x20u8] + spec_ser_ip(c.rel_addr->0), seq![0x20u8], 0x3a);
                    lemma_no_sep_concat(c.foundation + seq![0x20u8] + spec_fmt_nat(c.component_id->0 as nat) + seq![0x20u8] + spec_ser_proto(c.proto) + seq![0x20u8] + spec_fmt_nat(c.priority as nat) + seq![0x20u8] + spec_ser_ip(c.conn) + seq![0x20u8] + spec_fmt_nat(c.port as nat) + seq![0x20u8] + spec_kw_typ() + seq![0x20u8] + spec_ser_cand_type(c.candidate_type) + seq![0x20u8] + spec_kw_raddr() + seq![0x20u8] + spec_ser_ip(c.rel_addr->0) + seq![0x20u8], spec_kw_rport(), 0x3a);
                    lemma_no_sep_concat(c.foundation + seq![0x20u8] + spec_fmt_nat(c.component_id->0 as nat) + seq![0x20u8] + spec_ser_proto(c.proto) + seq![0x20u8] + spec_fmt_nat(c.priority as nat) + seq![0x20u8] + spec_ser_ip(c.conn) + seq![0x20u8] + spec_fmt_nat(c.port as nat) + seq![0x20u8] + spec_kw_typ() + seq![0x20u8] + spec_ser_cand_type(c.candidate_type) + seq![0x20u8] + spec_kw_raddr() + seq![0x20u8] + spec_ser_ip(c.rel_addr->0) + seq![0x20u8] + spec_kw_rport(), seq![0x20u8], 0x3a);
                    lemma_no_sep_concat(c.foundation + seq![0x20u8] + spec_fmt_nat(c.component_id->0 as nat) + seq![0x20u8] + spec_ser_proto(c.proto) + seq![0x20u8] + spec_fmt_nat(c.priority as nat) + seq![0x20u8] + spec_ser_ip(c.conn) + seq![0x20u8] + spec_fmt_nat(c.port as nat) + seq![0x20u8] + spec_kw_typ() + seq![0x20u8] + spec_ser_cand_type(c.candidate_type) + seq![0x20u8] + spec_kw_raddr() + seq![0x20u8] + spec_ser_ip(c.rel_addr->0) + seq![0x20u8] + spec_kw_rport() + seq![0x20u8], spec_fmt_nat(c.rel_port->0 as nat), 0x3a);
                },
                _ => {},
            }
        },
        _ => {},
    }
}

/// Round trip of every attribute: parsing the serialized attribute value
/// gives the attribute back.
#[verifier::rlimit(100)]
pub proof fn lemma_attr_round_trip(a: AttrV)
    requires
        rt_attr(a),
    ensures
        spec_parse_attr(spec_ser_attr(a)) == Some(a),
{
    match a {
        AttrV::SendRecv => lemma_attr_rt_bare(a),
        AttrV::SendOnly => lemma_attr_rt_bare(a),
        AttrV::RecvOnly => lemma_attr_rt_bare(a),
        AttrV::Inactive => lemma_attr_rt_bare(a),
        AttrV::IceMismatch => lemma_attr_rt_bare(a),
        AttrV::IceLite => lemma_attr_rt_bare(a),
        AttrV::PTime(p) => lemma_attr_rt_ptime(p),
        AttrV::IceUfrag(_) => lemma_attr_rt_credentials(a),
        AttrV::IcePwd(_) => lemma_attr_rt_credentials(a),
        AttrV::RtpMap(r) => {
            lemma_rtpmap_value_rt(r);
            lemma_ser_value_no_colon(a);
            assert(chunk_has_no_sep(spec_kw_rtpmap(), 0x3a));
            lemma_split_two(spec_kw_rtpmap(), spec_ser_rtpmap(r), 0x3a);
            assert(spec_ser_attr(a) =~= spec_kw_rtpmap() + seq![0x3au8] + spec_ser_rtpmap(r));
            assert(spec_parse_attr_bare(spec_kw_rtpmap()) is None);
        },
        AttrV::FmtP(f) => {
            lemma_fmtp_value_rt(f);
            lemma_ser_value_no_colon(a);
            assert(chunk_has_no_sep(spec_kw_fmtp(), 0x3a));
            lemma_split_two(spec_kw_fmtp(), spec_ser_fmtp(f), 0x3a);
            assert(spec_ser_attr(a) =~= spec_kw_fmtp() + seq![0x3au8] + spec_ser_fmtp(f));
            assert(spec_parse_attr_bare(spec_kw_fmtp()) is None);
        },
        AttrV::Candidate(c) => {
            lemma_candidate_value_rt(c);
            lemma_ser_value_no_colon(a);
            assert(chunk_has_no_sep(spec_kw_candidate(), 0x3a));
            lemma_split_two(spec_kw_candidate(), spec_ser_candidate(c), 0x3a);
            assert(spec_ser_attr(a) =~= spec_kw_candidate() + seq![0x3au8] + spec_ser_candidate(
                c,
            ));
            assert(spec_parse_attr_bare(spec_kw_candidate()) is None);
        },
    }
}

} // verus!
