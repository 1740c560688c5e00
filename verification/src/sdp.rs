//! The SDP codec: session descriptions, their textual form, and the parser.
//!
//! Parsing is line by line; a malformed known line lands in
//! `unparsed_lines`, a line of unknown type in `ignored_lines`, and parsing
//! always yields a (possibly partial) description. Serialization emits the
//! canonical layout: v, o, s, c, t, session attributes, then each media
//! block. Every function is specified against a `Seq<u8>`-level model, on
//! which the round-trip law is proved.

use vstd::prelude::*;
use vstd::utf8::valid_utf8;
use crate::addr::{
    IpAddr, IpAddrV, spec_parse_ip, parse_ip, spec_ser_ip, ser_ip, spec_is_multicast_or_v6,
    is_multicast_or_v6,
};
use crate::ice::{Candidate, CandidateV, Proto, CandidateType};
use crate::strings::{str_bytes, bytes_to_string, string_to_bytes, lemma_ascii_valid_utf8};
use crate::text::{
    all_digits, dec_val, is_dec, spec_fmt_nat, fmt_u64, fmt_u32, fmt_u16, fmt_u8, parse_u64,
    parse_u32, parse_u16, parse_u8, spec_split, split, spec_split2, split2, spec_trim, trim, bytes_eq, clone_bytes,
};

verus! {

// ---------------------------------------------------------------------------
// Keywords

/// Bytes of "recvonly".
pub open spec fn spec_kw_recvonly() -> Seq<u8> {
    seq![0x72u8, 0x65u8, 0x63u8, 0x76u8, 0x6fu8, 0x6eu8, 0x6cu8, 0x79u8]
}

pub fn kw_recvonly() -> (r: Vec<u8>)
    ensures
        r@ == spec_kw_recvonly(),
{
    let mut v: Vec<u8> = Vec::new();
    v.push(0x72);
    v.push(0x65);
    v.push(0x63);
    v.push(0x76);
    v.push(0x6f);
    v.push(0x6e);
    v.push(0x6c);
    v.push(0x79);
    proof {
        assert(v@ =~= spec_kw_recvonly());
    }
    v
}

/// Bytes of "sendonly".
pub open spec fn spec_kw_sendonly() -> Seq<u8> {
    seq![0x73u8, 0x65u8, 0x6eu8, 0x64u8, 0x6fu8, 0x6eu8, 0x6cu8, 0x79u8]
}

pub fn kw_sendonly() -> (r: Vec<u8>)
    ensures
        r@ == spec_kw_sendonly(),
{
    let mut v: Vec<u8> = Vec::new();
    v.push(0x73);
    v.push(0x65);
    v.push(0x6e);
    v.push(0x64);
    v.push(0x6f);
    v.push(0x6e);
    v.push(0x6c);
    v.push(0x79);
    proof {
        assert(v@ =~= spec_kw_sendonly());
    }
    v
}

/// Bytes of "sendrecv".
pub open spec fn spec_kw_sendrecv() -> Seq<u8> {
    seq![0x73u8, 0x65u8, 0x6eu8, 0x64u8, 0x72u8, 0x65u8, 0x63u8, 0x76u8]
}

pub fn kw_sendrecv() -> (r: Vec<u8>)
    ensures
        r@ == spec_kw_sendrecv(),
{
    let mut v: Vec<u8> = Vec::new();
    v.push(0x73);
    v.push(0x65);
    v.push(0x6e);
    v.push(0x64);
    v.push(0x72);
    v.push(0x65);
    v.push(0x63);
    v.push(0x76);
    proof {
        assert(v@ =~= spec_kw_sendrecv());
    }
    v
}

/// Bytes of "inactive".
pub open spec fn spec_kw_inactive() -> Seq<u8> {
    seq![0x69u8, 0x6eu8, 0x61u8, 0x63u8, 0x74u8, 0x69u8, 0x76u8, 0x65u8]
}

pub fn kw_inactive() -> (r: Vec<u8>)
    ensures
        r@ == spec_kw_inactive(),
{
    let mut v: Vec<u8> = Vec::new();
    v.push(0x69);
    v.push(0x6e);
    v.push(0x61);
    v.push(0x63);
    v.push(0x74);
    v.push(0x69);
    v.push(0x76);
    v.push(0x65);
    proof {
        assert(v@ =~= spec_kw_inactive());
    }
    v
}

/// Bytes of "ptime".
pub open spec fn spec_kw_ptime() -> Seq<u8> {
    seq![0x70u8, 0x74u8, 0x69u8, 0x6du8, 0x65u8]
}

pub fn kw_ptime() -> (r: Vec<u8>)
    ensures
        r@ == spec_kw_ptime(),
{
    let mut v: Vec<u8> = Vec::new();
    v.push(0x70);
    v.push(0x74);
    v.push(0x69);
    v.push(0x6d);
    v.push(0x65);
    proof {
        assert(v@ =~= spec_kw_ptime());
    }
    v
}

/// Bytes of "rtpmap".
pub open spec fn spec_kw_rtpmap() -> Seq<u8> {
    seq![0x72u8, 0x74u8, 0x70u8, 0x6du8, 0x61u8, 0x70u8]
}

pub fn kw_rtpmap() -> (r: Vec<u8>)
    ensures
        r@ == spec_kw_rtpmap(),
{
    let mut v: Vec<u8> = Vec::new();
    v.push(0x72);
    v.push(0x74);
    v.push(0x70);
    v.push(0x6d);
    v.push(0x61);
    v.push(0x70);
    proof {
        assert(v@ =~= spec_kw_rtpmap());
    }
    v
}

/// Bytes of "fmtp".
pub open spec fn spec_kw_fmtp() -> Seq<u8> {
    seq![0x66u8, 0x6du8, 0x74u8, 0x70u8]
}

pub fn kw_fmtp() -> (r: Vec<u8>)
    ensures
        r@ == spec_kw_fmtp(),
{
    let mut v: Vec<u8> = Vec::new();
    v.push(0x66);
    v.push(0x6d);
    v.push(0x74);
    v.push(0x70);
    proof {
        assert(v@ =~= spec_kw_fmtp());
    }
    v
}

/// Bytes of "candidate".
pub open spec fn spec_kw_candidate() -> Seq<u8> {
    seq![0x63u8, 0x61u8, 0x6eu8, 0x64u8, 0x69u8, 0x64u8, 0x61u8, 0x74u8, 0x65u8]
}

pub fn kw_candidate() -> (r: Vec<u8>)
    ensures
        r@ == spec_kw_candidate(),
{
    let mut v: Vec<u8> = Vec::new();
    v.push(0x63);
    v.push(0x61);
    v.push(0x6e);
    v.push(0x64);
    v.push(0x69);
    v.push(0x64);
    v.push(0x61);
    v.push(0x74);
    v.push(0x65);
    proof {
        assert(v@ =~= spec_kw_candidate());
    }
    v
}

/// Bytes of "ice-ufrag".
pub open spec fn spec_kw_ice_ufrag() -> Seq<u8> {
    seq![0x69u8, 0x63u8, 0x65u8, 0x2du8, 0x75u8, 0x66u8, 0x72u8, 0x61u8, 0x67u8]
}

pub fn kw_ice_ufrag() -> (r: Vec<u8>)
    ensures
        r@ == spec_kw_ice_ufrag(),
{
    let mut v: Vec<u8> = Vec::new();
    v.push(0x69);
    v.push(0x63);
    v.push(0x65);
    v.push(0x2d);
    v.push(0x75);
    v.push(0x66);
    v.push(0x72);
    v.push(0x61);
    v.push(0x67);
    proof {
        assert(v@ =~= spec_kw_ice_ufrag());
    }
    v
}

/// Bytes of "ice-pwd".
pub open spec fn spec_kw_ice_pwd() -> Seq<u8> {
    seq![0x69u8, 0x63u8, 0x65u8, 0x2du8, 0x70u8, 0x77u8, 0x64u8]
}

pub fn kw_ice_pwd() -> (r: Vec<u8>)
    ensures
        r@ == spec_kw_ice_pwd(),
{
    let mut v: Vec<u8> = Vec::new();
    v.push(0x69);
    v.push(0x63);
    v.push(0x65);
    v.push(0x2d);
    v.push(0x70);
    v.push(0x77);
    v.push(0x64);
    proof {
        assert(v@ =~= spec_kw_ice_pwd());
    }
    v
}

/// Bytes of "ice-mismatch".
pub open spec fn spec_kw_ice_mismatch() -> Seq<u8> {
    seq![0x69u8, 0x63u8, 0x65u8, 0x2du8, 0x6du8, 0x69u8, 0x73u8, 0x6du8, 0x61u8, 0x74u8, 0x63u8, 0x68u8]
}

pub fn kw_ice_mismatch() -> (r: Vec<u8>)
    ensures
        r@ == spec_kw_ice_mismatch(),
{
    let mut v: Vec<u8> = Vec::new();
    v.push(0x69);
    v.push(0x63);
    v.push(0x65);
    v.push(0x2d);
    v.push(0x6d);
    v.push(0x69);
    v.push(0x73);
    v.push(0x6d);
    v.push(0x61);
    v.push(0x74);
    v.push(0x63);
    v.push(0x68);
    proof {
        assert(v@ =~= spec_kw_ice_mismatch());
    }
    v
}

/// Bytes of "ice-lite".
pub open spec fn spec_kw_ice_lite() -> Seq<u8> {
    seq![0x69u8, 0x63u8, 0x65u8, 0x2du8, 0x6cu8, 0x69u8, 0x74u8, 0x65u8]
}

pub fn kw_ice_lite() -> (r: Vec<u8>)
    ensures
        r@ == spec_kw_ice_lite(),
{
    let mut v: Vec<u8> = Vec::new();
    v.push(0x69);
    v.push(0x63);
    v.push(0x65);
    v.push(0x2d);
    v.push(0x6c);
    v.push(0x69);
    v.push(0x74);
    v.push(0x65);
    proof {
        assert(v@ =~= spec_kw_ice_lite());
    }
    v
}

/// Bytes of "typ".
pub open spec fn spec_kw_typ() -> Seq<u8> {
    seq![0x74u8, 0x79u8, 0x70u8]
}

pub fn kw_typ() -> (r: Vec<u8>)
    ensures
        r@ == spec_kw_typ(),
{
    let mut v: Vec<u8> = Vec::new();
    v.push(0x74);
    v.push(0x79);
    v.push(0x70);
    proof {
        assert(v@ =~= spec_kw_typ());
    }
    v
}

/// Bytes of "raddr".
pub open spec fn spec_kw_raddr() -> Seq<u8> {
    seq![0x72u8, 0x61u8, 0x64u8, 0x64u8, 0x72u8]
}

pub fn kw_raddr() -> (r: Vec<u8>)
    ensures
        r@ == spec_kw_raddr(),
{
    let mut v: Vec<u8> = Vec::new();
    v.push(0x72);
    v.push(0x61);
    v.push(0x64);
    v.push(0x64);
    v.push(0x72);
    proof {
        assert(v@ =~= spec_kw_raddr());
    }
    v
}

/// Bytes of "rport".
pub open spec fn spec_kw_rport() -> Seq<u8> {
    seq![0x72u8, 0x70u8, 0x6fu8, 0x72u8, 0x74u8]
}

pub fn kw_rport() -> (r: Vec<u8>)
    ensures
        r@ == spec_kw_rport(),
{
    let mut v: Vec<u8> = Vec::new();
    v.push(0x72);
    v.push(0x70);
    v.push(0x6f);
    v.push(0x72);
    v.push(0x74);
    proof {
        assert(v@ =~= spec_kw_rport());
    }
    v
}

/// Bytes of "IN".
pub open spec fn spec_kw_net_in() -> Seq<u8> {
    seq![0x49u8, 0x4eu8]
}

pub fn kw_net_in() -> (r: Vec<u8>)
    ensures
        r@ == spec_kw_net_in(),
{
    let mut v: Vec<u8> = Vec::new();
    v.push(0x49);
    v.push(0x4e);
    proof {
        assert(v@ =~= spec_kw_net_in());
    }
    v
}

/// Bytes of "IP4".
pub open spec fn spec_kw_ip4() -> Seq<u8> {
    seq![0x49u8, 0x50u8, 0x34u8]
}

pub fn kw_ip4() -> (r: Vec<u8>)
    ensures
        r@ == spec_kw_ip4(),
{
    let mut v: Vec<u8> = Vec::new();
    v.push(0x49);
    v.push(0x50);
    v.push(0x34);
    proof {
        assert(v@ =~= spec_kw_ip4());
    }
    v
}

/// Bytes of "IP6".
pub open spec fn spec_kw_ip6() -> Seq<u8> {
    seq![0x49u8, 0x50u8, 0x36u8]
}

pub fn kw_ip6() -> (r: Vec<u8>)
    ensures
        r@ == spec_kw_ip6(),
{
    let mut v: Vec<u8> = Vec::new();
    v.push(0x49);
    v.push(0x50);
    v.push(0x36);
    proof {
        assert(v@ =~= spec_kw_ip6());
    }
    v
}

/// Bytes of "UDP".
pub open spec fn spec_kw_proto_udp() -> Seq<u8> {
    seq![0x55u8, 0x44u8, 0x50u8]
}

pub fn kw_proto_udp() -> (r: Vec<u8>)
    ensures
        r@ == spec_kw_proto_udp(),
{
    let mut v: Vec<u8> = Vec::new();
    v.push(0x55);
    v.push(0x44);
    v.push(0x50);
    proof {
        assert(v@ =~= spec_kw_proto_udp());
    }
    v
}

/// Bytes of "RTP/AVP".
pub open spec fn spec_kw_rtp_avp() -> Seq<u8> {
    seq![0x52u8, 0x54u8, 0x50u8, 0x2fu8, 0x41u8, 0x56u8, 0x50u8]
}

pub fn kw_rtp_avp() -> (r: Vec<u8>)
    ensures
        r@ == spec_kw_rtp_avp(),
{
    let mut v: Vec<u8> = Vec::new();
    v.push(0x52);
    v.push(0x54);
    v.push(0x50);
    v.push(0x2f);
    v.push(0x41);
    v.push(0x56);
    v.push(0x50);
    proof {
        assert(v@ =~= spec_kw_rtp_avp());
    }
    v
}

/// Bytes of "RTP/AVPF".
pub open spec fn spec_kw_rtp_avpf() -> Seq<u8> {
    seq![0x52u8, 0x54u8, 0x50u8, 0x2fu8, 0x41u8, 0x56u8, 0x50u8, 0x46u8]
}

pub fn kw_rtp_avpf() -> (r: Vec<u8>)
    ensures
        r@ == spec_kw_rtp_avpf(),
{
    let mut v: Vec<u8> = Vec::new();
    v.push(0x52);
    v.push(0x54);
    v.push(0x50);
    v.push(0x2f);
    v.push(0x41);
    v.push(0x56);
    v.push(0x50);
    v.push(0x46);
    proof {
        assert(v@ =~= spec_kw_rtp_avpf());
    }
    v
}

/// Bytes of "RTP/SAVP".
pub open spec fn spec_kw_rtp_savp() -> Seq<u8> {
    seq![0x52u8, 0x54u8, 0x50u8, 0x2fu8, 0x53u8, 0x41u8, 0x56u8, 0x50u8]
}

pub fn kw_rtp_savp() -> (r: Vec<u8>)
    ensures
        r@ == spec_kw_rtp_savp(),
{
    let mut v: Vec<u8> = Vec::new();
    v.push(0x52);
    v.push(0x54);
    v.push(0x50);
    v.push(0x2f);
    v.push(0x53);
    v.push(0x41);
    v.push(0x56);
    v.push(0x50);
    proof {
        assert(v@ =~= spec_kw_rtp_savp());
    }
    v
}

/// Bytes of "RTP/SAVPF".
pub open spec fn spec_kw_rtp_savpf() -> Seq<u8> {
    seq![0x52u8, 0x54u8, 0x50u8, 0x2fu8, 0x53u8, 0x41u8, 0x56u8, 0x50u8, 0x46u8]
}

pub fn kw_rtp_savpf() -> (r: Vec<u8>)
    ensures
        r@ == spec_kw_rtp_savpf(),
{
    let mut v: Vec<u8> = Vec::new();
    v.push(0x52);
    v.push(0x54);
    v.push(0x50);
    v.push(0x2f);
    v.push(0x53);
    v.push(0x41);
    v.push(0x56);
    v.push(0x50);
    v.push(0x46);
    proof {
        assert(v@ =~= spec_kw_rtp_savpf());
    }
    v
}

/// Bytes of "UDP/TLS/RTP/SAVPF".
pub open spec fn spec_kw_udp_tls_rtp_savpf() -> Seq<u8> {
    seq![0x55u8, 0x44u8, 0x50u8, 0x2fu8, 0x54u8, 0x4cu8, 0x53u8, 0x2fu8, 0x52u8, 0x54u8, 0x50u8, 0x2fu8, 0x53u8, 0x41u8, 0x56u8, 0x50u8, 0x46u8]
}

pub fn kw_udp_tls_rtp_savpf() -> (r: Vec<u8>)
    ensures
        r@ == spec_kw_udp_tls_rtp_savpf(),
{
    let mut v: Vec<u8> = Vec::new();
    v.push(0x55);
    v.push(0x44);
    v.push(0x50);
    v.push(0x2f);
    v.push(0x54);
    v.push(0x4c);
    v.push(0x53);
    v.push(0x2f);
    v.push(0x52);
    v.push(0x54);
    v.push(0x50);
    v.push(0x2f);
    v.push(0x53);
    v.push(0x41);
    v.push(0x56);
    v.push(0x50);
    v.push(0x46);
    proof {
        assert(v@ =~= spec_kw_udp_tls_rtp_savpf());
    }
    v
}

/// Bytes of "audio".
pub open spec fn spec_kw_audio() -> Seq<u8> {
    seq![0x61u8, 0x75u8, 0x64u8, 0x69u8, 0x6fu8]
}

pub fn kw_audio() -> (r: Vec<u8>)
    ensures
        r@ == spec_kw_audio(),
{
    let mut v: Vec<u8> = Vec::new();
    v.push(0x61);
    v.push(0x75);
    v.push(0x64);
    v.push(0x69);
    v.push(0x6f);
    proof {
        assert(v@ =~= spec_kw_audio());
    }
    v
}

/// Bytes of "video".
pub open spec fn spec_kw_video() -> Seq<u8> {
    seq![0x76u8, 0x69u8, 0x64u8, 0x65u8, 0x6fu8]
}

pub fn kw_video() -> (r: Vec<u8>)
    ensures
        r@ == spec_kw_video(),
{
    let mut v: Vec<u8> = Vec::new();
    v.push(0x76);
    v.push(0x69);
    v.push(0x64);
    v.push(0x65);
    v.push(0x6f);
    proof {
        assert(v@ =~= spec_kw_video());
    }
    v
}

/// Bytes of "text".
pub open spec fn spec_kw_text_media() -> Seq<u8> {
    seq![0x74u8, 0x65u8, 0x78u8, 0x74u8]
}

pub fn kw_text_media() -> (r: Vec<u8>)
    ensures
        r@ == spec_kw_text_media(),
{
    let mut v: Vec<u8> = Vec::new();
    v.push(0x74);
    v.push(0x65);
    v.push(0x78);
    v.push(0x74);
    proof {
        assert(v@ =~= spec_kw_text_media());
    }
    v
}

/// Bytes of "application".
pub open spec fn spec_kw_application() -> Seq<u8> {
    seq![0x61u8, 0x70u8, 0x70u8, 0x6cu8, 0x69u8, 0x63u8, 0x61u8, 0x74u8, 0x69u8, 0x6fu8, 0x6eu8]
}

pub fn kw_application() -> (r: Vec<u8>)
    ensures
        r@ == spec_kw_application(),
{
    let mut v: Vec<u8> = Vec::new();
    v.push(0x61);
    v.push(0x70);
    v.push(0x70);
    v.push(0x6c);
    v.push(0x69);
    v.push(0x63);
    v.push(0x61);
    v.push(0x74);
    v.push(0x69);
    v.push(0x6f);
    v.push(0x6e);
    proof {
        assert(v@ =~= spec_kw_application());
    }
    v
}

/// Bytes of "message".
pub open spec fn spec_kw_message() -> Seq<u8> {
    seq![0x6du8, 0x65u8, 0x73u8, 0x73u8, 0x61u8, 0x67u8, 0x65u8]
}

pub fn kw_message() -> (r: Vec<u8>)
    ensures
        r@ == spec_kw_message(),
{
    let mut v: Vec<u8> = Vec::new();
    v.push(0x6d);
    v.push(0x65);
    v.push(0x73);
    v.push(0x73);
    v.push(0x61);
    v.push(0x67);
    v.push(0x65);
    proof {
        assert(v@ =~= spec_kw_message());
    }
    v
}

/// Bytes of "udp".
pub open spec fn spec_kw_udp_lower() -> Seq<u8> {
    seq![0x75u8, 0x64u8, 0x70u8]
}

pub fn kw_udp_lower() -> (r: Vec<u8>)
    ensures
        r@ == spec_kw_udp_lower(),
{
    let mut v: Vec<u8> = Vec::new();
    v.push(0x75);
    v.push(0x64);
    v.push(0x70);
    proof {
        assert(v@ =~= spec_kw_udp_lower());
    }
    v
}

/// Bytes of "tcp".
pub open spec fn spec_kw_tcp_lower() -> Seq<u8> {
    seq![0x74u8, 0x63u8, 0x70u8]
}

pub fn kw_tcp_lower() -> (r: Vec<u8>)
    ensures
        r@ == spec_kw_tcp_lower(),
{
    let mut v: Vec<u8> = Vec::new();
    v.push(0x74);
    v.push(0x63);
    v.push(0x70);
    proof {
        assert(v@ =~= spec_kw_tcp_lower());
    }
    v
}

/// Bytes of "TCP".
pub open spec fn spec_kw_tcp_upper() -> Seq<u8> {
    seq![0x54u8, 0x43u8, 0x50u8]
}

pub fn kw_tcp_upper() -> (r: Vec<u8>)
    ensures
        r@ == spec_kw_tcp_upper(),
{
    let mut v: Vec<u8> = Vec::new();
    v.push(0x54);
    v.push(0x43);
    v.push(0x50);
    proof {
        assert(v@ =~= spec_kw_tcp_upper());
    }
    v
}

/// Bytes of "host".
pub open spec fn spec_kw_host() -> Seq<u8> {
    seq![0x68u8, 0x6fu8, 0x73u8, 0x74u8]
}

pub fn kw_host() -> (r: Vec<u8>)
    ensures
        r@ == spec_kw_host(),
{
    let mut v: Vec<u8> = Vec::new();
    v.push(0x68);
    v.push(0x6f);
    v.push(0x73);
    v.push(0x74);
    proof {
        assert(v@ =~= spec_kw_host());
    }
    v
}

/// Bytes of "srflx".
pub open spec fn spec_kw_srflx() -> Seq<u8> {
    seq![0x73u8, 0x72u8, 0x66u8, 0x6cu8, 0x78u8]
}

pub fn kw_srflx() -> (r: Vec<u8>)
    ensures
        r@ == spec_kw_srflx(),
{
    let mut v: Vec<u8> = Vec::new();
    v.push(0x73);
    v.push(0x72);
    v.push(0x66);
    v.push(0x6c);
    v.push(0x78);
    proof {
        assert(v@ =~= spec_kw_srflx());
    }
    v
}

/// Bytes of "prflx".
pub open spec fn spec_kw_prflx() -> Seq<u8> {
    seq![0x70u8, 0x72u8, 0x66u8, 0x6cu8, 0x78u8]
}

pub fn kw_prflx() -> (r: Vec<u8>)
    ensures
        r@ == spec_kw_prflx(),
{
    let mut v: Vec<u8> = Vec::new();
    v.push(0x70);
    v.push(0x72);
    v.push(0x66);
    v.push(0x6c);
    v.push(0x78);
    proof {
        assert(v@ =~= spec_kw_prflx());
    }
    v
}

/// Bytes of "relay".
pub open spec fn spec_kw_relay() -> Seq<u8> {
    seq![0x72u8, 0x65u8, 0x6cu8, 0x61u8, 0x79u8]
}

pub fn kw_relay() -> (r: Vec<u8>)
    ensures
        r@ == spec_kw_relay(),
{
    let mut v: Vec<u8> = Vec::new();
    v.push(0x72);
    v.push(0x65);
    v.push(0x6c);
    v.push(0x61);
    v.push(0x79);
    proof {
        assert(v@ =~= spec_kw_relay());
    }
    v
}

/// Bytes of "deadbeef".
pub open spec fn spec_kw_foundation_host() -> Seq<u8> {
    seq![0x64u8, 0x65u8, 0x61u8, 0x64u8, 0x62u8, 0x65u8, 0x65u8, 0x66u8]
}

pub fn kw_foundation_host() -> (r: Vec<u8>)
    ensures
        r@ == spec_kw_foundation_host(),
{
    let mut v: Vec<u8> = Vec::new();
    v.push(0x64);
    v.push(0x65);
    v.push(0x61);
    v.push(0x64);
    v.push(0x62);
    v.push(0x65);
    v.push(0x65);
    v.push(0x66);
    proof {
        assert(v@ =~= spec_kw_foundation_host());
    }
    v
}


// ---------------------------------------------------------------------------
// Simple enumerations and their textual forms

#[derive(Clone, Debug, PartialEq, Eq, Structural)]
pub enum AddrType {
    IP4,
    IP6,
}

#[derive(Clone, Debug, PartialEq, Eq, Structural)]
pub enum NetType {
    IN,
}

#[derive(Clone, Debug, PartialEq, Eq, Structural)]
pub enum MediaProto {
    Udp,
    RtpAvp,
    RtpAvpf,
    RtpSavp,
    RtpSavpf,
    UdpTlsRtpSavpf,
}

#[derive(Clone, Debug, PartialEq, Eq, Structural)]
pub enum MediaType {
    AUDIO,
    VIDEO,
    TEXT,
    APPLICATION,
    MESSAGE,
}

pub open spec fn spec_ser_addr_type(t: AddrType) -> Seq<u8> {
    match t {
        AddrType::IP4 => spec_kw_ip4(),
        AddrType::IP6 => spec_kw_ip6(),
    }
}

pub fn ser_addr_type(t: &AddrType) -> (r: Vec<u8>)
    ensures
        r@ == spec_ser_addr_type(*t),
{
    match t {
        AddrType::IP4 => kw_ip4(),
        AddrType::IP6 => kw_ip6(),
    }
}

pub open spec fn spec_parse_addr_type(t: Seq<u8>) -> Option<AddrType> {
    if t == spec_kw_ip4() {
        Some(AddrType::IP4)
    } else if t == spec_kw_ip6() {
        Some(AddrType::IP6)
    } else {
        None
    }
}

pub fn parse_addr_type(t: &[u8]) -> (r: Option<AddrType>)
    ensures
        r == spec_parse_addr_type(t@),
{
    if bytes_eq(t, kw_ip4().as_slice()) {
        Some(AddrType::IP4)
    } else if bytes_eq(t, kw_ip6().as_slice()) {
        Some(AddrType::IP6)
    } else {
        None
    }
}

pub open spec fn spec_ser_net_type(t: NetType) -> Seq<u8> {
    spec_kw_net_in()
}

pub fn ser_net_type(t: &NetType) -> (r: Vec<u8>)
    ensures
        r@ == spec_ser_net_type(*t),
{
    kw_net_in()
}

pub open spec fn spec_parse_net_type(t: Seq<u8>) -> Option<NetType> {
    if t == spec_kw_net_in() {
        Some(NetType::IN)
    } else {
        None
    }
}

pub fn parse_net_type(t: &[u8]) -> (r: Option<NetType>)
    ensures
        r == spec_parse_net_type(t@),
{
    if bytes_eq(t, kw_net_in().as_slice()) {
        Some(NetType::IN)
    } else {
        None
    }
}

pub open spec fn spec_ser_media_proto(p: MediaProto) -> Seq<u8> {
    match p {
        MediaProto::Udp => spec_kw_proto_udp(),
        MediaProto::RtpAvp => spec_kw_rtp_avp(),
        MediaProto::RtpAvpf => spec_kw_rtp_avpf(),
        MediaProto::RtpSavp => spec_kw_rtp_savp(),
        MediaProto::RtpSavpf => spec_kw_rtp_savpf(),
        MediaProto::UdpTlsRtpSavpf => spec_kw_udp_tls_rtp_savpf(),
    }
}

pub fn ser_media_proto(p: &MediaProto) -> (r: Vec<u8>)
    ensures
        r@ == spec_ser_media_proto(*p),
{
    match p {
        MediaProto::Udp => kw_proto_udp(),
        MediaProto::RtpAvp => kw_rtp_avp(),
        MediaProto::RtpAvpf => kw_rtp_avpf(),
        MediaProto::RtpSavp => kw_rtp_savp(),
        MediaProto::RtpSavpf => kw_rtp_savpf(),
        MediaProto::UdpTlsRtpSavpf => kw_udp_tls_rtp_savpf(),
    }
}

pub open spec fn spec_parse_media_proto(t: Seq<u8>) -> Option<MediaProto> {
    if t == spec_kw_proto_udp() {
        Some(MediaProto::Udp)
    } else if t == spec_kw_rtp_avp() {
        Some(MediaProto::RtpAvp)
    } else if t == spec_kw_rtp_avpf() {
        Some(MediaProto::RtpAvpf)
    } else if t == spec_kw_rtp_savp() {
        Some(MediaProto::RtpSavp)
    } else if t == spec_kw_rtp_savpf() {
        Some(MediaProto::RtpSavpf)
    } else if t == spec_kw_udp_tls_rtp_savpf() {
        Some(MediaProto::UdpTlsRtpSavpf)
    } else {
        None
    }
}

pub fn parse_media_proto(t: &[u8]) -> (r: Option<MediaProto>)
    ensures
        r == spec_parse_media_proto(t@),
{
    if bytes_eq(t, kw_proto_udp().as_slice()) {
        Some(MediaProto::Udp)
    } else if bytes_eq(t, kw_rtp_avp().as_slice()) {
        Some(MediaProto::RtpAvp)
    } else if bytes_eq(t, kw_rtp_avpf().as_slice()) {
        Some(MediaProto::RtpAvpf)
    } else if bytes_eq(t, kw_rtp_savp().as_slice()) {
        Some(MediaProto::RtpSavp)
    } else if bytes_eq(t, kw_rtp_savpf().as_slice()) {
        Some(MediaProto::RtpSavpf)
    } else if bytes_eq(t, kw_udp_tls_rtp_savpf().as_slice()) {
        Some(MediaProto::UdpTlsRtpSavpf)
    } else {
        None
    }
}

pub open spec fn spec_ser_media_type(m: MediaType) -> Seq<u8> {
    match m {
        MediaType::AUDIO => spec_kw_audio(),
        MediaType::VIDEO => spec_kw_video(),
        MediaType::TEXT => spec_kw_text_media(),
        MediaType::APPLICATION => spec_kw_application(),
        MediaType::MESSAGE => spec_kw_message(),
    }
}

pub fn ser_media_type(m: &MediaType) -> (r: Vec<u8>)
    ensures
        r@ == spec_ser_media_type(*m),
{
    match m {
        MediaType::AUDIO => kw_audio(),
        MediaType::VIDEO => kw_video(),
        MediaType::TEXT => kw_text_media(),
        MediaType::APPLICATION => kw_application(),
        MediaType::MESSAGE => kw_message(),
    }
}

pub open spec fn spec_parse_media_type(t: Seq<u8>) -> Option<MediaType> {
    if t == spec_kw_audio() {
        Some(MediaType::AUDIO)
    } else if t == spec_kw_video() {
        Some(MediaType::VIDEO)
    } else if t == spec_kw_text_media() {
        Some(MediaType::TEXT)
    } else if t == spec_kw_application() {
        Some(MediaType::APPLICATION)
    } else if t == spec_kw_message() {
        Some(MediaType::MESSAGE)
    } else {
        None
    }
}

pub fn parse_media_type(t: &[u8]) -> (r: Option<MediaType>)
    ensures
        r == spec_parse_media_type(t@),
{
    if bytes_eq(t, kw_audio().as_slice()) {
        Some(MediaType::AUDIO)
    } else if bytes_eq(t, kw_video().as_slice()) {
        Some(MediaType::VIDEO)
    } else if bytes_eq(t, kw_text_media().as_slice()) {
        Some(MediaType::TEXT)
    } else if bytes_eq(t, kw_application().as_slice()) {
        Some(MediaType::APPLICATION)
    } else if bytes_eq(t, kw_message().as_slice()) {
        Some(MediaType::MESSAGE)
    } else {
        None
    }
}

/// Serialized form of an ICE transport protocol (lower case on the wire).
pub open spec fn spec_ser_proto(p: Proto) -> Seq<u8> {
    match p {
        Proto::Udp => spec_kw_udp_lower(),
        Proto::Tcp => spec_kw_tcp_lower(),
    }
}

pub fn ser_proto(p: &Proto) -> (r: Vec<u8>)
    ensures
        r@ == spec_ser_proto(*p),
{
    match p {
        Proto::Udp => kw_udp_lower(),
        Proto::Tcp => kw_tcp_lower(),
    }
}

/// Parsing accepts either case, as the original did.
pub open spec fn spec_parse_proto(t: Seq<u8>) -> Option<Proto> {
    if t == spec_kw_udp_lower() || t == spec_kw_proto_udp() {
        Some(Proto::Udp)
    } else if t == spec_kw_tcp_lower() || t == spec_kw_tcp_upper() {
        Some(Proto::Tcp)
    } else {
        None
    }
}

pub fn parse_proto(t: &[u8]) -> (r: Option<Proto>)
    ensures
        r == spec_parse_proto(t@),
{
    if bytes_eq(t, kw_udp_lower().as_slice()) || bytes_eq(t, kw_proto_udp().as_slice()) {
        Some(Proto::Udp)
    } else if bytes_eq(t, kw_tcp_lower().as_slice()) || bytes_eq(t, kw_tcp_upper().as_slice()) {
        Some(Proto::Tcp)
    } else {
        None
    }
}

pub open spec fn spec_ser_cand_type(c: CandidateType) -> Seq<u8> {
    match c {
        CandidateType::Host => spec_kw_host(),
        CandidateType::Srflx => spec_kw_srflx(),
        CandidateType::Prflx => spec_kw_prflx(),
        CandidateType::Relay => spec_kw_relay(),
    }
}

pub fn ser_cand_type(c: &CandidateType) -> (r: Vec<u8>)
    ensures
        r@ == spec_ser_cand_type(*c),
{
    match c {
        CandidateType::Host => kw_host(),
        CandidateType::Srflx => kw_srflx(),
        CandidateType::Prflx => kw_prflx(),
        CandidateType::Relay => kw_relay(),
    }
}

pub open spec fn spec_parse_cand_type(t: Seq<u8>) -> Option<CandidateType> {
    if t == spec_kw_host() {
        Some(CandidateType::Host)
    } else if t == spec_kw_srflx() {
        Some(CandidateType::Srflx)
    } else if t == spec_kw_prflx() {
        Some(CandidateType::Prflx)
    } else if t == spec_kw_relay() {
        Some(CandidateType::Relay)
    } else {
        None
    }
}

pub fn parse_cand_type(t: &[u8]) -> (r: Option<CandidateType>)
    ensures
        r == spec_parse_cand_type(t@),
{
    if bytes_eq(t, kw_host().as_slice()) {
        Some(CandidateType::Host)
    } else if bytes_eq(t, kw_srflx().as_slice()) {
        Some(CandidateType::Srflx)
    } else if bytes_eq(t, kw_prflx().as_slice()) {
        Some(CandidateType::Prflx)
    } else if bytes_eq(t, kw_relay().as_slice()) {
        Some(CandidateType::Relay)
    } else {
        None
    }
}

// ---------------------------------------------------------------------------
// Session-level values

#[derive(Clone, Debug, PartialEq)]
pub struct Origin {
    pub username: String,
    pub session_id: String,
    pub session_version: u64,
    pub net_type: NetType,
    pub addr_type: AddrType,
    pub ip_address: IpAddr,
}

#[verifier::ext_equal]
pub struct OriginV {
    pub username: Seq<u8>,
    pub session_id: Seq<u8>,
    pub session_version: u64,
    pub net_type: NetType,
    pub addr_type: AddrType,
    pub ip_address: IpAddrV,
}

impl View for Origin {
    type V = OriginV;

    open spec fn view(&self) -> OriginV {
        OriginV {
            username: str_bytes(self.username@),
            session_id: str_bytes(self.session_id@),
            session_version: self.session_version,
            net_type: self.net_type,
            addr_type: self.addr_type,
            ip_address: self.ip_address@,
        }
    }
}

#[derive(Clone, Debug, PartialEq)]
pub struct Connection {
    pub net_type: NetType,
    pub addr_type: AddrType,
    pub ip_address: IpAddr,
    pub ttl: u8,
    pub nr_addrs: u8,
}

#[verifier::ext_equal]
pub struct ConnectionV {
    pub net_type: NetType,
    pub addr_type: AddrType,
    pub ip_address: IpAddrV,
    pub ttl: u8,
    pub nr_addrs: u8,
}

impl View for Connection {
    type V = ConnectionV;

    open spec fn view(&self) -> ConnectionV {
        ConnectionV {
            net_type: self.net_type,
            addr_type: self.addr_type,
            ip_address: self.ip_address@,
            ttl: self.ttl,
            nr_addrs: self.nr_addrs,
        }
    }
}

/// Connection data as it appears inside a media block in full generality;
/// carried for API completeness.
#[derive(Clone, Debug, PartialEq)]
pub struct ConnectionData {
    pub ip_address: IpAddr,
    pub ttl: Option<u8>,
    pub num_addresses: Option<u8>,
}

#[derive(Clone, Copy, Debug, PartialEq, Eq, Structural)]
pub struct Timing {
    pub start_time: u64,
    pub stop_time: u64,
}

#[derive(Clone, Debug, PartialEq)]
pub struct Media {
    pub media: MediaType,
    pub port: u16,
    pub proto: MediaProto,
    pub fmt: Vec<String>,
}

#[verifier::ext_equal]
pub struct MediaV {
    pub media: MediaType,
    pub port: u16,
    pub proto: MediaProto,
    pub fmt: Seq<Seq<u8>>,
}

impl View for Media {
    type V = MediaV;

    open spec fn view(&self) -> MediaV {
        MediaV {
            media: self.media,
            port: self.port,
            proto: self.proto,
            fmt: Seq::new(self.fmt@.len(), |i: int| str_bytes(self.fmt@[i]@)),
        }
    }
}

/// Appends a byte vector to the output being built.
pub fn push_bytes(out: &mut Vec<u8>, piece: Vec<u8>)
    ensures
        final(out)@ == old(out)@ + piece@,
{
    let mut p = piece;
    out.append(&mut p);
}

// ---------------------------------------------------------------------------
// Origin line value ("o=<value>")

pub open spec fn spec_ser_origin(o: OriginV) -> Seq<u8> {
    o.username + seq![0x20u8] + o.session_id + seq![0x20u8] + spec_fmt_nat(
        o.session_version as nat,
    ) + seq![0x20u8] + spec_ser_net_type(o.net_type) + seq![0x20u8] + spec_ser_addr_type(
        o.addr_type,
    ) + seq![0x20u8] + spec_ser_ip(o.ip_address)
}

pub fn ser_origin(o: &Origin) -> (r: Vec<u8>)
    ensures
        r@ == spec_ser_origin(o@),
{
    let mut out: Vec<u8> = Vec::new();
    push_bytes(&mut out, string_to_bytes(&o.username));
    out.push(0x20);
    push_bytes(&mut out, string_to_bytes(&o.session_id));
    out.push(0x20);
    push_bytes(&mut out, fmt_u64(o.session_version));
    out.push(0x20);
    push_bytes(&mut out, ser_net_type(&o.net_type));
    out.push(0x20);
    push_bytes(&mut out, ser_addr_type(&o.addr_type));
    out.push(0x20);
    push_bytes(&mut out, ser_ip(&o.ip_address));
    proof {
        assert(out@ =~= spec_ser_origin(o@));
    }
    out
}

pub open spec fn spec_parse_origin(v: Seq<u8>) -> Option<OriginV> {
    let parts = spec_split(v, 0x20);
    if parts.len() != 6 {
        None
    } else if !valid_utf8(parts[0]) || !valid_utf8(parts[1]) || !is_dec(
        parts[2],
        u64::MAX as nat,
    ) {
        None
    } else {
        match (spec_parse_net_type(parts[3]), spec_parse_addr_type(parts[4]), spec_parse_ip(
            parts[5],
        )) {
            (Some(nt), Some(at), Some(ip)) => Some(
                OriginV {
                    username: parts[0],
                    session_id: parts[1],
                    session_version: dec_val(parts[2]) as u64,
                    net_type: nt,
                    addr_type: at,
                    ip_address: ip,
                },
            ),
            _ => None,
        }
    }
}

pub fn parse_origin(v: &[u8]) -> (r: Option<Origin>)
    ensures
        match r {
            Some(o) => spec_parse_origin(v@) == Some(o@),
            None => spec_parse_origin(v@) is None,
        },
{
    let parts = split(v, 0x20);
    let ghost pv = parts.deep_view();
    proof {
        assert forall|i: int| 0 <= i < pv.len() implies #[trigger] pv[i] == parts@[i]@ by {
            assert(pv[i] =~= parts@[i]@);
        }
    }
    if parts.len() != 6 {
        return None;
    }
    let username = bytes_to_string(clone_bytes(&parts[0]));
    let session_id = bytes_to_string(clone_bytes(&parts[1]));
    let sv = parse_u64(parts[2].as_slice());
    if username.is_none() || session_id.is_none() || sv.is_none() {
        return None;
    }
    let nt = parse_net_type(parts[3].as_slice());
    let at = parse_addr_type(parts[4].as_slice());
    let ip = parse_ip(parts[5].as_slice());
    if let (Some(nt), Some(at), Some(ip)) = (nt, at, ip) {
        Some(
            Origin {
                username: username.unwrap(),
                session_id: session_id.unwrap(),
                session_version: sv.unwrap(),
                net_type: nt,
                addr_type: at,
                ip_address: ip,
            },
        )
    } else {
        None
    }
}

// ---------------------------------------------------------------------------
// Connection line value ("c=<value>")

pub open spec fn spec_ser_connection(c: ConnectionV) -> Seq<u8> {
    spec_ser_net_type(c.net_type) + seq![0x20u8] + spec_ser_addr_type(c.addr_type) + seq![0x20u8]
        + spec_ser_ip(c.ip_address) + seq![0x20u8] + spec_fmt_nat(c.ttl as nat) + seq![0x20u8]
        + spec_fmt_nat(c.nr_addrs as nat)
}

pub fn ser_connection(c: &Connection) -> (r: Vec<u8>)
    ensures
        r@ == spec_ser_connection(c@),
{
    let mut out: Vec<u8> = Vec::new();
    push_bytes(&mut out, ser_net_type(&c.net_type));
    out.push(0x20);
    push_bytes(&mut out, ser_addr_type(&c.addr_type));
    out.push(0x20);
    push_bytes(&mut out, ser_ip(&c.ip_address));
    out.push(0x20);
    push_bytes(&mut out, fmt_u8(c.ttl));
    out.push(0x20);
    push_bytes(&mut out, fmt_u8(c.nr_addrs));
    proof {
        assert(out@ =~= spec_ser_connection(c@));
    }
    out
}

/// Three space-separated fields with an optional "/ttl/addrs" suffix on the
/// address (the inbound form), or the five-field form this library emits.
pub open spec fn spec_parse_connection(v: Seq<u8>) -> Option<ConnectionV> {
    let parts = spec_split(v, 0x20);
    if parts.len() == 3 {
        let sub = spec_split(parts[2], 0x2f);
        match (spec_parse_net_type(parts[0]), spec_parse_addr_type(parts[1]), spec_parse_ip(
            sub[0],
        )) {
            (Some(nt), Some(at), Some(ip)) => {
                if spec_is_multicast_or_v6(ip) && sub.len() > 1 {
                    None
                } else if sub.len() == 3 {
                    if is_dec(sub[1], u8::MAX as nat) && is_dec(sub[2], u8::MAX as nat) {
                        Some(
                            ConnectionV {
                                net_type: nt,
                                addr_type: at,
                                ip_address: ip,
                                ttl: dec_val(sub[1]) as u8,
                                nr_addrs: dec_val(sub[2]) as u8,
                            },
                        )
                    } else {
                        None
                    }
                } else if sub.len() == 2 {
                    if is_dec(sub[1], u8::MAX as nat) {
                        Some(
                            ConnectionV {
                                net_type: nt,
                                addr_type: at,
                                ip_address: ip,
                                ttl: dec_val(sub[1]) as u8,
                                nr_addrs: 0,
                            },
                        )
                    } else {
                        None
                    }
                } else {
                    Some(
                        ConnectionV {
                            net_type: nt,
                            addr_type: at,
                            ip_address: ip,
                            ttl: 0,
                            nr_addrs: 0,
                        },
                    )
                }
            },
            _ => None,
        }
    } else if parts.len() == 5 {
        match (spec_parse_net_type(parts[0]), spec_parse_addr_type(parts[1]), spec_parse_ip(
            parts[2],
        )) {
            (Some(nt), Some(at), Some(ip)) => {
                if is_dec(parts[3], u8::MAX as nat) && is_dec(parts[4], u8::MAX as nat) {
                    Some(
                        ConnectionV {
                            net_type: nt,
                            addr_type: at,
                            ip_address: ip,
                            ttl: dec_val(parts[3]) as u8,
                            nr_addrs: dec_val(parts[4]) as u8,
                        },
                    )
                } else {
                    None
                }
            },
            _ => None,
        }
    } else {
        None
    }
}

pub fn parse_connection(v: &[u8]) -> (r: Option<Connection>)
    ensures
        match r {
            Some(c) => spec_parse_connection(v@) == Some(c@),
            None => spec_parse_connection(v@) is None,
        },
{
    let parts = split(v, 0x20);
    let ghost pv = parts.deep_view();
    proof {
        assert forall|i: int| 0 <= i < pv.len() implies #[trigger] pv[i] == parts@[i]@ by {
            assert(pv[i] =~= parts@[i]@);
        }
    }
    if parts.len() == 3 {
        let sub = split(parts[2].as_slice(), 0x2f);
        let ghost sv = sub.deep_view();
        proof {
            assert forall|i: int| 0 <= i < sv.len() implies #[trigger] sv[i] == sub@[i]@ by {
                assert(sv[i] =~= sub@[i]@);
            }
        }
        let nt = parse_net_type(parts[0].as_slice());
        let at = parse_addr_type(parts[1].as_slice());
        let ip = parse_ip(sub[0].as_slice());
        if let (Some(nt), Some(at), Some(ip)) = (nt, at, ip) {
            if is_multicast_or_v6(&ip) && sub.len() > 1 {
                return None;
            }
            if sub.len() == 3 {
                let ttl = parse_u8(sub[1].as_slice());
                let nr = parse_u8(sub[2].as_slice());
                if let (Some(ttl), Some(nr)) = (ttl, nr) {
                    return Some(
                        Connection {
                            net_type: nt,
                            addr_type: at,
                            ip_address: ip,
                            ttl,
                            nr_addrs: nr,
                        },
                    );
                }
                return None;
            }
            if sub.len() == 2 {
                let ttl = parse_u8(sub[1].as_slice());
                if let Some(ttl) = ttl {
                    return Some(
                        Connection {
                            net_type: nt,
                            addr_type: at,
                            ip_address: ip,
                            ttl,
                            nr_addrs: 0,
                        },
                    );
                }
                return None;
            }
            return Some(
                Connection { net_type: nt, addr_type: at, ip_address: ip, ttl: 0, nr_addrs: 0 },
            );
        }
        return None;
    }
    if parts.len() == 5 {
        let nt = parse_net_type(parts[0].as_slice());
        let at = parse_addr_type(parts[1].as_slice());
        let ip = parse_ip(parts[2].as_slice());
        if let (Some(nt), Some(at), Some(ip)) = (nt, at, ip) {
            let ttl = parse_u8(parts[3].as_slice());
            let nr = parse_u8(parts[4].as_slice());
            if let (Some(ttl), Some(nr)) = (ttl, nr) {
                return Some(
                    Connection { net_type: nt, addr_type: at, ip_address: ip, ttl, nr_addrs: nr },
                );
            }
            return None;
        }
        return None;
    }
    None
}

// ---------------------------------------------------------------------------
// Timing line value ("t=<value>")

pub open spec fn spec_ser_timing(t: Timing) -> Seq<u8> {
    spec_fmt_nat(t.start_time as nat) + seq![0x20u8] + spec_fmt_nat(t.stop_time as nat)
}

pub fn ser_timing(t: &Timing) -> (r: Vec<u8>)
    ensures
        r@ == spec_ser_timing(*t),
{
    let mut out = fmt_u64(t.start_time);
    out.push(0x20);
    push_bytes(&mut out, fmt_u64(t.stop_time));
    proof {
        assert(out@ =~= spec_ser_timing(*t));
    }
    out
}

pub open spec fn spec_parse_timing(v: Seq<u8>) -> Option<Timing> {
    let parts = spec_split(v, 0x20);
    if parts.len() != 2 {
        None
    } else if is_dec(parts[0], u64::MAX as nat) && is_dec(parts[1], u64::MAX as nat) {
        Some(
            Timing { start_time: dec_val(parts[0]) as u64, stop_time: dec_val(parts[1]) as u64 },
        )
    } else {
        None
    }
}

pub fn parse_timing(v: &[u8]) -> (r: Option<Timing>)
    ensures
        r == spec_parse_timing(v@),
{
    let parts = split(v, 0x20);
    let ghost pv = parts.deep_view();
    proof {
        assert forall|i: int| 0 <= i < pv.len() implies #[trigger] pv[i] == parts@[i]@ by {
            assert(pv[i] =~= parts@[i]@);
        }
    }
    if parts.len() != 2 {
        return None;
    }
    let a = parse_u64(parts[0].as_slice());
    let b = parse_u64(parts[1].as_slice());
    if let (Some(a), Some(b)) = (a, b) {
        Some(Timing { start_time: a, stop_time: b })
    } else {
        None
    }
}

// ---------------------------------------------------------------------------
// Media line value ("m=<value>")

/// The trailing format tokens of a media line, each preceded by a space.
pub open spec fn spec_ser_fmt_list(fmt: Seq<Seq<u8>>) -> Seq<u8>
    decreases fmt.len(),
{
    if fmt.len() == 0 {
        Seq::empty()
    } else {
        spec_ser_fmt_list(fmt.drop_last()) + seq![0x20u8] + fmt.last()
    }
}

pub open spec fn spec_ser_media(m: MediaV) -> Seq<u8> {
    spec_ser_media_type(m.media) + seq![0x20u8] + spec_fmt_nat(m.port as nat) + seq![0x20u8]
        + spec_ser_media_proto(m.proto) + spec_ser_fmt_list(m.fmt)
}

pub fn ser_media(m: &Media) -> (r: Vec<u8>)
    ensures
        r@ == spec_ser_media(m@),
{
    let mut out = ser_media_type(&m.media);
    out.push(0x20);
    push_bytes(&mut out, fmt_u16(m.port));
    out.push(0x20);
    push_bytes(&mut out, ser_media_proto(&m.proto));
    let ghost head = out@;
    let mut i: usize = 0;
    while i < m.fmt.len()
        invariant
            0 <= i <= m.fmt@.len(),
            out@ == head + spec_ser_fmt_list(m@.fmt.subrange(0, i as int)),
            m@.fmt.len() == m.fmt@.len(),
            forall|j: int| 0 <= j < m.fmt@.len() ==> m@.fmt[j] == str_bytes(#[trigger] m.fmt@[j]@),
        decreases m.fmt@.len() - i,
    {
        out.push(0x20);
        push_bytes(&mut out, string_to_bytes(&m.fmt[i]));
        proof {
            let f1 = m@.fmt.subrange(0, i as int + 1);
            assert(f1.drop_last() =~= m@.fmt.subrange(0, i as int));
            assert(f1.last() == m@.fmt[i as int]);
            assert(out@ =~= head + spec_ser_fmt_list(f1));
        }
        i = i + 1;
    }
    proof {
        assert(m@.fmt.subrange(0, i as int) =~= m@.fmt);
        assert(out@ =~= spec_ser_media(m@));
    }
    out
}

/// All format tokens are valid UTF-8 (they become `String` values).
pub open spec fn fmt_tokens_ok(parts: Seq<Seq<u8>>) -> bool {
    forall|i: int| 3 <= i < parts.len() ==> valid_utf8(#[trigger] parts[i])
}

pub open spec fn spec_parse_media(v: Seq<u8>) -> Option<MediaV> {
    let parts = spec_split(v, 0x20);
    if parts.len() < 4 {
        None
    } else if !fmt_tokens_ok(parts) {
        None
    } else {
        match (spec_parse_media_type(parts[0]), spec_parse_media_proto(parts[2])) {
            (Some(mt), Some(mp)) => {
                if is_dec(parts[1], u16::MAX as nat) {
                    Some(
                        MediaV {
                            media: mt,
                            port: dec_val(parts[1]) as u16,
                            proto: mp,
                            fmt: parts.subrange(3, parts.len() as int),
                        },
                    )
                } else {
                    None
                }
            },
            _ => None,
        }
    }
}

pub fn parse_media(v: &[u8]) -> (r: Option<Media>)
    ensures
        match r {
            Some(m) => spec_parse_media(v@) == Some(m@),
            None => spec_parse_media(v@) is None,
        },
{
    let parts = split(v, 0x20);
    let ghost pv = parts.deep_view();
    proof {
        assert forall|i: int| 0 <= i < pv.len() implies #[trigger] pv[i] == parts@[i]@ by {
            assert(pv[i] =~= parts@[i]@);
        }
    }
    if parts.len() < 4 {
        return None;
    }
    let mt = parse_media_type(parts[0].as_slice());
    let port = parse_u16(parts[1].as_slice());
    let mp = parse_media_proto(parts[2].as_slice());
    let mut fmt: Vec<String> = Vec::new();
    let mut i: usize = 3;
    while i < parts.len()
        invariant
            3 <= i <= parts@.len(),
            pv.len() == parts@.len(),
            pv.len() >= 4,
            pv == spec_split(v@, 0x20),
            forall|j: int| 0 <= j < pv.len() ==> #[trigger] pv[j] == parts@[j]@,
            forall|j: int| 3 <= j < i ==> valid_utf8(#[trigger] pv[j]),
            fmt@.len() == i - 3,
            forall|j: int| 0 <= j < fmt@.len() ==> str_bytes(#[trigger] fmt@[j]@) == pv[j + 3],
        decreases parts@.len() - i,
    {
        match bytes_to_string(clone_bytes(&parts[i])) {
            Some(s) => {
                fmt.push(s);
            },
            None => {
                proof {
                    assert(!valid_utf8(pv[i as int]));
                    assert(!fmt_tokens_ok(pv));
                }
                return None;
            },
        }
        i = i + 1;
    }
    proof {
        assert(fmt_tokens_ok(pv));
    }
    if let (Some(mt), Some(port), Some(mp)) = (mt, port, mp) {
        let m = Media { media: mt, port, proto: mp, fmt };
        proof {
            assert(m@.fmt =~= pv.subrange(3, pv.len() as int));
        }
        Some(m)
    } else {
        None
    }
}

// ---------------------------------------------------------------------------
// Attributes

#[derive(Clone, Debug, PartialEq)]
pub struct PTimeValue {
    pub value: u32,
}

#[derive(Clone, Debug, PartialEq)]
pub struct RtpMapValue {
    pub payload_type: u32,
    pub encoding_name: String,
    pub clock_rate: u32,
    pub encoding_params: Option<u32>,
}

#[verifier::ext_equal]
pub struct RtpMapV {
    pub payload_type: u32,
    pub encoding_name: Seq<u8>,
    pub clock_rate: u32,
    pub encoding_params: Option<u32>,
}

impl View for RtpMapValue {
    type V = RtpMapV;

    open spec fn view(&self) -> RtpMapV {
        RtpMapV {
            payload_type: self.payload_type,
            encoding_name: str_bytes(self.encoding_name@),
            clock_rate: self.clock_rate,
            encoding_params: self.encoding_params,
        }
    }
}

#[derive(Clone, Debug, PartialEq)]
pub struct FmtPValue {
    pub format: u32,
    pub format_params: String,
}

#[verifier::ext_equal]
pub struct FmtPV {
    pub format: u32,
    pub format_params: Seq<u8>,
}

impl View for FmtPValue {
    type V = FmtPV;

    open spec fn view(&self) -> FmtPV {
        FmtPV { format: self.format, format_params: str_bytes(self.format_params@) }
    }
}

#[derive(Clone, Debug, PartialEq)]
pub struct CandidateValue {
    pub ice_candidate: Candidate,
}

impl View for CandidateValue {
    type V = CandidateV;

    open spec fn view(&self) -> CandidateV {
        self.ice_candidate@
    }
}

#[derive(Clone, Debug, PartialEq)]
pub struct IceUfragValue {
    pub value: String,
}

#[derive(Clone, Debug, PartialEq)]
pub struct IcePwdValue {
    pub value: String,
}

#[derive(Clone, Debug, PartialEq)]
pub enum Attr {
    SendRecv,
    SendOnly,
    RecvOnly,
    Inactive,
    PTime(PTimeValue),
    RtpMap(RtpMapValue),
    FmtP(FmtPValue),
    Candidate(CandidateValue),
    IceUfrag(IceUfragValue),
    IcePwd(IcePwdValue),
    IceMismatch,
    IceLite,
}

#[verifier::ext_equal]
pub enum AttrV {
    SendRecv,
    SendOnly,
    RecvOnly,
    Inactive,
    PTime(u32),
    RtpMap(RtpMapV),
    FmtP(FmtPV),
    Candidate(CandidateV),
    IceUfrag(Seq<u8>),
    IcePwd(Seq<u8>),
    IceMismatch,
    IceLite,
}

impl View for Attr {
    type V = AttrV;

    open spec fn view(&self) -> AttrV {
        match self {
            Attr::SendRecv => AttrV::SendRecv,
            Attr::SendOnly => AttrV::SendOnly,
            Attr::RecvOnly => AttrV::RecvOnly,
            Attr::Inactive => AttrV::Inactive,
            Attr::PTime(p) => AttrV::PTime(p.value),
            Attr::RtpMap(r) => AttrV::RtpMap(r@),
            Attr::FmtP(f) => AttrV::FmtP(f@),
            Attr::Candidate(c) => AttrV::Candidate(c@),
            Attr::IceUfrag(u) => AttrV::IceUfrag(str_bytes(u.value@)),
            Attr::IcePwd(p) => AttrV::IcePwd(str_bytes(p.value@)),
            Attr::IceMismatch => AttrV::IceMismatch,
            Attr::IceLite => AttrV::IceLite,
        }
    }
}

// ---------------------------------------------------------------------------
// rtpmap / fmtp values

pub open spec fn spec_ser_rtpmap(r: RtpMapV) -> Seq<u8> {
    spec_fmt_nat(r.payload_type as nat) + seq![0x20u8] + r.encoding_name + seq![0x2fu8]
        + spec_fmt_nat(r.clock_rate as nat) + match r.encoding_params {
        Some(p) => seq![0x2fu8] + spec_fmt_nat(p as nat),
        None => Seq::empty(),
    }
}

pub fn ser_rtpmap(r: &RtpMapValue) -> (out: Vec<u8>)
    ensures
        out@ == spec_ser_rtpmap(r@),
{
    let mut out = fmt_u32(r.payload_type);
    out.push(0x20);
    push_bytes(&mut out, string_to_bytes(&r.encoding_name));
    out.push(0x2f);
    push_bytes(&mut out, fmt_u32(r.clock_rate));
    match r.encoding_params {
        Some(p) => {
            out.push(0x2f);
            push_bytes(&mut out, fmt_u32(p));
        },
        None => {},
    }
    proof {
        assert(out@ =~= spec_ser_rtpmap(r@));
    }
    out
}

pub open spec fn spec_parse_rtpmap(v: Seq<u8>) -> Option<RtpMapV> {
    let parts = spec_split(v, 0x20);
    if parts.len() != 2 {
        None
    } else if !is_dec(parts[0], u32::MAX as nat) {
        None
    } else {
        let sub = spec_split(parts[1], 0x2f);
        if sub.len() < 2 {
            None
        } else if !valid_utf8(sub[0]) || !is_dec(sub[1], u32::MAX as nat) {
            None
        } else {
            Some(
                RtpMapV {
                    payload_type: dec_val(parts[0]) as u32,
                    encoding_name: sub[0],
                    clock_rate: dec_val(sub[1]) as u32,
                    encoding_params: if sub.len() == 3 && is_dec(sub[2], u32::MAX as nat) {
                        Some(dec_val(sub[2]) as u32)
                    } else {
                        None
                    },
                },
            )
        }
    }
}

pub fn parse_rtpmap(v: &[u8]) -> (r: Option<RtpMapValue>)
    ensures
        match r {
            Some(m) => spec_parse_rtpmap(v@) == Some(m@),
            None => spec_parse_rtpmap(v@) is None,
        },
{
    let parts = split(v, 0x20);
    let ghost pv = parts.deep_view();
    proof {
        assert forall|i: int| 0 <= i < pv.len() implies #[trigger] pv[i] == parts@[i]@ by {
            assert(pv[i] =~= parts@[i]@);
        }
    }
    if parts.len() != 2 {
        return None;
    }
    let pt = parse_u32(parts[0].as_slice());
    if pt.is_none() {
        return None;
    }
    let sub = split(parts[1].as_slice(), 0x2f);
    let ghost sv = sub.deep_view();
    proof {
        assert forall|i: int| 0 <= i < sv.len() implies #[trigger] sv[i] == sub@[i]@ by {
            assert(sv[i] =~= sub@[i]@);
        }
    }
    if sub.len() < 2 {
        return None;
    }
    let name = bytes_to_string(clone_bytes(&sub[0]));
    let rate = parse_u32(sub[1].as_slice());
    if name.is_none() || rate.is_none() {
        return None;
    }
    let params: Option<u32> = if sub.len() == 3 {
        parse_u32(sub[2].as_slice())
    } else {
        None
    };
    Some(
        RtpMapValue {
            payload_type: pt.unwrap(),
            encoding_name: name.unwrap(),
            clock_rate: rate.unwrap(),
            encoding_params: params,
        },
    )
}

pub open spec fn spec_ser_fmtp(f: FmtPV) -> Seq<u8> {
    spec_fmt_nat(f.format as nat) + seq![0x20u8] + f.format_params
}

pub fn ser_fmtp(f: &FmtPValue) -> (out: Vec<u8>)
    ensures
        out@ == spec_ser_fmtp(f@),
{
    let mut out = fmt_u32(f.format);
    out.push(0x20);
    push_bytes(&mut out, string_to_bytes(&f.format_params));
    proof {
        assert(out@ =~= spec_ser_fmtp(f@));
    }
    out
}

pub open spec fn spec_parse_fmtp(v: Seq<u8>) -> Option<FmtPV> {
    let parts = spec_split(v, 0x20);
    if parts.len() != 2 {
        None
    } else if !is_dec(parts[0], u32::MAX as nat) || !valid_utf8(parts[1]) {
        None
    } else {
        Some(FmtPV { format: dec_val(parts[0]) as u32, format_params: parts[1] })
    }
}

pub fn parse_fmtp(v: &[u8]) -> (r: Option<FmtPValue>)
    ensures
        match r {
            Some(f) => spec_parse_fmtp(v@) == Some(f@),
            None => spec_parse_fmtp(v@) is None,
        },
{
    let parts = split(v, 0x20);
    let ghost pv = parts.deep_view();
    proof {
        assert forall|i: int| 0 <= i < pv.len() implies #[trigger] pv[i] == parts@[i]@ by {
            assert(pv[i] =~= parts@[i]@);
        }
    }
    if parts.len() != 2 {
        return None;
    }
    let format = parse_u32(parts[0].as_slice());
    let params = bytes_to_string(clone_bytes(&parts[1]));
    if let (Some(format), Some(params)) = (format, params) {
        Some(FmtPValue { format, format_params: params })
    } else {
        None
    }
}

// ---------------------------------------------------------------------------
// The candidate attribute value

pub open spec fn spec_ser_candidate(c: CandidateV) -> Seq<u8>
    recommends
        c.component_id is Some,
{
    c.foundation + seq![0x20u8] + spec_fmt_nat(c.component_id->0 as nat) + seq![0x20u8]
        + spec_ser_proto(c.proto) + seq![0x20u8] + spec_fmt_nat(c.priority as nat) + seq![0x20u8]
        + spec_ser_ip(c.conn) + seq![0x20u8] + spec_fmt_nat(c.port as nat) + seq![0x20u8]
        + spec_kw_typ() + seq![0x20u8] + spec_ser_cand_type(c.candidate_type) + match (
        c.rel_addr,
        c.rel_port,
    ) {
        (Some(ra), Some(rp)) => seq![0x20u8] + spec_kw_raddr() + seq![0x20u8] + spec_ser_ip(ra)
            + seq![0x20u8] + spec_kw_rport() + seq![0x20u8] + spec_fmt_nat(rp as nat),
        _ => Seq::empty(),
    }
}

#[verifier::rlimit(60)]
pub fn ser_candidate(c: &Candidate) -> (out: Vec<u8>)
    requires
        c.component_id is Some,
    ensures
        out@ == spec_ser_candidate(c@),
{
    let mut out = string_to_bytes(&c.foundation);
    out.push(0x20);
    push_bytes(&mut out, fmt_u16(c.component_id.unwrap()));
    out.push(0x20);
    push_bytes(&mut out, ser_proto(&c.proto));
    out.push(0x20);
    push_bytes(&mut out, fmt_u32(c.priority));
    out.push(0x20);
    push_bytes(&mut out, ser_ip(&c.conn));
    out.push(0x20);
    push_bytes(&mut out, fmt_u16(c.port));
    out.push(0x20);
    push_bytes(&mut out, kw_typ());
    out.push(0x20);
    push_bytes(&mut out, ser_cand_type(&c.candidate_type));
    match (&c.rel_addr, &c.rel_port) {
        (Some(ra), Some(rp)) => {
            out.push(0x20);
            push_bytes(&mut out, kw_raddr());
            out.push(0x20);
            push_bytes(&mut out, ser_ip(ra));
            out.push(0x20);
            push_bytes(&mut out, kw_rport());
            out.push(0x20);
            push_bytes(&mut out, fmt_u16(*rp));
        },
        _ => {},
    }
    proof {
        assert(out@ =~= spec_ser_candidate(c@));
    }
    out
}

pub open spec fn spec_parse_candidate(v: Seq<u8>) -> Option<CandidateV> {
    let parts = spec_split(v, 0x20);
    if parts.len() < 8 {
        None
    } else if !valid_utf8(parts[0]) || !is_dec(parts[1], u16::MAX as nat) || !is_dec(
        parts[3],
        u32::MAX as nat,
    ) || !is_dec(parts[5], u16::MAX as nat) || parts[6] != spec_kw_typ() {
        None
    } else {
        match (spec_parse_proto(parts[2]), spec_parse_ip(parts[4]), spec_parse_cand_type(
            parts[7],
        )) {
            (Some(proto), Some(conn), Some(ct)) => {
                if parts.len() >= 12 {
                    let ra = if parts[8] == spec_kw_raddr() {
                        match spec_parse_ip(parts[9]) {
                            Some(a) => Some(Some(a)),
                            None => None,
                        }
                    } else {
                        Some(None)
                    };
                    let rp = if parts[10] == spec_kw_rport() {
                        if is_dec(parts[11], u16::MAX as nat) {
                            Some(Some(dec_val(parts[11]) as u16))
                        } else {
                            None
                        }
                    } else {
                        Some(None)
                    };
                    match (ra, rp) {
                        (Some(rel_addr), Some(rel_port)) => Some(
                            CandidateV {
                                conn,
                                port: dec_val(parts[5]) as u16,
                                proto,
                                foundation: parts[0],
                                component_id: Some(dec_val(parts[1]) as u16),
                                priority: dec_val(parts[3]) as u32,
                                candidate_type: ct,
                                rel_addr,
                                rel_port,
                            },
                        ),
                        _ => None,
                    }
                } else {
                    Some(
                        CandidateV {
                            conn,
                            port: dec_val(parts[5]) as u16,
                            proto,
                            foundation: parts[0],
                            component_id: Some(dec_val(parts[1]) as u16),
                            priority: dec_val(parts[3]) as u32,
                            candidate_type: ct,
                            rel_addr: None,
                            rel_port: None,
                        },
                    )
                }
            },
            _ => None,
        }
    }
}

pub fn parse_candidate(v: &[u8]) -> (r: Option<CandidateValue>)
    ensures
        match r {
            Some(c) => spec_parse_candidate(v@) == Some(c@),
            None => spec_parse_candidate(v@) is None,
        },
{
    let parts = split(v, 0x20);
    let ghost pv = parts.deep_view();
    proof {
        assert forall|i: int| 0 <= i < pv.len() implies #[trigger] pv[i] == parts@[i]@ by {
            assert(pv[i] =~= parts@[i]@);
        }
    }
    if parts.len() < 8 {
        return None;
    }
    let foundation = bytes_to_string(clone_bytes(&parts[0]));
    let comp = parse_u16(parts[1].as_slice());
    let prio = parse_u32(parts[3].as_slice());
    let port = parse_u16(parts[5].as_slice());
    let typ_ok = bytes_eq(parts[6].as_slice(), kw_typ().as_slice());
    if foundation.is_none() || comp.is_none() || prio.is_none() || port.is_none() || !typ_ok {
        return None;
    }
    let proto = parse_proto(parts[2].as_slice());
    let conn = parse_ip(parts[4].as_slice());
    let ct = parse_cand_type(parts[7].as_slice());
    if let (Some(proto), Some(conn), Some(ct)) = (proto, conn, ct) {
        let mut rel_addr: Option<IpAddr> = None;
        let mut rel_port: Option<u16> = None;
        if parts.len() >= 12 {
            if bytes_eq(parts[8].as_slice(), kw_raddr().as_slice()) {
                match parse_ip(parts[9].as_slice()) {
                    Some(a) => {
                        rel_addr = Some(a);
                    },
                    None => {
                        return None;
                    },
                }
            }
            if bytes_eq(parts[10].as_slice(), kw_rport().as_slice()) {
                match parse_u16(parts[11].as_slice()) {
                    Some(p) => {
                        rel_port = Some(p);
                    },
                    None => {
                        return None;
                    },
                }
            }
        }
        Some(
            CandidateValue {
                ice_candidate: Candidate {
                    conn,
                    port: port.unwrap(),
                    proto,
                    foundation: foundation.unwrap(),
                    component_id: Some(comp.unwrap()),
                    priority: prio.unwrap(),
                    candidate_type: ct,
                    rel_addr,
                    rel_port,
                },
            },
        )
    } else {
        None
    }
}

// ---------------------------------------------------------------------------
// Whole attribute values ("a=<value>")

pub open spec fn spec_ser_attr(a: AttrV) -> Seq<u8> {
    match a {
        AttrV::SendRecv => spec_kw_sendrecv(),
        AttrV::SendOnly => spec_kw_sendonly(),
        AttrV::RecvOnly => spec_kw_recvonly(),
        AttrV::Inactive => spec_kw_inactive(),
        AttrV::PTime(p) => spec_kw_ptime() + seq![0x3au8] + spec_fmt_nat(p as nat),
        AttrV::RtpMap(r) => spec_kw_rtpmap() + seq![0x3au8] + spec_ser_rtpmap(r),
        AttrV::FmtP(f) => spec_kw_fmtp() + seq![0x3au8] + spec_ser_fmtp(f),
        AttrV::Candidate(c) => spec_kw_candidate() + seq![0x3au8] + spec_ser_candidate(c),
        AttrV::IceUfrag(u) => spec_kw_ice_ufrag() + seq![0x3au8] + u,
        AttrV::IcePwd(p) => spec_kw_ice_pwd() + seq![0x3au8] + p,
        AttrV::IceMismatch => spec_kw_ice_mismatch(),
        AttrV::IceLite => spec_kw_ice_lite(),
    }
}

/// An attribute can be serialized if any candidate in it names a component.
pub open spec fn attr_serializable(a: AttrV) -> bool {
    match a {
        AttrV::Candidate(c) => c.component_id is Some,
        _ => true,
    }
}

pub fn ser_attr(a: &Attr) -> (out: Vec<u8>)
    requires
        attr_serializable(a@),
    ensures
        out@ == spec_ser_attr(a@),
{
    match a {
        Attr::SendRecv => kw_sendrecv(),
        Attr::SendOnly => kw_sendonly(),
        Attr::RecvOnly => kw_recvonly(),
        Attr::Inactive => kw_inactive(),
        Attr::PTime(p) => {
            let mut out = kw_ptime();
            out.push(0x3a);
            push_bytes(&mut out, fmt_u32(p.value));
            proof {
                assert(out@ =~= spec_ser_attr(a@));
            }
            out
        },
        Attr::RtpMap(r) => {
            let mut out = kw_rtpmap();
            out.push(0x3a);
            push_bytes(&mut out, ser_rtpmap(r));
            proof {
                assert(out@ =~= spec_ser_attr(a@));
            }
            out
        },
        Attr::FmtP(f) => {
            let mut out = kw_fmtp();
            out.push(0x3a);
            push_bytes(&mut out, ser_fmtp(f));
            proof {
                assert(out@ =~= spec_ser_attr(a@));
            }
            out
        },
        Attr::Candidate(c) => {
            let mut out = kw_candidate();
            out.push(0x3a);
            push_bytes(&mut out, ser_candidate(&c.ice_candidate));
            proof {
                assert(out@ =~= spec_ser_attr(a@));
            }
            out
        },
        Attr::IceUfrag(u) => {
            let mut out = kw_ice_ufrag();
            out.push(0x3a);
            push_bytes(&mut out, string_to_bytes(&u.value));
            proof {
                assert(out@ =~= spec_ser_attr(a@));
            }
            out
        },
        Attr::IcePwd(p) => {
            let mut out = kw_ice_pwd();
            out.push(0x3a);
            push_bytes(&mut out, string_to_bytes(&p.value));
            proof {
                assert(out@ =~= spec_ser_attr(a@));
            }
            out
        },
        Attr::IceMismatch => kw_ice_mismatch(),
        Attr::IceLite => kw_ice_lite(),
    }
}

/// The attribute names that take no value.
pub open spec fn spec_parse_attr_bare(name: Seq<u8>) -> Option<AttrV> {
    if name == spec_kw_recvonly() {
        Some(AttrV::RecvOnly)
    } else if name == spec_kw_sendonly() {
        Some(AttrV::SendOnly)
    } else if name == spec_kw_sendrecv() {
        Some(AttrV::SendRecv)
    } else if name == spec_kw_inactive() {
        Some(AttrV::Inactive)
    } else if name == spec_kw_ice_mismatch() {
        Some(AttrV::IceMismatch)
    } else if name == spec_kw_ice_lite() {
        Some(AttrV::IceLite)
    } else {
        None
    }
}

fn parse_attr_bare(name: &[u8]) -> (r: Option<Attr>)
    ensures
        match r {
            Some(a) => spec_parse_attr_bare(name@) == Some(a@),
            None => spec_parse_attr_bare(name@) is None,
        },
{
    if bytes_eq(name, kw_recvonly().as_slice()) {
        Some(Attr::RecvOnly)
    } else if bytes_eq(name, kw_sendonly().as_slice()) {
        Some(Attr::SendOnly)
    } else if bytes_eq(name, kw_sendrecv().as_slice()) {
        Some(Attr::SendRecv)
    } else if bytes_eq(name, kw_inactive().as_slice()) {
        Some(Attr::Inactive)
    } else if bytes_eq(name, kw_ice_mismatch().as_slice()) {
        Some(Attr::IceMismatch)
    } else if bytes_eq(name, kw_ice_lite().as_slice()) {
        Some(Attr::IceLite)
    } else {
        None
    }
}

/// The attribute names that carry a value after ':'.
pub open spec fn spec_parse_attr_valued(name: Seq<u8>, val: Seq<u8>) -> Option<AttrV> {
    if spec_parse_attr_bare(name) is Some {
        // a bare name with a value keeps its bare meaning; the value is dropped
        spec_parse_attr_bare(name)
    } else if name == spec_kw_ptime() {
        if is_dec(val, u32::MAX as nat) {
            Some(AttrV::PTime(dec_val(val) as u32))
        } else {
            None
        }
    } else if name == spec_kw_rtpmap() {
        match spec_parse_rtpmap(val) {
            Some(r) => Some(AttrV::RtpMap(r)),
            None => None,
        }
    } else if name == spec_kw_fmtp() {
        match spec_parse_fmtp(val) {
            Some(f) => Some(AttrV::FmtP(f)),
            None => None,
        }
    } else if name == spec_kw_candidate() {
        match spec_parse_candidate(val) {
            Some(c) => Some(AttrV::Candidate(c)),
            None => None,
        }
    } else if name == spec_kw_ice_ufrag() {
        if valid_utf8(val) {
            Some(AttrV::IceUfrag(val))
        } else {
            None
        }
    } else if name == spec_kw_ice_pwd() {
        if valid_utf8(val) {
            Some(AttrV::IcePwd(val))
        } else {
            None
        }
    } else {
        None
    }
}

fn parse_attr_valued(name: &[u8], val: &[u8]) -> (r: Option<Attr>)
    ensures
        match r {
            Some(a) => spec_parse_attr_valued(name@, val@) == Some(a@),
            None => spec_parse_attr_valued(name@, val@) is None,
        },
{
    if let Some(a) = parse_attr_bare(name) {
        return Some(a);
    }
    if bytes_eq(name, kw_ptime().as_slice()) {
        match parse_u32(val) {
            Some(p) => Some(Attr::PTime(PTimeValue { value: p })),
            None => None,
        }
    } else if bytes_eq(name, kw_rtpmap().as_slice()) {
        match parse_rtpmap(val) {
            Some(r) => Some(Attr::RtpMap(r)),
            None => None,
        }
    } else if bytes_eq(name, kw_fmtp().as_slice()) {
        match parse_fmtp(val) {
            Some(f) => Some(Attr::FmtP(f)),
            None => None,
        }
    } else if bytes_eq(name, kw_candidate().as_slice()) {
        match parse_candidate(val) {
            Some(c) => Some(Attr::Candidate(c)),
            None => None,
        }
    } else if bytes_eq(name, kw_ice_ufrag().as_slice()) {
        match bytes_to_string(vstd::slice::slice_to_vec(val)) {
            Some(s) => Some(Attr::IceUfrag(IceUfragValue { value: s })),
            None => None,
        }
    } else if bytes_eq(name, kw_ice_pwd().as_slice()) {
        match bytes_to_string(vstd::slice::slice_to_vec(val)) {
            Some(s) => Some(Attr::IcePwd(IcePwdValue { value: s })),
            None => None,
        }
    } else {
        None
    }
}

/// An attribute value: a bare name, or "name:value" with at most one ':'.
pub open spec fn spec_parse_attr(v: Seq<u8>) -> Option<AttrV> {
    let parts = spec_split(v, 0x3a);
    if parts.len() == 1 {
        spec_parse_attr_bare(parts[0])
    } else if parts.len() == 2 {
        spec_parse_attr_valued(parts[0], parts[1])
    } else {
        None
    }
}

pub fn parse_attr(v: &[u8]) -> (r: Option<Attr>)
    ensures
        match r {
            Some(a) => spec_parse_attr(v@) == Some(a@),
            None => spec_parse_attr(v@) is None,
        },
{
    let parts = split(v, 0x3a);
    let ghost pv = parts.deep_view();
    proof {
        assert forall|i: int| 0 <= i < pv.len() implies #[trigger] pv[i] == parts@[i]@ by {
            assert(pv[i] =~= parts@[i]@);
        }
    }
    if parts.len() == 1 {
        parse_attr_bare(parts[0].as_slice())
    } else if parts.len() == 2 {
        parse_attr_valued(parts[0].as_slice(), parts[1].as_slice())
    } else {
        None
    }
}


// ---------------------------------------------------------------------------
// The protocol version number (a signed value, as "v=" lines carry an i32)

pub open spec fn spec_fmt_i32(v: int) -> Seq<u8> {
    if v < 0 {
        seq![0x2du8] + spec_fmt_nat((-v) as nat)
    } else {
        spec_fmt_nat(v as nat)
    }
}

pub fn fmt_i32(v: i32) -> (r: Vec<u8>)
    ensures
        r@ == spec_fmt_i32(v as int),
{
    let n: i64 = v as i64;
    if n < 0 {
        let mut out: Vec<u8> = Vec::new();
        out.push(0x2d);
        push_bytes(&mut out, fmt_u64((-n) as u64));
        proof {
            assert(out@ =~= spec_fmt_i32(v as int));
        }
        out
    } else {
        fmt_u64(n as u64)
    }
}

pub open spec fn spec_parse_i32(v: Seq<u8>) -> Option<i32> {
    if v.len() > 0 && v[0] == 0x2d {
        let rest = v.drop_first();
        if rest.len() > 0 && all_digits(rest) && dec_val(rest) <= 0x8000_0000 {
            Some((-(dec_val(rest) as int)) as i32)
        } else {
            None
        }
    } else if is_dec(v, i32::MAX as nat) {
        Some(dec_val(v) as i32)
    } else {
        None
    }
}

pub fn parse_i32(v: &[u8]) -> (r: Option<i32>)
    ensures
        r == spec_parse_i32(v@),
{
    if v.len() > 0 && v[0] == 0x2d {
        let rest = vstd::slice::slice_subrange(v, 1, v.len());
        proof {
            assert(rest@ =~= v@.drop_first());
        }
        match parse_u64(rest) {
            Some(n) => {
                if n <= 0x8000_0000u64 {
                    Some((-(n as i64)) as i32)
                } else {
                    None
                }
            },
            None => None,
        }
    } else {
        match parse_u32(v) {
            Some(n) => {
                if n <= 0x7fff_ffffu32 {
                    Some(n as i32)
                } else {
                    None
                }
            },
            None => None,
        }
    }
}

// ---------------------------------------------------------------------------
// Lines and descriptions

#[derive(Clone, Debug, PartialEq)]
pub enum SdpLine {
    ProtocolVersion(i32),
    Origin(Origin),
    Description(String),
    Information(String),
    Connection(Connection),
    Timing(Timing),
    Attr(Attr),
    Media(Media),
}

#[verifier::ext_equal]
pub enum SdpLineV {
    ProtocolVersion(i32),
    Origin(OriginV),
    Description(Seq<u8>),
    Information(Seq<u8>),
    Connection(ConnectionV),
    Timing(Timing),
    Attr(AttrV),
    Media(MediaV),
}

impl View for SdpLine {
    type V = SdpLineV;

    open spec fn view(&self) -> SdpLineV {
        match self {
            SdpLine::ProtocolVersion(v) => SdpLineV::ProtocolVersion(*v),
            SdpLine::Origin(o) => SdpLineV::Origin(o@),
            SdpLine::Description(s) => SdpLineV::Description(str_bytes(s@)),
            SdpLine::Information(s) => SdpLineV::Information(str_bytes(s@)),
            SdpLine::Connection(c) => SdpLineV::Connection(c@),
            SdpLine::Timing(t) => SdpLineV::Timing(*t),
            SdpLine::Attr(a) => SdpLineV::Attr(a@),
            SdpLine::Media(m) => SdpLineV::Media(m@),
        }
    }
}

#[derive(Clone, Debug, PartialEq)]
pub struct MediaDescription {
    pub media: Media,
    pub attrs: Vec<Attr>,
}

#[verifier::ext_equal]
pub struct MediaDescriptionV {
    pub media: MediaV,
    pub attrs: Seq<AttrV>,
}

impl View for MediaDescription {
    type V = MediaDescriptionV;

    open spec fn view(&self) -> MediaDescriptionV {
        MediaDescriptionV {
            media: self.media@,
            attrs: Seq::new(self.attrs@.len(), |i: int| self.attrs@[i]@),
        }
    }
}

impl MediaDescription {
    /// A media block with no attributes yet.
    pub fn new(media: Media) -> (r: MediaDescription)
        ensures
            r@.media == media@,
            r@.attrs == Seq::<AttrV>::empty(),
    {
        let r = MediaDescription { media, attrs: Vec::new() };
        proof {
            assert(r@.attrs =~= Seq::<AttrV>::empty());
        }
        r
    }
}

#[derive(Clone, Debug, PartialEq)]
pub struct SessionDescription {
    pub ver: Option<i32>,
    pub origin: Option<Origin>,
    pub name: Option<String>,
    pub info: Option<String>,
    pub uri: Option<String>,
    pub conn: Option<Connection>,
    pub timing: Option<Timing>,
    pub attrs: Vec<Attr>,
    pub media: Vec<MediaDescription>,
}

#[verifier::ext_equal]
pub struct SessionDescriptionV {
    pub ver: Option<i32>,
    pub origin: Option<OriginV>,
    pub name: Option<Seq<u8>>,
    pub info: Option<Seq<u8>>,
    pub uri: Option<Seq<u8>>,
    pub conn: Option<ConnectionV>,
    pub timing: Option<Timing>,
    pub attrs: Seq<AttrV>,
    pub media: Seq<MediaDescriptionV>,
}

impl View for SessionDescription {
    type V = SessionDescriptionV;

    open spec fn view(&self) -> SessionDescriptionV {
        SessionDescriptionV {
            ver: self.ver,
            origin: match self.origin {
                Some(o) => Some(o@),
                None => None,
            },
            name: match self.name {
                Some(s) => Some(str_bytes(s@)),
                None => None,
            },
            info: match self.info {
                Some(s) => Some(str_bytes(s@)),
                None => None,
            },
            uri: match self.uri {
                Some(s) => Some(str_bytes(s@)),
                None => None,
            },
            conn: match self.conn {
                Some(c) => Some(c@),
                None => None,
            },
            timing: self.timing,
            attrs: Seq::new(self.attrs@.len(), |i: int| self.attrs@[i]@),
            media: Seq::new(self.media@.len(), |i: int| self.media@[i]@),
        }
    }
}

/// The description every parse starts from: nothing seen yet.
pub open spec fn spec_empty_desc() -> SessionDescriptionV {
    SessionDescriptionV {
        ver: None,
        origin: None,
        name: None,
        info: None,
        uri: None,
        conn: None,
        timing: None,
        attrs: Seq::empty(),
        media: Seq::empty(),
    }
}

#[derive(Clone, Debug, PartialEq)]
pub struct ParseResult {
    pub desc: SessionDescription,
    /// Lines of a form the parser does not know ("x=..." with unknown "x").
    pub ignored_lines: Vec<Vec<u8>>,
    /// Lines of a known form whose value is malformed, and lines with no "=".
    pub unparsed_lines: Vec<Vec<u8>>,
}

#[verifier::ext_equal]
pub struct ParseResultV {
    pub desc: SessionDescriptionV,
    pub ignored_lines: Seq<Seq<u8>>,
    pub unparsed_lines: Seq<Seq<u8>>,
}

impl View for ParseResult {
    type V = ParseResultV;

    open spec fn view(&self) -> ParseResultV {
        ParseResultV {
            desc: self.desc@,
            ignored_lines: self.ignored_lines.deep_view(),
            unparsed_lines: self.unparsed_lines.deep_view(),
        }
    }
}

pub open spec fn spec_empty_result() -> ParseResultV {
    ParseResultV {
        desc: spec_empty_desc(),
        ignored_lines: Seq::empty(),
        unparsed_lines: Seq::empty(),
    }
}

impl ParseResult {
    pub fn new() -> (r: ParseResult)
        ensures
            r@ == spec_empty_result(),
    {
        let r = ParseResult {
            desc: SessionDescription::new(),
            ignored_lines: Vec::new(),
            unparsed_lines: Vec::new(),
        };
        proof {
            assert(r@.ignored_lines =~= Seq::<Seq<u8>>::empty());
            assert(r@.unparsed_lines =~= Seq::<Seq<u8>>::empty());
            assert(r@ =~~= spec_empty_result());
        }
        r
    }
}

// ---------------------------------------------------------------------------
// Line classification

pub enum LineClass {
    Parsed(SdpLine),
    Ignored,
    Unparsed,
}

#[verifier::ext_equal]
pub enum LineClassV {
    Parsed(SdpLineV),
    Ignored,
    Unparsed,
}

impl View for LineClass {
    type V = LineClassV;

    open spec fn view(&self) -> LineClassV {
        match self {
            LineClass::Parsed(l) => LineClassV::Parsed(l@),
            LineClass::Ignored => LineClassV::Ignored,
            LineClass::Unparsed => LineClassV::Unparsed,
        }
    }
}

/// What a single (already trimmed) line means.
pub open spec fn spec_classify_line(line: Seq<u8>) -> LineClassV {
    match spec_split2(line, 0x3d) {
        None => LineClassV::Unparsed,
        Some((t, v)) => {
            if t == seq![0x76u8] {
                match spec_parse_i32(v) {
                    Some(n) => LineClassV::Parsed(SdpLineV::ProtocolVersion(n)),
                    None => LineClassV::Unparsed,
                }
            } else if t == seq![0x6fu8] {
                match spec_parse_origin(v) {
                    Some(o) => LineClassV::Parsed(SdpLineV::Origin(o)),
                    None => LineClassV::Unparsed,
                }
            } else if t == seq![0x73u8] {
                if valid_utf8(v) {
                    LineClassV::Parsed(SdpLineV::Description(v))
                } else {
                    LineClassV::Unparsed
                }
            } else if t == seq![0x69u8] {
                if valid_utf8(v) {
                    LineClassV::Parsed(SdpLineV::Information(v))
                } else {
                    LineClassV::Unparsed
                }
            } else if t == seq![0x63u8] {
                match spec_parse_connection(v) {
                    Some(c) => LineClassV::Parsed(SdpLineV::Connection(c)),
                    None => LineClassV::Unparsed,
                }
            } else if t == seq![0x74u8] {
                match spec_parse_timing(v) {
                    Some(x) => LineClassV::Parsed(SdpLineV::Timing(x)),
                    None => LineClassV::Unparsed,
                }
            } else if t == seq![0x61u8] {
                match spec_parse_attr(v) {
                    Some(a) => LineClassV::Parsed(SdpLineV::Attr(a)),
                    None => LineClassV::Unparsed,
                }
            } else if t == seq![0x6du8] {
                match spec_parse_media(v) {
                    Some(m) => LineClassV::Parsed(SdpLineV::Media(m)),
                    None => LineClassV::Unparsed,
                }
            } else {
                LineClassV::Ignored
            }
        },
    }
}

pub fn classify_line(line: &[u8]) -> (r: LineClass)
    ensures
        r@ == spec_classify_line(line@),
{
    match split2(line, 0x3d) {
        None => LineClass::Unparsed,
        Some((t, v)) => {
            let tb = t.as_slice();
            let vb = v.as_slice();
            if tb.len() == 1 && tb[0] == 0x76 {
                proof {
                    assert(t@ =~= seq![0x76u8]);
                }
                match parse_i32(vb) {
                    Some(n) => LineClass::Parsed(SdpLine::ProtocolVersion(n)),
                    None => LineClass::Unparsed,
                }
            } else if tb.len() == 1 && tb[0] == 0x6f {
                proof {
                    assert(t@ =~= seq![0x6fu8]);
                }
                match parse_origin(vb) {
                    Some(o) => LineClass::Parsed(SdpLine::Origin(o)),
                    None => LineClass::Unparsed,
                }
            } else if tb.len() == 1 && tb[0] == 0x73 {
                proof {
                    assert(t@ =~= seq![0x73u8]);
                }
                match bytes_to_string(clone_bytes(&v)) {
                    Some(s) => LineClass::Parsed(SdpLine::Description(s)),
                    None => LineClass::Unparsed,
                }
            } else if tb.len() == 1 && tb[0] == 0x69 {
                proof {
                    assert(t@ =~= seq![0x69u8]);
                }
                match bytes_to_string(clone_bytes(&v)) {
                    Some(s) => LineClass::Parsed(SdpLine::Information(s)),
                    None => LineClass::Unparsed,
                }
            } else if tb.len() == 1 && tb[0] == 0x63 {
                proof {
                    assert(t@ =~= seq![0x63u8]);
                }
                match parse_connection(vb) {
                    Some(c) => LineClass::Parsed(SdpLine::Connection(c)),
                    None => LineClass::Unparsed,
                }
            } else if tb.len() == 1 && tb[0] == 0x74 {
                proof {
                    assert(t@ =~= seq![0x74u8]);
                }
                match parse_timing(vb) {
                    Some(x) => LineClass::Parsed(SdpLine::Timing(x)),
                    None => LineClass::Unparsed,
                }
            } else if tb.len() == 1 && tb[0] == 0x61 {
                proof {
                    assert(t@ =~= seq![0x61u8]);
                }
                match parse_attr(vb) {
                    Some(a) => LineClass::Parsed(SdpLine::Attr(a)),
                    None => LineClass::Unparsed,
                }
            } else if tb.len() == 1 && tb[0] == 0x6d {
                proof {
                    assert(t@ =~= seq![0x6du8]);
                }
                match parse_media(vb) {
                    Some(m) => LineClass::Parsed(SdpLine::Media(m)),
                    None => LineClass::Unparsed,
                }
            } else {
                proof {
                    assert(t@ != seq![0x76u8] && t@ != seq![0x6fu8] && t@ != seq![0x73u8] && t@
                        != seq![0x69u8] && t@ != seq![0x63u8] && t@ != seq![0x74u8] && t@
                        != seq![0x61u8] && t@ != seq![0x6du8]) by {
                        if t@.len() == 1 {
                        } else {
                        }
                    }
                }
                LineClass::Ignored
            }
        },
    }
}

/// The session name always parses; it is kept as given.
pub fn parse_session_name(text: &str) -> (r: Option<String>)
    ensures
        r matches Some(s) && str_bytes(s@) == str_bytes(text@),
{
    Some(text.to_owned())
}

/// The information line always parses; it is kept as given.
pub fn parse_information(text: &str) -> (r: Option<String>)
    ensures
        r matches Some(s) && str_bytes(s@) == str_bytes(text@),
{
    Some(text.to_owned())
}

// ---------------------------------------------------------------------------
// Folding parsed lines into a description

/// How one classified line changes the result: session fields are replaced,
/// attributes attach to the session before any media line and to the last
/// media block after it, and media lines open a new block.
pub open spec fn spec_apply_parsed(d: SessionDescriptionV, l: SdpLineV) -> SessionDescriptionV {
    match l {
        SdpLineV::ProtocolVersion(x) => SessionDescriptionV { ver: Some(x), ..d },
        SdpLineV::Origin(o) => SessionDescriptionV { origin: Some(o), ..d },
        SdpLineV::Description(s) => SessionDescriptionV { name: Some(s), ..d },
        SdpLineV::Information(s) => SessionDescriptionV { info: Some(s), ..d },
        SdpLineV::Connection(c) => SessionDescriptionV { conn: Some(c), ..d },
        SdpLineV::Timing(t) => SessionDescriptionV { timing: Some(t), ..d },
        SdpLineV::Attr(a) => {
            if d.media.len() > 0 {
                let k = d.media.len() - 1;
                SessionDescriptionV {
                    media: d.media.update(
                        k as int,
                        MediaDescriptionV {
                            media: d.media[k as int].media,
                            attrs: d.media[k as int].attrs.push(a),
                        },
                    ),
                    ..d
                }
            } else {
                SessionDescriptionV { attrs: d.attrs.push(a), ..d }
            }
        },
        SdpLineV::Media(m) => SessionDescriptionV {
            media: d.media.push(MediaDescriptionV { media: m, attrs: Seq::empty() }),
            ..d
        },
    }
}

pub open spec fn spec_apply_line(st: ParseResultV, line: Seq<u8>) -> ParseResultV {
    match spec_classify_line(line) {
        LineClassV::Unparsed => ParseResultV {
            unparsed_lines: st.unparsed_lines.push(line),
            ..st
        },
        LineClassV::Ignored => ParseResultV { ignored_lines: st.ignored_lines.push(line), ..st },
        LineClassV::Parsed(l) => ParseResultV { desc: spec_apply_parsed(st.desc, l), ..st },
    }
}

pub open spec fn spec_parse_lines(lines: Seq<Seq<u8>>) -> ParseResultV
    decreases lines.len(),
{
    if lines.len() == 0 {
        spec_empty_result()
    } else {
        spec_apply_line(spec_parse_lines(lines.drop_last()), lines.last())
    }
}

/// The lines of the input: split on newline, drop one trailing empty
/// segment, trim each line.
pub open spec fn spec_lines(bytes: Seq<u8>) -> Seq<Seq<u8>> {
    let raw = spec_split(bytes, 0x0a);
    let kept = if raw.last().len() == 0 {
        raw.drop_last()
    } else {
        raw
    };
    Seq::new(kept.len(), |i: int| spec_trim(kept[i]))
}

/// The parse of a whole document.
pub open spec fn spec_parse_sdp(bytes: Seq<u8>) -> ParseResultV {
    spec_parse_lines(spec_lines(bytes))
}

pub fn lines_of(b: &[u8]) -> (r: Vec<Vec<u8>>)
    ensures
        r.deep_view() == spec_lines(b@),
{
    let mut raw = split(b, 0x0a);
    let ghost rv = raw.deep_view();
    proof {
        assert forall|i: int| 0 <= i < rv.len() implies #[trigger] rv[i] == raw@[i]@ by {
            assert(rv[i] =~= raw@[i]@);
        }
    }
    let n = raw.len();
    if raw[n - 1].len() == 0 {
        let _ = raw.pop();
    }
    let ghost kept = raw.deep_view();
    proof {
        assert forall|i: int| 0 <= i < kept.len() implies #[trigger] kept[i] == raw@[i]@ by {
            assert(kept[i] =~= raw@[i]@);
        }
        if rv.last().len() == 0 {
            assert(kept =~~= rv.drop_last());
        } else {
            assert(kept =~~= rv);
        }
    }
    let mut out: Vec<Vec<u8>> = Vec::new();
    let mut i: usize = 0;
    while i < raw.len()
        invariant
            0 <= i <= raw@.len(),
            kept.len() == raw@.len(),
            forall|j: int| 0 <= j < kept.len() ==> #[trigger] kept[j] == raw@[j]@,
            out.deep_view() == Seq::new(i as nat, |j: int| spec_trim(kept[j])),
        decreases raw@.len() - i,
    {
        let ghost before = out.deep_view();
        out.push(trim(raw[i].as_slice()));
        proof {
            assert(out.deep_view() =~~= before.push(spec_trim(kept[i as int])));
            assert(out.deep_view() =~~= Seq::new(i as nat + 1, |j: int| spec_trim(kept[j])));
        }
        i = i + 1;
    }
    proof {
        assert(out.deep_view() =~~= spec_lines(b@));
    }
    out
}

/// Applies one line to the result being built.
pub fn apply_line(res: &mut ParseResult, line: Vec<u8>)
    ensures
        final(res)@ == spec_apply_line(old(res)@, line@),
{
    let ghost st0 = res@;
    match classify_line(line.as_slice()) {
        LineClass::Unparsed => {
            res.unparsed_lines.push(line);
            proof {
                assert(res@.unparsed_lines =~~= st0.unparsed_lines.push(line@));
                assert(res@ =~~= spec_apply_line(st0, line@));
            }
        },
        LineClass::Ignored => {
            res.ignored_lines.push(line);
            proof {
                assert(res@.ignored_lines =~~= st0.ignored_lines.push(line@));
                assert(res@ =~~= spec_apply_line(st0, line@));
            }
        },
        LineClass::Parsed(l) => {
            match l {
                SdpLine::ProtocolVersion(x) => {
                    res.desc.ver = Some(x);
                },
                SdpLine::Origin(o) => {
                    res.desc.origin = Some(o);
                },
                SdpLine::Description(s) => {
                    res.desc.name = Some(s);
                },
                SdpLine::Information(s) => {
                    res.desc.info = Some(s);
                },
                SdpLine::Connection(c) => {
                    res.desc.conn = Some(c);
                },
                SdpLine::Timing(t) => {
                    res.desc.timing = Some(t);
                },
                SdpLine::Attr(a) => {
                    if res.desc.media.len() > 0 {
                        let mut md = res.desc.media.pop().unwrap();
                        md.attrs.push(a);
                        res.desc.media.push(md);
                        proof {
                            let k = st0.desc.media.len() - 1;
                            assert(res@.desc.media =~~= st0.desc.media.update(
                                k as int,
                                MediaDescriptionV {
                                    media: st0.desc.media[k as int].media,
                                    attrs: st0.desc.media[k as int].attrs.push(a@),
                                },
                            ));
                        }
                    } else {
                        res.desc.attrs.push(a);
                        proof {
                            assert(res@.desc.attrs =~~= st0.desc.attrs.push(a@));
                        }
                    }
                },
                SdpLine::Media(m) => {
                    res.desc.media.push(MediaDescription::new(m));
                    proof {
                        assert(res@.desc.media =~~= st0.desc.media.push(
                            MediaDescriptionV { media: m@, attrs: Seq::empty() },
                        ));
                    }
                },
            }
            proof {
                assert(res@ =~~= spec_apply_line(st0, line@));
            }
        },
    }
}

/// Parses a whole SDP document given as bytes.
pub fn parse_sdp_bytes(b: &[u8]) -> (r: ParseResult)
    ensures
        r@ == spec_parse_sdp(b@),
{
    let lines = lines_of(b);
    let ghost lv = lines.deep_view();
    proof {
        assert forall|i: int| 0 <= i < lv.len() implies #[trigger] lv[i] == lines@[i]@ by {
            assert(lv[i] =~= lines@[i]@);
        }
    }
    let mut res = ParseResult::new();
    let mut i: usize = 0;
    proof {
        assert(lv.subrange(0, 0) =~= Seq::<Seq<u8>>::empty());
    }
    while i < lines.len()
        invariant
            0 <= i <= lines@.len(),
            lv.len() == lines@.len(),
            lv == spec_lines(b@),
            forall|j: int| 0 <= j < lv.len() ==> #[trigger] lv[j] == lines@[j]@,
            res@ == spec_parse_lines(lv.subrange(0, i as int)),
        decreases lines@.len() - i,
    {
        apply_line(&mut res, clone_bytes(&lines[i]));
        proof {
            let p1 = lv.subrange(0, i as int + 1);
            assert(p1.drop_last() =~= lv.subrange(0, i as int));
            assert(p1.last() == lv[i as int]);
        }
        i = i + 1;
    }
    proof {
        assert(lv.subrange(0, i as int) =~= lv);
    }
    res
}

impl SessionDescription {
    /// An empty description.
    pub fn new() -> (r: SessionDescription)
        ensures
            r@ == spec_empty_desc(),
    {
        let r = SessionDescription {
            ver: None,
            origin: None,
            name: None,
            info: None,
            uri: None,
            conn: None,
            timing: None,
            attrs: Vec::new(),
            media: Vec::new(),
        };
        proof {
            assert(r@.attrs =~= Seq::<AttrV>::empty());
            assert(r@.media =~= Seq::<MediaDescriptionV>::empty());
            assert(r@ =~~= spec_empty_desc());
        }
        r
    }

    /// Parses SDP text. The receiver does not take part; parsing starts from
    /// an empty description, as the wire text alone decides the result.
    pub fn from_sdp(&self, sdp: &str) -> (r: ParseResult)
        ensures
            r@ == spec_parse_sdp(str_bytes(sdp@)),
    {
        parse_sdp_bytes(sdp.as_bytes())
    }
}


// ---------------------------------------------------------------------------
// Serializing a whole description

pub open spec fn spec_ser_attr_line(a: AttrV) -> Seq<u8> {
    seq![0x61u8, 0x3du8] + spec_ser_attr(a) + seq![0x0au8]
}

pub open spec fn spec_ser_attr_lines(attrs: Seq<AttrV>) -> Seq<u8>
    decreases attrs.len(),
{
    if attrs.len() == 0 {
        Seq::empty()
    } else {
        spec_ser_attr_lines(attrs.drop_last()) + spec_ser_attr_line(attrs.last())
    }
}

pub open spec fn spec_ser_media_block(md: MediaDescriptionV) -> Seq<u8> {
    seq![0x6du8, 0x3du8] + spec_ser_media(md.media) + seq![0x0au8] + spec_ser_attr_lines(md.attrs)
}

pub open spec fn spec_ser_media_blocks(media: Seq<MediaDescriptionV>) -> Seq<u8>
    decreases media.len(),
{
    if media.len() == 0 {
        Seq::empty()
    } else {
        spec_ser_media_blocks(media.drop_last()) + spec_ser_media_block(media.last())
    }
}

/// The five mandatory session lines: v, o, s, c, t.
pub open spec fn spec_ser_head(d: SessionDescriptionV) -> Seq<u8>
    recommends
        ser_ready_desc(d),
{
    seq![0x76u8, 0x3du8] + spec_fmt_i32(d.ver->0 as int) + seq![0x0au8] + seq![0x6fu8, 0x3du8]
        + spec_ser_origin(d.origin->0) + seq![0x0au8] + seq![0x73u8, 0x3du8] + d.name->0
        + seq![0x0au8] + seq![0x63u8, 0x3du8] + spec_ser_connection(d.conn->0) + seq![0x0au8]
        + seq![0x74u8, 0x3du8] + spec_ser_timing(d.timing->0) + seq![0x0au8]
}

/// The canonical layout: v, o, s, c, t, session attributes, media blocks.
pub open spec fn spec_ser_desc(d: SessionDescriptionV) -> Seq<u8>
    recommends
        ser_ready_desc(d),
{
    spec_ser_head(d) + spec_ser_attr_lines(d.attrs) + spec_ser_media_blocks(d.media)
}

/// Serializes the five mandatory session lines.
#[verifier::rlimit(100)]
fn ser_desc_head(d: &SessionDescription) -> (out: Vec<u8>)
    requires
        d@.ver is Some,
        d@.origin is Some,
        d@.name is Some,
        d@.conn is Some,
        d@.timing is Some,
    ensures
        out@ == spec_ser_head(d@),
{
    let mut out: Vec<u8> = Vec::new();
    out.push(0x76);
    out.push(0x3d);
    push_bytes(&mut out, fmt_i32(*d.ver.as_ref().unwrap()));
    out.push(0x0a);
    out.push(0x6f);
    out.push(0x3d);
    push_bytes(&mut out, ser_origin(d.origin.as_ref().unwrap()));
    out.push(0x0a);
    out.push(0x73);
    out.push(0x3d);
    push_bytes(&mut out, string_to_bytes(d.name.as_ref().unwrap()));
    out.push(0x0a);
    out.push(0x63);
    out.push(0x3d);
    push_bytes(&mut out, ser_connection(d.conn.as_ref().unwrap()));
    out.push(0x0a);
    out.push(0x74);
    out.push(0x3d);
    push_bytes(&mut out, ser_timing(d.timing.as_ref().unwrap()));
    out.push(0x0a);
    proof {
        assert(out@ =~= spec_ser_head(d@));
    }
    out
}

/// What serialization needs of an attribute beyond its shape: candidates
/// name their component and their addresses are in serializable form, and
/// free-text parts are valid UTF-8 (true of every value built from `String`s).
pub open spec fn ser_ready_attr(a: AttrV) -> bool {
    match a {
        AttrV::RtpMap(r) => valid_utf8(r.encoding_name),
        AttrV::FmtP(f) => valid_utf8(f.format_params),
        AttrV::Candidate(c) => {
            &&& c.component_id is Some
            &&& valid_utf8(c.foundation)
            &&& crate::addr::wf_ip(c.conn)
            &&& match c.rel_addr {
                Some(ra) => crate::addr::wf_ip(ra),
                None => true,
            }
        },
        AttrV::IceUfrag(u) => valid_utf8(u),
        AttrV::IcePwd(p) => valid_utf8(p),
        _ => true,
    }
}

pub open spec fn ser_ready_attrs(attrs: Seq<AttrV>) -> bool {
    forall|i: int| 0 <= i < attrs.len() ==> ser_ready_attr(#[trigger] attrs[i])
}

pub open spec fn ser_ready_media(m: MediaV) -> bool {
    forall|i: int| 0 <= i < m.fmt.len() ==> valid_utf8(#[trigger] m.fmt[i])
}

/// A description that can be put on the wire: the five mandatory session
/// lines are present and every part serializes to valid UTF-8.
pub open spec fn ser_ready_desc(d: SessionDescriptionV) -> bool {
    &&& d.ver is Some
    &&& d.origin is Some
    &&& d.name is Some
    &&& d.conn is Some
    &&& d.timing is Some
    &&& valid_utf8(d.origin->0.username)
    &&& valid_utf8(d.origin->0.session_id)
    &&& crate::addr::wf_ip(d.origin->0.ip_address)
    &&& valid_utf8(d.name->0)
    &&& crate::addr::wf_ip(d.conn->0.ip_address)
    &&& ser_ready_attrs(d.attrs)
    &&& (forall|i: int|
        0 <= i < d.media.len() ==> ser_ready_media(#[trigger] d.media[i].media) && ser_ready_attrs(
            d.media[i].attrs,
        ))
}

fn ip_ser_ready(ip: &IpAddr) -> (r: bool)
    ensures
        r == crate::addr::wf_ip(ip@),
{
    match ip {
        IpAddr::V4(_, _, _, _) => true,
        IpAddr::V6(t) => crate::addr::is_v6_text(t.as_slice()),
    }
}

fn attr_ser_ready(a: &Attr) -> (r: bool)
    ensures
        r == ser_ready_attr(a@),
{
    proof {
        broadcast use vstd::utf8::encode_utf8_valid_utf8;

    }
    match a {
        Attr::Candidate(c) => {
            if c.ice_candidate.component_id.is_none() {
                return false;
            }
            if !ip_ser_ready(&c.ice_candidate.conn) {
                return false;
            }
            match &c.ice_candidate.rel_addr {
                Some(ra) => ip_ser_ready(ra),
                None => true,
            }
        },
        _ => true,
    }
}

fn attrs_ser_ready(attrs: &Vec<Attr>) -> (r: bool)
    ensures
        r == ser_ready_attrs(Seq::new(attrs@.len(), |i: int| attrs@[i]@)),
{
    let ghost av = Seq::new(attrs@.len(), |i: int| attrs@[i]@);
    let mut i: usize = 0;
    while i < attrs.len()
        invariant
            0 <= i <= attrs@.len(),
            av.len() == attrs@.len(),
            forall|j: int| 0 <= j < av.len() ==> #[trigger] av[j] == attrs@[j]@,
            forall|j: int| 0 <= j < i ==> ser_ready_attr(#[trigger] av[j]),
        decreases attrs@.len() - i,
    {
        if !attr_ser_ready(&attrs[i]) {
            proof {
                assert(av =~= Seq::new(attrs@.len(), |j: int| attrs@[j]@));
                assert(!ser_ready_attr(av[i as int]));
            }
            return false;
        }
        i = i + 1;
    }
    proof {
        assert(av =~= Seq::new(attrs@.len(), |j: int| attrs@[j]@));
    }
    true
}

/// Whether a description is ready to serialize. True of every description
/// assembled from parsed input; a hand-built one can fail the check (a
/// candidate without a component id, or an address kept as text that is not
/// an address).
pub fn desc_ser_ready(d: &SessionDescription) -> (r: bool)
    ensures
        r == ser_ready_desc(d@),
{
    if d.ver.is_none() || d.origin.is_none() || d.name.is_none() || d.conn.is_none()
        || d.timing.is_none() {
        return false;
    }
    if !ip_ser_ready(&d.origin.as_ref().unwrap().ip_address) {
        return false;
    }
    if !ip_ser_ready(&d.conn.as_ref().unwrap().ip_address) {
        return false;
    }
    if !attrs_ser_ready(&d.attrs) {
        return false;
    }
    let mut i: usize = 0;
    while i < d.media.len()
        invariant
            0 <= i <= d.media@.len(),
            d@.media.len() == d.media@.len(),
            forall|j: int| 0 <= j < d.media@.len() ==> #[trigger] d@.media[j] == d.media@[j]@,
            forall|j: int|
                0 <= j < i ==> ser_ready_media(#[trigger] d@.media[j].media) && ser_ready_attrs(
                    d@.media[j].attrs,
                ),
        decreases d.media@.len() - i,
    {
        if !attrs_ser_ready(&d.media[i].attrs) {
            proof {
                assert(!ser_ready_attrs(d@.media[i as int].attrs));
            }
            return false;
        }
        proof {
            broadcast use vstd::utf8::encode_utf8_valid_utf8;

            assert(ser_ready_media(d@.media[i as int].media));
        }
        i = i + 1;
    }
    proof {
        broadcast use vstd::utf8::encode_utf8_valid_utf8;

    }
    true
}

pub fn ser_attr_line(a: &Attr) -> (out: Vec<u8>)
    requires
        ser_ready_attr(a@),
    ensures
        out@ == spec_ser_attr_line(a@),
{
    let mut out: Vec<u8> = Vec::new();
    out.push(0x61);
    out.push(0x3d);
    push_bytes(&mut out, ser_attr(a));
    out.push(0x0a);
    proof {
        assert(out@ =~= spec_ser_attr_line(a@));
    }
    out
}

/// The wire form of a description.
#[verifier::rlimit(50)]
pub fn ser_desc_bytes(d: &SessionDescription) -> (out: Vec<u8>)
    requires
        ser_ready_desc(d@),
    ensures
        out@ == spec_ser_desc(d@),
{
    let mut out = ser_desc_head(d);
    let ghost head = out@;
    let mut i: usize = 0;
    while i < d.attrs.len()
        invariant
            0 <= i <= d.attrs@.len(),
            d@.attrs.len() == d.attrs@.len(),
            forall|j: int| 0 <= j < d.attrs@.len() ==> #[trigger] d@.attrs[j] == d.attrs@[j]@,
            ser_ready_attrs(d@.attrs),
            out@ == head + spec_ser_attr_lines(d@.attrs.subrange(0, i as int)),
        decreases d.attrs@.len() - i,
    {
        proof {
            assert(ser_ready_attr(d@.attrs[i as int]));
        }
        push_bytes(&mut out, ser_attr_line(&d.attrs[i]));
        proof {
            let p1 = d@.attrs.subrange(0, i as int + 1);
            assert(p1.drop_last() =~= d@.attrs.subrange(0, i as int));
            assert(p1.last() == d@.attrs[i as int]);
            assert(out@ =~= head + spec_ser_attr_lines(p1));
        }
        i = i + 1;
    }
    proof {
        assert(d@.attrs.subrange(0, i as int) =~= d@.attrs);
    }
    let ghost head2 = out@;
    proof {
        assert forall|j: int| 0 <= j < d@.media.len() implies ser_ready_attrs(
            #[trigger] d@.media[j].attrs,
        ) by {
            assert(ser_ready_media(d@.media[j].media) && ser_ready_attrs(d@.media[j].attrs));
        }
    }
    let mut k: usize = 0;
    while k < d.media.len()
        invariant
            0 <= k <= d.media@.len(),
            d@.media.len() == d.media@.len(),
            forall|j: int| 0 <= j < d.media@.len() ==> #[trigger] d@.media[j] == d.media@[j]@,
            forall|j: int|
                0 <= j < d.media@.len() ==> ser_ready_attrs(#[trigger] d@.media[j].attrs),
            out@ == head2 + spec_ser_media_blocks(d@.media.subrange(0, k as int)),
        decreases d.media@.len() - k,
    {
        let md = &d.media[k];
        out.push(0x6d);
        out.push(0x3d);
        push_bytes(&mut out, ser_media(&md.media));
        out.push(0x0a);
        let ghost bhead = out@;
        proof {
            assert(bhead =~= head2 + spec_ser_media_blocks(d@.media.subrange(0, k as int)) + (
            seq![0x6du8, 0x3du8] + spec_ser_media(d@.media[k as int].media) + seq![0x0au8]));
        }
        let mut j: usize = 0;
        while j < md.attrs.len()
            invariant
                0 <= j <= md.attrs@.len(),
                md@.attrs.len() == md.attrs@.len(),
                forall|jj: int|
                    0 <= jj < md.attrs@.len() ==> #[trigger] md@.attrs[jj] == md.attrs@[jj]@,
                ser_ready_attrs(md@.attrs),
                out@ == bhead + spec_ser_attr_lines(md@.attrs.subrange(0, j as int)),
            decreases md.attrs@.len() - j,
        {
            proof {
                assert(ser_ready_attr(md@.attrs[j as int]));
            }
            push_bytes(&mut out, ser_attr_line(&md.attrs[j]));
            proof {
                let p1 = md@.attrs.subrange(0, j as int + 1);
                assert(p1.drop_last() =~= md@.attrs.subrange(0, j as int));
                assert(p1.last() == md@.attrs[j as int]);
                assert(out@ =~= bhead + spec_ser_attr_lines(p1));
            }
            j = j + 1;
        }
        proof {
            assert(md@.attrs.subrange(0, j as int) =~= md@.attrs);
            let m1 = d@.media.subrange(0, k as int + 1);
            assert(m1.drop_last() =~= d@.media.subrange(0, k as int));
            assert(m1.last() == d@.media[k as int]);
            assert(out@ =~= head2 + spec_ser_media_blocks(m1));
        }
        k = k + 1;
    }
    proof {
        assert(d@.media.subrange(0, k as int) =~= d@.media);
        assert(out@ =~= spec_ser_desc(d@));
    }
    out
}


// ---------------------------------------------------------------------------
// The serialized form is valid UTF-8

/// Keywords and punctuation are ASCII, hence valid UTF-8.
proof fn lemma_utf8_kw()
    ensures
        valid_utf8(spec_kw_sendrecv()),
        valid_utf8(spec_kw_sendonly()),
        valid_utf8(spec_kw_recvonly()),
        valid_utf8(spec_kw_inactive()),
        valid_utf8(spec_kw_ptime()),
        valid_utf8(spec_kw_rtpmap()),
        valid_utf8(spec_kw_fmtp()),
        valid_utf8(spec_kw_candidate()),
        valid_utf8(spec_kw_ice_ufrag()),
        valid_utf8(spec_kw_ice_pwd()),
        valid_utf8(spec_kw_ice_mismatch()),
        valid_utf8(spec_kw_ice_lite()),
        valid_utf8(spec_kw_typ()),
        valid_utf8(spec_kw_raddr()),
        valid_utf8(spec_kw_rport()),
        valid_utf8(spec_kw_net_in()),
        valid_utf8(spec_kw_ip4()),
        valid_utf8(spec_kw_ip6()),
        valid_utf8(spec_kw_proto_udp()),
        valid_utf8(spec_kw_rtp_avp()),
        valid_utf8(spec_kw_rtp_avpf()),
        valid_utf8(spec_kw_rtp_savp()),
        valid_utf8(spec_kw_rtp_savpf()),
        valid_utf8(spec_kw_udp_tls_rtp_savpf()),
        valid_utf8(spec_kw_audio()),
        valid_utf8(spec_kw_video()),
        valid_utf8(spec_kw_text_media()),
        valid_utf8(spec_kw_application()),
        valid_utf8(spec_kw_message()),
        valid_utf8(spec_kw_udp_lower()),
        valid_utf8(spec_kw_tcp_lower()),
        valid_utf8(spec_kw_host()),
        valid_utf8(spec_kw_srflx()),
        valid_utf8(spec_kw_prflx()),
        valid_utf8(spec_kw_relay()),
        valid_utf8(seq![0x61u8, 0x3du8]),
        valid_utf8(seq![0x6du8, 0x3du8]),
        valid_utf8(seq![0x76u8, 0x3du8]),
        valid_utf8(seq![0x6fu8, 0x3du8]),
        valid_utf8(seq![0x73u8, 0x3du8]),
        valid_utf8(seq![0x63u8, 0x3du8]),
        valid_utf8(seq![0x74u8, 0x3du8]),
        valid_utf8(seq![0x0au8]),
        valid_utf8(seq![0x20u8]),
        valid_utf8(seq![0x2fu8]),
        valid_utf8(seq![0x3au8]),
{
    lemma_ascii_valid_utf8(spec_kw_sendrecv());
    lemma_ascii_valid_utf8(spec_kw_sendonly());
    lemma_ascii_valid_utf8(spec_kw_recvonly());
    lemma_ascii_valid_utf8(spec_kw_inactive());
    lemma_ascii_valid_utf8(spec_kw_ptime());
    lemma_ascii_valid_utf8(spec_kw_rtpmap());
    lemma_ascii_valid_utf8(spec_kw_fmtp());
    lemma_ascii_valid_utf8(spec_kw_candidate());
    lemma_ascii_valid_utf8(spec_kw_ice_ufrag());
    lemma_ascii_valid_utf8(spec_kw_ice_pwd());
    lemma_ascii_valid_utf8(spec_kw_ice_mismatch());
    lemma_ascii_valid_utf8(spec_kw_ice_lite());
    lemma_ascii_valid_utf8(spec_kw_typ());
    lemma_ascii_valid_utf8(spec_kw_raddr());
    lemma_ascii_valid_utf8(spec_kw_rport());
    lemma_ascii_valid_utf8(spec_kw_net_in());
    lemma_ascii_valid_utf8(spec_kw_ip4());
    lemma_ascii_valid_utf8(spec_kw_ip6());
    lemma_ascii_valid_utf8(spec_kw_proto_udp());
    lemma_ascii_valid_utf8(spec_kw_rtp_avp());
    lemma_ascii_valid_utf8(spec_kw_rtp_avpf());
    lemma_ascii_valid_utf8(spec_kw_rtp_savp());
    lemma_ascii_valid_utf8(spec_kw_rtp_savpf());
    lemma_ascii_valid_utf8(spec_kw_udp_tls_rtp_savpf());
    lemma_ascii_valid_utf8(spec_kw_audio());
    lemma_ascii_valid_utf8(spec_kw_video());
    lemma_ascii_valid_utf8(spec_kw_text_media());
    lemma_ascii_valid_utf8(spec_kw_application());
    lemma_ascii_valid_utf8(spec_kw_message());
    lemma_ascii_valid_utf8(spec_kw_udp_lower());
    lemma_ascii_valid_utf8(spec_kw_tcp_lower());
    lemma_ascii_valid_utf8(spec_kw_host());
    lemma_ascii_valid_utf8(spec_kw_srflx());
    lemma_ascii_valid_utf8(spec_kw_prflx());
    lemma_ascii_valid_utf8(spec_kw_relay());
    lemma_ascii_valid_utf8(seq![0x61u8, 0x3du8]);
    lemma_ascii_valid_utf8(seq![0x6du8, 0x3du8]);
    lemma_ascii_valid_utf8(seq![0x76u8, 0x3du8]);
    lemma_ascii_valid_utf8(seq![0x6fu8, 0x3du8]);
    lemma_ascii_valid_utf8(seq![0x73u8, 0x3du8]);
    lemma_ascii_valid_utf8(seq![0x63u8, 0x3du8]);
    lemma_ascii_valid_utf8(seq![0x74u8, 0x3du8]);
    lemma_ascii_valid_utf8(seq![0x0au8]);
    lemma_ascii_valid_utf8(seq![0x20u8]);
    lemma_ascii_valid_utf8(seq![0x2fu8]);
    lemma_ascii_valid_utf8(seq![0x3au8]);
}

proof fn lemma_utf8_fmt_nat(v: nat)
    ensures
        valid_utf8(spec_fmt_nat(v)),
{
    crate::text::lemma_fmt_nat(v);
    assert(crate::strings::ascii_seq(spec_fmt_nat(v))) by {
        assert(forall|i: int|
            0 <= i < spec_fmt_nat(v).len() ==> crate::text::is_digit(
                #[trigger] spec_fmt_nat(v)[i],
            ));
    }
    lemma_ascii_valid_utf8(spec_fmt_nat(v));
}

proof fn lemma_utf8_fmt_i32(v: int)
    ensures
        valid_utf8(spec_fmt_i32(v)),
{
    lemma_utf8_kw();
    if v < 0 {
        lemma_utf8_fmt_nat((-v) as nat);
        lemma_ascii_valid_utf8(seq![0x2du8]);
        vc(seq![0x2du8], spec_fmt_nat((-v) as nat));
    } else {
        lemma_utf8_fmt_nat(v as nat);
    }
}
/// Concatenating valid UTF-8 pieces stays valid.
proof fn vc(a: Seq<u8>, b: Seq<u8>)
    requires
        valid_utf8(a),
        valid_utf8(b),
    ensures
        valid_utf8(a + b),
{
    vstd::utf8::valid_utf8_concat(a, b);
}

proof fn lemma_utf8_ser_origin(o: OriginV)
    requires
        valid_utf8(o.username),
        valid_utf8(o.session_id),
        crate::addr::wf_ip(o.ip_address),
    ensures
        valid_utf8(spec_ser_origin(o)),
{
    lemma_utf8_kw();
    lemma_utf8_fmt_nat(o.session_version as nat);
    lemma_utf8_ser_ip(o.ip_address);
    vc(o.username, seq![0x20u8]);
    vc(o.username + seq![0x20u8], o.session_id);
    vc(o.username + seq![0x20u8] + o.session_id, seq![0x20u8]);
    vc(o.username + seq![0x20u8] + o.session_id + seq![0x20u8], spec_fmt_nat(o.session_version as nat));
    vc(o.username + seq![0x20u8] + o.session_id + seq![0x20u8] + spec_fmt_nat(o.session_version as nat), seq![0x20u8]);
    vc(o.username + seq![0x20u8] + o.session_id + seq![0x20u8] + spec_fmt_nat(o.session_version as nat) + seq![0x20u8], spec_ser_net_type(o.net_type));
    vc(o.username + seq![0x20u8] + o.session_id + seq![0x20u8] + spec_fmt_nat(o.session_version as nat) + seq![0x20u8] + spec_ser_net_type(o.net_type), seq![0x20u8]);
    vc(o.username + seq![0x20u8] + o.session_id + seq![0x20u8] + spec_fmt_nat(o.session_version as nat) + seq![0x20u8] + spec_ser_net_type(o.net_type) + seq![0x20u8], spec_ser_addr_type(o.addr_type));
    vc(o.username + seq![0x20u8] + o.session_id + seq![0x20u8] + spec_fmt_nat(o.session_version as nat) + seq![0x20u8] + spec_ser_net_type(o.net_type) + seq![0x20u8] + spec_ser_addr_type(o.addr_type), seq![0x20u8]);
    vc(o.username + seq![0x20u8] + o.session_id + seq![0x20u8] + spec_fmt_nat(o.session_version as nat) + seq![0x20u8] + spec_ser_net_type(o.net_type) + seq![0x20u8] + spec_ser_addr_type(o.addr_type) + seq![0x20u8], spec_ser_ip(o.ip_address));
}

proof fn lemma_utf8_ser_connection(c: ConnectionV)
    requires
        crate::addr::wf_ip(c.ip_address),
    ensures
        valid_utf8(spec_ser_connection(c)),
{
    lemma_utf8_kw();
    lemma_utf8_fmt_nat(c.ttl as nat);
    lemma_utf8_fmt_nat(c.nr_addrs as nat);
    lemma_utf8_ser_ip(c.ip_address);
    vc(spec_ser_net_type(c.net_type), seq![0x20u8]);
    vc(spec_ser_net_type(c.net_type) + seq![0x20u8], spec_ser_addr_type(c.addr_type));
    vc(spec_ser_net_type(c.net_type) + seq![0x20u8] + spec_ser_addr_type(c.addr_type), seq![0x20u8]);
    vc(spec_ser_net_type(c.net_type) + seq![0x20u8] + spec_ser_addr_type(c.addr_type) + seq![0x20u8], spec_ser_ip(c.ip_address));
    vc(spec_ser_net_type(c.net_type) + seq![0x20u8] + spec_ser_addr_type(c.addr_type) + seq![0x20u8] + spec_ser_ip(c.ip_address), seq![0x20u8]);
    vc(spec_ser_net_type(c.net_type) + seq![0x20u8] + spec_ser_addr_type(c.addr_type) + seq![0x20u8] + spec_ser_ip(c.ip_address) + seq![0x20u8], spec_fmt_nat(c.ttl as nat));
    vc(spec_ser_net_type(c.net_type) + seq![0x20u8] + spec_ser_addr_type(c.addr_type) + seq![0x20u8] + spec_ser_ip(c.ip_address) + seq![0x20u8] + spec_fmt_nat(c.ttl as nat), seq![0x20u8]);
    vc(spec_ser_net_type(c.net_type) + seq![0x20u8] + spec_ser_addr_type(c.addr_type) + seq![0x20u8] + spec_ser_ip(c.ip_address) + seq![0x20u8] + spec_fmt_nat(c.ttl as nat) + seq![0x20u8], spec_fmt_nat(c.nr_addrs as nat));
}

proof fn lemma_utf8_ser_timing(t: Timing)
    ensures
        valid_utf8(spec_ser_timing(t)),
{
    lemma_utf8_kw();
    lemma_utf8_fmt_nat(t.start_time as nat);
    lemma_utf8_fmt_nat(t.stop_time as nat);
    vc(spec_fmt_nat(t.start_time as nat), seq![0x20u8]);
    vc(spec_fmt_nat(t.start_time as nat) + seq![0x20u8], spec_fmt_nat(t.stop_time as nat));
}


proof fn lemma_utf8_ser_ip(ip: IpAddrV)
    requires
        crate::addr::wf_ip(ip),
    ensures
        valid_utf8(spec_ser_ip(ip)),
{
    crate::addr::lemma_ser_ip_plain(ip);
    assert(crate::strings::ascii_seq(spec_ser_ip(ip))) by {
        assert(forall|i: int|
            0 <= i < spec_ser_ip(ip).len() ==> crate::addr::is_v6_byte(
                #[trigger] spec_ser_ip(ip)[i],
            ));
    }
    lemma_ascii_valid_utf8(spec_ser_ip(ip));
}

proof fn lemma_utf8_ser_rtpmap(r: RtpMapV)
    requires
        valid_utf8(r.encoding_name),
    ensures
        valid_utf8(spec_ser_rtpmap(r)),
{
    lemma_utf8_kw();
    lemma_utf8_fmt_nat(r.payload_type as nat);
    lemma_utf8_fmt_nat(r.clock_rate as nat);
    vc(spec_fmt_nat(r.payload_type as nat), seq![0x20u8]);
    vc(spec_fmt_nat(r.payload_type as nat) + seq![0x20u8], r.encoding_name);
    vc(spec_fmt_nat(r.payload_type as nat) + seq![0x20u8] + r.encoding_name, seq![0x2fu8]);
    vc(spec_fmt_nat(r.payload_type as nat) + seq![0x20u8] + r.encoding_name + seq![0x2fu8], spec_fmt_nat(r.clock_rate as nat));
    let base = spec_fmt_nat(r.payload_type as nat) + seq![0x20u8] + r.encoding_name + seq![0x2fu8]
        + spec_fmt_nat(r.clock_rate as nat);
    match r.encoding_params {
        Some(p) => {
            lemma_utf8_fmt_nat(p as nat);
            vc(seq![0x2fu8], spec_fmt_nat(p as nat));
            vc(base, seq![0x2fu8] + spec_fmt_nat(p as nat));
        },
        None => {
            lemma_ascii_valid_utf8(Seq::empty());
            vc(base, Seq::empty());
        },
    }
}

proof fn lemma_utf8_ser_candidate(c: CandidateV)
    requires
        c.component_id is Some,
        valid_utf8(c.foundation),
        crate::addr::wf_ip(c.conn),
        c.rel_addr matches Some(ra) ==> crate::addr::wf_ip(ra),
    ensures
        valid_utf8(spec_ser_candidate(c)),
{
    lemma_utf8_kw();
    lemma_utf8_fmt_nat(c.component_id->0 as nat);
    lemma_utf8_fmt_nat(c.priority as nat);
    lemma_utf8_fmt_nat(c.port as nat);
    lemma_utf8_ser_ip(c.conn);
    vc(c.foundation, seq![0x20u8]);
    vc(c.foundation + seq![0x20u8], spec_fmt_nat(c.component_id->0 as nat));
    vc(c.foundation + seq![0x20u8] + spec_fmt_nat(c.component_id->0 as nat), seq![0x20u8]);
    vc(c.foundation + seq![0x20u8] + spec_fmt_nat(c.component_id->0 as nat) + seq![0x20u8], spec_ser_proto(c.proto));
    vc(c.foundation + seq![0x20u8] + spec_fmt_nat(c.component_id->0 as nat) + seq![0x20u8] + spec_ser_proto(c.proto), seq![0x20u8]);
    vc(c.foundation + seq![0x20u8] + spec_fmt_nat(c.component_id->0 as nat) + seq![0x20u8] + spec_ser_proto(c.proto) + seq![0x20u8], spec_fmt_nat(c.priority as nat));
    vc(c.foundation + seq![0x20u8] + spec_fmt_nat(c.component_id->0 as nat) + seq![0x20u8] + spec_ser_proto(c.proto) + seq![0x20u8] + spec_fmt_nat(c.priority as nat), seq![0x20u8]);
    vc(c.foundation + seq![0x20u8] + spec_fmt_nat(c.component_id->0 as nat) + seq![0x20u8] + spec_ser_proto(c.proto) + seq![0x20u8] + spec_fmt_nat(c.priority as nat) + seq![0x20u8], spec_ser_ip(c.conn));
    vc(c.foundation + seq![0x20u8] + spec_fmt_nat(c.component_id->0 as nat) + seq![0x20u8] + spec_ser_proto(c.proto) + seq![0x20u8] + spec_fmt_nat(c.priority as nat) + seq![0x20u8] + spec_ser_ip(c.conn), seq![0x20u8]);
    vc(c.foundation + seq![0x20u8] + spec_fmt_nat(c.component_id->0 as nat) + seq![0x20u8] + spec_ser_proto(c.proto) + seq![0x20u8] + spec_fmt_nat(c.priority as nat) + seq![0x20u8] + spec_ser_ip(c.conn) + seq![0x20u8], spec_fmt_nat(c.port as nat));
    vc(c.foundation + seq![0x20u8] + spec_fmt_nat(c.component_id->0 as nat) + seq![0x20u8] + spec_ser_proto(c.proto) + seq![0x20u8] + spec_fmt_nat(c.priority as nat) + seq![0x20u8] + spec_ser_ip(c.conn) + seq![0x20u8] + spec_fmt_nat(c.port as nat), seq![0x20u8]);
    vc(c.foundation + seq![0x20u8] + spec_fmt_nat(c.component_id->0 as nat) + seq![0x20u8] + spec_ser_proto(c.proto) + seq![0x20u8] + spec_fmt_nat(c.priority as nat) + seq![0x20u8] + spec_ser_ip(c.conn) + seq![0x20u8] + spec_fmt_nat(c.port as nat) + seq![0x20u8], spec_kw_typ());
    vc(c.foundation + seq![0x20u8] + spec_fmt_nat(c.component_id->0 as nat) + seq![0x20u8] + spec_ser_proto(c.proto) + seq![0x20u8] + spec_fmt_nat(c.priority as nat) + seq![0x20u8] + spec_ser_ip(c.conn) + seq![0x20u8] + spec_fmt_nat(c.port as nat) + seq![0x20u8] + spec_kw_typ(), seq![0x20u8]);
    vc(c.foundation + seq![0x20u8] + spec_fmt_nat(c.component_id->0 as nat) + seq![0x20u8] + spec_ser_proto(c.proto) + seq![0x20u8] + spec_fmt_nat(c.priority as nat) + seq![0x20u8] + spec_ser_ip(c.conn) + seq![0x20u8] + spec_fmt_nat(c.port as nat) + seq![0x20u8] + spec_kw_typ() + seq![0x20u8], spec_ser_cand_type(c.candidate_type));
    let base = c.foundation + seq![0x20u8] + spec_fmt_nat(c.component_id->0 as nat) + seq![0x20u8]
        + spec_ser_proto(c.proto) + seq![0x20u8] + spec_fmt_nat(c.priority as nat) + seq![0x20u8]
        + spec_ser_ip(c.conn) + seq![0x20u8] + spec_fmt_nat(c.port as nat) + seq![0x20u8]
        + spec_kw_typ() + seq![0x20u8] + spec_ser_cand_type(c.candidate_type);
    match (c.rel_addr, c.rel_port) {
        (Some(ra), Some(rp)) => {
            lemma_utf8_ser_ip(ra);
            lemma_utf8_fmt_nat(rp as nat);
            vc(seq![0x20u8], spec_kw_raddr());
            vc(seq![0x20u8] + spec_kw_raddr(), seq![0x20u8]);
            vc(seq![0x20u8] + spec_kw_raddr() + seq![0x20u8], spec_ser_ip(ra));
            vc(seq![0x20u8] + spec_kw_raddr() + seq![0x20u8] + spec_ser_ip(ra), seq![0x20u8]);
            vc(seq![0x20u8] + spec_kw_raddr() + seq![0x20u8] + spec_ser_ip(ra) + seq![0x20u8], spec_kw_rport());
            vc(seq![0x20u8] + spec_kw_raddr() + seq![0x20u8] + spec_ser_ip(ra) + seq![0x20u8] + spec_kw_rport(), seq![0x20u8]);
            vc(seq![0x20u8] + spec_kw_raddr() + seq![0x20u8] + spec_ser_ip(ra) + seq![0x20u8] + spec_kw_rport() + seq![0x20u8], spec_fmt_nat(rp as nat));
            vc(base, seq![0x20u8] + spec_kw_raddr() + seq![0x20u8] + spec_ser_ip(ra)
                + seq![0x20u8] + spec_kw_rport() + seq![0x20u8] + spec_fmt_nat(rp as nat));
        },
        _ => {
            lemma_ascii_valid_utf8(Seq::empty());
            vc(base, Seq::empty());
        },
    }
}

proof fn lemma_utf8_ser_attr(a: AttrV)
    requires
        ser_ready_attr(a),
    ensures
        valid_utf8(spec_ser_attr(a)),
{
    lemma_utf8_kw();
    match a {
        AttrV::PTime(p) => {
            lemma_utf8_fmt_nat(p as nat);
            vc(spec_kw_ptime(), seq![0x3au8]);
            vc(spec_kw_ptime() + seq![0x3au8], spec_fmt_nat(p as nat));
        },
        AttrV::RtpMap(r) => {
            lemma_utf8_ser_rtpmap(r);
            vc(spec_kw_rtpmap(), seq![0x3au8]);
            vc(spec_kw_rtpmap() + seq![0x3au8], spec_ser_rtpmap(r));
        },
        AttrV::FmtP(f) => {
            lemma_utf8_fmt_nat(f.format as nat);
            vc(spec_fmt_nat(f.format as nat), seq![0x20u8]);
            vc(spec_fmt_nat(f.format as nat) + seq![0x20u8], f.format_params);
            vc(spec_kw_fmtp(), seq![0x3au8]);
            vc(spec_kw_fmtp() + seq![0x3au8], spec_ser_fmtp(f));
        },
        AttrV::Candidate(c) => {
            lemma_utf8_ser_candidate(c);
            vc(spec_kw_candidate(), seq![0x3au8]);
            vc(spec_kw_candidate() + seq![0x3au8], spec_ser_candidate(c));
        },
        AttrV::IceUfrag(u) => {
            vc(spec_kw_ice_ufrag(), seq![0x3au8]);
            vc(spec_kw_ice_ufrag() + seq![0x3au8], u);
        },
        AttrV::IcePwd(p) => {
            vc(spec_kw_ice_pwd(), seq![0x3au8]);
            vc(spec_kw_ice_pwd() + seq![0x3au8], p);
        },
        _ => {},
    }
}

proof fn lemma_utf8_ser_attr_lines(attrs: Seq<AttrV>)
    requires
        ser_ready_attrs(attrs),
    ensures
        valid_utf8(spec_ser_attr_lines(attrs)),
    decreases attrs.len(),
{
    lemma_utf8_kw();
    if attrs.len() == 0 {
        lemma_ascii_valid_utf8(Seq::empty());
    } else {
        assert(ser_ready_attrs(attrs.drop_last())) by {
            assert(forall|i: int|
                0 <= i < attrs.len() - 1 ==> attrs.drop_last()[i] == #[trigger] attrs[i]);
        }
        lemma_utf8_ser_attr_lines(attrs.drop_last());
        lemma_utf8_ser_attr(attrs.last());
        vc(seq![0x61u8, 0x3du8], spec_ser_attr(attrs.last()));
        vc(seq![0x61u8, 0x3du8] + spec_ser_attr(attrs.last()), seq![0x0au8]);
        vc(spec_ser_attr_lines(attrs.drop_last()), spec_ser_attr_line(attrs.last()));
    }
}

proof fn lemma_utf8_ser_media(m: MediaV)
    requires
        ser_ready_media(m),
    ensures
        valid_utf8(spec_ser_media(m)),
{
    lemma_utf8_kw();
    lemma_utf8_fmt_nat(m.port as nat);
    lemma_utf8_fmt_list(m.fmt);
    vc(spec_ser_media_type(m.media), seq![0x20u8]);
    vc(spec_ser_media_type(m.media) + seq![0x20u8], spec_fmt_nat(m.port as nat));
    vc(spec_ser_media_type(m.media) + seq![0x20u8] + spec_fmt_nat(m.port as nat), seq![0x20u8]);
    vc(spec_ser_media_type(m.media) + seq![0x20u8] + spec_fmt_nat(m.port as nat) + seq![0x20u8], spec_ser_media_proto(m.proto));
    vc(spec_ser_media_type(m.media) + seq![0x20u8] + spec_fmt_nat(m.port as nat) + seq![0x20u8] + spec_ser_media_proto(m.proto), spec_ser_fmt_list(m.fmt));
}

proof fn lemma_utf8_fmt_list(fmt: Seq<Seq<u8>>)
    requires
        forall|i: int| 0 <= i < fmt.len() ==> valid_utf8(#[trigger] fmt[i]),
    ensures
        valid_utf8(spec_ser_fmt_list(fmt)),
    decreases fmt.len(),
{
    lemma_utf8_kw();
    if fmt.len() == 0 {
        lemma_ascii_valid_utf8(Seq::empty());
    } else {
        assert(forall|i: int|
            0 <= i < fmt.len() - 1 ==> valid_utf8(#[trigger] fmt.drop_last()[i]));
        lemma_utf8_fmt_list(fmt.drop_last());
        assert(valid_utf8(fmt.last()));
        vc(spec_ser_fmt_list(fmt.drop_last()), seq![0x20u8]);
        vc(spec_ser_fmt_list(fmt.drop_last()) + seq![0x20u8], fmt.last());
    }
}

proof fn lemma_utf8_ser_media_blocks(media: Seq<MediaDescriptionV>)
    requires
        forall|i: int|
            0 <= i < media.len() ==> ser_ready_media(#[trigger] media[i].media) && ser_ready_attrs(
                media[i].attrs,
            ),
    ensures
        valid_utf8(spec_ser_media_blocks(media)),
    decreases media.len(),
{
    lemma_utf8_kw();
    if media.len() == 0 {
        lemma_ascii_valid_utf8(Seq::empty());
    } else {
        assert(forall|i: int|
            0 <= i < media.len() - 1 ==> media.drop_last()[i] == #[trigger] media[i]);
        lemma_utf8_ser_media_blocks(media.drop_last());
        lemma_utf8_ser_media(media.last().media);
        lemma_utf8_ser_attr_lines(media.last().attrs);
        let md = media.last();
        vc(seq![0x6du8, 0x3du8], spec_ser_media(md.media));
        vc(seq![0x6du8, 0x3du8] + spec_ser_media(md.media), seq![0x0au8]);
        vc(seq![0x6du8, 0x3du8] + spec_ser_media(md.media) + seq![0x0au8],
            spec_ser_attr_lines(md.attrs));
        vc(spec_ser_media_blocks(media.drop_last()), spec_ser_media_block(md));
    }
}

/// A ready description serializes to valid UTF-8.
pub proof fn lemma_ser_desc_utf8(d: SessionDescriptionV)
    requires
        ser_ready_desc(d),
    ensures
        valid_utf8(spec_ser_desc(d)),
{
    lemma_utf8_kw();
    lemma_utf8_fmt_i32(d.ver->0 as int);
    lemma_utf8_ser_origin(d.origin->0);
    lemma_utf8_ser_connection(d.conn->0);
    lemma_utf8_ser_timing(d.timing->0);
    lemma_utf8_ser_attr_lines(d.attrs);
    lemma_utf8_ser_media_blocks(d.media);
    vc(seq![0x76u8, 0x3du8], spec_fmt_i32(d.ver->0 as int));
    vc(seq![0x76u8, 0x3du8] + spec_fmt_i32(d.ver->0 as int), seq![0x0au8]);
    vc(seq![0x76u8, 0x3du8] + spec_fmt_i32(d.ver->0 as int) + seq![0x0au8], seq![0x6fu8, 0x3du8]);
    vc(seq![0x76u8, 0x3du8] + spec_fmt_i32(d.ver->0 as int) + seq![0x0au8] + seq![0x6fu8, 0x3du8], spec_ser_origin(d.origin->0));
    vc(seq![0x76u8, 0x3du8] + spec_fmt_i32(d.ver->0 as int) + seq![0x0au8] + seq![0x6fu8, 0x3du8] + spec_ser_origin(d.origin->0), seq![0x0au8]);
    vc(seq![0x76u8, 0x3du8] + spec_fmt_i32(d.ver->0 as int) + seq![0x0au8] + seq![0x6fu8, 0x3du8] + spec_ser_origin(d.origin->0) + seq![0x0au8], seq![0x73u8, 0x3du8]);
    vc(seq![0x76u8, 0x3du8] + spec_fmt_i32(d.ver->0 as int) + seq![0x0au8] + seq![0x6fu8, 0x3du8] + spec_ser_origin(d.origin->0) + seq![0x0au8] + seq![0x73u8, 0x3du8], d.name->0);
    vc(seq![0x76u8, 0x3du8] + spec_fmt_i32(d.ver->0 as int) + seq![0x0au8] + seq![0x6fu8, 0x3du8] + spec_ser_origin(d.origin->0) + seq![0x0au8] + seq![0x73u8, 0x3du8] + d.name->0, seq![0x0au8]);
    vc(seq![0x76u8, 0x3du8] + spec_fmt_i32(d.ver->0 as int) + seq![0x0au8] + seq![0x6fu8, 0x3du8] + spec_ser_origin(d.origin->0) + seq![0x0au8] + seq![0x73u8, 0x3du8] + d.name->0 + seq![0x0au8], seq![0x63u8, 0x3du8]);
    vc(seq![0x76u8, 0x3du8] + spec_fmt_i32(d.ver->0 as int) + seq![0x0au8] + seq![0x6fu8, 0x3du8] + spec_ser_origin(d.origin->0) + seq![0x0au8] + seq![0x73u8, 0x3du8] + d.name->0 + seq![0x0au8] + seq![0x63u8, 0x3du8], spec_ser_connection(d.conn->0));
    vc(seq![0x76u8, 0x3du8] + spec_fmt_i32(d.ver->0 as int) + seq![0x0au8] + seq![0x6fu8, 0x3du8] + spec_ser_origin(d.origin->0) + seq![0x0au8] + seq![0x73u8, 0x3du8] + d.name->0 + seq![0x0au8] + seq![0x63u8, 0x3du8] + spec_ser_connection(d.conn->0), seq![0x0au8]);
    vc(seq![0x76u8, 0x3du8] + spec_fmt_i32(d.ver->0 as int) + seq![0x0au8] + seq![0x6fu8, 0x3du8] + spec_ser_origin(d.origin->0) + seq![0x0au8] + seq![0x73u8, 0x3du8] + d.name->0 + seq![0x0au8] + seq![0x63u8, 0x3du8] + spec_ser_connection(d.conn->0) + seq![0x0au8], seq![0x74u8, 0x3du8]);
    vc(seq![0x76u8, 0x3du8] + spec_fmt_i32(d.ver->0 as int) + seq![0x0au8] + seq![0x6fu8, 0x3du8] + spec_ser_origin(d.origin->0) + seq![0x0au8] + seq![0x73u8, 0x3du8] + d.name->0 + seq![0x0au8] + seq![0x63u8, 0x3du8] + spec_ser_connection(d.conn->0) + seq![0x0au8] + seq![0x74u8, 0x3du8], spec_ser_timing(d.timing->0));
    vc(seq![0x76u8, 0x3du8] + spec_fmt_i32(d.ver->0 as int) + seq![0x0au8] + seq![0x6fu8, 0x3du8] + spec_ser_origin(d.origin->0) + seq![0x0au8] + seq![0x73u8, 0x3du8] + d.name->0 + seq![0x0au8] + seq![0x63u8, 0x3du8] + spec_ser_connection(d.conn->0) + seq![0x0au8] + seq![0x74u8, 0x3du8] + spec_ser_timing(d.timing->0), seq![0x0au8]);
    vc(spec_ser_head(d), spec_ser_attr_lines(d.attrs));
    vc(spec_ser_head(d) + spec_ser_attr_lines(d.attrs), spec_ser_media_blocks(d.media));
}

impl SessionDescription {
    /// The SDP text of this description.
    pub fn to_string(&self) -> (r: String)
        requires
            ser_ready_desc(self@),
        ensures
            str_bytes(r@) == spec_ser_desc(self@),
    {
        let bytes = ser_desc_bytes(self);
        proof {
            lemma_ser_desc_utf8(self@);
        }
        bytes_to_string(bytes).unwrap()
    }
}


// ---------------------------------------------------------------------------
// Deep copies (the derived `Clone` carries no specification)

impl IpAddr {
    pub fn deep_clone(&self) -> (r: IpAddr)
        ensures
            r@ == self@,
    {
        match self {
            IpAddr::V4(a, b, c, d) => IpAddr::V4(*a, *b, *c, *d),
            IpAddr::V6(t) => IpAddr::V6(clone_bytes(t)),
        }
    }
}

impl Candidate {
    pub fn deep_clone(&self) -> (r: Candidate)
        ensures
            r@ == self@,
    {
        Candidate {
            conn: self.conn.deep_clone(),
            port: self.port,
            proto: if self.proto == Proto::Udp {
                Proto::Udp
            } else {
                Proto::Tcp
            },
            foundation: self.foundation.clone(),
            component_id: self.component_id,
            priority: self.priority,
            candidate_type: match self.candidate_type {
                CandidateType::Host => CandidateType::Host,
                CandidateType::Srflx => CandidateType::Srflx,
                CandidateType::Prflx => CandidateType::Prflx,
                CandidateType::Relay => CandidateType::Relay,
            },
            rel_addr: match &self.rel_addr {
                Some(a) => Some(a.deep_clone()),
                None => None,
            },
            rel_port: self.rel_port,
        }
    }
}

impl Attr {
    pub fn deep_clone(&self) -> (r: Attr)
        ensures
            r@ == self@,
    {
        match self {
            Attr::SendRecv => Attr::SendRecv,
            Attr::SendOnly => Attr::SendOnly,
            Attr::RecvOnly => Attr::RecvOnly,
            Attr::Inactive => Attr::Inactive,
            Attr::PTime(p) => Attr::PTime(PTimeValue { value: p.value }),
            Attr::RtpMap(r) => Attr::RtpMap(
                RtpMapValue {
                    payload_type: r.payload_type,
                    encoding_name: r.encoding_name.clone(),
                    clock_rate: r.clock_rate,
                    encoding_params: r.encoding_params,
                },
            ),
            Attr::FmtP(f) => Attr::FmtP(
                FmtPValue { format: f.format, format_params: f.format_params.clone() },
            ),
            Attr::Candidate(c) => Attr::Candidate(
                CandidateValue { ice_candidate: c.ice_candidate.deep_clone() },
            ),
            Attr::IceUfrag(u) => Attr::IceUfrag(IceUfragValue { value: u.value.clone() }),
            Attr::IcePwd(p) => Attr::IcePwd(IcePwdValue { value: p.value.clone() }),
            Attr::IceMismatch => Attr::IceMismatch,
            Attr::IceLite => Attr::IceLite,
        }
    }
}

/// A deep copy of an attribute list.
pub fn deep_clone_attrs(attrs: &Vec<Attr>) -> (r: Vec<Attr>)
    ensures
        r@.len() == attrs@.len(),
        forall|i: int| 0 <= i < attrs@.len() ==> #[trigger] r@[i]@ == attrs@[i]@,
{
    let mut out: Vec<Attr> = Vec::new();
    let mut i: usize = 0;
    while i < attrs.len()
        invariant
            0 <= i <= attrs@.len(),
            out@.len() == i,
            forall|j: int| 0 <= j < i ==> #[trigger] out@[j]@ == attrs@[j]@,
        decreases attrs@.len() - i,
    {
        out.push(attrs[i].deep_clone());
        i = i + 1;
    }
    out
}

impl Media {
    pub fn deep_clone(&self) -> (r: Media)
        ensures
            r@ == self@,
    {
        let mut fmt: Vec<String> = Vec::new();
        let mut i: usize = 0;
        while i < self.fmt.len()
            invariant
                0 <= i <= self.fmt@.len(),
                fmt@.len() == i,
                forall|j: int| 0 <= j < i ==> #[trigger] fmt@[j]@ == self.fmt@[j]@,
            decreases self.fmt@.len() - i,
        {
            fmt.push(self.fmt[i].clone());
            i = i + 1;
        }
        let r = Media {
            media: match self.media {
                MediaType::AUDIO => MediaType::AUDIO,
                MediaType::VIDEO => MediaType::VIDEO,
                MediaType::TEXT => MediaType::TEXT,
                MediaType::APPLICATION => MediaType::APPLICATION,
                MediaType::MESSAGE => MediaType::MESSAGE,
            },
            port: self.port,
            proto: match self.proto {
                MediaProto::Udp => MediaProto::Udp,
                MediaProto::RtpAvp => MediaProto::RtpAvp,
                MediaProto::RtpAvpf => MediaProto::RtpAvpf,
                MediaProto::RtpSavp => MediaProto::RtpSavp,
                MediaProto::RtpSavpf => MediaProto::RtpSavpf,
                MediaProto::UdpTlsRtpSavpf => MediaProto::UdpTlsRtpSavpf,
            },
            fmt,
        };
        proof {
            assert(r@.fmt =~~= self@.fmt);
            assert(r@ =~~= self@);
        }
        r
    }
}

impl MediaDescription {
    pub fn deep_clone(&self) -> (r: MediaDescription)
        ensures
            r@ == self@,
    {
        let r = MediaDescription { media: self.media.deep_clone(), attrs: deep_clone_attrs(&self.attrs) };
        proof {
            assert(r@.attrs =~~= self@.attrs);
            assert(r@ =~~= self@);
        }
        r
    }
}

impl Origin {
    pub fn deep_clone(&self) -> (r: Origin)
        ensures
            r@ == self@,
    {
        Origin {
            username: self.username.clone(),
            session_id: self.session_id.clone(),
            session_version: self.session_version,
            net_type: NetType::IN,
            addr_type: match self.addr_type {
                AddrType::IP4 => AddrType::IP4,
                AddrType::IP6 => AddrType::IP6,
            },
            ip_address: self.ip_address.deep_clone(),
        }
    }
}

impl Connection {
    pub fn deep_clone(&self) -> (r: Connection)
        ensures
            r@ == self@,
    {
        Connection {
            net_type: NetType::IN,
            addr_type: match self.addr_type {
                AddrType::IP4 => AddrType::IP4,
                AddrType::IP6 => AddrType::IP6,
            },
            ip_address: self.ip_address.deep_clone(),
            ttl: self.ttl,
            nr_addrs: self.nr_addrs,
        }
    }
}

impl SessionDescription {
    pub fn deep_clone(&self) -> (r: SessionDescription)
        ensures
            r@ == self@,
    {
        let mut media: Vec<MediaDescription> = Vec::new();
        let mut i: usize = 0;
        while i < self.media.len()
            invariant
                0 <= i <= self.media@.len(),
                media@.len() == i,
                forall|j: int| 0 <= j < i ==> #[trigger] media@[j]@ == self.media@[j]@,
            decreases self.media@.len() - i,
        {
            media.push(self.media[i].deep_clone());
            i = i + 1;
        }
        let r = SessionDescription {
            ver: self.ver,
            origin: match &self.origin {
                Some(o) => Some(o.deep_clone()),
                None => None,
            },
            name: match &self.name {
                Some(s) => Some(s.clone()),
                None => None,
            },
            info: match &self.info {
                Some(s) => Some(s.clone()),
                None => None,
            },
            uri: match &self.uri {
                Some(s) => Some(s.clone()),
                None => None,
            },
            conn: match &self.conn {
                Some(c) => Some(c.deep_clone()),
                None => None,
            },
            timing: self.timing,
            attrs: deep_clone_attrs(&self.attrs),
            media,
        };
        proof {
            assert(r@.attrs =~~= self@.attrs);
            assert(r@.media =~~= self@.media);
            assert(r@ =~~= self@);
        }
        r
    }
}


} // verus!
