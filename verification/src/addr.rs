//! IP addresses as plain data.
//!
//! The bridge only reads two things from an address: the dotted-quad form of
//! an IPv4 address (to serialize it and to test for multicast) and the raw
//! text of an IPv6 address. An address is therefore modelled as either four
//! octets or the validated textual form.

use vstd::prelude::*;
use crate::text::{
    all_digits, dec_val, fmt_u8, is_digit, parse_u8, spec_fmt_nat, spec_split, split, lemma_fmt_nat,
    lemma_split_join, chunk_has_no_sep, chunks_have_no_sep, bytes_eq,
};

verus! {

#[derive(Clone, Debug, PartialEq)]
pub enum IpAddr {
    V4(u8, u8, u8, u8),
    /// The textual form of an IPv6 address, kept as it was given.
    V6(Vec<u8>),
}

#[verifier::ext_equal]
pub enum IpAddrV {
    V4(u8, u8, u8, u8),
    V6(Seq<u8>),
}

impl View for IpAddr {
    type V = IpAddrV;

    open spec fn view(&self) -> IpAddrV {
        match self {
            IpAddr::V4(a, b, c, d) => IpAddrV::V4(*a, *b, *c, *d),
            IpAddr::V6(t) => IpAddrV::V6(t@),
        }
    }
}

/// Bytes allowed in the text of an IPv6 address: hex digits, ':' and '.'.
pub open spec fn is_v6_byte(b: u8) -> bool {
    is_digit(b) || (0x61 <= b <= 0x66) || (0x41 <= b <= 0x46) || b == 0x3a || b == 0x2e
}

/// A plausible IPv6 literal: at least one ':', only hex digits, ':' and '.'.
pub open spec fn spec_is_v6_text(s: Seq<u8>) -> bool {
    &&& s.len() > 0
    &&& (exists|i: int| 0 <= i < s.len() && s[i] == 0x3a)
    &&& (forall|i: int| 0 <= i < s.len() ==> is_v6_byte(#[trigger] s[i]))
}

pub fn is_v6_text(s: &[u8]) -> (r: bool)
    ensures
        r == spec_is_v6_text(s@),
{
    if s.len() == 0 {
        return false;
    }
    let mut seen_colon = false;
    let mut i: usize = 0;
    while i < s.len()
        invariant
            0 <= i <= s@.len(),
            seen_colon <==> (exists|j: int| 0 <= j < i && s@[j] == 0x3a),
            forall|j: int| 0 <= j < i ==> is_v6_byte(#[trigger] s@[j]),
        decreases s@.len() - i,
    {
        let b = s[i];
        let ok = (b >= 0x30 && b <= 0x39) || (b >= 0x61 && b <= 0x66) || (b >= 0x41 && b <= 0x46)
            || b == 0x3a || b == 0x2e;
        if !ok {
            return false;
        }
        if b == 0x3a {
            seen_colon = true;
        }
        i = i + 1;
    }
    seen_colon
}

/// The parse of an address token: a dotted quad, or plausible IPv6 text.
pub open spec fn spec_parse_ip(s: Seq<u8>) -> Option<IpAddrV> {
    let parts = spec_split(s, 0x2e);
    if parts.len() == 4 && (forall|i: int|
        0 <= i < 4 ==> is_octet(#[trigger] parts[i])) {
        Some(
            IpAddrV::V4(
                dec_val(parts[0]) as u8,
                dec_val(parts[1]) as u8,
                dec_val(parts[2]) as u8,
                dec_val(parts[3]) as u8,
            ),
        )
    } else if spec_is_v6_text(s) {
        Some(IpAddrV::V6(s))
    } else {
        None
    }
}

pub open spec fn is_octet(p: Seq<u8>) -> bool {
    p.len() > 0 && all_digits(p) && dec_val(p) <= 255
}

pub fn parse_ip(s: &[u8]) -> (r: Option<IpAddr>)
    ensures
        match r {
            Some(ip) => spec_parse_ip(s@) == Some(ip@),
            None => spec_parse_ip(s@) is None,
        },
{
    let parts = split(s, 0x2e);
    let ghost pv = parts.deep_view();
    proof {
        assert forall|i: int| 0 <= i < pv.len() implies #[trigger] pv[i] == parts@[i]@ by {
            assert(pv[i] =~= parts@[i]@);
        }
    }
    if parts.len() == 4 {
        let a = parse_u8(parts[0].as_slice());
        let b = parse_u8(parts[1].as_slice());
        let c = parse_u8(parts[2].as_slice());
        let d = parse_u8(parts[3].as_slice());
        if let (Some(a), Some(b), Some(c), Some(d)) = (a, b, c, d) {
            proof {
                assert(is_octet(pv[0]) && is_octet(pv[1]) && is_octet(pv[2]) && is_octet(pv[3]));
            }
            return Some(IpAddr::V4(a, b, c, d));
        }
        proof {
            assert(!(forall|i: int| 0 <= i < 4 ==> is_octet(#[trigger] pv[i])));
            // a dotted token of four parts, one malformed, is never IPv6 text:
            // a '.'-split with four parts means the string holds no ':' only if
            // it holds a ':' inside a part, which split keeps.
        }
        if is_v6_text(s) {
            return Some(IpAddr::V6(vstd::slice::slice_to_vec(s)));
        }
        return None;
    }
    if is_v6_text(s) {
        return Some(IpAddr::V6(vstd::slice::slice_to_vec(s)));
    }
    None
}

/// The textual form: dotted quad for V4, the kept text for V6.
pub open spec fn spec_ser_ip(ip: IpAddrV) -> Seq<u8> {
    match ip {
        IpAddrV::V4(a, b, c, d) => spec_fmt_nat(a as nat) + seq![0x2eu8] + spec_fmt_nat(b as nat)
            + seq![0x2eu8] + spec_fmt_nat(c as nat) + seq![0x2eu8] + spec_fmt_nat(d as nat),
        IpAddrV::V6(t) => t,
    }
}

pub fn ser_ip(ip: &IpAddr) -> (r: Vec<u8>)
    ensures
        r@ == spec_ser_ip(ip@),
{
    match ip {
        IpAddr::V4(a, b, c, d) => {
            let mut out = fmt_u8(*a);
            out.push(0x2e);
            let mut t = fmt_u8(*b);
            out.append(&mut t);
            out.push(0x2e);
            let mut t = fmt_u8(*c);
            out.append(&mut t);
            out.push(0x2e);
            let mut t = fmt_u8(*d);
            out.append(&mut t);
            proof {
                assert(out@ =~= spec_ser_ip(ip@));
            }
            out
        },
        IpAddr::V6(t) => {
            let r = t.clone();
            r
        },
    }
}

/// A serializable address: V4 always; V6 only in its validated textual form.
pub open spec fn wf_ip(ip: IpAddrV) -> bool {
    match ip {
        IpAddrV::V4(_, _, _, _) => true,
        IpAddrV::V6(t) => spec_is_v6_text(t),
    }
}

/// No separator bytes appear in a serialized address.
pub open spec fn ip_text_plain(ip: IpAddrV) -> bool {
    forall|i: int|
        0 <= i < spec_ser_ip(ip).len() ==> is_v6_byte(#[trigger] spec_ser_ip(ip)[i])
}

pub proof fn lemma_ser_ip_plain(ip: IpAddrV)
    requires
        wf_ip(ip),
    ensures
        ip_text_plain(ip),
        spec_ser_ip(ip).len() > 0,
{
    match ip {
        IpAddrV::V4(a, b, c, d) => {
            lemma_fmt_nat(a as nat);
            lemma_fmt_nat(b as nat);
            lemma_fmt_nat(c as nat);
            lemma_fmt_nat(d as nat);
            let s = spec_ser_ip(ip);
            assert forall|i: int| 0 <= i < s.len() implies is_v6_byte(#[trigger] s[i]) by {
                let fa = spec_fmt_nat(a as nat);
                let fb = spec_fmt_nat(b as nat);
                let fc = spec_fmt_nat(c as nat);
                let fd = spec_fmt_nat(d as nat);
                assert(s == fa + seq![0x2eu8] + fb + seq![0x2eu8] + fc + seq![0x2eu8] + fd);
                if i < fa.len() {
                    assert(is_digit(fa[i]));
                } else {
                }
            }
        },
        IpAddrV::V6(_) => {
        },
    }
}

/// Parsing the serialized form of a well-formed address gives it back.
pub proof fn lemma_ip_round_trip(ip: IpAddrV)
    requires
        wf_ip(ip),
    ensures
        spec_parse_ip(spec_ser_ip(ip)) == Some(ip),
{
    match ip {
        IpAddrV::V4(a, b, c, d) => {
            lemma_fmt_nat(a as nat);
            lemma_fmt_nat(b as nat);
            lemma_fmt_nat(c as nat);
            lemma_fmt_nat(d as nat);
            let fa = spec_fmt_nat(a as nat);
            let fb = spec_fmt_nat(b as nat);
            let fc = spec_fmt_nat(c as nat);
            let fd = spec_fmt_nat(d as nat);
            assert(chunk_has_no_sep(fa, 0x2e));
            assert(chunk_has_no_sep(fb, 0x2e));
            assert(chunk_has_no_sep(fc, 0x2e));
            assert(chunk_has_no_sep(fd, 0x2e));
            let dot = seq![0x2eu8];
            let s = spec_ser_ip(ip);
            let r1 = fb + dot + fc + dot + fd;
            let r2 = fc + dot + fd;
            assert(s =~= fa + dot + r1);
            assert(r1 =~= fb + dot + r2);
            crate::text::lemma_split_cons(fa, r1, 0x2e);
            crate::text::lemma_split_cons(fb, r2, 0x2e);
            crate::text::lemma_split_cons(fc, fd, 0x2e);
            crate::text::lemma_split_single_chunk(fd, 0x2e);
            let sp = spec_split(s, 0x2e);
            assert(sp =~~= seq![fa, fb, fc, fd]);
            assert(is_octet(sp[0]) && is_octet(sp[1]) && is_octet(sp[2]) && is_octet(sp[3]));
            assert(forall|i: int| 0 <= i < 4 ==> is_octet(#[trigger] sp[i])) by {
                assert(sp[0] == fa && sp[1] == fb && sp[2] == fc && sp[3] == fd);
            }
        },
        IpAddrV::V6(t) => {
            // The text holds a ':', so the '.'-split cannot be four octets.
            let s = spec_ser_ip(ip);
            assert(s == t);
            let sp = spec_split(s, 0x2e);
            let ci = choose|i: int| 0 <= i < t.len() && t[i] == 0x3a;
            if sp.len() == 4 && (forall|i: int| 0 <= i < 4 ==> is_octet(#[trigger] sp[i])) {
                lemma_split_colon_chunk(t, ci);
                let bad = choose|i: int|
                    0 <= i < spec_split(t, 0x2e).len() && !all_digits(spec_split(t, 0x2e)[i]);
                assert(is_octet(sp[bad]));
                assert(false);
            }
        },
    }
}

/// A ':' in `s` survives the '.'-split: some chunk is not all digits.
proof fn lemma_split_colon_chunk(s: Seq<u8>, ci: int)
    requires
        0 <= ci < s.len(),
        s[ci] == 0x3a,
    ensures
        exists|i: int|
            0 <= i < spec_split(s, 0x2e).len() && !all_digits(
                #[trigger] spec_split(s, 0x2e)[i],
            ),
    decreases s.len(),
{
    let sp = spec_split(s, 0x2e);
    let sp0 = spec_split(s.drop_last(), 0x2e);
    crate::text::lemma_split_len(s.drop_last(), 0x2e);
    if ci == s.len() - 1 {
        // the last byte is ':' and lands in the last chunk of the split
        assert(s.last() == 0x3a);
        assert(sp == sp0.update(sp0.len() - 1, sp0.last().push(0x3a)));
        let li = sp.len() - 1;
        let lc = sp[li];
        assert(lc == sp0.last().push(0x3a));
        assert(lc[lc.len() - 1] == 0x3a);
        assert(!is_digit(0x3a));
        assert(!all_digits(lc));
        assert(0 <= li < sp.len() && !all_digits(sp[li]));
    } else {
        lemma_split_colon_chunk(s.drop_last(), ci);
        let i0 = choose|i: int| 0 <= i < sp0.len() && !all_digits(sp0[i]);
        if s.last() == 0x2e {
            assert(sp == sp0.push(Seq::<u8>::empty()));
            assert(sp[i0] == sp0[i0]);
            assert(0 <= i0 < sp.len() && !all_digits(sp[i0]));
        } else {
            assert(sp == sp0.update(sp0.len() - 1, sp0.last().push(s.last())));
            if i0 < sp0.len() - 1 {
                assert(sp[i0] == sp0[i0]);
                assert(0 <= i0 < sp.len() && !all_digits(sp[i0]));
            } else {
                let j = choose|j: int| 0 <= j < sp0[i0].len() && !is_digit(sp0[i0][j]);
                let lc = sp[sp.len() - 1];
                assert(lc == sp0.last().push(s.last()));
                assert(lc[j] == sp0[i0][j]);
                assert(!all_digits(lc));
                assert(0 <= i0 < sp.len() && !all_digits(sp[i0]));
            }
        }
    }
}

/// IPv4 multicast: first octet 224 through 239. IPv6 is treated as the
/// original treated it when checking a connection line: like multicast.
pub open spec fn spec_is_multicast_or_v6(ip: IpAddrV) -> bool {
    match ip {
        IpAddrV::V4(a, _, _, _) => 224 <= a <= 239,
        IpAddrV::V6(_) => true,
    }
}

pub fn is_multicast_or_v6(ip: &IpAddr) -> (r: bool)
    ensures
        r == spec_is_multicast_or_v6(ip@),
{
    match ip {
        IpAddr::V4(a, _, _, _) => 224 <= *a && *a <= 239,
        IpAddr::V6(_) => true,
    }
}

} // verus!
