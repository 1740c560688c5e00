//! Offer/answer negotiation.
//!
//! Against no base (the first member) every media block is answered in
//! place: directions are inverted, ptime and codec maps are kept, fresh ICE
//! credentials replace offered ones, and the port becomes the ICE
//! placeholder. Against a base description, each offered media block is
//! matched to a base block of the same type, the format list is cut down to
//! the common part, the base's codec maps are taken over, and an unmatched
//! block is refused with port 0.

use vstd::prelude::*;
use vstd::utf8::encode_utf8;
use crate::sdp::{
    Attr, AttrV, IceUfragValue, IcePwdValue, MediaDescription, MediaDescriptionV, MediaProto,
    RtpMapValue, SessionDescription, SessionDescriptionV,
};
use crate::strings::{str_bytes, string_to_bytes};
use crate::text::{is_dec, dec_val, parse_u32};

verus! {

// ---------------------------------------------------------------------------
// Directions

/// Whether an attribute states a stream direction.
pub open spec fn is_direction(a: AttrV) -> bool {
    a == AttrV::SendRecv || a == AttrV::SendOnly || a == AttrV::RecvOnly || a == AttrV::Inactive
}

/// The direction a member must take to answer the given one.
pub open spec fn spec_invert_direction(a: AttrV) -> AttrV {
    match a {
        AttrV::SendOnly => AttrV::RecvOnly,
        AttrV::RecvOnly => AttrV::SendOnly,
        x => x,
    }
}

/// The direction attributes of a media block, in order.
pub open spec fn directions(attrs: Seq<AttrV>) -> Seq<AttrV>
    decreases attrs.len(),
{
    if attrs.len() == 0 {
        Seq::empty()
    } else {
        let rest = directions(attrs.drop_last());
        if is_direction(attrs.last()) {
            rest.push(attrs.last())
        } else {
            rest
        }
    }
}

// ---------------------------------------------------------------------------
// The per-attribute answer

/// What one offered attribute contributes to an answer built from scratch
/// (the first member's case): directions inverted, ptime and codec data
/// kept, the rest dropped. Offered credentials are dropped here: the answer
/// always ends with a freshly generated pair of its own.
pub open spec fn spec_answer_attr_full(a: AttrV) -> Seq<AttrV> {
    match a {
        AttrV::SendOnly => seq![AttrV::RecvOnly],
        AttrV::RecvOnly => seq![AttrV::SendOnly],
        AttrV::SendRecv => seq![AttrV::SendRecv],
        AttrV::Inactive => seq![AttrV::Inactive],
        AttrV::PTime(x) => seq![AttrV::PTime(x)],
        AttrV::RtpMap(r) => seq![AttrV::RtpMap(r)],
        AttrV::FmtP(f) => seq![AttrV::FmtP(f)],
        _ => Seq::empty(),
    }
}

/// As above, for the answer against a base: the base's codec maps are used
/// instead, so offered codec data is dropped here.
pub open spec fn spec_answer_attr_base(a: AttrV) -> Seq<AttrV> {
    match a {
        AttrV::SendOnly => seq![AttrV::RecvOnly],
        AttrV::RecvOnly => seq![AttrV::SendOnly],
        AttrV::SendRecv => seq![AttrV::SendRecv],
        AttrV::Inactive => seq![AttrV::Inactive],
        AttrV::PTime(x) => seq![AttrV::PTime(x)],
        _ => Seq::empty(),
    }
}

/// The bytes a generated credential can hold: 36 identifier bytes (digits,
/// lowercase hex letters, hyphens).
pub open spec fn credential_bytes(b: Seq<u8>) -> bool {
    b.len() == 36 && (forall|i: int|
        0 <= i < b.len() ==> crate::strings::is_id_byte(#[trigger] b[i]))
}

/// The credential pair an answered media block ends with.
pub open spec fn spec_credentials(uf: Seq<u8>, pw: Seq<u8>) -> Seq<AttrV> {
    seq![AttrV::IceUfrag(uf), AttrV::IcePwd(pw)]
}

pub open spec fn spec_answer_attrs_full(attrs: Seq<AttrV>) -> Seq<AttrV>
    decreases attrs.len(),
{
    if attrs.len() == 0 {
        Seq::empty()
    } else {
        spec_answer_attrs_full(attrs.drop_last()) + spec_answer_attr_full(attrs.last())
    }
}

pub open spec fn spec_answer_attrs_base(attrs: Seq<AttrV>) -> Seq<AttrV>
    decreases attrs.len(),
{
    if attrs.len() == 0 {
        Seq::empty()
    } else {
        spec_answer_attrs_base(attrs.drop_last()) + spec_answer_attr_base(attrs.last())
    }
}

// ---------------------------------------------------------------------------
// Format intersection and codec map selection

/// The offered formats that the base also offers, in offer order.
pub open spec fn fmt_intersect(offer: Seq<Seq<u8>>, base: Seq<Seq<u8>>) -> Seq<Seq<u8>>
    decreases offer.len(),
{
    if offer.len() == 0 {
        Seq::empty()
    } else {
        let rest = fmt_intersect(offer.drop_last(), base);
        if base.contains(offer.last()) {
            rest.push(offer.last())
        } else {
            rest
        }
    }
}

/// Every surviving format was offered, and is known to the base.
pub proof fn lemma_fmt_intersect_subset(offer: Seq<Seq<u8>>, base: Seq<Seq<u8>>)
    ensures
        forall|x: Seq<u8>|
            fmt_intersect(offer, base).contains(x) ==> offer.contains(x) && base.contains(x),
    decreases offer.len(),
{
    if offer.len() > 0 {
        lemma_fmt_intersect_subset(offer.drop_last(), base);
        assert forall|x: Seq<u8>|
            fmt_intersect(offer, base).contains(x) implies offer.contains(x) && base.contains(
            x,
        ) by {
            let inter = fmt_intersect(offer, base);
            let rest = fmt_intersect(offer.drop_last(), base);
            if base.contains(offer.last()) && x == offer.last() {
                assert(offer.contains(x)) by {
                    assert(offer[offer.len() - 1] == x);
                }
            } else {
                assert(rest.contains(x)) by {
                    let i = choose|i: int| 0 <= i < inter.len() && inter[i] == x;
                    if base.contains(offer.last()) {
                        assert(inter == rest.push(offer.last()));
                        assert(rest[i] == x);
                    }
                }
                assert(offer.drop_last().contains(x));
                let j = choose|j: int|
                    0 <= j < offer.drop_last().len() && offer.drop_last()[j] == x;
                assert(offer[j] == x);
            }
        }
    }
}

/// The base's rtpmap attributes whose payload type is the given format.
pub open spec fn spec_maps_for_fmt(base_attrs: Seq<AttrV>, f: Seq<u8>) -> Seq<AttrV>
    decreases base_attrs.len(),
{
    if base_attrs.len() == 0 {
        Seq::empty()
    } else {
        let rest = spec_maps_for_fmt(base_attrs.drop_last(), f);
        if base_attrs.last() matches AttrV::RtpMap(r) && is_dec(f, u32::MAX as nat) && dec_val(f)
            == r.payload_type {
            rest.push(base_attrs.last())
        } else {
            rest
        }
    }
}

/// The base's rtpmap attributes for the surviving formats, format by format.
pub open spec fn spec_maps_for_fmts(base_attrs: Seq<AttrV>, fmts: Seq<Seq<u8>>) -> Seq<AttrV>
    decreases fmts.len(),
{
    if fmts.len() == 0 {
        Seq::empty()
    } else {
        spec_maps_for_fmts(base_attrs, fmts.drop_last()) + spec_maps_for_fmt(
            base_attrs,
            fmts.last(),
        )
    }
}

// ---------------------------------------------------------------------------
// Executable helpers

/// Freshly generated ICE credentials, drawn from the identifier source.
fn fresh_credentials() -> (r: (String, String))
    ensures
        credential_bytes(str_bytes(r.0@)),
        credential_bytes(str_bytes(r.1@)),
{
    let u = crate::ice::fresh_id();
    let p = crate::ice::fresh_id();
    proof {
        crate::strings::lemma_id_chars_bytes(u@);
        crate::strings::lemma_id_chars_bytes(p@);
    }
    (u, p)
}

/// Appends the generated credential pair to an attribute list.
fn push_credentials(out: &mut Vec<Attr>, ufrag: &String, pwd: &String)
    ensures
        Seq::new(final(out)@.len(), |i: int| final(out)@[i]@) == Seq::new(
            old(out)@.len(),
            |i: int| old(out)@[i]@,
        ) + spec_credentials(str_bytes(ufrag@), str_bytes(pwd@)),
{
    let ghost before = Seq::new(out@.len(), |i: int| out@[i]@);
    out.push(Attr::IceUfrag(IceUfragValue { value: ufrag.clone() }));
    out.push(Attr::IcePwd(IcePwdValue { value: pwd.clone() }));
    proof {
        assert(Seq::new(out@.len(), |i: int| out@[i]@) =~~= before + spec_credentials(
            str_bytes(ufrag@),
            str_bytes(pwd@),
        ));
    }
}

/// Appends the answer for one offered attribute.
fn push_answer_attr(out: &mut Vec<Attr>, a: &Attr, keep_codec: bool)
    ensures
        Seq::new(final(out)@.len(), |i: int| final(out)@[i]@) == Seq::new(
            old(out)@.len(),
            |i: int| old(out)@[i]@,
        ) + (if keep_codec {
            spec_answer_attr_full(a@)
        } else {
            spec_answer_attr_base(a@)
        }),
{
    let ghost before = Seq::new(out@.len(), |i: int| out@[i]@);
    match a {
        Attr::SendOnly => {
            out.push(Attr::RecvOnly);
        },
        Attr::RecvOnly => {
            out.push(Attr::SendOnly);
        },
        Attr::SendRecv => {
            out.push(Attr::SendRecv);
        },
        Attr::Inactive => {
            out.push(Attr::Inactive);
        },
        Attr::PTime(x) => {
            out.push(Attr::PTime(crate::sdp::PTimeValue { value: x.value }));
        },
        Attr::IceUfrag(_) => {},
        Attr::RtpMap(r) => {
            if keep_codec {
                out.push(
                    Attr::RtpMap(
                        RtpMapValue {
                            payload_type: r.payload_type,
                            encoding_name: r.encoding_name.clone(),
                            clock_rate: r.clock_rate,
                            encoding_params: r.encoding_params,
                        },
                    ),
                );
            }
        },
        Attr::FmtP(f) => {
            if keep_codec {
                out.push(
                    Attr::FmtP(
                        crate::sdp::FmtPValue {
                            format: f.format,
                            format_params: f.format_params.clone(),
                        },
                    ),
                );
            }
        },
        _ => {},
    }
    proof {
        let after = Seq::new(out@.len(), |i: int| out@[i]@);
        let addition = if keep_codec {
            spec_answer_attr_full(a@)
        } else {
            spec_answer_attr_base(a@)
        };
        assert(after =~~= before + addition);
    }
}

/// Rebuilds a media block as the answer built from scratch: every attribute
/// answered in place, the generated credential pair appended, and the port
/// set to the ICE placeholder. The credentials are passed in because their
/// generation draws on randomness; one pair serves a whole answer.
pub fn set_media_stream(offer_media: &mut MediaDescription, ufrag: &String, pwd: &String)
    ensures
        final(offer_media)@.media.media == old(offer_media)@.media.media,
        final(offer_media)@.media.proto == old(offer_media)@.media.proto,
        final(offer_media)@.media.fmt == old(offer_media)@.media.fmt,
        final(offer_media)@.media.port == 9,
        final(offer_media)@.attrs == spec_answer_attrs_full(old(offer_media)@.attrs)
            + spec_credentials(str_bytes(ufrag@), str_bytes(pwd@)),
{
    let ghost oldv = offer_media@;
    let mut out: Vec<Attr> = Vec::new();
    let mut i: usize = 0;
    proof {
        assert(Seq::new(out@.len(), |k: int| out@[k]@) =~~= Seq::<AttrV>::empty());
        assert(oldv.attrs.subrange(0, 0) =~= Seq::<AttrV>::empty());
    }
    while i < offer_media.attrs.len()
        invariant
            0 <= i <= offer_media.attrs@.len(),
            oldv == offer_media@,
            oldv.attrs.len() == offer_media.attrs@.len(),
            forall|j: int|
                0 <= j < oldv.attrs.len() ==> #[trigger] oldv.attrs[j] == offer_media.attrs@[j]@,
            Seq::new(out@.len(), |k: int| out@[k]@) == spec_answer_attrs_full(
                oldv.attrs.subrange(0, i as int),
            ),
        decreases offer_media.attrs@.len() - i,
    {
        push_answer_attr(&mut out, &offer_media.attrs[i], true);
        proof {
            let p1 = oldv.attrs.subrange(0, i as int + 1);
            assert(p1.drop_last() =~= oldv.attrs.subrange(0, i as int));
            assert(p1.last() == oldv.attrs[i as int]);
        }
        i = i + 1;
    }
    proof {
        assert(oldv.attrs.subrange(0, i as int) =~= oldv.attrs);
    }
    push_credentials(&mut out, ufrag, pwd);
    offer_media.media.port = 9;
    offer_media.attrs = out;
    proof {
        assert(offer_media@.attrs =~~= spec_answer_attrs_full(oldv.attrs) + spec_credentials(
            str_bytes(ufrag@),
            str_bytes(pwd@),
        ));
        assert(offer_media@.media.fmt =~~= oldv.media.fmt);
    }
}

// ---------------------------------------------------------------------------
// Matching one offered media block against one base block

/// One negotiation attempt. The answer block keeps only the formats the base
/// also has; when codec maps match too, the base's maps and the offered
/// attributes' answers become the block's attributes. A failed attempt after
/// the format cut leaves the cut in place, as the original did.
pub open spec fn spec_negotiate_step(
    orig: MediaDescriptionV,
    m: MediaDescriptionV,
    uf: Seq<u8>,
    pw: Seq<u8>,
) -> (MediaDescriptionV, bool) {
    if orig.media.media != m.media.media || m.media.proto != MediaProto::RtpAvp {
        (m, false)
    } else {
        let inter = fmt_intersect(m.media.fmt, orig.media.fmt);
        if inter.len() == 0 {
            (m, false)
        } else {
            let m1 = MediaDescriptionV {
                media: crate::sdp::MediaV {
                    media: m.media.media,
                    port: m.media.port,
                    proto: m.media.proto,
                    fmt: inter,
                },
                attrs: m.attrs,
            };
            let maps = spec_maps_for_fmts(orig.attrs, inter);
            if maps.len() == 0 {
                (m1, false)
            } else {
                (
                    MediaDescriptionV {
                        media: m1.media,
                        attrs: maps + spec_answer_attrs_base(m.attrs) + spec_credentials(uf, pw),
                    },
                    true,
                )
            }
        }
    }
}

/// Whether a format token appears in a format list, compared bytewise.
fn fmt_list_contains(list: &Vec<String>, tok: &String) -> (r: bool)
    ensures
        r == Seq::new(list@.len(), |i: int| str_bytes(list@[i]@)).contains(str_bytes(tok@)),
{
    let ghost lv = Seq::new(list@.len(), |i: int| str_bytes(list@[i]@));
    let mut i: usize = 0;
    while i < list.len()
        invariant
            0 <= i <= list@.len(),
            lv.len() == list@.len(),
            forall|j: int| 0 <= j < lv.len() ==> #[trigger] lv[j] == str_bytes(list@[j]@),
            forall|j: int| 0 <= j < i ==> #[trigger] lv[j] != str_bytes(tok@),
        decreases list@.len() - i,
    {
        if list[i].eq(tok) {
            proof {
                assert(lv =~~= Seq::new(list@.len(), |j: int| str_bytes(list@[j]@)));
                assert(lv[i as int] == str_bytes(tok@));
            }
            return true;
        }
        proof {
            // distinct character sequences encode to distinct bytes
            vstd::utf8::encode_utf8_decode_utf8(list@[i as int]@);
            vstd::utf8::encode_utf8_decode_utf8(tok@);
        }
        i = i + 1;
    }
    proof {
        if lv.contains(str_bytes(tok@)) {
            let j = choose|j: int| 0 <= j < lv.len() && lv[j] == str_bytes(tok@);
            assert(false);
        }
    }
    false
}

/// Tries to negotiate the answer block (in place) against one base block.
pub fn negotiate_media_stream(
    orig_media: &MediaDescription,
    offer_media: &mut MediaDescription,
    ufrag: &String,
    pwd: &String,
) -> (r: bool)
    ensures
        (final(offer_media)@, r) == spec_negotiate_step(
            orig_media@,
            old(offer_media)@,
            str_bytes(ufrag@),
            str_bytes(pwd@),
        ),
{
    let ghost m0 = offer_media@;
    let ghost ov = orig_media@;
    if !(orig_media.media.media == offer_media.media.media) {
        return false;
    }
    if !(offer_media.media.proto == MediaProto::RtpAvp) {
        return false;
    }
    // the shared formats, in offer order
    let mut inter: Vec<String> = Vec::new();
    let mut i: usize = 0;
    proof {
        assert(Seq::new(inter@.len(), |k: int| str_bytes(inter@[k]@)) =~~= fmt_intersect(
            m0.media.fmt.subrange(0, 0),
            ov.media.fmt,
        ));
    }
    while i < offer_media.media.fmt.len()
        invariant
            0 <= i <= offer_media.media.fmt@.len(),
            m0 == offer_media@,
            ov == orig_media@,
            m0.media.fmt.len() == offer_media.media.fmt@.len(),
            forall|j: int|
                0 <= j < m0.media.fmt.len() ==> #[trigger] m0.media.fmt[j] == str_bytes(
                    offer_media.media.fmt@[j]@,
                ),
            ov.media.fmt.len() == orig_media.media.fmt@.len(),
            forall|j: int|
                0 <= j < ov.media.fmt.len() ==> #[trigger] ov.media.fmt[j] == str_bytes(
                    orig_media.media.fmt@[j]@,
                ),
            Seq::new(inter@.len(), |k: int| str_bytes(inter@[k]@)) == fmt_intersect(
                m0.media.fmt.subrange(0, i as int),
                ov.media.fmt,
            ),
        decreases offer_media.media.fmt@.len() - i,
    {
        let ghost before = Seq::new(inter@.len(), |k: int| str_bytes(inter@[k]@));
        proof {
            let p1 = m0.media.fmt.subrange(0, i as int + 1);
            assert(p1.drop_last() =~= m0.media.fmt.subrange(0, i as int));
            assert(p1.last() == m0.media.fmt[i as int]);
            assert(ov.media.fmt =~~= Seq::new(
                orig_media.media.fmt@.len(),
                |j: int| str_bytes(orig_media.media.fmt@[j]@),
            ));
        }
        if fmt_list_contains(&orig_media.media.fmt, &offer_media.media.fmt[i]) {
            inter.push(offer_media.media.fmt[i].clone());
            proof {
                assert(Seq::new(inter@.len(), |k: int| str_bytes(inter@[k]@)) =~~= before.push(
                    m0.media.fmt[i as int],
                ));
            }
        } else {
            proof {
                assert(Seq::new(inter@.len(), |k: int| str_bytes(inter@[k]@)) =~~= before);
            }
        }
        i = i + 1;
    }
    proof {
        assert(m0.media.fmt.subrange(0, i as int) =~= m0.media.fmt);
    }
    let ghost interv = fmt_intersect(m0.media.fmt, ov.media.fmt);
    if inter.len() == 0 {
        proof {
            assert(offer_media@ =~~= m0);
        }
        return false;
    }
    // the base's codec maps for the surviving formats
    let mut new_attrs: Vec<Attr> = Vec::new();
    let mut k: usize = 0;
    proof {
        assert(Seq::new(new_attrs@.len(), |x: int| new_attrs@[x]@) =~~= spec_maps_for_fmts(
            ov.attrs,
            interv.subrange(0, 0),
        ));
    }
    while k < inter.len()
        invariant
            0 <= k <= inter@.len(),
            ov == orig_media@,
            interv.len() == inter@.len(),
            forall|j: int|
                0 <= j < interv.len() ==> #[trigger] interv[j] == str_bytes(inter@[j]@),
            ov.attrs.len() == orig_media.attrs@.len(),
            forall|j: int|
                0 <= j < ov.attrs.len() ==> #[trigger] ov.attrs[j] == orig_media.attrs@[j]@,
            Seq::new(new_attrs@.len(), |x: int| new_attrs@[x]@) == spec_maps_for_fmts(
                ov.attrs,
                interv.subrange(0, k as int),
            ),
        decreases inter@.len() - k,
    {
        let fv = parse_u32(string_to_bytes(&inter[k]).as_slice());
        let mut j: usize = 0;
        let ghost outer_before = Seq::new(new_attrs@.len(), |x: int| new_attrs@[x]@);
        while j < orig_media.attrs.len()
            invariant
                0 <= j <= orig_media.attrs@.len(),
                0 <= k < interv.len(),
                ov == orig_media@,
                interv[k as int] == str_bytes(inter@[k as int]@),
                ov.attrs.len() == orig_media.attrs@.len(),
                forall|x: int|
                    0 <= x < ov.attrs.len() ==> #[trigger] ov.attrs[x] == orig_media.attrs@[x]@,
                fv == (if is_dec(interv[k as int], u32::MAX as nat) {
                    Some(dec_val(interv[k as int]) as u32)
                } else {
                    None::<u32>
                }),
                Seq::new(new_attrs@.len(), |x: int| new_attrs@[x]@) == outer_before
                    + spec_maps_for_fmt(ov.attrs.subrange(0, j as int), interv[k as int]),
            decreases orig_media.attrs@.len() - j,
        {
            let ghost before = Seq::new(new_attrs@.len(), |x: int| new_attrs@[x]@);
            proof {
                let p1 = ov.attrs.subrange(0, j as int + 1);
                assert(p1.drop_last() =~= ov.attrs.subrange(0, j as int));
                assert(p1.last() == ov.attrs[j as int]);
            }
            match &orig_media.attrs[j] {
                Attr::RtpMap(r) => {
                    let matched = match fv {
                        Some(v) => v == r.payload_type,
                        None => false,
                    };
                    if matched {
                        new_attrs.push(
                            Attr::RtpMap(
                                RtpMapValue {
                                    payload_type: r.payload_type,
                                    encoding_name: r.encoding_name.clone(),
                                    clock_rate: r.clock_rate,
                                    encoding_params: r.encoding_params,
                                },
                            ),
                        );
                        proof {
                            assert(Seq::new(new_attrs@.len(), |x: int| new_attrs@[x]@)
                                =~~= before.push(ov.attrs[j as int]));
                        }
                    } else {
                        proof {
                            assert(Seq::new(new_attrs@.len(), |x: int| new_attrs@[x]@)
                                =~~= before);
                        }
                    }
                },
                _ => {
                    proof {
                        assert(Seq::new(new_attrs@.len(), |x: int| new_attrs@[x]@) =~~= before);
                    }
                },
            }
            j = j + 1;
        }
        proof {
            assert(ov.attrs.subrange(0, j as int) =~= ov.attrs);
            let p1 = interv.subrange(0, k as int + 1);
            assert(p1.drop_last() =~= interv.subrange(0, k as int));
            assert(p1.last() == interv[k as int]);
        }
        k = k + 1;
    }
    proof {
        assert(interv.subrange(0, k as int) =~= interv);
    }
    offer_media.media.fmt = inter;
    proof {
        assert(offer_media@.media.fmt =~~= interv);
    }
    if new_attrs.len() == 0 {
        proof {
            assert(spec_maps_for_fmts(ov.attrs, interv).len() == 0);
            assert(offer_media@ =~~= spec_negotiate_step(
                ov,
                m0,
                str_bytes(ufrag@),
                str_bytes(pwd@),
            ).0);
        }
        return false;
    }
    // answers to the offered attributes follow the base's codec maps
    let ghost maps = Seq::new(new_attrs@.len(), |x: int| new_attrs@[x]@);
    let mut t: usize = 0;
    proof {
        assert(maps + spec_answer_attrs_base(m0.attrs.subrange(0, 0)) =~~= maps);
    }
    while t < offer_media.attrs.len()
        invariant
            0 <= t <= offer_media.attrs@.len(),
            m0.attrs.len() == offer_media.attrs@.len(),
            forall|j: int|
                0 <= j < m0.attrs.len() ==> #[trigger] m0.attrs[j] == offer_media.attrs@[j]@,
            Seq::new(new_attrs@.len(), |x: int| new_attrs@[x]@) == maps + spec_answer_attrs_base(
                m0.attrs.subrange(0, t as int),
            ),
        decreases offer_media.attrs@.len() - t,
    {
        proof {
            let p1 = m0.attrs.subrange(0, t as int + 1);
            assert(p1.drop_last() =~= m0.attrs.subrange(0, t as int));
            assert(p1.last() == m0.attrs[t as int]);
        }
        push_answer_attr(&mut new_attrs, &offer_media.attrs[t], false);
        t = t + 1;
    }
    proof {
        assert(m0.attrs.subrange(0, t as int) =~= m0.attrs);
    }
    push_credentials(&mut new_attrs, ufrag, pwd);
    offer_media.attrs = new_attrs;
    proof {
        assert(offer_media@.attrs =~~= maps + spec_answer_attrs_base(m0.attrs) + spec_credentials(
            str_bytes(ufrag@),
            str_bytes(pwd@),
        ));
        assert(offer_media@ =~~= spec_negotiate_step(
            ov,
            m0,
            str_bytes(ufrag@),
            str_bytes(pwd@),
        ).0);
    }
    true
}

// ---------------------------------------------------------------------------
// Whole-description negotiation

/// Trying the base blocks in order until one matches; a failed attempt may
/// already have cut the format list, and the next attempt starts from that.
pub open spec fn spec_try_bases(
    bases: Seq<MediaDescriptionV>,
    m: MediaDescriptionV,
    uf: Seq<u8>,
    pw: Seq<u8>,
) -> (MediaDescriptionV, bool)
    decreases bases.len(),
{
    if bases.len() == 0 {
        (m, false)
    } else {
        let (m1, ok) = spec_negotiate_step(bases[0], m, uf, pw);
        if ok {
            (m1, true)
        } else {
            spec_try_bases(bases.drop_first(), m1, uf, pw)
        }
    }
}

/// The answer block against a base: the matched negotiation, or the block
/// refused with port 0.
pub open spec fn spec_answer_media_base(
    bases: Seq<MediaDescriptionV>,
    m: MediaDescriptionV,
    uf: Seq<u8>,
    pw: Seq<u8>,
) -> MediaDescriptionV {
    let (m1, ok) = spec_try_bases(bases, m, uf, pw);
    if ok {
        m1
    } else {
        MediaDescriptionV {
            media: crate::sdp::MediaV {
                media: m1.media.media,
                port: 0,
                proto: m1.media.proto,
                fmt: m1.media.fmt,
            },
            attrs: m1.attrs,
        }
    }
}

/// The answer block built from scratch: attributes answered in place, the
/// credential pair appended, and the ICE placeholder port.
pub open spec fn spec_answer_media_full(
    m: MediaDescriptionV,
    uf: Seq<u8>,
    pw: Seq<u8>,
) -> MediaDescriptionV {
    MediaDescriptionV {
        media: crate::sdp::MediaV {
            media: m.media.media,
            port: 9,
            proto: m.media.proto,
            fmt: m.media.fmt,
        },
        attrs: spec_answer_attrs_full(m.attrs) + spec_credentials(uf, pw),
    }
}

/// The whole negotiated answer: the offer with each media block answered
/// (against the base's blocks when a base exists) and ice-lite appended to
/// the session attributes.
pub open spec fn spec_negotiated(
    base: Option<SessionDescriptionV>,
    offer: SessionDescriptionV,
    uf: Seq<u8>,
    pw: Seq<u8>,
) -> SessionDescriptionV {
    SessionDescriptionV {
        attrs: offer.attrs.push(AttrV::IceLite),
        media: match base {
            Some(b) => Seq::new(
                offer.media.len(),
                |i: int| spec_answer_media_base(b.media, offer.media[i], uf, pw),
            ),
            None => Seq::new(
                offer.media.len(),
                |i: int| spec_answer_media_full(offer.media[i], uf, pw),
            ),
        },
        ..offer
    }
}

/// Computes the answer to an offer, against the conference's base
/// description when one exists. Negotiation never fails: an unmatched media
/// block is answered with port 0, and the session gains an ice-lite
/// attribute.
pub fn negotiate_with(sdp_orig: Option<&SessionDescription>, sdp_offer: &SessionDescription) -> (r:
    SessionDescription)
    ensures
        r@.ver == sdp_offer@.ver,
        r@.origin == sdp_offer@.origin,
        r@.name == sdp_offer@.name,
        r@.info == sdp_offer@.info,
        r@.uri == sdp_offer@.uri,
        r@.conn == sdp_offer@.conn,
        r@.timing == sdp_offer@.timing,
        r@.attrs == sdp_offer@.attrs.push(AttrV::IceLite),
        match sdp_orig {
            Some(b) => exists|uf: Seq<u8>, pw: Seq<u8>|
                credential_bytes(uf) && credential_bytes(pw) && r@ == #[trigger] spec_negotiated(
                    Some(b@),
                    sdp_offer@,
                    uf,
                    pw,
                ),
            None => exists|uf: Seq<u8>, pw: Seq<u8>|
                credential_bytes(uf) && credential_bytes(pw) && r@ == #[trigger] spec_negotiated(
                    None,
                    sdp_offer@,
                    uf,
                    pw,
                ),
        },
{
    let (ufrag, pwd) = fresh_credentials();
    let ghost uf = str_bytes(ufrag@);
    let ghost pw = str_bytes(pwd@);
    let ghost offer = sdp_offer@;
    let mut answer = sdp_offer.deep_clone();
    let mut media: Vec<MediaDescription> = Vec::new();
    match sdp_orig {
        Some(base) => {
            let ghost bm = base@.media;
            let mut i: usize = 0;
            while i < sdp_offer.media.len()
                invariant
                    0 <= i <= sdp_offer.media@.len(),
                    offer == sdp_offer@,
                    uf == str_bytes(ufrag@),
                    pw == str_bytes(pwd@),
                    bm == base@.media,
                    offer.media.len() == sdp_offer.media@.len(),
                    forall|j: int|
                        0 <= j < offer.media.len() ==> #[trigger] offer.media[j]
                            == sdp_offer.media@[j]@,
                    media@.len() == i,
                    forall|j: int|
                        0 <= j < i ==> #[trigger] media@[j]@ == spec_answer_media_base(
                            bm,
                            offer.media[j],
                            uf,
                            pw,
                        ),
                decreases sdp_offer.media@.len() - i,
            {
                let mut md = sdp_offer.media[i].deep_clone();
                let mut ok = false;
                let mut j: usize = 0;
                proof {
                    assert(bm.skip(0) =~= bm);
                    assert(bm.len() == base.media@.len());
                }
                while j < base.media.len()
                    invariant
                        0 <= j <= base.media@.len(),
                        bm == base@.media,
                        bm.len() == base.media@.len(),
                        forall|x: int|
                            0 <= x < bm.len() ==> #[trigger] bm[x] == base.media@[x]@,
                        !ok ==> spec_try_bases(bm, offer.media[i as int], uf, pw)
                            == spec_try_bases(bm.skip(j as int), md@, uf, pw),
                        ok ==> spec_try_bases(bm, offer.media[i as int], uf, pw) == (md@, true),
                        uf == str_bytes(ufrag@),
                        pw == str_bytes(pwd@),
                        0 <= i < offer.media.len(),
                    decreases base.media@.len() - j,
                {
                    if !ok {
                        proof {
                            assert(bm.skip(j as int)[0] == bm[j as int]);
                            assert(bm.skip(j as int).drop_first() =~= bm.skip(j as int + 1));
                        }
                        let got = negotiate_media_stream(&base.media[j], &mut md, &ufrag, &pwd);
                        if got {
                            ok = true;
                        }
                    }
                    j = j + 1;
                }
                proof {
                    if !ok {
                        assert(bm.skip(j as int) =~= Seq::<MediaDescriptionV>::empty());
                        assert(spec_try_bases(bm, offer.media[i as int], uf, pw) == (md@, false));
                    }
                }
                if !ok {
                    md.media.port = 0;
                }
                proof {
                    assert(md@ =~~= spec_answer_media_base(bm, offer.media[i as int], uf, pw));
                }
                media.push(md);
                i = i + 1;
            }
        },
        None => {
            let mut i: usize = 0;
            while i < sdp_offer.media.len()
                invariant
                    0 <= i <= sdp_offer.media@.len(),
                    offer == sdp_offer@,
                    uf == str_bytes(ufrag@),
                    pw == str_bytes(pwd@),
                    offer.media.len() == sdp_offer.media@.len(),
                    forall|j: int|
                        0 <= j < offer.media.len() ==> #[trigger] offer.media[j]
                            == sdp_offer.media@[j]@,
                    media@.len() == i,
                    forall|j: int|
                        0 <= j < i ==> #[trigger] media@[j]@ == spec_answer_media_full(
                            offer.media[j],
                            uf,
                            pw,
                        ),
                decreases sdp_offer.media@.len() - i,
            {
                let mut md = sdp_offer.media[i].deep_clone();
                set_media_stream(&mut md, &ufrag, &pwd);
                proof {
                    assert(md@ =~~= spec_answer_media_full(offer.media[i as int], uf, pw));
                }
                media.push(md);
                i = i + 1;
            }
        },
    }
    answer.media = media;
    answer.attrs.push(Attr::IceLite);
    proof {
        assert(answer@.attrs =~~= offer.attrs.push(AttrV::IceLite));
        match sdp_orig {
            Some(b) => {
                assert(answer@.media =~~= Seq::new(
                    offer.media.len(),
                    |i: int| spec_answer_media_base(b@.media, offer.media[i], uf, pw),
                ));
            },
            None => {
                assert(answer@.media =~~= Seq::new(
                    offer.media.len(),
                    |i: int| spec_answer_media_full(offer.media[i], uf, pw),
                ));
            },
        }
        assert(answer@ =~~= spec_negotiated(
            match sdp_orig {
                Some(b) => Some(b@),
                None => None,
            },
            offer,
            uf,
            pw,
        ));
        assert(credential_bytes(uf) && credential_bytes(pw));
    }
    answer
}


// ---------------------------------------------------------------------------
// Laws of negotiation

proof fn lemma_directions_add(a: Seq<AttrV>, b: Seq<AttrV>)
    ensures
        directions(a + b) == directions(a) + directions(b),
    decreases b.len(),
{
    if b.len() == 0 {
        assert(a + b =~= a);
        assert(directions(b) =~= Seq::<AttrV>::empty());
        assert(directions(a) + directions(b) =~= directions(a));
    } else {
        lemma_directions_add(a, b.drop_last());
        assert((a + b).drop_last() =~= a + b.drop_last());
        assert((a + b).last() == b.last());
        if is_direction(b.last()) {
            assert(directions(a + b) =~= directions(a) + directions(b));
        } else {
            assert(directions(a + b) =~= directions(a) + directions(b));
        }
    }
}

/// The appended credential pair carries no direction attribute.
proof fn lemma_credentials_no_directions(uf: Seq<u8>, pw: Seq<u8>)
    ensures
        directions(spec_credentials(uf, pw)) == Seq::<AttrV>::empty(),
{
    let s = spec_credentials(uf, pw);
    assert(s.drop_last() =~= seq![AttrV::IceUfrag(uf)]);
    assert(s.drop_last().drop_last() =~= Seq::<AttrV>::empty());
    assert(directions(Seq::<AttrV>::empty()) == Seq::<AttrV>::empty());
    assert(directions(s.drop_last()) =~= Seq::<AttrV>::empty());
    assert(directions(s) =~= Seq::<AttrV>::empty());
}

/// The answer to one attribute holds exactly the inversion of its direction,
/// whichever answering table is used.
proof fn lemma_answer_attr_directions(a: AttrV)
    ensures
        directions(spec_answer_attr_full(a)) == directions(seq![a]).map_values(
            |x: AttrV| spec_invert_direction(x),
        ),
        directions(spec_answer_attr_base(a)) == directions(seq![a]).map_values(
            |x: AttrV| spec_invert_direction(x),
        ),
{
    let single = seq![a];
    assert(single.drop_last() =~= Seq::<AttrV>::empty());
    assert(directions(Seq::<AttrV>::empty()) == Seq::<AttrV>::empty());
    let f = spec_answer_attr_full(a);
    let g = spec_answer_attr_base(a);
    if is_direction(a) {
        assert(directions(single) =~= seq![a]);
        assert(f =~= seq![spec_invert_direction(a)]);
        assert(f.drop_last() =~= Seq::<AttrV>::empty());
        assert(directions(f) =~= seq![spec_invert_direction(a)]);
        assert(directions(single).map_values(|x: AttrV| spec_invert_direction(x))
            =~= seq![spec_invert_direction(a)]);
        assert(g == f);
    } else {
        assert(directions(single) =~= Seq::<AttrV>::empty());
        assert(directions(single).map_values(|x: AttrV| spec_invert_direction(x))
            =~= Seq::<AttrV>::empty());
        match a {
            AttrV::PTime(_) => {
                assert(f.drop_last() =~= Seq::<AttrV>::empty());
                assert(directions(f) =~= Seq::<AttrV>::empty());
                assert(directions(g) =~= Seq::<AttrV>::empty());
            },
            AttrV::IceUfrag(_) => {
                assert(directions(f) =~= Seq::<AttrV>::empty());
                assert(directions(g) =~= Seq::<AttrV>::empty());
            },
            AttrV::RtpMap(_) => {
                assert(f.drop_last() =~= Seq::<AttrV>::empty());
                assert(directions(f) =~= Seq::<AttrV>::empty());
                assert(directions(g) =~= Seq::<AttrV>::empty());
            },
            AttrV::FmtP(_) => {
                assert(f.drop_last() =~= Seq::<AttrV>::empty());
                assert(directions(f) =~= Seq::<AttrV>::empty());
                assert(directions(g) =~= Seq::<AttrV>::empty());
            },
            _ => {
                assert(directions(f) =~= Seq::<AttrV>::empty());
                assert(directions(g) =~= Seq::<AttrV>::empty());
            },
        }
    }
}

/// Direction inversion, attribute-list level: the answer's direction
/// attributes are exactly the offered ones, inverted, in order. A block with
/// no direction attribute yields one with none.
pub proof fn lemma_answer_attrs_invert_directions(attrs: Seq<AttrV>)
    ensures
        directions(spec_answer_attrs_full(attrs)) == directions(attrs).map_values(
            |x: AttrV| spec_invert_direction(x),
        ),
        directions(spec_answer_attrs_base(attrs)) == directions(attrs).map_values(
            |x: AttrV| spec_invert_direction(x),
        ),
    decreases attrs.len(),
{
    let inv = |x: AttrV| spec_invert_direction(x);
    if attrs.len() == 0 {
        assert(directions(attrs) =~= Seq::<AttrV>::empty());
        assert(directions(attrs).map_values(inv) =~= Seq::<AttrV>::empty());
    } else {
        let dl = attrs.drop_last();
        let a = attrs.last();
        lemma_answer_attrs_invert_directions(dl);
        lemma_answer_attr_directions(a);
        lemma_directions_add(spec_answer_attrs_full(dl), spec_answer_attr_full(a));
        lemma_directions_add(spec_answer_attrs_base(dl), spec_answer_attr_base(a));
        assert(seq![a].drop_last() =~= Seq::<AttrV>::empty());
        assert(directions(Seq::<AttrV>::empty()) == Seq::<AttrV>::empty());
        if is_direction(a) {
            assert(directions(seq![a]) =~= seq![a]);
            assert(directions(attrs) =~= directions(dl).push(a));
            assert(directions(attrs).map_values(inv) =~~= directions(dl).map_values(inv)
                + directions(seq![a]).map_values(inv));
        } else {
            assert(directions(seq![a]) =~= Seq::<AttrV>::empty());
            assert(directions(attrs) =~= directions(dl));
            assert(directions(attrs).map_values(inv) =~~= directions(dl).map_values(inv)
                + directions(seq![a]).map_values(inv));
        }
    }
}

/// Codec maps taken from the base carry no direction attribute.
proof fn lemma_maps_have_no_directions(base_attrs: Seq<AttrV>, fmts: Seq<Seq<u8>>)
    ensures
        directions(spec_maps_for_fmts(base_attrs, fmts)) == Seq::<AttrV>::empty(),
    decreases fmts.len(),
{
    if fmts.len() == 0 {
        assert(directions(spec_maps_for_fmts(base_attrs, fmts)) =~= Seq::<AttrV>::empty());
    } else {
        lemma_maps_have_no_directions(base_attrs, fmts.drop_last());
        lemma_maps_for_fmt_no_directions(base_attrs, fmts.last());
        lemma_directions_add(
            spec_maps_for_fmts(base_attrs, fmts.drop_last()),
            spec_maps_for_fmt(base_attrs, fmts.last()),
        );
        assert(directions(spec_maps_for_fmts(base_attrs, fmts)) =~= Seq::<AttrV>::empty());
    }
}

proof fn lemma_maps_for_fmt_no_directions(base_attrs: Seq<AttrV>, f: Seq<u8>)
    ensures
        directions(spec_maps_for_fmt(base_attrs, f)) == Seq::<AttrV>::empty(),
    decreases base_attrs.len(),
{
    if base_attrs.len() == 0 {
        assert(directions(spec_maps_for_fmt(base_attrs, f)) =~= Seq::<AttrV>::empty());
    } else {
        lemma_maps_for_fmt_no_directions(base_attrs.drop_last(), f);
        let m = spec_maps_for_fmt(base_attrs, f);
        let rest = spec_maps_for_fmt(base_attrs.drop_last(), f);
        if base_attrs.last() matches AttrV::RtpMap(r) && is_dec(f, u32::MAX as nat) && dec_val(f)
            == r.payload_type {
            assert(m == rest.push(base_attrs.last()));
            assert(m.drop_last() =~= rest);
            assert(!is_direction(base_attrs.last()));
            assert(directions(m) =~= Seq::<AttrV>::empty());
        } else {
            assert(directions(m) =~= Seq::<AttrV>::empty());
        }
    }
}

/// Direction inversion for an answer built from scratch: the answer block's
/// direction attributes are the offered block's, inverted, pairwise. An
/// absent direction stays absent; the appended credentials add none.
pub proof fn lemma_negotiation_inverts_directions_fresh(
    offer: SessionDescriptionV,
    i: int,
    uf: Seq<u8>,
    pw: Seq<u8>,
)
    requires
        0 <= i < offer.media.len(),
    ensures
        directions(spec_answer_media_full(offer.media[i], uf, pw).attrs) == directions(
            offer.media[i].attrs,
        ).map_values(|x: AttrV| spec_invert_direction(x)),
{
    lemma_answer_attrs_invert_directions(offer.media[i].attrs);
    lemma_credentials_no_directions(uf, pw);
    lemma_directions_add(spec_answer_attrs_full(offer.media[i].attrs), spec_credentials(uf, pw));
    assert(directions(spec_answer_media_full(offer.media[i], uf, pw).attrs) =~= directions(
        offer.media[i].attrs,
    ).map_values(|x: AttrV| spec_invert_direction(x)));
}

/// Direction inversion for an answer against a base, on every media block
/// the base matched (a refused block keeps its attributes untouched).
pub proof fn lemma_negotiation_inverts_directions_base(
    bases: Seq<MediaDescriptionV>,
    m: MediaDescriptionV,
    uf: Seq<u8>,
    pw: Seq<u8>,
)
    ensures
        spec_try_bases(bases, m, uf, pw).1 ==> directions(
            spec_try_bases(bases, m, uf, pw).0.attrs,
        ) == directions(m.attrs).map_values(|x: AttrV| spec_invert_direction(x)),
    decreases bases.len(),
{
    if bases.len() > 0 {
        let (m1, ok) = spec_negotiate_step(bases[0], m, uf, pw);
        if ok {
            let inter = fmt_intersect(m.media.fmt, bases[0].media.fmt);
            lemma_maps_have_no_directions(bases[0].attrs, inter);
            lemma_answer_attrs_invert_directions(m.attrs);
            lemma_credentials_no_directions(uf, pw);
            lemma_directions_add(
                spec_maps_for_fmts(bases[0].attrs, inter),
                spec_answer_attrs_base(m.attrs),
            );
            lemma_directions_add(
                spec_maps_for_fmts(bases[0].attrs, inter) + spec_answer_attrs_base(m.attrs),
                spec_credentials(uf, pw),
            );
            assert(directions(spec_try_bases(bases, m, uf, pw).0.attrs) =~= directions(
                m.attrs,
            ).map_values(|x: AttrV| spec_invert_direction(x)));
        } else {
            assert(m1.attrs == m.attrs);
            lemma_negotiation_inverts_directions_base(bases.drop_first(), m1, uf, pw);
        }
    }
}

/// One format list drawn from another: every format of `a` appears in `b`.
pub open spec fn fmt_subset_of(a: Seq<Seq<u8>>, b: Seq<Seq<u8>>) -> bool {
    forall|x: Seq<u8>| a.contains(x) ==> b.contains(x)
}

/// A negotiation step only narrows the format list.
proof fn lemma_step_fmt_subset(orig: MediaDescriptionV, m: MediaDescriptionV, uf: Seq<u8>, pw: Seq<u8>)
    ensures
        forall|x: Seq<u8>|
            spec_negotiate_step(orig, m, uf, pw).0.media.fmt.contains(x) ==> m.media.fmt.contains(
                x,
            ),
        spec_negotiate_step(orig, m, uf, pw).1 ==> forall|x: Seq<u8>|
            spec_negotiate_step(orig, m, uf, pw).0.media.fmt.contains(x)
                ==> orig.media.fmt.contains(x),
{
    lemma_fmt_intersect_subset(m.media.fmt, orig.media.fmt);
}

/// Codec restriction, offer side: every format in the answer block was
/// offered in that block.
pub proof fn lemma_codec_restriction_offer(
    bases: Seq<MediaDescriptionV>,
    m: MediaDescriptionV,
    uf: Seq<u8>,
    pw: Seq<u8>,
)
    ensures
        forall|x: Seq<u8>|
            spec_answer_media_base(bases, m, uf, pw).media.fmt.contains(x)
                ==> m.media.fmt.contains(x),
    decreases bases.len(),
{
    lemma_try_bases_fmt_subset(bases, m, uf, pw);
}

proof fn lemma_try_bases_fmt_subset(
    bases: Seq<MediaDescriptionV>,
    m: MediaDescriptionV,
    uf: Seq<u8>,
    pw: Seq<u8>,
)
    ensures
        forall|x: Seq<u8>|
            spec_try_bases(bases, m, uf, pw).0.media.fmt.contains(x) ==> m.media.fmt.contains(x),
    decreases bases.len(),
{
    if bases.len() > 0 {
        let (m1, ok) = spec_negotiate_step(bases[0], m, uf, pw);
        lemma_step_fmt_subset(bases[0], m, uf, pw);
        if !ok {
            lemma_try_bases_fmt_subset(bases.drop_first(), m1, uf, pw);
        }
    }
}

/// Codec restriction, base side: a matched answer block's formats all come
/// from the base block that matched it.
pub proof fn lemma_codec_restriction_base(
    bases: Seq<MediaDescriptionV>,
    m: MediaDescriptionV,
    uf: Seq<u8>,
    pw: Seq<u8>,
)
    ensures
        spec_try_bases(bases, m, uf, pw).1 ==> exists|j: int|
            0 <= j < bases.len() && #[trigger] fmt_subset_of(
                spec_try_bases(bases, m, uf, pw).0.media.fmt,
                bases[j].media.fmt,
            ),
    decreases bases.len(),
{
    if bases.len() > 0 {
        let (m1, ok) = spec_negotiate_step(bases[0], m, uf, pw);
        if ok {
            lemma_step_fmt_subset(bases[0], m, uf, pw);
            assert(fmt_subset_of(
                spec_try_bases(bases, m, uf, pw).0.media.fmt,
                bases[0].media.fmt,
            ));
        } else {
            lemma_codec_restriction_base(bases.drop_first(), m1, uf, pw);
            if spec_try_bases(bases.drop_first(), m1, uf, pw).1 {
                let j0 = choose|j: int|
                    0 <= j < bases.drop_first().len() && #[trigger] fmt_subset_of(
                        spec_try_bases(bases.drop_first(), m1, uf, pw).0.media.fmt,
                        bases.drop_first()[j].media.fmt,
                    );
                assert(bases[j0 + 1] == bases.drop_first()[j0]);
                assert(fmt_subset_of(
                    spec_try_bases(bases, m, uf, pw).0.media.fmt,
                    bases[j0 + 1].media.fmt,
                ));
            }
        }
    }
}


} // verus!
