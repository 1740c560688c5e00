use convobridge::sdp::{Attr, MediaProto, MediaType, SessionDescription, NetType, AddrType};
use convobridge::text::parse_u64;
use convobridge::addr::IpAddr;

// The worked example: one audio media line with a codec map and a direction.
const OFFER: &str = "v=0\no=x 1 2 IN IP4 10.0.0.1\ns=-\nc=IN IP4 10.0.0.1\nt=0 0\nm=audio 5000 RTP/AVP 0\na=rtpmap:0 PCMU/8000\na=sendonly";

#[test]
fn parse_example_offer() {
    let res = SessionDescription::new().from_sdp(OFFER);
    assert_eq!(res.unparsed_lines.len(), 0);
    assert_eq!(res.ignored_lines.len(), 0);
    let d = &res.desc;
    assert_eq!(d.ver, Some(0));
    let o = d.origin.as_ref().unwrap();
    assert_eq!(o.username, "x");
    assert_eq!(o.session_id, "1");
    assert_eq!(o.session_version, 2);
    assert_eq!(o.net_type, NetType::IN);
    assert_eq!(o.addr_type, AddrType::IP4);
    assert_eq!(o.ip_address, IpAddr::V4(10, 0, 0, 1));
    assert_eq!(d.name.as_deref(), Some("-"));
    let c = d.conn.as_ref().unwrap();
    assert_eq!(c.ip_address, IpAddr::V4(10, 0, 0, 1));
    let t = d.timing.unwrap();
    assert_eq!((t.start_time, t.stop_time), (0, 0));
    assert_eq!(d.media.len(), 1);
    let m = &d.media[0];
    assert_eq!(m.media.media, MediaType::AUDIO);
    assert_eq!(m.media.port, 5000);
    assert_eq!(m.media.proto, MediaProto::RtpAvp);
    assert_eq!(m.media.fmt, vec!["0".to_string()]);
    assert_eq!(m.attrs.len(), 2);
    match &m.attrs[0] {
        Attr::RtpMap(r) => {
            assert_eq!(r.payload_type, 0);
            assert_eq!(r.encoding_name, "PCMU");
            assert_eq!(r.clock_rate, 8000);
            assert_eq!(r.encoding_params, None);
        },
        other => panic!("expected rtpmap, got {:?}", other),
    }
    assert_eq!(m.attrs[1], Attr::SendOnly);
}

#[test]
fn round_trip_parse_serialize_parse() {
    let first = SessionDescription::new().from_sdp(OFFER);
    let text = first.desc.to_string();
    let second = SessionDescription::new().from_sdp(&text);
    assert_eq!(second.desc, first.desc);
    assert_eq!(second.unparsed_lines.len(), 0);
    assert_eq!(second.ignored_lines.len(), 0);
}

#[test]
fn round_trip_with_candidate_and_ufrag() {
    let text = "v=0\no=a 7 8 IN IP4 192.168.1.9\ns=talk\nc=IN IP4 192.168.1.9\nt=0 0\na=ice-lite\nm=audio 4000 RTP/AVP 0 8\na=rtpmap:0 PCMU/8000\na=rtpmap:8 PCMA/8000\na=ptime:20\na=ice-ufrag:F7gI\na=ice-pwd:x9hYwwVa6SEhBhIXaC\na=candidate:deadbeef 1 udp 2130706431 192.168.1.9 6000 typ host\na=sendrecv\n";
    let first = SessionDescription::new().from_sdp(text);
    assert_eq!(first.unparsed_lines.len(), 0);
    let out = first.desc.to_string();
    let second = SessionDescription::new().from_sdp(&out);
    assert_eq!(second.desc, first.desc);
}

#[test]
fn malformed_known_line_is_unparsed() {
    let res = SessionDescription::new().from_sdp("v=zero\no=bad\nt=1\ns=ok");
    assert_eq!(res.desc.ver, None);
    assert_eq!(res.desc.origin, None);
    assert_eq!(res.desc.timing, None);
    assert_eq!(res.desc.name.as_deref(), Some("ok"));
    assert_eq!(res.unparsed_lines.len(), 3);
}

#[test]
fn unknown_type_is_ignored_and_no_equals_is_unparsed() {
    let res = SessionDescription::new().from_sdp("x=anything\nb=AS:64\njust text");
    assert_eq!(res.ignored_lines.len(), 2);
    assert_eq!(res.unparsed_lines.len(), 1);
    assert_eq!(res.unparsed_lines[0], b"just text".to_vec());
}

#[test]
fn session_attrs_before_media_media_attrs_after() {
    let res = SessionDescription::new().from_sdp(
        "v=0\na=ice-lite\nm=audio 9 RTP/AVP 0\na=sendonly\nm=video 10 RTP/AVP 31\na=recvonly",
    );
    assert_eq!(res.desc.attrs, vec![Attr::IceLite]);
    assert_eq!(res.desc.media.len(), 2);
    assert_eq!(res.desc.media[0].attrs, vec![Attr::SendOnly]);
    assert_eq!(res.desc.media[1].attrs, vec![Attr::RecvOnly]);
}

#[test]
fn connection_slash_forms() {
    let res = SessionDescription::new().from_sdp("c=IN IP4 224.2.17.12\nc=IN IP4 10.0.0.1/3/2");
    // the second form overwrites the first; non-multicast may carry ttl/addrs
    let c = res.desc.conn.as_ref().unwrap();
    assert_eq!(c.ip_address, IpAddr::V4(10, 0, 0, 1));
    assert_eq!((c.ttl, c.nr_addrs), (3, 2));
    // multicast with suffix is malformed
    let res2 = SessionDescription::new().from_sdp("c=IN IP4 224.2.17.12/127/3");
    assert!(res2.desc.conn.is_none());
    assert_eq!(res2.unparsed_lines.len(), 1);
}

#[test]
fn decimal_text_parses_exactly() {
    assert_eq!(parse_u64(b"18446744073709551615"), Some(u64::MAX));
    assert_eq!(parse_u64(b"18446744073709551616"), None);
    assert_eq!(parse_u64(b""), None);
    assert_eq!(parse_u64(b"12a"), None);
    assert_eq!(parse_u64(b"007"), Some(7));
}
