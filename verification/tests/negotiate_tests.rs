use convobridge::sdp::{Attr, SessionDescription};
use convobridge::negotiate::negotiate_with;
use convobridge::convo::Conference;
use convobridge::member::Member;
use convobridge::ice::PortAllocator;

const OFFER: &str = "v=0\no=x 1 2 IN IP4 10.0.0.1\ns=-\nc=IN IP4 10.0.0.1\nt=0 0\nm=audio 5000 RTP/AVP 0\na=rtpmap:0 PCMU/8000\na=sendonly";

fn has_ufrag(attrs: &[Attr]) -> bool {
    attrs.iter().any(|a| matches!(a, Attr::IceUfrag(_)))
}

fn has_pwd(attrs: &[Attr]) -> bool {
    attrs.iter().any(|a| matches!(a, Attr::IcePwd(_)))
}

#[test]
fn fresh_answer_inverts_direction_and_adds_ice_and_credentials() {
    // scenario: an offer with no ice-ufrag still receives generated
    // credentials in its answer
    let offer = SessionDescription::new().from_sdp(OFFER).desc;
    let answer = negotiate_with(None, &offer);
    assert_eq!(answer.media.len(), 1);
    let m = &answer.media[0];
    assert_eq!(m.media.port, 9);
    assert_eq!(m.media.fmt, vec!["0".to_string()]);
    assert!(m.attrs.contains(&Attr::RecvOnly));
    assert!(!m.attrs.contains(&Attr::SendOnly));
    assert!(answer.attrs.contains(&Attr::IceLite));
    assert!(has_ufrag(&m.attrs));
    assert!(has_pwd(&m.attrs));
}

#[test]
fn fresh_credentials_differ_between_answers() {
    let offer = SessionDescription::new().from_sdp(OFFER).desc;
    let a1 = negotiate_with(None, &offer);
    let a2 = negotiate_with(None, &offer);
    let ufrag_of = |d: &SessionDescription| {
        d.media[0].attrs.iter().find_map(|a| match a {
            Attr::IceUfrag(u) => Some(u.value.clone()),
            _ => None,
        }).unwrap()
    };
    assert_ne!(ufrag_of(&a1), ufrag_of(&a2));
    assert_eq!(ufrag_of(&a1).len(), 36);
}

#[test]
fn direction_table_is_total() {
    for (dir, inverted) in [
        (Attr::SendOnly, Attr::RecvOnly),
        (Attr::RecvOnly, Attr::SendOnly),
        (Attr::SendRecv, Attr::SendRecv),
        (Attr::Inactive, Attr::Inactive),
    ] {
        let text = format!(
            "v=0\no=x 1 2 IN IP4 10.0.0.1\ns=-\nc=IN IP4 10.0.0.1\nt=0 0\nm=audio 5000 RTP/AVP 0\na={}\n",
            match dir {
                Attr::SendOnly => "sendonly",
                Attr::RecvOnly => "recvonly",
                Attr::SendRecv => "sendrecv",
                _ => "inactive",
            }
        );
        let offer = SessionDescription::new().from_sdp(&text).desc;
        let answer = negotiate_with(None, &offer);
        assert!(answer.media[0].attrs.contains(&inverted));
    }
}

#[test]
fn base_answer_restricts_codecs_to_intersection() {
    let base = SessionDescription::new().from_sdp(OFFER).desc;
    let offer_b = SessionDescription::new().from_sdp(
        "v=0\no=y 3 4 IN IP4 10.0.0.2\ns=-\nc=IN IP4 10.0.0.2\nt=0 0\nm=audio 6000 RTP/AVP 8 0\na=rtpmap:8 PCMA/8000\na=rtpmap:0 PCMU/8000\na=recvonly",
    ).desc;
    let answer = negotiate_with(Some(&base), &offer_b);
    assert_eq!(answer.media[0].media.fmt, vec!["0".to_string()]);
    assert!(answer.media[0].attrs.contains(&Attr::SendOnly));
    assert!(answer.attrs.contains(&Attr::IceLite));
    // the surviving codec map comes from the base
    assert!(answer.media[0].attrs.iter().any(|a| match a {
        Attr::RtpMap(r) => r.payload_type == 0 && r.encoding_name == "PCMU",
        _ => false,
    }));
}

#[test]
fn base_answer_rejects_unmatched_media_with_port_zero() {
    let base = SessionDescription::new().from_sdp(OFFER).desc;
    let offer_b = SessionDescription::new().from_sdp(
        "v=0\no=y 3 4 IN IP4 10.0.0.2\ns=-\nc=IN IP4 10.0.0.2\nt=0 0\nm=audio 6000 RTP/AVP 8\na=rtpmap:8 PCMA/8000\na=recvonly",
    ).desc;
    let answer = negotiate_with(Some(&base), &offer_b);
    assert_eq!(answer.media[0].media.port, 0);
}

#[test]
fn conference_base_is_set_exactly_once() {
    let offer = SessionDescription::new().from_sdp(OFFER).desc;
    let mut convo = Conference::new("room");
    let mut ports = PortAllocator::new();
    assert!(convo.sdp.is_none());
    let (first_answer, _) = convo.add_member(Member::new(offer.clone()), None, &mut ports);
    let base_after_first = convo.sdp.clone().unwrap();
    assert_eq!(base_after_first, first_answer.unwrap());
    convo.add_member(Member::new(offer), None, &mut ports);
    // the second member's answer does not replace the base
    assert_eq!(convo.sdp.clone().unwrap(), base_after_first);
    // the engine can be claimed exactly once
    assert!(convo.claim_engine());
    assert!(!convo.claim_engine());
}
