use convobridge::ice::{
    Agent, Candidate, CandidateType, PortAllocator, Proto, candidate_priority, RTP_COMPONENT_ID,
    RTCP_COMPONENT_ID,
};
use convobridge::addr::IpAddr;
use convobridge::sdp::SessionDescription;
use convobridge::session::Session;
use convobridge::addr::{parse_ip, ser_ip};

#[test]
fn host_priority_formula() {
    // priority(host, c) = 2^24·126 + 2^8·65535 + (256 − c)
    assert_eq!(candidate_priority(1), (1u32 << 24) * 126 + (1 << 8) * 65535 + 255);
    assert_eq!(candidate_priority(1), 2130706431);
    assert_eq!(candidate_priority(2), 2130706430);
}

fn remote(component: u16, port: u16) -> Candidate {
    Candidate {
        conn: IpAddr::V4(10, 0, 0, 7),
        port,
        proto: Proto::Udp,
        foundation: "f1".to_string(),
        component_id: Some(component),
        priority: 1,
        candidate_type: CandidateType::Host,
        rel_addr: None,
        rel_port: None,
    }
}

#[test]
fn gathering_counts_ports_upward() {
    // one interface 10.0.0.5 and the counter at its base: stream S gets
    // ports 6000 and 6001; the next stream gets 6002
    let addr = IpAddr::V4(10, 0, 0, 5);
    let mut ports = PortAllocator::new();
    let mut agent = Agent::new();
    let s1 = agent.add_stream();
    agent.gather_candidates(&s1, RTP_COMPONENT_ID, Some(&addr), &mut ports);
    agent.gather_candidates(&s1, RTCP_COMPONENT_ID, Some(&addr), &mut ports);
    let rtp = agent.get_stream_candidates(&s1, RTP_COMPONENT_ID).unwrap();
    let rtcp = agent.get_stream_candidates(&s1, RTCP_COMPONENT_ID).unwrap();
    assert_eq!(rtp.len(), 1);
    assert_eq!(rtp[0].port, 6000);
    assert_eq!(rtp[0].conn, IpAddr::V4(10, 0, 0, 5));
    assert_eq!(rtp[0].component_id, Some(1));
    assert_eq!(rtp[0].priority, 2130706431);
    assert_eq!(rtcp[0].port, 6001);
    let s2 = agent.add_stream();
    agent.gather_candidates(&s2, RTP_COMPONENT_ID, Some(&addr), &mut ports);
    let rtp2 = agent.get_stream_candidates(&s2, RTP_COMPONENT_ID).unwrap();
    assert_eq!(rtp2[0].port, 6002);
}

#[test]
fn gathering_without_interface_is_a_no_op() {
    let mut ports = PortAllocator::new();
    let mut agent = Agent::new();
    let s = agent.add_stream();
    agent.gather_candidates(&s, RTP_COMPONENT_ID, None, &mut ports);
    // a known stream with nothing gathered yields no candidate list
    assert!(agent.get_stream_candidates(&s, RTP_COMPONENT_ID).is_none());
    assert!(agent.get_stream_candidates("unknown", RTP_COMPONENT_ID).is_none());
    assert_eq!(ports.next_port, 6000);
}

#[test]
fn completion_needs_both_components_and_fires_once_per_component() {
    let addr = IpAddr::V4(10, 0, 0, 5);
    let mut ports = PortAllocator::new();
    let mut agent = Agent::new();
    let s = agent.add_stream();
    agent.gather_candidates(&s, RTP_COMPONENT_ID, Some(&addr), &mut ports);
    agent.gather_candidates(&s, RTCP_COMPONENT_ID, Some(&addr), &mut ports);
    agent.add_offer_candidate(&s, 1, remote(1, 7000));
    agent.add_offer_candidate(&s, 2, remote(2, 7001));
    // only component 1 paired: no event yet
    let ev1 = agent.add_pair_candidate(&s, 1, 6000, 7000);
    assert_eq!(ev1.len(), 0);
    // pairing component 2 completes the stream: one event per component
    let ev2 = agent.add_pair_candidate(&s, 2, 6001, 7001);
    assert_eq!(ev2.len(), 2);
    assert_eq!(ev2[0].stream_id, s);
    assert_eq!(ev2[0].remote.port, 7000);
    assert_eq!(ev2[1].remote.port, 7001);
    // a completed stream accepts no further pairings
    let ev3 = agent.add_pair_candidate(&s, 1, 6000, 7000);
    assert_eq!(ev3.len(), 0);
    agent.set_ice_complete();
}

#[test]
fn unknown_ports_pair_nothing() {
    let addr = IpAddr::V4(10, 0, 0, 5);
    let mut ports = PortAllocator::new();
    let mut agent = Agent::new();
    let s = agent.add_stream();
    agent.gather_candidates(&s, RTP_COMPONENT_ID, Some(&addr), &mut ports);
    agent.add_offer_candidate(&s, 1, remote(1, 7000));
    // wrong remote port: no pairing
    assert_eq!(agent.add_pair_candidate(&s, 1, 6000, 9999).len(), 0);
    // unknown stream id: nothing happens
    assert_eq!(agent.add_pair_candidate("nosuch", 1, 6000, 7000).len(), 0);
}

#[test]
fn streams_follow_media_line_order() {
    let offer = SessionDescription::new().from_sdp(
        "v=0\no=x 1 2 IN IP4 10.0.0.1\ns=-\nc=IN IP4 10.0.0.1\nt=0 0\nm=audio 5000 RTP/AVP 0\na=sendrecv\nm=video 5002 RTP/AVP 31\na=recvonly",
    ).desc;
    let mut session = Session::new(offer);
    let addr = IpAddr::V4(10, 0, 0, 5);
    let mut ports = PortAllocator::new();
    session.process_offer(Some(&addr), &mut ports);
    assert_eq!(session.sdp_to_ice.len(), 2);
    // the first media line's stream was gathered first: ports 6000/6001
    let first = session.ice.get_stream_candidates(&session.sdp_to_ice[0].clone(), 1).unwrap();
    assert_eq!(first[0].port, 6000);
    let second = session.ice.get_stream_candidates(&session.sdp_to_ice[1].clone(), 1).unwrap();
    assert_eq!(second[0].port, 6002);
    session.negotiate_with_base_sdp(None);
    let bindings = session.process_answer();
    assert_eq!(bindings.len(), 2);
    assert_eq!(bindings[0].stream_id, session.sdp_to_ice[0]);
    assert_eq!(bindings[0].rtp.port, 6000);
    assert_eq!(bindings[0].rtcp.port, 6001);
    assert_eq!(bindings[1].rtp.port, 6002);
    // the answer's media lines carry their own stream's candidates, in order
    let answer = session.answer_sdp.as_ref().unwrap();
    let cand_ports = |attrs: &[convobridge::sdp::Attr]| -> Vec<u16> {
        attrs.iter().filter_map(|a| match a {
            convobridge::sdp::Attr::Candidate(c) => Some(c.ice_candidate.port),
            _ => None,
        }).collect()
    };
    assert_eq!(cand_ports(&answer.media[0].attrs), vec![6000, 6001]);
    assert_eq!(cand_ports(&answer.media[1].attrs), vec![6002, 6003]);
}

#[test]
fn ip_text_forms_round_trip() {
    let v4 = parse_ip(b"192.168.1.9").unwrap();
    assert_eq!(v4, IpAddr::V4(192, 168, 1, 9));
    assert_eq!(ser_ip(&v4), b"192.168.1.9".to_vec());
    let v6 = parse_ip(b"fe80::1").unwrap();
    assert_eq!(ser_ip(&v6), b"fe80::1".to_vec());
    assert!(parse_ip(b"not an ip").is_none());
    assert!(parse_ip(b"300.1.1.1").is_none());
}
