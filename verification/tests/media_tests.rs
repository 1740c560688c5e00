use convobridge::member::{MemberSession, FRAME_BYTES, READ_CAP, convert_i16_to_u8, convert_u8_to_i16};
use convobridge::rtp::{RtpHeader, RtpPkt, encode_rtp, decode_rtp};
use convobridge::convo::{sum_payload, zero_frame, Conference, Conferences};
use convobridge::sdp::SessionDescription;
use convobridge::member::Member;
use convobridge::ice::PortAllocator;
use convobridge::control::{post_conference, get_conference, enable_cors, ConferencePost};

fn template(seq: u16, ts: u32, ssrc: u32) -> RtpPkt {
    RtpPkt {
        header: RtpHeader {
            version: 2,
            padding: 0,
            ext: 0,
            cc: 0,
            marker: 0,
            payload_type: 96,
            seq_number: seq,
            timestamp: ts,
            ssrc,
            csrc: vec![],
        },
        payload: vec![1, 2, 3],
    }
}

#[test]
fn sequence_and_timestamp_continuity() {
    // template {seq=100, ts=1000}: three writes emit 101/102/103 and
    // 1960/2920/3880
    let mut ms = MemberSession::new();
    ms.note_inbound_packet(template(100, 1000, 77));
    let expected = [(101u16, 1960u32), (102, 2920), (103, 3880)];
    for (seq, ts) in expected {
        let pkt = ms.build_outbound_packet(vec![9, 9]).unwrap();
        assert_eq!(pkt.header.seq_number, seq);
        assert_eq!(pkt.header.timestamp, ts);
        assert_eq!(pkt.header.ssrc, 77);
        assert_eq!(pkt.header.payload_type, 96);
        assert_eq!(pkt.payload, vec![9, 9]);
    }
}

#[test]
fn no_template_no_packet() {
    let mut ms = MemberSession::new();
    assert!(ms.build_outbound_packet(vec![1]).is_none());
}

#[test]
fn counters_wrap_in_their_fields() {
    let mut ms = MemberSession::new();
    ms.note_inbound_packet(template(u16::MAX, u32::MAX - 100, 1));
    let p1 = ms.build_outbound_packet(vec![]).unwrap();
    assert_eq!(p1.header.seq_number, 0); // 65535 + 1 wraps
    assert_eq!(p1.header.timestamp, (u32::MAX as u64 - 100 + 960 - (1u64 << 32)) as u32);
}

#[test]
fn ring_never_exceeds_cap_plus_frame_and_drains_to_empty() {
    let mut ms = MemberSession::new();
    let frame = vec![7u8; FRAME_BYTES];
    for _ in 0..200 {
        ms.push_decoded_frame(&frame);
        assert!(ms.r_payload.len() <= READ_CAP + FRAME_BYTES);
    }
    // fill to exactly the cap plus one frame (51 frames)
    let mut ms = MemberSession::new();
    for _ in 0..(READ_CAP / FRAME_BYTES + 1) {
        ms.push_decoded_frame(&frame);
    }
    assert_eq!(ms.r_payload.len(), READ_CAP + FRAME_BYTES);
    let popped = ms.get_read_payload().unwrap();
    assert_eq!(popped.len(), FRAME_BYTES);
    assert_eq!(ms.r_payload.len(), 0);
}

#[test]
fn read_queue_is_fifo() {
    let mut ms = MemberSession::new();
    let mut a = vec![1u8; FRAME_BYTES];
    a[0] = 10;
    let mut b = vec![2u8; FRAME_BYTES];
    b[0] = 20;
    ms.push_decoded_frame(&a);
    ms.push_decoded_frame(&b);
    assert_eq!(ms.get_read_payload().unwrap()[0], 10);
    assert_eq!(ms.get_read_payload().unwrap()[0], 20);
    assert!(ms.get_read_payload().is_none());
}

#[test]
fn write_queue_frames_and_sample_conversion() {
    let mut ms = MemberSession::new();
    let mut bytes = vec![0u8; FRAME_BYTES];
    bytes[0] = 0x34; // sample 0 = 0x1234 little-endian
    bytes[1] = 0x12;
    bytes[2] = 0xff; // sample 1 = -1
    bytes[3] = 0xff;
    ms.set_write_payload(&bytes);
    assert!(ms.take_write_frame().is_none() == false);
}

#[test]
fn conversions_are_inverse() {
    let samples: Vec<i16> = vec![0, 1, -1, i16::MAX, i16::MIN, 12345, -12345];
    let mut bytes: Vec<u8> = Vec::new();
    convert_i16_to_u8(&samples, &mut bytes);
    assert_eq!(bytes.len(), 2 * samples.len());
    let mut back: Vec<i16> = vec![0; samples.len()];
    convert_u8_to_i16(&bytes, &mut back);
    assert_eq!(back, samples);
}

#[test]
fn rtp_wire_round_trip() {
    let pkt = RtpPkt {
        header: RtpHeader {
            version: 2,
            padding: 0,
            ext: 0,
            cc: 2,
            marker: 1,
            payload_type: 111,
            seq_number: 0xBEEF,
            timestamp: 0xDEADBEEF,
            ssrc: 0x01020304,
            csrc: vec![7, 0xFFFF_FFFF],
        },
        payload: vec![1, 2, 3, 4, 5],
    };
    let wire = encode_rtp(&pkt);
    assert_eq!(wire.len(), 12 + 8 + 5);
    assert_eq!(wire[0], 0x82);
    assert_eq!(wire[1], 0x80 | 111);
    let back = decode_rtp(&wire).unwrap();
    assert_eq!(back, pkt);
    assert!(decode_rtp(&wire[..5]).is_none());
}

#[test]
fn mixing_wraps_per_byte() {
    let a = vec![200u8, 0, 5];
    let b = vec![100u8, 0, 250];
    let s = sum_payload(&a, &b);
    assert_eq!(s, vec![44, 0, 255]);
    let z = zero_frame();
    assert_eq!(z.len(), FRAME_BYTES);
    assert!(z.iter().all(|&x| x == 0));
}

#[test]
fn silent_peer_writes_nothing() {
    // two members; neither has sent audio: an engine tick leaves every
    // write queue untouched (no self-echo, nothing invented)
    let offer = SessionDescription::new()
        .from_sdp("v=0\no=x 1 2 IN IP4 10.0.0.1\ns=-\nc=IN IP4 10.0.0.1\nt=0 0\nm=audio 5000 RTP/AVP 0\na=sendonly")
        .desc;
    let mut convo = Conference::new("quiet");
    let mut ports = PortAllocator::new();
    let a = Member::new(offer.clone());
    let b = Member::new(offer);
    convo.add_member(a, None, &mut ports);
    convo.add_member(b, None, &mut ports);
    convo.engine_tick();
    assert_eq!(convo.members.len(), 2);
    assert_eq!(convo.members[0].member_session.w_payload.len(), 0);
    assert_eq!(convo.members[1].member_session.w_payload.len(), 0);
}

#[test]
fn one_speaking_peer_is_heard_verbatim() {
    let offer = SessionDescription::new()
        .from_sdp("v=0\no=x 1 2 IN IP4 10.0.0.1\ns=-\nc=IN IP4 10.0.0.1\nt=0 0\nm=audio 5000 RTP/AVP 0\na=sendonly")
        .desc;
    let mut convo = Conference::new("talk");
    let mut ports = PortAllocator::new();
    convo.add_member(Member::new(offer.clone()), None, &mut ports);
    convo.add_member(Member::new(offer), None, &mut ports);
    let mut frame = vec![0u8; FRAME_BYTES];
    frame[0] = 42;
    convo.members[1].member_session.push_decoded_frame(&frame);
    convo.engine_tick();
    // member 0 hears member 1's frame unchanged; member 1 hears nothing
    assert_eq!(convo.members[0].member_session.w_payload, frame);
    assert_eq!(convo.members[1].member_session.w_payload.len(), 0);
}

#[test]
fn registry_is_idempotent() {
    let mut convos = Conferences::new();
    let r1 = post_conference(&mut convos, &ConferencePost { convo_id: "room".to_string() });
    let r2 = post_conference(&mut convos, &ConferencePost { convo_id: "room".to_string() });
    assert_eq!(r1.convo_id, "room");
    assert_eq!(r2.convo_id, "room");
    assert_eq!(convos.convos.len(), 1);
    assert!(get_conference(&convos, "room").is_some());
    assert!(get_conference(&convos, "absent").is_none());
    let headers = enable_cors();
    assert_eq!(headers.len(), 3);
    assert_eq!(headers[2].0, "Access-Control-Allow-Origin");
    assert_eq!(headers[2].1, "*");
}
