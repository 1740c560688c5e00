//! The control surface's decisions: request and response values and the
//! handlers' logic, free of any transport. The HTTP server around them only
//! parses JSON, calls in, and sends what comes back.

use vstd::prelude::*;
use vstd::string::StringExecFns;
use crate::addr::IpAddr;
use crate::convo::{Conference, Conferences, spec_first_convo, spec_first_member};
use crate::ice::PortAllocator;
use crate::member::Member;
use crate::sdp::{SessionDescription, desc_ser_ready};
use crate::strings::str_bytes;
use crate::session::MediaBinding;

verus! {

pub struct ConferencePost {
    pub convo_id: String,
}

pub struct ConferenceResponse {
    pub convo_id: String,
}

pub struct MemberPost {
    pub sdp: String,
}

pub struct MemberResponse {
    pub member_id: String,
    pub sdp: String,
}

/// The HTTP server's state: the registry it serves.
pub struct HttpServer {
    pub convos: Conferences,
}

/// The TCP control server's state: the registry it serves.
pub struct Tcp {
    pub convos: Conferences,
}

/// Creates the conference (or finds it) and answers with its id.
pub fn post_conference(convos: &mut Conferences, req: &ConferencePost) -> (r: ConferenceResponse)
    ensures
        r.convo_id@ == req.convo_id@,
        exists|i: int|
            0 <= i < final(convos).convos@.len() && (#[trigger] final(convos).convos@[i]).id@
                == req.convo_id@,
{
    let ix = convos.new_convo(req.convo_id.as_str());
    proof {
        assert((#[trigger] final(convos).convos@[ix as int]).id@ == req.convo_id@);
    }
    ConferenceResponse { convo_id: req.convo_id.clone() }
}

/// Answers with the conference id when it exists; `None` is the 404 case.
pub fn get_conference(convos: &Conferences, convoid: &str) -> (r: Option<ConferenceResponse>)
    ensures
        match r {
            Some(resp) => resp.convo_id@ == convoid@ && exists|i: int|
                0 <= i < convos.convos@.len() && (#[trigger] convos.convos@[i]).id@ == convoid@,
            None => forall|i: int|
                0 <= i < convos.convos@.len() ==> (#[trigger] convos.convos@[i]).id@ != convoid@,
        },
{
    match convos.get_convo(convoid) {
        Some(i) => {
            proof {
                assert((#[trigger] convos.convos@[i as int]).id@ == convoid@);
            }
            Some(ConferenceResponse { convo_id: convoid.to_owned() })
        },
        None => None,
    }
}

/// Admits a member into an existing conference: parses the offered SDP,
/// negotiates, and answers with the member id and the answer SDP. `None` is
/// the 404 case (no such conference) or an answer that cannot be put on the
/// wire. The bindings tell the caller which media sockets to open.
pub fn post_member(
    convos: &mut Conferences,
    convoid: &str,
    req: &MemberPost,
    local_addr: Option<&IpAddr>,
    ports: &mut PortAllocator,
) -> (r: Option<(MemberResponse, Vec<MediaBinding>)>)
    requires
        forall|i: int|
            0 <= i < old(convos).convos@.len() ==> crate::convo::members_wf(
                (#[trigger] old(convos).convos@[i]).members@,
            ),
    ensures
        spec_first_convo(old(convos).convos@, convoid@) is None ==> r is None
            && final(convos).convos == old(convos).convos,
        final(convos).convos@.len() == old(convos).convos@.len(),
        spec_first_convo(old(convos).convos@, convoid@) matches Some(ci) ==> {
            let members = final(convos).convos@[ci].members@;
            &&& final(convos).convos@[ci].id@ == convoid@
            &&& members.len() == old(convos).convos@[ci].members@.len() + 1
            &&& members[members.len() - 1].session.answer_sdp is Some
            &&& (r is Some <==> crate::sdp::ser_ready_desc(
                members[members.len() - 1].session.answer_sdp->0@,
            ))
            &&& (r matches Some(p) ==> p.0.member_id@ == members[members.len() - 1].id@
                && p.0.member_id@.len() == 36 && str_bytes(p.0.sdp@) == crate::sdp::spec_ser_desc(
                members[members.len() - 1].session.answer_sdp->0@,
            ))
        },
{
    let found = convos.get_convo(convoid);
    if found.is_none() {
        return None;
    }
    let ci = found.unwrap();
    let parsed = SessionDescription::new().from_sdp(req.sdp.as_str());
    let member = Member::new(parsed.desc);
    let member_id = member.id.clone();
    let mut convo = convos.convos.remove(ci);
    let (answer, bindings) = convo.add_member(member, local_addr, ports);
    convos.convos.insert(ci, convo);
    let answer = answer.unwrap();
    if !desc_ser_ready(&answer) {
        return None;
    }
    let sdp_text = answer.to_string();
    Some((MemberResponse { member_id, sdp: sdp_text }, bindings))
}

/// Answers with a member's id and its offered SDP; `None` when the
/// conference or the member is missing, or the stored SDP cannot be put on
/// the wire.
pub fn get_conference_member(convos: &Conferences, convoid: &str, memberid: &str) -> (r: Option<
    MemberResponse,
>)
    ensures
        match spec_first_convo(convos.convos@, convoid@) {
            None => r is None,
            Some(ci) => match spec_first_member(convos.convos@[ci].members@, memberid@) {
                None => r is None,
                Some(mi) => {
                    let m = convos.convos@[ci].members@[mi];
                    if crate::sdp::ser_ready_desc(m.sdp@) {
                        r matches Some(resp) && resp.member_id@ == memberid@ && str_bytes(
                            resp.sdp@,
                        ) == crate::sdp::spec_ser_desc(m.sdp@)
                    } else {
                        r is None
                    }
                },
            },
        },
{
    let found = convos.get_convo(convoid);
    if found.is_none() {
        return None;
    }
    let ci = found.unwrap();
    let convo = &convos.convos[ci];
    let mi = convo.get_member(memberid);
    if mi.is_none() {
        return None;
    }
    let member = &convo.members[mi.unwrap()];
    if !desc_ser_ready(&member.sdp) {
        return None;
    }
    Some(MemberResponse { member_id: memberid.to_owned(), sdp: member.sdp.to_string() })
}

/// The CORS headers the control surface answers preflight requests with.
pub fn enable_cors() -> (r: Vec<(String, String)>)
    ensures
        r@.len() == 3,
        r@[0].0@ == "Access-Control-Allow-Headers"@,
        r@[0].1@ == "content-type"@,
        r@[1].0@ == "Access-Control-Allow-Methods"@,
        r@[1].1@ == "POST, OPTIONS"@,
        r@[2].0@ == "Access-Control-Allow-Origin"@,
        r@[2].1@ == "*"@,
{
    let mut r: Vec<(String, String)> = Vec::new();
    r.push(
        (String::from_str("Access-Control-Allow-Headers"), String::from_str("content-type")),
    );
    r.push((String::from_str("Access-Control-Allow-Methods"), String::from_str("POST, OPTIONS")));
    r.push((String::from_str("Access-Control-Allow-Origin"), String::from_str("*")));
    r
}

} // verus!
