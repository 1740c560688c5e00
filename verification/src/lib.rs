//! A verified core for an audio conference bridge: an SDP codec and
//! offer/answer negotiator, an ICE-Lite agent, RTP packet handling, the
//! per-member audio pipeline bookkeeping, and the conference mixer.

pub mod addr;
pub mod member;
pub mod negotiate;
pub mod control;
pub mod convo;
pub mod ice;
pub mod rtp;
pub mod sdp;
pub mod sdp_laws;
pub mod session;
pub mod strings;
pub mod text;
