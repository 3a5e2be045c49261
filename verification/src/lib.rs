//! Verified core of a headless Jitsi Meet recorder: the Jingle/SDP
//! negotiation logic, per-participant media state, the meeting timeline and
//! the composition layout.

pub mod media;
pub mod text;
pub mod xep;
pub mod jingle_action;
pub mod participant;
pub mod timeline;
pub mod layout;
pub mod jingle;
pub mod xml;
pub mod jingle_media;
pub mod sdp_section;
pub mod offer;
pub mod json;
pub mod iq;
pub mod answer;
pub mod room;
pub mod render;
pub mod avatar;
pub mod renderer;
pub mod e2ee;
pub mod presence;
pub mod server;
pub mod config;
pub mod branch;
pub mod jingle_session;
