use gst_meet::config::{ConfigSettings, LogLevel, ServerConfig, Webrtc, XmppClient};
use gst_meet::e2ee::{OlmAdapter, E2EE};
use gst_meet::presence::{generate_username, join_room_presence, ParticipantPresence, Presence, PresenceLifecycle};
use gst_meet::server::parse_room;
use gst_meet::xep::XEP;

fn settings(debug: bool) -> ConfigSettings {
    ConfigSettings {
        debug,
        name: "recorder".to_string(),
        server: ServerConfig {
            ip: "127.0.0.1".to_string(),
            port: "3000".to_string(),
            start_pattern_trim: "/start/".to_string(),
        },
        xmpp_client: XmppClient {
            bot_jid: "bot@hidden.meet.jitsi".to_string(),
            bot_password: "SECRET-REDACTED".to_string(),
            domain_url: "127.0.0.1".to_string(),
            domain_port: 5222,
        },
        webrtc: Webrtc { stun_server: "stun://stun.l.google.com:19302".to_string(), bundle_policy: "max-bundle".to_string() },
    }
}

#[test]
fn log_level_follows_debug_flag() {
    assert_eq!(settings(true).log_level(), LogLevel::Debug);
    assert_eq!(settings(false).log_level(), LogLevel::Info);
    assert_eq!(LogLevel::Debug.as_str(), "debug");
    assert_eq!(LogLevel::Info.as_str(), "info");
}

#[test]
fn parse_room_reads_query() {
    assert_eq!(parse_room("/?room=standup"), "standup");
    assert_eq!(parse_room("/join?x=1&room=weekly&y=2"), "weekly");
    assert_eq!(parse_room("/?room="), "");
    assert_eq!(parse_room("/?room=a&room=b"), "a");
}

#[test]
fn parse_room_defaults_to_unknown() {
    assert_eq!(parse_room("/"), "unknown_room");
    assert_eq!(parse_room(""), "unknown_room");
    assert_eq!(parse_room("/?rom=x"), "unknown_room");
}

fn url_safe(c: char) -> bool {
    c.is_ascii_alphanumeric() || c == '_' || c == '-'
}

#[test]
fn username_is_nanoid_shaped() {
    let a = generate_username();
    let b = generate_username();
    assert_eq!(a.chars().count(), 21);
    assert!(a.chars().all(url_safe));
    assert_ne!(a, b);
}

#[test]
fn identity_keys_are_base64() {
    let adapter = OlmAdapter::new();
    let keys = adapter.get_id_keys();
    // the keys are this identity's own: asking again gives the same ones,
    // and another identity has others
    let again = adapter.get_id_keys();
    assert_eq!((&keys.curve25519, &keys.ed25519), (&again.curve25519, &again.ed25519));
    let other = OlmAdapter::new().get_id_keys();
    assert_ne!(keys.curve25519, other.curve25519);
    assert_eq!(keys.curve25519.len(), 43);
    assert_eq!(keys.ed25519.len(), 43);
    assert!(keys.curve25519.chars().all(|c| c.is_ascii_alphanumeric() || c == '+' || c == '/'));
    let _ = E2EE::new();
}

#[test]
fn join_room_presence_shape() {
    let p = join_room_presence("standup");
    assert_eq!(p.name.as_deref(), Some("presence"));
    let to = p.get_attribute("to").unwrap().clone();
    assert!(to.starts_with("standup@muc.meet.jitsi/"));
    let nick = &to["standup@muc.meet.jitsi/".len()..];
    assert_eq!(nick.len(), 10);
    assert!(nick.chars().all(url_safe));
    assert_eq!(p.children.len(), 1);
    let x = &p.children[0];
    assert_eq!(x.name.as_deref(), Some("x"));
    assert_eq!(x.get_attribute("xmlns").map(|s| s.as_str()), Some("http://jabber.org/protocol/muc"));
}

#[test]
fn join_recorder_presence_shape() {
    let (p, _presence): (_, Presence) = Presence::handle_join_recorder("weekly");
    let to = p.get_attribute("to").unwrap().clone();
    assert!(to.starts_with("weekly@muc.meet.jitsi/"));
    assert_eq!(to.len(), "weekly@muc.meet.jitsi/".len() + 10);
    let names: Vec<_> = p.children.iter().map(|c| c.name.clone().unwrap()).collect();
    assert_eq!(
        names,
        vec![
            "stats-id",
            "jitsi_participant_codecList",
            "jitsi_participant_e2ee.idKey.curve25519",
            "jitsi_participant_e2ee.idKey.ed25519",
            "x"
        ]
    );
    assert_eq!(p.children[1].get_text().as_deref(), Some("h264,vp8,vp9,av1"));
    assert_eq!(p.children[0].get_text().unwrap().len(), 21);
    assert_eq!(p.children[2].get_text().unwrap().len(), 43);
    assert_eq!(p.children[3].get_text().unwrap().len(), 43);
}

#[test]
fn xep_urns() {
    assert_eq!(XEP::BundleMedia.urn(), "urn:xmpp:jingle:apps:grouping:0");
    assert_eq!(XEP::Jingle.urn(), "urn:xmpp:jingle:1");
    assert_eq!(XEP::SctpDataChannel.urn(), "urn:xmpp:jingle:transports:dtls-sctp:1");
    assert_eq!(XEP::RtpMedia.urn(), "urn:xmpp:jingle:apps:rtp:1");
    assert_eq!(XEP::IceUdpTransport.urn(), "urn:xmpp:jingle:transports:ice-udp:1");
    assert_eq!(XEP::SourceAttributes.urn(), "urn:xmpp:jingle:apps:rtp:ssma:0");
}

fn presence_stanza(from: Option<&str>, kind: Option<&str>, kids: &[(&str, &str)]) -> gst_meet::xml::Element {
    let mut p = gst_meet::xml::Element::tag("presence");
    if let Some(f) = from {
        p.set_attribute("from", f);
    }
    if let Some(k) = kind {
        p.set_attribute("type", k);
    }
    for (n, t) in kids {
        let mut c = gst_meet::xml::Element::tag(n);
        c.add_child(gst_meet::xml::Element::text_node(t));
        p.add_child(c);
    }
    p
}

#[test]
fn presence_lifecycle() {
    let join = presence_stanza(
        Some("room1@muc.meet.jitsi/abc123"),
        None,
        &[("nick", "Ann"), ("videomuted", "false"), ("audiomuted", "true")],
    );
    match ParticipantPresence::from_presence(&join) {
        Some(PresenceLifecycle::ParticipantJoined(p)) => {
            assert_eq!(p.endpoint_id, "abc123");
            assert_eq!(p.from, "room1@muc.meet.jitsi/abc123");
            assert_eq!(p.display_name.as_deref(), Some("Ann"));
            assert!(!p.video_muted);
            assert!(p.audio_muted);
            // no report reads as muted
            assert!(p.screenshare_muted);
        }
        other => panic!("expected a join, got {other:?}"),
    }
    let left = presence_stanza(Some("room1@muc.meet.jitsi/abc123"), Some("unavailable"), &[]);
    assert!(matches!(ParticipantPresence::from_presence(&left), Some(PresenceLifecycle::ParticipantLeft(_))));
    let focus = presence_stanza(Some("room1@muc.meet.jitsi/focus"), Some("unavailable"), &[]);
    assert!(matches!(ParticipantPresence::from_presence(&focus), Some(PresenceLifecycle::MeetingTerminated(_))));
    let error = presence_stanza(Some("room1@muc.meet.jitsi/abc123"), Some("error"), &[]);
    assert!(ParticipantPresence::from_presence(&error).is_none());
    let anonymous = presence_stanza(None, None, &[]);
    assert!(ParticipantPresence::from_presence(&anonymous).is_none());
    let bare = presence_stanza(Some("nobody"), None, &[]);
    match ParticipantPresence::from_presence(&bare) {
        Some(PresenceLifecycle::ParticipantJoined(p)) => assert_eq!(p.endpoint_id, "nobody"),
        other => panic!("expected a join, got {other:?}"),
    }
}
