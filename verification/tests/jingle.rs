use gst_meet::jingle_session::{parse_session_initiate, sdp_jingle_session, transport_values, TransportAttr};
use gst_meet::iq::{CandidateInfo, Iq, JingleWork};
use gst_meet::jingle::parse_ice_candidate_string;
use gst_meet::jingle_action::JingleAction;
use gst_meet::jingle_media::JingleMedia;
use gst_meet::json::{at, get, JsonValue};
use gst_meet::xml::Element;

fn tag(name: &str, attrs: &[(&str, &str)], kids: Vec<Element>) -> Element {
    let mut e = Element::tag(name);
    for (k, v) in attrs {
        e.set_attribute(k, v);
    }
    for k in kids {
        e.add_child(k);
    }
    e
}

const FP: &str = "2F:2F:4D:3A:76:ED:0B:8E:49:7D:8D:EF:D4:9B:24:7A:05:2D:29:35:70:EF:4D:04:C0:B4:70:59:54:50:F9:36";

fn transport() -> Element {
    tag(
        "transport",
        &[("pwd", "63hgqlcb8dusq35vo1j1gpjes"), ("ufrag", "f12or1jkjcuh77")],
        vec![
            tag("rtcp-mux", &[], vec![]),
            tag(
                "fingerprint",
                &[("hash", "sha-256"), ("required", "false"), ("setup", "actpass")],
                vec![Element::text_node(FP)],
            ),
            tag(
                "candidate",
                &[
                    ("port", "10000"),
                    ("component", "1"),
                    ("ip", "172.18.0.4"),
                    ("priority", "2130706431"),
                    ("generation", "0"),
                    ("type", "host"),
                    ("foundation", "1"),
                    ("protocol", "udp"),
                ],
                vec![],
            ),
            tag(
                "candidate",
                &[
                    ("port", "10000"),
                    ("component", "1"),
                    ("ip", "5.31.242.40"),
                    ("priority", "1694498815"),
                    ("generation", "0"),
                    ("rel-port", "10000"),
                    ("rel-addr", "172.18.0.4"),
                    ("type", "srflx"),
                    ("foundation", "2"),
                    ("protocol", "udp"),
                ],
                vec![],
            ),
        ],
    )
}

fn audio_content() -> Element {
    let desc = tag(
        "description",
        &[("media", "audio")],
        vec![
            tag(
                "payload-type",
                &[("id", "111"), ("clockrate", "48000"), ("channels", "2"), ("name", "opus")],
                vec![
                    tag("parameter", &[("value", "10"), ("name", "minptime")], vec![]),
                    tag("parameter", &[("value", "1"), ("name", "useinbandfec")], vec![]),
                ],
            ),
            tag("payload-type", &[("id", "126"), ("clockrate", "8000"), ("name", "telephone-event")], vec![]),
            tag("rtp-hdrext", &[("id", "1"), ("uri", "urn:ietf:params:rtp-hdrext:ssrc-audio-level")], vec![]),
            tag("extmap-allow-mixed", &[], vec![]),
            tag("rtcp-mux", &[], vec![]),
            tag(
                "source",
                &[("ssrc", "4024075403"), ("name", "jvb-a0")],
                vec![
                    tag("ssrc-info", &[("owner", "jvb")], vec![]),
                    tag("parameter", &[("value", "mixedmslabel mixedlabelaudio0"), ("name", "msid")], vec![]),
                ],
            ),
        ],
    );
    tag("content", &[("name", "audio"), ("senders", "both"), ("creator", "initiator")], vec![desc, transport()])
}

fn video_content() -> Element {
    let fb = |t: &str, s: &str| {
        if s.is_empty() {
            tag("rtcp-fb", &[("type", t)], vec![])
        } else {
            tag("rtcp-fb", &[("type", t), ("subtype", s)], vec![])
        }
    };
    let desc = tag(
        "description",
        &[("media", "video")],
        vec![
            tag(
                "payload-type",
                &[("id", "100"), ("clockrate", "90000"), ("name", "VP8")],
                vec![fb("ccm", "fir"), fb("nack", ""), fb("nack", "pli")],
            ),
            tag("rtcp-mux", &[], vec![]),
            tag(
                "source",
                &[("ssrc", "913855601"), ("name", "jvb-v0")],
                vec![tag("parameter", &[("value", "mixedmslabel mixedlabelvideo0"), ("name", "msid")], vec![])],
            ),
        ],
    );
    tag("content", &[("name", "video"), ("senders", "both"), ("creator", "initiator")], vec![desc, transport()])
}

fn session_initiate() -> Element {
    let group = tag(
        "group",
        &[("semantics", "BUNDLE")],
        vec![tag("content", &[("name", "audio")], vec![]), tag("content", &[("name", "video")], vec![])],
    );
    tag(
        "jingle",
        &[
            ("initiator", "focus@auth.meet.jitsi/focus"),
            ("sid", "6lrpse6evqv2c"),
            ("action", "session-initiate"),
        ],
        vec![audio_content(), video_content(), group],
    )
}

#[test]
fn audio_content_to_sdp_section() {
    let mut media = JingleMedia::new();
    let sdp = media.parse_sdp_media(&audio_content());
    let expected = [
        "m=audio 9 UDP/TLS/RTP/SAVPF 111 126\r\n",
        "c=IN IP4 0.0.0.0\r\n",
        "a=rtcp:1 IN IP4 0.0.0.0\r\n",
        "a=ice-ufrag:f12or1jkjcuh77\r\n",
        "a=ice-pwd:63hgqlcb8dusq35vo1j1gpjes\r\n",
        "a=fingerprint:sha-256 2F:2F:4D:3A:76:ED:0B:8E:49:7D:8D:EF:D4:9B:24:7A:05:2D:29:35:70:EF:4D:04:C0:B4:70:59:54:50:F9:36\r\n",
        "a=setup:actpass\r\n",
        "a=candidate:1 1 udp 2130706431 172.18.0.4 10000 typ host generation 0\r\n",
        "a=candidate:2 1 udp 1694498815 5.31.242.40 10000 typ srflx raddr 172.18.0.4 rport 10000 generation 0\r\n",
        "a=sendrecv\r\n",
        "a=mid:audio\r\n",
        "a=rtcp-mux\r\n",
        "a=rtpmap:111 opus/48000/2\r\n",
        "a=fmtp:111 minptime=10;useinbandfec=1\r\n",
        "a=rtpmap:126 telephone-event/8000\r\n",
        "a=extmap:1 urn:ietf:params:rtp-hdrext:ssrc-audio-level\r\n",
        "a=extmap-allow-mixed\r\n",
        "a=ssrc:4024075403 msid:mixedmslabel mixedlabelaudio0\r\n",
    ]
    .concat();
    assert_eq!(sdp, expected);
    assert_eq!(media.media, "audio");
    assert_eq!(media.port, "9");
    assert_eq!(media.proto, "UDP/TLS/RTP/SAVPF");
    assert_eq!(media.fmt, vec!["111".to_string(), "126".to_string()]);
}

#[test]
fn video_content_feedback_lines() {
    let mut media = JingleMedia::new();
    let sdp = media.parse_sdp_media(&video_content());
    assert!(sdp.starts_with("m=video 9 UDP/TLS/RTP/SAVPF 100\r\n"));
    assert!(sdp.contains("a=rtpmap:100 VP8/90000\r\na=rtcp-fb:100 ccm fir\r\na=rtcp-fb:100 nack\r\na=rtcp-fb:100 nack pli\r\n"));
    // a two-word msid is kept as it is
    assert!(sdp.ends_with("a=ssrc:913855601 msid:mixedmslabel mixedlabelvideo0\r\n"));
}

#[test]
fn rejected_content_gets_port_zero() {
    let mut media = JingleMedia::new();
    let c = tag("content", &[("name", "video"), ("senders", "rejected")], vec![]);
    let sdp = media.parse_sdp_media(&c);
    assert_eq!(sdp, "m=video 0 UDP/TLS/RTP/SAVPF \r\nc=IN IP4 0.0.0.0\r\na=rtcp:1 IN IP4 0.0.0.0\r\na=mid:video\r\n");
}

#[test]
fn msid_adjustment() {
    let mut media = JingleMedia::new();
    media.media = "video".to_string();
    assert_eq!(media.adjust_msid_semantic("stream", "video"), "stream stream-video");
    assert_eq!(media.adjust_msid_semantic("stream track", "video"), "stream track");
    media.media = "audio".to_string();
    assert_eq!(media.adjust_msid_semantic("stream", "audio"), "stream");
}

#[test]
fn jingle_action_names() {
    let j = session_initiate();
    assert_eq!(JingleAction::parse("session-initiate", &j).unwrap().name(), "session-initiate");
    assert_eq!(JingleAction::parse("source-add", &j).unwrap().name(), "source-add");
    assert_eq!(JingleAction::parse("source-remove", &j).unwrap().name(), "source-remove");
    assert!(JingleAction::parse("session-terminate", &j).is_none());
}

#[test]
fn session_header_with_cryptex() {
    let j = session_initiate();
    let action = JingleAction::parse("session-initiate", &j).unwrap();
    assert_eq!(action.session_header_for(1700000000000, &j), "v=0\r\no=- 1700000000000 2 IN IP4 0.0.0.0\r\ns=-\r\nt=0 0\r\n");
    let mut fp = tag("fingerprint", &[("hash", "sha-256"), ("cryptex", "true")], vec![]);
    fp.add_child(Element::text_node("AA"));
    let c = tag("content", &[("name", "audio")], vec![tag("transport", &[], vec![fp])]);
    let j2 = tag("jingle", &[], vec![c]);
    assert_eq!(action.session_header_for(-5, &j2), "v=0\r\no=- -5 2 IN IP4 0.0.0.0\r\ns=-\r\nt=0 0\r\na=cryptex\r\n");
}

#[test]
fn session_initiate_makes_bundled_offer() {
    let j = session_initiate();
    let action = JingleAction::parse("session-initiate", &j).unwrap();
    let mut media = JingleMedia::new();
    let offer = action.handle_session_initiate(&j, &mut media);
    assert!(!offer.is_empty(), "offer: {offer}");
    assert!(offer.contains("a=group:BUNDLE 0 1"), "offer: {offer}");
    assert!(offer.contains("m=audio 9 UDP/TLS/RTP/SAVPF 111 126"));
    assert!(offer.contains("m=video 9 UDP/TLS/RTP/SAVPF 100"));
    assert!(offer.contains("a=mid:0"));
    assert!(offer.contains("a=mid:1"));
    assert!(offer.contains("a=msid-semantic:WMS mixedmslabel"), "offer: {offer}");
    assert!(offer.contains("a=ssrc:4024075403 msid:mixedmslabel mixedlabelaudio0"));
}

#[test]
fn unparsable_offer_is_empty() {
    let j = tag("jingle", &[("action", "session-initiate")], vec![tag("content", &[("name", "audio")], vec![])]);
    let action = JingleAction::parse("session-initiate", &j).unwrap();
    let mut media = JingleMedia::new();
    // an m-line without formats is refused by the SDP parser
    let offer = action.handle_session_initiate(&j, &mut media);
    assert_eq!(offer, "");
}

const SOURCES: &str = r#"{"sources":{"ep1":[[{"s":111,"n":"ep1-v0"},{"s":222,"n":"ep1-v0"}],[["f",111,222]],[{"s":333,"n":"ep1-a0"}]],"ep2":[[{"s":444,"n":"ep2-v1","v":"d"}],[],[]],"jvb":[[{"s":1,"n":"jvb-v0"}],[],[{"s":2,"n":"jvb-a0"}]]}}"#;

fn source_add() -> Element {
    tag(
        "jingle",
        &[("action", "source-add"), ("sid", "s")],
        vec![tag("json-message", &[], vec![Element::text_node(SOURCES)])],
    )
}

#[test]
fn source_add_skips_bridge_and_rtx() {
    let j = source_add();
    let action = JingleAction::parse("source-add", &j).unwrap();
    let sources = action.handle_source_add(&j);
    let got: Vec<(u32, String, String, Option<String>)> = sources
        .iter()
        .map(|s| (s.ssrc, s.endpoint_id.clone(), s.source_name.clone(), s.video_type.clone()))
        .collect();
    assert_eq!(
        got,
        vec![
            (111, "ep1".to_string(), "ep1-v0".to_string(), None),
            (333, "ep1".to_string(), "ep1-a0".to_string(), None),
            (444, "ep2".to_string(), "ep2-v1".to_string(), Some("d".to_string())),
        ]
    );
    assert_eq!(action.handle_source_remove(&j), "");
}

#[test]
fn source_add_without_message_or_json() {
    let j = tag("jingle", &[("action", "source-add")], vec![]);
    let action = JingleAction::parse("source-add", &j).unwrap();
    assert!(action.handle_source_add(&j).is_empty());
    let bad = tag("jingle", &[], vec![tag("json-message", &[], vec![Element::text_node("{not json")])]);
    assert!(action.handle_source_add(&bad).is_empty());
}

#[test]
fn json_lookups() {
    let v = JsonValue::Object(vec![
        ("a".to_string(), JsonValue::Number(Some(1))),
        ("b".to_string(), JsonValue::Array(vec![JsonValue::Str("x".to_string())])),
    ]);
    assert!(matches!(get(&v, "a"), Some(JsonValue::Number(Some(1)))));
    assert!(get(&v, "zz").is_none());
    let b = get(&v, "b").unwrap();
    assert!(matches!(at(b, 0), Some(JsonValue::Str(s)) if s == "x"));
    assert!(at(b, 1).is_none());
    assert!(at(&v, 0).is_none());
}

#[test]
fn ice_candidate_lines() {
    let c = parse_ice_candidate_string("candidate:1 1 UDP 2015363327 192.168.1.135 61078 typ host").unwrap();
    assert_eq!(c.foundation, "1");
    assert_eq!(c.component, 1);
    assert_eq!(c.protocol, "udp");
    assert_eq!(c.priority, 2015363327);
    assert_eq!(c.ip, "192.168.1.135");
    assert_eq!(c.port, 61078);
    assert_eq!(c.candidate_type, "host");
    assert_eq!(c.rel_addr, None);
    assert_eq!(c.rel_port, None);
    let c = parse_ice_candidate_string("2 1 udp 1677729535 5.1.2.3 5000 typ srflx raddr 10.0.0.2 rport 5001").unwrap();
    assert_eq!(c.candidate_type, "srflx");
    assert_eq!(c.rel_addr.as_deref(), Some("10.0.0.2"));
    assert_eq!(c.rel_port, Some(5001));
    assert!(parse_ice_candidate_string("candidate:1 1 UDP").is_none());
    assert!(parse_ice_candidate_string("1 x UDP 1 1.1.1.1 9 typ host").is_none());
    assert!(parse_ice_candidate_string("1 1 UDP 1 1.1.1.1 70000 typ host").is_none());
}

fn iq_of(jingle: Element, kind: &str) -> Element {
    tag(
        "iq",
        &[("id", "abc"), ("type", kind), ("from", "room1@muc.meet.jitsi/focus"), ("to", "rec@meet.jitsi/x")],
        vec![jingle],
    )
}

#[test]
fn iq_session_initiate_is_acked() {
    let stanza = iq_of(session_initiate(), "set");
    let mut iq = Iq::new(&stanza);
    assert_eq!(iq.room_name(), "room1");
    let reply = iq.handle_jingle(&stanza.children[0]).expect("handled");
    let ack = reply.ack;
    assert_eq!(ack.get_attribute("type").map(|s| s.as_str()), Some("result"));
    assert_eq!(ack.get_attribute("id").map(|s| s.as_str()), Some("abc"));
    assert_eq!(ack.get_attribute("to").map(|s| s.as_str()), Some("room1@muc.meet.jitsi/focus"));
    assert_eq!(ack.get_attribute("from").map(|s| s.as_str()), Some("rec@meet.jitsi/x"));
    match reply.work {
        JingleWork::SessionInitiate { sid, initiator, offer, sources } => {
            assert_eq!(sid, "6lrpse6evqv2c");
            assert_eq!(initiator, "focus@auth.meet.jitsi/focus");
            assert!(offer.contains("a=group:BUNDLE"));
            assert!(sources.is_empty());
        }
        _ => panic!("expected a session-initiate"),
    }
}

#[test]
fn iq_source_add_and_unknown_actions() {
    let stanza = iq_of(source_add(), "get");
    let mut iq = Iq::new(&stanza);
    let reply = iq.handle_jingle(&stanza.children[0]).unwrap();
    // a handled action is acked whatever the IQ type
    assert_eq!(reply.ack.get_attribute("type").map(|s| s.as_str()), Some("result"));
    assert_eq!(reply.ack.get_attribute("id").map(|s| s.as_str()), Some("abc"));
    match reply.work {
        JingleWork::SourceAdd { sources } => assert_eq!(sources.len(), 3),
        _ => panic!("expected a source-add"),
    }
    let other = iq_of(tag("jingle", &[("action", "transport-info")], vec![]), "set");
    let mut iq = Iq::new(&other);
    assert!(iq.handle_jingle(&other.children[0]).is_none());
    let removal = iq_of(tag("jingle", &[("action", "source-remove")], vec![]), "set");
    let mut iq = Iq::new(&removal);
    let reply = iq.handle_jingle(&removal.children[0]).unwrap();
    assert!(matches!(reply.work, JingleWork::SourceRemove));
    assert_eq!(reply.ack.name.as_deref(), Some("iq"));
}

#[test]
fn iq_disco_query_reply() {
    let query = tag("query", &[("xmlns", "http://jabber.org/protocol/disco#info")], vec![]);
    let stanza = tag("iq", &[("id", "q1"), ("type", "get"), ("from", "focus@x"), ("to", "me@x")], vec![query]);
    let iq = Iq::new(&stanza);
    let out = iq.handle_query(&stanza.children[0]);
    assert!(!out.is_empty());
    let reply = &out[0];
    assert_eq!(reply.get_attribute("type").map(|s| s.as_str()), Some("result"));
    assert_eq!(reply.get_attribute("id").map(|s| s.as_str()), Some("q1"));
    let q = &reply.children[0];
    assert_eq!(q.children.len(), 13);
    assert_eq!(q.children[1].get_attribute("var").map(|s| s.as_str()), Some("urn:xmpp:jingle:1"));
}

#[test]
fn candidate_elements() {
    let c = CandidateInfo {
        foundation: "1".to_string(),
        component: 1,
        transport: "UDP".to_string(),
        priority: 2015363327,
        address: "192.168.1.135".to_string(),
        port: 61078,
        kind: "host".to_string(),
        raddr: None,
        rport: None,
        generation: None,
    };
    let e = Iq::candidate_element(&c, "id1");
    assert_eq!(e.name.as_deref(), Some("candidate"));
    assert_eq!(e.get_attribute("ip").map(|s| s.as_str()), Some("192.168.1.135"));
    assert_eq!(e.get_attribute("port").map(|s| s.as_str()), Some("61078"));
    assert_eq!(e.get_attribute("priority").map(|s| s.as_str()), Some("2015363327"));
    assert_eq!(e.get_attribute("protocol").map(|s| s.as_str()), Some("udp"));
    assert_eq!(e.get_attribute("type").map(|s| s.as_str()), Some("host"));
    assert_eq!(e.get_attribute("id").map(|s| s.as_str()), Some("id1"));
    let r = Iq::parse_candidate(&c);
    assert_eq!(r.get_attribute("id").unwrap().len(), 21);
    assert_eq!(e.get_attribute("generation").map(|s| s.as_str()), Some("0"));
    assert_eq!(e.get_attribute("network").map(|s| s.as_str()), Some("1"));
    assert!(e.get_attribute("rel-addr").is_none());
}


#[test]
fn session_initiate_as_structure() {
    let s = parse_session_initiate(&session_initiate(), "rec@meet/x", "room@muc/focus").unwrap();
    assert_eq!(s.sid, "6lrpse6evqv2c");
    assert_eq!(s.initiator, "focus@auth.meet.jitsi/focus");
    assert_eq!(s.action, "session-initiate");
    assert_eq!(s.to, "rec@meet/x");
    assert_eq!(s.bundle, vec!["audio".to_string(), "video".to_string()]);
    assert_eq!(s.contents.len(), 2);
    let a = &s.contents[0];
    assert_eq!(a.name, "audio");
    assert_eq!(a.description.media, "audio");
    assert!(a.description.rtcp_mux);
    let ids: Vec<(u8, &str, u32, Option<u32>)> =
        a.description.payloads.iter().map(|p| (p.id, p.name.as_str(), p.clockrate, p.channels)).collect();
    assert_eq!(ids, vec![(111, "opus", 48000, Some(2)), (126, "telephone-event", 8000, None)]);
    assert_eq!(a.description.ssrcs, vec![(4024075403, "jvb-a0".to_string())]);
    assert_eq!(a.transport.ufrag, "f12or1jkjcuh77");
    assert_eq!(a.transport.fingerprint.hash_algo, "sha-256");
    assert_eq!(a.transport.fingerprint.setup, "actpass");
    assert_eq!(a.transport.fingerprint.fingerprint, FP);
    assert!(a.transport.rtcp_mux);
    let c = &a.transport.candidates[1];
    assert_eq!((c.port, c.priority, c.candidate_type.as_str()), (10000, 1694498815, "srflx"));
    assert_eq!(c.rel_addr.as_deref(), Some("172.18.0.4"));
    assert_eq!(c.rel_port, Some(10000));
}

#[test]
fn session_initiate_defaults_and_skips() {
    let no_creds = tag(
        "content",
        &[("name", "x")],
        vec![tag("description", &[], vec![]), tag("transport", &[("ufrag", "u")], vec![])],
    );
    let bare = tag(
        "content",
        &[("name", "y")],
        vec![
            tag("description", &[], vec![tag("payload-type", &[("id", "300")], vec![])]),
            tag("transport", &[("ufrag", "u"), ("pwd", "p")], vec![tag("candidate", &[], vec![])]),
        ],
    );
    let j = tag("jingle", &[], vec![no_creds, bare]);
    let s = parse_session_initiate(&j, "", "").unwrap();
    assert_eq!(s.sid, "");
    assert_eq!(s.contents.len(), 1);
    let y = &s.contents[0];
    assert_eq!(y.description.media, "audio");
    assert_eq!(y.description.payloads[0].id, 0);
    assert_eq!(y.description.payloads[0].clockrate, 90000);
    assert_eq!(y.transport.fingerprint.setup, "active");
    let c = &y.transport.candidates[0];
    assert_eq!((c.component, c.protocol.as_str(), c.port, c.candidate_type.as_str()), (1, "udp", 0, "host"));
}

#[test]
fn accept_session_from_answer() {
    let offer = parse_session_initiate(&session_initiate(), "rec@meet/x", "room@muc/focus").unwrap();
    let answer = [
        "v=0",
        "o=- 1 2 IN IP4 127.0.0.1",
        "s=-",
        "t=0 0",
        "m=audio 9 UDP/TLS/RTP/SAVPF 111",
        "c=IN IP4 0.0.0.0",
        "a=mid:audio",
        "a=ice-ufrag:aa",
        "a=ice-pwd:bbbbbbbbbbbbbbbbbbbbbbbb",
        "a=fingerprint:sha-256 0A:0B:0C:0D:0E:0F:10:11:12:13:14:15:16:17:18:19:1A:1B:1C:1D:1E:1F:20:21:22:23:24:25:26:27:28:29",
        "a=setup:active",
        "a=candidate:1 1 TCP 2015363327 192.168.1.135 61078 typ host",
        "a=rtpmap:111 opus/48000/2",
        "",
    ]
    .join("\r\n");
    let sdp = webrtc_sdp::parse_sdp(&answer, true).expect("answer parses");
    let acc = sdp_jingle_session(&sdp, &offer);
    assert_eq!(acc.action, "session-accept");
    assert_eq!(acc.initiator, "rec@meet/x");
    assert_eq!(acc.to, "room@muc/focus");
    assert_eq!(acc.from, "rec@meet/x");
    let a = &acc.contents[0];
    assert_eq!(a.transport.ufrag, "aa");
    assert_eq!(a.transport.fingerprint.setup, "active");
    assert!(a.transport.fingerprint.fingerprint.starts_with("0A:0B:0C"));
    assert_eq!(a.transport.candidates[0].protocol, "tcp");
    assert!(a.description.ssrcs.is_empty());
    assert_eq!(a.description.payloads.len(), 2);
    // the video content has no m-line in this answer: no credentials
    let v = &acc.contents[1];
    assert_eq!(v.transport.ufrag, "");
    assert_eq!(v.transport.fingerprint.setup, "active");
    assert!(v.transport.candidates.is_empty());
}

#[test]
fn transport_values_last_wins() {
    let cand = CandidateInfo {
        foundation: "f".into(),
        component: 1,
        transport: "UDP".into(),
        priority: 9,
        address: "1.2.3.4".into(),
        port: 70000,
        kind: "relay".into(),
        raddr: Some("5.6.7.8".into()),
        rport: Some(65537),
        generation: None,
    };
    let attrs = vec![
        TransportAttr::IceUfrag("u1".into()),
        TransportAttr::Setup("passive".into()),
        TransportAttr::IceUfrag("u2".into()),
        TransportAttr::Fingerprint("sha-1".into(), vec![1, 255]),
        TransportAttr::Candidate(cand),
        TransportAttr::Other,
    ];
    let (u, p, fp, cands) = transport_values(&attrs);
    assert_eq!(u, "u2");
    assert_eq!(p, "");
    assert_eq!((fp.hash_algo.as_str(), fp.fingerprint.as_str(), fp.setup.as_str()), ("sha-1", "01:FF", "passive"));
    assert_eq!(cands[0].port, 70000u32 as u16);
    assert_eq!(cands[0].rel_port, Some(1));
    assert_eq!(cands[0].protocol, "udp");
    let tcp = CandidateInfo { transport: "TCP".into(), ..cands_source() };
    let (_, _, _, cands) = transport_values(&vec![TransportAttr::Candidate(tcp)]);
    assert_eq!(cands[0].protocol, "tcp");
}

fn cands_source() -> CandidateInfo {
    CandidateInfo {
        foundation: "g".into(),
        component: 1,
        transport: "UDP".into(),
        priority: 1,
        address: "10.0.0.1".into(),
        port: 10000,
        kind: "host".into(),
        raddr: None,
        rport: None,
        generation: Some(0),
    }
}

#[test]
fn final_parsing_without_group_has_no_bundle() {
    let j = session_initiate();
    let action = JingleAction::parse("session-initiate", &j).unwrap();
    let media = JingleMedia::new();
    let sdp = "v=0\r\no=- 1 2 IN IP4 0.0.0.0\r\ns=-\r\nt=0 0\r\n\
m=audio 9 UDP/TLS/RTP/SAVPF 111\r\nc=IN IP4 0.0.0.0\r\na=mid:audio\r\na=sendrecv\r\n\
a=rtpmap:111 opus/48000/2\r\na=ssrc:11 msid:s1 t1\r\na=ssrc:22 msid:s2 t2\r\n";
    let groups: Vec<&Element> = Vec::new();
    let out = action.final_parsing(sdp, &groups, &media).expect("accepted");
    assert!(!out.contains("a=group:BUNDLE"), "offer: {out}");
    // one m-line per primary SSRC, renumbered
    assert!(out.contains("a=mid:0"), "offer: {out}");
    assert!(out.contains("a=mid:1"), "offer: {out}");
    assert!(!out.contains("a=mid:audio"), "offer: {out}");
    assert_eq!(out.matches("m=audio").count(), 2, "offer: {out}");
    assert!(out.contains("a=msid-semantic:WMS"), "offer: {out}");
    assert!(out.contains("s1") && out.contains("s2"), "offer: {out}");
}

#[test]
fn final_parsing_refuses_junk() {
    let j = session_initiate();
    let action = JingleAction::parse("session-initiate", &j).unwrap();
    let media = JingleMedia::new();
    let groups: Vec<&Element> = Vec::new();
    assert!(action.final_parsing("not sdp", &groups, &media).is_err());
}

#[test]
fn iq_offer_is_the_shaped_session_initiate() {
    let stanza = iq_of(session_initiate(), "get");
    let mut iq = Iq::new(&stanza);
    let reply = iq.handle_jingle(&stanza.children[0]).expect("handled");
    assert_eq!(reply.ack.get_attribute("type").map(|s| s.as_str()), Some("result"));
    let offer = match reply.work {
        JingleWork::SessionInitiate { offer, .. } => offer,
        _ => panic!("expected a session-initiate"),
    };
    let j = session_initiate();
    let action = JingleAction::parse("session-initiate", &j).unwrap();
    let mut media = JingleMedia::new();
    let direct = action.handle_session_initiate(&j, &mut media);
    // the two differ only in the session id the clock gives
    let strip = |s: &str| s.lines().filter(|l| !l.starts_with("o=")).collect::<Vec<_>>().join("\n");
    assert!(!offer.is_empty());
    assert_eq!(strip(&offer), strip(&direct));
}
