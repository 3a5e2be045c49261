use gst_meet::answer::{fingerprint_to_hex, fmtp_to_params, FmtpExtras, FmtpLimits, FmtpParams, Sdp};
use gst_meet::room::{content_name, ice_credentials, session_accept, SessionRoute};
use gst_meet::xml::Element;

const FP: &str = "2F:2F:4D:3A:76:ED:0B:8E:49:7D:8D:EF:D4:9B:24:7A:05:2D:29:35:70:EF:4D:04:C0:B4:70:59:54:50:F9:36";

fn answer_text() -> String {
    [
        "v=0",
        "o=- 4611731400430051336 2 IN IP4 127.0.0.1",
        "s=-",
        "t=0 0",
        "a=group:BUNDLE 0 1",
        "m=audio 9 UDP/TLS/RTP/SAVPF 111",
        "c=IN IP4 0.0.0.0",
        "a=ice-ufrag:abcd",
        "a=ice-pwd:efghijklmnopqrstuvwxyzab",
        &format!("a=fingerprint:sha-256 {FP}"),
        "a=setup:active",
        "a=mid:0",
        "a=recvonly",
        "a=rtcp-mux",
        "a=rtpmap:111 opus/48000/2",
        "a=fmtp:111 minptime=10;useinbandfec=1",
        "a=candidate:1 1 UDP 2015363327 192.168.1.135 61078 typ host",
        "m=video 9 UDP/TLS/RTP/SAVPF 100",
        "c=IN IP4 0.0.0.0",
        "a=ice-ufrag:abcd",
        "a=ice-pwd:efghijklmnopqrstuvwxyzab",
        &format!("a=fingerprint:sha-256 {FP}"),
        "a=setup:active",
        "a=mid:1",
        "a=recvonly",
        "a=rtcp-mux",
        "a=rtpmap:100 VP8/90000",
        "a=rtcp-fb:100 nack pli",
        "",
    ]
    .join("\r\n")
}

fn attr<'a>(e: &'a Element, k: &str) -> Option<&'a str> {
    e.get_attribute(k).map(|s| s.as_str())
}

#[test]
fn answer_to_session_accept() {
    let session = webrtc_sdp::parse_sdp(&answer_text(), true).expect("answer parses");
    let sdp = Sdp::new(&session);
    assert_eq!(sdp.group_semantics.as_deref(), Some("BUNDLE"));
    assert_eq!(sdp.media.len(), 2);
    let j = sdp.parse_sdp_to_jingle("focus@auth/focus", "sid1", "rec@meet/x");
    assert_eq!(j.name.as_deref(), Some("jingle"));
    assert_eq!(attr(&j, "action"), Some("session-accept"));
    assert_eq!(attr(&j, "xmlns"), Some("urn:xmpp:jingle:1"));
    assert_eq!(attr(&j, "initiator"), Some("focus@auth/focus"));
    assert_eq!(attr(&j, "sid"), Some("sid1"));
    assert_eq!(attr(&j, "responder"), Some("rec@meet/x"));
    assert_eq!(j.children.len(), 3);
    let group = &j.children[0];
    assert_eq!(attr(group, "semantics"), Some("BUNDLE"));
    assert_eq!(attr(group, "xmlns"), Some("urn:xmpp:jingle:apps:grouping:0"));
    let audio = &j.children[1];
    assert_eq!(attr(audio, "name"), Some("audio"));
    assert_eq!(attr(audio, "senders"), Some("initiator"));
    let desc = &audio.children[0];
    assert_eq!(attr(desc, "media"), Some("audio"));
    let pt = &desc.children[0];
    assert_eq!(attr(pt, "id"), Some("111"));
    assert_eq!(attr(pt, "clockrate"), Some("48000"));
    assert_eq!(attr(pt, "channels"), Some("2"));
    assert_eq!(attr(pt, "name"), Some("opus"));
    let params: Vec<(String, String)> = pt.children.iter().map(|p| p.attributes[0].clone()).collect();
    assert!(params.contains(&("minptime".to_string(), "10".to_string())));
    assert!(params.contains(&("useinbandfec".to_string(), "1".to_string())));
    assert_eq!(desc.children.last().unwrap().name.as_deref(), Some("rtcp-mux"));
    let transport = &audio.children[1];
    assert_eq!(attr(transport, "ufrag"), Some("abcd"));
    assert_eq!(attr(transport, "pwd"), Some("efghijklmnopqrstuvwxyzab"));
    let fp = &transport.children[0];
    assert_eq!(fp.get_text().as_deref(), Some(FP));
    assert_eq!(attr(fp, "setup"), Some("active"));
    assert_eq!(attr(fp, "hash"), Some("sha-256"));
    let cand = &transport.children[1];
    assert_eq!(attr(cand, "ip"), Some("192.168.1.135"));
    assert_eq!(attr(cand, "protocol"), Some("udp"));
    assert_eq!(attr(cand, "id").unwrap().len(), 21);
    let video = &j.children[2];
    let vpt = &video.children[0].children[0];
    assert_eq!(attr(vpt, "name"), Some("VP8"));
    assert_eq!(attr(vpt, "channels"), Some("1"));
    let fb = &vpt.children[0];
    assert_eq!(fb.name.as_deref(), Some("rtcp_fb"));
    assert_eq!(attr(fb, "type"), Some("nack"));
    assert_eq!(attr(fb, "subtype"), Some("pli"));
}

#[test]
fn fingerprint_hex_text() {
    assert_eq!(fingerprint_to_hex(&[0x2f, 0x0a, 0xff]), "2F:0A:FF");
    assert_eq!(fingerprint_to_hex(&[]), "");
    assert_eq!(fingerprint_to_hex(&[7]), "07");
}

fn params(limits: FmtpLimits, extras: FmtpExtras) -> Vec<(String, String)> {
    fmtp_to_params(&FmtpParams { limits, extras })
}

fn no_limits() -> FmtpLimits {
    FmtpLimits {
        packetization_mode: 0,
        profile_level_id: 0,
        max_fs: 0,
        max_cpb: 0,
        max_dpb: 0,
        max_br: 0,
        max_mbps: 0,
        max_fr: 0,
        maxplaybackrate: 0,
        maxaveragebitrate: 0,
        ptime: 0,
        minptime: 0,
        maxptime: 0,
    }
}

fn no_extras() -> FmtpExtras {
    FmtpExtras {
        level_asymmetry_allowed: false,
        usedtx: false,
        stereo: false,
        useinbandfec: false,
        cbr: false,
        profile: None,
        level_idx: None,
        tier: None,
        encodings: vec![],
        dtmf_tones: String::new(),
        rtx_apt: None,
        unknown_tokens: vec![],
    }
}

fn pairs(v: &[(&str, &str)]) -> Vec<(String, String)> {
    v.iter().map(|(a, b)| (a.to_string(), b.to_string())).collect()
}

#[test]
fn fmtp_params_default_flags_only() {
    assert_eq!(
        params(no_limits(), no_extras()),
        pairs(&[
            ("level-asymmetry-allowed", "0"),
            ("usedtx", "0"),
            ("stereo", "0"),
            ("useinbandfec", "0"),
            ("cbr", "0"),
        ])
    );
}

#[test]
fn fmtp_params_h264_and_extras() {
    let mut l = no_limits();
    l.packetization_mode = 1;
    l.profile_level_id = 0x42e01f;
    l.minptime = 10;
    let mut x = no_extras();
    x.level_asymmetry_allowed = true;
    x.encodings = vec![111, 111];
    x.dtmf_tones = "0-15".to_string();
    x.rtx_apt = Some(100);
    x.unknown_tokens = vec!["x-google=5".to_string(), "noeq".to_string(), "a=b=c".to_string()];
    assert_eq!(
        params(l, x),
        pairs(&[
            ("packetization-mode", "1"),
            ("profile-level-id", "42e01f"),
            ("minptime", "10"),
            ("level-asymmetry-allowed", "1"),
            ("usedtx", "0"),
            ("stereo", "0"),
            ("useinbandfec", "0"),
            ("cbr", "0"),
            ("encodings", "111,111"),
            ("dtmf-tones", "0-15"),
            ("apt", "100"),
            ("x-google", "5"),
            ("a", "b=c"),
        ])
    );
}

#[test]
fn fmtp_profile_level_id_is_padded() {
    let mut l = no_limits();
    l.profile_level_id = 0x1f;
    let p = params(l, no_extras());
    assert_eq!(p[0], ("profile-level-id".to_string(), "00001f".to_string()));
}

#[test]
fn content_names_by_index() {
    assert_eq!(content_name(0), Some("audio"));
    assert_eq!(content_name(1), Some("video"));
    assert_eq!(content_name(2), Some("data"));
    assert_eq!(content_name(3), None);
}

#[test]
fn ice_credentials_from_answer() {
    let (u, p) = ice_credentials(&answer_text());
    assert_eq!(u.as_deref(), Some("abcd"));
    assert_eq!(p.as_deref(), Some("efghijklmnopqrstuvwxyzab"));
    let (u, p) = ice_credentials("v=0\r\n");
    assert!(u.is_none() && p.is_none());
}

#[test]
fn session_accept_from_answer() {
    let route = SessionRoute {
        from: "room1@muc.meet.jitsi/focus".to_string(),
        to: "rec@meet.jitsi/x".to_string(),
        sid: "sid1".to_string(),
        initiator: "focus@auth/focus".to_string(),
    };
    let iq = session_accept(&route, &answer_text()).expect("answer parses");
    assert_eq!(iq.name.as_deref(), Some("iq"));
    assert_eq!(attr(&iq, "type"), Some("set"));
    let jingle = &iq.children[0];
    assert_eq!(attr(jingle, "action"), Some("session-accept"));
    assert_eq!(attr(jingle, "sid"), Some("sid1"));
    assert!(session_accept(&route, "not sdp").is_none());
}
