use gst_meet::branch::{depayloader_for, parser_for, participant_dir_path, recording_path};
use gst_meet::participant::SourceEntry;
use gst_meet::jingle_action::ParsedSource;
use gst_meet::media::{Media, MediaChanges};
use gst_meet::participant::{
    parse_source_name, register_ssrc, source_for_ssrc, source_kind, Participant, SourceKind,
};
use std::collections::HashMap;

#[test]
fn media_starts_muted() {
    let m = Media::new();
    assert!(m.audio_muted && m.video_muted && m.screenshare_muted);
    assert!(!m.avatar_generated);
    let d = Media::default();
    assert_eq!(d, m);
    let c = MediaChanges::default();
    assert_eq!(c, MediaChanges { audio_muted: None, video_muted: None, screenshare_muted: None });
}

#[test]
fn apply_reports_only_flips() {
    let mut m = Media::new();
    let c = m.apply(false, true, true);
    assert_eq!(c, MediaChanges { audio_muted: Some(false), video_muted: None, screenshare_muted: None });
    assert!(!m.audio_muted);
    // the same report again changes nothing
    let c = m.apply(false, true, true);
    assert_eq!(c, MediaChanges::default());
    let c = m.apply(true, false, false);
    assert_eq!(
        c,
        MediaChanges { audio_muted: Some(true), video_muted: Some(false), screenshare_muted: Some(false) }
    );
}

#[test]
fn setters_chain() {
    let mut m = Media::new();
    m.set_audio_muted(false).set_video_muted(false).set_screenshare_muted(false).set_avatar_generated(true);
    assert_eq!(m, Media { audio_muted: false, video_muted: false, screenshare_muted: false, avatar_generated: true });
}

#[test]
fn avatar_needed_once_while_camera_off() {
    let mut m = Media::new();
    assert!(m.needs_avatar());
    m.set_avatar_generated(true);
    assert!(!m.needs_avatar());
    let mut m = Media::new();
    m.apply(true, false, true);
    assert!(!m.needs_avatar());
}

#[test]
fn source_names() {
    assert_eq!(parse_source_name("c8ef68f5-v1"), Some(('v', 1)));
    assert_eq!(parse_source_name("eee01355-a0"), Some(('a', 0)));
    assert_eq!(parse_source_name("v3"), Some(('v', 3)));
    assert_eq!(parse_source_name("abc-"), None);
    assert_eq!(parse_source_name("abc-vx"), None);
    assert_eq!(parse_source_name("abc-v"), None);
    assert_eq!(parse_source_name("a-b-a12"), Some(('a', 12)));
}

fn src(ssrc: u32, ep: &str, name: &str, vt: Option<&str>) -> ParsedSource {
    ParsedSource {
        ssrc,
        endpoint_id: ep.to_string(),
        source_name: name.to_string(),
        video_type: vt.map(|s| s.to_string()),
    }
}

#[test]
fn source_kinds() {
    assert_eq!(source_kind(&src(1, "e", "e-v0", None)), Some(SourceKind::CameraVideo));
    assert_eq!(source_kind(&src(1, "e", "e-v1", Some("d"))), Some(SourceKind::ScreenshareVideo));
    assert_eq!(source_kind(&src(1, "e", "e-v1", Some("camera"))), Some(SourceKind::CameraVideo));
    assert_eq!(source_kind(&src(1, "e", "e-a0", Some("d"))), Some(SourceKind::Audio));
    assert_eq!(source_kind(&src(1, "e", "e-x0", None)), None);
    assert_eq!(SourceKind::CameraVideo.file_stem(), "camera_video");
    assert_eq!(SourceKind::Audio.file_stem(), "audio");
    assert_eq!(SourceKind::ScreenshareVideo.file_stem(), "screenshare_video");
}

#[test]
fn register_then_lookup() {
    let mut table = HashMap::new();
    register_ssrc(&mut table, src(42, "e1", "e1-a0", None));
    register_ssrc(&mut table, src(43, "e1", "e1-bogus", None));
    let e = source_for_ssrc(&table, 42).unwrap();
    assert_eq!(e.endpoint, "e1");
    assert_eq!(e.kind, SourceKind::Audio);
    assert!(source_for_ssrc(&table, 43).is_none());
    assert_eq!(table.len(), 1);
}

#[test]
fn participant_tracks_media_and_sources() {
    let mut p = Participant::new("Ann");
    assert_eq!(p.nickname, "Ann");
    assert!(!p.e2ee_enabled);
    assert!(p.needs_avatar());
    let c = p.update_media(false, false, true);
    assert_eq!(c.video_muted, Some(false));
    assert_eq!(c.audio_muted, Some(false));
    assert_eq!(c.screenshare_muted, None);
    assert!(!p.needs_avatar());
    p.register_ssrc(src(9, "ann", "ann-v1", Some("d")));
    assert_eq!(p.source_for_ssrc(9).unwrap().kind, SourceKind::ScreenshareVideo);
    assert!(p.source_for_ssrc(10).is_none());
}

#[test]
fn branch_elements_and_paths() {
    assert_eq!(depayloader_for("AV1"), Some("rtpav1depay"));
    assert_eq!(depayloader_for("VP8"), Some("rtpvp8depay"));
    assert_eq!(depayloader_for("VP9"), Some("rtpvp9depay"));
    assert_eq!(depayloader_for("H264"), Some("rtph264depay"));
    assert_eq!(depayloader_for("OPUS"), Some("rtpopusdepay"));
    assert_eq!(depayloader_for("opus"), None);
    assert_eq!(parser_for("AV1"), Some("av1parse"));
    assert_eq!(parser_for("H264"), Some("h264parse"));
    assert_eq!(parser_for("OPUS"), Some("opusparse"));
    assert_eq!(parser_for("VP8"), None);
    let s = SourceEntry { endpoint: "e1".to_string(), kind: SourceKind::ScreenshareVideo };
    assert_eq!(recording_path("standup", &s), "recordings/standup/e1/screenshare_video.mkv");
    assert_eq!(participant_dir_path("standup", "e1"), "recordings/standup/e1");
}
