use gst_meet::media::MediaChanges;
use gst_meet::room::{dominant_speaker_of, record_media_changes, transport_info, SessionRoute};
use gst_meet::timeline::{upsert, Metadata, Participant, Timeline, TimelineEngine, TimelineEvent, TimelineHandler};
use std::sync::mpsc::channel;
use std::time::{Duration, Instant};

fn handler() -> (TimelineHandler, std::sync::mpsc::Receiver<TimelineEvent>, std::sync::mpsc::Sender<()>) {
    let (tx, rx) = channel();
    let (done_tx, done_rx) = channel();
    (TimelineHandler::new(tx, Instant::now(), done_rx), rx, done_tx)
}

fn ep(e: &TimelineEvent) -> Option<String> {
    match e {
        TimelineEvent::MeetingStart { endpoint, .. }
        | TimelineEvent::Joined { endpoint, .. }
        | TimelineEvent::Left { endpoint, .. }
        | TimelineEvent::CameraOn { endpoint, .. }
        | TimelineEvent::CameraOff { endpoint, .. }
        | TimelineEvent::ScreenshareOn { endpoint, .. }
        | TimelineEvent::ScreenshareOff { endpoint, .. }
        | TimelineEvent::AudioOn { endpoint, .. }
        | TimelineEvent::AudioOff { endpoint, .. }
        | TimelineEvent::Dominant { endpoint, .. }
        | TimelineEvent::MeetingEnd { endpoint, .. } => endpoint.clone(),
    }
}

#[test]
fn join_posts_live_devices_at_the_same_instant() {
    let (h, rx, _done) = handler();
    let posted = h.participant_joined(Some("e1".to_string()), "Ann".to_string(), false, true, true);
    let codes: Vec<&str> = posted.iter().map(|e| e.code()).collect();
    assert_eq!(codes, vec!["joined", "camera_on"]);
    match &posted[0] {
        TimelineEvent::Joined { timestamp_ms, nickname, .. } => {
            assert_eq!(*timestamp_ms, 0);
            assert_eq!(nickname, "Ann");
        }
        _ => panic!("first event is the join"),
    }
    // the handler only stamps events: the caller posts them
    assert_eq!(rx.try_iter().count(), 0);
    for ev in posted {
        h.channel().send(ev).unwrap();
    }
    let sent: Vec<TimelineEvent> = rx.try_iter().collect();
    assert_eq!(sent.len(), 2);
    assert_eq!(ep(&sent[1]).as_deref(), Some("e1"));
}

#[test]
fn audio_only_join_at_time_zero() {
    let (h, _rx, _done) = handler();
    let events = h.participant_joined(Some("e1".to_string()), "Ann".to_string(), true, false, true);
    assert_eq!(events.len(), 2);
    match (&events[0], &events[1]) {
        (
            TimelineEvent::Joined { timestamp_ms: 0, endpoint: e0, nickname },
            TimelineEvent::AudioOn { timestamp_ms: 0, endpoint: e1 },
        ) => {
            assert_eq!(e0.as_deref(), Some("e1"));
            assert_eq!(e1.as_deref(), Some("e1"));
            assert_eq!(nickname, "Ann");
        }
        _ => panic!("join, then audio on, both at time 0"),
    }
}

#[test]
fn camera_on_keeps_the_endpoint() {
    let (h, _rx, _done) = handler();
    match h.camera_on(Some("e3".to_string())) {
        TimelineEvent::CameraOn { endpoint, .. } => assert_eq!(endpoint.as_deref(), Some("e3")),
        _ => panic!("camera on"),
    }
    match h.dominant_change(Some("e4".to_string())) {
        TimelineEvent::Dominant { endpoint, .. } => assert_eq!(endpoint.as_deref(), Some("e4")),
        _ => panic!("dominant"),
    }
}

#[test]
fn handler_event_codes() {
    let (h, rx, done) = handler();
    assert_eq!(h.meeting_started().code(), "meeting_started");
    assert_eq!(h.participant_left(Some("e".into())).code(), "left");
    assert_eq!(h.camera_off(Some("e".into())).code(), "camera_off");
    assert_eq!(h.screenshare_on(Some("e".into())).code(), "screenshare_on");
    assert_eq!(h.screenshare_off(Some("e".into())).code(), "screenshare_off");
    assert_eq!(h.audio_on(Some("e".into())).code(), "audio_on");
    assert_eq!(h.audio_off(Some("e".into())).code(), "audio_off");
    assert_eq!(h.dominant_change(Some("e".into())).code(), "dominant");
    let end = h.meeting_ended();
    assert!(end.is_meeting_end());
    assert_eq!(end.code(), "meeting_ended");
    assert_eq!(rx.try_iter().count(), 0);
    assert!(!h.wait_for_files(Duration::from_millis(1)));
    done.send(()).unwrap();
    assert!(h.wait_for_files(Duration::from_millis(100)));
}

#[test]
fn mute_changes_become_events() {
    let (h, _rx, _done) = handler();
    let changes = MediaChanges { audio_muted: Some(false), video_muted: Some(true), screenshare_muted: None };
    let posted = record_media_changes(&h, "e7", changes);
    let codes: Vec<&str> = posted.iter().map(|e| e.code()).collect();
    assert_eq!(codes, vec!["camera_off", "audio_on"]);
    assert!(posted.iter().all(|e| ep(e).as_deref() == Some("e7")));
    let none = MediaChanges { audio_muted: None, video_muted: None, screenshare_muted: Some(false) };
    let codes: Vec<&str> = record_media_changes(&h, "e7", none).iter().map(|e| e.code()).collect();
    assert_eq!(codes, vec!["screenshare_on"]);
}

#[test]
fn engine_records_events_and_joins() {
    let mut events: Vec<Timeline> = vec![];
    let mut participants: Vec<(String, Participant)> = vec![];
    TimelineEngine::parse_event(
        TimelineEvent::Joined { timestamp_ms: 5, endpoint: Some("e1".into()), nickname: "Ann".into() },
        &mut events,
        &mut participants,
    );
    TimelineEngine::parse_event(TimelineEvent::CameraOn { timestamp_ms: 6, endpoint: Some("e1".into()) }, &mut events, &mut participants);
    TimelineEngine::parse_event(
        TimelineEvent::Joined { timestamp_ms: 9, endpoint: Some("e1".into()), nickname: "Ann B".into() },
        &mut events,
        &mut participants,
    );
    assert_eq!(events.len(), 3);
    assert_eq!(events[1].timestamp, 6);
    assert_eq!(events[1].event, "camera_on");
    assert_eq!(events[1].participant_id.as_deref(), Some("e1"));
    assert_eq!(participants.len(), 1);
    assert_eq!(participants[0].1.name, "Ann B");
    assert!(participants[0].1.media.camera.is_none());
    let m = Metadata::summarize("room".into(), "recordings/room".into(), 1, 11, 10, participants);
    assert_eq!(m.room_id, "xxxxxx");
    assert_eq!(m.total_duration_ms, 10);
    let e = TimelineEngine::new("recordings/x".into());
    assert_eq!(e.output_path, "recordings/x");
}

#[test]
fn upsert_replaces_or_appends() {
    let mut l: Vec<(String, u32)> = vec![];
    upsert(&mut l, "a".into(), 1);
    upsert(&mut l, "b".into(), 2);
    upsert(&mut l, "a".into(), 3);
    assert_eq!(l, vec![("a".to_string(), 3), ("b".to_string(), 2)]);
}

#[test]
fn event_duplicate_is_equal() {
    let e = TimelineEvent::Joined { timestamp_ms: 1, endpoint: None, nickname: "n".into() };
    match e.duplicate() {
        TimelineEvent::Joined { timestamp_ms, endpoint, nickname } => {
            assert_eq!((timestamp_ms, endpoint, nickname.as_str()), (1, None, "n"));
        }
        _ => panic!(),
    }
}

#[test]
fn transport_info_for_candidate() {
    let route = SessionRoute {
        from: "room1@muc.meet.jitsi/focus".to_string(),
        to: "rec@meet.jitsi/x".to_string(),
        sid: "sid1".to_string(),
        initiator: "focus@auth/focus".to_string(),
    };
    let iq = transport_info(&route, 1, "candidate:1 1 UDP 2015363327 192.168.1.135 61078 typ host", "uf", "pw")
        .expect("candidate parses");
    assert_eq!(iq.get_attribute("type").map(|s| s.as_str()), Some("set"));
    assert_eq!(iq.get_attribute("to").map(|s| s.as_str()), Some("room1@muc.meet.jitsi/focus"));
    let jingle = &iq.children[0];
    assert_eq!(jingle.get_attribute("action").map(|s| s.as_str()), Some("transport-info"));
    let content = &jingle.children[0];
    assert_eq!(content.get_attribute("name").map(|s| s.as_str()), Some("video"));
    let transport = &content.children[0];
    assert_eq!(transport.get_attribute("ufrag").map(|s| s.as_str()), Some("uf"));
    let cand = &transport.children[0];
    assert_eq!(cand.get_attribute("ip").map(|s| s.as_str()), Some("192.168.1.135"));
    assert_eq!(cand.get_attribute("port").map(|s| s.as_str()), Some("61078"));
    assert!(transport_info(&route, 5, "candidate:1 1 UDP 2015363327 192.168.1.135 61078 typ host", "uf", "pw").is_none());
    assert!(transport_info(&route, 0, "", "uf", "pw").is_none());
    assert!(transport_info(&route, 0, "garbage", "uf", "pw").is_none());
}

#[test]
fn colibri_dominant_speaker_messages() {
    assert_eq!(
        dominant_speaker_of(r#"{"colibriClass":"DominantSpeakerEndpointChangeEvent","dominantSpeakerEndpoint":"e1","previousSpeakers":["e2"],"silence":false}"#).as_deref(),
        Some("e1")
    );
    assert_eq!(
        dominant_speaker_of(r#"{"dominantSpeakerEndpoint":"e9","colibriClass":"DominantSpeakerEndpointChangeEvent"}"#).as_deref(),
        Some("e9")
    );
    assert_eq!(dominant_speaker_of(r#"{"colibriClass":"EndpointStats","dominantSpeakerEndpoint":"e1"}"#), None);
    assert_eq!(dominant_speaker_of(r#"{"colibriClass":"DominantSpeakerEndpointChangeEvent"}"#), None);
    assert_eq!(
        dominant_speaker_of(r#"{"colibriClass":"DominantSpeakerEndpointChangeEvent","dominantSpeakerEndpoint":"e1","silence":"no"}"#),
        None
    );
    assert_eq!(
        dominant_speaker_of(r#"{"colibriClass":"DominantSpeakerEndpointChangeEvent","dominantSpeakerEndpoint":"e1","previousSpeakers":[1]}"#),
        None
    );
    assert_eq!(dominant_speaker_of("not json"), None);
    assert_eq!(dominant_speaker_of("[1,2]"), None);
}
