use gst_meet::render::clip::{Clip, ClipKind};
use gst_meet::render::layout::{dominant, present, segment_with, source_for, ActiveSpeaker, Rect, Source};
use gst_meet::render::timeline::{RawEvent, Timeline, TimelineError};

fn ev(event: &str, pid: Option<&str>, t: u64) -> RawEvent {
    RawEvent { event: event.to_string(), participant_id: pid.map(|s| s.to_string()), timestamp: t }
}

fn meeting() -> Vec<RawEvent> {
    vec![
        ev("joined", Some("e1"), 0),
        ev("camera_on", Some("e1"), 0),
        ev("joined", Some("e2"), 1000),
        ev("audio_on", Some("e2"), 1000),
        ev("dominant", Some("e2"), 2000),
        ev("screenshare_on", Some("e1"), 3000),
        ev("left", Some("e2"), 5000),
        ev("meeting_ended", None, 6000),
    ]
}

fn part<'a>(tl: &'a Timeline, pid: &str) -> &'a gst_meet::render::timeline::Participant {
    &tl.participants.iter().find(|(p, _)| p == pid).unwrap().1
}

#[test]
fn timeline_needs_meeting_end() {
    let events = vec![ev("joined", Some("e1"), 0)];
    assert!(matches!(Timeline::calculate_end(&events), Err(TimelineError::NoMeetingEnd)));
    assert!(matches!(Timeline::from_events(events), Err(TimelineError::NoMeetingEnd)));
    let events = vec![ev("meeting_ended", None, 10), ev("meeting_ended", None, 20)];
    assert!(matches!(Timeline::calculate_end(&events), Ok(10)));
}

#[test]
fn timeline_intervals() {
    let tl = Timeline::from_events(meeting()).ok().unwrap();
    assert_eq!(tl.end, 6000);
    assert_eq!(tl.participants.len(), 2);
    let e1 = part(&tl, "e1");
    assert_eq!((e1.joined, e1.left), (0, 6000));
    assert_eq!(e1.camera, vec![(0, 6000)]);
    assert_eq!(e1.share, vec![(3000, 6000)]);
    assert!(e1.audio.is_empty());
    let e2 = part(&tl, "e2");
    assert_eq!((e2.joined, e2.left), (1000, 5000));
    assert_eq!(e2.audio, vec![(1000, 5000)]);
    let doms: Vec<(u64, u64, &str)> = tl.dominant.iter().map(|d| (d.start, d.end, d.endpoint.as_str())).collect();
    assert_eq!(doms, vec![(0, 2000, "e1"), (2000, 6000, "e2")]);
    assert!(e2.present_at(1000) && !e2.present_at(5000));
    assert!(e1.camera_on_at(5999) && !e1.camera_on_at(6000));
    assert!(e1.sharing_at(3000) && !e1.sharing_at(2999));
}

#[test]
fn dominant_repeat_keeps_stretch() {
    let events = vec![
        ev("joined", Some("a"), 0),
        ev("dominant", Some("a"), 100),
        ev("dominant", Some("b"), 200),
        ev("camera_off", Some("a"), 300),
        ev("meeting_ended", None, 400),
    ];
    let tl = Timeline::process_events(events, 400);
    let doms: Vec<(u64, u64, &str)> = tl.dominant.iter().map(|d| (d.start, d.end, d.endpoint.as_str())).collect();
    assert_eq!(doms, vec![(0, 200, "a"), (200, 400, "b")]);
    assert!(tl.dominant.iter().all(|d| d.nickname == "xxx###xxx"));
    // a camera that was never on leaves no interval
    assert!(part(&tl, "a").camera.is_empty());
}

#[test]
fn who_is_present_and_shown() {
    let tl = Timeline::from_events(meeting()).ok().unwrap();
    let p: Vec<&str> = present(&tl, 1500).iter().map(|s| s.as_str()).collect();
    assert_eq!(p, vec!["e1", "e2"]);
    assert_eq!(dominant(&tl, 2500).map(|s| s.as_str()), Some("e2"));
    assert_eq!(dominant(&tl, 5500), None);
    assert!(matches!(source_for(&tl, "e1", 3500, true), Source::Share(ref p) if p == "e1"));
    assert!(matches!(source_for(&tl, "e1", 3500, false), Source::Camera(ref p) if p == "e1"));
    assert!(matches!(source_for(&tl, "e2", 3500, true), Source::Avatar(ref p) if p == "e2"));
}

fn src(s: &Source) -> (&'static str, String) {
    match s {
        Source::Camera(p) => ("camera", p.clone()),
        Source::Share(p) => ("share", p.clone()),
        Source::Avatar(p) => ("avatar", p.clone()),
    }
}

#[test]
fn segments_of_meeting() {
    let tl = Timeline::from_events(meeting()).ok().unwrap();
    let segs = segment_with(&ActiveSpeaker, &tl);
    let got: Vec<(u64, u64, Vec<((&str, String), Rect, u32)>)> = segs
        .iter()
        .map(|s| (s.start, s.end, s.placements.iter().map(|p| (src(&p.source), p.rect, p.layer)).collect()))
        .collect();
    let full = Rect { x: 0, y: 0, w: 1280, h: 720 };
    let thumb = Rect { x: 960, y: 540, w: 320, h: 180 };
    assert_eq!(
        got,
        vec![
            (0, 2000, vec![(("camera", "e1".to_string()), full, 1)]),
            (2000, 3000, vec![(("avatar", "e2".to_string()), full, 1)]),
            (
                3000,
                5000,
                vec![(("share", "e1".to_string()), full, 1), (("avatar", "e2".to_string()), thumb, 0)]
            ),
        ]
    );
}

#[test]
fn clips_of_meeting() {
    let tl = Timeline::from_events(meeting()).ok().unwrap();
    let segs = segment_with(&ActiveSpeaker, &tl);
    let clips = Clip::to_clips(&tl, &segs, "rec");
    let got: Vec<(ClipKind, String, u64, u64, u32, Option<u64>)> = clips
        .iter()
        .map(|c| (c.kind, c.path.clone(), c.timeline_start, c.timeline_end, c.layer, c.inpoint))
        .collect();
    assert_eq!(
        got,
        vec![
            (ClipKind::Camera, "rec/e1/camera_video.mkv".to_string(), 0, 2000, 1, Some(0)),
            (ClipKind::Audio, "rec/e2/audio.mkv".to_string(), 1000, 5000, 2, Some(0)),
            (ClipKind::Avatar, "rec/e2/avatar.png".to_string(), 2000, 3000, 1, None),
            (ClipKind::Avatar, "rec/e2/avatar.png".to_string(), 3000, 5000, 0, None),
            (ClipKind::ScreenShare, "rec/e1/screenshare_video.mkv".to_string(), 3000, 5000, 1, Some(0)),
        ]
    );
    assert!(clips.iter().all(|c| c.participant.nickname == "xxx###xxx"));
    assert!(clips[1].rect.is_none());
    assert_eq!(clips[0].rect, Some(Rect { x: 0, y: 0, w: 1280, h: 720 }));
}

#[test]
fn camera_inpoint_counts_from_join() {
    let events = vec![
        ev("joined", Some("a"), 500),
        ev("camera_on", Some("a"), 500),
        ev("meeting_ended", None, 2000),
    ];
    let tl = Timeline::from_events(events).ok().unwrap();
    let segs = segment_with(&ActiveSpeaker, &tl);
    assert_eq!(segs.len(), 1);
    assert_eq!((segs[0].start, segs[0].end), (500, 2000));
    let clips = Clip::to_clips(&tl, &segs, "d");
    assert_eq!(clips.len(), 1);
    assert_eq!(clips[0].inpoint, Some(0));
    let c = Clip::placement_to_clip(&tl, "d", &segs[0].placements[0], 1500, 2000);
    assert_eq!(c.inpoint, Some(1000));
    assert_eq!(c.path, "d/a/camera_video.mkv");
}

#[test]
fn empty_meeting_has_no_clips() {
    let tl = Timeline::from_events(vec![ev("meeting_ended", None, 100)]).ok().unwrap();
    let segs = segment_with(&ActiveSpeaker, &tl);
    assert!(segs.is_empty());
    assert!(Clip::to_clips(&tl, &segs, "d").is_empty());
}

#[test]
fn layer_count_of_clips() {
    let tl = Timeline::from_events(meeting()).ok().unwrap();
    let segs = segment_with(&ActiveSpeaker, &tl);
    let clips = Clip::to_clips(&tl, &segs, "rec");
    assert_eq!(Clip::layer_count(&clips), 3);
    assert_eq!(Clip::layer_count(&vec![]), 1);
}

#[test]
fn audio_has_its_own_layer() {
    let tl = Timeline::from_events(meeting()).ok().unwrap();
    let segs = segment_with(&ActiveSpeaker, &tl);
    let clips = Clip::to_clips(&tl, &segs, "rec");
    let top_visual = clips.iter().filter(|c| c.kind != ClipKind::Audio).map(|c| c.layer).max().unwrap();
    assert!(clips.iter().filter(|c| c.kind == ClipKind::Audio).all(|c| c.layer == top_visual + 1));
    // without visual clips, audio goes on layer 1
    let audio_only = Clip::to_clips(&tl, &vec![], "rec");
    assert!(!audio_only.is_empty());
    assert!(audio_only.iter().all(|c| c.kind == ClipKind::Audio && c.layer == 1));
}

#[test]
fn spans_lie_within_the_meeting() {
    let tl = Timeline::from_events(meeting()).ok().unwrap();
    for (_, p) in &tl.participants {
        for &(s, e) in p.camera.iter().chain(p.share.iter()).chain(p.audio.iter()) {
            assert!(s <= e && e <= tl.end);
        }
    }
    for d in &tl.dominant {
        assert!(d.start <= d.end && d.end <= tl.end);
    }
    // the last speaker stretch runs until the meeting ends
    assert_eq!(tl.dominant.last().unwrap().end, tl.end);
}

#[test]
fn touching_segments_show_different_placements() {
    let tl = Timeline::from_events(meeting()).ok().unwrap();
    let segs = segment_with(&ActiveSpeaker, &tl);
    for w in segs.windows(2) {
        if w[0].end == w[1].start {
            let a: Vec<_> = w[0].placements.iter().map(|p| (format!("{:?}", p.source), p.rect, p.layer)).collect();
            let b: Vec<_> = w[1].placements.iter().map(|p| (format!("{:?}", p.source), p.rect, p.layer)).collect();
            assert_ne!(a, b);
        }
    }
}
