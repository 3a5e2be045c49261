use gst_meet::layout::{LayoutEngine, TileContent, TileRect};
use gst_meet::renderer::{RendererEngine, SourceUpdate, Tile};

fn rect(r: &TileRect) -> (String, i32, i32, i32, i32, bool, bool, bool, u32) {
    (
        r.endpoint.clone(),
        r.xpos,
        r.ypos,
        r.width,
        r.height,
        r.is_highlighted,
        r.is_screenshare,
        r.is_dominant_large,
        r.zorder,
    )
}

#[test]
fn layout_empty_is_empty() {
    let tiles: Vec<(&String, bool, bool)> = vec![];
    assert!(LayoutEngine::calculate(&tiles, None).is_empty());
    assert!(LayoutEngine::calculate(&tiles, Some("a")).is_empty());
}

#[test]
fn layout_grid_of_three() {
    let a = "a".to_string();
    let b = "b".to_string();
    let c = "c".to_string();
    let tiles = vec![(&a, false, false), (&b, false, false), (&c, false, false)];
    let r = LayoutEngine::calculate(&tiles, None);
    let got: Vec<_> = r.iter().map(rect).collect();
    assert_eq!(
        got,
        vec![
            ("a".to_string(), 0, 0, 960, 540, false, false, false, 0),
            ("b".to_string(), 960, 0, 960, 540, false, false, false, 0),
            ("c".to_string(), 0, 540, 960, 540, false, false, false, 0),
        ]
    );
}

#[test]
fn layout_grid_of_one_fills_screen() {
    let a = "a".to_string();
    let tiles = vec![(&a, false, false)];
    let r = LayoutEngine::calculate(&tiles, None);
    assert_eq!(r.len(), 1);
    assert_eq!(rect(&r[0]), ("a".to_string(), 0, 0, 1920, 1080, false, false, false, 0));
}

#[test]
fn layout_dominant_with_thumbnails() {
    let a = "a".to_string();
    let b = "b".to_string();
    let tiles = vec![(&a, false, false), (&b, false, true)];
    let r = LayoutEngine::calculate(&tiles, Some("b"));
    let got: Vec<_> = r.iter().map(rect).collect();
    assert_eq!(
        got,
        vec![
            ("b".to_string(), 0, 0, 1920, 1080, false, false, true, 0),
            ("a".to_string(), 1670, 0, 250, 250, false, false, false, 1),
            ("b".to_string(), 1670, 250, 250, 250, true, false, false, 1),
        ]
    );
}

#[test]
fn layout_many_thumbnails_use_two_columns() {
    let names: Vec<String> = (0..11).map(|i| format!("p{i}")).collect();
    let tiles: Vec<(&String, bool, bool)> = names.iter().map(|n| (n, false, false)).collect();
    let r = LayoutEngine::calculate(&tiles, Some("p0"));
    assert_eq!(r.len(), 12);
    assert_eq!(rect(&r[1]), ("p0".to_string(), 1420, 0, 250, 250, true, false, false, 1));
    assert_eq!(rect(&r[2]), ("p1".to_string(), 1670, 0, 250, 250, false, false, false, 1));
    assert_eq!(rect(&r[11]), ("p10".to_string(), 1420, 1250, 250, 250, false, false, false, 1));
}

#[test]
fn layout_screenshare_wins() {
    let a = "a".to_string();
    let b = "b".to_string();
    let tiles = vec![(&a, false, true), (&b, true, false)];
    let r = LayoutEngine::calculate(&tiles, Some("a"));
    let got: Vec<_> = r.iter().map(rect).collect();
    assert_eq!(
        got,
        vec![
            ("b".to_string(), 0, 0, 1440, 1080, false, true, true, 0),
            ("a".to_string(), 1440, 0, 480, 540, false, false, false, 1),
            ("b".to_string(), 1440, 540, 480, 540, true, false, false, 1),
        ]
    );
}

#[test]
fn tile_new_starts_black() {
    let t = Tile::new("ep".to_string(), "Ann".to_string(), true, false);
    assert_eq!(t.content, TileContent::BlackTile);
    assert!(!t.has_screenshare);
    assert!(t.video_muted);
    assert!(!t.audio_muted);
    assert_eq!(t.nickname, "Ann");
}

#[test]
fn renderer_first_joiner_becomes_dominant() {
    let mut e = RendererEngine::new();
    let p = e.on_participant_joined("a", "Ann", false, false).expect("first joiner is promoted");
    assert!(p.promote);
    assert!(p.demote.is_none());
    assert!(e.has_tile("a"));
    assert!(e.on_participant_joined("b", "Bob", false, false).is_none());
    let r = e.layout();
    assert_eq!(r.len(), 3);
    assert_eq!(r[0].endpoint, "a");
    assert!(r[0].is_dominant_large);
}

#[test]
fn renderer_second_join_of_same_endpoint_is_ignored() {
    let mut e = RendererEngine::new();
    e.on_participant_joined("a", "Ann", false, false);
    assert!(e.on_participant_joined("a", "Ann again", true, true).is_none());
    let r = e.layout();
    // one dominant view plus one thumbnail: still a single tile
    assert_eq!(r.len(), 2);
}

#[test]
fn renderer_dominant_change_demotes_previous() {
    let mut e = RendererEngine::new();
    e.on_participant_joined("a", "Ann", false, false);
    e.on_participant_joined("b", "Bob", false, false);
    let p = e.on_dominant_speaker("b");
    assert_eq!(p.demote.as_deref(), Some("a"));
    assert!(p.promote);
    let p = e.on_dominant_speaker("b");
    assert!(p.demote.is_none());
    let p = e.on_dominant_speaker("ghost");
    assert_eq!(p.demote.as_deref(), Some("b"));
    assert!(!p.promote);
}

#[test]
fn renderer_camera_off_brings_black_tile_back() {
    let mut e = RendererEngine::new();
    e.on_participant_joined("a", "Ann", false, false);
    assert!(e.on_video_stream_arrived("a", false));
    assert_eq!(e.on_source_info_updated("a", true, false, false), SourceUpdate::SwapToBlack);
    // already black: a second mute report only relayouts
    assert_eq!(e.on_source_info_updated("a", true, false, false), SourceUpdate::Relayout);
    assert_eq!(e.on_source_info_updated("zz", true, false, false), SourceUpdate::UnknownEndpoint);
}

#[test]
fn renderer_muting_a_black_tile_only_relayouts() {
    let mut e = RendererEngine::new();
    e.on_participant_joined("a", "Ann", false, false);
    assert_eq!(e.on_source_info_updated("a", true, true, false), SourceUpdate::Relayout);
}

#[test]
fn renderer_ssrc_lookup_after_register() {
    let mut e = RendererEngine::new();
    assert_eq!(e.endpoint_for_ssrc(7), None);
    assert!(!e.is_screenshare_ssrc(7));
    e.register_ssrc(7, "a", "a-v0");
    e.register_ssrc(8, "b", "b-v1");
    assert_eq!(e.endpoint_for_ssrc(7).as_deref(), Some("a"));
    assert!(!e.is_screenshare_ssrc(7));
    assert_eq!(e.endpoint_for_ssrc(8).as_deref(), Some("b"));
    assert!(e.is_screenshare_ssrc(8));
    e.register_ssrc(7, "c", "c-v1");
    assert_eq!(e.endpoint_for_ssrc(7).as_deref(), Some("c"));
    assert!(e.is_screenshare_ssrc(7));
    assert!(!e.is_screenshare_ssrc(9));
}

#[test]
fn renderer_screenshare_switches_layout() {
    let mut e = RendererEngine::new();
    e.on_participant_joined("a", "Ann", false, false);
    e.on_participant_joined("b", "Bob", false, false);
    assert!(e.on_video_stream_arrived("b", true));
    let r = e.layout();
    assert_eq!(r[0].endpoint, "b");
    assert!(r[0].is_screenshare);
    assert_eq!(r[0].width, 1440);
    assert!(e.on_video_stream_removed("b", true));
    let r = e.layout();
    assert!(!r[0].is_screenshare);
    assert!(!e.on_video_stream_removed("zz", false));
}

#[test]
fn renderer_leave_removes_tile() {
    let mut e = RendererEngine::new();
    e.on_participant_joined("a", "Ann", false, false);
    e.on_participant_joined("b", "Bob", false, false);
    assert!(e.on_participant_left("b"));
    assert!(!e.has_tile("b"));
    assert!(!e.on_participant_left("b"));
    assert_eq!(e.layout().len(), 2);
    // rejoining gives one fresh tile
    e.on_participant_joined("b", "Bob", false, false);
    assert_eq!(e.layout().len(), 3);
}

#[test]
fn renderer_promote_without_tile() {
    let mut e = RendererEngine::new();
    let p = e.promote_to_dominant("x");
    assert!(!p.promote);
    assert!(p.demote.is_none());
}
