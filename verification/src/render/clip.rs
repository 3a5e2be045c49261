//! Turning layout segments into concrete clips over the recorded files.
//!
//! A [`Placement`] says "show this participant's camera here, from 12s to
//! 40s"; a [`Clip`] adds which file that is and how far into it to seek,
//! since each recording starts when that stream did, not when the meeting
//! did. Times are milliseconds; paths are relative to the recordings
//! directory given.

use crate::render::layout::{participant_of, placement_views, Placement, PlacementView, Rect, Segment, Source, SourceView, segment_views, SegmentView};
use crate::render::timeline::{dom_views, part_views, PView, Timeline};
use crate::text::{chars_of, push_chars, push_str, string_from_chars};
use vstd::prelude::*;

verus! {

/// What a clip's source file holds.
#[derive(Debug, Clone, Copy, PartialEq, Eq, Structural)]
pub enum ClipKind {
    Camera,
    ScreenShare,
    Avatar,
    Audio,
}

/// Who a clip shows.
#[derive(Debug, Clone)]
pub struct Participant {
    pub endpoint: String,
    pub nickname: String,
}

/// One source file placed on the output timeline.
#[derive(Debug, Clone)]
pub struct Clip {
    pub kind: ClipKind,
    pub participant: Participant,
    /// The recording, as `<dir>/<endpoint>/<file>`.
    pub path: String,
    /// When the clip starts and ends on the output timeline.
    pub timeline_start: u64,
    pub timeline_end: u64,
    /// Where to place it in the frame; `None` for audio.
    pub rect: Option<Rect>,
    pub layer: u32,
    /// How far into the source file to start: the offset between the
    /// meeting clock and this file's own clock. `None` for stills.
    pub inpoint: Option<u64>,
}

/// A clip as plain values.
pub struct ClipView {
    pub kind: ClipKind,
    pub endpoint: Seq<char>,
    pub nickname: Seq<char>,
    pub path: Seq<char>,
    pub start: u64,
    pub end: u64,
    pub rect: Option<Rect>,
    pub layer: u32,
    pub inpoint: Option<u64>,
}

impl View for Clip {
    type V = ClipView;

    open spec fn view(&self) -> ClipView {
        ClipView {
            kind: self.kind,
            endpoint: self.participant.endpoint@,
            nickname: self.participant.nickname@,
            path: self.path@,
            start: self.timeline_start,
            end: self.timeline_end,
            rect: self.rect,
            layer: self.layer,
            inpoint: self.inpoint,
        }
    }
}

/// The views of a list of clips.
pub open spec fn clip_views(v: Seq<Clip>) -> Seq<ClipView> {
    v.map_values(|c: Clip| c@)
}

/// `<dir>/<pid>/<file>`.
pub open spec fn recording_path(dir: Seq<char>, pid: Seq<char>, file: Seq<char>) -> Seq<char> {
    dir + "/"@ + pid + "/"@ + file
}

/// `a - b`, or `0` when `b` is later.
pub open spec fn offset(a: u64, b: u64) -> u64 {
    if a >= b {
        (a - b) as u64
    } else {
        0
    }
}

/// The clip for one placement shown from `start` to `end`, with the
/// nickname `nick`.
pub open spec fn clip_for(tl: Timeline, dir: Seq<char>, p: PlacementView, start: u64, end: u64, nick: Seq<char>) -> ClipView {
    match p.source {
        SourceView::Camera(pid) => ClipView {
            kind: ClipKind::Camera,
            endpoint: pid,
            nickname: nick,
            path: recording_path(dir, pid, "camera_video.mkv"@),
            start,
            end,
            rect: Some(p.rect),
            layer: p.layer,
            inpoint: Some(offset(start, participant_of(tl, pid)->0.joined)),
        },
        SourceView::Share(pid) => ClipView {
            kind: ClipKind::ScreenShare,
            endpoint: pid,
            nickname: nick,
            path: recording_path(dir, pid, "screenshare_video.mkv"@),
            start,
            end,
            rect: Some(p.rect),
            layer: p.layer,
            inpoint: Some(
                offset(
                    start,
                    if participant_of(tl, pid)->0.share.len() > 0 {
                        participant_of(tl, pid)->0.share[0].0
                    } else {
                        0
                    },
                ),
            ),
        },
        SourceView::Avatar(pid) => ClipView {
            kind: ClipKind::Avatar,
            endpoint: pid,
            nickname: nick,
            path: recording_path(dir, pid, "avatar.png"@),
            start,
            end,
            rect: Some(p.rect),
            layer: p.layer,
            inpoint: None,
        },
    }
}

/// Whether a placement's participant is in the timeline, as its recordings
/// need (an avatar needs nothing).
pub open spec fn placement_known(tl: Timeline, p: PlacementView) -> bool {
    match p.source {
        SourceView::Camera(pid) => participant_of(tl, pid) is Some,
        SourceView::Share(pid) => participant_of(tl, pid) is Some,
        SourceView::Avatar(_) => true,
    }
}


/// The clips of one segment's placements.
pub open spec fn segment_clips(tl: Timeline, dir: Seq<char>, ps: Seq<PlacementView>, start: u64, end: u64, nick: Seq<char>) -> Seq<ClipView>
    decreases ps.len(),
{
    if ps.len() == 0 {
        seq![]
    } else {
        segment_clips(tl, dir, ps.drop_last(), start, end, nick).push(clip_for(tl, dir, ps.last(), start, end, nick))
    }
}

/// The clips of every segment, in order.
pub open spec fn visual_clips(tl: Timeline, dir: Seq<char>, segs: Seq<SegmentView>, nick: Seq<char>) -> Seq<ClipView>
    decreases segs.len(),
{
    if segs.len() == 0 {
        seq![]
    } else {
        visual_clips(tl, dir, segs.drop_last(), nick) + segment_clips(
            tl,
            dir,
            segs.last().placements,
            segs.last().start,
            segs.last().end,
            nick,
        )
    }
}

/// The largest layer among some placements, `base` if larger.
pub open spec fn max_layer_in(ps: Seq<PlacementView>, base: Option<u32>) -> Option<u32>
    decreases ps.len(),
{
    if ps.len() == 0 {
        base
    } else {
        let m = max_layer_in(ps.drop_last(), base);
        match m {
            Some(x) => if ps.last().layer > x {
                Some(ps.last().layer)
            } else {
                Some(x)
            },
            None => Some(ps.last().layer),
        }
    }
}

/// The largest layer of any placement of any segment.
pub open spec fn max_layer(segs: Seq<SegmentView>) -> Option<u32>
    decreases segs.len(),
{
    if segs.len() == 0 {
        None
    } else {
        max_layer_in(segs.last().placements, max_layer(segs.drop_last()))
    }
}

/// The layer audio goes on: its own, one above the highest visual layer, and
/// `1` without visuals.
pub open spec fn audio_layer(segs: Seq<SegmentView>) -> u32 {
    match max_layer(segs) {
        Some(m) => (m + 1) as u32,
        None => 1,
    }
}

/// Whether one more layer fits above every placement's layer.
pub open spec fn room_above(segs: Seq<SegmentView>) -> bool {
    max_layer(segs) matches Some(m) ==> m < u32::MAX
}

/// The audio clips of one participant: one per unmuted interval.
pub open spec fn participant_audio(dir: Seq<char>, pid: Seq<char>, p: PView, intervals: Seq<(u64, u64)>, layer: u32, nick: Seq<char>) -> Seq<ClipView>
    decreases intervals.len(),
{
    if intervals.len() == 0 {
        seq![]
    } else {
        let (s, e) = intervals.last();
        participant_audio(dir, pid, p, intervals.drop_last(), layer, nick).push(
            ClipView {
                kind: ClipKind::Audio,
                endpoint: pid,
                nickname: nick,
                path: recording_path(dir, pid, "audio.mkv"@),
                start: s,
                end: e,
                rect: None,
                layer,
                inpoint: Some(offset(s, p.joined)),
            },
        )
    }
}

/// The audio clips of every participant, in the timeline's order.
pub open spec fn audio_clips(dir: Seq<char>, parts: Seq<(Seq<char>, PView)>, layer: u32, nick: Seq<char>) -> Seq<ClipView>
    decreases parts.len(),
{
    if parts.len() == 0 {
        seq![]
    } else {
        audio_clips(dir, parts.drop_last(), layer, nick) + participant_audio(
            dir,
            parts.last().0,
            parts.last().1,
            parts.last().1.audio,
            layer,
            nick,
        )
    }
}

/// Whether `a` sorts no later than `b`: by start, then by layer.
pub open spec fn clip_le(a: ClipView, b: ClipView) -> bool {
    a.start < b.start || (a.start == b.start && a.layer <= b.layer)
}

/// `s` with `c` inserted after the last element that sorts no later than it.
pub open spec fn insert_clip(s: Seq<ClipView>, c: ClipView) -> Seq<ClipView>
    decreases s.len(),
{
    if s.len() == 0 {
        seq![c]
    } else if clip_le(s.last(), c) {
        s.push(c)
    } else {
        insert_clip(s.drop_last(), c).push(s.last())
    }
}

/// The clips stably sorted by start, then layer.
pub open spec fn sort_clips(s: Seq<ClipView>) -> Seq<ClipView>
    decreases s.len(),
{
    if s.len() == 0 {
        seq![]
    } else {
        insert_clip(sort_clips(s.drop_last()), s.last())
    }
}

/// The nickname every clip is labelled with: the first speaker stretch's.
pub open spec fn clip_nickname(tl: Timeline) -> Seq<char> {
    dom_views(tl.dominant@)[0].nickname
}

/// Every clip of a render, in the order the renderer adds them.
pub open spec fn all_clips(tl: Timeline, segs: Seq<SegmentView>, dir: Seq<char>) -> Seq<ClipView> {
    let nick = clip_nickname(tl);
    sort_clips(
        visual_clips(tl, dir, segs, nick) + audio_clips(dir, part_views(tl.participants@), audio_layer(segs), nick),
    )
}

/// `<dir>/<pid>/<file>`.
fn path_of(dir: &str, pid: &String, file: &str) -> (r: String)
    ensures
        r@ == recording_path(dir@, pid@, file@),
{
    let mut v: Vec<char> = Vec::new();
    push_str(&mut v, dir);
    push_str(&mut v, "/");
    push_str(&mut v, pid.as_str());
    push_str(&mut v, "/");
    push_str(&mut v, file);
    assert(v@ =~= recording_path(dir@, pid@, file@));
    string_from_chars(v.as_slice())
}

fn offset_exec(a: u64, b: u64) -> (r: u64)
    ensures
        r == offset(a, b),
{
    if a >= b {
        a - b
    } else {
        0
    }
}

impl Clip {
    /// Resolves one placement into a clip: the file that backs it, and the
    /// seek offset that lines that file up with meeting time.
    pub fn placement_to_clip(
        tl: &Timeline,
        dir_entry: &str,
        placement: &Placement,
        start: u64,
        end: u64,
    ) -> (r: Clip)
        requires
            placement_known(*tl, placement@),
            tl.dominant@.len() > 0,
        ensures
            r@ == clip_for(*tl, dir_entry@, placement@, start, end, clip_nickname(*tl)),
    {
        let nickname = tl.dominant[0].nickname.clone();
        assert(nickname@ == clip_nickname(*tl));
        match &placement.source {
            Source::Camera(pid) => {
                let p = match crate::render::layout::participant(tl, pid.as_str()) {
                    Some(p) => p,
                    None => {
                        return Clip {
                            kind: ClipKind::Avatar,
                            participant: Participant { endpoint: pid.clone(), nickname },
                            path: path_of(dir_entry, pid, "avatar.png"),
                            timeline_start: start,
                            timeline_end: end,
                            rect: Some(placement.rect),
                            layer: placement.layer,
                            inpoint: None,
                        };
                    },
                };
                Clip {
                    kind: ClipKind::Camera,
                    participant: Participant { endpoint: pid.clone(), nickname },
                    path: path_of(dir_entry, pid, "camera_video.mkv"),
                    timeline_start: start,
                    timeline_end: end,
                    rect: Some(placement.rect),
                    layer: placement.layer,
                    inpoint: Some(offset_exec(start, p.joined)),
                }
            },
            Source::Share(pid) => {
                let p = match crate::render::layout::participant(tl, pid.as_str()) {
                    Some(p) => p,
                    None => {
                        return Clip {
                            kind: ClipKind::Avatar,
                            participant: Participant { endpoint: pid.clone(), nickname },
                            path: path_of(dir_entry, pid, "avatar.png"),
                            timeline_start: start,
                            timeline_end: end,
                            rect: Some(placement.rect),
                            layer: placement.layer,
                            inpoint: None,
                        };
                    },
                };
                let share_start: u64 = if p.share.len() > 0 {
                    p.share[0].0
                } else {
                    0
                };
                Clip {
                    kind: ClipKind::ScreenShare,
                    participant: Participant { endpoint: pid.clone(), nickname },
                    path: path_of(dir_entry, pid, "screenshare_video.mkv"),
                    timeline_start: start,
                    timeline_end: end,
                    rect: Some(placement.rect),
                    layer: placement.layer,
                    inpoint: Some(offset_exec(start, share_start)),
                }
            },
            Source::Avatar(pid) => Clip {
                kind: ClipKind::Avatar,
                participant: Participant { endpoint: pid.clone(), nickname },
                path: path_of(dir_entry, pid, "avatar.png"),
                timeline_start: start,
                timeline_end: end,
                rect: Some(placement.rect),
                layer: placement.layer,
                inpoint: None,
            },
        }
    }
}


/// Whether every placement of every segment has what its clip needs.
pub open spec fn segments_known(tl: Timeline, segs: Seq<Segment>) -> bool {
    forall|i: int, k: int|
        0 <= i < segs.len() && 0 <= k < segs[i].placements@.len() ==> placement_known(
            tl,
            #[trigger] segs[i].placements@[k]@,
        )
}

/// Whether there is nothing to make a clip of.
pub open spec fn nothing_to_show(tl: Timeline, segs: Seq<Segment>) -> bool {
    &&& forall|i: int| 0 <= i < segs.len() ==> #[trigger] segs[i].placements@.len() == 0
    &&& forall|j: int| 0 <= j < tl.participants@.len() ==> #[trigger] tl.participants@[j].1.audio@.len() == 0
}

proof fn lemma_nothing_to_show(tl: Timeline, segs: Seq<Segment>, dir: Seq<char>, nick: Seq<char>, layer: u32)
    requires
        nothing_to_show(tl, segs),
    ensures
        visual_clips(tl, dir, segment_views(segs), nick).len() == 0,
        audio_clips(dir, part_views(tl.participants@), layer, nick).len() == 0,
{
    lemma_no_visual(tl, segs, dir, nick);
    lemma_no_audio(tl.participants@, dir, layer, nick);
}

proof fn lemma_no_visual(tl: Timeline, segs: Seq<Segment>, dir: Seq<char>, nick: Seq<char>)
    requires
        forall|i: int| 0 <= i < segs.len() ==> #[trigger] segs[i].placements@.len() == 0,
    ensures
        visual_clips(tl, dir, segment_views(segs), nick).len() == 0,
    decreases segs.len(),
{
    if segs.len() > 0 {
        assert(segment_views(segs).drop_last() =~= segment_views(segs.drop_last()));
        lemma_no_visual(tl, segs.drop_last(), dir, nick);
        assert(segs[segs.len() - 1].placements@.len() == 0);
        let last = segment_views(segs).last();
        assert(last.placements.len() == 0);
    }
}

proof fn lemma_no_audio(parts: Seq<(String, crate::render::timeline::Participant)>, dir: Seq<char>, layer: u32, nick: Seq<char>)
    requires
        forall|j: int| 0 <= j < parts.len() ==> #[trigger] parts[j].1.audio@.len() == 0,
    ensures
        audio_clips(dir, part_views(parts), layer, nick).len() == 0,
    decreases parts.len(),
{
    if parts.len() > 0 {
        assert(part_views(parts).drop_last() =~= part_views(parts.drop_last()));
        lemma_no_audio(parts.drop_last(), dir, layer, nick);
        assert(parts[parts.len() - 1].1.audio@.len() == 0);
    }
}

/// Inserts a clip after the last one that sorts no later than it.
fn insert_clip_exec(v: &mut Vec<Clip>, c: Clip)
    ensures
        clip_views(final(v)@) == insert_clip(clip_views(old(v)@), c@),
{
    let ghost s = clip_views(v@);
    let mut j: usize = v.len();
    assert(s.take(j as int) =~= s);
    assert(s.skip(j as int) =~= Seq::<ClipView>::empty());
    assert(insert_clip(s, c@) =~= insert_clip(s.take(j as int), c@) + s.skip(j as int));
    while j > 0 && !(v[j - 1].timeline_start < c.timeline_start || (v[j - 1].timeline_start == c.timeline_start && v[j - 1].layer <= c.layer))
        invariant
            j <= v@.len(),
            s == clip_views(v@),
            v@ == old(v)@,
            insert_clip(s, c@) == insert_clip(s.take(j as int), c@) + s.skip(j as int),
        decreases j,
    {
        assert(s.take(j as int).drop_last() =~= s.take(j - 1));
        assert(s.take(j as int).last() == s[j - 1]);
        assert(s.skip(j - 1) =~= seq![s[j - 1]] + s.skip(j as int));
        assert(insert_clip(s.take(j as int), c@) == insert_clip(s.take(j - 1), c@).push(s[j - 1]));
        assert(insert_clip(s.take(j - 1), c@).push(s[j - 1]) + s.skip(j as int) =~= insert_clip(
            s.take(j - 1),
            c@,
        ) + s.skip(j - 1));
        j -= 1;
    }
    if j > 0 {
        assert(s.take(j as int).last() == s[j - 1]);
        assert(insert_clip(s.take(j as int), c@) == s.take(j as int).push(c@));
    } else {
        assert(s.take(0) =~= Seq::<ClipView>::empty());
    }
    let ghost cv = c@;
    v.insert(j, c);
    assert(clip_views(v@) =~= s.take(j as int).push(cv) + s.skip(j as int));
}

impl Clip {
    /// Builds every clip for a render: the visual clips from the segments, plus
    /// one audio clip per participant per span they were unmuted, on its own
    /// layer above every visual one; sorted by start time then layer, the order
    /// the renderer adds them.
    pub fn to_clips(tl: &Timeline, segments: &Vec<Segment>, dir_entry: &str) -> (r: Vec<Clip>)
        requires
            segments_known(*tl, segments@),
            tl.dominant@.len() > 0 || nothing_to_show(*tl, segments@),
            room_above(segment_views(segments@)),
        ensures
            clip_views(r@) == all_clips(*tl, segment_views(segments@), dir_entry@),
    {
        let ghost segs = segment_views(segments@);
        let ghost nick = clip_nickname(*tl);
        if tl.dominant.len() == 0 {
            proof {
                lemma_nothing_to_show(*tl, segments@, dir_entry@, nick, audio_layer(segs));
                assert(visual_clips(*tl, dir_entry@, segs, nick) + audio_clips(
                    dir_entry@,
                    part_views(tl.participants@),
                    audio_layer(segs),
                    nick,
                ) =~= Seq::<ClipView>::empty());
            }
            let r: Vec<Clip> = Vec::new();
            assert(clip_views(r@) =~= Seq::<ClipView>::empty());
            return r;
        }
        let mut clips: Vec<Clip> = Vec::new();
        let mut max_layer_seen: Option<u32> = None;
        let mut i: usize = 0;
        assert(clip_views(clips@) =~= Seq::<ClipView>::empty());
        while i < segments.len()
            invariant
                i <= segments@.len(),
                segs == segment_views(segments@),
                nick == clip_nickname(*tl),
                tl.dominant@.len() > 0,
                segments_known(*tl, segments@),
                clip_views(clips@) == visual_clips(*tl, dir_entry@, segs.take(i as int), nick),
                max_layer_seen == max_layer(segs.take(i as int)),
            decreases segments@.len() - i,
        {
            assert(segs.take(i + 1).drop_last() =~= segs.take(i as int));
            let seg = &segments[i];
            let ghost base = clip_views(clips@);
            let ghost ps = placement_views(seg.placements@);
            assert(segs.take(i + 1).last() == seg@);
            let mut k: usize = 0;
            let ghost m0 = max_layer_seen;
            while k < seg.placements.len()
                invariant
                    k <= seg.placements@.len(),
                    ps == placement_views(seg.placements@),
                    nick == clip_nickname(*tl),
                    tl.dominant@.len() > 0,
                    segments_known(*tl, segments@),
                    i < segments@.len(),
                    *seg == segments@[i as int],
                    clip_views(clips@) == base + segment_clips(*tl, dir_entry@, ps.take(k as int), seg.start, seg.end, nick),
                    max_layer_seen == max_layer_in(ps.take(k as int), m0),
                decreases seg.placements@.len() - k,
            {
                assert(ps.take(k + 1).drop_last() =~= ps.take(k as int));
                let pl = &seg.placements[k];
                assert(ps.take(k + 1).last() == pl@);
                assert(placement_known(*tl, segments@[i as int].placements@[k as int]@));
                let c = Clip::placement_to_clip(tl, dir_entry, pl, seg.start, seg.end);
                let ghost before = clip_views(clips@);
                let ghost cv = c@;
                clips.push(c);
                assert(clip_views(clips@) =~= before.push(cv));
                max_layer_seen = match max_layer_seen {
                    Some(x) => if pl.layer > x {
                        Some(pl.layer)
                    } else {
                        Some(x)
                    },
                    None => Some(pl.layer),
                };
                k += 1;
            }
            assert(ps.take(k as int) =~= ps);
            i += 1;
        }
        assert(segs.take(i as int) =~= segs);
        let layer: u32 = match max_layer_seen {
            Some(m) => m + 1,
            None => 1,
        };
        let ghost pv = part_views(tl.participants@);
        let ghost visual = clip_views(clips@);
        let mut j: usize = 0;
        while j < tl.participants.len()
            invariant
                j <= tl.participants@.len(),
                pv == part_views(tl.participants@),
                nick == clip_nickname(*tl),
                tl.dominant@.len() > 0,
                layer == audio_layer(segs),
                clip_views(clips@) == visual + audio_clips(dir_entry@, pv.take(j as int), layer, nick),
            decreases tl.participants@.len() - j,
        {
            assert(pv.take(j + 1).drop_last() =~= pv.take(j as int));
            let pid = &tl.participants[j].0;
            let p = &tl.participants[j].1;
            assert(pv.take(j + 1).last() == (pid@, p@));
            let ghost base = clip_views(clips@);
            let mut k: usize = 0;
            while k < p.audio.len()
                invariant
                    k <= p.audio@.len(),
                    nick == clip_nickname(*tl),
                    tl.dominant@.len() > 0,
                    clip_views(clips@) == base + participant_audio(dir_entry@, pid@, p@, p.audio@.take(k as int), layer, nick),
                decreases p.audio@.len() - k,
            {
                assert(p.audio@.take(k + 1).drop_last() =~= p.audio@.take(k as int));
                let (s, e) = p.audio[k];
                assert(p.audio@.take(k + 1).last() == (s, e));
                let c = Clip {
                    kind: ClipKind::Audio,
                    participant: Participant { endpoint: pid.clone(), nickname: tl.dominant[0].nickname.clone() },
                    path: path_of(dir_entry, pid, "audio.mkv"),
                    timeline_start: s,
                    timeline_end: e,
                    rect: None,
                    layer,
                    inpoint: Some(offset_exec(s, p.joined)),
                };
                let ghost before = clip_views(clips@);
                let ghost cv = c@;
                clips.push(c);
                assert(clip_views(clips@) =~= before.push(cv));
                k += 1;
            }
            assert(p.audio@.take(k as int) =~= p.audio@);
            assert(clip_views(clips@) =~= visual + audio_clips(dir_entry@, pv.take(j + 1), layer, nick));
            j += 1;
        }
        assert(pv.take(j as int) =~= pv);
        let ghost unsorted = clip_views(clips@);
        let mut sorted: Vec<Clip> = Vec::new();
        assert(clip_views(sorted@) =~= Seq::<ClipView>::empty());
        assert(unsorted.take(0) =~= Seq::<ClipView>::empty());
        assert(unsorted.skip(0) =~= unsorted);
        let ghost mut k: int = 0;
        while clips.len() > 0
            invariant
                0 <= k <= unsorted.len(),
                clip_views(sorted@) == sort_clips(unsorted.take(k)),
                clip_views(clips@) == unsorted.skip(k),
            decreases clips@.len(),
        {
            let ghost before = clip_views(clips@);
            let c = clips.remove(0);
            assert(before[0] == c@);
            assert(clip_views(clips@) =~= before.drop_first());
            assert(unsorted[k] == c@);
            assert(unsorted.take(k + 1).drop_last() =~= unsorted.take(k));
            assert(unsorted.take(k + 1).last() == c@);
            insert_clip_exec(&mut sorted, c);
            proof {
                assert(unsorted.skip(k).drop_first() =~= unsorted.skip(k + 1));
                k = k + 1;
            }
        }
        assert(unsorted.skip(k).len() == 0);
        assert(unsorted.take(k) =~= unsorted);
        sorted
    }
}

} // verus!

verus! {

/// Whether clips are in start, then layer, order.
pub open spec fn clips_sorted(s: Seq<ClipView>) -> bool {
    forall|i: int, j: int| 0 <= i < j < s.len() ==> clip_le(#[trigger] s[i], #[trigger] s[j])
}

proof fn lemma_insert_members(t: Seq<ClipView>, c: ClipView)
    ensures
        insert_clip(t, c).len() == t.len() + 1,
        forall|x: ClipView| #[trigger] insert_clip(t, c).contains(x) <==> (t.contains(x) || x == c),
    decreases t.len(),
{
    if t.len() == 0 {
        assert(insert_clip(t, c) =~= seq![c]);
        assert forall|x: ClipView| insert_clip(t, c).contains(x) <==> (t.contains(x) || x == c) by {
            if insert_clip(t, c).contains(x) {
                assert(insert_clip(t, c)[0] == c);
            }
            if x == c {
                assert(insert_clip(t, c)[0] == c);
            }
        }
    } else if clip_le(t.last(), c) {
        assert forall|x: ClipView| insert_clip(t, c).contains(x) <==> (t.contains(x) || x == c) by {
            let r = t.push(c);
            if r.contains(x) {
                let k = choose|k: int| 0 <= k < r.len() && r[k] == x;
                if k < t.len() {
                    assert(t[k] == x);
                }
            }
            if t.contains(x) {
                let k = choose|k: int| 0 <= k < t.len() && t[k] == x;
                assert(r[k] == x);
            }
            if x == c {
                assert(r[t.len() as int] == c);
            }
        }
    } else {
        let d = t.drop_last();
        lemma_insert_members(d, c);
        let r = insert_clip(d, c).push(t.last());
        assert forall|x: ClipView| insert_clip(t, c).contains(x) <==> (t.contains(x) || x == c) by {
            if r.contains(x) {
                let k = choose|k: int| 0 <= k < r.len() && r[k] == x;
                if k < r.len() - 1 {
                    assert(insert_clip(d, c)[k] == x);
                    assert(insert_clip(d, c).contains(x));
                    if d.contains(x) {
                        let m = choose|m: int| 0 <= m < d.len() && d[m] == x;
                        assert(t[m] == x);
                    }
                } else {
                    assert(t[t.len() - 1] == x);
                }
            }
            if t.contains(x) {
                let k = choose|k: int| 0 <= k < t.len() && t[k] == x;
                if k < t.len() - 1 {
                    assert(d[k] == x);
                    assert(d.contains(x));
                    assert(insert_clip(d, c).contains(x));
                    let m = choose|m: int| 0 <= m < insert_clip(d, c).len() && insert_clip(d, c)[m] == x;
                    assert(r[m] == x);
                } else {
                    assert(r[r.len() - 1] == x);
                }
            }
            if x == c {
                assert(insert_clip(d, c).contains(c));
                let m = choose|m: int| 0 <= m < insert_clip(d, c).len() && insert_clip(d, c)[m] == c;
                assert(r[m] == c);
            }
        }
    }
}

proof fn lemma_insert_sorted(t: Seq<ClipView>, c: ClipView)
    requires
        clips_sorted(t),
    ensures
        clips_sorted(insert_clip(t, c)),
    decreases t.len(),
{
    if t.len() == 0 {
    } else if clip_le(t.last(), c) {
        let r = t.push(c);
        assert forall|i: int, j: int| 0 <= i < j < r.len() implies clip_le(#[trigger] r[i], #[trigger] r[j]) by {
            if j < t.len() {
                assert(r[i] == t[i] && r[j] == t[j]);
            } else if i < t.len() - 1 {
                assert(clip_le(t[i], t[t.len() - 1]));
            }
        }
    } else {
        let d = t.drop_last();
        assert forall|i: int, j: int| 0 <= i < j < d.len() implies clip_le(#[trigger] d[i], #[trigger] d[j]) by {
            assert(d[i] == t[i] && d[j] == t[j]);
        }
        lemma_insert_sorted(d, c);
        lemma_insert_members(d, c);
        let m = insert_clip(d, c);
        let r = m.push(t.last());
        assert forall|i: int, j: int| 0 <= i < j < r.len() implies clip_le(#[trigger] r[i], #[trigger] r[j]) by {
            if j < m.len() {
                assert(r[i] == m[i] && r[j] == m[j]);
            } else {
                assert(m.contains(m[i]));
                if d.contains(m[i]) {
                    let k = choose|k: int| 0 <= k < d.len() && d[k] == m[i];
                    assert(clip_le(t[k], t[t.len() - 1]));
                }
            }
        }
    }
}

proof fn lemma_sort_sorted(s: Seq<ClipView>)
    ensures
        clips_sorted(sort_clips(s)),
    decreases s.len(),
{
    if s.len() > 0 {
        lemma_sort_sorted(s.drop_last());
        lemma_insert_sorted(sort_clips(s.drop_last()), s.last());
    }
}

/// The clips of a render come out ordered by start time, then layer: the
/// order the renderer adds them in.
pub proof fn law_clips_sorted(tl: Timeline, segs: Seq<SegmentView>, dir: Seq<char>)
    ensures
        clips_sorted(all_clips(tl, segs, dir)),
{
    let nick = clip_nickname(tl);
    lemma_sort_sorted(
        visual_clips(tl, dir, segs, nick) + audio_clips(dir, part_views(tl.participants@), audio_layer(segs), nick),
    );
}

proof fn lemma_sort_members(s: Seq<ClipView>)
    ensures
        forall|x: ClipView| #[trigger] sort_clips(s).contains(x) <==> s.contains(x),
    decreases s.len(),
{
    if s.len() > 0 {
        let d = s.drop_last();
        lemma_sort_members(d);
        lemma_insert_members(sort_clips(d), s.last());
        assert forall|x: ClipView| #[trigger] sort_clips(s).contains(x) <==> s.contains(x) by {
            if d.contains(x) {
                let k = choose|k: int| 0 <= k < d.len() && d[k] == x;
                assert(s[k] == x);
            }
            if s.contains(x) {
                let k = choose|k: int| 0 <= k < s.len() && s[k] == x;
                if k < s.len() - 1 {
                    assert(d[k] == x);
                } else {
                    assert(x == s.last());
                }
            }
        }
    }
}

proof fn lemma_max_layer_in(ps: Seq<PlacementView>, base: Option<u32>)
    ensures
        base is Some ==> max_layer_in(ps, base) is Some && base->0 <= max_layer_in(ps, base)->0,
        forall|i: int|
            0 <= i < ps.len() ==> max_layer_in(ps, base) is Some && #[trigger] ps[i].layer <= max_layer_in(
                ps,
                base,
            )->0,
    decreases ps.len(),
{
    if ps.len() > 0 {
        let d = ps.drop_last();
        lemma_max_layer_in(d, base);
        assert forall|i: int| 0 <= i < ps.len() implies max_layer_in(ps, base) is Some
            && #[trigger] ps[i].layer <= max_layer_in(ps, base)->0 by {
            if i < ps.len() - 1 {
                assert(d[i] == ps[i]);
            }
        }
    }
}

/// The largest layer of any placement, `0` when there is none.
pub open spec fn top_layer(segs: Seq<SegmentView>) -> u32 {
    match max_layer(segs) {
        Some(m) => m,
        None => 0,
    }
}

proof fn lemma_max_layer(segs: Seq<SegmentView>)
    ensures
        forall|j: int, i: int|
            0 <= j < segs.len() && 0 <= i < segs[j].placements.len() ==> #[trigger] segs[j].placements[i].layer
                <= top_layer(segs),
    decreases segs.len(),
{
    if segs.len() > 0 {
        let d = segs.drop_last();
        lemma_max_layer(d);
        let ps = segs.last().placements;
        lemma_max_layer_in(ps, max_layer(d));
        assert(max_layer(segs) == max_layer_in(ps, max_layer(d)));
        assert(top_layer(d) <= top_layer(segs));
        assert forall|j: int, i: int|
            0 <= j < segs.len() && 0 <= i < segs[j].placements.len() implies #[trigger] segs[j].placements[i].layer
                <= top_layer(segs) by {
            if j < segs.len() - 1 {
                assert(d[j] == segs[j]);
                assert(d[j].placements[i].layer <= top_layer(d));
            } else {
                assert(segs[j] == segs.last());
                assert(ps[i].layer <= max_layer_in(ps, max_layer(d))->0);
            }
        }
    }
}

proof fn lemma_segment_clips(tl: Timeline, dir: Seq<char>, ps: Seq<PlacementView>, start: u64, end: u64, nick: Seq<char>)
    ensures
        segment_clips(tl, dir, ps, start, end, nick).len() == ps.len(),
        forall|i: int|
            0 <= i < ps.len() ==> #[trigger] segment_clips(tl, dir, ps, start, end, nick)[i] == clip_for(
                tl,
                dir,
                ps[i],
                start,
                end,
                nick,
            ),
    decreases ps.len(),
{
    if ps.len() > 0 {
        let d = ps.drop_last();
        lemma_segment_clips(tl, dir, d, start, end, nick);
        assert forall|i: int| 0 <= i < ps.len() implies #[trigger] segment_clips(tl, dir, ps, start, end, nick)[i]
            == clip_for(tl, dir, ps[i], start, end, nick) by {
            if i < ps.len() - 1 {
                assert(d[i] == ps[i]);
            }
        }
    }
}

/// Every visual clip shows a placement of some segment, on that placement's
/// layer, and no visual clip is audio.
proof fn lemma_visual_layers(tl: Timeline, dir: Seq<char>, segs: Seq<SegmentView>, nick: Seq<char>)
    ensures
        forall|k: int|
            0 <= k < visual_clips(tl, dir, segs, nick).len() ==> (#[trigger] visual_clips(tl, dir, segs, nick)[k]).kind
                != ClipKind::Audio && exists|j: int, i: int|
                0 <= j < segs.len() && 0 <= i < segs[j].placements.len()
                    && #[trigger] segs[j].placements[i].layer == visual_clips(tl, dir, segs, nick)[k].layer,
    decreases segs.len(),
{
    if segs.len() > 0 {
        let d = segs.drop_last();
        let last = segs.last();
        lemma_visual_layers(tl, dir, d, nick);
        lemma_segment_clips(tl, dir, last.placements, last.start, last.end, nick);
        let v0 = visual_clips(tl, dir, d, nick);
        let sc = segment_clips(tl, dir, last.placements, last.start, last.end, nick);
        let v = visual_clips(tl, dir, segs, nick);
        assert(v == v0 + sc);
        assert forall|k: int| 0 <= k < v.len() implies (#[trigger] v[k]).kind != ClipKind::Audio && exists|j: int, i: int|
            0 <= j < segs.len() && 0 <= i < segs[j].placements.len()
                && #[trigger] segs[j].placements[i].layer == v[k].layer by {
            if k < v0.len() {
                assert(v[k] == v0[k]);
                let (j, i) = choose|j: int, i: int|
                    0 <= j < d.len() && 0 <= i < d[j].placements.len()
                        && #[trigger] d[j].placements[i].layer == v0[k].layer;
                assert(d[j] == segs[j]);
                assert(segs[j].placements[i].layer == v[k].layer);
            } else {
                let i = k - v0.len();
                assert(v[k] == sc[i]);
                assert(sc[i] == clip_for(tl, dir, last.placements[i], last.start, last.end, nick));
                assert(segs[segs.len() - 1] == last);
                assert(segs[segs.len() - 1].placements[i].layer == v[k].layer);
            }
        }
    }
}

/// Every audio clip is audio, on the layer given.
proof fn lemma_audio_layers(dir: Seq<char>, parts: Seq<(Seq<char>, PView)>, layer: u32, nick: Seq<char>)
    ensures
        forall|k: int|
            0 <= k < audio_clips(dir, parts, layer, nick).len() ==> (#[trigger] audio_clips(dir, parts, layer, nick)[k]).kind
                == ClipKind::Audio && audio_clips(dir, parts, layer, nick)[k].layer == layer,
    decreases parts.len(),
{
    if parts.len() > 0 {
        let d = parts.drop_last();
        lemma_audio_layers(dir, d, layer, nick);
        let p = parts.last();
        lemma_participant_audio_layers(dir, p.0, p.1, p.1.audio, layer, nick);
        let a0 = audio_clips(dir, d, layer, nick);
        let pa = participant_audio(dir, p.0, p.1, p.1.audio, layer, nick);
        assert forall|k: int| 0 <= k < audio_clips(dir, parts, layer, nick).len() implies (#[trigger] audio_clips(
            dir,
            parts,
            layer,
            nick,
        )[k]).kind == ClipKind::Audio && audio_clips(dir, parts, layer, nick)[k].layer == layer by {
            if k < a0.len() {
                assert(audio_clips(dir, parts, layer, nick)[k] == a0[k]);
            } else {
                assert(audio_clips(dir, parts, layer, nick)[k] == pa[k - a0.len()]);
            }
        }
    }
}

proof fn lemma_participant_audio_layers(
    dir: Seq<char>,
    pid: Seq<char>,
    p: PView,
    intervals: Seq<(u64, u64)>,
    layer: u32,
    nick: Seq<char>,
)
    ensures
        forall|k: int|
            0 <= k < participant_audio(dir, pid, p, intervals, layer, nick).len() ==> (
            #[trigger] participant_audio(dir, pid, p, intervals, layer, nick)[k]).kind == ClipKind::Audio
                && participant_audio(dir, pid, p, intervals, layer, nick)[k].layer == layer,
    decreases intervals.len(),
{
    if intervals.len() > 0 {
        lemma_participant_audio_layers(dir, pid, p, intervals.drop_last(), layer, nick);
        let a0 = participant_audio(dir, pid, p, intervals.drop_last(), layer, nick);
        assert forall|k: int| 0 <= k < participant_audio(dir, pid, p, intervals, layer, nick).len() implies (
            #[trigger] participant_audio(dir, pid, p, intervals, layer, nick)[k]).kind == ClipKind::Audio
            && participant_audio(dir, pid, p, intervals, layer, nick)[k].layer == layer by {
            if k < a0.len() {
                assert(participant_audio(dir, pid, p, intervals, layer, nick)[k] == a0[k]);
            }
        }
    }
}

/// Audio has a layer of its own: in a render, every audio clip lies on a
/// layer above every visual clip.
pub proof fn law_audio_above_visuals(tl: Timeline, segs: Seq<SegmentView>, dir: Seq<char>)
    requires
        room_above(segs),
    ensures
        forall|a: ClipView, v: ClipView|
            #![trigger all_clips(tl, segs, dir).contains(a), all_clips(tl, segs, dir).contains(v)]
            all_clips(tl, segs, dir).contains(a) && all_clips(tl, segs, dir).contains(v) && a.kind
                == ClipKind::Audio && v.kind != ClipKind::Audio ==> v.layer < a.layer,
{
    let nick = clip_nickname(tl);
    let vis = visual_clips(tl, dir, segs, nick);
    let aud = audio_clips(dir, part_views(tl.participants@), audio_layer(segs), nick);
    let all = vis + aud;
    lemma_sort_members(all);
    lemma_visual_layers(tl, dir, segs, nick);
    lemma_audio_layers(dir, part_views(tl.participants@), audio_layer(segs), nick);
    lemma_max_layer(segs);
    assert forall|a: ClipView, v: ClipView|
        all_clips(tl, segs, dir).contains(a) && all_clips(tl, segs, dir).contains(v) && a.kind == ClipKind::Audio
            && v.kind != ClipKind::Audio implies v.layer < a.layer by {
        assert(sort_clips(all).contains(a) && sort_clips(all).contains(v));
        let ka = choose|k: int| 0 <= k < all.len() && all[k] == a;
        let kv = choose|k: int| 0 <= k < all.len() && all[k] == v;
        if ka < vis.len() {
            assert(vis[ka] == a);
        }
        assert(aud[ka - vis.len()] == a);
        assert(a.layer == audio_layer(segs));
        if kv >= vis.len() {
            assert(aud[kv - vis.len()] == v);
        }
        assert(vis[kv] == v);
        let (j, i) = choose|j: int, i: int|
            0 <= j < segs.len() && 0 <= i < segs[j].placements.len()
                && #[trigger] segs[j].placements[i].layer == vis[kv].layer;
        assert(segs[j].placements[i].layer <= top_layer(segs));
    }
}

/// Whether an audio clip of participant `(pid, p)` plays one of `p`'s
/// unmuted spans, seeking to where that span starts in the participant's
/// recording: its start less the join time, or the file's start when it
/// begins before the join.
pub open spec fn plays_audio_span(c: ClipView, pid: Seq<char>, p: PView) -> bool {
    &&& c.endpoint == pid
    &&& p.audio.contains((c.start, c.end))
    &&& c.inpoint is Some
    &&& if c.start >= p.joined {
        c.inpoint->0 + p.joined == c.start
    } else {
        c.inpoint->0 == 0
    }
}

proof fn lemma_participant_audio_spans(
    dir: Seq<char>,
    pid: Seq<char>,
    p: PView,
    intervals: Seq<(u64, u64)>,
    layer: u32,
    nick: Seq<char>,
)
    ensures
        forall|k: int|
            0 <= k < participant_audio(dir, pid, p, intervals, layer, nick).len() ==> exists|m: int|
                0 <= m < intervals.len() && (#[trigger] participant_audio(dir, pid, p, intervals, layer, nick)[k]).start
                    == intervals[m].0 && participant_audio(dir, pid, p, intervals, layer, nick)[k].end
                    == intervals[m].1 && participant_audio(dir, pid, p, intervals, layer, nick)[k].endpoint
                    == pid && participant_audio(dir, pid, p, intervals, layer, nick)[k].inpoint == Some(
                    offset(intervals[m].0, p.joined),
                ),
    decreases intervals.len(),
{
    if intervals.len() > 0 {
        let d = intervals.drop_last();
        lemma_participant_audio_spans(dir, pid, p, d, layer, nick);
        let a0 = participant_audio(dir, pid, p, d, layer, nick);
        let pa = participant_audio(dir, pid, p, intervals, layer, nick);
        assert forall|k: int| 0 <= k < pa.len() implies exists|m: int|
            0 <= m < intervals.len() && (#[trigger] pa[k]).start == intervals[m].0 && pa[k].end == intervals[m].1
                && pa[k].endpoint == pid && pa[k].inpoint == Some(offset(intervals[m].0, p.joined)) by {
            if k < a0.len() {
                assert(pa[k] == a0[k]);
                let m = choose|m: int|
                    0 <= m < d.len() && (#[trigger] a0[k]).start == d[m].0 && a0[k].end == d[m].1
                        && a0[k].endpoint == pid && a0[k].inpoint == Some(offset(d[m].0, p.joined));
                assert(d[m] == intervals[m]);
            } else {
                assert(pa[k].start == intervals[intervals.len() - 1].0);
            }
        }
    }
}

proof fn lemma_audio_spans(dir: Seq<char>, parts: Seq<(Seq<char>, PView)>, layer: u32, nick: Seq<char>)
    ensures
        forall|k: int|
            0 <= k < audio_clips(dir, parts, layer, nick).len() ==> exists|j: int|
                0 <= j < parts.len() && plays_audio_span(
                    #[trigger] audio_clips(dir, parts, layer, nick)[k],
                    parts[j].0,
                    parts[j].1,
                ),
    decreases parts.len(),
{
    if parts.len() > 0 {
        let d = parts.drop_last();
        lemma_audio_spans(dir, d, layer, nick);
        let last = parts.last();
        lemma_participant_audio_spans(dir, last.0, last.1, last.1.audio, layer, nick);
        let a0 = audio_clips(dir, d, layer, nick);
        let pa = participant_audio(dir, last.0, last.1, last.1.audio, layer, nick);
        let all = audio_clips(dir, parts, layer, nick);
        assert(all == a0 + pa);
        assert forall|k: int| 0 <= k < all.len() implies exists|j: int|
            0 <= j < parts.len() && plays_audio_span(#[trigger] all[k], parts[j].0, parts[j].1) by {
            if k < a0.len() {
                assert(all[k] == a0[k]);
                let j = choose|j: int| 0 <= j < d.len() && plays_audio_span(#[trigger] a0[k], d[j].0, d[j].1);
                assert(d[j] == parts[j]);
            } else {
                let i = k - a0.len();
                assert(all[k] == pa[i]);
                let m = choose|m: int|
                    0 <= m < last.1.audio.len() && (#[trigger] pa[i]).start == last.1.audio[m].0 && pa[i].end
                        == last.1.audio[m].1 && pa[i].endpoint == last.0 && pa[i].inpoint == Some(
                        offset(last.1.audio[m].0, last.1.joined),
                    );
                assert(last.1.audio[m] == (pa[i].start, pa[i].end));
                assert(last.1.audio.contains((pa[i].start, pa[i].end)));
                assert(parts[parts.len() - 1] == last);
                assert(plays_audio_span(all[k], parts[parts.len() - 1].0, parts[parts.len() - 1].1));
            }
        }
    }
}

/// Every audio clip of a render plays an unmuted span of one of the
/// timeline's participants, and seeks the participant's recording to that
/// span's offset from their join (see [`plays_audio_span`]).
pub proof fn law_audio_clips_seek_to_span(tl: Timeline, segs: Seq<SegmentView>, dir: Seq<char>)
    ensures
        forall|c: ClipView|
            #[trigger] all_clips(tl, segs, dir).contains(c) && c.kind == ClipKind::Audio ==> exists|j: int|
                0 <= j < part_views(tl.participants@).len() && plays_audio_span(
                    c,
                    part_views(tl.participants@)[j].0,
                    part_views(tl.participants@)[j].1,
                ),
{
    let nick = clip_nickname(tl);
    let parts = part_views(tl.participants@);
    let vis = visual_clips(tl, dir, segs, nick);
    let aud = audio_clips(dir, parts, audio_layer(segs), nick);
    let all = vis + aud;
    lemma_sort_members(all);
    lemma_visual_layers(tl, dir, segs, nick);
    lemma_audio_spans(dir, parts, audio_layer(segs), nick);
    assert forall|c: ClipView| #[trigger] all_clips(tl, segs, dir).contains(c) && c.kind == ClipKind::Audio implies exists|j: int|
        0 <= j < parts.len() && plays_audio_span(c, parts[j].0, parts[j].1) by {
        assert(sort_clips(all).contains(c));
        let k = choose|k: int| 0 <= k < all.len() && all[k] == c;
        if k < vis.len() {
            assert(vis[k] == c);
        }
        assert(aud[k - vis.len()] == c);
    }
}

/// The number of layers a render needs: one more than the highest layer of
/// any clip, and one when there are no clips.
pub open spec fn layers_needed(clips: Seq<ClipView>) -> nat
    decreases clips.len(),
{
    if clips.len() == 0 {
        1
    } else {
        let rest = layers_needed(clips.drop_last());
        let here = clips.last().layer as nat + 1;
        if here > rest {
            here
        } else {
            rest
        }
    }
}

impl Clip {
    /// How many layers the render timeline needs for `clips`.
    pub fn layer_count(clips: &Vec<Clip>) -> (r: u32)
        requires
            forall|i: int| 0 <= i < clips@.len() ==> (#[trigger] clips@[i]).layer < u32::MAX,
        ensures
            r == layers_needed(clip_views(clips@)),
    {
        let mut n: u32 = 1;
        let mut i: usize = 0;
        while i < clips.len()
            invariant
                i <= clips@.len(),
                forall|k: int| 0 <= k < clips@.len() ==> (#[trigger] clips@[k]).layer < u32::MAX,
                n == layers_needed(clip_views(clips@.take(i as int))),
            decreases clips@.len() - i,
        {
            assert(clip_views(clips@.take(i + 1)).drop_last() =~= clip_views(clips@.take(i as int)));
            let here = clips[i].layer + 1;
            if here > n {
                n = here;
            }
            i += 1;
        }
        assert(clips@.take(i as int) =~= clips@);
        n
    }
}

} // verus!
