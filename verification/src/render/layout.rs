//! Deciding what is on screen, and when it changes.
//!
//! A [`Layout`] answers "what should be visible at this instant"; the layout
//! itself is stateless. [`segment_with`] turns that into spans by evaluating
//! the layout between every pair of interesting timestamps and merging
//! neighbours that produce identical placements. Times are milliseconds into
//! the meeting.

use crate::render::timeline::{covers, key_pos, part_views, PView, Participant, Timeline};
use vstd::prelude::*;

verus! {

/// Output frame size for the composited video.
pub const OUT_WIDTH: i32 = 1280;

pub const OUT_HEIGHT: i32 = 720;

/// Size of the corner thumbnail shown over a screenshare.
pub const THUMB_WIDTH: i32 = 320;

pub const THUMB_HEIGHT: i32 = 180;

/// Which recording fills a slot: a live camera, a screenshare, or the
/// camera-off placeholder.
#[derive(Debug, Clone)]
pub enum Source {
    Camera(String),
    Share(String),
    Avatar(String),
}

/// Position and size in output pixels.
#[derive(Debug, Clone, Copy, PartialEq, Eq, Structural)]
pub struct Rect {
    pub x: i32,
    pub y: i32,
    pub w: i32,
    pub h: i32,
}

/// One source placed on screen. Higher `layer` values are further back; the
/// renderer treats layer 0 as the topmost.
#[derive(Debug, Clone)]
pub struct Placement {
    pub source: Source,
    pub rect: Rect,
    pub layer: u32,
}

/// A span over which the layout does not change.
#[derive(Debug, Clone)]
pub struct Segment {
    pub start: u64,
    pub end: u64,
    pub placements: Vec<Placement>,
}

/// A source as plain values.
pub enum SourceView {
    Camera(Seq<char>),
    Share(Seq<char>),
    Avatar(Seq<char>),
}

impl View for Source {
    type V = SourceView;

    open spec fn view(&self) -> SourceView {
        match self {
            Source::Camera(p) => SourceView::Camera(p@),
            Source::Share(p) => SourceView::Share(p@),
            Source::Avatar(p) => SourceView::Avatar(p@),
        }
    }
}

/// A placement as plain values.
pub struct PlacementView {
    pub source: SourceView,
    pub rect: Rect,
    pub layer: u32,
}

impl View for Placement {
    type V = PlacementView;

    open spec fn view(&self) -> PlacementView {
        PlacementView { source: self.source@, rect: self.rect, layer: self.layer }
    }
}

/// The views of a list of placements.
pub open spec fn placement_views(v: Seq<Placement>) -> Seq<PlacementView> {
    v.map_values(|p: Placement| p@)
}

/// A segment as plain values.
pub struct SegmentView {
    pub start: u64,
    pub end: u64,
    pub placements: Seq<PlacementView>,
}

impl View for Segment {
    type V = SegmentView;

    open spec fn view(&self) -> SegmentView {
        SegmentView {
            start: self.start,
            end: self.end,
            placements: placement_views(self.placements@),
        }
    }
}

/// The participant keyed `pid`.
pub open spec fn participant_of(tl: Timeline, pid: Seq<char>) -> Option<PView> {
    match key_pos(part_views(tl.participants@), pid) {
        Some(i) => Some(part_views(tl.participants@)[i].1),
        None => None,
    }
}

/// Whether a participant is in the meeting at `t`.
pub open spec fn present_view(p: PView, t: u64) -> bool {
    p.joined <= t && t < p.left
}

/// Everyone in the meeting at `t`, in the timeline's order.
pub open spec fn present_spec(parts: Seq<(Seq<char>, PView)>, t: u64) -> Seq<Seq<char>>
    decreases parts.len(),
{
    if parts.len() == 0 {
        seq![]
    } else {
        present_spec(parts.drop_last(), t) + if present_view(parts.last().1, t) {
            seq![parts.last().0]
        } else {
            seq![]
        }
    }
}

/// The speaker of the first stretch holding `t`.
pub open spec fn speaker_at(dom: Seq<crate::render::timeline::DomView>, t: u64) -> Option<Seq<char>>
    decreases dom.len(),
{
    if dom.len() == 0 {
        None
    } else {
        match speaker_at(dom.drop_last(), t) {
            Some(s) => Some(s),
            None => if dom.last().start <= t && t < dom.last().end {
                Some(dom.last().endpoint)
            } else {
                None
            },
        }
    }
}

/// The dominant speaker at `t`, unless they have already left: the bridge's
/// last speaker report can outlive their departure.
pub open spec fn dominant_spec(tl: Timeline, t: u64) -> Option<Seq<char>> {
    match speaker_at(crate::render::timeline::dom_views(tl.dominant@), t) {
        Some(pid) => match participant_of(tl, pid) {
            Some(p) => if present_view(p, t) {
                Some(pid)
            } else {
                None
            },
            None => None,
        },
        None => None,
    }
}

/// What to show for a participant: their screenshare if `sharing_ok` and
/// they share, otherwise their camera if on, otherwise their avatar.
pub open spec fn source_spec(p: PView, pid: Seq<char>, t: u64, sharing_ok: bool) -> SourceView {
    if sharing_ok && covers(p.share, t) {
        SourceView::Share(pid)
    } else if covers(p.camera, t) {
        SourceView::Camera(pid)
    } else {
        SourceView::Avatar(pid)
    }
}

/// The first of `pids` who shares at `t`.
pub open spec fn first_sharer(tl: Timeline, pids: Seq<Seq<char>>, t: u64) -> Option<Seq<char>>
    decreases pids.len(),
{
    if pids.len() == 0 {
        None
    } else {
        match first_sharer(tl, pids.drop_last(), t) {
            Some(s) => Some(s),
            None => match participant_of(tl, pids.last()) {
                Some(p) => if covers(p.share, t) {
                    Some(pids.last())
                } else {
                    None
                },
                None => None,
            },
        }
    }
}

/// The full frame.
pub open spec fn full_frame() -> Rect {
    Rect { x: 0, y: 0, w: OUT_WIDTH, h: OUT_HEIGHT }
}

/// The bottom-right thumbnail.
pub open spec fn thumbnail() -> Rect {
    Rect {
        x: (OUT_WIDTH - THUMB_WIDTH) as i32,
        y: (OUT_HEIGHT - THUMB_HEIGHT) as i32,
        w: THUMB_WIDTH,
        h: THUMB_HEIGHT,
    }
}

/// The active-speaker layout at `t`: nothing when nobody is present or no
/// speaker is known; the speaker full-frame; or, when someone shares, the
/// share full-frame and the speaker in the corner.
pub open spec fn active_speaker_at(tl: Timeline, t: u64) -> Seq<PlacementView> {
    let present = present_spec(part_views(tl.participants@), t);
    if present.len() == 0 {
        seq![]
    } else {
        match dominant_spec(tl, t) {
            None => seq![],
            Some(d) => {
                let speaker = source_spec(participant_of(tl, d)->0, d, t, false);
                match first_sharer(tl, present, t) {
                    Some(s) => seq![
                        PlacementView { source: SourceView::Share(s), rect: full_frame(), layer: 1 },
                        PlacementView { source: speaker, rect: thumbnail(), layer: 0 },
                    ],
                    None => seq![PlacementView { source: speaker, rect: full_frame(), layer: 1 }],
                }
            },
        }
    }
}


/// The participant keyed `pid`.
pub fn participant<'a>(tl: &'a Timeline, pid: &str) -> (r: Option<&'a Participant>)
    ensures
        match r {
            Some(p) => participant_of(*tl, pid@) == Some(p@),
            None => participant_of(*tl, pid@) is None,
        },
{
    let ghost v = part_views(tl.participants@);
    let k = crate::text::chars_of(pid);
    let mut i: usize = 0;
    while i < tl.participants.len()
        invariant
            i <= tl.participants@.len(),
            v == part_views(tl.participants@),
            k@ == pid@,
            key_pos(v.take(i as int), pid@) is None,
        decreases tl.participants@.len() - i,
    {
        assert(v.take(i + 1).drop_last() =~= v.take(i as int));
        let ic = crate::text::chars_of(tl.participants[i].0.as_str());
        if crate::text::chars_eq(ic.as_slice(), k.as_slice()) {
            assert(key_pos(v.take(i + 1), pid@) == Some(i as int));
            proof {
                lemma_key_pos_found(v, i as int, pid@);
            }
            return Some(&tl.participants[i].1);
        }
        i += 1;
    }
    assert(v.take(i as int) =~= v);
    None
}

proof fn lemma_key_pos_found(l: Seq<(Seq<char>, PView)>, i: int, k: Seq<char>)
    requires
        0 <= i < l.len(),
        key_pos(l.take(i + 1), k) is Some,
    ensures
        key_pos(l, k) == key_pos(l.take(i + 1), k),
    decreases l.len() - i,
{
    if i + 1 == l.len() {
        assert(l.take(i + 1) =~= l);
    } else {
        assert(l.take(i + 2).drop_last() =~= l.take(i + 1));
        lemma_key_pos_found(l, i + 1, k);
    }
}

/// Everyone in the meeting at `t`, in the timeline's order.
pub fn present(tl: &Timeline, t: u64) -> (r: Vec<&String>)
    ensures
        r@.map_values(|s: &String| s@) == present_spec(part_views(tl.participants@), t),
{
    let ghost v = part_views(tl.participants@);
    let mut r: Vec<&String> = Vec::new();
    let mut i: usize = 0;
    while i < tl.participants.len()
        invariant
            i <= tl.participants@.len(),
            v == part_views(tl.participants@),
            r@.map_values(|s: &String| s@) == present_spec(v.take(i as int), t),
        decreases tl.participants@.len() - i,
    {
        assert(v.take(i + 1).drop_last() =~= v.take(i as int));
        let ghost before = r@.map_values(|s: &String| s@);
        if tl.participants[i].1.present_at(t) {
            r.push(&tl.participants[i].0);
            assert(r@.map_values(|s: &String| s@) =~= before.push(v[i as int].0));
        }
        assert(r@.map_values(|s: &String| s@) =~= present_spec(v.take(i + 1), t));
        i += 1;
    }
    assert(v.take(i as int) =~= v);
    r
}

/// The dominant speaker at `t`, ignoring one who has already left.
pub fn dominant(tl: &Timeline, t: u64) -> (r: Option<&String>)
    ensures
        match r {
            Some(d) => dominant_spec(*tl, t) == Some(d@),
            None => dominant_spec(*tl, t) is None,
        },
{
    let ghost dv = crate::render::timeline::dom_views(tl.dominant@);
    let mut i: usize = 0;
    let mut found: Option<usize> = None;
    while i < tl.dominant.len()
        invariant
            i <= tl.dominant@.len(),
            dv == crate::render::timeline::dom_views(tl.dominant@),
            match found {
                Some(k) => k < tl.dominant@.len() && speaker_at(dv.take(i as int), t) == Some(
                    tl.dominant@[k as int].endpoint@,
                ),
                None => speaker_at(dv.take(i as int), t) is None,
            },
        decreases tl.dominant@.len() - i,
    {
        assert(dv.take(i + 1).drop_last() =~= dv.take(i as int));
        if found.is_none() && tl.dominant[i].start <= t && t < tl.dominant[i].end {
            found = Some(i);
        }
        i += 1;
    }
    assert(dv.take(i as int) =~= dv);
    match found {
        Some(k) => {
            let pid = &tl.dominant[k].endpoint;
            match participant(tl, pid.as_str()) {
                Some(p) => if p.present_at(t) {
                    Some(pid)
                } else {
                    None
                },
                None => None,
            }
        },
        None => None,
    }
}

/// What to show for a participant: their screenshare if `sharing_ok` and
/// they share, otherwise their camera if on, otherwise their avatar.
pub fn source_for(tl: &Timeline, pid: &str, t: u64, sharing_ok: bool) -> (r: Source)
    requires
        participant_of(*tl, pid@) is Some,
    ensures
        r@ == source_spec(participant_of(*tl, pid@)->0, pid@, t, sharing_ok),
{
    let p = match participant(tl, pid) {
        Some(p) => p,
        None => {
            return Source::Avatar(String::from_str(pid));
        },
    };
    if sharing_ok && p.sharing_at(t) {
        Source::Share(String::from_str(pid))
    } else if p.camera_on_at(t) {
        Source::Camera(String::from_str(pid))
    } else {
        Source::Avatar(String::from_str(pid))
    }
}

/// A composition strategy: given the meeting state, what is on screen at
/// an instant.
pub trait Layout {
    /// What is on screen at `t`.
    spec fn placements_spec(&self, tl: Timeline, t: u64) -> Seq<PlacementView>;

    /// What is on screen at `t`.
    fn placements_at(&self, tl: &Timeline, t: u64) -> (r: Vec<Placement>)
        ensures
            placement_views(r@) == self.placements_spec(*tl, t),
    ;
}

/// Shows the dominant speaker full-frame; if anyone is screensharing, the
/// share takes the frame and the speaker moves to a bottom-right thumbnail.
#[derive(Debug, Default)]
pub struct ActiveSpeaker;

/// The first of `pids` who shares at `t`.
fn first_sharer_exec<'a>(tl: &Timeline, pids: &Vec<&'a String>, t: u64) -> (r: Option<&'a String>)
    ensures
        match r {
            Some(s) => first_sharer(*tl, pids@.map_values(|x: &String| x@), t) == Some(s@),
            None => first_sharer(*tl, pids@.map_values(|x: &String| x@), t) is None,
        },
{
    let ghost ps = pids@.map_values(|x: &String| x@);
    let mut i: usize = 0;
    while i < pids.len()
        invariant
            i <= pids@.len(),
            ps == pids@.map_values(|x: &String| x@),
            first_sharer(*tl, ps.take(i as int), t) is None,
        decreases pids@.len() - i,
    {
        assert(ps.take(i + 1).drop_last() =~= ps.take(i as int));
        assert(ps.take(i + 1).last() == pids@[i as int]@);
        let shares = match participant(tl, pids[i].as_str()) {
            Some(p) => p.sharing_at(t),
            None => false,
        };
        if shares {
            assert(first_sharer(*tl, ps.take(i + 1), t) == Some(pids@[i as int]@));
            proof {
                lemma_first_sharer_prefix(*tl, ps, i as int, t);
            }
            return Some(pids[i]);
        }
        i += 1;
    }
    assert(ps.take(i as int) =~= ps);
    None
}

proof fn lemma_first_sharer_prefix(tl: Timeline, ps: Seq<Seq<char>>, i: int, t: u64)
    requires
        0 <= i < ps.len(),
        first_sharer(tl, ps.take(i + 1), t) is Some,
    ensures
        first_sharer(tl, ps, t) == first_sharer(tl, ps.take(i + 1), t),
    decreases ps.len() - i,
{
    if i + 1 == ps.len() {
        assert(ps.take(i + 1) =~= ps);
    } else {
        assert(ps.take(i + 2).drop_last() =~= ps.take(i + 1));
        lemma_first_sharer_prefix(tl, ps, i + 1, t);
    }
}

impl Layout for ActiveSpeaker {
    open spec fn placements_spec(&self, tl: Timeline, t: u64) -> Seq<PlacementView> {
        active_speaker_at(tl, t)
    }

    /// No placements when nobody is present, or when no dominant speaker is
    /// known: a segment with no placements is skipped entirely.
    fn placements_at(&self, tl: &Timeline, t: u64) -> (r: Vec<Placement>) {
        let present = present(tl, t);
        if present.len() == 0 {
            let r: Vec<Placement> = Vec::new();
            assert(placement_views(r@) =~= Seq::<PlacementView>::empty());
            return r;
        }
        let sharer = first_sharer_exec(tl, &present, t);
        let dominant = match dominant(tl, t) {
            Some(d) => d,
            None => {
                let r: Vec<Placement> = Vec::new();
                assert(placement_views(r@) =~= Seq::<PlacementView>::empty());
                return r;
            },
        };
        let full = Rect { x: 0, y: 0, w: OUT_WIDTH, h: OUT_HEIGHT };
        match sharer {
            Some(s) => {
                let thumb = Rect {
                    x: OUT_WIDTH - THUMB_WIDTH,
                    y: OUT_HEIGHT - THUMB_HEIGHT,
                    w: THUMB_WIDTH,
                    h: THUMB_HEIGHT,
                };
                let r = vec![
                    Placement { source: Source::Share(s.clone()), rect: full, layer: 1 },
                    Placement { source: source_for(tl, dominant.as_str(), t, false), rect: thumb, layer: 0 },
                ];
                assert(placement_views(r@) =~= active_speaker_at(*tl, t));
                r
            },
            None => {
                let r = vec![
                    Placement { source: source_for(tl, dominant.as_str(), t, false), rect: full, layer: 1 },
                ];
                assert(placement_views(r@) =~= active_speaker_at(*tl, t));
                r
            },
        }
    }
}


/// The times at which the layout may change, in the order they are
/// gathered: the meeting's start and end, each participant's join and leave
/// and the edges of their camera and screenshare intervals, and the start of
/// every speaker stretch.
pub open spec fn candidate_times(tl: Timeline) -> Seq<u64> {
    seq![0u64, tl.end] + participant_times(part_views(tl.participants@)) + speaker_starts(
        crate::render::timeline::dom_views(tl.dominant@),
    )
}

/// Both ends of each interval.
pub open spec fn interval_edges(v: Seq<(u64, u64)>) -> Seq<u64>
    decreases v.len(),
{
    if v.len() == 0 {
        seq![]
    } else {
        interval_edges(v.drop_last()) + seq![v.last().0, v.last().1]
    }
}

/// The join, leave, camera and screenshare edges of each participant.
pub open spec fn participant_times(parts: Seq<(Seq<char>, PView)>) -> Seq<u64>
    decreases parts.len(),
{
    if parts.len() == 0 {
        seq![]
    } else {
        let p = parts.last().1;
        participant_times(parts.drop_last()) + seq![p.joined, p.left] + interval_edges(p.camera)
            + interval_edges(p.share)
    }
}

/// The start of each speaker stretch.
pub open spec fn speaker_starts(dom: Seq<crate::render::timeline::DomView>) -> Seq<u64>
    decreases dom.len(),
{
    if dom.len() == 0 {
        seq![]
    } else {
        speaker_starts(dom.drop_last()).push(dom.last().start)
    }
}

/// Whether a sequence of times is strictly increasing.
pub open spec fn strictly_increasing(s: Seq<u64>) -> bool {
    forall|i: int, j: int| 0 <= i < j < s.len() ==> s[i] < s[j]
}

/// Whether `bs` lists, in increasing order and each once, the candidate
/// times within the meeting.
pub open spec fn bounds_of(tl: Timeline, bs: Seq<u64>) -> bool {
    &&& strictly_increasing(bs)
    &&& forall|x: u64| bs.contains(x) <==> (candidate_times(tl).contains(x) && x <= tl.end)
}

/// The segments made from the windows `bs[i..]` between consecutive bounds,
/// appended to `acc`: the layout is sampled at the middle of each window, a
/// window showing nothing is skipped, and a window continuing the last
/// segment with the same placements extends it.
pub open spec fn merge_windows<L: Layout>(
    layout: L,
    tl: Timeline,
    bs: Seq<u64>,
    i: int,
    acc: Seq<SegmentView>,
) -> Seq<SegmentView>
    decreases bs.len() - i,
{
    if i < 0 || i + 1 >= bs.len() {
        acc
    } else {
        let b0 = bs[i];
        let b1 = bs[i + 1];
        let next = if b1 <= b0 {
            acc
        } else {
            let ps = layout.placements_spec(tl, (b0 + (b1 - b0) / 2) as u64);
            if ps.len() == 0 {
                acc
            } else if acc.len() > 0 && acc.last().placements == ps && acc.last().end == b0 {
                acc.update(
                    acc.len() - 1,
                    SegmentView { start: acc.last().start, end: b1, placements: ps },
                )
            } else {
                acc.push(SegmentView { start: b0, end: b1, placements: ps })
            }
        };
        merge_windows(layout, tl, bs, i + 1, next)
    }
}

/// The views of a list of segments.
pub open spec fn segment_views(v: Seq<Segment>) -> Seq<SegmentView> {
    v.map_values(|s: Segment| s@)
}

/// Appends both ends of each interval.
fn push_edges(out: &mut Vec<u64>, v: &Vec<(u64, u64)>)
    ensures
        final(out)@ == old(out)@ + interval_edges(v@),
{
    let ghost start = out@;
    let mut i: usize = 0;
    while i < v.len()
        invariant
            i <= v@.len(),
            out@ == start + interval_edges(v@.take(i as int)),
        decreases v@.len() - i,
    {
        assert(v@.take(i + 1).drop_last() =~= v@.take(i as int));
        let (a, b) = v[i];
        out.push(a);
        out.push(b);
        assert(out@ =~= start + interval_edges(v@.take(i + 1)));
        i += 1;
    }
    assert(v@.take(i as int) =~= v@);
}

/// The candidate times, in the order they are gathered.
fn candidates(tl: &Timeline) -> (r: Vec<u64>)
    ensures
        r@ == candidate_times(*tl),
{
    let ghost pv = part_views(tl.participants@);
    let ghost dv = crate::render::timeline::dom_views(tl.dominant@);
    let mut out: Vec<u64> = vec![0u64, tl.end];
    let ghost head = out@;
    let mut i: usize = 0;
    while i < tl.participants.len()
        invariant
            i <= tl.participants@.len(),
            pv == part_views(tl.participants@),
            head == seq![0u64, tl.end],
            out@ == head + participant_times(pv.take(i as int)),
        decreases tl.participants@.len() - i,
    {
        assert(pv.take(i + 1).drop_last() =~= pv.take(i as int));
        let p = &tl.participants[i].1;
        let ghost before = out@;
        out.push(p.joined);
        out.push(p.left);
        push_edges(&mut out, &p.camera);
        push_edges(&mut out, &p.share);
        assert(pv.take(i + 1).last().1 == p@);
        assert(out@ =~= head + participant_times(pv.take(i + 1)));
        i += 1;
    }
    assert(pv.take(i as int) =~= pv);
    let ghost mid = out@;
    let mut j: usize = 0;
    while j < tl.dominant.len()
        invariant
            j <= tl.dominant@.len(),
            dv == crate::render::timeline::dom_views(tl.dominant@),
            out@ == mid + speaker_starts(dv.take(j as int)),
        decreases tl.dominant@.len() - j,
    {
        assert(dv.take(j + 1).drop_last() =~= dv.take(j as int));
        out.push(tl.dominant[j].start);
        assert(out@ =~= mid + speaker_starts(dv.take(j + 1)));
        j += 1;
    }
    assert(dv.take(j as int) =~= dv);
    out
}

/// Inserts `x` into a strictly increasing list unless it is there.
fn insert_sorted(v: &mut Vec<u64>, x: u64)
    requires
        strictly_increasing(old(v)@),
    ensures
        strictly_increasing(final(v)@),
        forall|y: u64| final(v)@.contains(y) <==> (old(v)@.contains(y) || y == x),
{
    let mut i: usize = 0;
    while i < v.len() && v[i] < x
        invariant
            i <= v@.len(),
            v@ == old(v)@,
            strictly_increasing(v@),
            forall|k: int| 0 <= k < i ==> v@[k] < x,
        decreases v@.len() - i,
    {
        i += 1;
    }
    if i < v.len() && v[i] == x {
        assert forall|y: u64| v@.contains(y) <==> (old(v)@.contains(y) || y == x) by {
            if y == x {
                assert(v@[i as int] == x);
            }
        }
        return;
    }
    let ghost before = v@;
    v.insert(i, x);
    assert(v@ =~= before.subrange(0, i as int).push(x) + before.subrange(i as int, before.len() as int));
    assert forall|a: int, b: int| 0 <= a < b < v@.len() implies v@[a] < v@[b] by {
        if b < i {
        } else if a < i && b == i {
        } else if a < i {
            assert(v@[b] == before[b - 1]);
        } else if a == i {
            assert(v@[b] == before[b - 1]);
            assert(before[i as int] > x || i == before.len());
        } else {
            assert(v@[a] == before[a - 1]);
            assert(v@[b] == before[b - 1]);
        }
    }
    assert forall|y: u64| v@.contains(y) <==> (before.contains(y) || y == x) by {
        if before.contains(y) {
            let k = choose|k: int| 0 <= k < before.len() && before[k] == y;
            if k < i {
                assert(v@[k] == y);
            } else {
                assert(v@[k + 1] == y);
            }
        }
        if y == x {
            assert(v@[i as int] == x);
        }
        if v@.contains(y) {
            let k = choose|k: int| 0 <= k < v@.len() && v@[k] == y;
            if k < i {
                assert(before[k] == y);
            } else if k > i {
                assert(before[k - 1] == y);
            }
        }
    }
}

/// The candidate times within the meeting, increasing, each once.
fn boundaries(tl: &Timeline) -> (r: Vec<u64>)
    ensures
        bounds_of(*tl, r@),
{
    let cands = candidates(tl);
    let mut bs: Vec<u64> = Vec::new();
    let mut i: usize = 0;
    while i < cands.len()
        invariant
            i <= cands@.len(),
            cands@ == candidate_times(*tl),
            strictly_increasing(bs@),
            forall|x: u64| bs@.contains(x) <==> (cands@.take(i as int).contains(x) && x <= tl.end),
        decreases cands@.len() - i,
    {
        let c = cands[i];
        let ghost prev = cands@.take(i as int);
        assert(cands@.take(i + 1) =~= prev.push(c));
        if c <= tl.end {
            insert_sorted(&mut bs, c);
        }
        assert forall|x: u64| bs@.contains(x) <==> (cands@.take(i + 1).contains(x) && x <= tl.end) by {
            crate::offer::lemma_push_contains_u64(prev, c, x);
        }
        i += 1;
    }
    assert(cands@.take(i as int) =~= cands@);
    bs
}

/// Whether two strings hold the same text.
fn same_text(x: &String, y: &String) -> (r: bool)
    ensures
        r == (x@ == y@),
{
    let xc = crate::text::chars_of(x.as_str());
    let yc = crate::text::chars_of(y.as_str());
    crate::text::chars_eq(xc.as_slice(), yc.as_slice())
}

/// Whether two sources are the same.
fn same_source(a: &Source, b: &Source) -> (r: bool)
    ensures
        r == (a@ == b@),
{
    match a {
        Source::Camera(x) => match b {
            Source::Camera(y) => same_text(x, y),
            _ => false,
        },
        Source::Share(x) => match b {
            Source::Share(y) => same_text(x, y),
            _ => false,
        },
        Source::Avatar(x) => match b {
            Source::Avatar(y) => same_text(x, y),
            _ => false,
        },
    }
}

/// Whether two lists of placements are the same.
fn same_placements(a: &Vec<Placement>, b: &Vec<Placement>) -> (r: bool)
    ensures
        r == (placement_views(a@) == placement_views(b@)),
{
    if a.len() != b.len() {
        assert(placement_views(a@).len() != placement_views(b@).len());
        return false;
    }
    let mut i: usize = 0;
    while i < a.len()
        invariant
            i <= a@.len(),
            a@.len() == b@.len(),
            forall|k: int| 0 <= k < i ==> a@[k]@ == b@[k]@,
        decreases a@.len() - i,
    {
        if !(same_source(&a[i].source, &b[i].source) && a[i].rect == b[i].rect && a[i].layer
            == b[i].layer) {
            assert(placement_views(a@)[i as int] != placement_views(b@)[i as int]);
            return false;
        }
        i += 1;
    }
    assert(placement_views(a@) =~= placement_views(b@));
    true
}

/// Cuts the meeting into segments of constant layout.
///
/// Candidate boundaries are every instant something could change: joins,
/// leaves, camera and share edges, dominant-speaker switches. The layout is
/// then sampled at the middle of each window, which avoids evaluating
/// exactly on a boundary, and adjacent windows with identical placements are
/// merged.
pub fn segment_with<L: Layout>(layout: &L, tl: &Timeline) -> (r: Vec<Segment>)
    ensures
        exists|bs: Seq<u64>|
            bounds_of(*tl, bs) && segment_views(r@) == #[trigger] merge_windows(
                *layout,
                *tl,
                bs,
                0,
                seq![],
            ),
{
    let bounds = boundaries(tl);
    let mut segments: Vec<Segment> = Vec::new();
    let mut i: usize = 0;
    assert(segment_views(segments@) =~= Seq::<SegmentView>::empty());
    let n = bounds.len();
    while i < n && i + 1 < n
        invariant
            n == bounds@.len(),
            bounds_of(*tl, bounds@),
            merge_windows(*layout, *tl, bounds@, 0, seq![]) == merge_windows(
                *layout,
                *tl,
                bounds@,
                i as int,
                segment_views(segments@),
            ),
        decreases bounds@.len() - i,
    {
        let b0 = bounds[i];
        let b1 = bounds[i + 1];
        let ghost acc = segment_views(segments@);
        if b1 > b0 {
            let t = b0 + (b1 - b0) / 2;
            let placements = layout.placements_at(tl, t);
            if placements.len() > 0 {
                let n = segments.len();
                let merge = n > 0 && segments[n - 1].end == b0 && same_placements(
                    &segments[n - 1].placements,
                    &placements,
                );
                if merge {
                    let last_start = segments[n - 1].start;
                    let seg = Segment { start: last_start, end: b1, placements };
                    let ghost sv = seg@;
                    segments.set(n - 1, seg);
                    assert(segment_views(segments@) =~= acc.update(acc.len() - 1, sv));
                } else {
                    let seg = Segment { start: b0, end: b1, placements };
                    let ghost sv = seg@;
                    segments.push(seg);
                    assert(segment_views(segments@) =~= acc.push(sv));
                }
            }
        }
        i += 1;
    }
    segments
}

} // verus!

verus! {

/// Whether segments are each non-empty in time and on screen, lie within
/// `[0, end]`, and follow each other without overlapping.
pub open spec fn segments_ordered(s: Seq<SegmentView>, end: u64) -> bool {
    &&& forall|i: int|
        0 <= i < s.len() ==> #[trigger] s[i].start < s[i].end && s[i].end <= end
            && s[i].placements.len() > 0
    &&& forall|i: int| 0 <= i < s.len() - 1 ==> #[trigger] s[i].end <= s[i + 1].start
}

proof fn lemma_merge_ordered<L: Layout>(
    layout: L,
    tl: Timeline,
    bs: Seq<u64>,
    i: int,
    acc: Seq<SegmentView>,
)
    requires
        bounds_of(tl, bs),
        0 <= i,
        i < bs.len() ==> bs[i] <= tl.end,
        segments_ordered(acc, tl.end),
        acc.len() > 0 && i < bs.len() ==> acc.last().end <= bs[i],
    ensures
        segments_ordered(merge_windows(layout, tl, bs, i, acc), tl.end),
    decreases bs.len() - i,
{
    if i + 1 < bs.len() {
        let b0 = bs[i];
        let b1 = bs[i + 1];
        assert(b0 < b1);
        assert(bs.contains(b1));
        assert(b1 <= tl.end);
        let ps = layout.placements_spec(tl, (b0 + (b1 - b0) / 2) as u64);
        if ps.len() == 0 {
            lemma_merge_ordered(layout, tl, bs, i + 1, acc);
        } else if acc.len() > 0 && acc.last().placements == ps && acc.last().end == b0 {
            let next = acc.update(
                acc.len() - 1,
                SegmentView { start: acc.last().start, end: b1, placements: ps },
            );
            assert forall|k: int| 0 <= k < next.len() implies #[trigger] next[k].start < next[k].end
                && next[k].end <= tl.end && next[k].placements.len() > 0 by {
                if k < acc.len() - 1 {
                    assert(next[k] == acc[k]);
                }
            }
            assert forall|k: int| 0 <= k < next.len() - 1 implies #[trigger] next[k].end <= next[k
                + 1].start by {
                assert(next[k] == acc[k]);
                if k + 1 < acc.len() - 1 {
                    assert(next[k + 1] == acc[k + 1]);
                } else {
                    assert(next[k + 1].start == acc[k + 1].start);
                }
            }
            lemma_merge_ordered(layout, tl, bs, i + 1, next);
        } else {
            let next = acc.push(SegmentView { start: b0, end: b1, placements: ps });
            assert forall|k: int| 0 <= k < next.len() implies #[trigger] next[k].start < next[k].end
                && next[k].end <= tl.end && next[k].placements.len() > 0 by {
                if k < acc.len() {
                    assert(next[k] == acc[k]);
                }
            }
            assert forall|k: int| 0 <= k < next.len() - 1 implies #[trigger] next[k].end <= next[k
                + 1].start by {
                assert(next[k] == acc[k]);
                if k + 1 < acc.len() {
                    assert(next[k + 1] == acc[k + 1]);
                }
            }
            lemma_merge_ordered(layout, tl, bs, i + 1, next);
        }
    }
}

/// The segments of a meeting are non-empty spans within it, each showing
/// something, in order and without overlap.
pub proof fn law_segments_ordered<L: Layout>(layout: L, tl: Timeline, bs: Seq<u64>)
    requires
        bounds_of(tl, bs),
    ensures
        segments_ordered(merge_windows(layout, tl, bs, 0, seq![]), tl.end),
{
    if bs.len() > 0 {
        assert(bs.contains(bs[0]));
    }
    lemma_merge_ordered(layout, tl, bs, 0, seq![]);
}

/// Whether two segments that meet never show the same placements: such
/// windows are merged into one segment.
pub open spec fn touching_differ(s: Seq<SegmentView>) -> bool {
    forall|i: int|
        0 <= i < s.len() - 1 && #[trigger] s[i].end == s[i + 1].start ==> s[i].placements != s[i
            + 1].placements
}

proof fn lemma_merge_distinct<L: Layout>(layout: L, tl: Timeline, bs: Seq<u64>, i: int, acc: Seq<SegmentView>)
    requires
        touching_differ(acc),
    ensures
        touching_differ(merge_windows(layout, tl, bs, i, acc)),
    decreases bs.len() - i,
{
    if !(i < 0 || i + 1 >= bs.len()) {
        let b0 = bs[i];
        let b1 = bs[i + 1];
        if b1 <= b0 {
            lemma_merge_distinct(layout, tl, bs, i + 1, acc);
        } else {
            let ps = layout.placements_spec(tl, (b0 + (b1 - b0) / 2) as u64);
            if ps.len() == 0 {
                lemma_merge_distinct(layout, tl, bs, i + 1, acc);
            } else if acc.len() > 0 && acc.last().placements == ps && acc.last().end == b0 {
                let next = acc.update(
                    acc.len() - 1,
                    SegmentView { start: acc.last().start, end: b1, placements: ps },
                );
                assert forall|k: int|
                    0 <= k < next.len() - 1 && #[trigger] next[k].end == next[k + 1].start implies next[k].placements
                        != next[k + 1].placements by {
                    assert(next[k] == acc[k]);
                    if k + 1 < acc.len() - 1 {
                        assert(next[k + 1] == acc[k + 1]);
                    } else {
                        assert(next[k + 1].start == acc[k + 1].start);
                        assert(next[k + 1].placements == acc[k + 1].placements);
                        assert(acc[k].end == acc[k + 1].start);
                    }
                }
                lemma_merge_distinct(layout, tl, bs, i + 1, next);
            } else {
                let next = acc.push(SegmentView { start: b0, end: b1, placements: ps });
                assert forall|k: int|
                    0 <= k < next.len() - 1 && #[trigger] next[k].end == next[k + 1].start implies next[k].placements
                        != next[k + 1].placements by {
                    assert(next[k] == acc[k]);
                    if k + 1 < acc.len() {
                        assert(next[k + 1] == acc[k + 1]);
                        assert(acc[k].end == acc[k + 1].start);
                    } else {
                        assert(acc[k] == acc.last());
                    }
                }
                lemma_merge_distinct(layout, tl, bs, i + 1, next);
            }
        }
    }
}

/// Segments of a meeting that meet show different placements: a layout that
/// stays the same across a boundary gives one segment, not two.
pub proof fn law_touching_segments_differ<L: Layout>(layout: L, tl: Timeline, bs: Seq<u64>)
    ensures
        touching_differ(merge_windows(layout, tl, bs, 0, seq![])),
{
    lemma_merge_distinct(layout, tl, bs, 0, seq![]);
}

/// In the active-speaker layout the thumbnail (the placement on layer 0)
/// shows the dominant speaker and never a screenshare: their camera when it
/// is on at `t`, their avatar otherwise.
pub proof fn law_thumbnail_is_speaker_camera(tl: Timeline, t: u64)
    ensures
        forall|i: int|
            0 <= i < active_speaker_at(tl, t).len() && (#[trigger] active_speaker_at(tl, t)[i]).layer == 0
                ==> (dominant_spec(tl, t) matches Some(d) && participant_of(tl, d) matches Some(p)
                && !(active_speaker_at(tl, t)[i].source is Share) && active_speaker_at(tl, t)[i].source
                == (if covers(p.camera, t) {
                SourceView::Camera(d)
            } else {
                SourceView::Avatar(d)
            })),
{
}

} // verus!
