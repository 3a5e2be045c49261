//! A meeting's timeline, read back from its event log: when each
//! participant was present, had the camera, screen and microphone on, and who
//! was the dominant speaker when. Times are milliseconds into the meeting.

use crate::text::{chars_eq_str, chars_of};
use vstd::prelude::*;

verus! {

/// One entry of `timeline.json`.
#[derive(Debug, Clone)]
pub struct RawEvent {
    pub event: String,
    pub participant_id: Option<String>,
    /// Milliseconds into the meeting.
    pub timestamp: u64,
}

/// Where one participant was, and what they had on, as `[start, end)`
/// intervals.
#[derive(Debug, Clone)]
pub struct Participant {
    pub joined: u64,
    pub left: u64,
    pub camera: Vec<(u64, u64)>,
    pub share: Vec<(u64, u64)>,
    pub audio: Vec<(u64, u64)>,
}

/// One stretch of time during which `endpoint` was the dominant speaker.
#[derive(Debug, Clone)]
pub struct Dominant {
    pub start: u64,
    pub end: u64,
    pub endpoint: String,
    pub nickname: String,
}

/// The meeting, read back: each participant once, the dominant-speaker
/// stretches in order, and when the meeting ended.
#[derive(Debug, Clone)]
pub struct Timeline {
    pub participants: Vec<(String, Participant)>,
    pub dominant: Vec<Dominant>,
    pub end: u64,
}

/// A participant's intervals as plain values.
pub struct PView {
    pub joined: u64,
    pub left: u64,
    pub camera: Seq<(u64, u64)>,
    pub share: Seq<(u64, u64)>,
    pub audio: Seq<(u64, u64)>,
}

impl View for Participant {
    type V = PView;

    open spec fn view(&self) -> PView {
        PView {
            joined: self.joined,
            left: self.left,
            camera: self.camera@,
            share: self.share@,
            audio: self.audio@,
        }
    }
}

/// A dominant-speaker stretch as plain values.
pub struct DomView {
    pub start: u64,
    pub end: u64,
    pub endpoint: Seq<char>,
    pub nickname: Seq<char>,
}

impl View for Dominant {
    type V = DomView;

    open spec fn view(&self) -> DomView {
        DomView {
            start: self.start,
            end: self.end,
            endpoint: self.endpoint@,
            nickname: self.nickname@,
        }
    }
}

/// An event as plain values: what, whose (empty when nobody's), when.
pub struct EventView {
    pub event: Seq<char>,
    pub pid: Seq<char>,
    pub time: u64,
}

/// The view of a raw event.
pub open spec fn event_view(e: RawEvent) -> EventView {
    EventView {
        event: e.event@,
        pid: match e.participant_id {
            Some(p) => p@,
            None => seq![],
        },
        time: e.timestamp,
    }
}

/// The position of the first entry keyed `k`.
pub open spec fn key_pos<V>(l: Seq<(Seq<char>, V)>, k: Seq<char>) -> Option<int>
    decreases l.len(),
{
    if l.len() == 0 {
        None
    } else {
        match key_pos(l.drop_last(), k) {
            Some(i) => Some(i),
            None => if l.last().0 == k {
                Some(l.len() - 1)
            } else {
                None
            },
        }
    }
}

/// The value keyed `k`.
pub open spec fn get_key<V>(l: Seq<(Seq<char>, V)>, k: Seq<char>) -> Option<V> {
    match key_pos(l, k) {
        Some(i) => Some(l[i].1),
        None => None,
    }
}

/// `l` with `k` set to `v`: in place when present, appended when new.
pub open spec fn set_key<V>(l: Seq<(Seq<char>, V)>, k: Seq<char>, v: V) -> Seq<(Seq<char>, V)> {
    match key_pos(l, k) {
        Some(i) => l.update(i, (k, v)),
        None => l.push((k, v)),
    }
}

/// `l` without its entries keyed `k`.
pub open spec fn drop_key<V>(l: Seq<(Seq<char>, V)>, k: Seq<char>) -> Seq<(Seq<char>, V)>
    decreases l.len(),
{
    if l.len() == 0 {
        seq![]
    } else {
        drop_key(l.drop_last(), k) + if l.last().0 == k {
            seq![]
        } else {
            seq![l.last()]
        }
    }
}

/// A participant nothing is known of yet.
pub open spec fn fresh_participant() -> PView {
    PView { joined: 0, left: 0, camera: seq![], share: seq![], audio: seq![] }
}

/// What has been read of the log so far: the participants, the intervals
/// still open (by participant), the finished speaker stretches and the
/// current speaker with the time they started.
pub struct Fold {
    pub parts: Seq<(Seq<char>, PView)>,
    pub cam: Seq<(Seq<char>, u64)>,
    pub share: Seq<(Seq<char>, u64)>,
    pub audio: Seq<(Seq<char>, u64)>,
    pub dom: Seq<DomView>,
    pub cur: Option<(u64, Seq<char>)>,
}

/// The nickname written on every speaker stretch.
pub open spec fn placeholder_nickname() -> Seq<char> {
    "xxx###xxx"@
}

/// Closes the interval opened in `open` for `pid`, if any, at `t`.
pub open spec fn close(
    open: Seq<(Seq<char>, u64)>,
    pid: Seq<char>,
    intervals: Seq<(u64, u64)>,
    t: u64,
) -> Seq<(u64, u64)> {
    match get_key(open, pid) {
        Some(s) => intervals.push((s, t)),
        None => intervals,
    }
}

/// Reads one event.
pub open spec fn step(f: Fold, e: EventView) -> Fold {
    let pid = e.pid;
    let t = e.time;
    let p = match get_key(f.parts, pid) {
        Some(p) => p,
        None => fresh_participant(),
    };
    if e.event == "joined"@ {
        Fold {
            parts: set_key(f.parts, pid, PView { joined: t, ..p }),
            cur: if f.cur is None {
                Some((t, pid))
            } else {
                f.cur
            },
            ..f
        }
    } else if e.event == "left"@ {
        Fold {
            parts: set_key(
                f.parts,
                pid,
                PView {
                    left: t,
                    camera: close(f.cam, pid, p.camera, t),
                    share: close(f.share, pid, p.share, t),
                    audio: close(f.audio, pid, p.audio, t),
                    ..p
                },
            ),
            cam: drop_key(f.cam, pid),
            share: drop_key(f.share, pid),
            audio: drop_key(f.audio, pid),
            ..f
        }
    } else if e.event == "camera_on"@ {
        Fold { parts: set_key(f.parts, pid, p), cam: set_key(f.cam, pid, t), ..f }
    } else if e.event == "camera_off"@ {
        Fold {
            parts: set_key(f.parts, pid, PView { camera: close(f.cam, pid, p.camera, t), ..p }),
            cam: drop_key(f.cam, pid),
            ..f
        }
    } else if e.event == "screenshare_on"@ {
        Fold { parts: set_key(f.parts, pid, p), share: set_key(f.share, pid, t), ..f }
    } else if e.event == "screenshare_off"@ {
        Fold {
            parts: set_key(f.parts, pid, PView { share: close(f.share, pid, p.share, t), ..p }),
            share: drop_key(f.share, pid),
            ..f
        }
    } else if e.event == "audio_on"@ {
        Fold { parts: set_key(f.parts, pid, p), audio: set_key(f.audio, pid, t), ..f }
    } else if e.event == "audio_off"@ {
        Fold {
            parts: set_key(f.parts, pid, PView { audio: close(f.audio, pid, p.audio, t), ..p }),
            audio: drop_key(f.audio, pid),
            ..f
        }
    } else if e.event == "dominant"@ {
        match f.cur {
            Some((start, who)) => if who != pid {
                Fold {
                    parts: set_key(f.parts, pid, p),
                    dom: f.dom.push(
                        DomView { start, end: t, endpoint: who, nickname: placeholder_nickname() },
                    ),
                    cur: Some((t, pid)),
                    ..f
                }
            } else {
                Fold { parts: set_key(f.parts, pid, p), ..f }
            },
            None => Fold { parts: set_key(f.parts, pid, p), cur: Some((t, pid)), ..f },
        }
    } else {
        Fold { parts: set_key(f.parts, pid, p), ..f }
    }
}

/// Nothing read yet.
pub open spec fn empty_fold() -> Fold {
    Fold { parts: seq![], cam: seq![], share: seq![], audio: seq![], dom: seq![], cur: None }
}

/// The state after reading `events` in order.
pub open spec fn fold_events(events: Seq<EventView>) -> Fold
    decreases events.len(),
{
    if events.len() == 0 {
        empty_fold()
    } else {
        step(fold_events(events.drop_last()), events.last())
    }
}

/// A participant at the end of the meeting: still present if they never
/// left, and every interval still open closed at `end`.
pub open spec fn finish(f: Fold, pid: Seq<char>, p: PView, end: u64) -> PView {
    PView {
        joined: p.joined,
        left: if p.left == 0 {
            end
        } else {
            p.left
        },
        camera: close(f.cam, pid, p.camera, end),
        share: close(f.share, pid, p.share, end),
        audio: close(f.audio, pid, p.audio, end),
    }
}

/// The participants at the end of the meeting, before the nameless entry is
/// dropped.
pub open spec fn finished_parts(f: Fold, end: u64) -> Seq<(Seq<char>, PView)> {
    f.parts.map_values(|e: (Seq<char>, PView)| (e.0, finish(f, e.0, e.1, end)))
}

/// The speaker stretches at the end of the meeting: the current speaker's
/// runs until `end`.
pub open spec fn finished_dominant(f: Fold, end: u64) -> Seq<DomView> {
    match f.cur {
        Some((start, who)) => f.dom.push(
            DomView { start, end, endpoint: who, nickname: placeholder_nickname() },
        ),
        None => f.dom,
    }
}

/// The participants of a timeline as plain values.
pub open spec fn part_views(l: Seq<(String, Participant)>) -> Seq<(Seq<char>, PView)> {
    l.map_values(|e: (String, Participant)| (e.0@, e.1@))
}

/// The speaker stretches of a timeline as plain values.
pub open spec fn dom_views(l: Seq<Dominant>) -> Seq<DomView> {
    l.map_values(|d: Dominant| d@)
}

/// The open intervals as plain values.
pub open spec fn open_views(l: Seq<(String, u64)>) -> Seq<(Seq<char>, u64)> {
    l.map_values(|e: (String, u64)| (e.0@, e.1))
}

/// The views of a list of events.
pub open spec fn event_views(events: Seq<RawEvent>) -> Seq<EventView> {
    events.map_values(|e: RawEvent| event_view(e))
}


/// A copy of a list of intervals.
fn copy_intervals(v: &Vec<(u64, u64)>) -> (r: Vec<(u64, u64)>)
    ensures
        r@ == v@,
{
    let mut r: Vec<(u64, u64)> = Vec::new();
    let mut i: usize = 0;
    while i < v.len()
        invariant
            i <= v@.len(),
            r@ == v@.take(i as int),
        decreases v@.len() - i,
    {
        let (a, b) = v[i];
        r.push((a, b));
        assert(r@ =~= v@.take(i + 1));
        i += 1;
    }
    assert(v@.take(i as int) =~= v@);
    r
}

/// A copy of a participant.
fn copy_participant(p: &Participant) -> (r: Participant)
    ensures
        r@ == p@,
{
    Participant {
        joined: p.joined,
        left: p.left,
        camera: copy_intervals(&p.camera),
        share: copy_intervals(&p.share),
        audio: copy_intervals(&p.audio),
    }
}

/// The position of the participant keyed `k`.
fn part_index(l: &Vec<(String, Participant)>, k: &String) -> (r: Option<usize>)
    ensures
        match r {
            Some(i) => key_pos(part_views(l@), k@) == Some(i as int) && i < l@.len(),
            None => key_pos(part_views(l@), k@) is None,
        },
{
    let ghost v = part_views(l@);
    let kc = chars_of(k.as_str());
    let mut i: usize = 0;
    while i < l.len()
        invariant
            i <= l@.len(),
            v == part_views(l@),
            kc@ == k@,
            key_pos(v.take(i as int), k@) is None,
        decreases l@.len() - i,
    {
        assert(v.take(i + 1).drop_last() =~= v.take(i as int));
        let ic = chars_of(l[i].0.as_str());
        if crate::text::chars_eq(ic.as_slice(), kc.as_slice()) {
            assert(key_pos(v.take(i + 1), k@) == Some(i as int));
            proof {
                lemma_key_pos_prefix(v, i as int, k@);
            }
            return Some(i);
        }
        i += 1;
    }
    assert(v.take(i as int) =~= v);
    None
}

/// The position of the open interval keyed `k`.
fn open_index(l: &Vec<(String, u64)>, k: &String) -> (r: Option<usize>)
    ensures
        match r {
            Some(i) => key_pos(open_views(l@), k@) == Some(i as int) && i < l@.len(),
            None => key_pos(open_views(l@), k@) is None,
        },
{
    let ghost v = open_views(l@);
    let kc = chars_of(k.as_str());
    let mut i: usize = 0;
    while i < l.len()
        invariant
            i <= l@.len(),
            v == open_views(l@),
            kc@ == k@,
            key_pos(v.take(i as int), k@) is None,
        decreases l@.len() - i,
    {
        assert(v.take(i + 1).drop_last() =~= v.take(i as int));
        let ic = chars_of(l[i].0.as_str());
        if crate::text::chars_eq(ic.as_slice(), kc.as_slice()) {
            assert(key_pos(v.take(i + 1), k@) == Some(i as int));
            proof {
                lemma_key_pos_prefix(v, i as int, k@);
            }
            return Some(i);
        }
        i += 1;
    }
    assert(v.take(i as int) =~= v);
    None
}

proof fn lemma_key_pos_prefix<V>(l: Seq<(Seq<char>, V)>, i: int, k: Seq<char>)
    requires
        0 <= i < l.len(),
        key_pos(l.take(i + 1), k) is Some,
    ensures
        key_pos(l, k) == key_pos(l.take(i + 1), k),
    decreases l.len() - i,
{
    if i + 1 == l.len() {
        assert(l.take(i + 1) =~= l);
    } else {
        assert(l.take(i + 2).drop_last() =~= l.take(i + 1));
        lemma_key_pos_prefix(l, i + 1, k);
    }
}

/// Removes the open interval keyed `k` and returns its start.
fn take_open(l: &mut Vec<(String, u64)>, k: &String) -> (r: Option<u64>)
    ensures
        r == get_key(open_views(old(l)@), k@),
        open_views(final(l)@) == drop_key(open_views(old(l)@), k@),
{
    let ghost v = open_views(l@);
    let found = open_index(l, k);
    let kc = chars_of(k.as_str());
    let mut kept: Vec<(String, u64)> = Vec::new();
    let mut i: usize = 0;
    while i < l.len()
        invariant
            i <= l@.len(),
            v == open_views(l@),
            kc@ == k@,
            open_views(kept@) == drop_key(v.take(i as int), k@),
        decreases l@.len() - i,
    {
        assert(v.take(i + 1).drop_last() =~= v.take(i as int));
        let ic = chars_of(l[i].0.as_str());
        let ghost before = open_views(kept@);
        if !crate::text::chars_eq(ic.as_slice(), kc.as_slice()) {
            let key = l[i].0.clone();
            let t = l[i].1;
            kept.push((key, t));
            assert(open_views(kept@) =~= before.push(v[i as int]));
        }
        assert(open_views(kept@) =~= drop_key(v.take(i + 1), k@));
        i += 1;
    }
    assert(v.take(i as int) =~= v);
    let r = match found {
        Some(j) => Some(l[j].1),
        None => None,
    };
    *l = kept;
    r
}

/// Sets the open interval keyed `k` to start at `t`.
fn set_open(l: &mut Vec<(String, u64)>, k: &String, t: u64)
    ensures
        open_views(final(l)@) == set_key(open_views(old(l)@), k@, t),
{
    let ghost v = open_views(l@);
    match open_index(l, k) {
        Some(i) => {
            l.set(i, (k.clone(), t));
            assert(open_views(l@) =~= v.update(i as int, (k@, t)));
        },
        None => {
            l.push((k.clone(), t));
            assert(open_views(l@) =~= v.push((k@, t)));
        },
    }
}

/// Stores participant `p` under `k`.
fn set_part(l: &mut Vec<(String, Participant)>, k: &String, p: Participant)
    ensures
        part_views(final(l)@) == set_key(part_views(old(l)@), k@, p@),
{
    let ghost v = part_views(l@);
    let ghost pv = p@;
    match part_index(l, k) {
        Some(i) => {
            l.set(i, (k.clone(), p));
            assert(part_views(l@) =~= v.update(i as int, (k@, pv)));
        },
        None => {
            l.push((k.clone(), p));
            assert(part_views(l@) =~= v.push((k@, pv)));
        },
    }
}

/// Closes the interval opened in `open` for `pid`, if any, at `t`.
fn close_exec(open: &mut Vec<(String, u64)>, pid: &String, intervals: &mut Vec<(u64, u64)>, t: u64)
    ensures
        final(intervals)@ == close(open_views(old(open)@), pid@, old(intervals)@, t),
        open_views(final(open)@) == drop_key(open_views(old(open)@), pid@),
{
    match take_open(open, pid) {
        Some(s) => intervals.push((s, t)),
        None => {},
    }
}

/// What has been read of the log so far.
pub struct TimelineState {
    pub parts: Vec<(String, Participant)>,
    pub cam: Vec<(String, u64)>,
    pub share: Vec<(String, u64)>,
    pub audio: Vec<(String, u64)>,
    pub dom: Vec<Dominant>,
    pub cur: Option<(u64, String)>,
}

impl View for TimelineState {
    type V = Fold;

    open spec fn view(&self) -> Fold {
        Fold {
            parts: part_views(self.parts@),
            cam: open_views(self.cam@),
            share: open_views(self.share@),
            audio: open_views(self.audio@),
            dom: dom_views(self.dom@),
            cur: match self.cur {
                Some((t, who)) => Some((t, who@)),
                None => None,
            },
        }
    }
}

/// Whether an event name is `name`.
fn is_event(e: &RawEvent, name: &str) -> (r: bool)
    ensures
        r == (e.event@ == name@),
{
    let c = chars_of(e.event.as_str());
    chars_eq_str(c.as_slice(), name)
}

impl TimelineState {
    /// Nothing read yet.
    pub fn new() -> (r: TimelineState)
        ensures
            r@ == empty_fold(),
    {
        let r = TimelineState {
            parts: Vec::new(),
            cam: Vec::new(),
            share: Vec::new(),
            audio: Vec::new(),
            dom: Vec::new(),
            cur: None,
        };
        assert(r@.parts =~= Seq::<(Seq<char>, PView)>::empty());
        assert(r@.cam =~= Seq::<(Seq<char>, u64)>::empty());
        assert(r@.share =~= Seq::<(Seq<char>, u64)>::empty());
        assert(r@.audio =~= Seq::<(Seq<char>, u64)>::empty());
        assert(r@.dom =~= Seq::<DomView>::empty());
        r
    }

    /// Reads one event, as [`step`] says.
    pub fn apply(&mut self, e: &RawEvent)
        ensures
            final(self)@ == step(old(self)@, event_view(*e)),
    {
        let ghost f = self@;
        let ghost ev = event_view(*e);
        let pid: String = match &e.participant_id {
            Some(p) => p.clone(),
            None => String::new(),
        };
        assert(pid@ == ev.pid);
        let t = e.timestamp;
        let mut p = match part_index(&self.parts, &pid) {
            Some(i) => copy_participant(&self.parts[i].1),
            None => Participant {
                joined: 0,
                left: 0,
                camera: Vec::new(),
                share: Vec::new(),
                audio: Vec::new(),
            },
        };
        let ghost p0 = p@;
        assert(p0 == match get_key(f.parts, ev.pid) {
            Some(q) => q,
            None => fresh_participant(),
        });
        if is_event(e, "joined") {
            p.joined = t;
            set_part(&mut self.parts, &pid, p);
            if self.cur.is_none() {
                self.cur = Some((t, pid));
            }
        } else if is_event(e, "left") {
            p.left = t;
            close_exec(&mut self.cam, &pid, &mut p.camera, t);
            close_exec(&mut self.share, &pid, &mut p.share, t);
            close_exec(&mut self.audio, &pid, &mut p.audio, t);
            set_part(&mut self.parts, &pid, p);
        } else if is_event(e, "camera_on") {
            set_part(&mut self.parts, &pid, p);
            set_open(&mut self.cam, &pid, t);
        } else if is_event(e, "camera_off") {
            close_exec(&mut self.cam, &pid, &mut p.camera, t);
            set_part(&mut self.parts, &pid, p);
        } else if is_event(e, "screenshare_on") {
            set_part(&mut self.parts, &pid, p);
            set_open(&mut self.share, &pid, t);
        } else if is_event(e, "screenshare_off") {
            close_exec(&mut self.share, &pid, &mut p.share, t);
            set_part(&mut self.parts, &pid, p);
        } else if is_event(e, "audio_on") {
            set_part(&mut self.parts, &pid, p);
            set_open(&mut self.audio, &pid, t);
        } else if is_event(e, "audio_off") {
            close_exec(&mut self.audio, &pid, &mut p.audio, t);
            set_part(&mut self.parts, &pid, p);
        } else if is_event(e, "dominant") {
            set_part(&mut self.parts, &pid, p);
            let cur = self.cur.take();
            match cur {
                Some((start, who)) => {
                    let wc = chars_of(who.as_str());
                    let pc = chars_of(pid.as_str());
                    if !crate::text::chars_eq(wc.as_slice(), pc.as_slice()) {
                        let d = Dominant {
                            start,
                            end: t,
                            endpoint: who,
                            nickname: String::from_str("xxx###xxx"),
                        };
                        let ghost before = dom_views(self.dom@);
                        let ghost dv = d@;
                        self.dom.push(d);
                        assert(dom_views(self.dom@) =~= before.push(dv));
                        self.cur = Some((t, pid));
                    } else {
                        self.cur = Some((start, who));
                    }
                },
                None => {
                    self.cur = Some((t, pid));
                },
            }
        } else {
            set_part(&mut self.parts, &pid, p);
        }
    }
}


/// The start of the interval open in `l` for `k`.
fn get_open(l: &Vec<(String, u64)>, k: &String) -> (r: Option<u64>)
    ensures
        r == get_key(open_views(l@), k@),
{
    match open_index(l, k) {
        Some(i) => Some(l[i].1),
        None => None,
    }
}

/// Closes an interval at `end` when one is open.
fn close_at_end(open: &Vec<(String, u64)>, pid: &String, intervals: &mut Vec<(u64, u64)>, end: u64)
    ensures
        final(intervals)@ == close(open_views(open@), pid@, old(intervals)@, end),
{
    match get_open(open, pid) {
        Some(s) => intervals.push((s, end)),
        None => {},
    }
}

/// Why a timeline cannot be read back.
#[derive(Debug, Clone, Copy, PartialEq, Eq)]
pub enum TimelineError {
    /// The log has no `meeting_ended` event, so the meeting has no end.
    NoMeetingEnd,
}

/// The time of the first `meeting_ended` event.
pub open spec fn meeting_end(events: Seq<EventView>) -> Option<u64>
    decreases events.len(),
{
    if events.len() == 0 {
        None
    } else {
        match meeting_end(events.drop_last()) {
            Some(t) => Some(t),
            None => if events.last().event == "meeting_ended"@ {
                Some(events.last().time)
            } else {
                None
            },
        }
    }
}

/// The timeline a log gives once the meeting ended at `end`.
pub open spec fn processed(events: Seq<EventView>, end: u64) -> (Seq<(Seq<char>, PView)>, Seq<DomView>) {
    let f = fold_events(events);
    (drop_key(finished_parts(f, end), seq![]), finished_dominant(f, end))
}

impl Timeline {
    /// When the meeting ended: the time of the first `meeting_ended` event.
    pub fn calculate_end(events: &Vec<RawEvent>) -> (r: Result<u64, TimelineError>)
        ensures
            match meeting_end(event_views(events@)) {
                Some(t) => r == Ok::<u64, TimelineError>(t),
                None => r == Err::<u64, TimelineError>(TimelineError::NoMeetingEnd),
            },
    {
        let ghost ev = event_views(events@);
        let mut i: usize = 0;
        while i < events.len()
            invariant
                i <= events@.len(),
                ev == event_views(events@),
                meeting_end(ev.take(i as int)) is None,
            decreases events@.len() - i,
        {
            assert(ev.take(i + 1).drop_last() =~= ev.take(i as int));
            if is_event(&events[i], "meeting_ended") {
                assert(meeting_end(ev.take(i + 1)) == Some(events@[i as int].timestamp));
                proof {
                    lemma_meeting_end_prefix(ev, i as int);
                }
                return Ok(events[i].timestamp);
            }
            i += 1;
        }
        assert(ev.take(i as int) =~= ev);
        Err(TimelineError::NoMeetingEnd)
    }

    /// Reads the log back into presence, media and speaker intervals; the
    /// meeting ended at `end`.
    ///
    /// A participant who never left is present until `end`, every interval
    /// still open is closed at `end`, events without a participant are
    /// dropped, and the last speaker speaks until `end`.
    pub fn process_events(events: Vec<RawEvent>, end: u64) -> (r: Timeline)
        ensures
            (part_views(r.participants@), dom_views(r.dominant@)) == processed(
                event_views(events@),
                end,
            ),
            r.end == end,
    {
        let ghost ev = event_views(events@);
        let mut st = TimelineState::new();
        let mut i: usize = 0;
        while i < events.len()
            invariant
                i <= events@.len(),
                ev == event_views(events@),
                st@ == fold_events(ev.take(i as int)),
            decreases events@.len() - i,
        {
            assert(ev.take(i + 1).drop_last() =~= ev.take(i as int));
            st.apply(&events[i]);
            i += 1;
        }
        assert(ev.take(i as int) =~= ev);
        let ghost f = st@;
        let participants = finish_all(&st, end);
        let dominant = finish_dominant(st, end);
        Timeline { participants, dominant, end }
    }

    /// When the meeting ended, and the log read back up to then.
    pub fn from_events(events: Vec<RawEvent>) -> (r: Result<Timeline, TimelineError>)
        ensures
            match meeting_end(event_views(events@)) {
                Some(end) => r matches Ok(tl) && tl.end == end && (
                part_views(tl.participants@),
                dom_views(tl.dominant@),
            ) == processed(event_views(events@), end),
                None => r == Err::<Timeline, TimelineError>(TimelineError::NoMeetingEnd),
            },
    {
        match Self::calculate_end(&events) {
            Ok(end) => Ok(Self::process_events(events, end)),
            Err(e) => Err(e),
        }
    }
}

proof fn lemma_meeting_end_prefix(ev: Seq<EventView>, i: int)
    requires
        0 <= i < ev.len(),
        meeting_end(ev.take(i + 1)) is Some,
    ensures
        meeting_end(ev) == meeting_end(ev.take(i + 1)),
    decreases ev.len() - i,
{
    if i + 1 == ev.len() {
        assert(ev.take(i + 1) =~= ev);
    } else {
        assert(ev.take(i + 2).drop_last() =~= ev.take(i + 1));
        lemma_meeting_end_prefix(ev, i + 1);
    }
}

/// The participants at the end of the meeting, the nameless one dropped.
fn finish_all(st: &TimelineState, end: u64) -> (r: Vec<(String, Participant)>)
    ensures
        part_views(r@) == drop_key(finished_parts(st@, end), seq![]),
{
    let ghost f = st@;
    let ghost fp = finished_parts(f, end);
    let mut r: Vec<(String, Participant)> = Vec::new();
    let mut j: usize = 0;
    while j < st.parts.len()
        invariant
            j <= st.parts@.len(),
            f == st@,
            fp == finished_parts(f, end),
            part_views(r@) == drop_key(fp.take(j as int), seq![]),
        decreases st.parts@.len() - j,
    {
        assert(fp.take(j + 1).drop_last() =~= fp.take(j as int));
        let pid = &st.parts[j].0;
        let old_p = &st.parts[j].1;
        let mut p = copy_participant(old_p);
        if p.left == 0 {
            p.left = end;
        }
        close_at_end(&st.cam, pid, &mut p.camera, end);
        close_at_end(&st.share, pid, &mut p.share, end);
        close_at_end(&st.audio, pid, &mut p.audio, end);
        assert(fp[j as int] == (pid@, p@));
        let ghost before = part_views(r@);
        assert(fp.take(j + 1).last() == fp[j as int]);
        if pid.unicode_len() != 0 {
            let ghost pv = p@;
            assert(pid@ != Seq::<char>::empty());
            r.push((pid.clone(), p));
            assert(part_views(r@) =~= before.push((pid@, pv)));
        } else {
            assert(pid@ =~= Seq::<char>::empty());
        }
        assert(part_views(r@) =~= drop_key(fp.take(j + 1), seq![]));
        j += 1;
    }
    assert(fp.take(j as int) =~= fp);
    r
}

/// The speaker stretches at the end of the meeting.
fn finish_dominant(st: TimelineState, end: u64) -> (r: Vec<Dominant>)
    ensures
        dom_views(r@) == finished_dominant(st@, end),
{
    let ghost f = st@;
    let mut dom = st.dom;
    match st.cur {
        Some((start, who)) => {
            let d = Dominant { start, end, endpoint: who, nickname: String::from_str("xxx###xxx") };
            let ghost before = dom_views(dom@);
            let ghost dv = d@;
            dom.push(d);
            assert(dom_views(dom@) =~= before.push(dv));
        },
        None => {},
    }
    dom
}

impl Participant {
    /// Whether the participant is in the meeting at `t`.
    pub fn present_at(&self, t: u64) -> (r: bool)
        ensures
            r == (self.joined <= t && t < self.left),
    {
        self.joined <= t && t < self.left
    }

    /// Whether the camera is on at `t`.
    pub fn camera_on_at(&self, t: u64) -> (r: bool)
        ensures
            r == covers(self.camera@, t),
    {
        covers_exec(&self.camera, t)
    }

    /// Whether the participant is sharing their screen at `t`.
    pub fn sharing_at(&self, t: u64) -> (r: bool)
        ensures
            r == covers(self.share@, t),
    {
        covers_exec(&self.share, t)
    }
}

/// Whether one of the `[start, end)` intervals holds `t`.
pub open spec fn covers(intervals: Seq<(u64, u64)>, t: u64) -> bool {
    exists|i: int| 0 <= i < intervals.len() && intervals[i].0 <= t && t < #[trigger] intervals[i].1
}

fn covers_exec(intervals: &Vec<(u64, u64)>, t: u64) -> (r: bool)
    ensures
        r == covers(intervals@, t),
{
    let mut i: usize = 0;
    while i < intervals.len()
        invariant
            i <= intervals@.len(),
            forall|k: int| 0 <= k < i ==> !(intervals@[k].0 <= t && t < #[trigger] intervals@[k].1),
        decreases intervals@.len() - i,
    {
        let (s, e) = intervals[i];
        if s <= t && t < e {
            assert(intervals@[i as int].0 <= t && t < intervals@[i as int].1);
            return true;
        }
        i += 1;
    }
    false
}

} // verus!

verus! {

/// Whether consecutive speaker stretches meet and name different speakers.
pub open spec fn stretches_tile(dom: Seq<DomView>) -> bool {
    forall|i: int|
        0 <= i < dom.len() - 1 ==> #[trigger] dom[i].end == dom[i + 1].start && dom[i].endpoint
            != dom[i + 1].endpoint
}

/// The stretches so far tile time up to the current speaker, who differs
/// from the last one finished.
pub open spec fn fold_tiles(f: Fold) -> bool {
    &&& stretches_tile(f.dom)
    &&& f.dom.len() > 0 ==> (f.cur matches Some((t, who)) && f.dom.last().end == t
        && f.dom.last().endpoint != who)
}

proof fn lemma_step_tiles(f: Fold, e: EventView)
    requires
        fold_tiles(f),
    ensures
        fold_tiles(step(f, e)),
{
    let g = step(f, e);
    if e.event == "dominant"@ {
        reveal_strlit("dominant");
        reveal_strlit("joined");
        reveal_strlit("left");
        reveal_strlit("camera_on");
        reveal_strlit("camera_off");
        reveal_strlit("screenshare_on");
        reveal_strlit("screenshare_off");
        reveal_strlit("audio_on");
        reveal_strlit("audio_off");
        assert("dominant"@.len() == 8);
        assert("joined"@.len() == 6);
        assert("left"@.len() == 4);
        assert("camera_on"@.len() == 9);
        assert("camera_off"@.len() == 10);
        assert("screenshare_on"@.len() == 14);
        assert("screenshare_off"@.len() == 15);
        assert("audio_on"@.len() == 8);
        assert("audio_off"@.len() == 9);
        assert("dominant"@[0] != "audio_on"@[0]);
        match f.cur {
            Some((start, who)) => {
                if who != e.pid {
                    let d = DomView {
                        start,
                        end: e.time,
                        endpoint: who,
                        nickname: placeholder_nickname(),
                    };
                    assert(g.dom == f.dom.push(d));
                    assert forall|i: int| 0 <= i < g.dom.len() - 1 implies #[trigger] g.dom[i].end
                        == g.dom[i + 1].start && g.dom[i].endpoint != g.dom[i + 1].endpoint by {
                        if i < f.dom.len() - 1 {
                            assert(g.dom[i] == f.dom[i]);
                            assert(g.dom[i + 1] == f.dom[i + 1]);
                        } else {
                            assert(g.dom[i] == f.dom.last());
                            assert(g.dom[i + 1] == d);
                        }
                    }
                }
            },
            None => {},
        }
    }
}

proof fn lemma_fold_tiles(events: Seq<EventView>)
    ensures
        fold_tiles(fold_events(events)),
    decreases events.len(),
{
    if events.len() > 0 {
        lemma_fold_tiles(events.drop_last());
        lemma_step_tiles(fold_events(events.drop_last()), events.last());
    }
}

/// The dominant-speaker stretches of a meeting tile its time: each one ends
/// where the next begins, and two in a row never name the same speaker.
pub proof fn law_speaker_stretches_tile(events: Seq<EventView>, end: u64)
    ensures
        stretches_tile(processed(events, end).1),
{
    let f = fold_events(events);
    lemma_fold_tiles(events);
    let d = processed(events, end).1;
    match f.cur {
        Some((start, who)) => {
            let last = DomView { start, end, endpoint: who, nickname: placeholder_nickname() };
            assert(d == f.dom.push(last));
            assert forall|i: int| 0 <= i < d.len() - 1 implies #[trigger] d[i].end == d[i + 1].start
                && d[i].endpoint != d[i + 1].endpoint by {
                if i < f.dom.len() - 1 {
                    assert(d[i] == f.dom[i]);
                    assert(d[i + 1] == f.dom[i + 1]);
                } else {
                    assert(i == f.dom.len() - 1);
                    assert(f.dom.len() > 0);
                    assert(f.cur == Some((start, who)));
                    assert(f.dom.last().end == start);
                    assert(d[i] == f.dom.last());
                    assert(d[i + 1] == last);
                }
            }
        },
        None => {},
    }
}

proof fn lemma_drop_key_gone<V>(l: Seq<(Seq<char>, V)>, k: Seq<char>)
    ensures
        key_pos(drop_key(l, k), k) is None,
    decreases l.len(),
{
    if l.len() > 0 {
        lemma_drop_key_gone(l.drop_last(), k);
        let d = drop_key(l.drop_last(), k);
        if l.last().0 != k {
            assert(d.push(l.last()).drop_last() =~= d);
            assert(drop_key(l, k) =~= d.push(l.last()));
        } else {
            assert(drop_key(l, k) =~= d);
        }
    }
}

/// Events without a participant never produce a participant of the
/// timeline.
pub proof fn law_no_nameless_participant(events: Seq<EventView>, end: u64)
    ensures
        key_pos(processed(events, end).0, seq![]) is None,
{
    lemma_drop_key_gone(finished_parts(fold_events(events), end), seq![]);
}

/// The last speaker stretch of a meeting runs until the meeting's end.
pub proof fn law_last_stretch_ends_meeting(events: Seq<EventView>, end: u64)
    ensures
        processed(events, end).1.len() > 0 ==> processed(events, end).1.last().end == end,
{
    lemma_fold_tiles(events);
}

/// Whether every interval of `s` starts no later than it ends, and ends by
/// `b`.
pub open spec fn spans_within(s: Seq<(u64, u64)>, b: u64) -> bool {
    forall|i: int| 0 <= i < s.len() ==> #[trigger] s[i].0 <= s[i].1 && s[i].1 <= b
}

/// Whether every interval of a participant lies within `[.., b]`, each
/// starting no later than it ends.
pub open spec fn pview_within(p: PView, b: u64) -> bool {
    spans_within(p.camera, b) && spans_within(p.share, b) && spans_within(p.audio, b)
}

/// Whether every value in a keyed list satisfies `pred`.
pub open spec fn all_values<V>(l: Seq<(Seq<char>, V)>, pred: spec_fn(V) -> bool) -> bool {
    forall|i: int| 0 <= i < l.len() ==> #[trigger] pred(l[i].1)
}

/// A participant within `b`, as a predicate.
pub open spec fn pview_ok(b: u64) -> spec_fn(PView) -> bool {
    |p: PView| pview_within(p, b)
}

/// An interval opened by `b`, as a predicate.
pub open spec fn open_ok(b: u64) -> spec_fn(u64) -> bool {
    |t: u64| t <= b
}

/// Whether every speaker stretch starts no later than it ends, and ends by
/// `b`.
pub open spec fn stretches_within(d: Seq<DomView>, b: u64) -> bool {
    forall|i: int| 0 <= i < d.len() ==> #[trigger] d[i].start <= d[i].end && d[i].end <= b
}

/// What has been read by time `b` lies within it.
pub open spec fn fold_within(f: Fold, b: u64) -> bool {
    &&& all_values(f.parts, pview_ok(b))
    &&& all_values(f.cam, open_ok(b))
    &&& all_values(f.share, open_ok(b))
    &&& all_values(f.audio, open_ok(b))
    &&& stretches_within(f.dom, b)
    &&& f.cur matches Some((s, _)) ==> s <= b
}

proof fn lemma_key_pos_range<V>(l: Seq<(Seq<char>, V)>, k: Seq<char>)
    ensures
        key_pos(l, k) matches Some(i) ==> 0 <= i < l.len(),
    decreases l.len(),
{
    if l.len() > 0 {
        lemma_key_pos_range(l.drop_last(), k);
    }
}

proof fn lemma_get_key_all<V>(l: Seq<(Seq<char>, V)>, k: Seq<char>, pred: spec_fn(V) -> bool)
    requires
        all_values(l, pred),
    ensures
        get_key(l, k) matches Some(v) ==> pred(v),
{
    lemma_key_pos_range(l, k);
    if let Some(i) = key_pos(l, k) {
        assert(pred(l[i].1));
    }
}

proof fn lemma_set_key_all<V>(l: Seq<(Seq<char>, V)>, k: Seq<char>, v: V, pred: spec_fn(V) -> bool)
    requires
        all_values(l, pred),
        pred(v),
    ensures
        all_values(set_key(l, k, v), pred),
{
    lemma_key_pos_range(l, k);
    let r = set_key(l, k, v);
    assert forall|i: int| 0 <= i < r.len() implies #[trigger] pred(r[i].1) by {
        match key_pos(l, k) {
            Some(j) => {
                if i != j {
                    assert(r[i] == l[i]);
                }
            },
            None => {
                if i < l.len() {
                    assert(r[i] == l[i]);
                }
            },
        }
    }
}

proof fn lemma_drop_key_all<V>(l: Seq<(Seq<char>, V)>, k: Seq<char>, pred: spec_fn(V) -> bool)
    requires
        all_values(l, pred),
    ensures
        all_values(drop_key(l, k), pred),
    decreases l.len(),
{
    if l.len() > 0 {
        let d = l.drop_last();
        assert forall|i: int| 0 <= i < d.len() implies #[trigger] pred(d[i].1) by {
            assert(d[i] == l[i]);
        }
        lemma_drop_key_all(d, k, pred);
        let r = drop_key(l, k);
        let dd = drop_key(d, k);
        assert forall|i: int| 0 <= i < r.len() implies #[trigger] pred(r[i].1) by {
            if i < dd.len() {
                assert(r[i] == dd[i]);
            } else {
                assert(r[i] == l.last());
                assert(pred(l[l.len() - 1].1));
            }
        }
    }
}

proof fn lemma_values_weaken(l: Seq<(Seq<char>, u64)>, b: u64, c: u64)
    requires
        all_values(l, open_ok(b)),
        b <= c,
    ensures
        all_values(l, open_ok(c)),
{
    assert forall|i: int| 0 <= i < l.len() implies #[trigger] open_ok(c)(l[i].1) by {
        assert(open_ok(b)(l[i].1));
    }
}

proof fn lemma_parts_weaken(l: Seq<(Seq<char>, PView)>, b: u64, c: u64)
    requires
        all_values(l, pview_ok(b)),
        b <= c,
    ensures
        all_values(l, pview_ok(c)),
{
    assert forall|i: int| 0 <= i < l.len() implies #[trigger] pview_ok(c)(l[i].1) by {
        assert(pview_ok(b)(l[i].1));
        let p = l[i].1;
        assert forall|j: int| 0 <= j < p.camera.len() implies #[trigger] p.camera[j].0 <= p.camera[j].1
            && p.camera[j].1 <= c by {}
        assert forall|j: int| 0 <= j < p.share.len() implies #[trigger] p.share[j].0 <= p.share[j].1
            && p.share[j].1 <= c by {}
        assert forall|j: int| 0 <= j < p.audio.len() implies #[trigger] p.audio[j].0 <= p.audio[j].1
            && p.audio[j].1 <= c by {}
    }
}

proof fn lemma_close_within(open: Seq<(Seq<char>, u64)>, pid: Seq<char>, s: Seq<(u64, u64)>, b: u64, t: u64)
    requires
        all_values(open, open_ok(b)),
        spans_within(s, b),
        b <= t,
    ensures
        spans_within(close(open, pid, s, t), t),
{
    lemma_get_key_all(open, pid, open_ok(b));
    let r = close(open, pid, s, t);
    assert forall|i: int| 0 <= i < r.len() implies #[trigger] r[i].0 <= r[i].1 && r[i].1 <= t by {
        if i < s.len() {
            assert(r[i] == s[i]);
        }
    }
}

proof fn lemma_step_within(f: Fold, e: EventView, b: u64)
    requires
        fold_within(f, b),
        b <= e.time,
    ensures
        fold_within(step(f, e), e.time),
{
    let t = e.time;
    let pid = e.pid;
    lemma_parts_weaken(f.parts, b, t);
    lemma_values_weaken(f.cam, b, t);
    lemma_values_weaken(f.share, b, t);
    lemma_values_weaken(f.audio, b, t);
    lemma_get_key_all(f.parts, pid, pview_ok(t));
    let p = match get_key(f.parts, pid) {
        Some(p) => p,
        None => fresh_participant(),
    };
    assert(pview_ok(t)(p));
    lemma_close_within(f.cam, pid, p.camera, t, t);
    lemma_close_within(f.share, pid, p.share, t, t);
    lemma_close_within(f.audio, pid, p.audio, t, t);
    lemma_set_key_all(f.parts, pid, p, pview_ok(t));
    lemma_set_key_all(f.parts, pid, PView { joined: t, ..p }, pview_ok(t));
    lemma_set_key_all(
        f.parts,
        pid,
        PView {
            left: t,
            camera: close(f.cam, pid, p.camera, t),
            share: close(f.share, pid, p.share, t),
            audio: close(f.audio, pid, p.audio, t),
            ..p
        },
        pview_ok(t),
    );
    lemma_set_key_all(f.parts, pid, PView { camera: close(f.cam, pid, p.camera, t), ..p }, pview_ok(t));
    lemma_set_key_all(f.parts, pid, PView { share: close(f.share, pid, p.share, t), ..p }, pview_ok(t));
    lemma_set_key_all(f.parts, pid, PView { audio: close(f.audio, pid, p.audio, t), ..p }, pview_ok(t));
    lemma_set_key_all(f.cam, pid, t, open_ok(t));
    lemma_set_key_all(f.share, pid, t, open_ok(t));
    lemma_set_key_all(f.audio, pid, t, open_ok(t));
    lemma_drop_key_all(f.cam, pid, open_ok(t));
    lemma_drop_key_all(f.share, pid, open_ok(t));
    lemma_drop_key_all(f.audio, pid, open_ok(t));
    let g = step(f, e);
    assert(stretches_within(g.dom, t)) by {
        assert forall|i: int| 0 <= i < g.dom.len() implies #[trigger] g.dom[i].start <= g.dom[i].end
            && g.dom[i].end <= t by {
            if i < f.dom.len() {
                assert(g.dom[i] == f.dom[i]);
            }
        }
    }
}

/// Whether the events come in time order.
pub open spec fn in_time_order(events: Seq<EventView>) -> bool {
    forall|i: int, j: int| 0 <= i < j < events.len() ==> #[trigger] events[i].time <= #[trigger] events[j].time
}

proof fn lemma_fold_within(events: Seq<EventView>)
    requires
        in_time_order(events),
    ensures
        fold_within(fold_events(events), if events.len() == 0 {
            0
        } else {
            events.last().time
        }),
    decreases events.len(),
{
    if events.len() > 0 {
        let d = events.drop_last();
        assert forall|i: int, j: int| 0 <= i < j < d.len() implies #[trigger] d[i].time <= #[trigger] d[j].time by {
            assert(d[i] == events[i] && d[j] == events[j]);
        }
        lemma_fold_within(d);
        let b: u64 = if d.len() == 0 {
            0
        } else {
            d.last().time
        };
        if d.len() > 0 {
            assert(events[d.len() - 1].time <= events[events.len() - 1].time);
        }
        lemma_step_within(fold_events(d), events.last(), b);
    }
}

/// In a log read in time order that holds no event after `end`, every
/// camera, screenshare and audio interval of every participant starts no
/// later than it ends and ends by `end`, and so does every speaker stretch.
pub proof fn law_spans_within_meeting(events: Seq<EventView>, end: u64)
    requires
        in_time_order(events),
        forall|i: int| 0 <= i < events.len() ==> #[trigger] events[i].time <= end,
    ensures
        forall|k: int|
            0 <= k < processed(events, end).0.len() ==> pview_within(#[trigger] processed(events, end).0[k].1, end),
        stretches_within(processed(events, end).1, end),
{
    let f = fold_events(events);
    lemma_fold_within(events);
    let b: u64 = if events.len() == 0 {
        0
    } else {
        events.last().time
    };
    if events.len() > 0 {
        assert(events[events.len() - 1].time <= end);
    }
    lemma_parts_weaken(f.parts, b, end);
    lemma_values_weaken(f.cam, b, end);
    lemma_values_weaken(f.share, b, end);
    lemma_values_weaken(f.audio, b, end);
    let fp = finished_parts(f, end);
    assert forall|i: int| 0 <= i < fp.len() implies #[trigger] pview_ok(end)(fp[i].1) by {
        let (pid, p) = f.parts[i];
        assert(pview_ok(end)(p));
        lemma_close_within(f.cam, pid, p.camera, end, end);
        lemma_close_within(f.share, pid, p.share, end, end);
        lemma_close_within(f.audio, pid, p.audio, end, end);
        assert(fp[i].1 == finish(f, pid, p, end));
    }
    lemma_drop_key_all(fp, seq![], pview_ok(end));
    let parts = processed(events, end).0;
    assert forall|k: int| 0 <= k < parts.len() implies pview_within(#[trigger] parts[k].1, end) by {
        assert(pview_ok(end)(parts[k].1));
    }
    let d = processed(events, end).1;
    assert forall|i: int| 0 <= i < d.len() implies #[trigger] d[i].start <= d[i].end && d[i].end <= end by {
        if i < f.dom.len() {
            assert(d[i] == f.dom[i]);
        }
    }
}

proof fn lemma_key_pos_char<V>(l: Seq<(Seq<char>, V)>, k: Seq<char>)
    ensures
        match key_pos(l, k) {
            Some(i) => 0 <= i < l.len() && l[i].0 == k && forall|j: int| 0 <= j < i ==> l[j].0 != k,
            None => forall|j: int| 0 <= j < l.len() ==> l[j].0 != k,
        },
    decreases l.len(),
{
    if l.len() > 0 {
        let d = l.drop_last();
        lemma_key_pos_char(d, k);
        assert forall|j: int| 0 <= j < d.len() implies d[j] == l[j] by {}
    }
}

proof fn lemma_key_pos_same<V, W>(l: Seq<(Seq<char>, V)>, r: Seq<(Seq<char>, W)>, k: Seq<char>)
    requires
        r.len() == l.len(),
        forall|j: int| 0 <= j < l.len() ==> #[trigger] r[j].0 == l[j].0,
    ensures
        key_pos(r, k) == key_pos(l, k),
    decreases l.len(),
{
    if l.len() > 0 {
        let dl = l.drop_last();
        let dr = r.drop_last();
        assert forall|j: int| 0 <= j < dl.len() implies #[trigger] dr[j].0 == dl[j].0 by {
            assert(dr[j] == r[j]);
            assert(dl[j] == l[j]);
        }
        lemma_key_pos_same(dl, dr, k);
        assert(r.last().0 == l.last().0) by {
            assert(r[l.len() - 1].0 == l[l.len() - 1].0);
        }
    }
}

proof fn lemma_get_push<V>(l: Seq<(Seq<char>, V)>, x: (Seq<char>, V), k: Seq<char>)
    ensures
        get_key(l.push(x), k) == match get_key(l, k) {
            Some(v) => Some(v),
            None => if x.0 == k {
                Some(x.1)
            } else {
                None
            },
        },
{
    assert(l.push(x).drop_last() =~= l);
    lemma_key_pos_char(l, k);
    if let Some(i) = key_pos(l, k) {
        assert(l.push(x)[i] == l[i]);
    }
}

proof fn lemma_get_set_all<V>(l: Seq<(Seq<char>, V)>, k: Seq<char>, k2: Seq<char>)
    ensures
        forall|v: V|
            #[trigger] get_key(set_key(l, k, v), k2) == if k2 == k {
                Some(v)
            } else {
                get_key(l, k2)
            },
{
    assert forall|v: V| #[trigger] get_key(set_key(l, k, v), k2) == if k2 == k {
        Some(v)
    } else {
        get_key(l, k2)
    } by {
        lemma_key_pos_char(l, k);
        match key_pos(l, k) {
            Some(i) => {
                let r = l.update(i, (k, v));
                lemma_key_pos_char(l, k2);
                lemma_key_pos_char(r, k2);
                assert forall|j: int| 0 <= j < l.len() implies #[trigger] r[j].0 == l[j].0 by {}
                lemma_key_pos_same(l, r, k2);
                if k2 == k {
                    assert(key_pos(r, k2) == Some(i));
                } else {
                    if let Some(i2) = key_pos(l, k2) {
                        assert(key_pos(r, k2) == Some(i2));
                        assert(r[i2] == l[i2]);
                    } else {
                        assert(key_pos(r, k2) is None);
                    }
                }
            },
            None => {
                lemma_get_push(l, (k, v), k2);
                if k2 == k {
                    lemma_key_pos_char(l, k2);
                }
            },
        }
    }
}

proof fn lemma_get_drop<V>(l: Seq<(Seq<char>, V)>, k: Seq<char>, k2: Seq<char>)
    requires
        k2 != k,
    ensures
        get_key(drop_key(l, k), k2) == get_key(l, k2),
    decreases l.len(),
{
    if l.len() > 0 {
        let d = l.drop_last();
        let x = l.last();
        lemma_get_drop(d, k, k2);
        assert(l == d.push(x));
        lemma_get_push(d, x, k2);
        let dd = drop_key(d, k);
        if x.0 == k {
            assert(drop_key(l, k) =~= dd);
        } else {
            assert(drop_key(l, k) =~= dd.push(x));
            lemma_get_push(dd, x, k2);
        }
    }
}

proof fn lemma_get_finished(f: Fold, end: u64, pid: Seq<char>)
    ensures
        get_key(finished_parts(f, end), pid) == match get_key(f.parts, pid) {
            Some(p) => Some(finish(f, pid, p, end)),
            None => None,
        },
{
    let l = f.parts;
    let r = finished_parts(f, end);
    lemma_key_pos_char(l, pid);
    lemma_key_pos_char(r, pid);
    assert forall|j: int| 0 <= j < l.len() implies #[trigger] r[j].0 == l[j].0 && r[j].1 == finish(
        f,
        l[j].0,
        l[j].1,
        end,
    ) by {}
    lemma_key_pos_same(l, r, pid);
    if let Some(i) = key_pos(l, pid) {
        assert(key_pos(r, pid) == Some(i));
    } else {
        assert(key_pos(r, pid) is None);
    }
}

proof fn lemma_close_keeps(ints: Seq<(u64, u64)>, x: (u64, u64))
    requires
        ints.contains(x),
    ensures
        forall|open: Seq<(Seq<char>, u64)>, pid: Seq<char>, t: u64| #[trigger] close(open, pid, ints, t).contains(x),
{
    let k = choose|k: int| 0 <= k < ints.len() && ints[k] == x;
    assert forall|open: Seq<(Seq<char>, u64)>, pid: Seq<char>, t: u64| #[trigger] close(open, pid, ints, t).contains(x) by {
        let c = close(open, pid, ints, t);
        assert(c[k] == x);
    }
}

/// Whether `e` opens, closes or ends the camera of `pid`.
pub open spec fn touches_camera(e: EventView, pid: Seq<char>) -> bool {
    e.pid == pid && (e.event == "camera_on"@ || e.event == "camera_off"@ || e.event == "left"@)
}

proof fn lemma_fold_take_step(events: Seq<EventView>, n: int)
    requires
        0 <= n < events.len(),
    ensures
        fold_events(events.take(n + 1)) == step(fold_events(events.take(n)), events[n]),
{
    assert(events.take(n + 1).drop_last() =~= events.take(n));
}

proof fn lemma_step_keeps_cam(f: Fold, e: EventView, pid: Seq<char>)
    requires
        !touches_camera(e, pid),
    ensures
        get_key(step(f, e).cam, pid) == get_key(f.cam, pid),
{
    if e.pid != pid {
        lemma_get_set_all(f.cam, e.pid, pid);
        lemma_get_drop(f.cam, e.pid, pid);
    }
}

proof fn lemma_step_keeps_span(f: Fold, e: EventView, pid: Seq<char>, x: (u64, u64))
    requires
        get_key(f.parts, pid) matches Some(p) && p.camera.contains(x),
    ensures
        get_key(step(f, e).parts, pid) matches Some(p) && p.camera.contains(x),
{
    lemma_get_set_all(f.parts, e.pid, pid);
    let p = get_key(f.parts, pid)->0;
    lemma_close_keeps(p.camera, x);
}

proof fn lemma_cam_open(events: Seq<EventView>, pid: Seq<char>, i: int, n: int)
    requires
        0 <= i < n <= events.len(),
        events[i].pid == pid,
        events[i].event == "camera_on"@,
        forall|k: int| i < k < n ==> !touches_camera(#[trigger] events[k], pid),
    ensures
        get_key(fold_events(events.take(n)).cam, pid) == Some(events[i].time),
    decreases n,
{
    reveal_strlit("joined");
    reveal_strlit("left");
    reveal_strlit("camera_on");
    lemma_fold_take_step(events, n - 1);
    let f = fold_events(events.take(n - 1));
    if n - 1 == i {
        assert("camera_on"@ != "joined"@ && "camera_on"@ != "left"@) by {
            assert("camera_on"@[0] != "joined"@[0] && "camera_on"@[0] != "left"@[0]);
        }
        lemma_get_set_all(f.cam, pid, pid);
    } else {
        lemma_cam_open(events, pid, i, n - 1);
        lemma_step_keeps_cam(f, events[n - 1], pid);
    }
}

proof fn lemma_cam_closed(events: Seq<EventView>, pid: Seq<char>, s: u64, j: int, n: int)
    requires
        0 <= j < n <= events.len(),
        get_key(fold_events(events.take(j)).cam, pid) == Some(s),
        events[j].pid == pid,
        events[j].event == "camera_off"@,
    ensures
        get_key(fold_events(events.take(n)).parts, pid) matches Some(p) && p.camera.contains(
            (s, events[j].time),
        ),
    decreases n,
{
    reveal_strlit("joined");
    reveal_strlit("left");
    reveal_strlit("camera_on");
    reveal_strlit("camera_off");
    lemma_fold_take_step(events, n - 1);
    let f = fold_events(events.take(n - 1));
    if n - 1 == j {
        assert("camera_off"@ != "joined"@ && "camera_off"@ != "left"@ && "camera_off"@ != "camera_on"@) by {
            assert("camera_off"@[0] != "joined"@[0] && "camera_off"@[0] != "left"@[0]);
            assert("camera_off"@.len() != "camera_on"@.len());
        }
        let t = events[j].time;
        let p = match get_key(f.parts, pid) {
            Some(p) => p,
            None => fresh_participant(),
        };
        let cam = close(f.cam, pid, p.camera, t);
        assert(cam == p.camera.push((s, t)));
        assert(cam[p.camera.len() as int] == (s, t));
        lemma_get_set_all(f.parts, pid, pid);
        assert(get_key(set_key(f.parts, pid, PView { camera: cam, ..p }), pid) == Some(
            PView { camera: cam, ..p },
        ));
    } else {
        lemma_cam_closed(events, pid, s, j, n - 1);
        lemma_step_keeps_span(f, events[n - 1], pid, (s, events[j].time));
    }
}

/// A camera turned on at `s` and off at `t` by the same participant, with
/// no other camera event or departure of theirs in between, is read back as
/// that participant's camera interval `(s, t)`.
pub proof fn law_camera_span_recorded(events: Seq<EventView>, end: u64, pid: Seq<char>, i: int, j: int)
    requires
        0 <= i < j < events.len(),
        pid.len() > 0,
        events[i].pid == pid,
        events[i].event == "camera_on"@,
        events[j].pid == pid,
        events[j].event == "camera_off"@,
        forall|k: int|
            i < k < j ==> !(#[trigger] events[k].pid == pid && (events[k].event == "camera_on"@
                || events[k].event == "camera_off"@ || events[k].event == "left"@)),
    ensures
        get_key(processed(events, end).0, pid) matches Some(p) && p.camera.contains(
            (events[i].time, events[j].time),
        ),
{
    assert forall|k: int| i < k < j implies !touches_camera(#[trigger] events[k], pid) by {}
    lemma_cam_open(events, pid, i, j);
    lemma_cam_closed(events, pid, events[i].time, j, events.len() as int);
    assert(events.take(events.len() as int) =~= events);
    let f = fold_events(events);
    let x = (events[i].time, events[j].time);
    lemma_get_finished(f, end, pid);
    let p = get_key(f.parts, pid)->0;
    lemma_close_keeps(p.camera, x);
    assert(finish(f, pid, p, end).camera.contains(x));
    lemma_get_drop(finished_parts(f, end), seq![], pid);
}

} // verus!
