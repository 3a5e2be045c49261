//! The record of *what happened* in a meeting, next to the recordings of it.
//!
//! Media files say nothing about when someone joined, muted, or was the
//! dominant speaker, which is exactly what a later render pass needs to lay
//! out a composite video. The room reports events through
//! [`TimelineHandler`]; a background collector gathers them with
//! [`TimelineEngine::parse_event`] and, at meeting end, the records and the
//! [`Metadata`] summary are written out as `timeline.json` and
//! `metadata.json` in the room's output directory.

use std::sync::mpsc::{Receiver, RecvTimeoutError, Sender};
use std::time::{Duration, Instant, SystemTime, UNIX_EPOCH};
use vstd::prelude::*;

verus! {

#[verifier::external_type_specification]
#[verifier::external_body]
pub struct ExInstant(Instant);

#[verifier::external_type_specification]
#[verifier::external_body]
pub struct ExSystemTime(SystemTime);

#[verifier::external_type_specification]
#[verifier::external_body]
#[verifier::reject_recursive_types(T)]
pub struct ExSender<T>(Sender<T>);

#[verifier::external_type_specification]
#[verifier::external_body]
#[verifier::reject_recursive_types(T)]
pub struct ExReceiver<T>(Receiver<T>);

#[verifier::external_type_specification]
#[verifier::external_body]
pub struct ExRecvTimeoutError(RecvTimeoutError);

/// Trusted: calls `Instant::elapsed` of std. The time that has passed is the
/// clock's, so nothing is claimed of it.
#[verifier::external_body]
fn instant_elapsed(start: &Instant) -> Duration {
    start.elapsed()
}

/// Trusted: calls `Duration::as_millis` of std. Nothing is claimed of the
/// result: a `Duration` is opaque here.
#[verifier::external_body]
fn duration_as_millis(d: &Duration) -> u128 {
    d.as_millis()
}

/// Trusted: calls `Instant::now` of std. Nothing is claimed: it is the time.
#[verifier::external_body]
fn instant_now() -> Instant {
    Instant::now()
}

/// Trusted: calls `Receiver::recv_timeout` of std. Whether a message comes in
/// time depends on the other thread and the clock, so nothing is claimed.
#[verifier::external_body]
fn recv_within(rx: &Receiver<()>, timeout: Duration) -> Result<(), RecvTimeoutError> {
    rx.recv_timeout(timeout)
}

/// Trusted: calls `SystemTime::now` of std. Nothing is claimed: it is the
/// time.
#[verifier::external_body]
fn system_now() -> SystemTime {
    SystemTime::now()
}

/// Trusted: calls `SystemTime::duration_since(UNIX_EPOCH)` of std, which
/// fails for a time before the epoch; the failure is returned as `None`.
/// Nothing is claimed of the value: it rests on the clock.
#[verifier::external_body]
fn since_epoch(t: &SystemTime) -> Option<Duration> {
    t.duration_since(UNIX_EPOCH).ok()
}

/// Milliseconds since the Unix epoch, read off the system clock; a clock set
/// before 1970 reads as `0`.
pub(crate) fn now_unix() -> u128 {
    let now = system_now();
    match since_epoch(&now) {
        Some(d) => duration_as_millis(&d),
        None => 0,
    }
}

/// Something worth recording about the meeting.
///
/// `timestamp_ms` is always relative to the room's start, and `endpoint` is
/// `None` for meeting-wide events. [`TimelineEvent::code`] yields the string
/// written into `timeline.json`.
#[derive(Debug)]
pub enum TimelineEvent {
    MeetingStart { timestamp_ms: u128, endpoint: Option<String> },
    Joined { timestamp_ms: u128, endpoint: Option<String>, nickname: String },
    Left { timestamp_ms: u128, endpoint: Option<String> },
    CameraOn { timestamp_ms: u128, endpoint: Option<String> },
    CameraOff { timestamp_ms: u128, endpoint: Option<String> },
    ScreenshareOn { timestamp_ms: u128, endpoint: Option<String> },
    ScreenshareOff { timestamp_ms: u128, endpoint: Option<String> },
    AudioOn { timestamp_ms: u128, endpoint: Option<String> },
    AudioOff { timestamp_ms: u128, endpoint: Option<String> },
    Dominant { timestamp_ms: u128, endpoint: Option<String> },
    MeetingEnd { timestamp_ms: u128, endpoint: Option<String> },
}

/// The string each event is recorded under in `timeline.json`.
pub open spec fn event_code(e: TimelineEvent) -> Seq<char> {
    match e {
        TimelineEvent::MeetingStart { .. } => "meeting_started"@,
        TimelineEvent::Joined { .. } => "joined"@,
        TimelineEvent::Left { .. } => "left"@,
        TimelineEvent::CameraOn { .. } => "camera_on"@,
        TimelineEvent::CameraOff { .. } => "camera_off"@,
        TimelineEvent::ScreenshareOn { .. } => "screenshare_on"@,
        TimelineEvent::ScreenshareOff { .. } => "screenshare_off"@,
        TimelineEvent::AudioOn { .. } => "audio_on"@,
        TimelineEvent::AudioOff { .. } => "audio_off"@,
        TimelineEvent::Dominant { .. } => "dominant"@,
        TimelineEvent::MeetingEnd { .. } => "meeting_ended"@,
    }
}

/// When an event happened, in milliseconds since the room started.
pub open spec fn event_time(e: TimelineEvent) -> u128 {
    match e {
        TimelineEvent::MeetingStart { timestamp_ms, .. } => timestamp_ms,
        TimelineEvent::Joined { timestamp_ms, .. } => timestamp_ms,
        TimelineEvent::Left { timestamp_ms, .. } => timestamp_ms,
        TimelineEvent::CameraOn { timestamp_ms, .. } => timestamp_ms,
        TimelineEvent::CameraOff { timestamp_ms, .. } => timestamp_ms,
        TimelineEvent::ScreenshareOn { timestamp_ms, .. } => timestamp_ms,
        TimelineEvent::ScreenshareOff { timestamp_ms, .. } => timestamp_ms,
        TimelineEvent::AudioOn { timestamp_ms, .. } => timestamp_ms,
        TimelineEvent::AudioOff { timestamp_ms, .. } => timestamp_ms,
        TimelineEvent::Dominant { timestamp_ms, .. } => timestamp_ms,
        TimelineEvent::MeetingEnd { timestamp_ms, .. } => timestamp_ms,
    }
}

/// Whom an event is about; `None` for meeting-wide events.
pub open spec fn event_endpoint(e: TimelineEvent) -> Option<String> {
    match e {
        TimelineEvent::MeetingStart { endpoint, .. } => endpoint,
        TimelineEvent::Joined { endpoint, .. } => endpoint,
        TimelineEvent::Left { endpoint, .. } => endpoint,
        TimelineEvent::CameraOn { endpoint, .. } => endpoint,
        TimelineEvent::CameraOff { endpoint, .. } => endpoint,
        TimelineEvent::ScreenshareOn { endpoint, .. } => endpoint,
        TimelineEvent::ScreenshareOff { endpoint, .. } => endpoint,
        TimelineEvent::AudioOn { endpoint, .. } => endpoint,
        TimelineEvent::AudioOff { endpoint, .. } => endpoint,
        TimelineEvent::Dominant { endpoint, .. } => endpoint,
        TimelineEvent::MeetingEnd { endpoint, .. } => endpoint,
    }
}

fn clone_opt_string(o: &Option<String>) -> (r: Option<String>)
    ensures
        r == *o,
{
    match o {
        Some(s) => Some(s.clone()),
        None => None,
    }
}

impl TimelineEvent {
    /// The string written into `timeline.json` for this event.
    pub fn code(&self) -> (s: &'static str)
        ensures
            s@ == event_code(*self),
    {
        match self {
            TimelineEvent::MeetingStart { .. } => "meeting_started",
            TimelineEvent::Joined { .. } => "joined",
            TimelineEvent::Left { .. } => "left",
            TimelineEvent::CameraOn { .. } => "camera_on",
            TimelineEvent::CameraOff { .. } => "camera_off",
            TimelineEvent::ScreenshareOn { .. } => "screenshare_on",
            TimelineEvent::ScreenshareOff { .. } => "screenshare_off",
            TimelineEvent::AudioOn { .. } => "audio_on",
            TimelineEvent::AudioOff { .. } => "audio_off",
            TimelineEvent::Dominant { .. } => "dominant",
            TimelineEvent::MeetingEnd { .. } => "meeting_ended",
        }
    }

    /// Whether this is the final event, after which the collector writes
    /// its files.
    pub fn is_meeting_end(&self) -> (r: bool)
        ensures
            r == (*self is MeetingEnd),
    {
        match self {
            TimelineEvent::MeetingEnd { .. } => true,
            _ => false,
        }
    }

    /// A copy of this event.
    pub fn duplicate(&self) -> (r: Self)
        ensures
            r == *self,
    {
        match self {
            TimelineEvent::MeetingStart { timestamp_ms, endpoint } => TimelineEvent::MeetingStart {
                timestamp_ms: *timestamp_ms,
                endpoint: clone_opt_string(endpoint),
            },
            TimelineEvent::Joined { timestamp_ms, endpoint, nickname } => TimelineEvent::Joined {
                timestamp_ms: *timestamp_ms,
                endpoint: clone_opt_string(endpoint),
                nickname: nickname.clone(),
            },
            TimelineEvent::Left { timestamp_ms, endpoint } => TimelineEvent::Left {
                timestamp_ms: *timestamp_ms,
                endpoint: clone_opt_string(endpoint),
            },
            TimelineEvent::CameraOn { timestamp_ms, endpoint } => TimelineEvent::CameraOn {
                timestamp_ms: *timestamp_ms,
                endpoint: clone_opt_string(endpoint),
            },
            TimelineEvent::CameraOff { timestamp_ms, endpoint } => TimelineEvent::CameraOff {
                timestamp_ms: *timestamp_ms,
                endpoint: clone_opt_string(endpoint),
            },
            TimelineEvent::ScreenshareOn { timestamp_ms, endpoint } => TimelineEvent::ScreenshareOn {
                timestamp_ms: *timestamp_ms,
                endpoint: clone_opt_string(endpoint),
            },
            TimelineEvent::ScreenshareOff { timestamp_ms, endpoint } =>
            TimelineEvent::ScreenshareOff {
                timestamp_ms: *timestamp_ms,
                endpoint: clone_opt_string(endpoint),
            },
            TimelineEvent::AudioOn { timestamp_ms, endpoint } => TimelineEvent::AudioOn {
                timestamp_ms: *timestamp_ms,
                endpoint: clone_opt_string(endpoint),
            },
            TimelineEvent::AudioOff { timestamp_ms, endpoint } => TimelineEvent::AudioOff {
                timestamp_ms: *timestamp_ms,
                endpoint: clone_opt_string(endpoint),
            },
            TimelineEvent::Dominant { timestamp_ms, endpoint } => TimelineEvent::Dominant {
                timestamp_ms: *timestamp_ms,
                endpoint: clone_opt_string(endpoint),
            },
            TimelineEvent::MeetingEnd { timestamp_ms, endpoint } => TimelineEvent::MeetingEnd {
                timestamp_ms: *timestamp_ms,
                endpoint: clone_opt_string(endpoint),
            },
        }
    }
}

/// What a join records, all at time `ts`: the join, then the camera coming on
/// unless it is muted, then the audio coming on unless it is muted.
pub open spec fn join_events(
    ts: u128,
    endpoint: Option<String>,
    nickname: String,
    video_muted: bool,
    audio_muted: bool,
) -> Seq<TimelineEvent> {
    seq![TimelineEvent::Joined { timestamp_ms: ts, endpoint, nickname }] + (if video_muted {
        seq![]
    } else {
        seq![TimelineEvent::CameraOn { timestamp_ms: ts, endpoint }]
    }) + (if audio_muted {
        seq![]
    } else {
        seq![TimelineEvent::AudioOn { timestamp_ms: ts, endpoint }]
    })
}

/// The room's end of the timeline channel: one method per recordable event.
///
/// Every method stamps the current offset and returns the events to record,
/// in order; the caller posts them on [`channel`](Self::channel) to the
/// collector thread, ignoring send failures, since a dead collector must not
/// take the recording down with it.
#[derive(Debug)]
pub struct TimelineHandler {
    tx: Sender<TimelineEvent>,
    start_instant: Instant,
    files_written_rx: Receiver<()>,
}

impl TimelineHandler {
    /// The channel events are posted on.
    pub closed spec fn sender(&self) -> Sender<TimelineEvent> {
        self.tx
    }

    /// The channel to post the returned events on.
    pub fn channel(&self) -> (r: &Sender<TimelineEvent>)
        ensures
            *r == self.sender(),
    {
        &self.tx
    }

    /// The instant the meeting's time is measured from.
    pub closed spec fn start(&self) -> Instant {
        self.start_instant
    }

    /// The channel the collector signals on once its files are written.
    pub closed spec fn files_written(&self) -> Receiver<()> {
        self.files_written_rx
    }

    pub fn new(tx: Sender<TimelineEvent>, instant: Instant, files_written_rx: Receiver<()>) -> (r:
        Self)
        ensures
            r.sender() == tx,
            r.start() == instant,
            r.files_written() == files_written_rx,
    {
        Self { tx, start_instant: instant, files_written_rx }
    }

    /// Blocks until the timeline thread has written timeline.json and
    /// metadata.json after meeting_ended(), or the timeout passes.
    pub fn wait_for_files(&self, timeout: Duration) -> bool {
        recv_within(&self.files_written_rx, timeout).is_ok()
    }

    /// Milliseconds since the room started.
    fn get_relative_ms(&self) -> u128 {
        let d = instant_elapsed(&self.start_instant);
        duration_as_millis(&d)
    }

    pub fn meeting_started(&self) -> (r: TimelineEvent)
        ensures
            r matches TimelineEvent::MeetingStart { endpoint: None, .. },
    {
        let timestamp_ms = self.get_relative_ms();
        TimelineEvent::MeetingStart { timestamp_ms, endpoint: None }
    }

    /// Records a join, plus a camera/audio "on" event at the same instant for
    /// whichever devices are already live — so the render pass sees an
    /// explicit start for every interval rather than inferring one. The join
    /// of the first participant of an empty room is stamped at time zero.
    pub fn participant_joined(
        &self,
        endpoint: Option<String>,
        nickname: String,
        video_muted: bool,
        audio_muted: bool,
        is_empty: bool,
    ) -> (r: Vec<TimelineEvent>)
        ensures
            r@.len() == 1 + (if video_muted {
                0int
            } else {
                1int
            }) + (if audio_muted {
                0int
            } else {
                1int
            }),
            r@[0] == (TimelineEvent::Joined {
                timestamp_ms: event_time(r@[0]),
                endpoint,
                nickname,
            }),
            is_empty ==> event_time(r@[0]) == 0,
            forall|i: int| 0 <= i < r@.len() ==> event_time(#[trigger] r@[i]) == event_time(r@[0]),
            forall|i: int| 0 <= i < r@.len() ==> event_endpoint(#[trigger] r@[i]) == endpoint,
            !video_muted ==> r@[1] is CameraOn,
            !audio_muted ==> r@[r@.len() - 1] is AudioOn,
            r@ == join_events(event_time(r@[0]), endpoint, nickname, video_muted, audio_muted),
    {
        let timestamp = if is_empty {
            0
        } else {
            self.get_relative_ms()
        };
        let mut events: Vec<TimelineEvent> = Vec::new();
        events.push(
            TimelineEvent::Joined { timestamp_ms: timestamp, endpoint: clone_opt_string(&endpoint), nickname },
        );
        if !video_muted {
            events.push(
                TimelineEvent::CameraOn { timestamp_ms: timestamp, endpoint: clone_opt_string(&endpoint) },
            );
        }
        if !audio_muted {
            events.push(
                TimelineEvent::AudioOn { timestamp_ms: timestamp, endpoint: clone_opt_string(&endpoint) },
            );
        }
        assert(events@ =~= join_events(timestamp, endpoint, nickname, video_muted, audio_muted));
        events
    }

    pub fn participant_left(&self, endpoint: Option<String>) -> (r: TimelineEvent)
        ensures
            r == (TimelineEvent::Left { timestamp_ms: event_time(r), endpoint }),
    {
        let timestamp_ms = self.get_relative_ms();
        TimelineEvent::Left { timestamp_ms, endpoint }
    }

    pub fn camera_on(&self, endpoint: Option<String>) -> (r: TimelineEvent)
        ensures
            r == (TimelineEvent::CameraOn { timestamp_ms: event_time(r), endpoint }),
    {
        let timestamp_ms = self.get_relative_ms();
        TimelineEvent::CameraOn { timestamp_ms, endpoint }
    }

    pub fn camera_off(&self, endpoint: Option<String>) -> (r: TimelineEvent)
        ensures
            r == (TimelineEvent::CameraOff { timestamp_ms: event_time(r), endpoint }),
    {
        let timestamp_ms = self.get_relative_ms();
        TimelineEvent::CameraOff { timestamp_ms, endpoint }
    }

    pub fn screenshare_on(&self, endpoint: Option<String>) -> (r: TimelineEvent)
        ensures
            r == (TimelineEvent::ScreenshareOn { timestamp_ms: event_time(r), endpoint }),
    {
        let timestamp_ms = self.get_relative_ms();
        TimelineEvent::ScreenshareOn { timestamp_ms, endpoint }
    }

    pub fn screenshare_off(&self, endpoint: Option<String>) -> (r: TimelineEvent)
        ensures
            r == (TimelineEvent::ScreenshareOff { timestamp_ms: event_time(r), endpoint }),
    {
        let timestamp_ms = self.get_relative_ms();
        TimelineEvent::ScreenshareOff { timestamp_ms, endpoint }
    }

    pub fn audio_on(&self, endpoint: Option<String>) -> (r: TimelineEvent)
        ensures
            r == (TimelineEvent::AudioOn { timestamp_ms: event_time(r), endpoint }),
    {
        let timestamp_ms = self.get_relative_ms();
        TimelineEvent::AudioOn { timestamp_ms, endpoint }
    }

    pub fn audio_off(&self, endpoint: Option<String>) -> (r: TimelineEvent)
        ensures
            r == (TimelineEvent::AudioOff { timestamp_ms: event_time(r), endpoint }),
    {
        let timestamp_ms = self.get_relative_ms();
        TimelineEvent::AudioOff { timestamp_ms, endpoint }
    }

    /// Records a dominant-speaker change, as reported by the JVB over the
    /// Colibri data channel.
    pub fn dominant_change(&self, endpoint: Option<String>) -> (r: TimelineEvent)
        ensures
            r == (TimelineEvent::Dominant { timestamp_ms: event_time(r), endpoint }),
    {
        let timestamp_ms = self.get_relative_ms();
        TimelineEvent::Dominant { timestamp_ms, endpoint }
    }

    /// Final event: tells the collector thread to write its files and exit.
    pub fn meeting_ended(&self) -> (r: TimelineEvent)
        ensures
            r matches TimelineEvent::MeetingEnd { endpoint: None, .. },
    {
        let timestamp_ms = self.get_relative_ms();
        TimelineEvent::MeetingEnd { timestamp_ms, endpoint: None }
    }
}

/// Recorded file names for one participant's streams, as written into
/// `metadata.json`.
#[derive(Debug, Clone)]
pub struct Media {
    pub audio: Option<String>,
    pub camera: Option<String>,
    pub screenshare: Option<String>,
}

/// A participant as described in `metadata.json`.
#[derive(Debug, Clone)]
pub struct Participant {
    pub name: String,
    pub media: Media,
}

/// One entry in `timeline.json`: what happened, to whom, and how many
/// milliseconds into the meeting.
#[derive(Debug, Clone)]
pub struct Timeline {
    pub timestamp: u128,
    pub participant_id: Option<String>,
    pub event: String,
}

/// Meeting-level summary written to `metadata.json` once recording ends.
/// `participants` lists each endpoint once, with what is known of it.
#[derive(Debug, Clone)]
pub struct Metadata {
    pub room_id: String,
    pub room_name: String,
    pub start_timestamp: u128,
    pub end_timestamp: u128,
    pub output_dir: String,
    pub total_duration_ms: u128,
    pub participants: Vec<(String, Participant)>,
}

/// The position of the first entry keyed `key`, if any.
pub open spec fn index_of_key<V>(l: Seq<(String, V)>, key: Seq<char>) -> Option<int>
    decreases l.len(),
{
    if l.len() == 0 {
        None
    } else {
        match index_of_key(l.drop_last(), key) {
            Some(i) => Some(i),
            None => if l.last().0@ == key {
                Some(l.len() - 1)
            } else {
                None
            },
        }
    }
}

/// Every key occurs at most once.
pub open spec fn keys_distinct<V>(l: Seq<(String, V)>) -> bool {
    forall|i: int, j: int| 0 <= i < j < l.len() ==> l[i].0@ != l[j].0@
}

proof fn lemma_index_of_key_prefix<V>(l: Seq<(String, V)>, key: Seq<char>, n: int)
    requires
        0 <= n <= l.len(),
        forall|k: int| 0 <= k < n ==> l[k].0@ != key,
    ensures
        index_of_key(l.subrange(0, n), key).is_none(),
    decreases n,
{
    if n > 0 {
        assert(l.subrange(0, n).drop_last() =~= l.subrange(0, n - 1));
        lemma_index_of_key_prefix(l, key, n - 1);
    }
}

proof fn lemma_index_of_key_found<V>(l: Seq<(String, V)>, key: Seq<char>, n: int)
    requires
        0 <= n < l.len(),
        forall|k: int| 0 <= k < n ==> l[k].0@ != key,
        l[n].0@ == key,
    ensures
        index_of_key(l, key) == Some(n),
    decreases l.len(),
{
    if l.len() - 1 > n {
        lemma_index_of_key_found(l.drop_last(), key, n);
    } else {
        lemma_index_of_key_prefix(l, key, n);
        assert(l.subrange(0, n) =~= l.drop_last());
    }
}

/// Sets the entry for `key` to `value`: in place when the key is already
/// there, appended otherwise.
pub fn upsert<V>(list: &mut Vec<(String, V)>, key: String, value: V)
    ensures
        match index_of_key(old(list)@, key@) {
            Some(i) => final(list)@ == old(list)@.update(i, (key, value)),
            None => final(list)@ == old(list)@.push((key, value)),
        },
        keys_distinct(old(list)@) ==> keys_distinct(final(list)@),
{
    let mut i: usize = 0;
    while i < list.len()
        invariant
            i <= list.len(),
            list@ == old(list)@,
            forall|k: int| 0 <= k < i ==> list@[k].0@ != key@,
        decreases list.len() - i,
    {
        if list[i].0 == key {
            proof {
                lemma_index_of_key_found(list@, key@, i as int);
            }
            let ghost before = list@;
            list.set(i, (key, value));
            proof {
                if keys_distinct(before) {
                    lemma_upsert_distinct(before, list@, key, value);
                }
            }
            return ;
        }
        i += 1;
    }
    proof {
        lemma_index_of_key_prefix(list@, key@, list@.len() as int);
        assert(list@.subrange(0, list@.len() as int) =~= list@);
    }
    let ghost before = list@;
    list.push((key, value));
    proof {
        if keys_distinct(before) {
            lemma_upsert_distinct(before, list@, key, value);
        }
    }
}

/// The record an event is written as.
pub open spec fn record_of(e: TimelineEvent, r: Timeline) -> bool {
    &&& r.timestamp == event_time(e)
    &&& r.participant_id == event_endpoint(e)
    &&& r.event@ == event_code(e)
}

/// The metadata entry a join creates: the nickname, and no files yet.
pub open spec fn joined_entry(p: Participant, nickname: String) -> bool {
    &&& p.name@ == nickname@
    &&& p.media.audio.is_none()
    &&& p.media.camera.is_none()
    &&& p.media.screenshare.is_none()
}

/// Collects timeline events on the background thread and summarizes the
/// meeting once it ends.
pub struct TimelineEngine {
    pub output_path: String,
    pub start_instant: Instant,
    pub start_timestamp: u128,
}

impl TimelineEngine {
    /// Sets the meeting's time zero: now, both on the monotonic clock and as
    /// Unix milliseconds (`0` for a system clock set before 1970).
    pub fn new(output_path: String) -> (r: Self)
        ensures
            r.output_path == output_path,
    {
        Self { output_path, start_instant: instant_now(), start_timestamp: now_unix() }
    }

    /// Appends the record of `event` to `events`; a join with an endpoint
    /// also (re)sets that endpoint's entry in `participants`.
    pub fn parse_event(
        event: TimelineEvent,
        events: &mut Vec<Timeline>,
        participants: &mut Vec<(String, Participant)>,
    )
        ensures
            final(events)@.len() == old(events)@.len() + 1,
            final(events)@.subrange(0, old(events)@.len() as int) == old(events)@,
            record_of(event, final(events)@.last()),
            match event {
                TimelineEvent::Joined { endpoint: Some(ep), nickname, .. } => match index_of_key(
                    old(participants)@,
                    ep@,
                ) {
                    Some(i) => final(participants)@.len() == old(participants)@.len()
                        && final(participants)@[i].0 == ep && joined_entry(
                        final(participants)@[i].1,
                        nickname,
                    ) && forall|k: int|
                        0 <= k < old(participants)@.len() && k != i ==> final(participants)@[k]
                            == old(participants)@[k],
                    None => final(participants)@.len() == old(participants)@.len() + 1
                        && final(participants)@.subrange(0, old(participants)@.len() as int)
                        == old(participants)@ && final(participants)@.last().0 == ep
                        && joined_entry(final(participants)@.last().1, nickname),
                },
                _ => final(participants)@ == old(participants)@,
            },
            keys_distinct(old(participants)@) ==> keys_distinct(final(participants)@),
    {
        let code = event.code();
        match &event {
            TimelineEvent::Joined { endpoint: Some(ep), nickname, .. } => {
                let entry = Participant {
                    name: nickname.clone(),
                    media: Media { camera: None, audio: None, screenshare: None },
                };
                proof {
                    lemma_index_of_key_sound(participants@, ep@);
                }
                upsert(participants, ep.clone(), entry);
                assert(final(participants)@.subrange(0, old(participants)@.len() as int)
                    =~= old(participants)@ || index_of_key(old(participants)@, ep@).is_some());
            },
            _ => {},
        }
        let (timestamp, participant_id) = match event {
            TimelineEvent::MeetingStart { timestamp_ms, endpoint } => (timestamp_ms, endpoint),
            TimelineEvent::MeetingEnd { timestamp_ms, endpoint } => (timestamp_ms, endpoint),
            TimelineEvent::Joined { timestamp_ms, endpoint, .. } => (timestamp_ms, endpoint),
            TimelineEvent::Left { timestamp_ms, endpoint } => (timestamp_ms, endpoint),
            TimelineEvent::CameraOn { timestamp_ms, endpoint } => (timestamp_ms, endpoint),
            TimelineEvent::CameraOff { timestamp_ms, endpoint } => (timestamp_ms, endpoint),
            TimelineEvent::ScreenshareOn { timestamp_ms, endpoint } => (timestamp_ms, endpoint),
            TimelineEvent::ScreenshareOff { timestamp_ms, endpoint } => (timestamp_ms, endpoint),
            TimelineEvent::AudioOn { timestamp_ms, endpoint } => (timestamp_ms, endpoint),
            TimelineEvent::AudioOff { timestamp_ms, endpoint } => (timestamp_ms, endpoint),
            TimelineEvent::Dominant { timestamp_ms, endpoint } => (timestamp_ms, endpoint),
        };
        events.push(Timeline { timestamp, participant_id, event: String::from_str(code) });
        assert(final(events)@.subrange(0, old(events)@.len() as int) =~= old(events)@);
    }
}

impl Metadata {
    /// The summary written once the meeting has ended.
    pub fn summarize(
        room_name: String,
        output_dir: String,
        start_timestamp: u128,
        end_timestamp: u128,
        total_duration_ms: u128,
        participants: Vec<(String, Participant)>,
    ) -> (r: Self)
        ensures
            r.room_id@ == "xxxxxx"@,
            r.room_name == room_name,
            r.output_dir == output_dir,
            r.start_timestamp == start_timestamp,
            r.end_timestamp == end_timestamp,
            r.total_duration_ms == total_duration_ms,
            r.participants == participants,
    {
        Metadata {
            room_id: String::from_str("xxxxxx"),
            room_name,
            start_timestamp,
            end_timestamp,
            output_dir,
            total_duration_ms,
            participants,
        }
    }
}

/// However many events are collected, each endpoint has one entry in the
/// participant list: joins keep the keys distinct.
pub proof fn law_upsert_keeps_keys_distinct<V>(
    before: Seq<(String, V)>,
    after: Seq<(String, V)>,
    key: String,
    value: V,
)
    requires
        keys_distinct(before),
        match index_of_key(before, key@) {
            Some(i) => after == before.update(i, (key, value)),
            None => after == before.push((key, value)),
        },
    ensures
        keys_distinct(after),
        index_of_key(after, key@).is_some(),
{
    lemma_upsert_distinct(before, after, key, value);
}

proof fn lemma_index_of_key_sound<V>(l: Seq<(String, V)>, key: Seq<char>)
    ensures
        match index_of_key(l, key) {
            Some(i) => 0 <= i < l.len() && l[i].0@ == key && forall|k: int|
                0 <= k < i ==> l[k].0@ != key,
            None => forall|k: int| 0 <= k < l.len() ==> l[k].0@ != key,
        },
    decreases l.len(),
{
    if l.len() > 0 {
        let p = l.drop_last();
        lemma_index_of_key_sound(p, key);
        assert forall|k: int| 0 <= k < p.len() implies p[k] == l[k] by {}
    }
}

proof fn lemma_upsert_distinct<V>(before: Seq<(String, V)>, after: Seq<(String, V)>, key: String, value: V)
    requires
        keys_distinct(before),
        match index_of_key(before, key@) {
            Some(i) => after == before.update(i, (key, value)),
            None => after == before.push((key, value)),
        },
    ensures
        keys_distinct(after),
        index_of_key(after, key@).is_some(),
{
    lemma_index_of_key_sound(before, key@);
    lemma_index_of_key_sound(after, key@);
    match index_of_key(before, key@) {
        Some(i) => {
            assert(after[i].0@ == key@);
        },
        None => {
            assert(after[before.len() as int].0@ == key@);
        },
    }
}

} // verus!
