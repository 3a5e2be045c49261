//! What each SSRC a participant announced carries.
//!
//! Jitsi names a source `<endpoint>-<letter><index>`: `v` for video, `a` for
//! audio. A video source flagged with video type `d` (desktop) is a
//! screenshare. This module turns those names into [`SourceKind`]s and keeps
//! the SSRC-to-source table a participant is recorded against.

use crate::e2ee::E2EE;
use crate::jingle_action::ParsedSource;
use crate::media::{flag_change, Media, MediaChanges};
use crate::text::{chars_eq_str, chars_of, parse_u32, parse_unsigned};
use std::collections::HashMap;
use vstd::prelude::*;
use vstd::std_specs::hash::{group_hash_axioms, obeys_key_model};

verus! {

broadcast use group_hash_axioms;

/// Which of a participant's streams an SSRC carries.
///
/// Also the file stem the recording is written under, via
/// [`SourceKind::file_stem`].
#[derive(Debug, Clone, Copy, PartialEq, Eq)]
pub enum SourceKind {
    CameraVideo,
    Audio,
    ScreenshareVideo,
}

/// A stream announced over Jingle, resolved from its SSRC.
#[derive(Debug, Clone)]
pub struct SourceEntry {
    pub endpoint: String,
    pub kind: SourceKind,
}

/// The file stem each kind is recorded under.
pub open spec fn file_stem_of(k: SourceKind) -> Seq<char> {
    match k {
        SourceKind::CameraVideo => "camera_video"@,
        SourceKind::Audio => "audio"@,
        SourceKind::ScreenshareVideo => "screenshare_video"@,
    }
}

impl SourceKind {
    /// The file stem the recording of this kind is written under.
    pub fn file_stem(&self) -> (s: &'static str)
        ensures
            s@ == file_stem_of(*self),
    {
        match self {
            SourceKind::CameraVideo => "camera_video",
            SourceKind::Audio => "audio",
            SourceKind::ScreenshareVideo => "screenshare_video",
        }
    }
}

/// What `str::rsplit('-').next()` yields: the text after the last `-`, or the
/// whole text when there is none.
pub open spec fn last_segment(s: Seq<char>) -> Seq<char>
    decreases s.len(),
{
    if s.len() == 0 {
        s
    } else if s.last() == '-' {
        seq![]
    } else {
        last_segment(s.drop_last()).push(s.last())
    }
}

/// The letter and index a source name ends with, as in `"c8ef68f5-v1"` ->
/// `('v', 1)`: the first character of the last `-`-separated segment, and the
/// rest of that segment read as a `u32`.
pub open spec fn source_name_parts(name: Seq<char>) -> Option<(char, u32)> {
    let seg = last_segment(name);
    if seg.len() == 0 {
        None
    } else {
        match parse_unsigned(seg.drop_first(), u32::MAX as nat) {
            Some(n) => Some((seg[0], n as u32)),
            None => None,
        }
    }
}

proof fn lemma_last_segment_from(s: Seq<char>, i: int)
    requires
        0 <= i <= s.len(),
        forall|k: int| i <= k < s.len() ==> s[k] != '-',
        i == 0 || s[i - 1] == '-',
    ensures
        last_segment(s) == s.skip(i),
    decreases s.len() - i,
{
    if s.len() == i {
        if i > 0 {
            assert(last_segment(s) == Seq::<char>::empty());
        }
        assert(s.skip(i) =~= Seq::<char>::empty());
        if i == 0 {
            assert(s.len() == 0);
        }
    } else {
        lemma_last_segment_from(s.drop_last(), i);
        assert(s.drop_last().skip(i).push(s.last()) =~= s.skip(i));
    }
}

/// "c8ef68f5-v1" -> ('v', 1), "eee01355-a0" -> ('a', 0)
pub fn parse_source_name(name: &str) -> (r: Option<(char, u32)>)
    ensures
        r == source_name_parts(name@),
{
    let cs = chars_of(name);
    let mut start: usize = cs.len();
    while start > 0 && cs[start - 1] != '-'
        invariant
            start <= cs.len(),
            forall|k: int| start <= k < cs.len() ==> cs@[k] != '-',
        decreases start,
    {
        start -= 1;
    }
    proof {
        lemma_last_segment_from(cs@, start as int);
    }
    if start == cs.len() {
        return None;
    }
    let letter = cs[start];
    let rest = cs.as_slice().split_at(start + 1).1;
    assert(rest@ =~= cs@.skip(start as int).drop_first());
    match parse_u32(rest) {
        Some(idx) => Some((letter, idx)),
        None => None,
    }
}

/// Which kind of stream a parsed source is, or `None` when its name is not of
/// the `<letter><index>` form or the letter is neither `v` nor `a`.
pub open spec fn kind_of(source_name: Seq<char>, video_type: Option<Seq<char>>) -> Option<
    SourceKind,
> {
    match source_name_parts(source_name) {
        Some((letter, _)) => if letter == 'v' {
            if video_type == Some("d"@) {
                Some(SourceKind::ScreenshareVideo)
            } else {
                Some(SourceKind::CameraVideo)
            }
        } else if letter == 'a' {
            Some(SourceKind::Audio)
        } else {
            None
        },
        None => None,
    }
}

/// The view of an optional string.
pub open spec fn opt_view(o: Option<String>) -> Option<Seq<char>> {
    match o {
        Some(s) => Some(s@),
        None => None,
    }
}

/// Classifies a parsed source by its name and video type.
pub fn source_kind(parsed_source: &ParsedSource) -> (r: Option<SourceKind>)
    ensures
        r == kind_of(parsed_source.source_name@, opt_view(parsed_source.video_type)),
{
    let (letter, _index) = match parse_source_name(parsed_source.source_name.as_str()) {
        Some(v) => v,
        None => return None,
    };
    if letter == 'v' {
        let is_desktop = match &parsed_source.video_type {
            Some(t) => {
                let tc = chars_of(t.as_str());
                chars_eq_str(tc.as_slice(), "d")
            },
            None => false,
        };
        if is_desktop {
            Some(SourceKind::ScreenshareVideo)
        } else {
            Some(SourceKind::CameraVideo)
        }
    } else if letter == 'a' {
        Some(SourceKind::Audio)
    } else {
        None
    }
}

/// Records what an SSRC carries, from a Jingle `source-add` or the initial
/// `session-initiate`.
///
/// Until this runs, a pad arriving for that SSRC can't be attributed to
/// anyone. Unparseable source names are skipped rather than guessed at: the
/// table is then left as it was.
pub fn register_ssrc(ssrcs: &mut HashMap<u32, SourceEntry>, parsed_source: ParsedSource)
    ensures
        match kind_of(parsed_source.source_name@, opt_view(parsed_source.video_type)) {
            Some(kind) => final(ssrcs)@ == old(ssrcs)@.insert(
                parsed_source.ssrc,
                SourceEntry { endpoint: parsed_source.endpoint_id, kind },
            ),
            None => final(ssrcs)@ == old(ssrcs)@,
        },
{
    let kind = match source_kind(&parsed_source) {
        Some(k) => k,
        None => return ,
    };
    assert(obeys_key_model::<u32>());
    ssrcs.insert(parsed_source.ssrc, SourceEntry { endpoint: parsed_source.endpoint_id, kind });
}

/// What the table says `ssrc` carries, if anything.
pub fn source_for_ssrc(ssrcs: &HashMap<u32, SourceEntry>, ssrc: u32) -> (r: Option<&SourceEntry>)
    ensures
        match r {
            Some(e) => ssrcs@.contains_key(ssrc) && *e == ssrcs@[ssrc],
            None => !ssrcs@.contains_key(ssrc),
        },
{
    assert(obeys_key_model::<u32>());
    ssrcs.get(&ssrc)
}

/// One endpoint in the meeting: its mute state and the sources it
/// announced. The recordings running for those sources are kept beside it by
/// the caller, keyed by the same SSRCs.
pub struct Participant {
    pub e2ee_enabled: bool,
    pub nickname: String,
    pub media: Media,
    pub e2ee: E2EE,
    pub ssrcs: HashMap<u32, SourceEntry>,
}

impl Participant {
    /// A participant with everything muted and nothing announced.
    pub fn new(nickname: &str) -> (r: Self)
        ensures
            r.nickname@ == nickname@,
            !r.e2ee_enabled,
            r.media.audio_muted && r.media.video_muted && r.media.screenshare_muted,
            !r.media.avatar_generated,
            r.ssrcs@ == Map::<u32, SourceEntry>::empty(),
    {
        Participant {
            e2ee_enabled: false,
            e2ee: E2EE::new(),
            nickname: String::from_str(nickname),
            media: Media::new(),
            ssrcs: HashMap::new(),
        }
    }

    /// Applies a SourceInfo update and reports the flags that flipped.
    pub fn update_media(&mut self, audio: bool, video: bool, screenshare: bool) -> (r: MediaChanges)
        ensures
            final(self).media.audio_muted == audio,
            final(self).media.video_muted == video,
            final(self).media.screenshare_muted == screenshare,
            final(self).media.avatar_generated == old(self).media.avatar_generated,
            r.audio_muted == flag_change(old(self).media.audio_muted, audio),
            r.video_muted == flag_change(old(self).media.video_muted, video),
            r.screenshare_muted == flag_change(old(self).media.screenshare_muted, screenshare),
            final(self).nickname == old(self).nickname,
            final(self).ssrcs == old(self).ssrcs,
            final(self).e2ee_enabled == old(self).e2ee_enabled,
    {
        self.media.apply(audio, video, screenshare)
    }

    /// Whether the camera-off stand-in still has to be drawn: the camera is
    /// off and none was drawn yet.
    pub fn needs_avatar(&self) -> (r: bool)
        ensures
            r == (self.media.video_muted && !self.media.avatar_generated),
    {
        self.media.needs_avatar()
    }

    /// Records what an SSRC of this participant carries; an unparseable
    /// source name leaves the table as it was.
    pub fn register_ssrc(&mut self, parsed_source: ParsedSource)
        ensures
            match kind_of(parsed_source.source_name@, opt_view(parsed_source.video_type)) {
                Some(kind) => final(self).ssrcs@ == old(self).ssrcs@.insert(
                    parsed_source.ssrc,
                    SourceEntry { endpoint: parsed_source.endpoint_id, kind },
                ),
                None => final(self).ssrcs@ == old(self).ssrcs@,
            },
            final(self).media == old(self).media,
            final(self).nickname == old(self).nickname,
    {
        register_ssrc(&mut self.ssrcs, parsed_source)
    }

    /// What this participant announced for `ssrc`, if anything.
    pub fn source_for_ssrc(&self, ssrc: u32) -> (r: Option<&SourceEntry>)
        ensures
            match r {
                Some(e) => self.ssrcs@.contains_key(ssrc) && *e == self.ssrcs@[ssrc],
                None => !self.ssrcs@.contains_key(ssrc),
            },
    {
        source_for_ssrc(&self.ssrcs, ssrc)
    }
}

/// A source recorded under an SSRC is found again under that SSRC, with the
/// kind its name gives it.
pub proof fn law_register_then_lookup(
    before: Map<u32, SourceEntry>,
    parsed_source: ParsedSource,
    kind: SourceKind,
)
    requires
        kind_of(parsed_source.source_name@, opt_view(parsed_source.video_type)) == Some(kind),
    ensures
        ({
            let after = before.insert(
                parsed_source.ssrc,
                SourceEntry { endpoint: parsed_source.endpoint_id, kind },
            );
            &&& after.contains_key(parsed_source.ssrc)
            &&& after[parsed_source.ssrc].kind == kind
            &&& after[parsed_source.ssrc].endpoint == parsed_source.endpoint_id
        }),
{
}

} // verus!
