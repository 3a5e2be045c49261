//! A participant's mute state, and the diff between two reports of it.

use vstd::prelude::*;

verus! {

/// Mute flags that flipped in a single SourceInfo update. `None` means the
/// flag did not change, so the room emits no timeline event for it.
#[derive(Debug, Clone, Copy, PartialEq, Eq)]
pub struct MediaChanges {
    pub audio_muted: Option<bool>,
    pub video_muted: Option<bool>,
    pub screenshare_muted: Option<bool>,
}

/// Last known mute state for one participant.
///
/// Everything starts muted, which matches how a missing or unreadable
/// `SourceInfo` is treated: absence of evidence is not evidence of a live
/// stream. A SourceInfo report then sets the real state through
/// [`Media::apply`].
#[derive(Debug, Clone, Copy, PartialEq, Eq)]
pub struct Media {
    pub audio_muted: bool,
    pub video_muted: bool,
    pub screenshare_muted: bool,
    /// Whether the camera-off placeholder has already been rendered, so it is
    /// drawn once rather than on every mute toggle.
    pub avatar_generated: bool,
}

/// What [`Media::apply`] reports for one flag: the new value when it differs
/// from the old one.
pub open spec fn flag_change(old: bool, new: bool) -> Option<bool> {
    if old != new {
        Some(new)
    } else {
        None
    }
}

impl Default for MediaChanges {
    fn default() -> (r: Self)
        ensures
            r.audio_muted.is_none(),
            r.video_muted.is_none(),
            r.screenshare_muted.is_none(),
    {
        MediaChanges { audio_muted: None, video_muted: None, screenshare_muted: None }
    }
}

impl Default for Media {
    fn default() -> (r: Self)
        ensures
            r.audio_muted && r.video_muted && r.screenshare_muted && !r.avatar_generated,
    {
        Media::new()
    }
}

impl Media {
    pub fn new() -> (r: Self)
        ensures
            r.audio_muted && r.video_muted && r.screenshare_muted && !r.avatar_generated,
    {
        Media {
            audio_muted: true,
            video_muted: true,
            screenshare_muted: true,
            avatar_generated: false,
        }
    }

    pub fn set_audio_muted(&mut self, audio_muted: bool) -> (r: &mut Self)
        ensures
            *r == (Media { audio_muted, ..*old(self) }),
            *final(self) == *final(r),
    {
        self.audio_muted = audio_muted;
        self
    }

    pub fn set_video_muted(&mut self, video_muted: bool) -> (r: &mut Self)
        ensures
            *r == (Media { video_muted, ..*old(self) }),
            *final(self) == *final(r),
    {
        self.video_muted = video_muted;
        self
    }

    pub fn set_screenshare_muted(&mut self, screenshare_muted: bool) -> (r: &mut Self)
        ensures
            *r == (Media { screenshare_muted, ..*old(self) }),
            *final(self) == *final(r),
    {
        self.screenshare_muted = screenshare_muted;
        self
    }

    pub fn set_avatar_generated(&mut self, avatar_generated: bool) -> (r: &mut Self)
        ensures
            *r == (Media { avatar_generated, ..*old(self) }),
            *final(self) == *final(r),
    {
        self.avatar_generated = avatar_generated;
        self
    }

    /// Stores a freshly announced mute state and reports what changed.
    pub fn apply(&mut self, audio_muted: bool, video_muted: bool, screenshare_muted: bool) -> (r:
        MediaChanges)
        ensures
            r.audio_muted == flag_change(old(self).audio_muted, audio_muted),
            r.video_muted == flag_change(old(self).video_muted, video_muted),
            r.screenshare_muted == flag_change(old(self).screenshare_muted, screenshare_muted),
            *final(self) == (Media {
                audio_muted,
                video_muted,
                screenshare_muted,
                avatar_generated: old(self).avatar_generated,
            }),
    {
        let changes = MediaChanges {
            audio_muted: if self.audio_muted != audio_muted {
                Some(audio_muted)
            } else {
                None
            },
            video_muted: if self.video_muted != video_muted {
                Some(video_muted)
            } else {
                None
            },
            screenshare_muted: if self.screenshare_muted != screenshare_muted {
                Some(screenshare_muted)
            } else {
                None
            },
        };
        self.set_audio_muted(audio_muted);
        self.set_video_muted(video_muted);
        self.set_screenshare_muted(screenshare_muted);
        changes
    }

    /// An avatar stands in for the camera feed while video is muted, and is
    /// rendered at most once per participant.
    pub fn needs_avatar(&self) -> (r: bool)
        ensures
            r == (self.video_muted && !self.avatar_generated),
    {
        self.video_muted && !self.avatar_generated
    }
}

/// Applying a report stores it: afterwards each flag holds the reported value,
/// and the flag that records the drawn avatar is left alone.
pub proof fn law_apply_stores_report(
    before: Media,
    after: Media,
    audio_muted: bool,
    video_muted: bool,
    screenshare_muted: bool,
)
    requires
        after == (Media { audio_muted, video_muted, screenshare_muted, ..before }),
    ensures
        after.audio_muted == audio_muted,
        after.video_muted == video_muted,
        after.screenshare_muted == screenshare_muted,
        after.avatar_generated == before.avatar_generated,
{
}

/// Reporting the same state twice changes nothing the second time: every flag
/// of the second diff is `None`.
pub proof fn law_apply_twice_reports_nothing(
    before: Media,
    audio_muted: bool,
    video_muted: bool,
    screenshare_muted: bool,
)
    ensures
        ({
            let after = Media { audio_muted, video_muted, screenshare_muted, ..before };
            &&& flag_change(after.audio_muted, audio_muted).is_none()
            &&& flag_change(after.video_muted, video_muted).is_none()
            &&& flag_change(after.screenshare_muted, screenshare_muted).is_none()
        }),
{
}

/// A flag is reported exactly when it flips, and then with its new value.
pub proof fn law_change_iff_flip(old: bool, new: bool)
    ensures
        flag_change(old, new).is_some() <==> old != new,
        flag_change(old, new) matches Some(v) ==> v == new,
{
}

} // verus!
