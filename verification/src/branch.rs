//! What a recording branch is built from: the depayloader and parser an RTP
//! encoding needs, and the file a source is written to. The GStreamer
//! elements themselves are made by the caller.

use crate::participant::{file_stem_of, SourceEntry};
use crate::text::{chars_eq_str, chars_of, push_str, string_from_chars};
use vstd::prelude::*;

verus! {

/// The RTP depayloader for an encoding name, `None` when the encoding is not
/// recorded.
pub open spec fn depayloader(encoding: Seq<char>) -> Option<Seq<char>> {
    if encoding == "AV1"@ {
        Some("rtpav1depay"@)
    } else if encoding == "VP8"@ {
        Some("rtpvp8depay"@)
    } else if encoding == "VP9"@ {
        Some("rtpvp9depay"@)
    } else if encoding == "H264"@ {
        Some("rtph264depay"@)
    } else if encoding == "OPUS"@ {
        Some("rtpopusdepay"@)
    } else {
        None
    }
}

/// The parser placed after the depayloader, for the encodings that need one.
pub open spec fn parser(encoding: Seq<char>) -> Option<Seq<char>> {
    if encoding == "AV1"@ {
        Some("av1parse"@)
    } else if encoding == "H264"@ {
        Some("h264parse"@)
    } else if encoding == "OPUS"@ {
        Some("opusparse"@)
    } else {
        None
    }
}

/// The depayloader element for `encoding`.
pub fn depayloader_for(encoding: &str) -> (r: Option<&'static str>)
    ensures
        match r {
            Some(d) => depayloader(encoding@) == Some(d@),
            None => depayloader(encoding@) is None,
        },
{
    let e = chars_of(encoding);
    proof {
        reveal_strlit("AV1");
        reveal_strlit("VP8");
        reveal_strlit("VP9");
        reveal_strlit("H264");
        reveal_strlit("OPUS");
    }
    if chars_eq_str(e.as_slice(), "AV1") {
        Some("rtpav1depay")
    } else if chars_eq_str(e.as_slice(), "VP8") {
        Some("rtpvp8depay")
    } else if chars_eq_str(e.as_slice(), "VP9") {
        Some("rtpvp9depay")
    } else if chars_eq_str(e.as_slice(), "H264") {
        Some("rtph264depay")
    } else if chars_eq_str(e.as_slice(), "OPUS") {
        Some("rtpopusdepay")
    } else {
        None
    }
}

/// The parser element for `encoding`, if it needs one.
pub fn parser_for(encoding: &str) -> (r: Option<&'static str>)
    ensures
        match r {
            Some(p) => parser(encoding@) == Some(p@),
            None => parser(encoding@) is None,
        },
{
    let e = chars_of(encoding);
    proof {
        reveal_strlit("AV1");
        reveal_strlit("H264");
        reveal_strlit("OPUS");
    }
    if chars_eq_str(e.as_slice(), "AV1") {
        Some("av1parse")
    } else if chars_eq_str(e.as_slice(), "H264") {
        Some("h264parse")
    } else if chars_eq_str(e.as_slice(), "OPUS") {
        Some("opusparse")
    } else {
        None
    }
}

/// Where a participant's files go: `recordings/<room>/<endpoint>`.
pub open spec fn participant_dir(room_name: Seq<char>, endpoint: Seq<char>) -> Seq<char> {
    "recordings/"@ + room_name + "/"@ + endpoint
}

/// The file a source is recorded to:
/// `recordings/<room>/<endpoint>/<kind>.mkv`.
pub open spec fn recording_file(room_name: Seq<char>, source: SourceEntry) -> Seq<char> {
    participant_dir(room_name, source.endpoint@) + "/"@ + file_stem_of(source.kind) + ".mkv"@
}

/// The directory a participant's files are written to.
pub fn participant_dir_path(room_name: &str, endpoint: &str) -> (r: String)
    ensures
        r@ == participant_dir(room_name@, endpoint@),
{
    let mut v: Vec<char> = chars_of("recordings/");
    push_str(&mut v, room_name);
    push_str(&mut v, "/");
    push_str(&mut v, endpoint);
    string_from_chars(v.as_slice())
}

/// The file `source` is recorded to in room `room_name`.
pub fn recording_path(room_name: &str, source: &SourceEntry) -> (r: String)
    ensures
        r@ == recording_file(room_name@, *source),
{
    let mut v: Vec<char> = chars_of("recordings/");
    push_str(&mut v, room_name);
    push_str(&mut v, "/");
    push_str(&mut v, source.endpoint.as_str());
    push_str(&mut v, "/");
    push_str(&mut v, source.kind.file_stem());
    push_str(&mut v, ".mkv");
    string_from_chars(v.as_slice())
}

} // verus!
