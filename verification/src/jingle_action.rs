//! Jingle actions, and the Jingle-to-SDP conversion behind `session-initiate`.

use crate::jingle_media::{concat_map, media_section, JingleMedia};
use crate::offer::{
    add_bundle_group, add_msid_semantic, mids_exec, msids_exec, parse_offer, put_media,
    sdp_accepts, session_text, split_media_lines, string_views, shaped_session, shaped_offer,
    offered_lines, stream_list, parsed_sdp,
};
use crate::json::{at, get, json_at, json_get, json_of, parse_json, JsonValue};
use crate::participant::opt_view;
use crate::text::{
    chars_eq_str, chars_of, decimal, has_prefix, push_chars, push_decimal, push_str,
    starts_with_at, string_from_chars,
};
use crate::xml::{attr_value, find_all, find_all_spec, find_first, text_of, Element};
use crate::jingle_media::first_match;
use crate::answer::{media_of_session, session_media};
use vstd::prelude::*;
use webrtc_sdp::error::{SdpParserError, SdpParserInternalError};

verus! {

/// A Jingle action the recorder acts on, holding the `<jingle>` stanza it came
/// from. Actions we don't implement never become a value of this type.
#[derive(Debug)]
pub enum JingleAction<'a> {
    SessionInitiate(&'a Element),
    SourceAdd(&'a Element),
    SourceRemove(&'a Element),
}

/// One stream announced by the bridge, resolved from Jitsi's JSON source
/// encoding.
#[derive(Debug, Clone)]
pub struct ParsedSource {
    pub ssrc: u32,
    /// Endpoint that owns the stream.
    pub endpoint_id: String,
    /// Jitsi source name, `<endpoint>-v0` / `-a0` / `-v1`.
    pub source_name: String,
    /// `Some("d")` for screenshare video; `None` for audio and camera.
    pub video_type: Option<String>,
}

/// Why the SDP offer could not be built.
#[derive(Debug)]
pub enum OfferError {
    /// `webrtc_sdp` refused the text made from the Jingle.
    Unparsable(SdpParserError),
    /// `webrtc_sdp` refused an attribute added to the session.
    Rejected(SdpParserInternalError),
}

/// `Display` of a signed integer: a minus sign for negatives, then the
/// decimal digits of its magnitude.
pub open spec fn signed_decimal(n: int) -> Seq<char> {
    if n < 0 {
        "-"@ + decimal((-n) as nat)
    } else {
        decimal(n as nat)
    }
}

/// Whether the bridge advertises cryptex on a fingerprint of any content.
pub open spec fn has_cryptex(stanza: Element) -> bool {
    let fps = find_all_spec(Some(stanza), "content>transport>fingerprint"@);
    exists|i: int| 0 <= i < fps.len() && attr_value(#[trigger] fps[i], "cryptex"@) == Some("true"@)
}

/// The session part of the offer: version, origin with the session id,
/// session name and timing, and `a=cryptex` when the bridge offers it.
pub open spec fn session_header(session_id: int, stanza: Element) -> Seq<char> {
    "v=0\r\n"@ + "o=- "@ + signed_decimal(session_id) + " 2 IN IP4 0.0.0.0\r\n"@ + "s=-\r\n"@
        + "t=0 0\r\n"@ + if has_cryptex(stanza) {
        "a=cryptex\r\n"@
    } else {
        seq![]
    }
}

/// The offer text made from a `session-initiate`: the session header, then
/// one media section per `<content>`.
pub open spec fn initiate_text(session_id: int, stanza: Element) -> Seq<char> {
    session_header(session_id, stanza) + concat_map(
        find_all_spec(Some(stanza), "content"@),
        |c| media_section(c),
    )
}

/// The action a name stands for.
pub open spec fn action_named<'a>(s: Seq<char>, stanza: &'a Element) -> Option<JingleAction<'a>> {
    if s == "session-initiate"@ {
        Some(JingleAction::SessionInitiate(stanza))
    } else if s == "source-add"@ {
        Some(JingleAction::SourceAdd(stanza))
    } else if s == "source-remove"@ {
        Some(JingleAction::SourceRemove(stanza))
    } else {
        None
    }
}

/// A parsed source as plain values.
pub struct SourceView {
    pub ssrc: u32,
    pub endpoint_id: Seq<char>,
    pub source_name: Seq<char>,
    pub video_type: Option<Seq<char>>,
}

impl View for ParsedSource {
    type V = SourceView;

    open spec fn view(&self) -> SourceView {
        SourceView {
            ssrc: self.ssrc,
            endpoint_id: self.endpoint_id@,
            source_name: self.source_name@,
            video_type: opt_view(self.video_type),
        }
    }
}

/// The views of a list of parsed sources.
pub open spec fn source_views(v: Seq<ParsedSource>) -> Seq<SourceView> {
    v.map_values(|p: ParsedSource| p@)
}

/// The elements of an array, or none for any other value.
pub open spec fn elements(v: JsonValue) -> Seq<JsonValue> {
    match v {
        JsonValue::Array(xs) => xs@,
        _ => seq![],
    }
}

/// The RTX SSRC of an SSRC group `["f", primary, rtx]`, truncated to 32 bits
/// from the announced number.
pub open spec fn rtx_of_group(g: JsonValue) -> Option<u32> {
    match g {
        JsonValue::Array(xs) => if xs@.len() > 0 && (xs@[0] matches JsonValue::Str(s) && s@
            == "f"@) {
            match json_at(g, 2) {
                JsonValue::Number(Some(n)) => Some(n as u32),
                _ => None,
            }
        } else {
            None
        },
        _ => None,
    }
}

/// The RTX SSRCs among an endpoint's SSRC groups.
pub open spec fn rtx_ssrcs(groups: Seq<JsonValue>) -> Seq<u32>
    decreases groups.len(),
{
    if groups.len() == 0 {
        seq![]
    } else {
        rtx_ssrcs(groups.drop_last()) + match rtx_of_group(groups.last()) {
            Some(x) => seq![x],
            None => seq![],
        }
    }
}

/// The stream one announced source stands for, unless it has no SSRC or its
/// SSRC is an RTX one.
pub open spec fn source_entry(endpoint: Seq<char>, source: JsonValue, rtx: Seq<u32>) -> Option<
    SourceView,
> {
    match json_get(source, "s"@) {
        JsonValue::Number(Some(n)) => if rtx.contains(n as u32) {
            None
        } else {
            Some(
                SourceView {
                    ssrc: n as u32,
                    endpoint_id: endpoint,
                    source_name: match json_get(source, "n"@) {
                        JsonValue::Str(s) => s@,
                        _ => seq![],
                    },
                    video_type: match json_get(source, "v"@) {
                        JsonValue::Str(s) => Some(s@),
                        _ => None,
                    },
                },
            )
        },
        _ => None,
    }
}

/// The streams of a list of announced sources.
pub open spec fn list_sources(endpoint: Seq<char>, list: Seq<JsonValue>, rtx: Seq<u32>) -> Seq<
    SourceView,
>
    decreases list.len(),
{
    if list.len() == 0 {
        seq![]
    } else {
        list_sources(endpoint, list.drop_last(), rtx) + match source_entry(
            endpoint,
            list.last(),
            rtx,
        ) {
            Some(v) => seq![v],
            None => seq![],
        }
    }
}

/// The streams an endpoint announces, video (`[0]`) before audio (`[2]`);
/// none for the bridge's own `jvb*` endpoint.
pub open spec fn endpoint_sources(endpoint: Seq<char>, data: JsonValue) -> Seq<SourceView> {
    if has_prefix(endpoint, "jvb"@) {
        seq![]
    } else {
        let rtx = rtx_ssrcs(elements(json_at(data, 1)));
        list_sources(endpoint, elements(json_at(data, 0)), rtx) + list_sources(
            endpoint,
            elements(json_at(data, 2)),
            rtx,
        )
    }
}

/// The streams of every endpoint, in the order of the `sources` object.
pub open spec fn announced_sources(kvs: Seq<(String, JsonValue)>) -> Seq<SourceView>
    decreases kvs.len(),
{
    if kvs.len() == 0 {
        seq![]
    } else {
        announced_sources(kvs.drop_last()) + endpoint_sources(kvs.last().0@, kvs.last().1)
    }
}

/// The streams a `source-add` JSON message announces.
pub open spec fn sources_in(json: JsonValue) -> Seq<SourceView> {
    match json_get(json, "sources"@) {
        JsonValue::Object(kvs) => announced_sources(kvs@),
        _ => seq![],
    }
}

/// The text of the `<json-message>` of a `source-add`, if any.
pub open spec fn json_message(stanza: Element) -> Option<Seq<char>> {
    match first_match(Some(stanza), "json-message"@) {
        Some(m) => text_of(m),
        None => None,
    }
}

/// The streams a `source-add` announces: none when it has no JSON message
/// or the message is not JSON.
pub open spec fn source_add_result(stanza: Element) -> Seq<SourceView> {
    match json_message(stanza) {
        Some(t) => match json_of(t) {
            Some(j) => sources_in(j),
            None => seq![],
        },
        None => seq![],
    }
}

/// The RTX SSRCs among an endpoint's SSRC groups.
fn rtx_ssrcs_exec(groups: &Vec<JsonValue>) -> (r: Vec<u32>)
    ensures
        r@ == rtx_ssrcs(groups@),
{
    let mut r: Vec<u32> = Vec::new();
    let mut i: usize = 0;
    while i < groups.len()
        invariant
            i <= groups@.len(),
            r@ == rtx_ssrcs(groups@.take(i as int)),
        decreases groups@.len() - i,
    {
        assert(groups@.take(i + 1).drop_last() =~= groups@.take(i as int));
        let g = &groups[i];
        let ghost before = r@;
        match g {
            JsonValue::Array(xs) => {
                let is_fid = if xs.len() > 0 {
                    match &xs[0] {
                        JsonValue::Str(s) => {
                            let sc = chars_of(s.as_str());
                            chars_eq_str(sc.as_slice(), "f")
                        },
                        _ => false,
                    }
                } else {
                    false
                };
                if is_fid {
                    match at(g, 2) {
                        Some(JsonValue::Number(Some(n))) => {
                            r.push(*n as u32);
                        },
                        _ => {},
                    }
                }
            },
            _ => {},
        }
        assert(r@ =~= rtx_ssrcs(groups@.take(i + 1)));
        i += 1;
    }
    assert(groups@.take(i as int) =~= groups@);
    r
}

/// Whether `v` lists `x`.
fn lists_u32(v: &Vec<u32>, x: u32) -> (r: bool)
    ensures
        r == v@.contains(x),
{
    let mut i: usize = 0;
    while i < v.len()
        invariant
            i <= v@.len(),
            forall|k: int| 0 <= k < i ==> v@[k] != x,
        decreases v@.len() - i,
    {
        if v[i] == x {
            assert(v@[i as int] == x);
            return true;
        }
        i += 1;
    }
    false
}

/// The stream one announced source stands for.
fn source_entry_exec(endpoint: &String, source: &JsonValue, rtx: &Vec<u32>) -> (r: Option<
    ParsedSource,
>)
    ensures
        match r {
            Some(p) => source_entry(endpoint@, *source, rtx@) == Some(p@),
            None => source_entry(endpoint@, *source, rtx@) is None,
        },
{
    let ssrc = match get(source, "s") {
        Some(JsonValue::Number(Some(n))) => *n as u32,
        _ => {
            return None;
        },
    };
    if lists_u32(rtx, ssrc) {
        return None;
    }
    let source_name = match get(source, "n") {
        Some(JsonValue::Str(s)) => s.clone(),
        _ => String::new(),
    };
    let video_type = match get(source, "v") {
        Some(JsonValue::Str(s)) => Some(s.clone()),
        _ => None,
    };
    Some(ParsedSource { ssrc, endpoint_id: endpoint.clone(), source_name, video_type })
}

/// Appends the streams of a list of announced sources.
fn push_list_sources(
    res: &mut Vec<ParsedSource>,
    endpoint: &String,
    list: &Vec<JsonValue>,
    rtx: &Vec<u32>,
)
    ensures
        source_views(final(res)@) == source_views(old(res)@) + list_sources(
            endpoint@,
            list@,
            rtx@,
        ),
{
    let ghost start = source_views(res@);
    let mut i: usize = 0;
    while i < list.len()
        invariant
            i <= list@.len(),
            source_views(res@) == start + list_sources(endpoint@, list@.take(i as int), rtx@),
        decreases list@.len() - i,
    {
        assert(list@.take(i + 1).drop_last() =~= list@.take(i as int));
        let ghost before = source_views(res@);
        match source_entry_exec(endpoint, &list[i], rtx) {
            Some(p) => {
                let ghost pv = p@;
                res.push(p);
                assert(source_views(res@) =~= before.push(pv));
            },
            None => {},
        }
        assert(source_views(res@) =~= start + list_sources(endpoint@, list@.take(i + 1), rtx@));
        i += 1;
    }
    assert(list@.take(i as int) =~= list@);
}

/// Appends the streams an endpoint announces.
fn push_endpoint_sources(res: &mut Vec<ParsedSource>, endpoint: &String, data: &JsonValue)
    ensures
        source_views(final(res)@) == source_views(old(res)@) + endpoint_sources(endpoint@, *data),
{
    let ghost start = source_views(res@);
    let ec = chars_of(endpoint.as_str());
    let jvb = chars_of("jvb");
    if starts_with_at(ec.as_slice(), 0, jvb.as_slice()) {
        assert(ec@.skip(0) =~= ec@);
        assert(source_views(res@) =~= start + Seq::<SourceView>::empty());
        return;
    }
    assert(ec@.skip(0) =~= ec@);
    let empty: Vec<JsonValue> = Vec::new();
    let groups = match at(data, 1) {
        Some(JsonValue::Array(xs)) => xs,
        _ => &empty,
    };
    assert(groups@ == elements(json_at(*data, 1)));
    let rtx = rtx_ssrcs_exec(groups);
    let video = match at(data, 0) {
        Some(JsonValue::Array(xs)) => xs,
        _ => &empty,
    };
    assert(video@ == elements(json_at(*data, 0)));
    push_list_sources(res, endpoint, video, &rtx);
    let audio = match at(data, 2) {
        Some(JsonValue::Array(xs)) => xs,
        _ => &empty,
    };
    assert(audio@ == elements(json_at(*data, 2)));
    push_list_sources(res, endpoint, audio, &rtx);
}

/// The streams a `source-add` JSON message announces.
///
/// Sources arrive keyed by endpoint, whose value is `[video, ssrc_groups,
/// audio]`. Two kinds of entry are skipped: the bridge's own `jvb*`
/// endpoint, and RTX retransmission SSRCs, which show up as the third member
/// of an `"f"` (FID) group and carry no media of their own. Video is walked
/// before audio so that a downstream sibling lookup finds the video source
/// already registered at the same index.
pub fn sources_from_json(json: &JsonValue) -> (r: Vec<ParsedSource>)
    ensures
        source_views(r@) == sources_in(*json),
{
    let mut res: Vec<ParsedSource> = Vec::new();
    assert(source_views(res@) =~= Seq::<SourceView>::empty());
    match get(json, "sources") {
        Some(JsonValue::Object(kvs)) => {
            let mut i: usize = 0;
            while i < kvs.len()
                invariant
                    i <= kvs@.len(),
                    source_views(res@) == announced_sources(kvs@.take(i as int)),
                decreases kvs@.len() - i,
            {
                assert(kvs@.take(i + 1).drop_last() =~= kvs@.take(i as int));
                push_endpoint_sources(&mut res, &kvs[i].0, &kvs[i].1);
                i += 1;
            }
            assert(kvs@.take(i as int) =~= kvs@);
        },
        _ => {},
    }
    res
}

/// Trusted: reads the clock through `chrono::Utc::now().timestamp_millis()`.
/// Nothing is claimed of the value.
#[verifier::external_body]
fn now_millis() -> i64 {
    chrono::Utc::now().timestamp_millis()
}

/// Appends `Display` of a signed integer.
fn push_signed(v: &mut Vec<char>, n: i64)
    ensures
        final(v)@ == old(v)@ + signed_decimal(n as int),
{
    if n < 0 {
        push_str(v, "-");
        let m: i128 = -(n as i128);
        push_decimal(v, m as u128);
    } else {
        push_decimal(v, n as u128);
    }
}

impl<'a> JingleAction<'a> {
    /// Recognizes an action name, or `None` for actions we ignore.
    pub fn parse(s: &str, stanza: &'a Element) -> (r: Option<Self>)
        ensures
            r == action_named(s@, stanza),
    {
        let cs = chars_of(s);
        if chars_eq_str(cs.as_slice(), "session-initiate") {
            Some(JingleAction::SessionInitiate(stanza))
        } else if chars_eq_str(cs.as_slice(), "source-add") {
            Some(JingleAction::SourceAdd(stanza))
        } else if chars_eq_str(cs.as_slice(), "source-remove") {
            Some(JingleAction::SourceRemove(stanza))
        } else {
            None
        }
    }

    /// The action's name as it appears on the wire.
    pub fn name(&self) -> (r: &'static str)
        ensures
            r@ == match self {
                JingleAction::SessionInitiate(_) => "session-initiate"@,
                JingleAction::SourceAdd(_) => "source-add"@,
                JingleAction::SourceRemove(_) => "source-remove"@,
            },
    {
        match self {
            JingleAction::SessionInitiate(_) => "session-initiate",
            JingleAction::SourceAdd(_) => "source-add",
            JingleAction::SourceRemove(_) => "source-remove",
        }
    }

    /// Builds the SDP session header (`v=`, `o=`, `s=`, `t=`) for a session
    /// id, adding `a=cryptex` when the bridge advertises it on any
    /// fingerprint.
    pub fn session_header_for(&self, session_id: i64, stanza: &Element) -> (r: String)
        ensures
            r@ == session_header(session_id as int, *stanza),
    {
        let mut sdp: Vec<char> = Vec::new();
        push_str(&mut sdp, "v=0\r\n");
        push_str(&mut sdp, "o=- ");
        push_signed(&mut sdp, session_id);
        push_str(&mut sdp, " 2 IN IP4 0.0.0.0\r\n");
        push_str(&mut sdp, "s=-\r\n");
        push_str(&mut sdp, "t=0 0\r\n");
        let fingerprints = find_all(Some(stanza), "content>transport>fingerprint");
        let ghost fps = crate::xml::derefs(fingerprints@);
        let mut cryptex = false;
        let mut i: usize = 0;
        while i < fingerprints.len()
            invariant
                i <= fingerprints@.len(),
                fps == crate::xml::derefs(fingerprints@),
                fps == find_all_spec(Some(*stanza), "content>transport>fingerprint"@),
                cryptex == exists|k: int|
                    0 <= k < i && attr_value(#[trigger] fps[k], "cryptex"@) == Some("true"@),
            decreases fingerprints@.len() - i,
        {
            let found = match fingerprints[i].get_attribute("cryptex") {
                Some(v) => {
                    let vc = chars_of(v.as_str());
                    chars_eq_str(vc.as_slice(), "true")
                },
                None => false,
            };
            assert(found == (attr_value(fps[i as int], "cryptex"@) == Some("true"@)));
            if found {
                cryptex = true;
            }
            i += 1;
        }
        if cryptex {
            push_str(&mut sdp, "a=cryptex\r\n");
        }
        assert(sdp@ =~= session_header(session_id as int, *stanza));
        string_from_chars(sdp.as_slice())
    }

    /// Builds the SDP session header (`v=`, `o=`, `s=`, `t=`) with the current
    /// time in milliseconds as the session id.
    fn parse_sdp_session(&self, stanza: &Element) -> (r: String)
        ensures
            exists|t: i64| r@ == session_header(t as int, *stanza),
    {
        let session_id = now_millis();
        self.session_header_for(session_id, stanza)
    }

    /// The offer text of a `session-initiate` for a session id: the header,
    /// then each `<content>` as a media section. The media state ends as the
    /// last content left it.
    pub fn initiate_offer(&self, session_id: i64, stanza: &Element, media: &mut JingleMedia) -> (r:
        String)
        ensures
            r@ == initiate_text(session_id as int, *stanza),
    {
        let header = self.session_header_for(session_id, stanza);
        self.with_media_sections(header, stanza, media)
    }

    /// `header` followed by one media section per `<content>`.
    fn with_media_sections(&self, header: String, stanza: &Element, media: &mut JingleMedia) -> (r:
        String)
        ensures
            r@ == header@ + concat_map(find_all_spec(Some(*stanza), "content"@), |c| media_section(c)),
    {
        let contents = find_all(Some(stanza), "content");
        let ghost cs = crate::xml::derefs(contents@);
        let mut out: Vec<char> = chars_of(header.as_str());
        let ghost start = out@;
        let mut i: usize = 0;
        assert(cs.take(0) =~= Seq::<Element>::empty());
        while i < contents.len()
            invariant
                i <= contents@.len(),
                cs == crate::xml::derefs(contents@),
                out@ == start + concat_map(cs.take(i as int), |c| media_section(c)),
            decreases contents@.len() - i,
        {
            assert(cs.take(i + 1).drop_last() =~= cs.take(i as int));
            let section = media.parse_sdp_media(contents[i]);
            let sc = chars_of(section.as_str());
            push_chars(&mut out, sc.as_slice());
            assert(out@ =~= start + concat_map(cs.take(i + 1), |c| media_section(c)));
            i += 1;
        }
        assert(cs.take(i as int) =~= cs);
        string_from_chars(out.as_slice())
    }

    /// Turns a `session-initiate` into the SDP offer handed to
    /// `webrtcbin`, or an empty string if the result won't parse as SDP.
    ///
    /// Built in three passes: the session header, then one m-line per Jingle
    /// `<content>`, then [`final_parsing`](Self::final_parsing) to split and
    /// renumber m-lines the way the WebRTC stack expects.
    pub fn handle_session_initiate(&self, stanza: &Element, media: &mut JingleMedia) -> (r: String)
        ensures
            exists|t: i64|
                {
                    let text = #[trigger] initiate_text(t as int, *stanza);
                    &&& !sdp_accepts(text) ==> r@ == Seq::<char>::empty()
                    &&& sdp_accepts(text) ==> shaped_offer(
                        text,
                        final(media).media@,
                        find_all_spec(Some(*stanza), "group"@).len() > 0,
                        r@,
                    )
                },
    {
        let sdp_session = self.parse_sdp_session(stanza);
        let ghost t = choose|t: i64| sdp_session@ == session_header(t as int, *stanza);
        let offer = self.with_media_sections(sdp_session, stanza, media);
        assert(offer@ == initiate_text(t as int, *stanza));
        let groups = find_all(Some(stanza), "group");
        match self.final_parsing(offer.as_str(), &groups, media) {
            Ok(text) => text,
            Err(_) => String::new(),
        }
    }

    /// Extracts the SSRC-to-source mapping from a `source-add`: the streams
    /// its `<json-message>` announces (see [`sources_from_json`]), or none
    /// when there is no message or it is not JSON.
    pub fn handle_source_add(&self, stanza: &Element) -> (r: Vec<ParsedSource>)
        ensures
            source_views(r@) == source_add_result(*stanza),
    {
        let text = match find_first(Some(stanza), "json-message") {
            Some(m) => m.get_text(),
            None => None,
        };
        match text {
            Some(t) => match parse_json(t.as_str()) {
                Some(json) => sources_from_json(&json),
                None => Vec::new(),
            },
            None => Vec::new(),
        }
    }

    /// Logs a `source-remove`. Not acted on: a removed source stops producing
    /// RTP, and the branch recording it is finalized on participant-left or at
    /// meeting end.
    pub fn handle_source_remove(&self, stanza: &Element) -> (r: String)
        ensures
            r@ == Seq::<char>::empty(),
    {
        String::new()
    }

    /// Reshapes the Jingle-derived SDP into an offer `webrtcbin` accepts.
    ///
    /// Jingle packs every SSRC for a media type onto one `<content>`, but
    /// WebRTC wants one m-line per stream (unified plan). So each m-line is
    /// split: one copy per primary SSRC, each with a fresh `mid`, carrying its
    /// own FID group and the RTX SSRC paired with it. The first copy stays
    /// `sendrecv` (it is the transceiver we answer on); the rest become
    /// `sendonly`. See [`split_media_lines`] for exactly what each m-line
    /// carries.
    ///
    /// Finally it re-attaches a BUNDLE group over the new mids (when the
    /// Jingle had a `<group>`) and rebuilds `a=msid-semantic` from the msids
    /// that survived, each once. Fails exactly when `webrtc_sdp` refuses the
    /// text.
    pub fn final_parsing(&self, sdp: &str, groups: &Vec<&Element>, media: &JingleMedia) -> (r:
        Result<String, OfferError>)
        ensures
            r is Ok <==> sdp_accepts(sdp@),
            r matches Ok(t) ==> shaped_offer(sdp@, media.media@, groups@.len() > 0, t@),
    {
        match parse_offer(sdp) {
            Ok(session) => {
                let mut session = session;
                let lines = media_of_session(&session);
                let new_media = split_media_lines(&lines, media);
                let mids = mids_exec(&new_media);
                let msids = msids_exec(&new_media);
                let ghost nm = new_media@;
                let ghost ms = string_views(msids@);
                put_media(&mut session, new_media);
                if groups.len() > 0 {
                    match add_bundle_group(&mut session, mids) {
                        Ok(()) => {},
                        Err(e) => {
                            return Err(OfferError::Rejected(e));
                        },
                    }
                }
                match add_msid_semantic(&mut session, msids) {
                    Ok(()) => {},
                    Err(e) => {
                        return Err(OfferError::Rejected(e));
                    },
                }
                let text = session_text(&session);
                assert(session == shaped_session(parsed_sdp(sdp@), nm, groups@.len() > 0, ms));
                assert(offered_lines(session_media(parsed_sdp(sdp@)), media.media@, nm));
                assert(stream_list(nm, ms));
                Ok(text)
            },
            Err(e) => Err(OfferError::Unparsable(e)),
        }
    }
}

} // verus!
