//! The stanzas a room sends while negotiating with the bridge: the
//! `transport-info` for each ICE candidate `webrtcbin` gathers, and the
//! `session-accept` made from its answer. The pipeline itself, which
//! produces the candidates and the answer, is driven by the caller.

use crate::answer::{reads_session, is_session_accept, session_group, session_media, answer_matches, Sdp};
use crate::iq::{candidate_attribute, candidate_pairs, parse_candidate_attribute, random_id, Iq};
use crate::offer::{parse_offer, parsed_sdp, sdp_accepts};
use crate::text::{chars_of, has_prefix, starts_with_at, string_from_chars};
use crate::xep::{xep_urn, XEP};
use crate::xml::{set_pair, tag_is, Element};
use crate::json::{entry_value, get, json_of, parse_json, JsonValue};
use crate::media::MediaChanges;
use crate::timeline::{event_code, event_endpoint, TimelineEvent, TimelineHandler};
use vstd::prelude::*;

verus! {

/// The content an m-line index stands for: the bridge's offer orders them
/// audio, video, data.
pub open spec fn content_for_index(index: u32) -> Option<Seq<char>> {
    if index == 0 {
        Some("audio"@)
    } else if index == 1 {
        Some("video"@)
    } else if index == 2 {
        Some("data"@)
    } else {
        None
    }
}

/// The content an m-line index stands for.
pub fn content_name(index: u32) -> (r: Option<&'static str>)
    ensures
        match r {
            Some(n) => content_for_index(index) == Some(n@),
            None => content_for_index(index) is None,
        },
{
    if index == 0 {
        Some("audio")
    } else if index == 1 {
        Some("video")
    } else if index == 2 {
        Some("data")
    } else {
        None
    }
}

/// The routing of a Jingle session, as the room answers it.
pub struct SessionRoute {
    /// The focus, which sent the offer.
    pub from: String,
    /// The recorder's own JID.
    pub to: String,
    pub sid: String,
    pub initiator: String,
}

/// Whether `e` is the `transport-info` IQ carrying candidate `c` for content
/// `content`, with the room's ICE credentials, under IQ id `iq_id` and
/// candidate id `cand_id`.
pub open spec fn is_transport_info(
    e: Element,
    route: SessionRoute,
    content: Seq<char>,
    ufrag: Seq<char>,
    pwd: Seq<char>,
    c: crate::iq::CandidateInfo,
    iq_id: Seq<char>,
    cand_id: Seq<char>,
) -> bool {
    &&& tag_is(
        e,
        "iq"@,
        set_pair(set_pair(set_pair(set_pair(seq![], "id"@, iq_id), "to"@, route.from@), "from"@, route.to@), "type"@, "set"@),
    )
    &&& e.children@.len() == 1
    &&& {
        let jingle = e.children@[0];
        &&& tag_is(
            jingle,
            "jingle"@,
            set_pair(
                set_pair(
                    set_pair(set_pair(set_pair(seq![], "xmlns"@, "urn:xmpp:jingle:1"@), "action"@, "transport-info"@), "initiator"@, route.initiator@),
                    "sid"@,
                    route.sid@,
                ),
                "responder"@,
                route.to@,
            ),
        )
        &&& jingle.children@.len() == 1
        &&& {
            let cont = jingle.children@[0];
            &&& tag_is(
                cont,
                "content"@,
                set_pair(set_pair(set_pair(seq![], "name"@, content), "senders"@, "initiator"@), "creator"@, "initiator"@),
            )
            &&& cont.children@.len() == 1
            &&& {
                let transport = cont.children@[0];
                &&& tag_is(
                    transport,
                    "transport"@,
                    set_pair(set_pair(set_pair(seq![], "xmlns"@, xep_urn(XEP::IceUdpTransport)), "ufrag"@, ufrag), "pwd"@, pwd),
                )
                &&& transport.children@.len() == 1
                &&& tag_is(transport.children@[0], "candidate"@, candidate_pairs(c, cand_id))
                &&& transport.children@[0].children@.len() == 0
            }
        }
    }
}

/// The `transport-info` IQ that sends one gathered ICE candidate to the
/// focus, under a random IQ id. `None` when the candidate is empty, the
/// m-line index is not one the offer has, or the candidate does not parse.
pub fn transport_info(
    route: &SessionRoute,
    mline_index: u32,
    candidate: &str,
    ufrag: &str,
    pwd: &str,
) -> (r: Option<Element>)
    ensures
        (candidate@.len() == 0 || content_for_index(mline_index) is None || candidate_attribute(
            candidate@,
        ) is None) ==> r is None,
        !(candidate@.len() == 0 || content_for_index(mline_index) is None || candidate_attribute(
            candidate@,
        ) is None) ==> (r matches Some(e) && exists|iq_id: Seq<char>, cand_id: Seq<char>|
            iq_id.len() == 21 && cand_id.len() == 21 && #[trigger] is_transport_info(
                e,
                *route,
                content_for_index(mline_index)->0,
                ufrag@,
                pwd@,
                candidate_attribute(candidate@)->0,
                iq_id,
                cand_id,
            )),
{
    if candidate.unicode_len() == 0 {
        return None;
    }
    let name = match content_name(mline_index) {
        Some(n) => n,
        None => {
            return None;
        },
    };
    let parsed = match parse_candidate_attribute(candidate) {
        Some(c) => c,
        None => {
            return None;
        },
    };
    let cand = Iq::parse_candidate(&parsed);
    let ghost cand_id = choose|id: Seq<char>|
        id.len() == 21 && tag_is(cand, "candidate"@, #[trigger] candidate_pairs(parsed, id));
    let mut transport = Element::tag("transport");
    transport.set_attribute("xmlns", XEP::IceUdpTransport.urn());
    transport.set_attribute("ufrag", ufrag);
    transport.set_attribute("pwd", pwd);
    transport.add_child(cand);
    let mut content = Element::tag("content");
    content.set_attribute("name", name);
    content.set_attribute("senders", "initiator");
    content.set_attribute("creator", "initiator");
    content.add_child(transport);
    let mut jingle = Element::tag("jingle");
    jingle.set_attribute("xmlns", "urn:xmpp:jingle:1");
    jingle.set_attribute("action", "transport-info");
    jingle.set_attribute("initiator", route.initiator.as_str());
    jingle.set_attribute("sid", route.sid.as_str());
    jingle.set_attribute("responder", route.to.as_str());
    jingle.add_child(content);
    let id = random_id(21);
    let mut iq = Element::tag("iq");
    iq.set_attribute("id", id.as_str());
    iq.set_attribute("to", route.from.as_str());
    iq.set_attribute("from", route.to.as_str());
    iq.set_attribute("type", "set");
    iq.add_child(jingle);
    assert(is_transport_info(
        iq,
        *route,
        content_for_index(mline_index)->0,
        ufrag@,
        pwd@,
        candidate_attribute(candidate@)->0,
        id@,
        cand_id,
    ));
    Some(iq)
}

/// The lines of a text, as `str::lines` gives them: split at `\n`, a `\r`
/// before it dropped, no empty line after a final line ending.
pub open spec fn text_lines(s: Seq<char>) -> Seq<Seq<char>> {
    lines_from(s, seq![])
}

/// The lines still to come, `cur` being the line read so far.
pub open spec fn lines_from(s: Seq<char>, cur: Seq<char>) -> Seq<Seq<char>>
    decreases s.len(),
{
    if s.len() == 0 {
        if cur.len() > 0 {
            seq![cur]
        } else {
            seq![]
        }
    } else if s[0] == '\n' {
        seq![
            if cur.len() > 0 && cur.last() == '\r' {
                cur.drop_last()
            } else {
                cur
            },
        ] + lines_from(s.drop_first(), seq![])
    } else {
        lines_from(s.drop_first(), cur.push(s[0]))
    }
}

/// What follows `prefix` on the first of `lines` that starts with it.
pub open spec fn first_value(lines: Seq<Seq<char>>, prefix: Seq<char>) -> Option<Seq<char>>
    decreases lines.len(),
{
    if lines.len() == 0 {
        None
    } else if has_prefix(lines[0], prefix) {
        Some(lines[0].skip(prefix.len() as int))
    } else {
        first_value(lines.drop_first(), prefix)
    }
}

proof fn lemma_lines_from_step(s: Seq<char>, i: int, cur: Seq<char>)
    requires
        0 <= i < s.len(),
    ensures
        lines_from(s.skip(i), cur) == if s[i] == '\n' {
            seq![
                if cur.len() > 0 && cur.last() == '\r' {
                    cur.drop_last()
                } else {
                    cur
                },
            ] + lines_from(s.skip(i + 1), seq![])
        } else {
            lines_from(s.skip(i + 1), cur.push(s[i]))
        },
{
    assert(s.skip(i).drop_first() =~= s.skip(i + 1));
    assert(s.skip(i)[0] == s[i]);
}

/// `str::lines`, collected.
pub fn lines(s: &str) -> (r: Vec<Vec<char>>)
    ensures
        crate::text::seq_views(r@) == text_lines(s@),
{
    let cs = chars_of(s);
    let mut out: Vec<Vec<char>> = Vec::new();
    let mut cur: Vec<char> = Vec::new();
    let mut i: usize = 0;
    assert(cs@.skip(0) =~= cs@);
    assert(crate::text::seq_views(out@) =~= Seq::<Seq<char>>::empty());
    while i < cs.len()
        invariant
            i <= cs@.len(),
            cs@ == s@,
            crate::text::seq_views(out@) + lines_from(cs@.skip(i as int), cur@) == text_lines(s@),
        decreases cs@.len() - i,
    {
        proof {
            lemma_lines_from_step(cs@, i as int, cur@);
        }
        let c = cs[i];
        if c == '\n' {
            let ghost before = crate::text::seq_views(out@);
            let ghost line = if cur@.len() > 0 && cur@.last() == '\r' {
                cur@.drop_last()
            } else {
                cur@
            };
            let n = cur.len();
            let line_v: Vec<char> = if n > 0 && cur[n - 1] == '\r' {
                let mut l = cur;
                l.pop();
                l
            } else {
                cur
            };
            assert(line_v@ == line);
            out.push(line_v);
            cur = Vec::new();
            assert(crate::text::seq_views(out@) =~= before.push(line));
            assert(crate::text::seq_views(out@) + lines_from(cs@.skip(i + 1), cur@) =~= before + (
            seq![line] + lines_from(cs@.skip(i + 1), seq![])));
        } else {
            cur.push(c);
        }
        i += 1;
    }
    assert(cs@.skip(i as int).len() == 0);
    if cur.len() > 0 {
        let ghost before = crate::text::seq_views(out@);
        let ghost line = cur@;
        out.push(cur);
        assert(crate::text::seq_views(out@) =~= before + seq![line]);
    } else {
        assert(crate::text::seq_views(out@) + lines_from(cs@.skip(i as int), cur@)
            =~= crate::text::seq_views(out@));
    }
    out
}

/// What follows `prefix` on the first line that starts with it.
fn first_value_exec(lines: &Vec<Vec<char>>, prefix: &str) -> (r: Option<String>)
    ensures
        crate::participant::opt_view(r) == first_value(crate::text::seq_views(lines@), prefix@),
{
    let p = chars_of(prefix);
    let ghost ls = crate::text::seq_views(lines@);
    let mut i: usize = 0;
    assert(ls.skip(0) =~= ls);
    while i < lines.len()
        invariant
            i <= lines@.len(),
            p@ == prefix@,
            ls == crate::text::seq_views(lines@),
            first_value(ls, prefix@) == first_value(ls.skip(i as int), prefix@),
        decreases lines@.len() - i,
    {
        assert(ls.skip(i as int).drop_first() =~= ls.skip(i + 1));
        assert(ls.skip(i as int)[0] == lines@[i as int]@);
        let line = &lines[i];
        if starts_with_at(line.as_slice(), 0, p.as_slice()) {
            assert(line@.skip(0) =~= line@);
            let n = line.len();
            let v = string_from_chars(&line.as_slice()[p.len()..n]);
            assert(v@ =~= line@.skip(prefix@.len() as int));
            return Some(v);
        }
        assert(line@.skip(0) =~= line@);
        i += 1;
    }
    None
}

/// The ICE username fragment and password of an answer: what follows
/// `a=ice-ufrag:` and `a=ice-pwd:` on the first line that has each.
pub fn ice_credentials(answer: &str) -> (r: (Option<String>, Option<String>))
    ensures
        crate::participant::opt_view(r.0) == first_value(text_lines(answer@), "a=ice-ufrag:"@),
        crate::participant::opt_view(r.1) == first_value(text_lines(answer@), "a=ice-pwd:"@),
{
    let ls = lines(answer);
    (first_value_exec(&ls, "a=ice-ufrag:"), first_value_exec(&ls, "a=ice-pwd:"))
}

/// Whether `e` is the IQ that carries `jingle` to the focus.
pub open spec fn is_accept_iq(e: Element, route: SessionRoute, iq_id: Seq<char>) -> bool {
    &&& tag_is(
        e,
        "iq"@,
        set_pair(set_pair(set_pair(set_pair(seq![], "id"@, iq_id), "to"@, route.from@), "from"@, route.to@), "type"@, "set"@),
    )
    &&& e.children@.len() == 1
}

/// The `session-accept` IQ for `webrtcbin`'s answer, under a random IQ id;
/// `None` when `webrtc_sdp` refuses the answer.
pub fn session_accept(route: &SessionRoute, answer: &str) -> (r: Option<Element>)
    ensures
        r is Some <==> sdp_accepts(answer@),
        r matches Some(e) ==> (exists|iq_id: Seq<char>|
            iq_id.len() == 21 && #[trigger] is_accept_iq(e, *route, iq_id)) && (exists|sdp: Sdp|
            reads_session(sdp, parsed_sdp(answer@)) && #[trigger] is_session_accept(
                e.children@[0],
                sdp,
                route.initiator@,
                route.sid@,
                route.to@,
            )),
{
    let session = match parse_offer(answer) {
        Ok(s) => s,
        Err(_) => {
            return None;
        },
    };
    let sdp = Sdp::new(&session);
    let jingle = sdp.parse_sdp_to_jingle(route.initiator.as_str(), route.sid.as_str(), route.to.as_str());
    let id = random_id(21);
    let mut iq = Element::tag("iq");
    iq.set_attribute("id", id.as_str());
    iq.set_attribute("to", route.from.as_str());
    iq.set_attribute("from", route.to.as_str());
    iq.set_attribute("type", "set");
    iq.add_child(jingle);
    assert(is_accept_iq(iq, *route, id@));
    assert(iq.children@[0] == jingle);
    Some(iq)
}

/// The timeline codes a mute update records: one per flag that changed, the
/// camera first, then audio, then screenshare.
pub open spec fn change_codes(changes: MediaChanges) -> Seq<Seq<char>> {
    (match changes.video_muted {
        Some(true) => seq!["camera_off"@],
        Some(false) => seq!["camera_on"@],
        None => seq![],
    }) + (match changes.audio_muted {
        Some(true) => seq!["audio_off"@],
        Some(false) => seq!["audio_on"@],
        None => seq![],
    }) + (match changes.screenshare_muted {
        Some(true) => seq!["screenshare_off"@],
        Some(false) => seq!["screenshare_on"@],
        None => seq![],
    })
}

/// The timeline events for each mute flag of `endpoint_id` that an update
/// changed, in the order camera, audio, screenshare, for the caller to post.
pub fn record_media_changes(
    handler: &TimelineHandler,
    endpoint_id: &str,
    changes: MediaChanges,
) -> (r: Vec<TimelineEvent>)
    ensures
        r@.map_values(|e: TimelineEvent| event_code(e)) == change_codes(changes),
        forall|i: int|
            0 <= i < r@.len() ==> (#[trigger] event_endpoint(r@[i])) is Some && event_endpoint(
                r@[i],
            )->0@ == endpoint_id@,
{
    let mut events: Vec<TimelineEvent> = Vec::new();
    match changes.video_muted {
        Some(true) => {
            events.push(handler.camera_off(Some(String::from_str(endpoint_id))));
        },
        Some(false) => {
            events.push(handler.camera_on(Some(String::from_str(endpoint_id))));
        },
        None => {},
    }
    match changes.audio_muted {
        Some(true) => {
            events.push(handler.audio_off(Some(String::from_str(endpoint_id))));
        },
        Some(false) => {
            events.push(handler.audio_on(Some(String::from_str(endpoint_id))));
        },
        None => {},
    }
    match changes.screenshare_muted {
        Some(true) => {
            events.push(handler.screenshare_off(Some(String::from_str(endpoint_id))));
        },
        Some(false) => {
            events.push(handler.screenshare_on(Some(String::from_str(endpoint_id))));
        },
        None => {},
    }
    proof {
        reveal_strlit("camera_off");
        reveal_strlit("camera_on");
        reveal_strlit("audio_off");
        reveal_strlit("audio_on");
        reveal_strlit("screenshare_off");
        reveal_strlit("screenshare_on");
        assert(events@.map_values(|e: TimelineEvent| event_code(e)) =~= change_codes(changes));
    }
    events
}

/// Whether an optional `previousSpeakers` entry reads as a list of strings,
/// as it must when present.
pub open spec fn speakers_ok(o: Option<JsonValue>) -> bool {
    match o {
        None => true,
        Some(JsonValue::Array(xs)) => forall|i: int| 0 <= i < xs@.len() ==> (#[trigger] xs@[i]) is Str,
        _ => false,
    }
}

/// Whether an optional `silence` entry reads as a boolean, as it must when
/// present.
pub open spec fn silence_ok(o: Option<JsonValue>) -> bool {
    match o {
        None => true,
        Some(JsonValue::Bool(_)) => true,
        _ => false,
    }
}

/// The new dominant speaker a Colibri message announces: an object whose
/// `colibriClass` is `DominantSpeakerEndpointChangeEvent`, whose
/// `dominantSpeakerEndpoint` is a string, and whose optional
/// `previousSpeakers` and `silence` are a list of strings and a boolean.
/// Every other message announces none.
pub open spec fn colibri_dominant(v: JsonValue) -> Option<Seq<char>> {
    match v {
        JsonValue::Object(kvs) => match (
            entry_value(kvs@, "colibriClass"@),
            entry_value(kvs@, "dominantSpeakerEndpoint"@),
        ) {
            (Some(JsonValue::Str(c)), Some(JsonValue::Str(e))) => if c@
                == "DominantSpeakerEndpointChangeEvent"@ && speakers_ok(
                entry_value(kvs@, "previousSpeakers"@),
            ) && silence_ok(entry_value(kvs@, "silence"@)) {
                Some(e@)
            } else {
                None
            },
            _ => None,
        },
        _ => None,
    }
}

/// The new dominant speaker a parsed Colibri message announces.
pub fn dominant_speaker_in(v: &JsonValue) -> (r: Option<String>)
    ensures
        crate::participant::opt_view(r) == colibri_dominant(*v),
{
    proof {
        reveal_strlit("DominantSpeakerEndpointChangeEvent");
    }
    let class = match get(v, "colibriClass") {
        Some(JsonValue::Str(c)) => c,
        _ => {
            return None;
        },
    };
    let endpoint = match get(v, "dominantSpeakerEndpoint") {
        Some(JsonValue::Str(e)) => e,
        _ => {
            return None;
        },
    };
    let cc = chars_of(class.as_str());
    if !crate::text::chars_eq_str(cc.as_slice(), "DominantSpeakerEndpointChangeEvent") {
        return None;
    }
    let speakers_fine = match get(v, "previousSpeakers") {
        None => true,
        Some(JsonValue::Array(xs)) => {
            let mut all = true;
            let mut i: usize = 0;
            while i < xs.len()
                invariant
                    i <= xs@.len(),
                    all <==> forall|k: int| 0 <= k < i ==> (#[trigger] xs@[k]) is Str,
                decreases xs@.len() - i,
            {
                match &xs[i] {
                    JsonValue::Str(_) => {},
                    _ => {
                        all = false;
                    },
                }
                i += 1;
            }
            all
        },
        Some(_) => false,
    };
    let silence_fine = match get(v, "silence") {
        None => true,
        Some(JsonValue::Bool(_)) => true,
        Some(_) => false,
    };
    if speakers_fine && silence_fine {
        Some(endpoint.clone())
    } else {
        None
    }
}

/// The new dominant speaker a Colibri data-channel message announces;
/// `None` for any other message, and for text that is not JSON.
pub fn dominant_speaker_of(message: &str) -> (r: Option<String>)
    ensures
        match json_of(message@) {
            Some(v) => crate::participant::opt_view(r) == colibri_dominant(v),
            None => r is None,
        },
{
    match parse_json(message) {
        Some(v) => dominant_speaker_in(&v),
        None => None,
    }
}

/// A mute update records one event per flag that changed and no other: as
/// many codes as changed flags, and each changed flag its own code, `*_off`
/// when it became muted and `*_on` when it became unmuted.
pub proof fn law_one_event_per_change(changes: MediaChanges)
    ensures
        change_codes(changes).len() == (if changes.video_muted is Some {
            1int
        } else {
            0int
        }) + (if changes.audio_muted is Some {
            1int
        } else {
            0int
        }) + (if changes.screenshare_muted is Some {
            1int
        } else {
            0int
        }),
        change_codes(changes).contains("camera_off"@) <==> changes.video_muted == Some(true),
        change_codes(changes).contains("camera_on"@) <==> changes.video_muted == Some(false),
        change_codes(changes).contains("audio_off"@) <==> changes.audio_muted == Some(true),
        change_codes(changes).contains("audio_on"@) <==> changes.audio_muted == Some(false),
        change_codes(changes).contains("screenshare_off"@) <==> changes.screenshare_muted == Some(true),
        change_codes(changes).contains("screenshare_on"@) <==> changes.screenshare_muted == Some(false),
{
    reveal_strlit("camera_off");
    reveal_strlit("camera_on");
    reveal_strlit("audio_off");
    reveal_strlit("audio_on");
    reveal_strlit("screenshare_off");
    reveal_strlit("screenshare_on");
    assert("camera_off"@[0] == 'c' && "camera_on"@[0] == 'c' && "camera_off"@.len() == 10
        && "camera_on"@.len() == 9);
    assert("audio_off"@[0] == 'a' && "audio_on"@[0] == 'a' && "audio_off"@.len() == 9
        && "audio_on"@.len() == 8);
    assert("screenshare_off"@[0] == 's' && "screenshare_on"@[0] == 's' && "screenshare_off"@.len()
        == 15 && "screenshare_on"@.len() == 14);
    let v: Seq<Seq<char>> = match changes.video_muted {
        Some(true) => seq!["camera_off"@],
        Some(false) => seq!["camera_on"@],
        None => seq![],
    };
    let a: Seq<Seq<char>> = match changes.audio_muted {
        Some(true) => seq!["audio_off"@],
        Some(false) => seq!["audio_on"@],
        None => seq![],
    };
    let sh: Seq<Seq<char>> = match changes.screenshare_muted {
        Some(true) => seq!["screenshare_off"@],
        Some(false) => seq!["screenshare_on"@],
        None => seq![],
    };
    let c = change_codes(changes);
    assert(c == v + a + sh);
    assert forall|x: Seq<char>| c.contains(x) <==> (v.contains(x) || a.contains(x) || sh.contains(x)) by {
        if c.contains(x) {
            let k = choose|k: int| 0 <= k < c.len() && c[k] == x;
            if k < v.len() {
                assert(v[k] == x);
            } else if k < v.len() + a.len() {
                assert(a[k - v.len()] == x);
            } else {
                assert(sh[k - v.len() - a.len()] == x);
            }
        }
        if v.contains(x) {
            let k = choose|k: int| 0 <= k < v.len() && v[k] == x;
            assert(c[k] == x);
        }
        if a.contains(x) {
            let k = choose|k: int| 0 <= k < a.len() && a[k] == x;
            assert(c[v.len() + k] == x);
        }
        if sh.contains(x) {
            let k = choose|k: int| 0 <= k < sh.len() && sh[k] == x;
            assert(c[v.len() + a.len() + k] == x);
        }
    }
    assert(seq!["camera_off"@].contains("camera_off"@)) by {
        assert(seq!["camera_off"@][0] == "camera_off"@);
    }
    assert(seq!["camera_on"@].contains("camera_on"@)) by {
        assert(seq!["camera_on"@][0] == "camera_on"@);
    }
    assert(seq!["audio_off"@].contains("audio_off"@)) by {
        assert(seq!["audio_off"@][0] == "audio_off"@);
    }
    assert(seq!["audio_on"@].contains("audio_on"@)) by {
        assert(seq!["audio_on"@][0] == "audio_on"@);
    }
    assert(seq!["screenshare_off"@].contains("screenshare_off"@)) by {
        assert(seq!["screenshare_off"@][0] == "screenshare_off"@);
    }
    assert(seq!["screenshare_on"@].contains("screenshare_on"@)) by {
        assert(seq!["screenshare_on"@][0] == "screenshare_on"@);
    }
}

} // verus!
