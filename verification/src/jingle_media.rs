//! One Jingle `<content>` rendered as an SDP media section.
//!
//! The focus describes each stream group of the call as a Jingle content;
//! `webrtcbin` wants SDP. This is the conversion, field by field: the
//! m-line, connection and ICE lines, DTLS fingerprints, candidates, the
//! direction, codecs with their parameters and feedback, header extensions,
//! and the sources with their SSRC attributes.

use crate::jingle::{lowercase, to_lowercase};
use crate::text::{
    chars_eq_str, chars_of, contains_chars, contains_seq, push_chars, push_str, string_from_chars,
};
use crate::xml::{
    attr_or_empty, attr_value, find_all, find_all_spec, find_first, has_match, name_is,
    text_of, Element,
};
use vstd::prelude::*;

verus! {

/// The first element of a sequence, if any.
pub open spec fn first_of(s: Seq<Element>) -> Option<Element> {
    if s.len() > 0 {
        Some(s[0])
    } else {
        None
    }
}

/// The first element `selector` names below `e`.
pub open spec fn first_match(e: Option<Element>, selector: Seq<char>) -> Option<Element> {
    first_of(find_all_spec(e, selector))
}

/// Whether `selector` names anything below `e`.
pub open spec fn any_match(e: Option<Element>, selector: Seq<char>) -> bool {
    find_all_spec(e, selector).len() != 0
}

/// `parts` joined with `sep` between consecutive parts.
pub open spec fn join_with(parts: Seq<Seq<char>>, sep: Seq<char>) -> Seq<char>
    decreases parts.len(),
{
    if parts.len() == 0 {
        seq![]
    } else if parts.len() == 1 {
        parts[0]
    } else {
        join_with(parts.drop_last(), sep) + sep + parts.last()
    }
}

/// How many times `c` occurs in `s`.
pub open spec fn count_char(s: Seq<char>, c: char) -> nat
    decreases s.len(),
{
    if s.len() == 0 {
        0
    } else {
        count_char(s.drop_last(), c) + if s.last() == c {
            1nat
        } else {
            0nat
        }
    }
}

/// Characters an msid value may not carry into SDP.
pub open spec fn is_msid_noise(c: char) -> bool {
    c == '\\' || c == '/' || c == '{' || c == '}' || c == ',' || c == '+'
}

/// `s` without the characters an msid value may not carry.
pub open spec fn strip_noise(s: Seq<char>) -> Seq<char>
    decreases s.len(),
{
    if s.len() == 0 {
        seq![]
    } else {
        strip_noise(s.drop_last()) + if is_msid_noise(s.last()) {
            seq![]
        } else {
            seq![s.last()]
        }
    }
}

/// What the msid of a video source becomes: unchanged for audio or when it
/// already has the `<stream> <track>` form, otherwise `<msid> <msid>-<idx>`.
pub open spec fn adjusted_msid(media: Seq<char>, msid: Seq<char>, idx: Seq<char>) -> Seq<char> {
    if media == "audio"@ {
        msid
    } else if count_char(msid, ' ') == 1 {
        msid
    } else {
        msid + " "@ + msid + "-"@ + idx
    }
}

/// The fixed fields of an `a=candidate:` line, up to and including the type.
pub open spec fn candidate_head(c: Element) -> Seq<char> {
    "a=candidate:"@ + attr_or_empty(c, "foundation"@) + " "@ + attr_or_empty(c, "component"@)
        + " "@ + attr_or_empty(c, "protocol"@) + " "@ + attr_or_empty(c, "priority"@) + " "@
        + attr_or_empty(c, "ip"@) + " "@ + attr_or_empty(c, "port"@) + " typ "@ + attr_or_empty(
        c,
        "type"@,
    ) + " "@
}

/// The related address of a reflexive or relayed candidate, when both parts
/// of it are given.
pub open spec fn candidate_related(c: Element) -> Seq<char> {
    let kind = attr_or_empty(c, "type"@);
    let rel_addr = attr_or_empty(c, "rel-addr"@);
    let rel_port = attr_or_empty(c, "rel-port"@);
    if (kind == "srflx"@ || kind == "prflx"@ || kind == "relay"@) && rel_port.len() > 0
        && rel_addr.len() > 0 {
        "raddr "@ + rel_addr + " rport "@ + rel_port + " "@
    } else {
        seq![]
    }
}

/// The TCP type of a candidate whose protocol is TCP, in any case.
pub open spec fn candidate_tcp(c: Element) -> Seq<char> {
    if lowercase(attr_or_empty(c, "protocol"@)) == "tcp"@ {
        "tcptype "@ + attr_or_empty(c, "tcptype"@) + " "@
    } else {
        seq![]
    }
}

/// The `a=candidate:` line for one Jingle `<candidate>`.
pub open spec fn candidate_line(c: Element) -> Seq<char> {
    candidate_head(c) + candidate_related(c) + candidate_tcp(c) + "generation "@ + attr_or_empty(
        c,
        "generation"@,
    ) + "\r\n"@
}

/// The fingerprint lines for one `<fingerprint>`.
pub open spec fn fingerprint_lines(f: Element) -> Seq<char> {
    let setup = attr_or_empty(f, "setup"@);
    "a=fingerprint:"@ + attr_or_empty(f, "hash"@) + " "@ + (match text_of(f) {
        Some(t) => t,
        None => seq![],
    }) + "\r\n"@ + if setup.len() > 0 {
        "a=setup:"@ + setup + "\r\n"@
    } else {
        seq![]
    }
}

/// Concatenates `lines(x)` over a sequence.
pub open spec fn concat_map(s: Seq<Element>, lines: spec_fn(Element) -> Seq<char>) -> Seq<char>
    decreases s.len(),
{
    if s.len() == 0 {
        seq![]
    } else {
        concat_map(s.drop_last(), lines) + lines(s.last())
    }
}

/// The ICE and DTLS lines of a `<transport>`.
pub open spec fn transport_lines(t: Element) -> Seq<char> {
    "a=ice-ufrag:"@ + attr_or_empty(t, "ufrag"@) + "\r\n"@ + "a=ice-pwd:"@ + attr_or_empty(
        t,
        "pwd"@,
    ) + "\r\n"@ + concat_map(find_all_spec(Some(t), "fingerprint"@), |f| fingerprint_lines(f))
        + concat_map(find_all_spec(Some(t), "candidate"@), |c| candidate_line(c))
}

/// The `a=rtpmap:` line of a `<payload-type>`; channels are written when
/// present and not `1`.
pub open spec fn rtpmap_line(p: Element) -> Seq<char> {
    let channels = attr_or_empty(p, "channels"@);
    "a=rtpmap:"@ + attr_or_empty(p, "id"@) + " "@ + attr_or_empty(p, "name"@) + "/"@
        + attr_or_empty(p, "clockrate"@) + (if channels.len() > 0 && channels != "1"@ {
        "/"@ + channels
    } else {
        seq![]
    }) + "\r\n"@
}

/// One `<rtcp-fb>` of a payload type (or of the description, for `*`).
pub open spec fn rtcp_fb_line(fb: Element, attr: Seq<char>) -> Seq<char> {
    let subtype = attr_or_empty(fb, "subtype"@);
    "a=rtcp-fb:"@ + attr + " "@ + attr_or_empty(fb, "type"@) + (if subtype.len() > 0 {
        " "@ + subtype
    } else {
        seq![]
    }) + "\r\n"@
}

/// The feedback lines of an element: a `trr-int` line from the first
/// `<rtcp-fb-trr-int>`, then one line per `<rtcp-fb>`.
pub open spec fn rtcp_fb_lines(p: Element, attr: Seq<char>) -> Seq<char> {
    (match first_match(Some(p), "rtcp-fb-trr-int"@) {
        Some(t) => "a=rtcp-fb:* trr-int "@ + (match attr_value(t, "value"@) {
            Some(v) => v,
            None => "0"@,
        }) + "\r\n"@,
        None => seq![],
    }) + concat_map(find_all_spec(Some(p), "rtcp-fb"@), |fb| rtcp_fb_line(fb, attr))
}

/// One `name=value` (or bare value) entry of an `a=fmtp:` line.
pub open spec fn fmtp_param(p: Element) -> Seq<char> {
    let name = attr_or_empty(p, "name"@);
    if name.len() > 0 {
        name + "="@ + attr_or_empty(p, "value"@)
    } else {
        attr_or_empty(p, "value"@)
    }
}

/// The lines of one `<payload-type>`: rtpmap, fmtp when it has parameters,
/// then its feedback.
pub open spec fn payload_lines(p: Element) -> Seq<char> {
    let params = find_all_spec(Some(p), "parameter"@);
    let id = attr_or_empty(p, "id"@);
    rtpmap_line(p) + (if params.len() > 0 {
        "a=fmtp:"@ + id + " "@ + join_with(params.map_values(|x| fmtp_param(x)), ";"@) + "\r\n"@
    } else {
        seq![]
    }) + rtcp_fb_lines(p, id)
}

/// The `a=extmap:` line of an `<rtp-hdrext>`.
pub open spec fn extmap_line(h: Element) -> Seq<char> {
    "a=extmap:"@ + attr_or_empty(h, "id"@) + " "@ + attr_or_empty(h, "uri"@) + "\r\n"@
}

/// The SSRCs of the `<source>` children of an `<ssrc-group>`.
pub open spec fn group_ssrcs(kids: Seq<Element>) -> Seq<Seq<char>>
    decreases kids.len(),
{
    if kids.len() == 0 {
        seq![]
    } else {
        group_ssrcs(kids.drop_last()) + if name_is(kids.last(), "source"@) {
            seq![attr_or_empty(kids.last(), "ssrc"@)]
        } else {
            seq![]
        }
    }
}

/// The `a=ssrc-group:` line of an `<ssrc-group>`, when it lists sources.
pub open spec fn ssrc_group_line(g: Element) -> Seq<char> {
    let ssrcs = group_ssrcs(g.children@);
    if ssrcs.len() > 0 {
        "a=ssrc-group:"@ + attr_or_empty(g, "semantics"@) + " "@ + join_with(ssrcs, " "@)
            + "\r\n"@
    } else {
        seq![]
    }
}

/// The cleaned value of a source `<parameter>`, after msid adjustment.
pub open spec fn param_value(media: Seq<char>, mid: Seq<char>, p: Element) -> Seq<char> {
    let v = strip_noise(attr_or_empty(p, "value"@));
    if attr_or_empty(p, "name"@) == "msid"@ {
        adjusted_msid(media, v, mid)
    } else {
        v
    }
}

/// The `a=ssrc:` line of one parameter of a source.
pub open spec fn ssrc_param_line(media: Seq<char>, mid: Seq<char>, ssrc: Seq<char>, p: Element) -> Seq<
    char,
> {
    let v = param_value(media, mid, p);
    "a=ssrc:"@ + ssrc + " "@ + attr_or_empty(p, "name"@) + (if v.len() > 0 {
        ":"@ + v
    } else {
        seq![]
    }) + "\r\n"@
}

/// All `a=ssrc:` lines of one `<source>`.
pub open spec fn source_lines(media: Seq<char>, mid: Seq<char>, s: Element) -> Seq<char> {
    let ssrc = attr_or_empty(s, "ssrc"@);
    concat_map(find_all_spec(Some(s), "parameter"@), |p| ssrc_param_line(media, mid, ssrc, p))
}

/// A source belongs to the bridge's mixer, not to a user, when one of its
/// parameter values mentions `mixedmslabel`.
pub open spec fn is_mixer_source(media: Seq<char>, mid: Seq<char>, s: Element) -> bool {
    exists|i: int|
        0 <= i < find_all_spec(Some(s), "parameter"@).len() && contains_seq(
            param_value(media, mid, #[trigger] find_all_spec(Some(s), "parameter"@)[i]),
            "mixedmslabel"@,
        )
}

/// The source lines of the sources among `srcs` that are (`mixer`) or are not
/// the mixer's.
pub open spec fn sources_of_kind(
    media: Seq<char>,
    mid: Seq<char>,
    srcs: Seq<Element>,
    mixer: bool,
) -> Seq<char>
    decreases srcs.len(),
{
    if srcs.len() == 0 {
        seq![]
    } else {
        sources_of_kind(media, mid, srcs.drop_last(), mixer) + if is_mixer_source(
            media,
            mid,
            srcs.last(),
        ) == mixer {
            source_lines(media, mid, srcs.last())
        } else {
            seq![]
        }
    }
}

/// Everything a `<description>` contributes: codecs, session-wide feedback,
/// header extensions, SSRC groups, then the mixer's sources before the
/// users'.
pub open spec fn description_lines(media: Seq<char>, d: Element, mid: Seq<char>) -> Seq<char> {
    let srcs = find_all_spec(Some(d), "source"@);
    concat_map(find_all_spec(Some(d), "payload-type"@), |p| payload_lines(p)) + rtcp_fb_lines(
        d,
        "*"@,
    ) + concat_map(find_all_spec(Some(d), "rtp-hdrext"@), |h| extmap_line(h)) + (if any_match(
        Some(d),
        "extmap-allow-mixed"@,
    ) {
        "a=extmap-allow-mixed\r\n"@
    } else {
        seq![]
    }) + concat_map(find_all_spec(Some(d), "ssrc-group"@), |g| ssrc_group_line(g))
        + sources_of_kind(media, mid, srcs, true) + sources_of_kind(media, mid, srcs, false)
}

/// The direction line for a content's `senders`.
pub open spec fn senders_line(senders: Seq<char>) -> Seq<char> {
    if senders == "initiator"@ {
        "a=recvonly\r\n"@
    } else if senders == "responder"@ {
        "a=sendonly\r\n"@
    } else if senders == "none"@ {
        "a=inactive\r\n"@
    } else if senders == "both"@ {
        "a=sendrecv\r\n"@
    } else {
        seq![]
    }
}

/// The port of a content: `0` when it was rejected, `9` otherwise.
pub open spec fn port_for(senders: Seq<char>) -> Seq<char> {
    if senders == "rejected"@ {
        "0"@
    } else {
        "9"@
    }
}

/// The payload ids of a description, skipping empty ones.
pub open spec fn payload_ids(pts: Seq<Element>) -> Seq<Seq<char>>
    decreases pts.len(),
{
    if pts.len() == 0 {
        seq![]
    } else {
        payload_ids(pts.drop_last()) + if attr_or_empty(pts.last(), "id"@).len() > 0 {
            seq![attr_or_empty(pts.last(), "id"@)]
        } else {
            seq![]
        }
    }
}

/// The m-line protocol: SCTP over DTLS for a data channel with a
/// fingerprint, RTP over DTLS otherwise.
pub open spec fn proto_for(fingerprint: bool, sctp: bool) -> Seq<char> {
    if fingerprint && sctp {
        "UDP/DTLS/SCTP"@
    } else {
        "UDP/TLS/RTP/SAVPF"@
    }
}

/// The `transport` of a content.
pub open spec fn content_transport(content: Element) -> Option<Element> {
    first_match(Some(content), "transport"@)
}

/// The `sctpmap` of a content's transport, present for a data channel.
pub open spec fn content_sctp(content: Element) -> Option<Element> {
    first_match(content_transport(content), "sctpmap"@)
}

/// The `description` of a content.
pub open spec fn content_description(content: Element) -> Option<Element> {
    first_match(Some(content), "description"@)
}

/// The m-line of a content (with the SCTP attributes for a data channel).
pub open spec fn media_line(content: Element) -> Seq<char> {
    let port = port_for(attr_or_empty(content, "senders"@));
    match content_sctp(content) {
        Some(s) => "m=application "@ + port + " UDP/DTLS/SCTP webrtc-datachannel\r\n"@ + (
        match attr_value(s, "number"@) {
            Some(num) => "a=sctp-port:"@ + num + "\r\n"@ + "a=max-message-size:262144\r\n"@,
            None => seq![],
        }),
        None => "m="@ + attr_or_empty(content, "name"@) + " "@ + port + " "@ + proto_for(
            any_match(content_transport(content), "fingerprint"@),
            false,
        ) + " "@ + join_with(
            payload_ids(find_all_spec(content_description(content), "payload-type"@)),
            " "@,
        ) + "\r\n"@,
    }
}

/// The SDP media section for one Jingle `<content>`.
pub open spec fn media_section(content: Element) -> Seq<char> {
    let name = attr_or_empty(content, "name"@);
    let desc = content_description(content);
    media_line(content) + "c=IN IP4 0.0.0.0\r\n"@ + (if content_sctp(content).is_none() {
        "a=rtcp:1 IN IP4 0.0.0.0\r\n"@
    } else {
        seq![]
    }) + (match content_transport(content) {
        Some(t) => transport_lines(t),
        None => seq![],
    }) + senders_line(attr_or_empty(content, "senders"@)) + "a=mid:"@ + name + "\r\n"@ + (
    if any_match(desc, "rtcp-mux"@) {
        "a=rtcp-mux\r\n"@
    } else {
        seq![]
    }) + (match desc {
        Some(d) => description_lines(name, d, name),
        None => seq![],
    })
}

proof fn lemma_join_step(parts: Seq<Seq<char>>, sep: Seq<char>, i: int)
    requires
        0 <= i < parts.len(),
    ensures
        join_with(parts.take(i + 1), sep) == join_with(parts.take(i), sep) + (if i > 0 {
            sep
        } else {
            seq![]
        }) + parts[i],
{
    assert(parts.take(i + 1).drop_last() =~= parts.take(i));
    if i == 0 {
        assert(join_with(parts.take(1), sep) == parts.take(1)[0]);
        assert(join_with(parts.take(0), sep) =~= Seq::<char>::empty());
        assert(Seq::<char>::empty() + Seq::<char>::empty() + parts[0] =~= parts[0]);
    }
}

/// Appends `parts` joined with `sep`.
fn push_joined(out: &mut Vec<char>, parts: &Vec<Vec<char>>, sep: &str)
    ensures
        final(out)@ == old(out)@ + join_with(crate::text::seq_views(parts@), sep@),
{
    let ghost ps = crate::text::seq_views(parts@);
    let ghost start = out@;
    let mut i: usize = 0;
    assert(ps.take(0) =~= Seq::<Seq<char>>::empty());
    assert(out@ =~= start + join_with(ps.take(0), sep@));
    while i < parts.len()
        invariant
            i <= parts@.len(),
            ps == crate::text::seq_views(parts@),
            out@ == start + join_with(ps.take(i as int), sep@),
        decreases parts@.len() - i,
    {
        proof {
            lemma_join_step(ps, sep@, i as int);
        }
        if i > 0 {
            push_str(out, sep);
        }
        push_chars(out, parts[i].as_slice());
        assert(out@ =~= start + join_with(ps.take(i + 1), sep@));
        i += 1;
    }
    assert(ps.take(i as int) =~= ps);
}

proof fn lemma_concat_map_step(s: Seq<Element>, lines: spec_fn(Element) -> Seq<char>, i: int)
    requires
        0 <= i < s.len(),
    ensures
        concat_map(s.take(i + 1), lines) == concat_map(s.take(i), lines) + lines(s[i]),
{
    assert(s.take(i + 1).drop_last() =~= s.take(i));
}

/// Keeps every character of `s` that may appear in an msid.
fn strip_noise_exec(s: &[char]) -> (r: Vec<char>)
    ensures
        r@ == strip_noise(s@),
{
    let mut r: Vec<char> = Vec::new();
    let mut i: usize = 0;
    while i < s.len()
        invariant
            i <= s.len(),
            r@ == strip_noise(s@.take(i as int)),
        decreases s.len() - i,
    {
        assert(s@.take(i + 1).drop_last() =~= s@.take(i as int));
        let c = s[i];
        if !(c == '\\' || c == '/' || c == '{' || c == '}' || c == ',' || c == '+') {
            r.push(c);
        }
        assert(r@ =~= strip_noise(s@.take(i + 1)));
        i += 1;
    }
    assert(s@.take(i as int) =~= s@);
    r
}

fn count_spaces(s: &[char]) -> (n: usize)
    ensures
        n == count_char(s@, ' '),
{
    let mut n: usize = 0;
    let mut i: usize = 0;
    while i < s.len()
        invariant
            i <= s.len(),
            n == count_char(s@.take(i as int), ' '),
            n <= i,
        decreases s.len() - i,
    {
        assert(s@.take(i + 1).drop_last() =~= s@.take(i as int));
        if s[i] == ' ' {
            n += 1;
        }
        i += 1;
    }
    assert(s@.take(i as int) =~= s@);
    n
}

/// Codec and transport state of the content being converted; each field
/// is set from the content's attributes as the section is written.
#[derive(Debug)]
pub struct JingleMedia {
    pub media: String,
    pub port: String,
    pub proto: String,
    pub fmt: Vec<String>,
}

impl JingleMedia {
    pub fn new() -> (r: Self)
        ensures
            r.media@ == Seq::<char>::empty(),
            r.port@ == Seq::<char>::empty(),
            r.proto@ == Seq::<char>::empty(),
            r.fmt@.len() == 0,
    {
        JingleMedia {
            media: String::new(),
            port: String::new(),
            proto: String::new(),
            fmt: Vec::new(),
        }
    }

    fn set_media(&mut self, attr: &[char])
        ensures
            final(self).media@ == attr@,
            final(self).port == old(self).port,
            final(self).proto == old(self).proto,
            final(self).fmt == old(self).fmt,
    {
        self.media = string_from_chars(attr);
    }

    fn set_port(&mut self, attr: &[char])
        ensures
            final(self).port@ == port_for(attr@),
            final(self).media == old(self).media,
            final(self).proto == old(self).proto,
            final(self).fmt == old(self).fmt,
    {
        if attr.len() > 0 && chars_eq_str(attr, "rejected") {
            self.port = String::from_str("0");
        } else {
            proof {
                reveal_strlit("rejected");
            }
            self.port = String::from_str("9");
        }
    }

    fn set_proto(&mut self, fingerprint_exist: bool, sctp: bool)
        ensures
            final(self).proto@ == proto_for(fingerprint_exist, sctp),
            final(self).media == old(self).media,
            final(self).port == old(self).port,
            final(self).fmt == old(self).fmt,
    {
        if fingerprint_exist && sctp {
            self.proto = String::from_str("UDP/DTLS/SCTP");
        } else {
            self.proto = String::from_str("UDP/TLS/RTP/SAVPF");
        }
    }

    fn set_fmt(&mut self, fmt: Vec<String>)
        ensures
            final(self).fmt == fmt,
            final(self).media == old(self).media,
            final(self).port == old(self).port,
            final(self).proto == old(self).proto,
    {
        self.fmt = fmt;
    }

    /// The msid of a video source in `<stream> <track>` form: an msid that
    /// already has exactly one space (or any audio msid) is kept, otherwise
    /// the track is named `<msid>-<idx>`.
    pub fn adjust_msid_semantic(&self, msid: &str, idx: &str) -> (r: String)
        ensures
            r@ == adjusted_msid(self.media@, msid@, idx@),
    {
        let media = chars_of(self.media.as_str());
        if chars_eq_str(media.as_slice(), "audio") {
            return String::from_str(msid);
        }
        let m = chars_of(msid);
        if count_spaces(m.as_slice()) == 1 {
            return String::from_str(msid);
        }
        let mut out: Vec<char> = Vec::new();
        push_chars(&mut out, m.as_slice());
        push_str(&mut out, " ");
        push_chars(&mut out, m.as_slice());
        push_str(&mut out, "-");
        push_str(&mut out, idx);
        assert(out@ =~= msid@ + " "@ + msid@ + "-"@ + idx@);
        string_from_chars(out.as_slice())
    }

    fn push_candidate_head(c: &Element, out: &mut Vec<char>)
        ensures
            final(out)@ == old(out)@ + candidate_head(*c),
    {
        let ghost start = out@;
        let foundation = c.attr_or_empty("foundation");
        let component = c.attr_or_empty("component");
        let protocol = c.attr_or_empty("protocol");
        let priority = c.attr_or_empty("priority");
        push_str(out, "a=candidate:");
        push_chars(out, foundation.as_slice());
        push_str(out, " ");
        push_chars(out, component.as_slice());
        push_str(out, " ");
        push_chars(out, protocol.as_slice());
        push_str(out, " ");
        push_chars(out, priority.as_slice());
        push_str(out, " ");
        let ghost half = out@;
        assert(half =~= start + "a=candidate:"@ + foundation@ + " "@ + component@ + " "@
            + protocol@ + " "@ + priority@ + " "@);
        let ip = c.attr_or_empty("ip");
        let port = c.attr_or_empty("port");
        let kind = c.attr_or_empty("type");
        push_chars(out, ip.as_slice());
        push_str(out, " ");
        push_chars(out, port.as_slice());
        push_str(out, " typ ");
        push_chars(out, kind.as_slice());
        push_str(out, " ");
        assert(out@ =~= half + ip@ + " "@ + port@ + " typ "@ + kind@ + " "@);
        assert(out@ =~= start + candidate_head(*c));
    }

    fn push_candidate(&self, c: &Element, out: &mut Vec<char>)
        ensures
            final(out)@ == old(out)@ + candidate_line(*c),
    {
        let ghost start = out@;
        Self::push_candidate_head(c, out);
        let ghost mid1 = out@;
        let kind = c.attr_or_empty("type");
        let rel_addr = c.attr_or_empty("rel-addr");
        let rel_port = c.attr_or_empty("rel-port");
        let k = kind.as_slice();
        if (chars_eq_str(k, "srflx") || chars_eq_str(k, "prflx") || chars_eq_str(k, "relay"))
            && rel_port.len() > 0 && rel_addr.len() > 0 {
            push_str(out, "raddr ");
            push_chars(out, rel_addr.as_slice());
            push_str(out, " rport ");
            push_chars(out, rel_port.as_slice());
            push_str(out, " ");
        }
        assert(out@ =~= mid1 + candidate_related(*c));
        let ghost mid2 = out@;
        let protocol = c.attr_or_empty("protocol");
        let proto_string = string_from_chars(protocol.as_slice());
        let lower = to_lowercase(proto_string.as_str());
        let lower_chars = chars_of(lower.as_str());
        if chars_eq_str(lower_chars.as_slice(), "tcp") {
            let tcp_type = c.attr_or_empty("tcptype");
            push_str(out, "tcptype ");
            push_chars(out, tcp_type.as_slice());
            push_str(out, " ");
        }
        assert(out@ =~= mid2 + candidate_tcp(*c));
        let ghost mid3 = out@;
        let generation = c.attr_or_empty("generation");
        push_str(out, "generation ");
        push_chars(out, generation.as_slice());
        push_str(out, "\r\n");
        assert(out@ =~= mid3 + "generation "@ + generation@ + "\r\n"@);
        assert(out@ =~= start + candidate_line(*c));
    }

    fn push_fingerprint(&self, f: &Element, out: &mut Vec<char>)
        ensures
            final(out)@ == old(out)@ + fingerprint_lines(*f),
    {
        let ghost start = out@;
        let hash = f.attr_or_empty("hash");
        let setup = f.attr_or_empty("setup");
        push_str(out, "a=fingerprint:");
        push_chars(out, hash.as_slice());
        push_str(out, " ");
        match f.get_text() {
            Some(t) => push_str(out, t.as_str()),
            None => {},
        }
        push_str(out, "\r\n");
        if setup.len() > 0 {
            push_str(out, "a=setup:");
            push_chars(out, setup.as_slice());
            push_str(out, "\r\n");
        }
        assert(out@ =~= start + fingerprint_lines(*f));
    }

    fn push_transport(&self, t: &Element, out: &mut Vec<char>)
        ensures
            final(out)@ == old(out)@ + transport_lines(*t),
    {
        let ghost start = out@;
        let ufrag = t.attr_or_empty("ufrag");
        let pwd = t.attr_or_empty("pwd");
        push_str(out, "a=ice-ufrag:");
        push_chars(out, ufrag.as_slice());
        push_str(out, "\r\n");
        push_str(out, "a=ice-pwd:");
        push_chars(out, pwd.as_slice());
        push_str(out, "\r\n");
        let ghost after_ice = out@;
        let fps = find_all(Some(t), "fingerprint");
        let ghost fs = crate::xml::derefs(fps@);
        let mut i: usize = 0;
        assert(fs.take(0) =~= Seq::<Element>::empty());
        while i < fps.len()
            invariant
                i <= fps@.len(),
                fs == crate::xml::derefs(fps@),
                out@ == after_ice + concat_map(fs.take(i as int), |f| fingerprint_lines(f)),
            decreases fps@.len() - i,
        {
            proof {
                lemma_concat_map_step(fs, |f| fingerprint_lines(f), i as int);
            }
            self.push_fingerprint(fps[i], out);
            i += 1;
        }
        assert(fs.take(i as int) =~= fs);
        let ghost after_fp = out@;
        let cands = find_all(Some(t), "candidate");
        let ghost cs = crate::xml::derefs(cands@);
        let mut j: usize = 0;
        assert(cs.take(0) =~= Seq::<Element>::empty());
        while j < cands.len()
            invariant
                j <= cands@.len(),
                cs == crate::xml::derefs(cands@),
                out@ == after_fp + concat_map(cs.take(j as int), |c| candidate_line(c)),
            decreases cands@.len() - j,
        {
            proof {
                lemma_concat_map_step(cs, |c| candidate_line(c), j as int);
            }
            self.push_candidate(cands[j], out);
            j += 1;
        }
        assert(cs.take(j as int) =~= cs);
        assert(out@ =~= start + transport_lines(*t));
    }

    fn push_senders(&self, senders: &[char], out: &mut Vec<char>)
        ensures
            final(out)@ == old(out)@ + senders_line(senders@),
    {
        if chars_eq_str(senders, "initiator") {
            push_str(out, "a=recvonly\r\n");
        } else if chars_eq_str(senders, "responder") {
            push_str(out, "a=sendonly\r\n");
        } else if chars_eq_str(senders, "none") {
            push_str(out, "a=inactive\r\n");
        } else if chars_eq_str(senders, "both") {
            push_str(out, "a=sendrecv\r\n");
        } else {
            assert(out@ =~= old(out)@ + senders_line(senders@));
        }
    }

    fn push_rtp_map(&self, p: &Element, out: &mut Vec<char>)
        ensures
            final(out)@ == old(out)@ + rtpmap_line(*p),
    {
        let ghost start = out@;
        let id = p.attr_or_empty("id");
        let name = p.attr_or_empty("name");
        let clockrate = p.attr_or_empty("clockrate");
        let channels = p.attr_or_empty("channels");
        push_str(out, "a=rtpmap:");
        push_chars(out, id.as_slice());
        push_str(out, " ");
        push_chars(out, name.as_slice());
        push_str(out, "/");
        push_chars(out, clockrate.as_slice());
        if channels.len() > 0 && !chars_eq_str(channels.as_slice(), "1") {
            push_str(out, "/");
            push_chars(out, channels.as_slice());
        }
        push_str(out, "\r\n");
        assert(out@ =~= start + rtpmap_line(*p));
    }

    fn push_rtcp_fb(&self, p: &Element, attr: &[char], out: &mut Vec<char>)
        ensures
            final(out)@ == old(out)@ + rtcp_fb_lines(*p, attr@),
    {
        let ghost start = out@;
        match find_first(Some(p), "rtcp-fb-trr-int") {
            Some(t) => {
                push_str(out, "a=rtcp-fb:* trr-int ");
                match t.get_attribute("value") {
                    Some(v) => push_str(out, v.as_str()),
                    None => push_str(out, "0"),
                }
                push_str(out, "\r\n");
            },
            None => {},
        }
        let ghost after_trr = out@;
        let fbs = find_all(Some(p), "rtcp-fb");
        let ghost fs = crate::xml::derefs(fbs@);
        let mut i: usize = 0;
        assert(fs.take(0) =~= Seq::<Element>::empty());
        while i < fbs.len()
            invariant
                i <= fbs@.len(),
                fs == crate::xml::derefs(fbs@),
                out@ == after_trr + concat_map(fs.take(i as int), |fb| rtcp_fb_line(fb, attr@)),
            decreases fbs@.len() - i,
        {
            proof {
                lemma_concat_map_step(fs, |fb| rtcp_fb_line(fb, attr@), i as int);
            }
            let fb = fbs[i];
            let ghost before = out@;
            let kind = fb.attr_or_empty("type");
            let subtype = fb.attr_or_empty("subtype");
            push_str(out, "a=rtcp-fb:");
            push_chars(out, attr);
            push_str(out, " ");
            push_chars(out, kind.as_slice());
            if subtype.len() > 0 {
                push_str(out, " ");
                push_chars(out, subtype.as_slice());
            }
            push_str(out, "\r\n");
            assert(out@ =~= before + rtcp_fb_line(*fb, attr@));
            i += 1;
        }
        assert(fs.take(i as int) =~= fs);
        assert(out@ =~= start + rtcp_fb_lines(*p, attr@));
    }

    fn push_payload(&self, p: &Element, out: &mut Vec<char>)
        ensures
            final(out)@ == old(out)@ + payload_lines(*p),
    {
        let ghost start = out@;
        self.push_rtp_map(p, out);
        let params = find_all(Some(p), "parameter");
        let id = p.attr_or_empty("id");
        let ghost ps = crate::xml::derefs(params@);
        let ghost after_map = out@;
        if params.len() > 0 {
            push_str(out, "a=fmtp:");
            push_chars(out, id.as_slice());
            push_str(out, " ");
            let mut texts: Vec<Vec<char>> = Vec::new();
            let mut i: usize = 0;
            while i < params.len()
                invariant
                    i <= params@.len(),
                    ps == crate::xml::derefs(params@),
                    crate::text::seq_views(texts@) =~= ps.take(i as int).map_values(
                        |x| fmtp_param(x),
                    ),
                decreases params@.len() - i,
            {
                let prm = params[i];
                let name = prm.attr_or_empty("name");
                let value = prm.attr_or_empty("value");
                let mut t: Vec<char> = Vec::new();
                if name.len() > 0 {
                    push_chars(&mut t, name.as_slice());
                    push_str(&mut t, "=");
                    push_chars(&mut t, value.as_slice());
                } else {
                    push_chars(&mut t, value.as_slice());
                }
                assert(t@ =~= fmtp_param(*prm));
                let ghost old_texts = crate::text::seq_views(texts@);
                texts.push(t);
                assert(crate::text::seq_views(texts@) =~= old_texts.push(t@));
                assert(ps.take(i + 1).map_values(|x| fmtp_param(x)) =~= ps.take(
                    i as int,
                ).map_values(|x| fmtp_param(x)).push(fmtp_param(ps[i as int])));
                i += 1;
            }
            assert(ps.take(i as int) =~= ps);
            push_joined(out, &texts, ";");
            push_str(out, "\r\n");
        }
        let ghost after_fmtp = out@;
        self.push_rtcp_fb(p, id.as_slice(), out);
        assert(out@ =~= start + payload_lines(*p));
    }

    fn push_ssrc_group(&self, g: &Element, out: &mut Vec<char>)
        ensures
            final(out)@ == old(out)@ + ssrc_group_line(*g),
    {
        let ghost start = out@;
        let semantics = g.attr_or_empty("semantics");
        let mut ssrcs: Vec<Vec<char>> = Vec::new();
        let source_name = chars_of("source");
        let mut i: usize = 0;
        assert(g.children@.take(0) =~= Seq::<Element>::empty());
        while i < g.children.len()
            invariant
                i <= g.children@.len(),
                source_name@ == "source"@,
                crate::text::seq_views(ssrcs@) == group_ssrcs(g.children@.take(i as int)),
            decreases g.children@.len() - i,
        {
            assert(g.children@.take(i + 1).drop_last() =~= g.children@.take(i as int));
            let child = &g.children[i];
            if child.is_named(source_name.as_slice()) {
                let s = child.attr_or_empty("ssrc");
                let ghost old_views = crate::text::seq_views(ssrcs@);
                ssrcs.push(s);
                assert(crate::text::seq_views(ssrcs@) =~= old_views + seq![s@]);
            } else {
                assert(crate::text::seq_views(ssrcs@) =~= crate::text::seq_views(ssrcs@) + Seq::<
                    Seq<char>,
                >::empty());
            }
            i += 1;
        }
        assert(g.children@.take(i as int) =~= g.children@);
        if ssrcs.len() > 0 {
            push_str(out, "a=ssrc-group:");
            push_chars(out, semantics.as_slice());
            push_str(out, " ");
            push_joined(out, &ssrcs, " ");
            push_str(out, "\r\n");
        }
        assert(out@ =~= start + ssrc_group_line(*g));
    }

    /// The value a source parameter carries into SDP.
    fn source_param_value(&self, prm: &Element, mid: &str) -> (r: Vec<char>)
        ensures
            r@ == param_value(self.media@, mid@, *prm),
    {
        let name = prm.attr_or_empty("name");
        let raw = prm.attr_or_empty("value");
        let cleaned = strip_noise_exec(raw.as_slice());
        if chars_eq_str(name.as_slice(), "msid") {
            let cs = string_from_chars(cleaned.as_slice());
            let adj = self.adjust_msid_semantic(cs.as_str(), mid);
            chars_of(adj.as_str())
        } else {
            cleaned
        }
    }

    /// Writes the `a=ssrc:` line of one source parameter and returns its value.
    fn push_ssrc_param_line(&self, ssrc: &[char], prm: &Element, mid: &str, out: &mut Vec<char>) -> (r: Vec<char>)
        ensures
            r@ == param_value(self.media@, mid@, *prm),
            final(out)@ == old(out)@ + ssrc_param_line(self.media@, mid@, ssrc@, *prm),
    {
        let ghost start = out@;
        let value = self.source_param_value(prm, mid);
        let name = prm.attr_or_empty("name");
        push_str(out, "a=ssrc:");
        push_chars(out, ssrc);
        push_str(out, " ");
        push_chars(out, name.as_slice());
        if value.len() > 0 {
            push_str(out, ":");
            push_chars(out, value.as_slice());
        }
        push_str(out, "\r\n");
        assert(out@ =~= start + ssrc_param_line(self.media@, mid@, ssrc@, *prm));
        value
    }

    /// The `a=ssrc:` lines of one source, and whether it is the mixer's.
    fn source_block(&self, s: &Element, mid: &str) -> (r: (Vec<char>, bool))
        ensures
            r.0@ == source_lines(self.media@, mid@, *s),
            r.1 == is_mixer_source(self.media@, mid@, *s),
    {
        let ssrc = s.attr_or_empty("ssrc");
        let params = find_all(Some(s), "parameter");
        let ghost ps = crate::xml::derefs(params@);
        let mixed = chars_of("mixedmslabel");
        let mut is_mixer = false;
        let mut block: Vec<char> = Vec::new();
        let mut i: usize = 0;
        assert(ps.take(0) =~= Seq::<Element>::empty());
        while i < params.len()
            invariant
                i <= params@.len(),
                ps == crate::xml::derefs(params@),
                ps == find_all_spec(Some(*s), "parameter"@),
                mixed@ == "mixedmslabel"@,
                ssrc@ == attr_or_empty(*s, "ssrc"@),
                block@ == concat_map(
                    ps.take(i as int),
                    |p| ssrc_param_line(self.media@, mid@, ssrc@, p),
                ),
                is_mixer == exists|k: int|
                    0 <= k < i && contains_seq(
                        param_value(self.media@, mid@, #[trigger] ps[k]),
                        "mixedmslabel"@,
                    ),
            decreases params@.len() - i,
        {
            proof {
                lemma_concat_map_step(
                    ps,
                    |p| ssrc_param_line(self.media@, mid@, ssrc@, p),
                    i as int,
                );
            }
            let prm = params[i];
            let value = self.push_ssrc_param_line(ssrc.as_slice(), prm, mid, &mut block);
            if contains_chars(value.as_slice(), mixed.as_slice()) {
                is_mixer = true;
            }
            i += 1;
        }
        assert(ps.take(i as int) =~= ps);
        (block, is_mixer)
    }

    fn push_codecs(&self, d: &Element, out: &mut Vec<char>)
        ensures
            final(out)@ == old(out)@ + concat_map(
                find_all_spec(Some(*d), "payload-type"@),
                |p| payload_lines(p),
            ),
    {
        let ghost start = out@;
        let pts = find_all(Some(d), "payload-type");
        let ghost ps = crate::xml::derefs(pts@);
        let mut i: usize = 0;
        assert(ps.take(0) =~= Seq::<Element>::empty());
        while i < pts.len()
            invariant
                i <= pts@.len(),
                ps == crate::xml::derefs(pts@),
                out@ == start + concat_map(ps.take(i as int), |p| payload_lines(p)),
            decreases pts@.len() - i,
        {
            proof {
                lemma_concat_map_step(ps, |p| payload_lines(p), i as int);
            }
            self.push_payload(pts[i], out);
            i += 1;
        }
        assert(ps.take(i as int) =~= ps);
    }

    fn push_extmaps(&self, d: &Element, out: &mut Vec<char>)
        ensures
            final(out)@ == old(out)@ + concat_map(
                find_all_spec(Some(*d), "rtp-hdrext"@),
                |h| extmap_line(h),
            ),
    {
        let ghost start = out@;
        let hdrs = find_all(Some(d), "rtp-hdrext");
        let ghost hs = crate::xml::derefs(hdrs@);
        let mut j: usize = 0;
        assert(hs.take(0) =~= Seq::<Element>::empty());
        while j < hdrs.len()
            invariant
                j <= hdrs@.len(),
                hs == crate::xml::derefs(hdrs@),
                out@ == start + concat_map(hs.take(j as int), |h| extmap_line(h)),
            decreases hdrs@.len() - j,
        {
            proof {
                lemma_concat_map_step(hs, |h| extmap_line(h), j as int);
            }
            let h = hdrs[j];
            let ghost before = out@;
            let id = h.attr_or_empty("id");
            let uri = h.attr_or_empty("uri");
            push_str(out, "a=extmap:");
            push_chars(out, id.as_slice());
            push_str(out, " ");
            push_chars(out, uri.as_slice());
            push_str(out, "\r\n");
            assert(out@ =~= before + extmap_line(*h));
            j += 1;
        }
        assert(hs.take(j as int) =~= hs);
    }

    fn push_groups(&self, d: &Element, out: &mut Vec<char>)
        ensures
            final(out)@ == old(out)@ + concat_map(
                find_all_spec(Some(*d), "ssrc-group"@),
                |g| ssrc_group_line(g),
            ),
    {
        let ghost start = out@;
        let groups = find_all(Some(d), "ssrc-group");
        let ghost gs = crate::xml::derefs(groups@);
        let mut k: usize = 0;
        assert(gs.take(0) =~= Seq::<Element>::empty());
        while k < groups.len()
            invariant
                k <= groups@.len(),
                gs == crate::xml::derefs(groups@),
                out@ == start + concat_map(gs.take(k as int), |g| ssrc_group_line(g)),
            decreases groups@.len() - k,
        {
            proof {
                lemma_concat_map_step(gs, |g| ssrc_group_line(g), k as int);
            }
            self.push_ssrc_group(groups[k], out);
            k += 1;
        }
        assert(gs.take(k as int) =~= gs);
    }

    fn push_sources(&self, d: &Element, mid: &str, out: &mut Vec<char>)
        ensures
            final(out)@ == old(out)@ + sources_of_kind(
                self.media@,
                mid@,
                find_all_spec(Some(*d), "source"@),
                true,
            ) + sources_of_kind(self.media@, mid@, find_all_spec(Some(*d), "source"@), false),
    {
        let srcs = find_all(Some(d), "source");
        let ghost ss = crate::xml::derefs(srcs@);
        let mut user_sources: Vec<char> = Vec::new();
        let mut mixer_sources: Vec<char> = Vec::new();
        let mut m: usize = 0;
        assert(ss.take(0) =~= Seq::<Element>::empty());
        while m < srcs.len()
            invariant
                m <= srcs@.len(),
                ss == crate::xml::derefs(srcs@),
                user_sources@ == sources_of_kind(self.media@, mid@, ss.take(m as int), false),
                mixer_sources@ == sources_of_kind(self.media@, mid@, ss.take(m as int), true),
            decreases srcs@.len() - m,
        {
            assert(ss.take(m + 1).drop_last() =~= ss.take(m as int));
            let (block, is_mixer) = self.source_block(srcs[m], mid);
            if is_mixer {
                push_chars(&mut mixer_sources, block.as_slice());
                assert(user_sources@ =~= user_sources@ + Seq::<char>::empty());
            } else {
                push_chars(&mut user_sources, block.as_slice());
                assert(mixer_sources@ =~= mixer_sources@ + Seq::<char>::empty());
            }
            m += 1;
        }
        assert(ss.take(m as int) =~= ss);
        push_chars(out, mixer_sources.as_slice());
        push_chars(out, user_sources.as_slice());
    }

    fn push_description(&self, d: &Element, mid: &str, out: &mut Vec<char>)
        ensures
            final(out)@ == old(out)@ + description_lines(self.media@, *d, mid@),
    {
        let ghost start = out@;
        self.push_codecs(d, out);
        let star = chars_of("*");
        self.push_rtcp_fb(d, star.as_slice(), out);
        self.push_extmaps(d, out);
        if has_match(Some(d), "extmap-allow-mixed") {
            push_str(out, "a=extmap-allow-mixed\r\n");
        }
        self.push_groups(d, out);
        self.push_sources(d, mid, out);
        assert(out@ =~= start + description_lines(self.media@, *d, mid@));
    }

    /// Sets the media name, port, protocol and payload ids from a content,
    /// and writes its m-line.
    fn push_media_line(&mut self, stanza: &Element, out: &mut Vec<char>)
        ensures
            final(out)@ == old(out)@ + media_line(*stanza),
            final(self).media@ == attr_or_empty(*stanza, "name"@),
            final(self).port@ == port_for(attr_or_empty(*stanza, "senders"@)),
            final(self).proto@ == proto_for(
                any_match(content_transport(*stanza), "fingerprint"@),
                content_sctp(*stanza).is_some(),
            ),
            content_sctp(*stanza).is_none() ==> final(self).fmt@.map_values(|s: String| s@)
                == payload_ids(find_all_spec(content_description(*stanza), "payload-type"@)),
            content_sctp(*stanza).is_some() ==> final(self).fmt == old(self).fmt,
    {
        let ghost start = out@;
        let desc = find_first(Some(stanza), "description");
        let transport = find_first(Some(stanza), "transport");
        let sctp = find_first(transport, "sctpmap");
        let name = stanza.attr_or_empty("name");
        let senders = stanza.attr_or_empty("senders");
        self.set_media(name.as_slice());
        self.set_port(senders.as_slice());
        let find_exists = has_match(transport, "fingerprint");
        self.set_proto(find_exists, sctp.is_some());
        match sctp {
            Some(s) => {
                push_str(out, "m=application ");
                push_str(out, self.port.as_str());
                push_str(out, " UDP/DTLS/SCTP webrtc-datachannel\r\n");
                match s.get_attribute("number") {
                    Some(num) => {
                        push_str(out, "a=sctp-port:");
                        push_str(out, num.as_str());
                        push_str(out, "\r\n");
                        push_str(out, "a=max-message-size:262144\r\n");
                    },
                    None => {},
                }
                assert(out@ =~= start + media_line(*stanza));
            },
            None => {
                let pts = find_all(desc, "payload-type");
                let ghost ps = crate::xml::derefs(pts@);
                let mut ids: Vec<Vec<char>> = Vec::new();
                let mut fmt: Vec<String> = Vec::new();
                let mut i: usize = 0;
                assert(ps.take(0) =~= Seq::<Element>::empty());
                while i < pts.len()
                    invariant
                        i <= pts@.len(),
                        ps == crate::xml::derefs(pts@),
                        crate::text::seq_views(ids@) == payload_ids(ps.take(i as int)),
                        fmt@.map_values(|s: String| s@) == crate::text::seq_views(ids@),
                    decreases pts@.len() - i,
                {
                    assert(ps.take(i + 1).drop_last() =~= ps.take(i as int));
                    let id = pts[i].attr_or_empty("id");
                    if id.len() > 0 {
                        let ghost old_views = crate::text::seq_views(ids@);
                        let id_string = string_from_chars(id.as_slice());
                        fmt.push(id_string);
                        ids.push(id);
                        assert(crate::text::seq_views(ids@) =~= old_views + seq![id@]);
                        assert(fmt@.map_values(|s: String| s@) =~= crate::text::seq_views(ids@));
                    } else {
                        assert(crate::text::seq_views(ids@) =~= crate::text::seq_views(ids@)
                            + Seq::<Seq<char>>::empty());
                    }
                    i += 1;
                }
                assert(ps.take(i as int) =~= ps);
                self.set_fmt(fmt);
                push_str(out, "m=");
                push_str(out, self.media.as_str());
                push_str(out, " ");
                push_str(out, self.port.as_str());
                push_str(out, " ");
                push_str(out, self.proto.as_str());
                push_str(out, " ");
                let ghost before_ids = out@;
                push_joined(out, &ids, " ");
                push_str(out, "\r\n");
                assert(out@ =~= start + media_line(*stanza));
            },
        }
    }

    /// Converts one Jingle `<content>` into its SDP media section, and
    /// records the content's media name, port, protocol and (for RTP) payload
    /// ids.
    pub fn parse_sdp_media(&mut self, stanza: &Element) -> (r: String)
        ensures
            r@ == media_section(*stanza),
            final(self).media@ == attr_or_empty(*stanza, "name"@),
            final(self).port@ == port_for(attr_or_empty(*stanza, "senders"@)),
            final(self).proto@ == proto_for(
                any_match(content_transport(*stanza), "fingerprint"@),
                content_sctp(*stanza).is_some(),
            ),
            content_sctp(*stanza).is_none() ==> final(self).fmt@.map_values(|s: String| s@)
                == payload_ids(find_all_spec(content_description(*stanza), "payload-type"@)),
            content_sctp(*stanza).is_some() ==> final(self).fmt == old(self).fmt,
    {
        let mut out: Vec<char> = Vec::new();
        self.push_media_line(stanza, &mut out);
        let ghost after_m = out@;
        let desc = find_first(Some(stanza), "description");
        let transport = find_first(Some(stanza), "transport");
        let sctp = find_first(transport, "sctpmap");
        let name = stanza.attr_or_empty("name");
        let senders = stanza.attr_or_empty("senders");
        push_str(&mut out, "c=IN IP4 0.0.0.0\r\n");
        if sctp.is_none() {
            push_str(&mut out, "a=rtcp:1 IN IP4 0.0.0.0\r\n");
        }
        match transport {
            Some(t) => self.push_transport(t, &mut out),
            None => {},
        }
        let ghost after_t = out@;
        self.push_senders(senders.as_slice(), &mut out);
        push_str(&mut out, "a=mid:");
        push_chars(&mut out, name.as_slice());
        push_str(&mut out, "\r\n");
        if has_match(desc, "rtcp-mux") {
            push_str(&mut out, "a=rtcp-mux\r\n");
        }
        let ghost after_mux = out@;
        let mid = string_from_chars(name.as_slice());
        match desc {
            Some(d) => self.push_description(d, mid.as_str(), &mut out),
            None => {},
        }
        assert(out@ =~= media_section(*stanza));
        string_from_chars(out.as_slice())
    }
}

} // verus!
