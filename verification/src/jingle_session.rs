//! A Jingle session as structured data: read from a `session-initiate`
//! stanza, and answered from the SDP `webrtcbin` produces.

use crate::jingle::{
    ContentDescription, DtlsFingerprint, IceCandidate, JingleContent, JingleSession, JingleTransport,
    PayloadType,
};
use crate::answer::{fingerprint_hex, fingerprint_to_hex, media_of_session};
use crate::text::{chars_eq_str, chars_of, parse_u16, parse_u32, parse_u64, parse_unsigned, string_from_chars};
use crate::xml::{attr_value, name_is, text_of, Element};
use vstd::prelude::*;
use webrtc_sdp::attribute_type::SdpAttribute;
use crate::offer::{attr_views, attributes_of, media_attributes, AttrView, MediaAttr};
use crate::answer::{attr_candidate_info, candidate_info_in};
use crate::iq::CandidateInfo;
use webrtc_sdp::media_type::SdpMedia;
use webrtc_sdp::SdpSession;

verus! {

/// An ICE candidate as plain values.
pub struct IceCandidateView {
    pub component: u32,
    pub foundation: Seq<char>,
    pub protocol: Seq<char>,
    pub ip: Seq<char>,
    pub port: u16,
    pub priority: u64,
    pub candidate_type: Seq<char>,
    pub rel_addr: Option<Seq<char>>,
    pub rel_port: Option<u16>,
}

/// The view of an optional string.
pub open spec fn opt_chars(o: Option<String>) -> Option<Seq<char>> {
    match o {
        Some(s) => Some(s@),
        None => None,
    }
}

impl View for IceCandidate {
    type V = IceCandidateView;

    open spec fn view(&self) -> IceCandidateView {
        IceCandidateView {
            component: self.component,
            foundation: self.foundation@,
            protocol: self.protocol@,
            ip: self.ip@,
            port: self.port,
            priority: self.priority,
            candidate_type: self.candidate_type@,
            rel_addr: opt_chars(self.rel_addr),
            rel_port: self.rel_port,
        }
    }
}

/// A payload type as plain values.
pub struct PayloadTypeView {
    pub id: u8,
    pub name: Seq<char>,
    pub clockrate: u32,
    pub channels: Option<u32>,
}

impl View for PayloadType {
    type V = PayloadTypeView;

    open spec fn view(&self) -> PayloadTypeView {
        PayloadTypeView { id: self.id, name: self.name@, clockrate: self.clockrate, channels: self.channels }
    }
}

/// A content description as plain values.
pub struct DescriptionView {
    pub media: Seq<char>,
    pub payloads: Seq<PayloadTypeView>,
    pub ssrcs: Seq<(u32, Seq<char>)>,
    pub rtcp_mux: bool,
}

impl View for ContentDescription {
    type V = DescriptionView;

    open spec fn view(&self) -> DescriptionView {
        DescriptionView {
            media: self.media@,
            payloads: self.payloads@.map_values(|p: PayloadType| p@),
            ssrcs: self.ssrcs@.map_values(|s: (u32, String)| (s.0, s.1@)),
            rtcp_mux: self.rtcp_mux,
        }
    }
}

/// A DTLS fingerprint as plain values.
pub struct FingerprintView {
    pub hash_algo: Seq<char>,
    pub fingerprint: Seq<char>,
    pub setup: Seq<char>,
}

impl View for DtlsFingerprint {
    type V = FingerprintView;

    open spec fn view(&self) -> FingerprintView {
        FingerprintView { hash_algo: self.hash_algo@, fingerprint: self.fingerprint@, setup: self.setup@ }
    }
}

/// A transport as plain values.
pub struct TransportView {
    pub ufrag: Seq<char>,
    pub pwd: Seq<char>,
    pub fingerprint: FingerprintView,
    pub candidates: Seq<IceCandidateView>,
    pub rtcp_mux: bool,
}

impl View for JingleTransport {
    type V = TransportView;

    open spec fn view(&self) -> TransportView {
        TransportView {
            ufrag: self.ufrag@,
            pwd: self.pwd@,
            fingerprint: self.fingerprint@,
            candidates: self.candidates@.map_values(|c: IceCandidate| c@),
            rtcp_mux: self.rtcp_mux,
        }
    }
}

/// A content as plain values.
pub struct ContentView {
    pub name: Seq<char>,
    pub description: DescriptionView,
    pub transport: TransportView,
}

impl View for JingleContent {
    type V = ContentView;

    open spec fn view(&self) -> ContentView {
        ContentView { name: self.name@, description: self.description@, transport: self.transport@ }
    }
}

/// A session as plain values.
pub struct SessionView {
    pub sid: Seq<char>,
    pub initiator: Seq<char>,
    pub to: Seq<char>,
    pub from: Seq<char>,
    pub action: Seq<char>,
    pub contents: Seq<ContentView>,
    pub bundle: Seq<Seq<char>>,
}

impl View for JingleSession {
    type V = SessionView;

    open spec fn view(&self) -> SessionView {
        SessionView {
            sid: self.sid@,
            initiator: self.initiator@,
            to: self.to@,
            from: self.from@,
            action: self.action@,
            contents: self.contents@.map_values(|c: JingleContent| c@),
            bundle: self.bundle@.map_values(|b: String| b@),
        }
    }
}

/// Attribute `key` of `e`, or `d` when it is missing.
pub open spec fn attr_or(e: Element, key: Seq<char>, d: Seq<char>) -> Seq<char> {
    match attr_value(e, key) {
        Some(v) => v,
        None => d,
    }
}

/// Attribute `key` of `e` read as a number no greater than `max`, as
/// `str::parse` reads it.
pub open spec fn num_attr(e: Element, key: Seq<char>, max: nat) -> Option<nat> {
    match attr_value(e, key) {
        Some(v) => parse_unsigned(v, max),
        None => None,
    }
}

/// A Jingle `<candidate>`: each field from its attribute, with the defaults
/// a missing or unreadable attribute gets.
pub open spec fn candidate_view(c: Element) -> IceCandidateView {
    IceCandidateView {
        component: match num_attr(c, "component"@, u32::MAX as nat) {
            Some(n) => n as u32,
            None => 1,
        },
        foundation: attr_or(c, "foundation"@, seq![]),
        protocol: attr_or(c, "protocol"@, "udp"@),
        ip: attr_or(c, "ip"@, seq![]),
        port: match num_attr(c, "port"@, u16::MAX as nat) {
            Some(n) => n as u16,
            None => 0,
        },
        priority: match num_attr(c, "priority"@, u64::MAX as nat) {
            Some(n) => n as u64,
            None => 0,
        },
        candidate_type: attr_or(c, "type"@, "host"@),
        rel_addr: attr_value(c, "rel-addr"@),
        rel_port: match num_attr(c, "rel-port"@, u16::MAX as nat) {
            Some(n) => Some(n as u16),
            None => None,
        },
    }
}

/// The candidates among `kids`, in order.
pub open spec fn candidates_in(kids: Seq<Element>) -> Seq<IceCandidateView>
    decreases kids.len(),
{
    if kids.len() == 0 {
        seq![]
    } else {
        candidates_in(kids.drop_last()) + if name_is(kids.last(), "candidate"@) {
            seq![candidate_view(kids.last())]
        } else {
            seq![]
        }
    }
}

/// A `<payload-type>`.
pub open spec fn payload_view(p: Element) -> PayloadTypeView {
    PayloadTypeView {
        id: match num_attr(p, "id"@, u8::MAX as nat) {
            Some(n) => n as u8,
            None => 0,
        },
        name: attr_or(p, "name"@, seq![]),
        clockrate: match num_attr(p, "clockrate"@, u32::MAX as nat) {
            Some(n) => n as u32,
            None => 90000,
        },
        channels: match num_attr(p, "channels"@, u32::MAX as nat) {
            Some(n) => Some(n as u32),
            None => None,
        },
    }
}

/// The payload types among `kids`, in order.
pub open spec fn payloads_in(kids: Seq<Element>) -> Seq<PayloadTypeView>
    decreases kids.len(),
{
    if kids.len() == 0 {
        seq![]
    } else {
        payloads_in(kids.drop_last()) + if name_is(kids.last(), "payload-type"@) {
            seq![payload_view(kids.last())]
        } else {
            seq![]
        }
    }
}

/// The `<source>`s among `kids` whose `ssrc` reads as a `u32`, with their
/// names (`unknown` when missing).
pub open spec fn ssrcs_in(kids: Seq<Element>) -> Seq<(u32, Seq<char>)>
    decreases kids.len(),
{
    if kids.len() == 0 {
        seq![]
    } else {
        let k = kids.last();
        ssrcs_in(kids.drop_last()) + if name_is(k, "source"@) && num_attr(k, "ssrc"@, u32::MAX as nat) is Some {
            seq![(num_attr(k, "ssrc"@, u32::MAX as nat)->0 as u32, attr_or(k, "name"@, "unknown"@))]
        } else {
            seq![]
        }
    }
}

/// Whether some element of `kids` is a tag named `n`.
pub open spec fn has_named(kids: Seq<Element>, n: Seq<char>) -> bool
    decreases kids.len(),
{
    if kids.len() == 0 {
        false
    } else {
        has_named(kids.drop_last(), n) || name_is(kids.last(), n)
    }
}

/// The last element of `kids` that is a tag named `n`.
pub open spec fn last_named(kids: Seq<Element>, n: Seq<char>) -> Option<Element>
    decreases kids.len(),
{
    if kids.len() == 0 {
        None
    } else if name_is(kids.last(), n) {
        Some(kids.last())
    } else {
        last_named(kids.drop_last(), n)
    }
}

/// A `<description>`: its media (`audio` when missing), payload types,
/// sources and whether it asks for RTCP multiplexing.
pub open spec fn description_view(d: Element) -> DescriptionView {
    DescriptionView {
        media: attr_or(d, "media"@, "audio"@),
        payloads: payloads_in(d.children@),
        ssrcs: ssrcs_in(d.children@),
        rtcp_mux: has_named(d.children@, "rtcp-mux"@),
    }
}

/// The DTLS fingerprint of a transport: its last `<fingerprint>`, with
/// `sha-256` and `actpass` for a missing hash or setup; without any, empty
/// with setup `active`.
pub open spec fn fingerprint_view(kids: Seq<Element>) -> FingerprintView {
    match last_named(kids, "fingerprint"@) {
        Some(f) => FingerprintView {
            hash_algo: attr_or(f, "hash"@, "sha-256"@),
            fingerprint: match text_of(f) {
                Some(t) => t,
                None => seq![],
            },
            setup: attr_or(f, "setup"@, "actpass"@),
        },
        None => FingerprintView { hash_algo: seq![], fingerprint: seq![], setup: "active"@ },
    }
}

/// A `<transport>`, when it has both ICE credentials.
pub open spec fn transport_view(t: Element) -> Option<TransportView> {
    match (attr_value(t, "ufrag"@), attr_value(t, "pwd"@)) {
        (Some(u), Some(p)) => Some(
            TransportView {
                ufrag: u,
                pwd: p,
                fingerprint: fingerprint_view(t.children@),
                candidates: candidates_in(t.children@),
                rtcp_mux: has_named(t.children@, "rtcp-mux"@),
            },
        ),
        _ => None,
    }
}

/// A `<content>`, read from its last description and last transport; none
/// when either is missing or that transport lacks ICE credentials.
pub open spec fn content_view(c: Element) -> Option<ContentView> {
    match (last_named(c.children@, "description"@), last_named(c.children@, "transport"@)) {
        (Some(d), Some(t)) => match transport_view(t) {
            Some(tv) => Some(
                ContentView { name: attr_or(c, "name"@, seq![]), description: description_view(d), transport: tv },
            ),
            None => None,
        },
        _ => None,
    }
}

/// The readable contents among `kids`, in order.
pub open spec fn contents_in(kids: Seq<Element>) -> Seq<ContentView>
    decreases kids.len(),
{
    if kids.len() == 0 {
        seq![]
    } else {
        let k = kids.last();
        contents_in(kids.drop_last()) + if name_is(k, "content"@) && content_view(k) is Some {
            seq![content_view(k)->0]
        } else {
            seq![]
        }
    }
}

/// The names of the `<content>`s of a group that have one.
pub open spec fn group_names(kids: Seq<Element>) -> Seq<Seq<char>>
    decreases kids.len(),
{
    if kids.len() == 0 {
        seq![]
    } else {
        let k = kids.last();
        group_names(kids.drop_last()) + if name_is(k, "content"@) && attr_value(k, "name"@) is Some {
            seq![attr_value(k, "name"@)->0]
        } else {
            seq![]
        }
    }
}

/// The content names of every `<group>` among `kids`, in order.
pub open spec fn bundle_in(kids: Seq<Element>) -> Seq<Seq<char>>
    decreases kids.len(),
{
    if kids.len() == 0 {
        seq![]
    } else {
        bundle_in(kids.drop_last()) + if name_is(kids.last(), "group"@) {
            group_names(kids.last().children@)
        } else {
            seq![]
        }
    }
}

/// The session a `session-initiate` describes, addressed `to` us `from` the
/// focus.
pub open spec fn session_view(j: Element, to: Seq<char>, from: Seq<char>) -> SessionView {
    SessionView {
        sid: attr_or(j, "sid"@, seq![]),
        initiator: attr_or(j, "initiator"@, seq![]),
        to,
        from,
        action: "session-initiate"@,
        contents: contents_in(j.children@),
        bundle: bundle_in(j.children@),
    }
}

/// Attribute `key`, or `d`.
fn attr_string_or(e: &Element, key: &str, d: &str) -> (r: String)
    ensures
        r@ == attr_or(*e, key@, d@),
{
    match e.get_attribute(key) {
        Some(v) => v.clone(),
        None => String::from_str(d),
    }
}

/// Attribute `key` as a `u32`.
fn u32_attr(e: &Element, key: &str) -> (r: Option<u32>)
    ensures
        match num_attr(*e, key@, u32::MAX as nat) {
            Some(n) => r == Some(n as u32),
            None => r is None,
        },
{
    match e.get_attribute(key) {
        Some(v) => {
            let cs = crate::text::chars_of(v.as_str());
            parse_u32(cs.as_slice())
        },
        None => None,
    }
}

/// Attribute `key` as a `u16`.
fn u16_attr(e: &Element, key: &str) -> (r: Option<u16>)
    ensures
        match num_attr(*e, key@, u16::MAX as nat) {
            Some(n) => r == Some(n as u16),
            None => r is None,
        },
{
    match e.get_attribute(key) {
        Some(v) => {
            let cs = crate::text::chars_of(v.as_str());
            parse_u16(cs.as_slice())
        },
        None => None,
    }
}

/// Attribute `key` as a `u64`.
fn u64_attr(e: &Element, key: &str) -> (r: Option<u64>)
    ensures
        match num_attr(*e, key@, u64::MAX as nat) {
            Some(n) => r == Some(n as u64),
            None => r is None,
        },
{
    match e.get_attribute(key) {
        Some(v) => {
            let cs = crate::text::chars_of(v.as_str());
            parse_u64(cs.as_slice())
        },
        None => None,
    }
}

/// Attribute `key` as a `u8`.
fn u8_attr(e: &Element, key: &str) -> (r: Option<u8>)
    ensures
        match num_attr(*e, key@, u8::MAX as nat) {
            Some(n) => r == Some(n as u8),
            None => r is None,
        },
{
    match u16_attr(e, key) {
        Some(n) => if n <= 255 {
            Some(n as u8)
        } else {
            None
        },
        None => None,
    }
}

/// Reads a `<candidate>`.
fn candidate_from(c: &Element) -> (r: IceCandidate)
    ensures
        r@ == candidate_view(*c),
{
    proof {
        reveal_strlit("udp");
        reveal_strlit("host");
        reveal_strlit("");
    }
    let component = match u32_attr(c, "component") {
        Some(v) => v,
        None => 1,
    };
    let foundation = attr_string_or(c, "foundation", "");
    let protocol = attr_string_or(c, "protocol", "udp");
    let ip = attr_string_or(c, "ip", "");
    let port = match u16_attr(c, "port") {
        Some(v) => v,
        None => 0,
    };
    let priority = match u64_attr(c, "priority") {
        Some(v) => v,
        None => 0,
    };
    let candidate_type = attr_string_or(c, "type", "host");
    let rel_addr = match c.get_attribute("rel-addr") {
        Some(a) => Some(a.clone()),
        None => None,
    };
    let rel_port = u16_attr(c, "rel-port");
    assert(opt_chars(rel_addr) == attr_value(*c, "rel-addr"@));
    assert(foundation@ == attr_or(*c, "foundation"@, seq![]));
    let r = IceCandidate { component, foundation, protocol, ip, port, priority, candidate_type, rel_addr, rel_port };
    assert(r@.component == candidate_view(*c).component);
    assert(r@.port == candidate_view(*c).port);
    assert(r@.rel_port == candidate_view(*c).rel_port);
    assert(r@.protocol == candidate_view(*c).protocol);
    assert(r@.ip == candidate_view(*c).ip);
    assert(r@.priority == candidate_view(*c).priority);
    assert(r@.candidate_type == candidate_view(*c).candidate_type);
    assert(r@.foundation == candidate_view(*c).foundation);
    assert(r@.rel_addr == candidate_view(*c).rel_addr);
    r
}

/// The candidates of a transport, in order.
pub fn parse_candidates(transport: &Element) -> (r: Vec<IceCandidate>)
    ensures
        r@.map_values(|c: IceCandidate| c@) == candidates_in(transport.children@),
{
    let kids = &transport.children;
    let name = crate::text::chars_of("candidate");
    proof {
        reveal_strlit("candidate");
    }
    let mut out: Vec<IceCandidate> = Vec::new();
    let mut i: usize = 0;
    while i < kids.len()
        invariant
            i <= kids@.len(),
            name@ == "candidate"@,
            out@.map_values(|c: IceCandidate| c@) == candidates_in(kids@.take(i as int)),
        decreases kids@.len() - i,
    {
        assert(kids@.take(i + 1).drop_last() =~= kids@.take(i as int));
        assert(kids@.take(i + 1).last() == kids@[i as int]);
        let ghost before = out@.map_values(|c: IceCandidate| c@);
        if kids[i].is_named(name.as_slice()) {
            let c = candidate_from(&kids[i]);
            out.push(c);
            assert(out@.map_values(|c: IceCandidate| c@) =~= before.push(candidate_view(kids@[i as int])));
        }
        assert(out@.map_values(|c: IceCandidate| c@) =~= candidates_in(kids@.take(i + 1)));
        i += 1;
    }
    assert(kids@.take(i as int) =~= kids@);
    out
}

/// Reads a `<payload-type>`.
fn payload_from(p: &Element) -> (r: PayloadType)
    ensures
        r@ == payload_view(*p),
{
    proof {
        reveal_strlit("");
    }
    let id = match u8_attr(p, "id") {
        Some(v) => v,
        None => 0,
    };
    let name = attr_string_or(p, "name", "");
    let clockrate = match u32_attr(p, "clockrate") {
        Some(v) => v,
        None => 90000,
    };
    let channels = u32_attr(p, "channels");
    let r = PayloadType { id, name, clockrate, channels };
    assert(r@.name == payload_view(*p).name);
    assert(r@.id == payload_view(*p).id);
    assert(r@.clockrate == payload_view(*p).clockrate);
    assert(r@.channels == payload_view(*p).channels);
    r
}

/// The ssrc and name of a `<source>`, when its `ssrc` reads as a `u32`.
fn source_entry(k: &Element) -> (r: Option<(u32, String)>)
    ensures
        match num_attr(*k, "ssrc"@, u32::MAX as nat) {
            Some(n) => r matches Some(e) && e.0 == n as u32 && e.1@ == attr_or(*k, "name"@, "unknown"@),
            None => r is None,
        },
{
    match u32_attr(k, "ssrc") {
        Some(ssrc) => Some((ssrc, attr_string_or(k, "name", "unknown"))),
        None => None,
    }
}

/// Reads a `<description>`.
pub fn parse_description(desc: &Element) -> (r: ContentDescription)
    ensures
        r@ == description_view(*desc),
{
    let kids = &desc.children;
    let pt_name = crate::text::chars_of("payload-type");
    let source_name = crate::text::chars_of("source");
    let mux_name = crate::text::chars_of("rtcp-mux");
    proof {
        reveal_strlit("payload-type");
        reveal_strlit("source");
        reveal_strlit("rtcp-mux");
        reveal_strlit("audio");
    }
    let mut payloads: Vec<PayloadType> = Vec::new();
    let mut ssrcs: Vec<(u32, String)> = Vec::new();
    let mut rtcp_mux = false;
    let mut i: usize = 0;
    while i < kids.len()
        invariant
            i <= kids@.len(),
            pt_name@ == "payload-type"@,
            source_name@ == "source"@,
            mux_name@ == "rtcp-mux"@,
            payloads@.map_values(|p: PayloadType| p@) == payloads_in(kids@.take(i as int)),
            ssrcs@.map_values(|s: (u32, String)| (s.0, s.1@)) == ssrcs_in(kids@.take(i as int)),
            rtcp_mux == has_named(kids@.take(i as int), "rtcp-mux"@),
        decreases kids@.len() - i,
    {
        let ghost pre = kids@.take(i as int);
        assert(kids@.take(i + 1).drop_last() =~= pre);
        assert(kids@.take(i + 1).last() == kids@[i as int]);
        let ghost p0 = payloads@.map_values(|p: PayloadType| p@);
        let ghost s0 = ssrcs@.map_values(|s: (u32, String)| (s.0, s.1@));
        let k = &kids[i];
        if k.is_named(pt_name.as_slice()) {
            payloads.push(payload_from(k));
            assert(payloads@.map_values(|p: PayloadType| p@) =~= p0.push(payload_view(kids@[i as int])));
        }
        if k.is_named(source_name.as_slice()) {
            match source_entry(k) {
                Some(e) => {
                    ssrcs.push(e);
                    assert(ssrcs@.map_values(|s: (u32, String)| (s.0, s.1@)) =~= s0.push(
                        (num_attr(*k, "ssrc"@, u32::MAX as nat)->0 as u32, attr_or(*k, "name"@, "unknown"@)),
                    ));
                },
                None => {},
            }
        }
        if k.is_named(mux_name.as_slice()) {
            rtcp_mux = true;
        }
        assert(payloads@.map_values(|p: PayloadType| p@) =~= payloads_in(kids@.take(i + 1)));
        assert(ssrcs@.map_values(|s: (u32, String)| (s.0, s.1@)) =~= ssrcs_in(kids@.take(i + 1)));
        i += 1;
    }
    assert(kids@.take(i as int) =~= kids@);
    let media = attr_string_or(desc, "media", "audio");
    let r = ContentDescription { media, payloads, ssrcs, rtcp_mux };
    assert(r@.payloads == description_view(*desc).payloads);
    assert(r@.ssrcs == description_view(*desc).ssrcs);
    assert(r@.media == description_view(*desc).media);
    r
}

/// The DTLS fingerprint of a transport's children.
fn fingerprint_from(kids: &Vec<Element>) -> (r: DtlsFingerprint)
    ensures
        r@ == fingerprint_view(kids@),
{
    let fp_name = crate::text::chars_of("fingerprint");
    proof {
        reveal_strlit("fingerprint");
        reveal_strlit("sha-256");
        reveal_strlit("actpass");
        reveal_strlit("active");
    }
    let mut k: usize = kids.len();
    assert(kids@.take(k as int) =~= kids@);
    while k > 0
        invariant
            k <= kids@.len(),
            fp_name@ == "fingerprint"@,
            last_named(kids@, "fingerprint"@) == last_named(kids@.take(k as int), "fingerprint"@),
        decreases k,
    {
        assert(kids@.take(k as int).drop_last() =~= kids@.take(k - 1));
        assert(kids@.take(k as int).last() == kids@[k - 1]);
        if kids[k - 1].is_named(fp_name.as_slice()) {
            let f = &kids[k - 1];
            let hash_algo = attr_string_or(f, "hash", "sha-256");
            let fingerprint = match f.get_text() {
                Some(t) => t,
                None => String::new(),
            };
            let setup = attr_string_or(f, "setup", "actpass");
            let r = DtlsFingerprint { hash_algo, fingerprint, setup };
            assert(r@.hash_algo == fingerprint_view(kids@).hash_algo);
            assert(r@.fingerprint == fingerprint_view(kids@).fingerprint);
            assert(r@.setup == fingerprint_view(kids@).setup);
            return r;
        }
        k -= 1;
    }
    assert(kids@.take(0) =~= Seq::<Element>::empty());
    let r = DtlsFingerprint { hash_algo: String::new(), fingerprint: String::new(), setup: String::from_str("active") };
    assert(r@.hash_algo == fingerprint_view(kids@).hash_algo);
    assert(r@.fingerprint == fingerprint_view(kids@).fingerprint);
    r
}

/// Whether some child is a tag named `n`.
fn any_named(kids: &Vec<Element>, n: &[char]) -> (r: bool)
    ensures
        r == has_named(kids@, n@),
{
    let mut found = false;
    let mut i: usize = 0;
    while i < kids.len()
        invariant
            i <= kids@.len(),
            found == has_named(kids@.take(i as int), n@),
        decreases kids@.len() - i,
    {
        assert(kids@.take(i + 1).drop_last() =~= kids@.take(i as int));
        assert(kids@.take(i + 1).last() == kids@[i as int]);
        if kids[i].is_named(n) {
            found = true;
        }
        i += 1;
    }
    assert(kids@.take(i as int) =~= kids@);
    found
}

/// Reads a `<transport>`; `None` without both ICE credentials.
pub fn parse_transport(transport: &Element) -> (r: Option<JingleTransport>)
    ensures
        match transport_view(*transport) {
            Some(v) => r matches Some(t) && t@ == v,
            None => r is None,
        },
{
    let ufrag = match transport.get_attribute("ufrag") {
        Some(u) => u.clone(),
        None => {
            return None;
        },
    };
    let pwd = match transport.get_attribute("pwd") {
        Some(p) => p.clone(),
        None => {
            return None;
        },
    };
    let mux_name = crate::text::chars_of("rtcp-mux");
    proof {
        reveal_strlit("rtcp-mux");
    }
    let fingerprint = fingerprint_from(&transport.children);
    let rtcp_mux = any_named(&transport.children, mux_name.as_slice());
    let candidates = parse_candidates(transport);
    let r = JingleTransport { ufrag, pwd, fingerprint, candidates, rtcp_mux };
    assert(r@.ufrag == transport_view(*transport)->0.ufrag);
    assert(r@.pwd == transport_view(*transport)->0.pwd);
    assert(r@.candidates == transport_view(*transport)->0.candidates);
    assert(r@.fingerprint == transport_view(*transport)->0.fingerprint);
    Some(r)
}

/// Reads a `<content>` from its last description and last transport.
fn parse_content(c: &Element) -> (r: Option<JingleContent>)
    ensures
        match content_view(*c) {
            Some(v) => r matches Some(x) && x@ == v,
            None => r is None,
        },
{
    let kids = &c.children;
    let desc_name = crate::text::chars_of("description");
    let tr_name = crate::text::chars_of("transport");
    proof {
        reveal_strlit("description");
        reveal_strlit("transport");
        reveal_strlit("");
    }
    let mut description: Option<ContentDescription> = None;
    let mut transport: Option<JingleTransport> = None;
    let mut i: usize = 0;
    while i < kids.len()
        invariant
            i <= kids@.len(),
            desc_name@ == "description"@,
            tr_name@ == "transport"@,
            match last_named(kids@.take(i as int), "description"@) {
                Some(d) => description matches Some(x) && x@ == description_view(d),
                None => description is None,
            },
            match last_named(kids@.take(i as int), "transport"@) {
                Some(t) => match transport_view(t) {
                    Some(v) => transport matches Some(x) && x@ == v,
                    None => transport is None,
                },
                None => transport is None,
            },
        decreases kids@.len() - i,
    {
        assert(kids@.take(i + 1).drop_last() =~= kids@.take(i as int));
        assert(kids@.take(i + 1).last() == kids@[i as int]);
        let k = &kids[i];
        if k.is_named(desc_name.as_slice()) {
            description = Some(parse_description(k));
        }
        if k.is_named(tr_name.as_slice()) {
            transport = parse_transport(k);
        }
        i += 1;
    }
    assert(kids@.take(i as int) =~= kids@);
    match (description, transport) {
        (Some(d), Some(t)) => {
            let name = attr_string_or(c, "name", "");
            let r = JingleContent { name, description: d, transport: t };
            assert(r@.name == content_view(*c)->0.name);
            Some(r)
        },
        _ => None,
    }
}

/// The names of a group's contents.
fn group_contents(group: &Element, out: &mut Vec<String>)
    ensures
        final(out)@.map_values(|b: String| b@) == old(out)@.map_values(|b: String| b@) + group_names(
            group.children@,
        ),
{
    let kids = &group.children;
    let cname = crate::text::chars_of("content");
    proof {
        reveal_strlit("content");
    }
    let ghost start = out@.map_values(|b: String| b@);
    let mut i: usize = 0;
    while i < kids.len()
        invariant
            i <= kids@.len(),
            cname@ == "content"@,
            out@.map_values(|b: String| b@) == start + group_names(kids@.take(i as int)),
        decreases kids@.len() - i,
    {
        assert(kids@.take(i + 1).drop_last() =~= kids@.take(i as int));
        assert(kids@.take(i + 1).last() == kids@[i as int]);
        let ghost before = out@.map_values(|b: String| b@);
        if kids[i].is_named(cname.as_slice()) {
            match kids[i].get_attribute("name") {
                Some(n) => {
                    out.push(n.clone());
                    assert(out@.map_values(|b: String| b@) =~= before.push(n@));
                },
                None => {},
            }
        }
        assert(out@.map_values(|b: String| b@) =~= start + group_names(kids@.take(i + 1)));
        i += 1;
    }
    assert(kids@.take(i as int) =~= kids@);
}

/// Reads a `session-initiate` into a session addressed `to` us `from` the
/// focus: its id and initiator, each content that has a description and a
/// transport with ICE credentials, and the content names of its groups.
pub fn parse_session_initiate(jingle: &Element, to: &str, from: &str) -> (r: Option<JingleSession>)
    ensures
        r matches Some(s) && s@ == session_view(*jingle, to@, from@),
{
    let kids = &jingle.children;
    let cname = crate::text::chars_of("content");
    let gname = crate::text::chars_of("group");
    proof {
        reveal_strlit("content");
        reveal_strlit("group");
        reveal_strlit("");
        reveal_strlit("session-initiate");
    }
    let mut contents: Vec<JingleContent> = Vec::new();
    let mut bundle: Vec<String> = Vec::new();
    let mut i: usize = 0;
    while i < kids.len()
        invariant
            i <= kids@.len(),
            cname@ == "content"@,
            gname@ == "group"@,
            contents@.map_values(|c: JingleContent| c@) == contents_in(kids@.take(i as int)),
            bundle@.map_values(|b: String| b@) == bundle_in(kids@.take(i as int)),
        decreases kids@.len() - i,
    {
        assert(kids@.take(i + 1).drop_last() =~= kids@.take(i as int));
        assert(kids@.take(i + 1).last() == kids@[i as int]);
        let ghost c0 = contents@.map_values(|c: JingleContent| c@);
        let k = &kids[i];
        if k.is_named(cname.as_slice()) {
            match parse_content(k) {
                Some(c) => {
                    contents.push(c);
                    assert(contents@.map_values(|c: JingleContent| c@) =~= c0.push(content_view(*k)->0));
                },
                None => {},
            }
        }
        if k.is_named(gname.as_slice()) {
            group_contents(k, &mut bundle);
        }
        assert(contents@.map_values(|c: JingleContent| c@) =~= contents_in(kids@.take(i + 1)));
        i += 1;
    }
    assert(kids@.take(i as int) =~= kids@);
    let r = JingleSession {
        sid: attr_string_or(jingle, "sid", ""),
        initiator: attr_string_or(jingle, "initiator", ""),
        to: String::from_str(to),
        from: String::from_str(from),
        action: String::from_str("session-initiate"),
        contents,
        bundle,
    };
    assert(r@.contents == session_view(*jingle, to@, from@).contents);
    assert(r@.bundle == session_view(*jingle, to@, from@).bundle);
    assert(r@.sid == session_view(*jingle, to@, from@).sid);
    assert(r@.initiator == session_view(*jingle, to@, from@).initiator);
    Some(r)
}

/// What a `session-accept` reads of one attribute of an SDP m-line.
#[derive(Debug, Clone)]
pub enum TransportAttr {
    IceUfrag(String),
    IcePwd(String),
    /// The hash function as SDP prints it, and the digest.
    Fingerprint(String, Vec<u8>),
    /// The DTLS role as SDP prints it.
    Setup(String),
    Candidate(CandidateInfo),
    RtcpMux,
    Other,
}

/// What a `session-accept` reads of one attribute of `webrtc_sdp` other than
/// a candidate, as [`transport_attr`] converts it.
pub uninterp spec fn attr_transport(a: SdpAttribute) -> TransportAttr;

/// What a `session-accept` reads of one attribute of an m-line: credentials,
/// fingerprints, setup and candidates are among those the offer shaping keeps
/// whole.
pub open spec fn transport_of_view(v: AttrView) -> TransportAttr {
    match v {
        AttrView::Other(a) => match attr_candidate_info(a) {
            Some(c) => TransportAttr::Candidate(c),
            None => attr_transport(a),
        },
        _ => TransportAttr::Other,
    }
}

/// What a `session-accept` reads of the attributes of an m-line, in order.
pub open spec fn media_transport_attrs(m: SdpMedia) -> Seq<TransportAttr> {
    media_attributes(m).map_values(|v: AttrView| transport_of_view(v))
}

/// Trusted: converts an attribute of `webrtc_sdp` that carries ICE
/// credentials, a fingerprint, a DTLS role or `a=rtcp-mux`, variant for
/// variant, fields moved (the hash function and the role printed with their
/// `Display`); any other attribute becomes `Other`. Claims the result depends
/// on the attribute alone (named [`attr_transport`]).
#[verifier::external_body]
pub(crate) fn transport_attr(a: &SdpAttribute) -> (r: TransportAttr)
    ensures
        r == attr_transport(*a),
{
    match a {
        SdpAttribute::IceUfrag(u) => TransportAttr::IceUfrag(u.clone()),
        SdpAttribute::IcePwd(p) => TransportAttr::IcePwd(p.clone()),
        SdpAttribute::Fingerprint(f) => TransportAttr::Fingerprint(f.hash_algorithm.to_string(), f.fingerprint.clone()),
        SdpAttribute::Setup(x) => TransportAttr::Setup(x.to_string()),
        SdpAttribute::RtcpMux => TransportAttr::RtcpMux,
        _ => TransportAttr::Other,
    }
}

/// What a `session-accept` reads of each attribute of an m-line.
fn transport_list(attrs: &Vec<MediaAttr>) -> (r: Vec<TransportAttr>)
    ensures
        r@ == attr_views(attrs@).map_values(|v: AttrView| transport_of_view(v)),
{
    let ghost views = attr_views(attrs@);
    let mut out: Vec<TransportAttr> = Vec::new();
    let mut i: usize = 0;
    while i < attrs.len()
        invariant
            i <= attrs@.len(),
            views == attr_views(attrs@),
            out@ == views.take(i as int).map_values(|v: AttrView| transport_of_view(v)),
        decreases attrs@.len() - i,
    {
        let t = match &attrs[i] {
            MediaAttr::Other(a) => match candidate_info_in(a) {
                Some(c) => TransportAttr::Candidate(c),
                None => transport_attr(a),
            },
            _ => TransportAttr::Other,
        };
        assert(views[i as int] == attrs@[i as int]@);
        out.push(t);
        assert(out@ =~= views.take(i + 1).map_values(|v: AttrView| transport_of_view(v)));
        i += 1;
    }
    assert(views.take(i as int) =~= views);
    out
}

/// The ICE and DTLS values an answer's m-line gives its transport.
pub struct AcceptFold {
    pub ufrag: Seq<char>,
    pub pwd: Seq<char>,
    pub fingerprint: FingerprintView,
    pub candidates: Seq<IceCandidateView>,
}

/// No credentials, no fingerprint, setup `active`, no candidates.
pub open spec fn empty_fold() -> AcceptFold {
    AcceptFold {
        ufrag: seq![],
        pwd: seq![],
        fingerprint: FingerprintView { hash_algo: seq![], fingerprint: seq![], setup: "active"@ },
        candidates: seq![],
    }
}

/// An SDP candidate as a Jingle candidate: protocol `tcp` for a TCP
/// candidate and `udp` otherwise, and the ports cut to 16 bits.
pub open spec fn sdp_candidate_view(c: CandidateInfo) -> IceCandidateView {
    IceCandidateView {
        component: c.component,
        foundation: c.foundation@,
        protocol: if c.transport@ == "TCP"@ {
            "tcp"@
        } else {
            "udp"@
        },
        ip: c.address@,
        port: c.port as u16,
        priority: c.priority,
        candidate_type: c.kind@,
        rel_addr: opt_chars(c.raddr),
        rel_port: match c.rport {
            Some(p) => Some(p as u16),
            None => None,
        },
    }
}

/// Reads an m-line's attributes in order: each credential, fingerprint and
/// setup overwrites the one before, each candidate is added.
pub open spec fn fold_attrs(attrs: Seq<TransportAttr>) -> AcceptFold
    decreases attrs.len(),
{
    if attrs.len() == 0 {
        empty_fold()
    } else {
        let f = fold_attrs(attrs.drop_last());
        match attrs.last() {
            TransportAttr::IceUfrag(u) => AcceptFold { ufrag: u@, ..f },
            TransportAttr::IcePwd(p) => AcceptFold { pwd: p@, ..f },
            TransportAttr::Fingerprint(h, b) => AcceptFold {
                fingerprint: FingerprintView {
                    hash_algo: h@,
                    fingerprint: fingerprint_hex(b@),
                    setup: f.fingerprint.setup,
                },
                ..f
            },
            TransportAttr::Setup(x) => AcceptFold {
                fingerprint: FingerprintView { setup: x@, ..f.fingerprint },
                ..f
            },
            TransportAttr::Candidate(c) => AcceptFold { candidates: f.candidates.push(sdp_candidate_view(c)), ..f },
            _ => f,
        }
    }
}

/// Whether an m-line is tagged `name` by some `a=mid:`.
pub open spec fn carries_mid(attrs: Seq<AttrView>, name: Seq<char>) -> bool
    decreases attrs.len(),
{
    if attrs.len() == 0 {
        false
    } else {
        carries_mid(attrs.drop_last(), name) || (attrs.last() matches AttrView::Mid(m) && m == name)
    }
}

/// The first m-line tagged `name`.
pub open spec fn media_index(medias: Seq<SdpMedia>, name: Seq<char>) -> Option<int>
    decreases medias.len(),
{
    if medias.len() == 0 {
        None
    } else {
        match media_index(medias.drop_last(), name) {
            Some(i) => Some(i),
            None => if carries_mid(media_attributes(medias.last()), name) {
                Some(medias.len() - 1)
            } else {
                None
            },
        }
    }
}

/// The answer's values for the content named `name`: those of the first
/// m-line tagged with it, none when there is no such m-line.
pub open spec fn answer_fold(medias: Seq<SdpMedia>, name: Seq<char>) -> AcceptFold {
    match media_index(medias, name) {
        Some(i) => fold_attrs(media_transport_attrs(medias[i])),
        None => empty_fold(),
    }
}

/// The accepted content for an offered one: its name, media and payload
/// types kept, no sources of our own, and the answer's transport values.
pub open spec fn accept_content(c: ContentView, medias: Seq<SdpMedia>) -> ContentView {
    let f = answer_fold(medias, c.name);
    ContentView {
        name: c.name,
        description: DescriptionView {
            media: c.description.media,
            payloads: c.description.payloads,
            ssrcs: seq![],
            rtcp_mux: c.description.rtcp_mux,
        },
        transport: TransportView {
            ufrag: f.ufrag,
            pwd: f.pwd,
            fingerprint: f.fingerprint,
            candidates: f.candidates,
            rtcp_mux: c.transport.rtcp_mux,
        },
    }
}

/// The `session-accept` for an offered session: the same id, addressed
/// back, each content accepted, the same bundle.
pub open spec fn accept_session(s: SessionView, medias: Seq<SdpMedia>) -> SessionView {
    SessionView {
        sid: s.sid,
        initiator: s.to,
        to: s.from,
        from: s.to,
        action: "session-accept"@,
        contents: s.contents.map_values(|c: ContentView| accept_content(c, medias)),
        bundle: s.bundle,
    }
}

fn candidate_of_sdp(c: &CandidateInfo) -> (r: IceCandidate)
    ensures
        r@ == sdp_candidate_view(*c),
{
    let transport = chars_of(c.transport.as_str());
    let protocol = if chars_eq_str(transport.as_slice(), "TCP") {
        String::from_str("tcp")
    } else {
        String::from_str("udp")
    };
    let rel_addr = match &c.raddr {
        Some(a) => Some(a.clone()),
        None => None,
    };
    let rel_port = match c.rport {
        Some(p) => Some(p as u16),
        None => None,
    };
    let r = IceCandidate {
        component: c.component,
        foundation: c.foundation.clone(),
        protocol,
        priority: c.priority,
        ip: c.address.clone(),
        port: c.port as u16,
        candidate_type: c.kind.clone(),
        rel_addr,
        rel_port,
    };
    assert(r@.protocol == sdp_candidate_view(*c).protocol);
    assert(r@.rel_addr == sdp_candidate_view(*c).rel_addr);
    r
}

/// The transport values an m-line's attributes give, read in order: its
/// last credentials, fingerprint and setup, and all its candidates.
pub fn transport_values(attrs: &Vec<TransportAttr>) -> (r: (String, String, DtlsFingerprint, Vec<IceCandidate>))
    ensures
        r.0@ == fold_attrs(attrs@).ufrag,
        r.1@ == fold_attrs(attrs@).pwd,
        r.2@ == fold_attrs(attrs@).fingerprint,
        r.3@.map_values(|c: IceCandidate| c@) == fold_attrs(attrs@).candidates,
{
    proof {
        reveal_strlit("active");
    }
    let mut ufrag = String::new();
    let mut pwd = String::new();
    let mut fp = DtlsFingerprint { hash_algo: String::new(), fingerprint: String::new(), setup: String::from_str("active") };
    let mut cands: Vec<IceCandidate> = Vec::new();
    let mut i: usize = 0;
    assert(attrs@.take(0) =~= Seq::<TransportAttr>::empty());
    assert(cands@.map_values(|c: IceCandidate| c@) =~= Seq::<IceCandidateView>::empty());
    while i < attrs.len()
        invariant
            i <= attrs@.len(),
            ufrag@ == fold_attrs(attrs@.take(i as int)).ufrag,
            pwd@ == fold_attrs(attrs@.take(i as int)).pwd,
            fp@ == fold_attrs(attrs@.take(i as int)).fingerprint,
            cands@.map_values(|c: IceCandidate| c@) == fold_attrs(attrs@.take(i as int)).candidates,
        decreases attrs@.len() - i,
    {
        assert(attrs@.take(i + 1).drop_last() =~= attrs@.take(i as int));
        assert(attrs@.take(i + 1).last() == attrs@[i as int]);
        let ghost c0 = cands@.map_values(|c: IceCandidate| c@);
        match &attrs[i] {
            TransportAttr::IceUfrag(u) => {
                ufrag = u.clone();
            },
            TransportAttr::IcePwd(p) => {
                pwd = p.clone();
            },
            TransportAttr::Fingerprint(h, b) => {
                fp = DtlsFingerprint { hash_algo: h.clone(), fingerprint: fingerprint_to_hex(b.as_slice()), setup: fp.setup };
            },
            TransportAttr::Setup(x) => {
                fp = DtlsFingerprint { hash_algo: fp.hash_algo, fingerprint: fp.fingerprint, setup: x.clone() };
            },
            TransportAttr::Candidate(c) => {
                cands.push(candidate_of_sdp(c));
                assert(cands@.map_values(|c: IceCandidate| c@) =~= c0.push(sdp_candidate_view(*c)));
            },
            _ => {},
        }
        i += 1;
    }
    assert(attrs@.take(i as int) =~= attrs@);
    (ufrag, pwd, fp, cands)
}

/// Whether an m-line's attributes tag it `name`.
fn carries_mid_exec(attrs: &Vec<MediaAttr>, name: &String) -> (r: bool)
    ensures
        r == carries_mid(attr_views(attrs@), name@),
{
    let ghost views = attr_views(attrs@);
    let mut found = false;
    let mut i: usize = 0;
    while i < attrs.len()
        invariant
            i <= attrs@.len(),
            views == attr_views(attrs@),
            found == carries_mid(views.take(i as int), name@),
        decreases attrs@.len() - i,
    {
        assert(views.take(i + 1).drop_last() =~= views.take(i as int));
        assert(views.take(i + 1).last() == attrs@[i as int]@);
        match &attrs[i] {
            MediaAttr::Mid(m) => {
                if *m == *name {
                    found = true;
                }
            },
            _ => {},
        }
        i += 1;
    }
    assert(views.take(i as int) =~= views);
    found
}

/// The answer's transport values for the content named `name`.
fn answer_values(medias: &Vec<SdpMedia>, name: &String) -> (r: (String, String, DtlsFingerprint, Vec<IceCandidate>))
    ensures
        r.0@ == answer_fold(medias@, name@).ufrag,
        r.1@ == answer_fold(medias@, name@).pwd,
        r.2@ == answer_fold(medias@, name@).fingerprint,
        r.3@.map_values(|c: IceCandidate| c@) == answer_fold(medias@, name@).candidates,
{
    let mut j: usize = 0;
    while j < medias.len()
        invariant
            j <= medias@.len(),
            media_index(medias@.take(j as int), name@) is None,
        decreases medias@.len() - j,
    {
        assert(medias@.take(j + 1).drop_last() =~= medias@.take(j as int));
        assert(medias@.take(j + 1).last() == medias@[j as int]);
        let mattrs = attributes_of(&medias[j]);
        if carries_mid_exec(&mattrs, name) {
            proof {
                lemma_media_index_prefix(medias@, j + 1, name@);
            }
            let attrs = transport_list(&mattrs);
            return transport_values(&attrs);
        }
        j += 1;
    }
    assert(medias@.take(j as int) =~= medias@);
    proof {
        reveal_strlit("active");
    }
    let cands: Vec<IceCandidate> = Vec::new();
    assert(cands@.map_values(|c: IceCandidate| c@) =~= Seq::<IceCandidateView>::empty());
    (String::new(), String::new(), DtlsFingerprint { hash_algo: String::new(), fingerprint: String::new(), setup: String::from_str("active") }, cands)
}

proof fn lemma_media_index_prefix(medias: Seq<SdpMedia>, n: int, name: Seq<char>)
    requires
        0 < n <= medias.len(),
        media_index(medias.take(n), name) is Some,
    ensures
        media_index(medias, name) == media_index(medias.take(n), name),
    decreases medias.len() - n,
{
    if n == medias.len() {
        assert(medias.take(n) =~= medias);
    } else {
        assert(medias.take(n + 1).drop_last() =~= medias.take(n));
        lemma_media_index_prefix(medias, n + 1, name);
    }
}

/// A copy of a list of payload types.
fn copy_payloads(v: &Vec<PayloadType>) -> (r: Vec<PayloadType>)
    ensures
        r@.map_values(|p: PayloadType| p@) == v@.map_values(|p: PayloadType| p@),
{
    let mut out: Vec<PayloadType> = Vec::new();
    let mut i: usize = 0;
    while i < v.len()
        invariant
            i <= v@.len(),
            out@.map_values(|p: PayloadType| p@) == v@.take(i as int).map_values(|p: PayloadType| p@),
        decreases v@.len() - i,
    {
        let p = &v[i];
        let ghost before = out@.map_values(|p: PayloadType| p@);
        out.push(PayloadType { id: p.id, name: p.name.clone(), clockrate: p.clockrate, channels: p.channels });
        assert(out@.map_values(|p: PayloadType| p@) =~= before.push(v@[i as int]@));
        assert(v@.take(i + 1).map_values(|p: PayloadType| p@) =~= v@.take(i as int).map_values(|p: PayloadType| p@).push(v@[i as int]@));
        i += 1;
    }
    assert(v@.take(i as int) =~= v@);
    out
}

/// A copy of a list of strings.
fn copy_strings(v: &Vec<String>) -> (r: Vec<String>)
    ensures
        r@.map_values(|s: String| s@) == v@.map_values(|s: String| s@),
{
    let mut out: Vec<String> = Vec::new();
    let mut i: usize = 0;
    while i < v.len()
        invariant
            i <= v@.len(),
            out@.map_values(|s: String| s@) == v@.take(i as int).map_values(|s: String| s@),
        decreases v@.len() - i,
    {
        let ghost before = out@.map_values(|s: String| s@);
        out.push(v[i].clone());
        assert(out@.map_values(|s: String| s@) =~= before.push(v@[i as int]@));
        assert(v@.take(i + 1).map_values(|s: String| s@) =~= v@.take(i as int).map_values(|s: String| s@).push(v@[i as int]@));
        i += 1;
    }
    assert(v@.take(i as int) =~= v@);
    out
}

/// The `session-accept` session for an offered one, with the ICE and DTLS
/// values of the answer `webrtcbin` produced: each offered content keeps its
/// name, media, payload types and RTCP multiplexing, announces no sources,
/// and takes the credentials, fingerprint, setup and candidates of the
/// answer's m-line tagged with its name.
pub fn sdp_jingle_session(sdp: &SdpSession, initiator_jingle_session: &JingleSession) -> (r: JingleSession)
    ensures
        r@ == accept_session(initiator_jingle_session@, crate::answer::session_media(*sdp)),
{
    let init = initiator_jingle_session;
    let medias = media_of_session(sdp);
    let ghost ms = medias@;
    let mut contents: Vec<JingleContent> = Vec::new();
    let mut i: usize = 0;
    while i < init.contents.len()
        invariant
            i <= init.contents@.len(),
            ms == medias@,
            contents@.map_values(|c: JingleContent| c@) == init.contents@.take(i as int).map_values(
                |c: JingleContent| accept_content(c@, ms),
            ),
        decreases init.contents@.len() - i,
    {
        let c = &init.contents[i];
        let (ufrag, pwd, fingerprint, candidates) = answer_values(&medias, &c.name);
        let content = JingleContent {
            name: c.name.clone(),
            description: ContentDescription {
                media: c.description.media.clone(),
                payloads: copy_payloads(&c.description.payloads),
                ssrcs: Vec::new(),
                rtcp_mux: c.description.rtcp_mux,
            },
            transport: JingleTransport { ufrag, pwd, fingerprint, candidates, rtcp_mux: c.transport.rtcp_mux },
        };
        assert(content@.description.ssrcs =~= Seq::<(u32, Seq<char>)>::empty());
        assert(content@ == accept_content(c@, ms));
        let ghost before = contents@.map_values(|c: JingleContent| c@);
        contents.push(content);
        assert(contents@.map_values(|c: JingleContent| c@) =~= before.push(accept_content(c@, ms)));
        assert(init.contents@.take(i + 1).map_values(|c: JingleContent| accept_content(c@, ms))
            =~= init.contents@.take(i as int).map_values(|c: JingleContent| accept_content(c@, ms)).push(
            accept_content(init.contents@[i as int]@, ms),
        ));
        i += 1;
    }
    assert(init.contents@.take(i as int) =~= init.contents@);
    proof {
        reveal_strlit("session-accept");
    }
    let r = JingleSession {
        sid: init.sid.clone(),
        initiator: init.to.clone(),
        to: init.from.clone(),
        from: init.to.clone(),
        action: String::from_str("session-accept"),
        contents,
        bundle: copy_strings(&init.bundle),
    };
    assert(r@.contents =~= init@.contents.map_values(|c: ContentView| accept_content(c, ms)));
    assert(r@.bundle == accept_session(init@, ms).bundle);
    r
}

} // verus!
