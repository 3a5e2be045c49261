//! IQ handling: Jingle session negotiation and service discovery.
//!
//! The focus drives the call over Jingle IQs. This module decides the answers:
//! it converts `session-initiate` into an SDP offer for `webrtcbin`, extracts
//! the SSRC-to-source mapping from `source-add`, acknowledges what it handled,
//! and replies to disco#info with the feature set that makes Jitsi treat the
//! recorder as a full participant. Sending the stanzas and driving the room
//! are left to the caller.

use crate::answer::{attr_candidate_info, candidate_info_in};
use crate::jingle::{lowercase, to_lowercase};
use crate::jingle_action::{
    action_named, initiate_text, source_add_result, source_views, JingleAction, ParsedSource,
};
use crate::offer::{sdp_accepts, shaped_offer};
use crate::jingle_media::JingleMedia;
use crate::text::{chars_eq_str, chars_of, decimal, push_decimal, string_from_chars};
use crate::xml::{attr_or_empty, attr_value, find_all_spec, name_is, set_pair, tag_is, Element};
use vstd::prelude::*;
use webrtc_sdp::attribute_type::{parse_attribute, SdpAttribute};
use webrtc_sdp::SdpType;

verus! {

/// Whether `c` is one of the URL-safe characters of nanoid's default
/// alphabet.
pub open spec fn url_safe(c: char) -> bool {
    ('a' <= c <= 'z') || ('A' <= c <= 'Z') || ('0' <= c <= '9') || c == '_' || c == '-'
}

/// Trusted: `nanoid::format` with the default random source and the URL-safe
/// alphabet, as `nanoid!(size)` does. Claims `size` characters of that
/// alphabet; which ones is chance.
#[verifier::external_body]
pub(crate) fn random_id(size: usize) -> (r: String)
    requires
        size > 0,
    ensures
        r@.len() == size,
        forall|i: int| 0 <= i < r@.len() ==> url_safe(#[trigger] r@[i]),
{
    nanoid::format(nanoid::rngs::default, &nanoid::alphabet::SAFE, size)
}

/// `s` up to its first `@`, the whole of it when it has none: what
/// `split('@').next()` gives.
pub open spec fn before_at(s: Seq<char>) -> Seq<char>
    decreases s.len(),
{
    if s.len() == 0 {
        seq![]
    } else if before_at(s.drop_last()).len() < s.len() - 1 {
        before_at(s.drop_last())
    } else if s.last() == '@' {
        s.drop_last()
    } else {
        s
    }
}

/// The part of a JID before the first `@`.
pub fn local_part(s: &str) -> (r: String)
    ensures
        r@ == before_at(s@),
{
    let cs = chars_of(s);
    let mut i: usize = 0;
    while i < cs.len()
        invariant
            i <= cs@.len(),
            cs@ == s@,
            before_at(cs@.take(i as int)) == cs@.take(i as int),
        decreases cs@.len() - i,
    {
        assert(cs@.take(i + 1).drop_last() =~= cs@.take(i as int));
        if cs[i] == '@' {
            proof {
                lemma_before_at_prefix(cs@, i as int);
            }
            return string_from_chars(&cs.as_slice()[0..i]);
        }
        i += 1;
    }
    assert(cs@.take(i as int) =~= cs@);
    string_from_chars(cs.as_slice())
}

proof fn lemma_before_at_prefix(s: Seq<char>, i: int)
    requires
        0 <= i < s.len(),
        s[i] == '@',
        before_at(s.take(i)) == s.take(i),
    ensures
        before_at(s) == s.take(i),
    decreases s.len() - i,
{
    let j = s.len() - 1;
    if i == j {
        assert(s.drop_last() =~= s.take(i));
    } else {
        assert(s.take(i + 1).drop_last() =~= s.take(i));
        lemma_before_at_stays(s, i, i + 1);
    }
}

proof fn lemma_before_at_stays(s: Seq<char>, i: int, k: int)
    requires
        0 <= i < k <= s.len(),
        s[i] == '@',
        before_at(s.take(i)) == s.take(i),
        before_at(s.take(k)) == s.take(i),
    ensures
        before_at(s) == s.take(i),
    decreases s.len() - k,
{
    if k == s.len() {
        assert(s.take(k) =~= s);
    } else {
        assert(s.take(k + 1).drop_last() =~= s.take(k));
        lemma_before_at_stays(s, i, k + 1);
    }
}

/// An ICE candidate gathered by `webrtcbin`, as the `webrtc_sdp` parser reads
/// it, with its transport, type and addresses in their SDP spelling.
#[derive(Debug, Clone)]
pub struct CandidateInfo {
    pub foundation: String,
    pub component: u32,
    /// `UDP` or `TCP`.
    pub transport: String,
    pub priority: u64,
    pub address: String,
    pub port: u32,
    /// `host`, `srflx`, `prflx` or `relay`.
    pub kind: String,
    pub raddr: Option<String>,
    pub rport: Option<u32>,
    pub generation: Option<u32>,
}

/// What `webrtc_sdp::attribute_type::parse_attribute` reads from an
/// attribute line, when it reads an attribute.
pub uninterp spec fn parsed_attribute(line: Seq<char>) -> Option<SdpAttribute>;

/// What a candidate line reads as: the candidate, when `webrtc_sdp` reads
/// the line as an `a=candidate:` attribute (see [`attr_candidate_info`]).
pub open spec fn candidate_attribute(line: Seq<char>) -> Option<CandidateInfo> {
    match parsed_attribute(line) {
        Some(a) => attr_candidate_info(a),
        None => None,
    }
}

/// Trusted: calls `webrtc_sdp::attribute_type::parse_attribute` and keeps
/// the attribute it reads; `None` when it fails or reads no attribute. Claims
/// the outcome depends on the text alone (named [`parsed_attribute`]).
#[verifier::external_body]
fn attribute_of_line(line: &str) -> (r: Option<SdpAttribute>)
    ensures
        r == parsed_attribute(line@),
{
    match parse_attribute(line) {
        Ok(SdpType::Attribute(a)) => Some(a),
        _ => None,
    }
}

/// Reads a candidate line as `webrtcbin` gathers it: the candidate, or `None`
/// when `webrtc_sdp` reads no candidate from it.
pub(crate) fn parse_candidate_attribute(line: &str) -> (r: Option<CandidateInfo>)
    ensures
        r == candidate_attribute(line@),
{
    match attribute_of_line(line) {
        Some(a) => candidate_info_in(&a),
        None => None,
    }
}

/// The attributes of the Jingle `<candidate>` for `c`, given its element id.
pub open spec fn candidate_pairs(c: CandidateInfo, id: Seq<char>) -> Seq<(Seq<char>, Seq<char>)> {
    let base = set_pair(
        set_pair(
            set_pair(
                set_pair(
                    set_pair(
                        set_pair(
                            set_pair(
                                set_pair(
                                    set_pair(seq![], "port"@, decimal(c.port as nat)),
                                    "component"@,
                                    decimal(c.component as nat),
                                ),
                                "foundation"@,
                                c.foundation@,
                            ),
                            "type"@,
                            c.kind@,
                        ),
                        "generation"@,
                        decimal(
                            match c.generation {
                                Some(g) => g as nat,
                                None => 0,
                            },
                        ),
                    ),
                    "network"@,
                    "1"@,
                ),
                "id"@,
                id,
            ),
            "protocol"@,
            lowercase(c.transport@),
        ),
        "priority"@,
        decimal(c.priority as nat),
    );
    let with_ip = set_pair(base, "ip"@, c.address@);
    let with_raddr = match c.raddr {
        Some(a) => set_pair(with_ip, "rel-addr"@, a@),
        None => with_ip,
    };
    match c.rport {
        Some(p) => set_pair(with_raddr, "rel-port"@, decimal(p as nat)),
        None => with_raddr,
    }
}

/// The decimal text of `n`.
pub fn decimal_text(n: u64) -> (r: String)
    ensures
        r@ == decimal(n as nat),
{
    let mut v: Vec<char> = Vec::new();
    push_decimal(&mut v, n as u128);
    assert(v@ =~= decimal(n as nat));
    string_from_chars(v.as_slice())
}

/// The Jingle features the recorder advertises in disco#info.
pub open spec fn disco_features() -> Seq<Seq<char>> {
    seq![
        "urn:xmpp:jingle:1"@,
        "urn:xmpp:jingle:apps:rtp:1"@,
        "urn:xmpp:jingle:transports:ice-udp:1"@,
        "urn:xmpp:jingle:apps:dtls:0"@,
        "urn:xmpp:jingle:transports:dtls-sctp:1"@,
        "urn:xmpp:jingle:apps:rtp:audio"@,
        "urn:xmpp:jingle:apps:rtp:video"@,
        "http://jitsi.org/json-encoded-sources"@,
        "http://jitsi.org/source-name"@,
        "https://jitsi.org/meet/e2ee"@,
        "http://jitsi.org/receive-multiple-video-streams"@,
        "urn:ietf:rfc:4588"@,
    ]
}

/// Whether `e` is the empty `type="result"` reply to IQ `id` from `from` to
/// `to`.
pub open spec fn is_ack(e: Element, id: Seq<char>, from: Seq<char>, to: Seq<char>) -> bool {
    &&& tag_is(
        e,
        "iq"@,
        set_pair(set_pair(set_pair(set_pair(seq![], "id"@, id), "type"@, "result"@), "from"@, to), "to"@, from),
    )
    &&& e.children@.len() == 0
}

/// Whether `e` is the disco#info `<query>`: the recorder's identity, then one
/// `<feature>` per advertised feature.
pub open spec fn is_disco_query(e: Element) -> bool {
    &&& tag_is(e, "query"@, set_pair(seq![], "xmlns"@, "http://jabber.org/protocol/disco#info"@))
    &&& e.children@.len() == 1 + disco_features().len()
    &&& tag_is(
        e.children@[0],
        "identity"@,
        set_pair(set_pair(set_pair(seq![], "category"@, "client"@), "type"@, "pc"@), "name"@, "gst-meet-record"@),
    )
    &&& e.children@[0].children@.len() == 0
    &&& forall|k: int|
        0 <= k < disco_features().len() ==> tag_is(
            #[trigger] e.children@[k + 1],
            "feature"@,
            set_pair(seq![], "var"@, disco_features()[k]),
        ) && e.children@[k + 1].children@.len() == 0
}

/// Whether `e` is the disco#info result for IQ `id` from `from` to `to`.
pub open spec fn is_disco_reply(e: Element, id: Seq<char>, from: Seq<char>, to: Seq<char>) -> bool {
    &&& tag_is(
        e,
        "iq"@,
        set_pair(set_pair(set_pair(set_pair(seq![], "id"@, id), "to"@, from), "from"@, to), "type"@, "result"@),
    )
    &&& e.children@.len() == 1
    &&& is_disco_query(e.children@[0])
}

/// Whether a stanza is a disco#info query.
pub open spec fn is_disco_info(stanza: Element) -> bool {
    name_is(stanza, "query"@) && attr_value(stanza, "xmlns"@) == Some(
        "http://jabber.org/protocol/disco#info"@,
    )
}

/// What a handled Jingle action asks of the room.
pub enum JingleWork {
    /// Start the session: wire ICE candidates to `sid`/`initiator`, hand
    /// `offer` to `webrtcbin` (when it parses), then register `sources`.
    SessionInitiate { sid: String, initiator: String, offer: String, sources: Vec<ParsedSource> },
    /// Register newly announced sources.
    SourceAdd { sources: Vec<ParsedSource> },
    /// Nothing to do for the room.
    SourceRemove,
}

/// The outcome of a handled Jingle IQ: the work for the room and the ack to
/// send.
pub struct JingleReply {
    pub work: JingleWork,
    pub ack: Element,
}

/// Whether `offer` is what a `session-initiate` gives `webrtcbin`: for some
/// session id `t` (the clock's), empty when the offer text made from the
/// stanza does not parse, and that text shaped for `media` otherwise (see
/// [`shaped_offer`]), with a BUNDLE group when the stanza has a `<group>`.
pub open spec fn offer_for(offer: Seq<char>, stanza: Element, media: Seq<char>) -> bool {
    exists|t: i64|
        {
            let text = #[trigger] initiate_text(t as int, stanza);
            &&& !sdp_accepts(text) ==> offer == Seq::<char>::empty()
            &&& sdp_accepts(text) ==> shaped_offer(
                text,
                media,
                find_all_spec(Some(stanza), "group"@).len() > 0,
                offer,
            )
        }
}

/// Whether `work` is what the `<jingle>` stanza asks of the room, `media`
/// being the content the offer's msids were shaped for.
pub open spec fn work_for(work: JingleWork, stanza: Element, media: Seq<char>) -> bool {
    match action_named(attr_or_empty(stanza, "action"@), &stanza) {
        Some(JingleAction::SessionInitiate(_)) => match work {
            JingleWork::SessionInitiate { sid, initiator, offer, sources } => {
                &&& sid@ == attr_or_empty(stanza, "sid"@)
                &&& initiator@ == attr_or_empty(stanza, "initiator"@)
                &&& source_views(sources@) == source_add_result(stanza)
                &&& offer_for(offer@, stanza, media)
            },
            _ => false,
        },
        Some(JingleAction::SourceAdd(_)) => match work {
            JingleWork::SourceAdd { sources } => source_views(sources@) == source_add_result(stanza),
            _ => false,
        },
        _ => work is SourceRemove,
    }
}

/// One incoming IQ stanza, plus the media state built while answering it.
#[derive(Debug)]
pub struct Iq {
    pub id: String,
    pub from: String,
    pub to: String,
    /// IQ type: `get`, `set`, `result` or `error`.
    pub kind: String,
    /// Codec and header-extension state accumulated from the Jingle
    /// description, used to build the SDP offer.
    pub jingle_media: JingleMedia,
}

impl Iq {
    /// Reads the routing attributes off an IQ stanza.
    pub fn new(stanza: &Element) -> (r: Iq)
        ensures
            r.id@ == attr_or_empty(*stanza, "id"@),
            r.from@ == attr_or_empty(*stanza, "from"@),
            r.to@ == attr_or_empty(*stanza, "to"@),
            r.kind@ == attr_or_empty(*stanza, "type"@),
            r.jingle_media.media@ == Seq::<char>::empty(),
            r.jingle_media.port@ == Seq::<char>::empty(),
            r.jingle_media.proto@ == Seq::<char>::empty(),
            r.jingle_media.fmt@.len() == 0,
    {
        let from = stanza.attr_or_empty("from");
        let to = stanza.attr_or_empty("to");
        let id = stanza.attr_or_empty("id");
        let kind = stanza.attr_or_empty("type");
        Iq {
            id: string_from_chars(id.as_slice()),
            from: string_from_chars(from.as_slice()),
            to: string_from_chars(to.as_slice()),
            kind: string_from_chars(kind.as_slice()),
            jingle_media: JingleMedia::new(),
        }
    }

    /// The room this IQ concerns: the local part of its sender.
    pub fn room_name(&self) -> (r: String)
        ensures
            r@ == before_at(self.from@),
    {
        local_part(self.from.as_str())
    }

    /// Whether this IQ is a `set`, which is acknowledged.
    fn is_set(&self) -> (r: bool)
        ensures
            r == (self.kind@ == "set"@),
    {
        let k = chars_of(self.kind.as_str());
        chars_eq_str(k.as_slice(), "set")
    }

    /// The empty `type="result"` reply that acknowledges this IQ.
    pub fn handle_ack(&self) -> (r: Element)
        ensures
            is_ack(r, self.id@, self.from@, self.to@),
    {
        let mut iq = Element::tag("iq");
        iq.set_attribute("id", self.id.as_str());
        iq.set_attribute("type", "result");
        iq.set_attribute("from", self.to.as_str());
        iq.set_attribute("to", self.from.as_str());
        iq
    }

    /// The disco#info `<query>` with the recorder's identity and features.
    fn disco_query() -> (r: Element)
        ensures
            is_disco_query(r),
    {
        let mut identity = Element::tag("identity");
        identity.set_attribute("category", "client");
        identity.set_attribute("type", "pc");
        identity.set_attribute("name", "gst-meet-record");
        let mut query = Element::tag("query");
        query.set_attribute("xmlns", "http://jabber.org/protocol/disco#info");
        query.add_child(identity);
        let features: [&str; 12] = [
            "urn:xmpp:jingle:1",
            "urn:xmpp:jingle:apps:rtp:1",
            "urn:xmpp:jingle:transports:ice-udp:1",
            "urn:xmpp:jingle:apps:dtls:0",
            "urn:xmpp:jingle:transports:dtls-sctp:1",
            "urn:xmpp:jingle:apps:rtp:audio",
            "urn:xmpp:jingle:apps:rtp:video",
            "http://jitsi.org/json-encoded-sources",
            "http://jitsi.org/source-name",
            "https://jitsi.org/meet/e2ee",
            "http://jitsi.org/receive-multiple-video-streams",
            "urn:ietf:rfc:4588",
        ];
        assert(features@.map_values(|f: &str| f@) =~= disco_features());
        let mut i: usize = 0;
        while i < 12
            invariant
                i <= 12,
                features@.map_values(|f: &str| f@) == disco_features(),
                tag_is(query, "query"@, set_pair(seq![], "xmlns"@, "http://jabber.org/protocol/disco#info"@)),
                query.children@.len() == 1 + i,
                tag_is(
                    query.children@[0],
                    "identity"@,
                    set_pair(set_pair(set_pair(seq![], "category"@, "client"@), "type"@, "pc"@), "name"@, "gst-meet-record"@),
                ),
                query.children@[0].children@.len() == 0,
                forall|k: int|
                    0 <= k < i ==> tag_is(
                        #[trigger] query.children@[k + 1],
                        "feature"@,
                        set_pair(seq![], "var"@, disco_features()[k]),
                    ) && query.children@[k + 1].children@.len() == 0,
            decreases 12 - i,
        {
            let mut feature = Element::tag("feature");
            feature.set_attribute("var", features[i]);
            assert(features@.map_values(|f: &str| f@)[i as int] == features[i as int]@);
            query.add_child(feature);
            i += 1;
        }
        query
    }

    /// The stanzas that answer a query: for a disco#info query, the ack when
    /// this IQ is a `set`, then the result with the recorder's identity and
    /// features. Other queries are not answered.
    ///
    /// The advertised feature list is what makes Jitsi negotiate the modern
    /// stack with us: JSON-encoded sources, source names, and multiple video
    /// streams.
    pub fn handle_query(&self, stanza: &Element) -> (r: Vec<Element>)
        ensures
            !is_disco_info(*stanza) ==> r@.len() == 0,
            is_disco_info(*stanza) && self.kind@ == "set"@ ==> r@.len() == 2 && is_ack(
                r@[0],
                self.id@,
                self.from@,
                self.to@,
            ) && is_disco_reply(r@[1], self.id@, self.from@, self.to@),
            is_disco_info(*stanza) && self.kind@ != "set"@ ==> r@.len() == 1 && is_disco_reply(
                r@[0],
                self.id@,
                self.from@,
                self.to@,
            ),
    {
        let mut replies: Vec<Element> = Vec::new();
        let query_name = chars_of("query");
        let is_query = stanza.is_named(query_name.as_slice());
        let is_disco = match stanza.get_attribute("xmlns") {
            Some(ns) => {
                let nc = chars_of(ns.as_str());
                chars_eq_str(nc.as_slice(), "http://jabber.org/protocol/disco#info")
            },
            None => false,
        };
        if !(is_query && is_disco) {
            return replies;
        }
        if self.is_set() {
            replies.push(self.handle_ack());
        }
        let mut iq = Element::tag("iq");
        iq.set_attribute("id", self.id.as_str());
        iq.set_attribute("to", self.from.as_str());
        iq.set_attribute("from", self.to.as_str());
        iq.set_attribute("type", "result");
        iq.add_child(Self::disco_query());
        replies.push(iq);
        replies
    }

    /// The Jingle `<candidate>` carried in `transport-info` for an ICE
    /// candidate, under element id `id`.
    pub fn candidate_element(candidate: &CandidateInfo, id: &str) -> (r: Element)
        ensures
            tag_is(r, "candidate"@, candidate_pairs(*candidate, id@)),
            r.children@.len() == 0,
    {
        let mut e = Element::tag("candidate");
        e.set_attribute("port", decimal_text(candidate.port as u64).as_str());
        e.set_attribute("component", decimal_text(candidate.component as u64).as_str());
        e.set_attribute("foundation", candidate.foundation.as_str());
        e.set_attribute("type", candidate.kind.as_str());
        let generation: u64 = match candidate.generation {
            Some(g) => g as u64,
            None => 0,
        };
        e.set_attribute("generation", decimal_text(generation).as_str());
        e.set_attribute("network", "1");
        e.set_attribute("id", id);
        let protocol = to_lowercase(candidate.transport.as_str());
        e.set_attribute("protocol", protocol.as_str());
        e.set_attribute("priority", decimal_text(candidate.priority).as_str());
        e.set_attribute("ip", candidate.address.as_str());
        match &candidate.raddr {
            Some(a) => e.set_attribute("rel-addr", a.as_str()),
            None => {},
        }
        match candidate.rport {
            Some(p) => e.set_attribute("rel-port", decimal_text(p as u64).as_str()),
            None => {},
        }
        e
    }

    /// Converts an ICE candidate into the Jingle `<candidate>` element
    /// carried in `transport-info`, under a fresh random element id.
    pub fn parse_candidate(candidate: &CandidateInfo) -> (r: Element)
        ensures
            exists|id: Seq<char>|
                id.len() == 21 && tag_is(r, "candidate"@, #[trigger] candidate_pairs(*candidate, id)),
            r.children@.len() == 0,
    {
        let id = random_id(21);
        Self::candidate_element(candidate, id.as_str())
    }

    /// Dispatches a `<jingle>` payload by its `action`.
    ///
    /// `session-initiate` is converted to an SDP offer for the room's
    /// `webrtcbin` and its sources read; `source-add` yields the sources to
    /// register; `source-remove` needs nothing. Every handled action is
    /// acked; other actions get no answer.
    pub fn handle_jingle(&mut self, stanza: &Element) -> (r: Option<JingleReply>)
        ensures
            action_named(attr_or_empty(*stanza, "action"@), stanza) is None ==> r is None,
            action_named(attr_or_empty(*stanza, "action"@), stanza) is Some ==> (r matches Some(
                reply,
            ) && is_ack(reply.ack, old(self).id@, old(self).from@, old(self).to@) && work_for(
                reply.work,
                *stanza,
                final(self).jingle_media.media@,
            )),
            final(self).id == old(self).id,
            final(self).from == old(self).from,
            final(self).to == old(self).to,
            final(self).kind == old(self).kind,
    {
        let action_name = stanza.attr_or_empty("action");
        let action_string = string_from_chars(action_name.as_slice());
        let action = match JingleAction::parse(action_string.as_str(), stanza) {
            Some(a) => a,
            None => {
                return None;
            },
        };
        let work = match action {
            JingleAction::SessionInitiate(s) => {
                assert(*s == *stanza);
                let sid = string_from_chars(s.attr_or_empty("sid").as_slice());
                let initiator = string_from_chars(s.attr_or_empty("initiator").as_slice());
                let offer = action.handle_session_initiate(s, &mut self.jingle_media);
                assert(offer_for(offer@, *stanza, self.jingle_media.media@));
                let sources = action.handle_source_add(s);
                JingleWork::SessionInitiate { sid, initiator, offer, sources }
            },
            JingleAction::SourceAdd(s) => {
                assert(*s == *stanza);
                let sources = action.handle_source_add(s);
                JingleWork::SourceAdd { sources }
            },
            JingleAction::SourceRemove(s) => {
                let _ = action.handle_source_remove(s);
                JingleWork::SourceRemove
            },
        };
        assert(work_for(work, *stanza, self.jingle_media.media@));
        let ack = self.handle_ack();
        Some(JingleReply { work, ack })
    }
}

} // verus!
