//! The presence the recorder sends to enter a meeting's MUC room: its stats
//! id, the codecs it takes, and its E2EE identity keys.

use crate::e2ee::{key_text, OlmAdapter};
use crate::iq::{random_id, url_safe};
use crate::participant::opt_view;
use crate::text::{chars_eq_str, chars_of, string_from_chars};
use crate::xml::{attr_pairs, attr_value, first_named, name_is, set_pair, tag_is, text_node_is, text_of, Element};
use vstd::prelude::*;

verus! {

/// The MUC service rooms live on, followed by the separator of the
/// occupant's nickname.
pub open spec fn muc_suffix() -> Seq<char> {
    "@muc.meet.jitsi/"@
}

/// Whether `to` addresses `room` on the MUC service under a random nickname
/// of ten URL-safe characters.
pub open spec fn muc_target(to: Seq<char>, room: Seq<char>) -> bool {
    &&& to.len() == room.len() + 26
    &&& to.take(room.len() + 16int) == room + muc_suffix()
    &&& forall|i: int| room.len() + 16 <= i < to.len() ==> url_safe(#[trigger] to[i])
}

/// Whether `e` is `<name>text</name>`: a tag without attributes whose only
/// child is the text.
pub open spec fn text_elem_is(e: Element, name: Seq<char>, text: Seq<char>) -> bool {
    &&& tag_is(e, name, seq![])
    &&& e.children@.len() == 1
    &&& text_node_is(e.children@[0], text)
}

/// Whether `e` is the empty `<x xmlns="http://jabber.org/protocol/muc"/>`
/// that marks a MUC join.
pub open spec fn is_muc_x(e: Element) -> bool {
    &&& tag_is(e, "x"@, set_pair(seq![], "xmlns"@, "http://jabber.org/protocol/muc"@))
    &&& e.children@.len() == 0
}

/// Whether `e` is a `<presence>` whose only attribute is a `to` addressing
/// `room` under a random nickname.
pub open spec fn is_join_presence(e: Element, room: Seq<char>) -> bool {
    &&& name_is(e, "presence"@)
    &&& e.text is None
    &&& attr_pairs(e.attributes@).len() == 1
    &&& attr_pairs(e.attributes@)[0].0 == "to"@
    &&& muc_target(attr_pairs(e.attributes@)[0].1, room)
}

/// The codecs the recorder announces, in order.
pub open spec fn codec_names() -> Seq<Seq<char>> {
    seq!["h264"@, "vp8"@, "vp9"@, "av1"@]
}

/// What the recorder announces about itself in its presence.
#[derive(Debug)]
pub struct Presence {
    stats_id: String,
    curve25519: String,
    ed25519: String,
    codec_list: [&'static str; 4],
    e2ee_enabled: bool,
}

impl Presence {
    /// The stats id the recorder reports under.
    pub closed spec fn stats_id(&self) -> Seq<char> {
        self.stats_id@
    }

    /// The published Curve25519 identity key.
    pub closed spec fn curve25519(&self) -> Seq<char> {
        self.curve25519@
    }

    /// The published Ed25519 identity key.
    pub closed spec fn ed25519(&self) -> Seq<char> {
        self.ed25519@
    }

    /// The announced codecs.
    pub closed spec fn codecs(&self) -> Seq<Seq<char>> {
        self.codec_list@.map_values(|c: &'static str| c@)
    }

    /// Whether E2EE is turned on.
    pub closed spec fn e2ee(&self) -> bool {
        self.e2ee_enabled
    }

    /// A fresh identity: a random stats id, new Olm keys, the four codecs,
    /// E2EE off.
    fn new() -> (r: Self)
        ensures
            r.stats_id().len() == 21,
            forall|i: int| 0 <= i < r.stats_id().len() ==> url_safe(#[trigger] r.stats_id()[i]),
            key_text(r.curve25519()),
            key_text(r.ed25519()),
            r.codecs() == codec_names(),
            !r.e2ee(),
    {
        let olm_adapter = OlmAdapter::new();
        let id_keys = olm_adapter.get_id_keys();
        let r = Presence {
            stats_id: generate_username(),
            curve25519: id_keys.curve25519,
            ed25519: id_keys.ed25519,
            codec_list: ["h264", "vp8", "vp9", "av1"],
            e2ee_enabled: false,
        };
        assert(r.codecs() =~= codec_names());
        r
    }

    /// The codecs joined by commas.
    fn codecs_text(&self) -> (r: String)
        ensures
            r@ == "h264,vp8,vp9,av1"@,
    {
        String::from_str("h264,vp8,vp9,av1")
    }

    /// The presence that makes the recorder join `room`, and the identity it
    /// announces there: its stats id, its codec list, its two identity keys
    /// and the MUC marker, in that order.
    pub fn handle_join_recorder(room: &str) -> (r: (Element, Presence))
        ensures
            is_join_presence(r.0, room@),
            r.0.children@.len() == 5,
            text_elem_is(r.0.children@[0], "stats-id"@, r.1.stats_id()),
            text_elem_is(r.0.children@[1], "jitsi_participant_codecList"@, "h264,vp8,vp9,av1"@),
            text_elem_is(r.0.children@[2], "jitsi_participant_e2ee.idKey.curve25519"@, r.1.curve25519()),
            text_elem_is(r.0.children@[3], "jitsi_participant_e2ee.idKey.ed25519"@, r.1.ed25519()),
            is_muc_x(r.0.children@[4]),
            r.1.stats_id().len() == 21,
            forall|i: int| 0 <= i < r.1.stats_id().len() ==> url_safe(#[trigger] r.1.stats_id()[i]),
            key_text(r.1.curve25519()),
            key_text(r.1.ed25519()),
            r.1.codecs() == codec_names(),
            !r.1.e2ee(),
    {
        let recorder_presence = Self::new();
        let stats = text_elem("stats-id", recorder_presence.stats_id.as_str());
        let codecs = recorder_presence.codecs_text();
        let codec_list = text_elem("jitsi_participant_codecList", codecs.as_str());
        let curve25519 = text_elem(
            "jitsi_participant_e2ee.idKey.curve25519",
            recorder_presence.curve25519.as_str(),
        );
        let ed25519 = text_elem("jitsi_participant_e2ee.idKey.ed25519", recorder_presence.ed25519.as_str());
        let mut presence = join_presence(room);
        presence.add_child(stats);
        presence.add_child(codec_list);
        presence.add_child(curve25519);
        presence.add_child(ed25519);
        presence.add_child(muc_x());
        (presence, recorder_presence)
    }
}

/// `<name>text</name>`.
fn text_elem(name: &str, text: &str) -> (r: Element)
    ensures
        text_elem_is(r, name@, text@),
{
    let mut e = Element::tag(name);
    e.add_child(Element::text_node(text));
    e
}

/// The MUC marker `<x xmlns="http://jabber.org/protocol/muc"/>`.
fn muc_x() -> (r: Element)
    ensures
        is_muc_x(r),
{
    let mut x = Element::tag("x");
    x.set_attribute("xmlns", "http://jabber.org/protocol/muc");
    x
}

/// A childless `<presence>` addressed to `room` under a fresh random
/// nickname of ten characters.
fn join_presence(room: &str) -> (r: Element)
    ensures
        is_join_presence(r, room@),
        r.children@.len() == 0,
{
    let nick = random_id(10);
    let mut to: Vec<char> = crate::text::chars_of(room);
    crate::text::push_str(&mut to, "@muc.meet.jitsi/");
    let ghost mid = to@;
    crate::text::push_str(&mut to, nick.as_str());
    let target = crate::text::string_from_chars(to.as_slice());
    let mut presence = Element::tag("presence");
    presence.set_attribute("to", target.as_str());
    proof {
        reveal_strlit("@muc.meet.jitsi/");
        assert(mid =~= room@ + muc_suffix());
        assert(target@.take(room@.len() + 16int) =~= room@ + muc_suffix());
        assert forall|i: int| room@.len() + 16 <= i < target@.len() implies url_safe(#[trigger] target@[i]) by {
            assert(target@[i] == nick@[i - room@.len() - 16]);
        }
        assert(set_pair(seq![], "to"@, target@) =~= seq![("to"@, target@)]);
    }
    presence
}

/// The presence that joins `room` as an ordinary occupant, with a random
/// nickname: `<presence to="room@muc.meet.jitsi/nick"><x .../></presence>`.
pub fn join_room_presence(room: &str) -> (r: Element)
    ensures
        is_join_presence(r, room@),
        r.children@.len() == 1,
        is_muc_x(r.children@[0]),
{
    let mut presence = join_presence(room);
    presence.add_child(muc_x());
    presence
}

/// A random participant name: 21 URL-safe characters, as `nanoid!()` makes.
pub fn generate_username() -> (r: String)
    ensures
        r@.len() == 21,
        forall|i: int| 0 <= i < r@.len() ==> url_safe(#[trigger] r@[i]),
{
    random_id(21)
}

/// What follows the last `/` of an occupant JID: the endpoint, or the whole
/// text when it has no `/`.
pub open spec fn after_last_slash(s: Seq<char>) -> Seq<char>
    decreases s.len(),
{
    if s.len() == 0 {
        s
    } else if s.last() == '/' {
        seq![]
    } else {
        after_last_slash(s.drop_last()).push(s.last())
    }
}

/// The text of the first child named `name`, if it has one.
pub open spec fn child_text(stanza: Element, name: Seq<char>) -> Option<Seq<char>> {
    match first_named(stanza.children@, name) {
        Some(c) => text_of(c),
        None => None,
    }
}

/// Whether a presence reports a device muted: unless the child `name` holds
/// `false`, it is.
pub open spec fn muted_in(stanza: Element, name: Seq<char>) -> bool {
    match child_text(stanza, name) {
        Some(t) => t != "false"@,
        None => true,
    }
}

/// What a participant's presence says about them.
#[derive(Debug)]
pub struct ParticipantPresence {
    /// The occupant JID, `room@muc/endpoint`.
    pub from: String,
    pub endpoint_id: String,
    pub display_name: Option<String>,
    pub video_muted: bool,
    pub audio_muted: bool,
    pub screenshare_muted: bool,
}

/// How a presence changes the meeting.
#[derive(Debug)]
pub enum PresenceLifecycle {
    ParticipantJoined(ParticipantPresence),
    ParticipantLeft(ParticipantPresence),
    MeetingTerminated(ParticipantPresence),
}

/// Whether `p` is what a presence from `from` says: the endpoint after the
/// last `/`, the `<nick>`, and the three mute flags.
pub open spec fn presence_read(p: ParticipantPresence, stanza: Element, from: Seq<char>) -> bool {
    &&& p.from@ == from
    &&& p.endpoint_id@ == after_last_slash(from)
    &&& opt_view(p.display_name) == child_text(stanza, "nick"@)
    &&& p.video_muted == muted_in(stanza, "videomuted"@)
    &&& p.audio_muted == muted_in(stanza, "audiomuted"@)
    &&& p.screenshare_muted == muted_in(stanza, "screensharemuted"@)
}

/// The endpoint of an occupant JID.
fn endpoint_of(from: &str) -> (r: String)
    ensures
        r@ == after_last_slash(from@),
{
    let cs = chars_of(from);
    let mut out: Vec<char> = Vec::new();
    let mut i: usize = 0;
    while i < cs.len()
        invariant
            i <= cs@.len(),
            cs@ == from@,
            out@ == after_last_slash(cs@.take(i as int)),
        decreases cs@.len() - i,
    {
        assert(cs@.take(i + 1).drop_last() =~= cs@.take(i as int));
        if cs[i] == '/' {
            out = Vec::new();
            assert(out@ =~= Seq::<char>::empty());
        } else {
            out.push(cs[i]);
        }
        i += 1;
    }
    assert(cs@.take(i as int) =~= cs@);
    string_from_chars(out.as_slice())
}

/// The text of the first child named `name`.
fn child_text_exec(stanza: &Element, name: &str) -> (r: Option<String>)
    ensures
        opt_view(r) == child_text(*stanza, name@),
{
    let n = chars_of(name);
    match stanza.child_by_name(n.as_slice()) {
        Some(c) => c.get_text(),
        None => None,
    }
}

/// Whether the child `name` reports a device muted.
fn muted_exec(stanza: &Element, name: &str) -> (r: bool)
    ensures
        r == muted_in(*stanza, name@),
{
    match child_text_exec(stanza, name) {
        Some(t) => {
            let tc = chars_of(t.as_str());
            !chars_eq_str(tc.as_slice(), "false")
        },
        None => true,
    }
}

impl ParticipantPresence {
    /// Classifies an occupant presence, read as [`presence_read`] says: none
    /// without a `from`; with no `type` a join or an update; `unavailable` a
    /// departure, the end of the meeting when the focus leaves; any other
    /// type nothing.
    pub fn from_presence(stanza: &Element) -> (r: Option<PresenceLifecycle>)
        ensures
            match attr_value(*stanza, "from"@) {
                None => r is None,
                Some(from) => match attr_value(*stanza, "type"@) {
                    None => r matches Some(PresenceLifecycle::ParticipantJoined(p)) && presence_read(
                        p,
                        *stanza,
                        from,
                    ),
                    Some(t) => if t != "unavailable"@ {
                        r is None
                    } else if after_last_slash(from) == "focus"@ {
                        r matches Some(PresenceLifecycle::MeetingTerminated(p)) && presence_read(
                            p,
                            *stanza,
                            from,
                        )
                    } else {
                        r matches Some(PresenceLifecycle::ParticipantLeft(p)) && presence_read(
                            p,
                            *stanza,
                            from,
                        )
                    },
                },
            },
    {
        let from = match stanza.get_attribute("from") {
            Some(f) => f.clone(),
            None => {
                return None;
            },
        };
        let endpoint_id = endpoint_of(from.as_str());
        let ec = chars_of(endpoint_id.as_str());
        let is_focus = chars_eq_str(ec.as_slice(), "focus");
        let participant = ParticipantPresence {
            from,
            endpoint_id,
            display_name: child_text_exec(stanza, "nick"),
            video_muted: muted_exec(stanza, "videomuted"),
            audio_muted: muted_exec(stanza, "audiomuted"),
            screenshare_muted: muted_exec(stanza, "screensharemuted"),
        };
        match stanza.get_attribute("type") {
            Some(t) => {
                let tc = chars_of(t.as_str());
                if !chars_eq_str(tc.as_slice(), "unavailable") {
                    None
                } else if is_focus {
                    Some(PresenceLifecycle::MeetingTerminated(participant))
                } else {
                    Some(PresenceLifecycle::ParticipantLeft(participant))
                }
            },
            None => Some(PresenceLifecycle::ParticipantJoined(participant)),
        }
    }
}

} // verus!
