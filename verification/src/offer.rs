//! Shaping the SDP offer handed to `webrtcbin`.
//!
//! The offer is first parsed with `webrtc_sdp`; its m-lines are then split so
//! that each primary SSRC gets an m-line (and a fresh `mid`) of its own, and
//! the session gets a BUNDLE group and an `msid-semantic` rebuilt from what
//! survived. The parser, the attribute store of an m-line and the printer are
//! `webrtc_sdp`'s; which m-lines come out and what they carry is decided
//! here.

use crate::answer::session_media;
use crate::jingle_media::{adjusted_msid, JingleMedia};
use crate::participant::opt_view;
use crate::text::{
    chars_eq_str, chars_of, decimal, push_decimal, seq_views, split_whitespace, string_from_chars,
    words,
};
use vstd::prelude::*;
use webrtc_sdp::attribute_type::{
    SdpAttribute, SdpAttributeGroup, SdpAttributeGroupSemantic, SdpAttributeMsidSemantic,
    SdpAttributeSsrc, SdpAttributeType, SdpSsrcGroupSemantic,
};
use webrtc_sdp::error::{SdpParserError, SdpParserInternalError};
use webrtc_sdp::media_type::{SdpMedia, SdpMediaValue};
use webrtc_sdp::{parse_sdp, SdpSession};

verus! {

#[verifier::external_type_specification]
#[verifier::external_body]
pub struct ExSdpSession(SdpSession);

#[verifier::external_type_specification]
#[verifier::external_body]
pub struct ExSdpMedia(SdpMedia);

#[verifier::external_type_specification]
#[verifier::external_body]
pub struct ExSdpAttribute(SdpAttribute);

#[verifier::external_type_specification]
#[verifier::external_body]
pub struct ExSdpSsrcGroupSemantic(SdpSsrcGroupSemantic);

#[verifier::external_type_specification]
#[verifier::external_body]
pub struct ExSdpParserError(SdpParserError);

#[verifier::external_type_specification]
#[verifier::external_body]
pub struct ExSdpParserInternalError(SdpParserInternalError);

/// One `a=ssrc:<id> <attribute>:<value>` line.
#[derive(Debug, Clone)]
pub struct SsrcLine {
    pub id: u32,
    pub attribute: Option<String>,
    pub value: Option<String>,
}

/// An `a=ssrc:` line as plain values.
pub struct SsrcView {
    pub id: u32,
    pub attribute: Option<Seq<char>>,
    pub value: Option<Seq<char>>,
}

impl View for SsrcLine {
    type V = SsrcView;

    open spec fn view(&self) -> SsrcView {
        SsrcView { id: self.id, attribute: opt_view(self.attribute), value: opt_view(self.value) }
    }
}

/// An m-line attribute, as far as the offer shaping reads it; every other
/// attribute is carried through untouched.
pub enum MediaAttr {
    Ssrc(SsrcLine),
    SsrcGroup(SdpSsrcGroupSemantic, Vec<SsrcLine>),
    Mid(String),
    Sendrecv,
    Sendonly,
    Other(SdpAttribute),
}

/// A media attribute as plain values.
pub enum AttrView {
    Ssrc(SsrcView),
    SsrcGroup(SdpSsrcGroupSemantic, Seq<SsrcView>),
    Mid(Seq<char>),
    Sendrecv,
    Sendonly,
    Other(SdpAttribute),
}

/// The views of a list of SSRC lines.
pub open spec fn ssrc_views(v: Seq<SsrcLine>) -> Seq<SsrcView> {
    v.map_values(|s: SsrcLine| s@)
}

impl View for MediaAttr {
    type V = AttrView;

    open spec fn view(&self) -> AttrView {
        match self {
            MediaAttr::Ssrc(s) => AttrView::Ssrc(s@),
            MediaAttr::SsrcGroup(g, v) => AttrView::SsrcGroup(*g, ssrc_views(v@)),
            MediaAttr::Mid(m) => AttrView::Mid(m@),
            MediaAttr::Sendrecv => AttrView::Sendrecv,
            MediaAttr::Sendonly => AttrView::Sendonly,
            MediaAttr::Other(a) => AttrView::Other(*a),
        }
    }
}

/// The views of a list of attributes.
pub open spec fn attr_views(v: Seq<MediaAttr>) -> Seq<AttrView> {
    v.map_values(|a: MediaAttr| a@)
}

/// The media type of an m-line.
#[derive(Debug, Clone)]
pub enum MediaKind {
    Audio,
    Video,
    Application,
    Unknown(String),
}

/// A media type as plain values.
pub enum KindView {
    Audio,
    Video,
    Application,
    Unknown(Seq<char>),
}

impl View for MediaKind {
    type V = KindView;

    open spec fn view(&self) -> KindView {
        match self {
            MediaKind::Audio => KindView::Audio,
            MediaKind::Video => KindView::Video,
            MediaKind::Application => KindView::Application,
            MediaKind::Unknown(s) => KindView::Unknown(s@),
        }
    }
}

/// How a media type is written on the m-line.
pub open spec fn kind_text(k: KindView) -> Seq<char> {
    match k {
        KindView::Audio => "audio"@,
        KindView::Video => "video"@,
        KindView::Application => "application"@,
        KindView::Unknown(s) => s,
    }
}

/// The attribute kinds the offer shaping removes or replaces.
#[derive(Debug, Clone, Copy, PartialEq, Eq, Structural)]
pub enum AttrKind {
    Ssrc,
    SsrcGroup,
    Sendonly,
    Sendrecv,
    Mid,
}

/// Whether an attribute is of the given kind.
pub open spec fn is_kind(a: AttrView, k: AttrKind) -> bool {
    match k {
        AttrKind::Ssrc => a is Ssrc,
        AttrKind::SsrcGroup => a is SsrcGroup,
        AttrKind::Sendonly => a is Sendonly,
        AttrKind::Sendrecv => a is Sendrecv,
        AttrKind::Mid => a is Mid,
    }
}

/// `attrs` without the attributes of kind `k`, the others in order.
pub open spec fn drop_kind(attrs: Seq<AttrView>, k: AttrKind) -> Seq<AttrView>
    decreases attrs.len(),
{
    if attrs.len() == 0 {
        seq![]
    } else {
        drop_kind(attrs.drop_last(), k) + if is_kind(attrs.last(), k) {
            seq![]
        } else {
            seq![attrs.last()]
        }
    }
}

/// The attributes of an m-line of `webrtc_sdp`, in order, as the offer
/// shaping sees them.
pub uninterp spec fn media_attributes(m: SdpMedia) -> Seq<AttrView>;

/// The media type of an m-line of `webrtc_sdp`.
pub uninterp spec fn media_kind(m: SdpMedia) -> KindView;

/// An m-line of `webrtc_sdp` without its attributes: its type, port,
/// protocol, formats, connection, bandwidths and the rest it holds besides
/// the attribute list.
pub uninterp spec fn media_frame(m: SdpMedia) -> SdpMedia;

/// Whether `webrtc_sdp::parse_sdp` accepts a text, warnings counting as
/// failures.
pub uninterp spec fn sdp_accepts(text: Seq<char>) -> bool;

/// The session `webrtc_sdp::parse_sdp` reads from a text it accepts.
pub uninterp spec fn parsed_sdp(text: Seq<char>) -> SdpSession;

/// A `webrtc_sdp` session with its m-lines replaced by `media`.
pub uninterp spec fn with_session_media(s: SdpSession, media: Seq<SdpMedia>) -> SdpSession;

/// A `webrtc_sdp` session after `add_attribute` of a BUNDLE group over `mids`.
pub uninterp spec fn with_bundle(s: SdpSession, mids: Seq<Seq<char>>) -> SdpSession;

/// A `webrtc_sdp` session after `add_attribute` of `a=msid-semantic: WMS` over
/// `msids`.
pub uninterp spec fn with_msid_semantic(s: SdpSession, msids: Seq<Seq<char>>) -> SdpSession;

/// The text a `webrtc_sdp` session prints.
pub uninterp spec fn printed_sdp(s: SdpSession) -> Seq<char>;

/// The first `mid` among `attrs`.
pub open spec fn first_mid(attrs: Seq<AttrView>) -> Option<Seq<char>>
    decreases attrs.len(),
{
    if attrs.len() == 0 {
        None
    } else {
        match first_mid(attrs.drop_last()) {
            Some(m) => Some(m),
            None => match attrs.last() {
                AttrView::Mid(m) => Some(m),
                _ => None,
            },
        }
    }
}

/// The `mid` of each m-line that has one, in order: what the BUNDLE group
/// lists.
pub open spec fn mids_of(lines: Seq<Seq<AttrView>>) -> Seq<Seq<char>>
    decreases lines.len(),
{
    if lines.len() == 0 {
        seq![]
    } else {
        mids_of(lines.drop_last()) + match first_mid(lines.last()) {
            Some(m) => seq![m],
            None => seq![],
        }
    }
}

/// The media stream an `a=ssrc:` line names: the first word of its msid.
pub open spec fn msid_stream(s: SsrcView) -> Option<Seq<char>> {
    if s.attribute == Some("msid"@) {
        match s.value {
            Some(v) => if words(v).len() > 0 {
                Some(words(v)[0])
            } else {
                None
            },
            None => None,
        }
    } else {
        None
    }
}

/// The media streams named by the `a=ssrc:` lines of `attrs`, in order.
pub open spec fn streams_in(attrs: Seq<AttrView>) -> Seq<Seq<char>>
    decreases attrs.len(),
{
    if attrs.len() == 0 {
        seq![]
    } else {
        streams_in(attrs.drop_last()) + match attrs.last() {
            AttrView::Ssrc(s) => match msid_stream(s) {
                Some(w) => seq![w],
                None => seq![],
            },
            _ => seq![],
        }
    }
}

/// The media streams named by the m-lines, in order, repeats included.
pub open spec fn streams_of(lines: Seq<Seq<AttrView>>) -> Seq<Seq<char>>
    decreases lines.len(),
{
    if lines.len() == 0 {
        seq![]
    } else {
        streams_of(lines.drop_last()) + streams_in(lines.last())
    }
}

/// The attributes of each m-line.
pub open spec fn attrs_of_lines(ms: Seq<SdpMedia>) -> Seq<Seq<AttrView>> {
    ms.map_values(|m: SdpMedia| media_attributes(m))
}

/// The views of a list of strings.
pub open spec fn string_views(v: Seq<String>) -> Seq<Seq<char>> {
    v.map_values(|s: String| s@)
}

/// Whether no element occurs twice.
pub open spec fn distinct(s: Seq<Seq<char>>) -> bool {
    forall|i: int, j: int| 0 <= i < j < s.len() ==> s[i] != s[j]
}

/// Whether `x` is in `s` after pushing `y`.
pub proof fn lemma_push_contains_u64(s: Seq<u64>, y: u64, x: u64)
    ensures
        s.push(y).contains(x) <==> (s.contains(x) || x == y),
{
    if s.contains(x) {
        let i = choose|i: int| 0 <= i < s.len() && s[i] == x;
        assert(s.push(y)[i] == x);
    }
    if x == y {
        assert(s.push(y)[s.len() as int] == y);
    }
    if s.push(y).contains(x) {
        let i = choose|i: int| 0 <= i < s.push(y).len() && s.push(y)[i] == x;
        if i < s.len() {
            assert(s[i] == x);
        }
    }
}

proof fn lemma_push_contains(s: Seq<Seq<char>>, y: Seq<char>, x: Seq<char>)
    ensures
        s.push(y).contains(x) <==> (s.contains(x) || x == y),
{
    if s.contains(x) {
        let i = choose|i: int| 0 <= i < s.len() && s[i] == x;
        assert(s.push(y)[i] == x);
    }
    if x == y {
        assert(s.push(y)[s.len() as int] == y);
    }
    if s.push(y).contains(x) {
        let i = choose|i: int| 0 <= i < s.push(y).len() && s.push(y)[i] == x;
        if i < s.len() {
            assert(s[i] == x);
        }
    }
}

/// Whether some `a=ssrc:` line of `attrs` is for `id`.
pub open spec fn mentions_ssrc(attrs: Seq<AttrView>, id: u32) -> bool
    decreases attrs.len(),
{
    attrs.len() > 0 && (mentions_ssrc(attrs.drop_last(), id) || (attrs.last() matches AttrView::Ssrc(
        s,
    ) && s.id == id))
}

/// Whether one of the m-lines produced so far carries `id`.
pub open spec fn claimed(lines: Seq<(int, Seq<AttrView>)>, id: u32) -> bool
    decreases lines.len(),
{
    lines.len() > 0 && (claimed(lines.drop_last(), id) || mentions_ssrc(lines.last().1, id))
}

/// The `a=ssrc:` lines of an m-line, in order.
pub open spec fn ssrc_entries(attrs: Seq<AttrView>) -> Seq<SsrcView>
    decreases attrs.len(),
{
    if attrs.len() == 0 {
        seq![]
    } else {
        ssrc_entries(attrs.drop_last()) + match attrs.last() {
            AttrView::Ssrc(s) => seq![s],
            _ => seq![],
        }
    }
}

/// Whether a group lists `id`.
pub open spec fn lists_ssrc(list: Seq<SsrcView>, id: u32) -> bool
    decreases list.len(),
{
    list.len() > 0 && (lists_ssrc(list.drop_last(), id) || list.last().id == id)
}

/// The first `a=ssrc-group:` of `attrs` that lists `id`.
pub open spec fn group_with(attrs: Seq<AttrView>, id: u32) -> Option<
    (SdpSsrcGroupSemantic, Seq<SsrcView>),
>
    decreases attrs.len(),
{
    if attrs.len() == 0 {
        None
    } else {
        match group_with(attrs.drop_last(), id) {
            Some(g) => Some(g),
            None => match attrs.last() {
                AttrView::SsrcGroup(g, list) => if lists_ssrc(list, id) {
                    Some((g, list))
                } else {
                    None
                },
                _ => None,
            },
        }
    }
}

/// The first member of a group that is not `id`.
pub open spec fn other_member(list: Seq<SsrcView>, id: u32) -> Option<SsrcView>
    decreases list.len(),
{
    if list.len() == 0 {
        None
    } else {
        match other_member(list.drop_last(), id) {
            Some(o) => Some(o),
            None => if list.last().id != id {
                Some(list.last())
            } else {
                None
            },
        }
    }
}

/// The first `a=ssrc:` line of `attrs` for `id`.
pub open spec fn first_ssrc_with(attrs: Seq<AttrView>, id: u32) -> Option<SsrcView>
    decreases attrs.len(),
{
    if attrs.len() == 0 {
        None
    } else {
        match first_ssrc_with(attrs.drop_last(), id) {
            Some(s) => Some(s),
            None => match attrs.last() {
                AttrView::Ssrc(s) => if s.id == id {
                    Some(s)
                } else {
                    None
                },
                _ => None,
            },
        }
    }
}

/// An `a=ssrc:` line whose msid is given in the form of the content named
/// `media`, with the track named after `kind`.
pub open spec fn with_msid_adjusted(s: SsrcView, media: Seq<char>, kind: Seq<char>) -> SsrcView {
    if s.attribute == Some("msid"@) {
        match s.value {
            Some(v) => SsrcView {
                id: s.id,
                attribute: s.attribute,
                value: Some(adjusted_msid(media, v, kind)),
            },
            None => s,
        }
    } else {
        s
    }
}

/// An m-line's attributes without its streams and direction.
pub open spec fn stripped(attrs: Seq<AttrView>) -> Seq<AttrView> {
    drop_kind(
        drop_kind(drop_kind(drop_kind(attrs, AttrKind::Ssrc), AttrKind::SsrcGroup), AttrKind::Sendonly),
        AttrKind::Sendrecv,
    )
}

/// `attrs` with its `mid` replaced.
pub open spec fn with_mid(attrs: Seq<AttrView>, mid: Seq<char>) -> Seq<AttrView> {
    drop_kind(attrs, AttrKind::Mid).push(AttrView::Mid(mid))
}

/// The SSRC lines of the m-line made for stream `e`: `e` itself, and when a
/// group lists it, the group's other member and the group.
pub open spec fn stream_ssrcs(attrs: Seq<AttrView>, e: SsrcView, media: Seq<char>, kind: Seq<char>) -> Seq<
    AttrView,
> {
    match group_with(attrs, e.id) {
        Some((g, list)) => seq![AttrView::Ssrc(with_msid_adjusted(e, media, kind))] + (
        match other_member(list, e.id) {
            Some(o) => match first_ssrc_with(attrs, o.id) {
                Some(os) => seq![AttrView::Ssrc(with_msid_adjusted(os, media, kind))],
                None => seq![],
            },
            None => seq![],
        }) + seq![AttrView::SsrcGroup(g, list)],
        None => seq![AttrView::Ssrc(e)],
    }
}

/// The attributes of the m-line made for stream `e` at `position` in the
/// offer: the source line's other attributes, its `mid`, its direction
/// (`sendrecv` for the first stream of the source line), then its SSRCs.
pub open spec fn stream_line(
    attrs: Seq<AttrView>,
    e: SsrcView,
    position: nat,
    first: bool,
    media: Seq<char>,
    kind: Seq<char>,
) -> Seq<AttrView> {
    with_mid(stripped(attrs), decimal(position)).push(
        if first {
            AttrView::Sendrecv
        } else {
            AttrView::Sendonly
        },
    ) + stream_ssrcs(attrs, e, media, kind)
}

/// The m-lines made from the streams `entries[i..]` of source line `src`,
/// appended to `acc`: a stream already carried by an earlier m-line is
/// skipped.
pub open spec fn split_entries(
    attrs: Seq<AttrView>,
    entries: Seq<SsrcView>,
    i: int,
    acc: Seq<(int, Seq<AttrView>)>,
    src: int,
    media: Seq<char>,
    kind: Seq<char>,
) -> Seq<(int, Seq<AttrView>)>
    decreases entries.len() - i,
{
    if i < 0 || i >= entries.len() {
        acc
    } else if claimed(acc, entries[i].id) {
        split_entries(attrs, entries, i + 1, acc, src, media, kind)
    } else {
        split_entries(
            attrs,
            entries,
            i + 1,
            acc.push((src, stream_line(attrs, entries[i], acc.len(), i == 0, media, kind))),
            src,
            media,
            kind,
        )
    }
}

/// The m-lines made from source lines `lines[i..]`, appended to `acc`: an
/// application line or one without SSRCs is kept with a fresh `mid`; any
/// other is split per stream.
pub open spec fn split_lines(
    lines: Seq<(KindView, Seq<AttrView>)>,
    i: int,
    acc: Seq<(int, Seq<AttrView>)>,
    media: Seq<char>,
) -> Seq<(int, Seq<AttrView>)>
    decreases lines.len() - i,
{
    if i < 0 || i >= lines.len() {
        acc
    } else {
        let kind = lines[i].0;
        let attrs = lines[i].1;
        let next = if kind is Application || ssrc_entries(attrs).len() == 0 {
            acc.push((i, with_mid(attrs, decimal(acc.len()))))
        } else {
            split_entries(attrs, ssrc_entries(attrs), 0, acc, i, media, kind_text(kind))
        };
        split_lines(lines, i + 1, next, media)
    }
}

/// The type and attributes of each m-line.
pub open spec fn line_views(lines: Seq<SdpMedia>) -> Seq<(KindView, Seq<AttrView>)> {
    lines.map_values(|m: SdpMedia| (media_kind(m), media_attributes(m)))
}

/// The m-lines of the offer made from `lines`, each with the index of the
/// line it was made from and its attributes; `media` is the content name the
/// msids are adjusted for.
pub open spec fn offer_lines(lines: Seq<SdpMedia>, media: Seq<char>) -> Seq<(int, Seq<AttrView>)> {
    split_lines(line_views(lines), 0, seq![], media)
}

/// Whether `nm` are the m-lines of the offer made from `lines`: as many as
/// [`offer_lines`] lists, each with the attributes it lists and the type of
/// the line it was made from.
pub open spec fn offered_lines(lines: Seq<SdpMedia>, media: Seq<char>, nm: Seq<SdpMedia>) -> bool {
    &&& nm.len() == offer_lines(lines, media).len()
    &&& forall|j: int|
        0 <= j < nm.len() ==> 0 <= #[trigger] offer_lines(lines, media)[j].0 < lines.len()
            && media_attributes(nm[j]) == offer_lines(lines, media)[j].1 && media_kind(nm[j])
            == media_kind(lines[offer_lines(lines, media)[j].0]) && media_frame(nm[j]) == media_frame(
            lines[offer_lines(lines, media)[j].0],
        )
}

/// Whether `ms` lists the media streams named by the m-lines `nm`, each once.
pub open spec fn stream_list(nm: Seq<SdpMedia>, ms: Seq<Seq<char>>) -> bool {
    &&& distinct(ms)
    &&& forall|x: Seq<char>| ms.contains(x) <==> streams_of(attrs_of_lines(nm)).contains(x)
}

/// The session of a shaped offer: `s` with the m-lines `nm`, then a BUNDLE
/// group over their mids when `bundle`, then `a=msid-semantic: WMS` over `ms`.
pub open spec fn shaped_session(
    s: SdpSession,
    nm: Seq<SdpMedia>,
    bundle: bool,
    ms: Seq<Seq<char>>,
) -> SdpSession {
    let lined = with_session_media(s, nm);
    let grouped = if bundle {
        with_bundle(lined, mids_of(attrs_of_lines(nm)))
    } else {
        lined
    };
    with_msid_semantic(grouped, ms)
}

/// Whether `out` is the offer shaped from the SDP `text`: the session it
/// parses to, printed after its m-lines are split for `media` (one per
/// stream), a BUNDLE group over the new mids is added when `bundle`, and the
/// streams the new m-lines name are listed once each in `a=msid-semantic`, in
/// some order.
pub open spec fn shaped_offer(text: Seq<char>, media: Seq<char>, bundle: bool, out: Seq<char>) -> bool {
    exists|nm: Seq<SdpMedia>, ms: Seq<Seq<char>>|
        offered_lines(session_media(parsed_sdp(text)), media, nm) && stream_list(nm, ms) && out
            == printed_sdp(#[trigger] shaped_session(parsed_sdp(text), nm, bundle, ms))
}

/// Whether the m-lines `ms[lo..]` were all made from source line `src`,
/// `line`: of its type, and like it but for their attributes.
pub open spec fn made_from(ms: Seq<SdpMedia>, srcs: Seq<usize>, lo: int, src: usize, line: SdpMedia) -> bool {
    forall|j: int|
        lo <= j < ms.len() ==> srcs[j] == src && #[trigger] media_kind(ms[j]) == media_kind(line)
            && media_frame(ms[j]) == media_frame(line)
}

/// The lines produced so far, with the indices of their sources.
pub open spec fn produced(ms: Seq<SdpMedia>, srcs: Seq<usize>) -> Seq<(int, Seq<AttrView>)> {
    Seq::new(ms.len(), |j: int| (srcs[j] as int, media_attributes(ms[j])))
}

/// A copy of an SSRC line.
fn copy_ssrc(s: &SsrcLine) -> (r: SsrcLine)
    ensures
        r@ == s@,
{
    SsrcLine {
        id: s.id,
        attribute: match &s.attribute {
            Some(a) => Some(a.clone()),
            None => None,
        },
        value: match &s.value {
            Some(v) => Some(v.clone()),
            None => None,
        },
    }
}

/// A copy of a list of SSRC lines.
fn copy_ssrcs(v: &Vec<SsrcLine>) -> (r: Vec<SsrcLine>)
    ensures
        ssrc_views(r@) == ssrc_views(v@),
{
    let mut r: Vec<SsrcLine> = Vec::new();
    let mut i: usize = 0;
    while i < v.len()
        invariant
            i <= v@.len(),
            ssrc_views(r@) == ssrc_views(v@.take(i as int)),
        decreases v@.len() - i,
    {
        let c = copy_ssrc(&v[i]);
        let ghost before = r@;
        r.push(c);
        assert(r@ == before.push(c));
        assert(ssrc_views(r@) =~= ssrc_views(before).push(c@));
        assert(v@.take(i + 1) =~= v@.take(i as int).push(v@[i as int]));
        assert(ssrc_views(v@.take(i + 1)) =~= ssrc_views(v@.take(i as int)).push(v@[i as int]@));
        i += 1;
    }
    assert(v@.take(i as int) =~= v@);
    r
}

/// The decimal text of `n`, as `Display` writes it.
fn decimal_string(n: usize) -> (r: String)
    ensures
        r@ == decimal(n as nat),
{
    let mut v: Vec<char> = Vec::new();
    push_decimal(&mut v, n as u128);
    assert(v@ =~= decimal(n as nat));
    string_from_chars(v.as_slice())
}

/// How a media type is written on the m-line, as `SdpMediaValue`'s `Display`
/// writes it.
pub fn kind_name(k: &MediaKind) -> (r: String)
    ensures
        r@ == kind_text(k@),
{
    match k {
        MediaKind::Audio => String::from_str("audio"),
        MediaKind::Video => String::from_str("video"),
        MediaKind::Application => String::from_str("application"),
        MediaKind::Unknown(s) => s.clone(),
    }
}

/// The `a=ssrc:` lines of an m-line.
fn ssrc_entries_of(attrs: &Vec<MediaAttr>) -> (r: Vec<SsrcLine>)
    ensures
        ssrc_views(r@) == ssrc_entries(attr_views(attrs@)),
{
    let ghost a = attr_views(attrs@);
    let mut r: Vec<SsrcLine> = Vec::new();
    let mut i: usize = 0;
    while i < attrs.len()
        invariant
            i <= attrs@.len(),
            a == attr_views(attrs@),
            ssrc_views(r@) == ssrc_entries(a.take(i as int)),
        decreases attrs@.len() - i,
    {
        assert(a.take(i + 1).drop_last() =~= a.take(i as int));
        match &attrs[i] {
            MediaAttr::Ssrc(s) => {
                let c = copy_ssrc(s);
                r.push(c);
                assert(ssrc_views(r@) =~= ssrc_entries(a.take(i + 1)));
            },
            _ => {
                assert(ssrc_views(r@) =~= ssrc_entries(a.take(i + 1)));
            },
        }
        i += 1;
    }
    assert(a.take(i as int) =~= a);
    r
}

/// Whether an m-line's attributes include an `a=ssrc:` line for `id`.
fn mentions_ssrc_exec(attrs: &Vec<MediaAttr>, id: u32) -> (r: bool)
    ensures
        r == mentions_ssrc(attr_views(attrs@), id),
{
    let ghost a = attr_views(attrs@);
    let mut found = false;
    let mut i: usize = 0;
    while i < attrs.len()
        invariant
            i <= attrs@.len(),
            a == attr_views(attrs@),
            found == mentions_ssrc(a.take(i as int), id),
        decreases attrs@.len() - i,
    {
        assert(a.take(i + 1).drop_last() =~= a.take(i as int));
        match &attrs[i] {
            MediaAttr::Ssrc(s) => {
                if s.id == id {
                    found = true;
                }
            },
            _ => {},
        }
        i += 1;
    }
    assert(a.take(i as int) =~= a);
    found
}

/// Whether one of the m-lines made so far carries `id`.
fn claimed_exec(new_media: &Vec<SdpMedia>, sources: &Vec<usize>, id: u32) -> (r: bool)
    requires
        new_media@.len() == sources@.len(),
    ensures
        r == claimed(produced(new_media@, sources@), id),
{
    let ghost acc = produced(new_media@, sources@);
    let mut found = false;
    let mut j: usize = 0;
    while j < new_media.len()
        invariant
            j <= new_media@.len(),
            new_media@.len() == sources@.len(),
            acc == produced(new_media@, sources@),
            found == claimed(acc.take(j as int), id),
        decreases new_media@.len() - j,
    {
        assert(acc.take(j + 1).drop_last() =~= acc.take(j as int));
        let attrs = attributes_of(&new_media[j]);
        if mentions_ssrc_exec(&attrs, id) {
            found = true;
        }
        j += 1;
    }
    assert(acc.take(j as int) =~= acc);
    found
}

/// The index of the first `a=ssrc-group:` that lists `id`.
fn find_group(attrs: &Vec<MediaAttr>, id: u32) -> (r: Option<usize>)
    ensures
        match r {
            Some(i) => i < attrs@.len() && match attrs@[i as int] {
                MediaAttr::SsrcGroup(g, list) => group_with(attr_views(attrs@), id) == Some(
                    (g, ssrc_views(list@)),
                ),
                _ => false,
            },
            None => group_with(attr_views(attrs@), id) is None,
        },
{
    let ghost a = attr_views(attrs@);
    let mut i: usize = 0;
    while i < attrs.len()
        invariant
            i <= attrs@.len(),
            a == attr_views(attrs@),
            group_with(a.take(i as int), id) is None,
        decreases attrs@.len() - i,
    {
        assert(a.take(i + 1).drop_last() =~= a.take(i as int));
        match &attrs[i] {
            MediaAttr::SsrcGroup(g, list) => {
                let mut k: usize = 0;
                let mut listed = false;
                let ghost l = ssrc_views(list@);
                while k < list.len()
                    invariant
                        k <= list@.len(),
                        l == ssrc_views(list@),
                        listed == lists_ssrc(l.take(k as int), id),
                    decreases list@.len() - k,
                {
                    assert(l.take(k + 1).drop_last() =~= l.take(k as int));
                    if list[k].id == id {
                        listed = true;
                    }
                    k += 1;
                }
                assert(l.take(k as int) =~= l);
                if listed {
                    proof {
                        lemma_group_with_prefix(a, i as int, id);
                    }
                    return Some(i);
                }
            },
            _ => {},
        }
        i += 1;
    }
    assert(a.take(i as int) =~= a);
    None
}

/// Once a prefix of `attrs` has a group listing `id`, so has `attrs`, and it
/// is the same group.
proof fn lemma_group_with_prefix(attrs: Seq<AttrView>, i: int, id: u32)
    requires
        0 <= i < attrs.len(),
        group_with(attrs.take(i + 1), id) is Some,
    ensures
        group_with(attrs, id) == group_with(attrs.take(i + 1), id),
    decreases attrs.len() - i,
{
    if i + 1 == attrs.len() {
        assert(attrs.take(i + 1) =~= attrs);
    } else {
        assert(attrs.take(i + 2).drop_last() =~= attrs.take(i + 1));
        lemma_group_with_prefix(attrs, i + 1, id);
    }
}

/// The index of the first member of a group that is not `id`.
fn find_other(list: &Vec<SsrcLine>, id: u32) -> (r: Option<usize>)
    ensures
        match r {
            Some(k) => k < list@.len() && other_member(ssrc_views(list@), id) == Some(
                list@[k as int]@,
            ),
            None => other_member(ssrc_views(list@), id) is None,
        },
{
    let ghost l = ssrc_views(list@);
    let mut k: usize = 0;
    while k < list.len()
        invariant
            k <= list@.len(),
            l == ssrc_views(list@),
            other_member(l.take(k as int), id) is None,
        decreases list@.len() - k,
    {
        assert(l.take(k + 1).drop_last() =~= l.take(k as int));
        if list[k].id != id {
            proof {
                lemma_other_member_prefix(l, k as int, id);
            }
            return Some(k);
        }
        k += 1;
    }
    assert(l.take(k as int) =~= l);
    None
}

proof fn lemma_other_member_prefix(list: Seq<SsrcView>, k: int, id: u32)
    requires
        0 <= k < list.len(),
        other_member(list.take(k + 1), id) is Some,
    ensures
        other_member(list, id) == other_member(list.take(k + 1), id),
    decreases list.len() - k,
{
    if k + 1 == list.len() {
        assert(list.take(k + 1) =~= list);
    } else {
        assert(list.take(k + 2).drop_last() =~= list.take(k + 1));
        lemma_other_member_prefix(list, k + 1, id);
    }
}

/// The index of the first `a=ssrc:` line for `id`.
fn find_ssrc(attrs: &Vec<MediaAttr>, id: u32) -> (r: Option<usize>)
    ensures
        match r {
            Some(i) => i < attrs@.len() && match attrs@[i as int] {
                MediaAttr::Ssrc(s) => first_ssrc_with(attr_views(attrs@), id) == Some(s@),
                _ => false,
            },
            None => first_ssrc_with(attr_views(attrs@), id) is None,
        },
{
    let ghost a = attr_views(attrs@);
    let mut i: usize = 0;
    while i < attrs.len()
        invariant
            i <= attrs@.len(),
            a == attr_views(attrs@),
            first_ssrc_with(a.take(i as int), id) is None,
        decreases attrs@.len() - i,
    {
        assert(a.take(i + 1).drop_last() =~= a.take(i as int));
        match &attrs[i] {
            MediaAttr::Ssrc(s) => {
                if s.id == id {
                    proof {
                        lemma_first_ssrc_prefix(a, i as int, id);
                    }
                    return Some(i);
                }
            },
            _ => {},
        }
        i += 1;
    }
    assert(a.take(i as int) =~= a);
    None
}

proof fn lemma_first_ssrc_prefix(attrs: Seq<AttrView>, i: int, id: u32)
    requires
        0 <= i < attrs.len(),
        first_ssrc_with(attrs.take(i + 1), id) is Some,
    ensures
        first_ssrc_with(attrs, id) == first_ssrc_with(attrs.take(i + 1), id),
    decreases attrs.len() - i,
{
    if i + 1 == attrs.len() {
        assert(attrs.take(i + 1) =~= attrs);
    } else {
        assert(attrs.take(i + 2).drop_last() =~= attrs.take(i + 1));
        lemma_first_ssrc_prefix(attrs, i + 1, id);
    }
}

/// An SSRC line with its msid adjusted as [`with_msid_adjusted`] says.
fn adjust_entry(s: &SsrcLine, media: &JingleMedia, kind: &str) -> (r: SsrcLine)
    ensures
        r@ == with_msid_adjusted(s@, media.media@, kind@),
{
    let mut r = copy_ssrc(s);
    let is_msid = match &s.attribute {
        Some(a) => {
            let ac = chars_of(a.as_str());
            chars_eq_str(ac.as_slice(), "msid")
        },
        None => false,
    };
    if is_msid {
        match &s.value {
            Some(v) => {
                r.value = Some(media.adjust_msid_semantic(v.as_str(), kind));
            },
            None => {},
        }
    }
    r
}

/// Adds the SSRC lines of the m-line made for stream `e`.
fn push_stream_ssrcs(
    nl: &mut SdpMedia,
    attrs: &Vec<MediaAttr>,
    e: &SsrcLine,
    media: &JingleMedia,
    kind: &str,
)
    ensures
        media_attributes(*final(nl)) == media_attributes(*old(nl)) + stream_ssrcs(
            attr_views(attrs@),
            e@,
            media.media@,
            kind@,
        ),
        media_kind(*final(nl)) == media_kind(*old(nl)),
        media_frame(*final(nl)) == media_frame(*old(nl)),
{
    let ghost a = attr_views(attrs@);
    let ghost start = media_attributes(*nl);
    match find_group(attrs, e.id) {
        Some(gi) => {
            match &attrs[gi] {
                MediaAttr::SsrcGroup(g, list) => {
                    let adj = adjust_entry(e, media, kind);
                    let _ = add_attr(nl, MediaAttr::Ssrc(adj));
                    let ghost after_self = media_attributes(*nl);
                    match find_other(list, e.id) {
                        Some(k) => {
                            match find_ssrc(attrs, list[k].id) {
                                Some(si) => {
                                    match &attrs[si] {
                                        MediaAttr::Ssrc(os) => {
                                            let oadj = adjust_entry(os, media, kind);
                                            let _ = add_attr(nl, MediaAttr::Ssrc(oadj));
                                        },
                                        _ => {},
                                    }
                                },
                                None => {},
                            }
                        },
                        None => {},
                    }
                    let ghost after_other = media_attributes(*nl);
                    let sem = copy_semantic(g);
                    let members = copy_ssrcs(list);
                    let _ = add_attr(nl, MediaAttr::SsrcGroup(sem, members));
                    assert(media_attributes(*nl) =~= start + stream_ssrcs(a, e@, media.media@, kind@));
                },
                _ => {},
            }
        },
        None => {
            let c = copy_ssrc(e);
            let _ = add_attr(nl, MediaAttr::Ssrc(c));
            assert(media_attributes(*nl) =~= start + stream_ssrcs(a, e@, media.media@, kind@));
        },
    }
}

/// The m-line made for stream `e` of `line`, at `position` in the offer.
fn stream_line_exec(
    line: &SdpMedia,
    attrs: &Vec<MediaAttr>,
    e: &SsrcLine,
    position: usize,
    first: bool,
    media: &JingleMedia,
    kind: &str,
) -> (r: SdpMedia)
    requires
        attr_views(attrs@) == media_attributes(*line),
    ensures
        media_attributes(r) == stream_line(
            attr_views(attrs@),
            e@,
            position as nat,
            first,
            media.media@,
            kind@,
        ),
        media_kind(r) == media_kind(*line),
        media_frame(r) == media_frame(*line),
{
    let mut nl = clone_media(line);
    remove_kind(&mut nl, AttrKind::Ssrc);
    remove_kind(&mut nl, AttrKind::SsrcGroup);
    remove_kind(&mut nl, AttrKind::Sendonly);
    remove_kind(&mut nl, AttrKind::Sendrecv);
    let _ = set_mid(&mut nl, decimal_string(position));
    if first {
        let _ = add_attr(&mut nl, MediaAttr::Sendrecv);
    } else {
        let _ = add_attr(&mut nl, MediaAttr::Sendonly);
    }
    push_stream_ssrcs(&mut nl, attrs, e, media, kind);
    nl
}

/// Appends the m-lines made from the streams of source line `src`.
#[verifier::spinoff_prover]
fn split_streams(
    line: &SdpMedia,
    src: usize,
    kind: &str,
    media: &JingleMedia,
    new_media: &mut Vec<SdpMedia>,
    sources: &mut Vec<usize>,
)
    requires
        old(new_media)@.len() == old(sources)@.len(),
    ensures
        final(new_media)@.len() == final(sources)@.len(),
        produced(final(new_media)@, final(sources)@) == split_entries(
            media_attributes(*line),
            ssrc_entries(media_attributes(*line)),
            0,
            produced(old(new_media)@, old(sources)@),
            src as int,
            media.media@,
            kind@,
        ),
        old(new_media)@.len() <= final(new_media)@.len(),
        forall|j: int|
            0 <= j < old(new_media)@.len() ==> final(new_media)@[j] == old(new_media)@[j]
                && final(sources)@[j] == old(sources)@[j],
        made_from(final(new_media)@, final(sources)@, old(new_media)@.len() as int, src, *line),
{
    let attrs = attributes_of(line);
    let entries = ssrc_entries_of(&attrs);
    let ghost a = attr_views(attrs@);
    let ghost es = ssrc_entries(a);
    let ghost acc0 = produced(new_media@, sources@);
    let ghost n0 = new_media@.len();
    let ghost m0 = new_media@;
    let ghost s0 = sources@;
    let mut k: usize = 0;
    while k < entries.len()
        invariant
            k <= entries@.len(),
            a == attr_views(attrs@),
            a == media_attributes(*line),
            es == ssrc_entries(a),
            ssrc_views(entries@) == es,
            new_media@.len() == sources@.len(),
            n0 <= new_media@.len(),
            m0.len() == n0,
            s0.len() == n0,
            split_entries(a, es, 0, acc0, src as int, media.media@, kind@) == split_entries(
                a,
                es,
                k as int,
                produced(new_media@, sources@),
                src as int,
                media.media@,
                kind@,
            ),
            forall|j: int| 0 <= j < n0 ==> new_media@[j] == m0[j] && sources@[j] == s0[j],
            made_from(new_media@, sources@, n0 as int, src, *line),
        decreases entries@.len() - k,
    {
        let e = &entries[k];
        assert(es[k as int] == e@);
        let ghost acc = produced(new_media@, sources@);
        let ghost before_m = new_media@;
        let already = claimed_exec(new_media, sources, e.id);
        assert(new_media@ == before_m);
        if !already {
            let nl = stream_line_exec(line, &attrs, e, new_media.len(), k == 0, media, kind);
            let ghost before_s = sources@;
            new_media.push(nl);
            sources.push(src);
            assert(new_media@ == before_m.push(nl));
            assert(sources@ == before_s.push(src));
            assert forall|j: int| n0 <= j < new_media@.len() implies sources@[j] == src
                && #[trigger] media_kind(new_media@[j]) == media_kind(*line) && media_frame(new_media@[j])
                == media_frame(*line) by {
                if j < before_m.len() {
                    assert(new_media@[j] == before_m[j]);
                    assert(sources@[j] == before_s[j]);
                }
            }
            assert(produced(new_media@, sources@) =~= acc.push(
                (src as int, stream_line(a, es[k as int], acc.len(), k == 0, media.media@, kind@)),
            ));
        }
        k += 1;
    }
}

/// Splits the m-lines of an offer so that each primary SSRC gets an m-line of
/// its own, as [`offer_lines`] describes: every m-line comes out with a fresh
/// `mid` (its position), the first stream of a source line stays
/// `sendrecv`, the others become `sendonly`, and a stream travels with the
/// other member of its SSRC group and the group itself.
///
/// A grouped stream's msid is adjusted with [`JingleMedia::adjust_msid_semantic`]:
/// audio or not is decided by `media`'s content name (that of the content
/// read last), and the m-line's type is the track suffix. It is not decided
/// by each m-line's own type, nor suffixed with the new `mid`.
pub fn split_media_lines(lines: &Vec<SdpMedia>, media: &JingleMedia) -> (r: Vec<SdpMedia>)
    ensures
        offered_lines(lines@, media.media@, r@),
{
    let ghost views = line_views(lines@);
    let mut new_media: Vec<SdpMedia> = Vec::new();
    let mut sources: Vec<usize> = Vec::new();
    let mut i: usize = 0;
    assert(produced(new_media@, sources@) =~= Seq::<(int, Seq<AttrView>)>::empty());
    while i < lines.len()
        invariant
            i <= lines@.len(),
            views == line_views(lines@),
            new_media@.len() == sources@.len(),
            split_lines(views, 0, seq![], media.media@) == split_lines(
                views,
                i as int,
                produced(new_media@, sources@),
                media.media@,
            ),
            forall|j: int|
                0 <= j < new_media@.len() ==> sources@[j] < i && media_kind(new_media@[j])
                    == media_kind(lines@[sources@[j] as int]) && media_frame(new_media@[j]) == media_frame(
                    lines@[sources@[j] as int],
                ),
        decreases lines@.len() - i,
    {
        let line = &lines[i];
        let kind = kind_of_media(line);
        let attrs = attributes_of(line);
        let entries = ssrc_entries_of(&attrs);
        let ghost acc = produced(new_media@, sources@);
        assert(views[i as int] == (media_kind(*line), media_attributes(*line)));
        let is_application = match kind {
            MediaKind::Application => true,
            _ => false,
        };
        if is_application || entries.len() == 0 {
            let mut nl = clone_media(line);
            let _ = set_mid(&mut nl, decimal_string(new_media.len()));
            new_media.push(nl);
            sources.push(i);
            assert(produced(new_media@, sources@) =~= acc.push(
                (i as int, with_mid(media_attributes(*line), decimal(acc.len()))),
            ));
        } else {
            let name = kind_name(&kind);
            split_streams(line, i, name.as_str(), media, &mut new_media, &mut sources);
        }
        i += 1;
    }
    let ghost fin = produced(new_media@, sources@);
    assert(split_lines(views, i as int, fin, media.media@) == fin);
    assert forall|j: int| 0 <= j < new_media@.len() implies 0 <= #[trigger] offer_lines(
        lines@,
        media.media@,
    )[j].0 < lines@.len() && media_attributes(new_media@[j]) == offer_lines(
        lines@,
        media.media@,
    )[j].1 && media_kind(new_media@[j]) == media_kind(
        lines@[offer_lines(lines@, media.media@)[j].0],
    ) && media_frame(new_media@[j]) == media_frame(lines@[offer_lines(lines@, media.media@)[j].0]) by {
        assert(offer_lines(lines@, media.media@)[j] == fin[j]);
    }
    new_media
}

/// The `mid` of each m-line that has one, in order.
pub(crate) fn mids_exec(new_media: &Vec<SdpMedia>) -> (r: Vec<String>)
    ensures
        string_views(r@) == mids_of(attrs_of_lines(new_media@)),
{
    let ghost ls = attrs_of_lines(new_media@);
    let mut r: Vec<String> = Vec::new();
    let mut j: usize = 0;
    while j < new_media.len()
        invariant
            j <= new_media@.len(),
            ls == attrs_of_lines(new_media@),
            string_views(r@) == mids_of(ls.take(j as int)),
        decreases new_media@.len() - j,
    {
        assert(ls.take(j + 1).drop_last() =~= ls.take(j as int));
        let attrs = attributes_of(&new_media[j]);
        let ghost a = attr_views(attrs@);
        assert(ls[j as int] == a);
        let mut found: Option<usize> = None;
        let mut i: usize = 0;
        while i < attrs.len()
            invariant
                i <= attrs@.len(),
                a == attr_views(attrs@),
                match found {
                    Some(k) => k < attrs@.len() && (attrs@[k as int] matches MediaAttr::Mid(m)
                        && first_mid(a.take(i as int)) == Some(m@)),
                    None => first_mid(a.take(i as int)) is None,
                },
            decreases attrs@.len() - i,
        {
            assert(a.take(i + 1).drop_last() =~= a.take(i as int));
            if found.is_none() {
                match &attrs[i] {
                    MediaAttr::Mid(_) => {
                        found = Some(i);
                    },
                    _ => {},
                }
            }
            i += 1;
        }
        assert(a.take(i as int) =~= a);
        let ghost before = string_views(r@);
        match found {
            Some(k) => {
                match &attrs[k] {
                    MediaAttr::Mid(m) => {
                        r.push(m.clone());
                        assert(string_views(r@) =~= before.push(m@));
                    },
                    _ => {},
                }
            },
            None => {},
        }
        assert(string_views(r@) =~= mids_of(ls.take(j + 1)));
        j += 1;
    }
    assert(ls.take(j as int) =~= ls);
    r
}

/// Adds `w` to `r` unless it is there already.
fn add_unique(r: &mut Vec<String>, w: String)
    requires
        distinct(string_views(old(r)@)),
    ensures
        distinct(string_views(final(r)@)),
        forall|x: Seq<char>|
            string_views(final(r)@).contains(x) <==> (string_views(old(r)@).contains(x) || x
                == w@),
{
    let ghost before = string_views(r@);
    let mut k: usize = 0;
    while k < r.len()
        invariant
            k <= r@.len(),
            r@ == old(r)@,
            before == string_views(r@),
            distinct(before),
            forall|i: int| 0 <= i < k ==> before[i] != w@,
        decreases r@.len() - k,
    {
        if r[k] == w {
            assert(before[k as int] == w@);
            assert forall|x: Seq<char>| before.contains(x) <==> (before.contains(x) || x == w@) by {
                if x == w@ {
                    assert(before[k as int] == x);
                }
            }
            return;
        }
        k += 1;
    }
    let ghost wv = w@;
    r.push(w);
    assert(string_views(r@) =~= before.push(wv));
    assert forall|x: Seq<char>| string_views(r@).contains(x) <==> (before.contains(x) || x == wv) by {
        lemma_push_contains(before, wv, x);
    }
}

/// The media streams named by the m-lines, each once.
pub(crate) fn msids_exec(new_media: &Vec<SdpMedia>) -> (r: Vec<String>)
    ensures
        distinct(string_views(r@)),
        forall|x: Seq<char>|
            string_views(r@).contains(x) <==> streams_of(attrs_of_lines(new_media@)).contains(x),
{
    let ghost ls = attrs_of_lines(new_media@);
    let mut r: Vec<String> = Vec::new();
    let mut j: usize = 0;
    while j < new_media.len()
        invariant
            j <= new_media@.len(),
            ls == attrs_of_lines(new_media@),
            distinct(string_views(r@)),
            forall|x: Seq<char>|
                string_views(r@).contains(x) <==> streams_of(ls.take(j as int)).contains(x),
        decreases new_media@.len() - j,
    {
        assert(ls.take(j + 1).drop_last() =~= ls.take(j as int));
        let attrs = attributes_of(&new_media[j]);
        let ghost a = attr_views(attrs@);
        let ghost base = streams_of(ls.take(j as int));
        assert(ls[j as int] == a);
        let mut i: usize = 0;
        while i < attrs.len()
            invariant
                i <= attrs@.len(),
                a == attr_views(attrs@),
                distinct(string_views(r@)),
                forall|x: Seq<char>|
                    string_views(r@).contains(x) <==> (base + streams_in(a.take(i as int))).contains(
                        x,
                    ),
            decreases attrs@.len() - i,
        {
            assert(a.take(i + 1).drop_last() =~= a.take(i as int));
            let ghost prev = base + streams_in(a.take(i as int));
            match &attrs[i] {
                MediaAttr::Ssrc(s) => {
                    let stream = msid_stream_exec(s);
                    match stream {
                        Some(w) => {
                            let ghost wv = w@;
                            add_unique(&mut r, w);
                            assert(base + streams_in(a.take(i + 1)) =~= prev.push(wv));
                            assert forall|x: Seq<char>| string_views(r@).contains(x) <==> (base
                                + streams_in(a.take(i + 1))).contains(x) by {
                                lemma_push_contains(prev, wv, x);
                            }
                        },
                        None => {
                            assert(base + streams_in(a.take(i + 1)) =~= prev);
                        },
                    }
                },
                _ => {
                    assert(base + streams_in(a.take(i + 1)) =~= prev);
                },
            }
            i += 1;
        }
        assert(a.take(i as int) =~= a);
        assert(streams_of(ls.take(j + 1)) =~= base + streams_in(a));
        j += 1;
    }
    assert(ls.take(j as int) =~= ls);
    r
}

/// The media stream an `a=ssrc:` line names, if it is an msid line.
fn msid_stream_exec(s: &SsrcLine) -> (r: Option<String>)
    ensures
        opt_view(r) == msid_stream(s@),
{
    let is_msid = match &s.attribute {
        Some(a) => {
            let ac = chars_of(a.as_str());
            chars_eq_str(ac.as_slice(), "msid")
        },
        None => false,
    };
    if !is_msid {
        return None;
    }
    match &s.value {
        Some(v) => {
            let vc = chars_of(v.as_str());
            let ws = split_whitespace(vc.as_slice());
            if ws.len() > 0 {
                assert(seq_views(ws@)[0] == ws@[0]@);
                Some(string_from_chars(ws[0].as_slice()))
            } else {
                None
            }
        },
        None => None,
    }
}

/// Trusted: calls `webrtc_sdp::parse_sdp` with `fail_on_warning` set. Claims
/// that whether it succeeds, and the session it reads, depend on the text
/// alone (named [`sdp_accepts`] and [`parsed_sdp`]).
#[verifier::external_body]
pub(crate) fn parse_offer(text: &str) -> (r: Result<SdpSession, SdpParserError>)
    ensures
        r is Ok <==> sdp_accepts(text@),
        r matches Ok(s) ==> s == parsed_sdp(text@),
{
    parse_sdp(text, true)
}

/// Trusted: stores `media` in the `media` field of a `webrtc_sdp::SdpSession`;
/// the session that results depends on the two alone (named
/// [`with_session_media`]).
#[verifier::external_body]
pub(crate) fn put_media(s: &mut SdpSession, media: Vec<SdpMedia>)
    ensures
        *final(s) == with_session_media(*old(s), media@),
{
    s.media = media;
}

/// Trusted: `SdpSession::add_attribute` with a BUNDLE group over `mids`. Claims
/// success (a group is allowed at session level, the only check it makes) and
/// that the session that results depends on the session and the mids alone
/// (named [`with_bundle`]).
#[verifier::external_body]
pub(crate) fn add_bundle_group(s: &mut SdpSession, mids: Vec<String>) -> (r: Result<
    (),
    SdpParserInternalError,
>)
    ensures
        r is Ok,
        *final(s) == with_bundle(*old(s), string_views(mids@)),
{
    s.add_attribute(
        SdpAttribute::Group(
            SdpAttributeGroup { semantics: SdpAttributeGroupSemantic::Bundle, tags: mids },
        ),
    )
}

/// Trusted: `SdpSession::add_attribute` with `a=msid-semantic: WMS` over
/// `msids`. Claims success (the attribute is allowed at session level, the only
/// check it makes) and that the session that results depends on the session
/// and the msids alone (named [`with_msid_semantic`]).
#[verifier::external_body]
pub(crate) fn add_msid_semantic(s: &mut SdpSession, msids: Vec<String>) -> (r: Result<
    (),
    SdpParserInternalError,
>)
    ensures
        r is Ok,
        *final(s) == with_msid_semantic(*old(s), string_views(msids@)),
{
    s.add_attribute(
        SdpAttribute::MsidSemantic(SdpAttributeMsidSemantic { semantic: "WMS".to_string(), msids }),
    )
}

/// Trusted: prints a `webrtc_sdp::SdpSession` with its `Display`. Claims the
/// text depends on the session alone (named [`printed_sdp`]).
#[verifier::external_body]
pub(crate) fn session_text(s: &SdpSession) -> (r: String)
    ensures
        r@ == printed_sdp(*s),
{
    s.to_string()
}

/// Trusted: `SdpMedia::clone` (derived). Claims the copy has the same type,
/// attributes and all else (named [`media_frame`]).
#[verifier::external_body]
fn clone_media(m: &SdpMedia) -> (r: SdpMedia)
    ensures
        media_attributes(r) == media_attributes(*m),
        media_kind(r) == media_kind(*m),
        media_frame(r) == media_frame(*m),
{
    m.clone()
}

/// Trusted: `SdpMedia::get_type`, converted variant for variant.
#[verifier::external_body]
pub(crate) fn kind_of_media(m: &SdpMedia) -> (r: MediaKind)
    ensures
        r@ == media_kind(*m),
{
    match m.get_type() {
        SdpMediaValue::Audio => MediaKind::Audio,
        SdpMediaValue::Video => MediaKind::Video,
        SdpMediaValue::Application => MediaKind::Application,
        SdpMediaValue::Unknown(s) => MediaKind::Unknown(s.clone()),
    }
}

/// Trusted: `SdpMedia::get_attributes`, each attribute converted variant for
/// variant (the ones not read here kept whole).
#[verifier::external_body]
pub(crate) fn attributes_of(m: &SdpMedia) -> (r: Vec<MediaAttr>)
    ensures
        attr_views(r@) == media_attributes(*m),
{
    let line = |s: &SdpAttributeSsrc|
        SsrcLine { id: s.id, attribute: s.attribute.clone(), value: s.value.clone() };
    m.get_attributes().iter().map(
        |a| match a {
            SdpAttribute::Ssrc(s) => MediaAttr::Ssrc(line(s)),
            SdpAttribute::SsrcGroup(g, v) => MediaAttr::SsrcGroup(g.clone(), v.iter().map(line).collect()),
            SdpAttribute::Mid(x) => MediaAttr::Mid(x.clone()),
            SdpAttribute::Sendrecv => MediaAttr::Sendrecv,
            SdpAttribute::Sendonly => MediaAttr::Sendonly,
            other => MediaAttr::Other(other.clone()),
        },
    ).collect()
}

/// Trusted: `SdpMedia::remove_attribute`, which keeps the attributes of every
/// other type, in order, and touches nothing but the attribute list.
#[verifier::external_body]
fn remove_kind(m: &mut SdpMedia, k: AttrKind)
    ensures
        media_attributes(*final(m)) == drop_kind(media_attributes(*old(m)), k),
        media_kind(*final(m)) == media_kind(*old(m)),
        media_frame(*final(m)) == media_frame(*old(m)),
{
    m.remove_attribute(
        match k {
            AttrKind::Ssrc => SdpAttributeType::Ssrc,
            AttrKind::SsrcGroup => SdpAttributeType::SsrcGroup,
            AttrKind::Sendonly => SdpAttributeType::Sendonly,
            AttrKind::Sendrecv => SdpAttributeType::Sendrecv,
            AttrKind::Mid => SdpAttributeType::Mid,
        },
    )
}

/// Trusted: `SdpMedia::set_attribute` with `a=mid:`, which removes every `mid`
/// and appends the new one, touching nothing but the attribute list. Claims
/// success: a `mid` is allowed at media level.
#[verifier::external_body]
fn set_mid(m: &mut SdpMedia, mid: String) -> (r: Result<(), SdpParserInternalError>)
    ensures
        r is Ok,
        media_attributes(*final(m)) == drop_kind(media_attributes(*old(m)), AttrKind::Mid).push(
            AttrView::Mid(mid@),
        ),
        media_kind(*final(m)) == media_kind(*old(m)),
        media_frame(*final(m)) == media_frame(*old(m)),
{
    m.set_attribute(SdpAttribute::Mid(mid))
}

/// Trusted: `SdpMedia::add_attribute`, which appends to the attribute list and
/// touches nothing else. Claims success for the attributes built here, all of
/// which are allowed at media level.
#[verifier::external_body]
fn add_attr(m: &mut SdpMedia, a: MediaAttr) -> (r: Result<(), SdpParserInternalError>)
    requires
        !(a is Other),
    ensures
        r is Ok,
        media_attributes(*final(m)) == media_attributes(*old(m)).push(a@),
        media_kind(*final(m)) == media_kind(*old(m)),
        media_frame(*final(m)) == media_frame(*old(m)),
{
    let line = |s: SsrcLine| SdpAttributeSsrc { id: s.id, attribute: s.attribute, value: s.value };
    m.add_attribute(
        match a {
            MediaAttr::Ssrc(s) => SdpAttribute::Ssrc(line(s)),
            MediaAttr::SsrcGroup(g, v) => SdpAttribute::SsrcGroup(g, v.into_iter().map(line).collect()),
            MediaAttr::Mid(x) => SdpAttribute::Mid(x),
            MediaAttr::Sendrecv => SdpAttribute::Sendrecv,
            MediaAttr::Sendonly => SdpAttribute::Sendonly,
            MediaAttr::Other(o) => o,
        },
    )
}

/// Trusted: `SdpSsrcGroupSemantic::clone` (derived, on a fieldless enum).
#[verifier::external_body]
fn copy_semantic(g: &SdpSsrcGroupSemantic) -> (r: SdpSsrcGroupSemantic)
    ensures
        r == *g,
{
    g.clone()
}

} // verus!

verus! {

proof fn lemma_first_mid_dropped(attrs: Seq<AttrView>)
    ensures
        first_mid(drop_kind(attrs, AttrKind::Mid)) is None,
    decreases attrs.len(),
{
    if attrs.len() > 0 {
        lemma_first_mid_dropped(attrs.drop_last());
        let d = drop_kind(attrs.drop_last(), AttrKind::Mid);
        if !is_kind(attrs.last(), AttrKind::Mid) {
            assert(d.push(attrs.last()).drop_last() =~= d);
            assert(drop_kind(attrs, AttrKind::Mid) =~= d.push(attrs.last()));
        } else {
            assert(drop_kind(attrs, AttrKind::Mid) =~= d);
        }
    }
}

proof fn lemma_first_mid_concat(a: Seq<AttrView>, b: Seq<AttrView>)
    requires
        first_mid(a) is Some,
    ensures
        first_mid(a + b) == first_mid(a),
    decreases b.len(),
{
    if b.len() == 0 {
        assert(a + b =~= a);
    } else {
        lemma_first_mid_concat(a, b.drop_last());
        assert((a + b).drop_last() =~= a + b.drop_last());
    }
}

/// The `mid` of every m-line made for a stream is its position.
proof fn lemma_stream_line_mid(
    attrs: Seq<AttrView>,
    e: SsrcView,
    position: nat,
    first: bool,
    media: Seq<char>,
    kind: Seq<char>,
)
    ensures
        first_mid(stream_line(attrs, e, position, first, media, kind)) == Some(decimal(position)),
{
    let d = drop_kind(stripped(attrs), AttrKind::Mid);
    lemma_first_mid_dropped(stripped(attrs));
    let w = with_mid(stripped(attrs), decimal(position));
    assert(w.drop_last() =~= d);
    let dir = if first {
        AttrView::Sendrecv
    } else {
        AttrView::Sendonly
    };
    assert(w.last() == AttrView::Mid(decimal(position)));
    assert(first_mid(w) == Some(decimal(position)));
    assert(w.push(dir).drop_last() =~= w);
    assert(first_mid(w.push(dir)) == Some(decimal(position)));
    lemma_first_mid_concat(w.push(dir), stream_ssrcs(attrs, e, media, kind));
}

/// Whether every m-line of `acc` has its position as `mid`.
pub open spec fn mids_are_positions(acc: Seq<(int, Seq<AttrView>)>) -> bool {
    forall|j: int| 0 <= j < acc.len() ==> first_mid(#[trigger] acc[j].1) == Some(decimal(j as nat))
}

proof fn lemma_split_entries_mids(
    attrs: Seq<AttrView>,
    entries: Seq<SsrcView>,
    i: int,
    acc: Seq<(int, Seq<AttrView>)>,
    src: int,
    media: Seq<char>,
    kind: Seq<char>,
)
    requires
        mids_are_positions(acc),
    ensures
        mids_are_positions(split_entries(attrs, entries, i, acc, src, media, kind)),
    decreases entries.len() - i,
{
    if 0 <= i < entries.len() && !claimed(acc, entries[i].id) {
        let l = stream_line(attrs, entries[i], acc.len(), i == 0, media, kind);
        lemma_stream_line_mid(attrs, entries[i], acc.len(), i == 0, media, kind);
        let next = acc.push((src, l));
        assert forall|j: int| 0 <= j < next.len() implies first_mid(#[trigger] next[j].1) == Some(
            decimal(j as nat),
        ) by {
            if j < acc.len() {
                assert(next[j] == acc[j]);
            }
        }
        lemma_split_entries_mids(attrs, entries, i + 1, next, src, media, kind);
    } else if 0 <= i < entries.len() {
        lemma_split_entries_mids(attrs, entries, i + 1, acc, src, media, kind);
    }
}

proof fn lemma_split_lines_mids(
    lines: Seq<(KindView, Seq<AttrView>)>,
    i: int,
    acc: Seq<(int, Seq<AttrView>)>,
    media: Seq<char>,
)
    requires
        mids_are_positions(acc),
    ensures
        mids_are_positions(split_lines(lines, i, acc, media)),
    decreases lines.len() - i,
{
    if 0 <= i < lines.len() {
        let kind = lines[i].0;
        let attrs = lines[i].1;
        if kind is Application || ssrc_entries(attrs).len() == 0 {
            let w = with_mid(attrs, decimal(acc.len()));
            lemma_first_mid_dropped(attrs);
            assert(w.drop_last() =~= drop_kind(attrs, AttrKind::Mid));
            assert(first_mid(w) == Some(decimal(acc.len())));
            let next = acc.push((i, w));
            assert forall|j: int| 0 <= j < next.len() implies first_mid(#[trigger] next[j].1)
                == Some(decimal(j as nat)) by {
                if j < acc.len() {
                    assert(next[j] == acc[j]);
                }
            }
            lemma_split_lines_mids(lines, i + 1, next, media);
        } else {
            lemma_split_entries_mids(attrs, ssrc_entries(attrs), 0, acc, i, media, kind_text(kind));
            lemma_split_lines_mids(
                lines,
                i + 1,
                split_entries(attrs, ssrc_entries(attrs), 0, acc, i, media, kind_text(kind)),
                media,
            );
        }
    }
}

/// Every m-line of the offer is tagged with its own position as `mid`
/// (`"0"`, `"1"`, ...), so the BUNDLE group lists the m-lines in order.
pub proof fn law_offer_mids_are_positions(lines: Seq<SdpMedia>, media: Seq<char>)
    ensures
        forall|j: int|
            0 <= j < offer_lines(lines, media).len() ==> first_mid(
                #[trigger] offer_lines(lines, media)[j].1,
            ) == Some(decimal(j as nat)),
{
    lemma_split_lines_mids(line_views(lines), 0, seq![], media);
}

proof fn lemma_mentions_concat(a: Seq<AttrView>, b: Seq<AttrView>, id: u32)
    requires
        mentions_ssrc(b, id),
    ensures
        mentions_ssrc(a + b, id),
    decreases b.len(),
{
    assert((a + b).drop_last() =~= a + b.drop_last());
    if !(b.last() matches AttrView::Ssrc(s) && s.id == id) {
        lemma_mentions_concat(a, b.drop_last(), id);
    }
}

proof fn lemma_stream_line_carries(
    attrs: Seq<AttrView>,
    e: SsrcView,
    position: nat,
    first: bool,
    media: Seq<char>,
    kind: Seq<char>,
)
    ensures
        mentions_ssrc(stream_line(attrs, e, position, first, media, kind), e.id),
{
    let ss = stream_ssrcs(attrs, e, media, kind);
    let head = with_mid(stripped(attrs), decimal(position)).push(
        if first {
            AttrView::Sendrecv
        } else {
            AttrView::Sendonly
        },
    );
    match group_with(attrs, e.id) {
        Some((g, list)) => {
            let a1 = with_msid_adjusted(e, media, kind);
            let mid_part = match other_member(list, e.id) {
                Some(o) => match first_ssrc_with(attrs, o.id) {
                    Some(os) => seq![AttrView::Ssrc(with_msid_adjusted(os, media, kind))],
                    None => seq![],
                },
                None => seq![],
            };
            let one = seq![AttrView::Ssrc(a1)];
            assert(one.drop_last() =~= Seq::<AttrView>::empty());
            assert(mentions_ssrc(one, e.id));
            lemma_mentions_prefix(one, mid_part + seq![AttrView::SsrcGroup(g, list)], e.id);
            assert(ss =~= one + (mid_part + seq![AttrView::SsrcGroup(g, list)]));
        },
        None => {
            assert(ss.drop_last() =~= Seq::<AttrView>::empty());
        },
    }
    lemma_mentions_concat(head, ss, e.id);
}

proof fn lemma_mentions_prefix(a: Seq<AttrView>, b: Seq<AttrView>, id: u32)
    requires
        mentions_ssrc(a, id),
    ensures
        mentions_ssrc(a + b, id),
    decreases b.len(),
{
    if b.len() == 0 {
        assert(a + b =~= a);
    } else {
        lemma_mentions_prefix(a, b.drop_last(), id);
        assert((a + b).drop_last() =~= a + b.drop_last());
    }
}

proof fn lemma_split_entries_keeps_claims(
    attrs: Seq<AttrView>,
    entries: Seq<SsrcView>,
    i: int,
    acc: Seq<(int, Seq<AttrView>)>,
    src: int,
    media: Seq<char>,
    kind: Seq<char>,
    id: u32,
)
    requires
        claimed(acc, id),
    ensures
        claimed(split_entries(attrs, entries, i, acc, src, media, kind), id),
    decreases entries.len() - i,
{
    if 0 <= i < entries.len() {
        if claimed(acc, entries[i].id) {
            lemma_split_entries_keeps_claims(attrs, entries, i + 1, acc, src, media, kind, id);
        } else {
            let next = acc.push(
                (src, stream_line(attrs, entries[i], acc.len(), i == 0, media, kind)),
            );
            assert(next.drop_last() =~= acc);
            lemma_split_entries_keeps_claims(attrs, entries, i + 1, next, src, media, kind, id);
        }
    }
}

proof fn lemma_split_lines_keeps_claims(
    lines: Seq<(KindView, Seq<AttrView>)>,
    i: int,
    acc: Seq<(int, Seq<AttrView>)>,
    media: Seq<char>,
    id: u32,
)
    requires
        claimed(acc, id),
    ensures
        claimed(split_lines(lines, i, acc, media), id),
    decreases lines.len() - i,
{
    if 0 <= i < lines.len() {
        let kind = lines[i].0;
        let attrs = lines[i].1;
        if kind is Application || ssrc_entries(attrs).len() == 0 {
            let next = acc.push((i, with_mid(attrs, decimal(acc.len()))));
            assert(next.drop_last() =~= acc);
            lemma_split_lines_keeps_claims(lines, i + 1, next, media, id);
        } else {
            lemma_split_entries_keeps_claims(
                attrs,
                ssrc_entries(attrs),
                0,
                acc,
                i,
                media,
                kind_text(kind),
                id,
            );
            lemma_split_lines_keeps_claims(
                lines,
                i + 1,
                split_entries(attrs, ssrc_entries(attrs), 0, acc, i, media, kind_text(kind)),
                media,
                id,
            );
        }
    }
}

proof fn lemma_split_entries_carries(
    attrs: Seq<AttrView>,
    entries: Seq<SsrcView>,
    i: int,
    acc: Seq<(int, Seq<AttrView>)>,
    src: int,
    media: Seq<char>,
    kind: Seq<char>,
    k: int,
)
    requires
        0 <= i <= k < entries.len(),
    ensures
        claimed(split_entries(attrs, entries, i, acc, src, media, kind), entries[k].id),
    decreases entries.len() - i,
{
    if claimed(acc, entries[i].id) {
        if i == k {
            lemma_split_entries_keeps_claims(
                attrs,
                entries,
                i + 1,
                acc,
                src,
                media,
                kind,
                entries[k].id,
            );
        } else {
            lemma_split_entries_carries(attrs, entries, i + 1, acc, src, media, kind, k);
        }
    } else {
        let l = stream_line(attrs, entries[i], acc.len(), i == 0, media, kind);
        let next = acc.push((src, l));
        if i == k {
            lemma_stream_line_carries(attrs, entries[i], acc.len(), i == 0, media, kind);
            assert(next.drop_last() =~= acc);
            assert(claimed(next, entries[k].id));
            lemma_split_entries_keeps_claims(
                attrs,
                entries,
                i + 1,
                next,
                src,
                media,
                kind,
                entries[k].id,
            );
        } else {
            lemma_split_entries_carries(attrs, entries, i + 1, next, src, media, kind, k);
        }
    }
}

proof fn lemma_split_lines_carries(
    lines: Seq<(KindView, Seq<AttrView>)>,
    i: int,
    acc: Seq<(int, Seq<AttrView>)>,
    media: Seq<char>,
    src: int,
    k: int,
)
    requires
        0 <= i <= src < lines.len(),
        !(lines[src].0 is Application),
        0 <= k < ssrc_entries(lines[src].1).len(),
    ensures
        claimed(split_lines(lines, i, acc, media), ssrc_entries(lines[src].1)[k].id),
    decreases lines.len() - i,
{
    let kind = lines[i].0;
    let attrs = lines[i].1;
    let id = ssrc_entries(lines[src].1)[k].id;
    if kind is Application || ssrc_entries(attrs).len() == 0 {
        let next = acc.push((i, with_mid(attrs, decimal(acc.len()))));
        lemma_split_lines_carries(lines, i + 1, next, media, src, k);
    } else {
        let next = split_entries(attrs, ssrc_entries(attrs), 0, acc, i, media, kind_text(kind));
        if i == src {
            lemma_split_entries_carries(attrs, ssrc_entries(attrs), 0, acc, i, media, kind_text(kind), k);
            lemma_split_lines_keeps_claims(lines, i + 1, next, media, id);
        } else {
            lemma_split_lines_carries(lines, i + 1, next, media, src, k);
        }
    }
}

/// No stream is lost: every `a=ssrc:` line of a split m-line (any m-line but
/// an application one) names an SSRC that some m-line of the offer carries.
pub proof fn law_every_stream_carried(lines: Seq<SdpMedia>, media: Seq<char>, src: int, k: int)
    requires
        0 <= src < lines.len(),
        !(media_kind(lines[src]) is Application),
        0 <= k < ssrc_entries(media_attributes(lines[src])).len(),
    ensures
        claimed(offer_lines(lines, media), ssrc_entries(media_attributes(lines[src]))[k].id),
{
    let views = line_views(lines);
    assert(views[src] == (media_kind(lines[src]), media_attributes(lines[src])));
    lemma_split_lines_carries(views, 0, seq![], media, src, k);
}

} // verus!
