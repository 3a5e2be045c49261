//! What the SDP media section of a Jingle content is sure to hold.

use crate::jingle_media::{
    any_match, concat_map, content_description, content_sctp, content_transport, description_lines,
    extmap_line, group_ssrcs, join_with, media_line, media_section, payload_lines, rtcp_fb_lines,
    senders_line, sources_of_kind, ssrc_group_line, transport_lines,
};
use crate::xml::{attr_or_empty, find_all_spec, Element};
use vstd::prelude::*;

verus! {

/// Whether `small` occurs in `big` as a run of consecutive characters.
pub open spec fn occurs_in(small: Seq<char>, big: Seq<char>) -> bool {
    exists|i: int| 0 <= i && i + small.len() <= big.len() && #[trigger] big.subrange(i, i + small.len()) == small
}

proof fn lemma_occurs_left(small: Seq<char>, a: Seq<char>, b: Seq<char>)
    requires
        occurs_in(small, a),
    ensures
        occurs_in(small, a + b),
{
    let i = choose|i: int| 0 <= i && i + small.len() <= a.len() && #[trigger] a.subrange(i, i + small.len()) == small;
    assert((a + b).subrange(i, i + small.len()) =~= a.subrange(i, i + small.len()));
}

proof fn lemma_occurs_right(small: Seq<char>, a: Seq<char>, b: Seq<char>)
    requires
        occurs_in(small, b),
    ensures
        occurs_in(small, a + b),
{
    let i = choose|i: int| 0 <= i && i + small.len() <= b.len() && #[trigger] b.subrange(i, i + small.len()) == small;
    assert((a + b).subrange(a.len() + i, a.len() + i + small.len()) =~= b.subrange(i, i + small.len()));
}

proof fn lemma_occurs_self(s: Seq<char>)
    ensures
        occurs_in(s, s),
{
    let z: int = 0;
    assert(s.subrange(z, z + s.len()) =~= s);
}

proof fn lemma_concat_map_occurs(xs: Seq<Element>, f: spec_fn(Element) -> Seq<char>, k: int)
    requires
        0 <= k < xs.len(),
    ensures
        occurs_in(f(xs[k]), concat_map(xs, f)),
    decreases xs.len(),
{
    let d = xs.drop_last();
    if k == xs.len() - 1 {
        lemma_occurs_self(f(xs[k]));
        lemma_occurs_right(f(xs[k]), concat_map(d, f), f(xs.last()));
    } else {
        assert(d[k] == xs[k]);
        lemma_concat_map_occurs(d, f, k);
        lemma_occurs_left(f(xs[k]), concat_map(d, f), f(xs.last()));
    }
}

/// The SDP section of a content announces each SSRC group of its
/// description that lists sources: a line `a=ssrc-group:`, the group's
/// semantics, a space, and its sources' SSRCs separated by spaces.
pub proof fn law_ssrc_group_announced(content: Element, d: Element, g: Element)
    requires
        content_description(content) == Some(d),
        find_all_spec(Some(d), "ssrc-group"@).contains(g),
        group_ssrcs(g.children@).len() > 0,
    ensures
        occurs_in(
            "a=ssrc-group:"@ + attr_or_empty(g, "semantics"@) + " "@ + join_with(group_ssrcs(g.children@), " "@)
                + "\r\n"@,
            media_section(content),
        ),
{
    let line = "a=ssrc-group:"@ + attr_or_empty(g, "semantics"@) + " "@ + join_with(group_ssrcs(g.children@), " "@)
        + "\r\n"@;
    assert(ssrc_group_line(g) == line);
    let gs = find_all_spec(Some(d), "ssrc-group"@);
    let k = choose|k: int| 0 <= k < gs.len() && gs[k] == g;
    let f = |x: Element| ssrc_group_line(x);
    lemma_concat_map_occurs(gs, f, k);
    assert(f(gs[k]) == line);
    let name = attr_or_empty(content, "name"@);
    let srcs = find_all_spec(Some(d), "source"@);
    let head = concat_map(find_all_spec(Some(d), "payload-type"@), |p| payload_lines(p)) + rtcp_fb_lines(
        d,
        "*"@,
    ) + concat_map(find_all_spec(Some(d), "rtp-hdrext"@), |h| extmap_line(h)) + (if any_match(
        Some(d),
        "extmap-allow-mixed"@,
    ) {
        "a=extmap-allow-mixed\r\n"@
    } else {
        seq![]
    });
    let groups = concat_map(gs, f);
    lemma_occurs_right(line, head, groups);
    lemma_occurs_left(line, head + groups, sources_of_kind(name, name, srcs, true));
    lemma_occurs_left(
        line,
        head + groups + sources_of_kind(name, name, srcs, true),
        sources_of_kind(name, name, srcs, false),
    );
    let desc = description_lines(name, d, name);
    assert(desc == head + groups + sources_of_kind(name, name, srcs, true) + sources_of_kind(name, name, srcs, false));
    let sec = media_section(content);
    let before = media_line(content) + "c=IN IP4 0.0.0.0\r\n"@ + (if content_sctp(content).is_none() {
        "a=rtcp:1 IN IP4 0.0.0.0\r\n"@
    } else {
        seq![]
    }) + (match content_transport(content) {
        Some(t) => transport_lines(t),
        None => seq![],
    }) + senders_line(attr_or_empty(content, "senders"@)) + "a=mid:"@ + name + "\r\n"@ + (
    if any_match(content_description(content), "rtcp-mux"@) {
        "a=rtcp-mux\r\n"@
    } else {
        seq![]
    });
    assert(sec == before + desc);
    lemma_occurs_right(line, before, desc);
}

} // verus!
