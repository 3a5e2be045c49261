use gst_meet::text::{
    chars_eq, chars_eq_str, chars_of, contains_chars, parse_u16, parse_u32, parse_u64, push_decimal,
    push_str, split_whitespace, starts_with_at,
};
use gst_meet::xml::{find_all, find_first, has_match, split_selector, Element};

fn s(v: &[char]) -> String {
    v.iter().collect()
}

#[test]
fn text_helpers() {
    let v = chars_of("héllo");
    assert_eq!(v.len(), 5);
    assert_eq!(s(&v), "héllo");
    let mut w = chars_of("ab");
    push_str(&mut w, "cd");
    assert_eq!(s(&w), "abcd");
    assert!(chars_eq(&chars_of("x"), &chars_of("x")));
    assert!(!chars_eq(&chars_of("x"), &chars_of("xy")));
    assert!(chars_eq_str(&chars_of("set"), "set"));
    assert!(starts_with_at(&chars_of("a=rtpmap"), 2, &chars_of("rtp")));
    assert!(!starts_with_at(&chars_of("a=rtpmap"), 7, &chars_of("rtp")));
    assert!(contains_chars(&chars_of("candidate:1"), &chars_of("date")));
    assert!(!contains_chars(&chars_of("abc"), &chars_of("abd")));
}

#[test]
fn split_whitespace_words() {
    let parts = split_whitespace(&chars_of("  a b\tc  "));
    let words: Vec<String> = parts.iter().map(|p| s(p)).collect();
    assert_eq!(words, vec!["a", "b", "c"]);
    assert!(split_whitespace(&chars_of("   ")).is_empty());
}

#[test]
fn parse_numbers() {
    assert_eq!(parse_u64(&chars_of("18446744073709551615")), Some(u64::MAX));
    assert_eq!(parse_u64(&chars_of("18446744073709551616")), None);
    assert_eq!(parse_u32(&chars_of("4294967295")), Some(u32::MAX));
    assert_eq!(parse_u32(&chars_of("4294967296")), None);
    assert_eq!(parse_u16(&chars_of("65535")), Some(65535));
    assert_eq!(parse_u16(&chars_of("65536")), None);
    assert_eq!(parse_u32(&chars_of("")), None);
    assert_eq!(parse_u32(&chars_of("12a")), None);
    assert_eq!(parse_u32(&chars_of("+12")), Some(12));
    let mut v = Vec::new();
    push_decimal(&mut v, 0);
    push_decimal(&mut v, 90000);
    assert_eq!(s(&v), "090000");
}

fn tag(name: &str, attrs: &[(&str, &str)], kids: Vec<Element>) -> Element {
    let mut e = Element::tag(name);
    for (k, v) in attrs {
        e.set_attribute(k, v);
    }
    for k in kids {
        e.add_child(k);
    }
    e
}

fn jingle_iq() -> Element {
    let audio = tag(
        "content",
        &[("name", "audio"), ("senders", "both")],
        vec![
            tag("description", &[("media", "audio")], vec![]),
            tag(
                "transport",
                &[("pwd", "63hgqlcb8dusq35vo1j1gpjes"), ("ufrag", "f12or1jkjcuh77")],
                vec![tag("fingerprint", &[("hash", "sha-256")], vec![Element::text_node("2F:2F")])],
            ),
        ],
    );
    let video = tag(
        "content",
        &[("name", "video")],
        vec![tag("description", &[("media", "video")], vec![]), tag("transport", &[("ufrag", "v")], vec![])],
    );
    let group = tag("group", &[("semantics", "BUNDLE")], vec![]);
    let jingle = tag(
        "jingle",
        &[("action", "session-initiate"), ("sid", "6lrpse6evqv2c")],
        vec![audio, video, group],
    );
    tag("iq", &[], vec![jingle])
}

#[test]
fn test_find_transport() {
    let iq = jingle_iq();
    let jingle = iq.child_by_name(&chars_of("jingle")).expect("no jingle");
    let transports = find_all(Some(jingle), "content>transport");
    assert_eq!(transports.len(), 2);
    assert_eq!(transports[0].get_attribute("ufrag").map(|s| s.as_str()), Some("f12or1jkjcuh77"));
    assert_eq!(transports[1].get_attribute("ufrag").map(|s| s.as_str()), Some("v"));
}

#[test]
fn selector_first_segment_is_the_child() {
    let iq = jingle_iq();
    let jingle = &iq.children[0];
    let fp = find_first(Some(jingle), "content>transport>fingerprint").unwrap();
    assert_eq!(fp.get_text().as_deref(), Some("2F:2F"));
    assert!(has_match(Some(jingle), "group"));
    assert!(!has_match(Some(jingle), "transport"));
    assert!(find_all(None, "content").is_empty());
    assert!(find_first(Some(&iq), "content").is_none());
    assert_eq!(find_all(Some(&iq), "jingle>content>description").len(), 1);
}

#[test]
fn split_selector_segments() {
    let parts: Vec<String> = split_selector("a>b>>c").iter().map(|p| s(p)).collect();
    assert_eq!(parts, vec!["a", "b", "", "c"]);
    let parts: Vec<String> = split_selector("").iter().map(|p| s(p)).collect();
    assert_eq!(parts, vec![""]);
}

#[test]
fn attributes_are_replaced_in_place() {
    let mut e = Element::tag("x");
    e.set_attribute("a", "1");
    e.set_attribute("b", "2");
    e.set_attribute("a", "3");
    assert_eq!(e.attributes.len(), 2);
    assert_eq!(e.attributes[0], ("a".to_string(), "3".to_string()));
    assert_eq!(e.get_attribute("a").map(|s| s.as_str()), Some("3"));
    assert_eq!(e.get_attribute("c"), None);
    assert!(e.attr_or_empty("c").is_empty());
    assert_eq!(e.get_text(), None);
    assert!(e.is_named(&chars_of("x")));
    let t = Element::text_node("hi");
    assert_eq!(t.get_text().as_deref(), Some("hi"));
}
