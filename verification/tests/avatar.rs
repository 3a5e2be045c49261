use gst_meet::avatar::{avatar_color, cleanup_name, first_grapheme, hex_to_rgb, initials};

#[test]
fn color_is_picked_by_code_point_sum() {
    // 'J' + 'D' = 74 + 68 = 142, 142 % 9 = 7
    assert_eq!(avatar_color("JD"), "#238561");
    assert_eq!(avatar_color(""), "#6A50D3");
    // 'A' = 65, 65 % 9 = 2
    assert_eq!(avatar_color("A"), "#DF486F");
}

#[test]
fn cleanup_strips_trailing_groups() {
    assert_eq!(cleanup_name("John Doe (guest)"), "John Doe");
    assert_eq!(cleanup_name("John Doe [mobile] (guest)"), "John Doe");
    assert_eq!(cleanup_name("Jane {x}"), "Jane");
    assert_eq!(cleanup_name("Plain"), "Plain");
    assert_eq!(cleanup_name("(a) middle"), "(a) middle");
}

#[test]
fn initials_of_names() {
    // the split pattern only matches a trailing bracketed group, so a name
    // splits into at most one non-empty word
    assert_eq!(initials("john doe"), "J");
    assert_eq!(initials("john (guest)"), "J");
    assert_eq!(initials("alice"), "A");
    assert_eq!(initials(""), "");
    assert_eq!(initials("ß"), "SS");
}

#[test]
fn first_grapheme_uppercases_cluster() {
    assert_eq!(first_grapheme("émile"), "É");
    assert_eq!(first_grapheme(""), "");
    assert_eq!(first_grapheme("e\u{301}x"), "E\u{301}");
}

#[test]
fn hex_colors_to_bytes() {
    assert_eq!(hex_to_rgb("#6A50D3"), (0x6a, 0x50, 0xd3));
    assert_eq!(hex_to_rgb("##00a8b3"), (0x00, 0xa8, 0xb3));
    assert_eq!(hex_to_rgb("+F+F+F"), (15, 15, 15));
}
