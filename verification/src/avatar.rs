//! What the stand-in image of a participant without camera shows: their
//! initials, on a colour picked from them. Drawing it is left to the caller.

use crate::text::{chars_of, push_chars, string_from_chars};
use regex::Regex;
use unicode_segmentation::UnicodeSegmentation;
use vstd::prelude::*;

verus! {

/// The colours an avatar is drawn in.
pub open spec fn avatar_colors() -> Seq<Seq<char>> {
    seq![
        "#6A50D3"@,
        "#FF9B42"@,
        "#DF486F"@,
        "#73348C"@,
        "#B23683"@,
        "#F96E57"@,
        "#4380E2"@,
        "#238561"@,
        "#00A8B3"@,
    ]
}

/// The sum of the code points of `s`.
pub open spec fn code_sum(s: Seq<char>) -> nat
    decreases s.len(),
{
    if s.len() == 0 {
        0
    } else {
        code_sum(s.drop_last()) + (s.last() as u32) as nat
    }
}

/// The colour for some initials: the sum of their code points picks one of
/// the palette.
pub fn avatar_color(initials: &str) -> (r: &'static str)
    requires
        code_sum(initials@) <= u32::MAX,
    ensures
        r@ == avatar_colors()[(code_sum(initials@) % 9) as int],
{
    let cs = chars_of(initials);
    let mut hash: u32 = 0;
    let mut i: usize = 0;
    while i < cs.len()
        invariant
            i <= cs@.len(),
            cs@ == initials@,
            code_sum(initials@) <= u32::MAX,
            hash == code_sum(cs@.take(i as int)),
        decreases cs@.len() - i,
    {
        assert(cs@.take(i + 1).drop_last() =~= cs@.take(i as int));
        proof {
            lemma_code_sum_prefix(cs@, i + 1);
        }
        hash = hash + (cs[i] as u32);
        i += 1;
    }
    assert(cs@.take(i as int) =~= cs@);
    let colors: [&'static str; 9] = [
        "#6A50D3",
        "#FF9B42",
        "#DF486F",
        "#73348C",
        "#B23683",
        "#F96E57",
        "#4380E2",
        "#238561",
        "#00A8B3",
    ];
    assert(colors@.map_values(|c: &str| c@) =~= avatar_colors());
    let k = (hash % 9) as usize;
    assert(colors@.map_values(|c: &str| c@)[k as int] == colors@[k as int]@);
    colors[k]
}

/// `s` without its leading `#` characters.
pub open spec fn trim_hashes(s: Seq<char>) -> Seq<char>
    decreases s.len(),
{
    if s.len() > 0 && s[0] == '#' {
        trim_hashes(s.drop_first())
    } else {
        s
    }
}

/// The value of a hexadecimal digit, either case.
pub open spec fn hex_value(c: char) -> Option<nat> {
    if '0' <= c && c <= '9' {
        Some((c as nat - '0' as nat) as nat)
    } else if 'a' <= c && c <= 'f' {
        Some((c as nat - 'a' as nat + 10) as nat)
    } else if 'A' <= c && c <= 'F' {
        Some((c as nat - 'A' as nat + 10) as nat)
    } else {
        None
    }
}

/// A two-character hexadecimal byte as `u8::from_str_radix(.., 16)` reads
/// it: two digits, or a `+` and one digit.
pub open spec fn hex_pair(a: char, b: char) -> Option<nat> {
    match (hex_value(a), hex_value(b)) {
        (Some(x), Some(y)) => Some(16 * x + y),
        (None, Some(y)) => if a == '+' {
            Some(y)
        } else {
            None
        },
        _ => None,
    }
}

/// A colour of the form `#RRGGBB`: after its leading `#`s, three bytes of two
/// hexadecimal characters each.
pub open spec fn is_hex_color(s: Seq<char>) -> bool {
    let t = trim_hashes(s);
    &&& t.len() >= 6
    &&& hex_pair(t[0], t[1]) is Some
    &&& hex_pair(t[2], t[3]) is Some
    &&& hex_pair(t[4], t[5]) is Some
}

fn hex_digit(c: char) -> (r: Option<u8>)
    ensures
        match hex_value(c) {
            Some(v) => r == Some(v as u8),
            None => r is None,
        },
{
    if '0' <= c && c <= '9' {
        Some(((c as u32) - ('0' as u32)) as u8)
    } else if 'a' <= c && c <= 'f' {
        Some(((c as u32) - ('a' as u32) + 10) as u8)
    } else if 'A' <= c && c <= 'F' {
        Some(((c as u32) - ('A' as u32) + 10) as u8)
    } else {
        None
    }
}

fn pair_byte(a: char, b: char) -> (r: u8)
    requires
        hex_pair(a, b) is Some,
    ensures
        r == hex_pair(a, b)->0,
{
    let y = hex_digit(b).unwrap();
    match hex_digit(a) {
        Some(x) => 16 * x + y,
        None => y,
    }
}

/// The red, green and blue bytes of a colour written `#RRGGBB`; drawing
/// scales each to the unit interval.
pub fn hex_to_rgb(hex: &str) -> (r: (u8, u8, u8))
    requires
        is_hex_color(hex@),
    ensures
        r.0 == hex_pair(trim_hashes(hex@)[0], trim_hashes(hex@)[1])->0,
        r.1 == hex_pair(trim_hashes(hex@)[2], trim_hashes(hex@)[3])->0,
        r.2 == hex_pair(trim_hashes(hex@)[4], trim_hashes(hex@)[5])->0,
{
    let cs = chars_of(hex);
    let mut i: usize = 0;
    assert(cs@.skip(0) =~= cs@);
    while i < cs.len() && cs[i] == '#'
        invariant
            i <= cs@.len(),
            cs@ == hex@,
            trim_hashes(cs@.skip(i as int)) == trim_hashes(hex@),
        decreases cs@.len() - i,
    {
        assert(cs@.skip(i as int).drop_first() =~= cs@.skip(i + 1));
        i += 1;
    }
    assert(trim_hashes(cs@.skip(i as int)) == cs@.skip(i as int));
    let red = pair_byte(cs[i], cs[i + 1]);
    let green = pair_byte(cs[i + 2], cs[i + 3]);
    let blue = pair_byte(cs[i + 4], cs[i + 5]);
    (red, green, blue)
}

proof fn lemma_code_sum_prefix(s: Seq<char>, n: int)
    requires
        0 <= n <= s.len(),
    ensures
        code_sum(s.take(n)) <= code_sum(s),
    decreases s.len(),
{
    if n < s.len() {
        assert(s.drop_last().take(n) =~= s.take(n));
        lemma_code_sum_prefix(s.drop_last(), n);
    } else {
        assert(s.take(n) =~= s);
    }
}

/// What `Regex::is_match` says of a name for
/// `\s*[\(\[\{][^()\[\]{}]*[\)\]\}]$`: whether it ends with a bracketed
/// group.
pub uninterp spec fn ends_with_group(s: Seq<char>) -> bool;

/// What `Regex::replace` leaves of a name with that pattern replaced by
/// nothing: the name without its trailing bracketed group.
pub uninterp spec fn without_group(s: Seq<char>) -> Seq<char>;

/// Trusted: `Regex::is_match` with the trailing-group pattern.
#[verifier::external_body]
fn has_trailing_group(s: &str) -> (r: bool)
    ensures
        r == ends_with_group(s@),
{
    Regex::new(r"\s*[\(\[\{][^()\[\]{}]*[\)\]\}]$").expect("valid regex").is_match(s)
}

/// Trusted: `Regex::replace` of the trailing-group pattern by nothing. Claims
/// that a name ending with a group gets shorter: a match holds at least its
/// two brackets.
#[verifier::external_body]
fn strip_trailing_group(s: &str) -> (r: String)
    ensures
        r@ == without_group(s@),
        ends_with_group(s@) ==> r@.len() < s@.len(),
{
    Regex::new(r"\s*[\(\[\{][^()\[\]{}]*[\)\]\}]$").expect("valid regex").replace(s, "").into_owned()
}

/// `s` after `k` trailing groups are removed.
pub open spec fn strip_times(s: Seq<char>, k: nat) -> Seq<char>
    decreases k,
{
    if k == 0 {
        s
    } else {
        without_group(strip_times(s, (k - 1) as nat))
    }
}

/// Removes trailing bracketed groups, such as `(guest)` or `[mobile]`, until
/// none is left.
pub fn cleanup_name(nickname: &str) -> (r: String)
    ensures
        exists|k: nat|
            r@ == #[trigger] strip_times(nickname@, k) && !ends_with_group(r@) && forall|j: nat|
                j < k ==> ends_with_group(#[trigger] strip_times(nickname@, j)),
{
    let mut cleaned = String::from_str(nickname);
    let ghost mut k: nat = 0;
    while has_trailing_group(cleaned.as_str())
        invariant
            cleaned@ == strip_times(nickname@, k),
            forall|j: nat| j < k ==> ends_with_group(#[trigger] strip_times(nickname@, j)),
        decreases cleaned@.len(),
    {
        let next = strip_trailing_group(cleaned.as_str());
        proof {
            assert forall|j: nat| j < k + 1 implies ends_with_group(#[trigger] strip_times(nickname@, j)) by {
                if j == k {
                    assert(strip_times(nickname@, j) == cleaned@);
                }
            }
            k = k + 1;
        }
        cleaned = next;
    }
    cleaned
}

/// What `Regex::split` makes of a name with the pattern
/// `\s*[(\[{][^)\]}]*[)\]}]$`.
pub uninterp spec fn split_at_group(s: Seq<char>) -> Seq<Seq<char>>;

/// Trusted: `Regex::split` with that pattern, pieces collected in order.
#[verifier::external_body]
fn split_group(s: &str) -> (r: Vec<String>)
    ensures
        r@.map_values(|w: String| w@) == split_at_group(s@),
{
    Regex::new(r"\s*[(\[{][^)\]}]*[)\]}]$").expect("valid regex").split(s).map(str::to_owned).collect()
}

/// The first extended grapheme cluster of a word, empty for an empty word:
/// what `UnicodeSegmentation::graphemes(word, true).next()` gives.
pub uninterp spec fn first_cluster(s: Seq<char>) -> Seq<char>;

/// Trusted: `UnicodeSegmentation::graphemes(word, true).next()`, or `""`.
#[verifier::external_body]
fn first_cluster_of(word: &str) -> (r: String)
    ensures
        r@ == first_cluster(word@),
{
    UnicodeSegmentation::graphemes(word, true).next().unwrap_or("").to_string()
}

/// What `str::to_uppercase` returns: the full Unicode uppercase mapping.
pub uninterp spec fn uppercase(s: Seq<char>) -> Seq<char>;

/// Trusted: `str::to_uppercase`.
#[verifier::external_body]
fn to_uppercase(s: &str) -> (r: String)
    ensures
        r@ == uppercase(s@),
{
    s.to_uppercase()
}

/// The first grapheme of a word, in upper case.
pub fn first_grapheme(word: &str) -> (r: String)
    ensures
        r@ == uppercase(first_cluster(word@)),
{
    let g = first_cluster_of(word);
    to_uppercase(g.as_str())
}

/// The non-empty pieces, in order.
pub open spec fn non_empty(ws: Seq<Seq<char>>) -> Seq<Seq<char>>
    decreases ws.len(),
{
    if ws.len() == 0 {
        seq![]
    } else {
        non_empty(ws.drop_last()) + if ws.last().len() > 0 {
            seq![ws.last()]
        } else {
            seq![]
        }
    }
}

/// The initials of a name: the first grapheme of its first word and, when
/// there is more than one, of its last.
pub open spec fn initials_of(name: Seq<char>) -> Seq<char> {
    let words = non_empty(split_at_group(name));
    (if words.len() > 0 {
        uppercase(first_cluster(words[0]))
    } else {
        seq![]
    }) + if words.len() > 1 {
        uppercase(first_cluster(words.last()))
    } else {
        seq![]
    }
}

/// The initials of a name: the first grapheme of its first word and, when
/// there is more than one, of its last, both in upper case.
pub fn initials(name: &str) -> (r: String)
    ensures
        r@ == initials_of(name@),
{
    let pieces = split_group(name);
    let ghost ps = pieces@.map_values(|w: String| w@);
    let mut words: Vec<String> = Vec::new();
    let mut i: usize = 0;
    while i < pieces.len()
        invariant
            i <= pieces@.len(),
            ps == pieces@.map_values(|w: String| w@),
            words@.map_values(|w: String| w@) == non_empty(ps.take(i as int)),
        decreases pieces@.len() - i,
    {
        assert(ps.take(i + 1).drop_last() =~= ps.take(i as int));
        assert(ps.take(i + 1).last() == pieces@[i as int]@);
        let ghost before = words@.map_values(|w: String| w@);
        if pieces[i].unicode_len() > 0 {
            words.push(pieces[i].clone());
            assert(words@.map_values(|w: String| w@) =~= before.push(pieces@[i as int]@));
        }
        assert(words@.map_values(|w: String| w@) =~= non_empty(ps.take(i + 1)));
        i += 1;
    }
    assert(ps.take(i as int) =~= ps);
    let ghost ws = words@.map_values(|w: String| w@);
    let first = if words.len() > 0 {
        assert(ws[0] == words@[0]@);
        first_grapheme(words[0].as_str())
    } else {
        String::new()
    };
    let last = if words.len() > 1 {
        let n = words.len();
        assert(ws.last() == words@[n - 1]@);
        first_grapheme(words[n - 1].as_str())
    } else {
        String::new()
    };
    let mut out: Vec<char> = chars_of(first.as_str());
    let lc = chars_of(last.as_str());
    push_chars(&mut out, lc.as_slice());
    assert(out@ =~= initials_of(name@));
    string_from_chars(out.as_slice())
}

} // verus!
