//! The control endpoints take the meeting to act on from the `room=` query
//! parameter of the request URL.

use crate::text::{chars_of, has_prefix, starts_with_at, string_from_chars};
use vstd::prelude::*;

verus! {

/// The first position at or after `from` where `pat` occurs in `s`.
pub open spec fn first_match(s: Seq<char>, pat: Seq<char>, from: nat) -> Option<nat>
    decreases s.len() + 1 - from,
{
    if from + pat.len() > s.len() {
        None
    } else if has_prefix(s.skip(from as int), pat) {
        Some(from)
    } else {
        first_match(s, pat, from + 1)
    }
}

/// `s` up to, not including, its first `c`; all of it when there is none.
pub open spec fn take_until(s: Seq<char>, c: char) -> Seq<char>
    decreases s.len(),
{
    if s.len() == 0 {
        s
    } else if s[0] == c {
        seq![]
    } else {
        seq![s[0]] + take_until(s.drop_first(), c)
    }
}

/// The room a request URL names: what follows the first `room=`, up to the
/// next `&`; `unknown_room` when the URL has no `room=`.
pub open spec fn room_of_url(url: Seq<char>) -> Seq<char> {
    match first_match(url, "room="@, 0) {
        Some(p) => take_until(url.skip(p + 5int), '&'),
        None => "unknown_room"@,
    }
}

/// The room named by a request URL's `room=` parameter.
pub fn parse_room(url: &str) -> (r: String)
    ensures
        r@ == room_of_url(url@),
{
    let cs = chars_of(url);
    let pat = chars_of("room=");
    proof {
        reveal_strlit("room=");
    }
    let n = cs.len();
    let mut i: usize = 0;
    while n >= 5 && i <= n - 5
        invariant
            cs@ == url@,
            pat@ == "room="@,
            n == cs@.len(),
            first_match(url@, "room="@, 0) == first_match(url@, "room="@, i as nat),
        decreases n - i,
    {
        if starts_with_at(cs.as_slice(), i, pat.as_slice()) {
            let mut out: Vec<char> = Vec::new();
            let mut j: usize = i + 5;
            while j < n && cs[j] != '&'
                invariant
                    i + 5 <= j <= n,
                    n == cs@.len(),
                    take_until(cs@.skip(i + 5), '&') == out@ + take_until(cs@.skip(j as int), '&'),
                decreases n - j,
            {
                assert(cs@.skip(j as int).drop_first() =~= cs@.skip(j + 1));
                out.push(cs[j]);
                assert(take_until(cs@.skip(j as int), '&') == seq![cs@[j as int]] + take_until(cs@.skip(j + 1), '&'));
                assert(out@ + take_until(cs@.skip(j + 1), '&') =~= out@.drop_last() + (seq![cs@[j as int]] + take_until(cs@.skip(j + 1), '&')));
                j += 1;
            }
            assert(take_until(cs@.skip(j as int), '&') =~= seq![]);
            assert(out@ + seq![] =~= out@);
            return string_from_chars(out.as_slice());
        }
        i += 1;
    }
    proof {
        reveal_strlit("unknown_room");
    }
    String::from_str("unknown_room")
}

} // verus!
