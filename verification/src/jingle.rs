//! The Jingle session as plain data, and how it is read from a
//! `session-initiate` and from the candidate lines `webrtcbin` gathers.

use crate::text::{
    chars_eq_str, chars_of, has_prefix, parse_u16, parse_u32, parse_u64, parse_unsigned,
    seq_views, split_whitespace, starts_with_at, string_from_chars, words,
};
use crate::participant::opt_view;
use vstd::prelude::*;

verus! {

#[derive(Debug, Clone)]
pub struct IceCandidate {
    pub component: u32,
    pub foundation: String,
    pub protocol: String,
    pub ip: String,
    pub port: u16,
    pub priority: u64,
    /// "host", "srflx", "relay"
    pub candidate_type: String,
    pub rel_addr: Option<String>,
    pub rel_port: Option<u16>,
}

#[derive(Debug, Clone)]
pub struct DtlsFingerprint {
    /// "sha-256"
    pub hash_algo: String,
    pub fingerprint: String,
    /// "actpass" / "active" / "passive"
    pub setup: String,
}

#[derive(Debug, Clone)]
pub struct PayloadType {
    pub id: u8,
    pub name: String,
    pub clockrate: u32,
    pub channels: Option<u32>,
}

#[derive(Debug, Clone)]
pub struct ContentDescription {
    /// "audio" / "video"
    pub media: String,
    pub payloads: Vec<PayloadType>,
    /// (ssrc, name)
    pub ssrcs: Vec<(u32, String)>,
    pub rtcp_mux: bool,
}

#[derive(Debug, Clone)]
pub struct JingleTransport {
    pub ufrag: String,
    pub pwd: String,
    pub fingerprint: DtlsFingerprint,
    pub candidates: Vec<IceCandidate>,
    pub rtcp_mux: bool,
}

#[derive(Debug, Clone)]
pub struct JingleContent {
    pub name: String,
    pub description: ContentDescription,
    pub transport: JingleTransport,
}

#[derive(Debug, Clone)]
pub struct JingleSession {
    pub sid: String,
    pub initiator: String,
    pub to: String,
    pub from: String,
    pub action: String,
    pub contents: Vec<JingleContent>,
    /// content names in the BUNDLE group
    pub bundle: Vec<String>,
}

/// What `str::to_lowercase` returns for a string: its full Unicode lowercase
/// mapping, which takes pages to state.
pub uninterp spec fn lowercase(s: Seq<char>) -> Seq<char>;

/// Trusted: calls `str::to_lowercase` of std; claims the result is the named
/// lowercase mapping of the argument.
#[verifier::external_body]
pub(crate) fn to_lowercase(s: &str) -> (r: String)
    ensures
        r@ == lowercase(s@),
{
    s.to_lowercase()
}

/// What `str::trim_start_matches(p)` leaves: `s` with every leading copy of
/// the non-empty pattern `p` removed.
pub open spec fn strip_prefixes(s: Seq<char>, p: Seq<char>) -> Seq<char>
    decreases s.len(),
{
    if p.len() > 0 && has_prefix(s, p) {
        strip_prefixes(s.skip(p.len() as int), p)
    } else {
        s
    }
}

/// The whitespace-separated words of a candidate line, after any leading
/// `candidate:` prefixes.
pub open spec fn candidate_words(s: Seq<char>) -> Seq<Seq<char>> {
    words(strip_prefixes(s, "candidate:"@))
}

/// The optional `raddr <addr>` / `rport <port>` pairs after the eighth
/// word, read left to right; a later pair overwrites an earlier one, and a
/// key with nothing after it clears its value.
pub open spec fn rel_scan(
    parts: Seq<Seq<char>>,
    i: int,
    addr: Option<Seq<char>>,
    port: Option<u16>,
) -> (Option<Seq<char>>, Option<u16>)
    decreases parts.len() + 1 - i,
{
    if i < 0 || i >= parts.len() {
        (addr, port)
    } else if parts[i] == "raddr"@ {
        rel_scan(
            parts,
            i + 2,
            if i + 1 < parts.len() {
                Some(parts[i + 1])
            } else {
                None
            },
            port,
        )
    } else if parts[i] == "rport"@ {
        rel_scan(
            parts,
            i + 2,
            addr,
            if i + 1 < parts.len() {
                match parse_unsigned(parts[i + 1], u16::MAX as nat) {
                    Some(n) => Some(n as u16),
                    None => None,
                }
            } else {
                None
            },
        )
    } else {
        rel_scan(parts, i + 1, addr, port)
    }
}

/// Whether a candidate line parses: at least eight words, and the
/// component, priority and port words are numbers of their types.
pub open spec fn candidate_parses(s: Seq<char>) -> bool {
    let parts = candidate_words(s);
    &&& parts.len() >= 8
    &&& parse_unsigned(parts[1], u32::MAX as nat).is_some()
    &&& parse_unsigned(parts[3], u64::MAX as nat).is_some()
    &&& parse_unsigned(parts[5], u16::MAX as nat).is_some()
}

/// `c` is what the candidate line `s` describes.
pub open spec fn candidate_from_words(c: IceCandidate, s: Seq<char>) -> bool {
    let parts = candidate_words(s);
    let rel = rel_scan(parts, 8, None, None);
    &&& c.foundation@ == parts[0]
    &&& parse_unsigned(parts[1], u32::MAX as nat) == Some(c.component as nat)
    &&& c.protocol@ == lowercase(parts[2])
    &&& parse_unsigned(parts[3], u64::MAX as nat) == Some(c.priority as nat)
    &&& c.ip@ == parts[4]
    &&& parse_unsigned(parts[5], u16::MAX as nat) == Some(c.port as nat)
    &&& c.candidate_type@ == parts[7]
    &&& match c.rel_addr {
        Some(a) => rel.0 == Some(a@),
        None => rel.0.is_none(),
    }
    &&& c.rel_port == rel.1
}

fn strip_candidate_prefix(cs: &[char]) -> (r: usize)
    ensures
        r <= cs@.len(),
        cs@.skip(r as int) == strip_prefixes(cs@, "candidate:"@),
{
    let pat = chars_of("candidate:");
    proof {
        reveal_strlit("candidate:");
    }
    let mut i: usize = 0;
    assert(cs@.skip(0) =~= cs@);
    loop
        invariant
            i <= cs@.len(),
            pat@ == "candidate:"@,
            pat@.len() == 10,
            strip_prefixes(cs@.skip(i as int), pat@) == strip_prefixes(cs@, pat@),
        decreases cs@.len() - i,
    {
        if !starts_with_at(cs, i, pat.as_slice()) {
            return i;
        }
        assert(pat@.len() <= cs@.skip(i as int).len());
        assert(i + 10 <= cs.len());
        assert(cs@.skip(i as int).skip(10) =~= cs@.skip(i + 10));
        i = i + 10;
    }
}

/// Parses a candidate line as `webrtcbin` gives it, e.g.
/// `"candidate:1 1 UDP 2015363327 192.168.1.135 61078 typ host"`:
/// foundation, component, protocol (lowercased), priority, address, port,
/// `typ`, type, then optional `raddr <addr>` and `rport <port>` pairs.
pub fn parse_ice_candidate_string(candidate_str: &str) -> (r: Option<IceCandidate>)
    ensures
        r.is_some() == candidate_parses(candidate_str@),
        r matches Some(c) ==> candidate_from_words(c, candidate_str@),
{
    let cs = chars_of(candidate_str);
    let start = strip_candidate_prefix(cs.as_slice());
    let rest = cs.as_slice().split_at(start).1;
    assert(rest@ =~= cs@.skip(start as int));
    let parts = split_whitespace(rest);
    let ghost ps = seq_views(parts@);
    assert(ps == candidate_words(candidate_str@));
    if parts.len() < 8 {
        return None;
    }
    let foundation = string_from_chars(parts[0].as_slice());
    let component = match parse_u32(parts[1].as_slice()) {
        Some(v) => v,
        None => return None,
    };
    let protocol_raw = string_from_chars(parts[2].as_slice());
    let protocol = to_lowercase(protocol_raw.as_str());
    let priority = match parse_u64(parts[3].as_slice()) {
        Some(v) => v,
        None => return None,
    };
    let ip = string_from_chars(parts[4].as_slice());
    let port = match parse_u16(parts[5].as_slice()) {
        Some(v) => v,
        None => return None,
    };
    let candidate_type = string_from_chars(parts[7].as_slice());
    let mut rel_addr: Option<String> = None;
    let mut rel_port: Option<u16> = None;
    let mut i: usize = 8;
    while i < parts.len()
        invariant
            8 <= i,
            ps == seq_views(parts@),
            ps.len() == parts@.len(),
            rel_scan(ps, 8, None, None) == rel_scan(
                ps,
                i as int,
                opt_view(rel_addr),
                rel_port,
            ),
        decreases parts.len() + 1 - i,
    {
        let word = parts[i].as_slice();
        let ghost a0: Option<Seq<char>> = opt_view(rel_addr);
        let ghost p0 = rel_port;
        let ghost i0 = i as int;
        assert(ps[i as int] == parts@[i as int]@);
        if i + 1 < parts.len() {
            assert(ps[i + 1] == parts@[i + 1]@);
        }
        if chars_eq_str(word, "raddr") {
            assert(ps[i as int] == "raddr"@);
            if i + 1 < parts.len() {
                let a = string_from_chars(parts[i + 1].as_slice());
                assert(a@ == ps[i + 1]);
                rel_addr = Some(a);
                i += 2;
                assert(rel_scan(ps, i0, a0, p0) == rel_scan(ps, i0 + 2, Some(ps[i0 + 1]), p0));
            } else {
                rel_addr = None;
                i = parts.len();
                assert(rel_scan(ps, i0, a0, p0) == rel_scan(ps, i0 + 2, None, p0));
                assert(rel_scan(ps, i0 + 2, None, p0) == (None::<Seq<char>>, p0));
            }
        } else if chars_eq_str(word, "rport") {
            assert(ps[i as int] == "rport"@);
            assert(ps[i as int] != "raddr"@);
            if i + 1 < parts.len() {
                rel_port = parse_u16(parts[i + 1].as_slice());
                i += 2;
                assert(rel_scan(ps, i0, a0, p0) == rel_scan(ps, i0 + 2, a0, rel_port));
            } else {
                rel_port = None;
                i = parts.len();
                assert(rel_scan(ps, i0, a0, p0) == rel_scan(ps, i0 + 2, a0, None));
                assert(rel_scan(ps, i0 + 2, a0, None) == (a0, None::<u16>));
            }
        } else {
            assert(ps[i as int] != "rport"@);
            assert(ps[i as int] != "raddr"@);
            i += 1;
        }
    }
    Some(
        IceCandidate {
            foundation,
            component,
            protocol,
            priority,
            ip,
            port,
            candidate_type,
            rel_addr,
            rel_port,
        },
    )
}

} // verus!
