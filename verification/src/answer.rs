//! The SDP answer of `webrtcbin`, turned into the Jingle `session-accept`.
//!
//! The answer is parsed by `webrtc_sdp`; what the Jingle side needs of each
//! m-line is read off into an [`AnswerMedia`] and then written out as a
//! `<content>` with its codecs, feedback, DTLS fingerprints and ICE
//! candidates.

use crate::iq::{random_id, decimal_text, CandidateInfo};
use crate::jingle::{lowercase, to_lowercase};
use crate::offer::{
    attr_views, attributes_of, kind_of_media, kind_name, kind_text, media_attributes, media_kind, AttrView,
    MediaAttr, MediaKind,
};
use crate::jingle_session::{attr_transport, transport_attr, TransportAttr};
use crate::participant::opt_view;
use crate::text::{chars_eq_str, chars_of, decimal, push_decimal, string_from_chars};
use crate::xep::{xep_urn, XEP};
use crate::xml::{set_pair, tag_is, text_node_is, Element};
use vstd::prelude::*;
use webrtc_sdp::attribute_type::{SdpAttribute, SdpAttributeRtcpFbType, SdpAttributeType};
use webrtc_sdp::media_type::{SdpFormatList, SdpMedia};
use webrtc_sdp::SdpSession;

verus! {

/// The numeric limits of an `a=fmtp:` line; `0` means absent.
#[derive(Debug, Clone, Copy)]
pub struct FmtpLimits {
    pub packetization_mode: u32,
    pub profile_level_id: u32,
    pub max_fs: u32,
    pub max_cpb: u32,
    pub max_dpb: u32,
    pub max_br: u32,
    pub max_mbps: u32,
    pub max_fr: u32,
    pub maxplaybackrate: u32,
    pub maxaveragebitrate: u32,
    pub ptime: u32,
    pub minptime: u32,
    pub maxptime: u32,
}

/// The flags, optional values and lists of an `a=fmtp:` line.
#[derive(Debug, Clone)]
pub struct FmtpExtras {
    pub level_asymmetry_allowed: bool,
    pub usedtx: bool,
    pub stereo: bool,
    pub useinbandfec: bool,
    pub cbr: bool,
    pub profile: Option<u8>,
    pub level_idx: Option<u8>,
    pub tier: Option<u8>,
    pub encodings: Vec<u8>,
    pub dtmf_tones: String,
    /// The associated payload type of an RTX format.
    pub rtx_apt: Option<u8>,
    /// Parameters the parser does not know, as `key=value` tokens.
    pub unknown_tokens: Vec<String>,
}

/// Whether two sets of fmtp extras hold the same values.
pub open spec fn same_extras(a: FmtpExtras, b: FmtpExtras) -> bool {
    &&& a.level_asymmetry_allowed == b.level_asymmetry_allowed
    &&& a.usedtx == b.usedtx
    &&& a.stereo == b.stereo
    &&& a.useinbandfec == b.useinbandfec
    &&& a.cbr == b.cbr
    &&& a.profile == b.profile
    &&& a.level_idx == b.level_idx
    &&& a.tier == b.tier
    &&& a.encodings@ == b.encodings@
    &&& a.dtmf_tones@ == b.dtmf_tones@
    &&& a.rtx_apt == b.rtx_apt
    &&& a.unknown_tokens@.map_values(|t: String| t@) == b.unknown_tokens@.map_values(
        |t: String| t@,
    )
}

/// The parameters of an `a=fmtp:` line.
#[derive(Debug, Clone)]
pub struct FmtpParams {
    pub limits: FmtpLimits,
    pub extras: FmtpExtras,
}

/// The lowercase hexadecimal digit for `d < 16`.
pub open spec fn hex_digit(d: nat) -> char {
    if d < 10 {
        (('0' as u32) + d) as char
    } else {
        (('a' as u32) + (d - 10)) as char
    }
}

/// `n` in lowercase hexadecimal, at least `width` digits, zero-padded on the
/// left: `format!("{:0width$x}", n)`.
pub open spec fn hex_padded(n: nat, width: nat) -> Seq<char>
    decreases width, n,
{
    if n < 16 && width <= 1 {
        seq![hex_digit(n)]
    } else {
        hex_padded(n / 16, if width > 0 {
            (width - 1) as nat
        } else {
            0
        }).push(hex_digit(n % 16))
    }
}

/// `"1"` for true, `"0"` for false.
pub open spec fn flag_text(v: bool) -> Seq<char> {
    if v {
        "1"@
    } else {
        "0"@
    }
}

/// `(key, decimal value)` when the value is not `0`.
pub open spec fn nonzero_pair(key: Seq<char>, v: u32) -> Seq<(Seq<char>, Seq<char>)> {
    if v != 0 {
        seq![(key, decimal(v as nat))]
    } else {
        seq![]
    }
}

/// `(key, decimal value)` when the value is present.
pub open spec fn some_pair(key: Seq<char>, v: Option<u8>) -> Seq<(Seq<char>, Seq<char>)> {
    match v {
        Some(x) => seq![(key, decimal(x as nat))],
        None => seq![],
    }
}

/// The decimal texts of `v` joined with `,`.
pub open spec fn joined_decimals(v: Seq<u8>) -> Seq<char>
    decreases v.len(),
{
    if v.len() == 0 {
        seq![]
    } else if v.len() == 1 {
        decimal(v[0] as nat)
    } else {
        joined_decimals(v.drop_last()) + seq![','] + decimal(v.last() as nat)
    }
}

/// The index of the first `=` in `s`.
pub open spec fn first_eq(s: Seq<char>) -> Option<int>
    decreases s.len(),
{
    if s.len() == 0 {
        None
    } else {
        match first_eq(s.drop_last()) {
            Some(i) => Some(i),
            None => if s.last() == '=' {
                Some(s.len() - 1)
            } else {
                None
            },
        }
    }
}

/// The `key=value` tokens split at their first `=`; tokens without one are
/// dropped.
pub open spec fn token_pairs(tokens: Seq<Seq<char>>) -> Seq<(Seq<char>, Seq<char>)>
    decreases tokens.len(),
{
    if tokens.len() == 0 {
        seq![]
    } else {
        let t = tokens.last();
        token_pairs(tokens.drop_last()) + match first_eq(t) {
            Some(i) => seq![(t.take(i), t.skip(i + 1))],
            None => seq![],
        }
    }
}

/// The Jingle `<parameter>` pairs of an `a=fmtp:` line: the non-zero
/// limits (the profile level id as six hex digits), every flag as `1` or
/// `0`, the AV1 options that are present, the RED encodings, the DTMF tones,
/// the RTX `apt`, and the unknown tokens split at their first `=`.
pub open spec fn fmtp_pairs(p: FmtpParams) -> Seq<(Seq<char>, Seq<char>)> {
    limit_pairs(p.limits) + flag_pairs(p.extras) + extra_pairs(p.extras)
}

/// The non-zero limits, the profile level id as six hex digits.
pub open spec fn limit_pairs(l: FmtpLimits) -> Seq<(Seq<char>, Seq<char>)> {
    head_limit_pairs(l) + middle_limit_pairs(l) + tail_limit_pairs(l)
}

/// The H264 packetization mode and profile level id.
pub open spec fn head_limit_pairs(l: FmtpLimits) -> Seq<(Seq<char>, Seq<char>)> {
    nonzero_pair("packetization-mode"@, l.packetization_mode) + if l.profile_level_id != 0 {
        seq![("profile-level-id"@, hex_padded(l.profile_level_id as nat, 6))]
    } else {
        seq![]
    }
}

/// The frame, buffer and rate limits.
pub open spec fn middle_limit_pairs(l: FmtpLimits) -> Seq<(Seq<char>, Seq<char>)> {
    nonzero_pair("max-fs"@, l.max_fs) + nonzero_pair("max-cpb"@, l.max_cpb) + nonzero_pair(
        "max-dpb"@,
        l.max_dpb,
    ) + nonzero_pair("max-br"@, l.max_br) + nonzero_pair("max-mbps"@, l.max_mbps) + nonzero_pair(
        "max-fr"@,
        l.max_fr,
    ) + nonzero_pair("maxplaybackrate"@, l.maxplaybackrate)
}

/// The Opus bitrate and packet times.
pub open spec fn tail_limit_pairs(l: FmtpLimits) -> Seq<(Seq<char>, Seq<char>)> {
    nonzero_pair("maxaveragebitrate"@, l.maxaveragebitrate) + nonzero_pair("ptime"@, l.ptime)
        + nonzero_pair("minptime"@, l.minptime) + nonzero_pair("maxptime"@, l.maxptime)
}

/// Every flag, as `1` or `0`.
pub open spec fn flag_pairs(x: FmtpExtras) -> Seq<(Seq<char>, Seq<char>)> {
    seq![
        ("level-asymmetry-allowed"@, flag_text(x.level_asymmetry_allowed)),
        ("usedtx"@, flag_text(x.usedtx)),
        ("stereo"@, flag_text(x.stereo)),
        ("useinbandfec"@, flag_text(x.useinbandfec)),
        ("cbr"@, flag_text(x.cbr)),
    ]
}

/// The AV1 options that are present, the RED encodings, the DTMF tones, the
/// RTX `apt`, and the unknown tokens.
pub open spec fn extra_pairs(x: FmtpExtras) -> Seq<(Seq<char>, Seq<char>)> {
    some_pair("profile"@, x.profile) + some_pair("level-idx"@, x.level_idx) + some_pair(
        "tier"@,
        x.tier,
    ) + (if x.encodings@.len() > 0 {
        seq![("encodings"@, joined_decimals(x.encodings@))]
    } else {
        seq![]
    }) + (if x.dtmf_tones@.len() > 0 {
        seq![("dtmf-tones"@, x.dtmf_tones@)]
    } else {
        seq![]
    }) + some_pair("apt"@, x.rtx_apt) + token_pairs(x.unknown_tokens@.map_values(|t: String| t@))
}

/// The views of a list of string pairs.
pub open spec fn pair_views(v: Seq<(String, String)>) -> Seq<(Seq<char>, Seq<char>)> {
    v.map_values(|p: (String, String)| (p.0@, p.1@))
}

/// The uppercase hexadecimal digit for `d < 16`.
pub open spec fn upper_hex_digit(d: nat) -> char {
    if d < 10 {
        (('0' as u32) + d) as char
    } else {
        (('A' as u32) + (d - 10)) as char
    }
}

/// One byte as two uppercase hex digits.
pub open spec fn hex_byte(b: u8) -> Seq<char> {
    seq![upper_hex_digit((b / 16) as nat), upper_hex_digit((b % 16) as nat)]
}

/// A fingerprint as uppercase hex bytes joined with `:`.
pub open spec fn fingerprint_hex(fp: Seq<u8>) -> Seq<char>
    decreases fp.len(),
{
    if fp.len() == 0 {
        seq![]
    } else if fp.len() == 1 {
        hex_byte(fp[0])
    } else {
        fingerprint_hex(fp.drop_last()) + seq![':'] + hex_byte(fp.last())
    }
}

fn hex_char(d: u32, upper: bool) -> (c: char)
    requires
        d < 16,
    ensures
        upper ==> c == upper_hex_digit(d as nat),
        !upper ==> c == hex_digit(d as nat),
{
    if d < 10 {
        let b: u8 = (48 + d) as u8;
        assert(b == ('0' as u32) + d);
        b as char
    } else if upper {
        let b: u8 = (55 + d) as u8;
        assert(b == ('A' as u32) + (d - 10));
        b as char
    } else {
        let b: u8 = (87 + d) as u8;
        assert(b == ('a' as u32) + (d - 10));
        b as char
    }
}

/// A fingerprint as uppercase hex bytes joined with `:`.
pub fn fingerprint_to_hex(fp: &[u8]) -> (r: String)
    ensures
        r@ == fingerprint_hex(fp@),
{
    let mut out: Vec<char> = Vec::new();
    let mut i: usize = 0;
    while i < fp.len()
        invariant
            i <= fp@.len(),
            out@ == fingerprint_hex(fp@.take(i as int)),
        decreases fp@.len() - i,
    {
        assert(fp@.take(i + 1).drop_last() =~= fp@.take(i as int));
        let b = fp[i];
        let ghost prev = out@;
        if i > 0 {
            out.push(':');
        }
        let ghost sep = out@;
        out.push(hex_char((b / 16) as u32, true));
        out.push(hex_char((b % 16) as u32, true));
        assert(out@ =~= sep + hex_byte(b));
        assert(fp@.take(i + 1).last() == b);
        if i == 0 {
            assert(fp@.take(1).len() == 1);
            assert(fp@.take(1)[0] == b);
            assert(out@ =~= fingerprint_hex(fp@.take(i + 1)));
        } else {
            assert(sep =~= prev + seq![':']);
            assert(out@ =~= fingerprint_hex(fp@.take(i + 1)));
        }
        i += 1;
    }
    assert(fp@.take(i as int) =~= fp@);
    string_from_chars(out.as_slice())
}

/// Appends `n` in lowercase hex, zero-padded to `width` digits.
fn push_hex_padded(out: &mut Vec<char>, n: u32, width: u32)
    ensures
        final(out)@ == old(out)@ + hex_padded(n as nat, width as nat),
    decreases width, n,
{
    if n < 16 && width <= 1 {
        out.push(hex_char(n, false));
    } else {
        let w: u32 = if width > 0 {
            width - 1
        } else {
            0
        };
        push_hex_padded(out, n / 16, w);
        out.push(hex_char(n % 16, false));
    }
}

/// The decimal text of `n`.
fn decimal_string(n: u64) -> (r: String)
    ensures
        r@ == decimal(n as nat),
{
    let mut v: Vec<char> = Vec::new();
    push_decimal(&mut v, n as u128);
    assert(v@ =~= decimal(n as nat));
    string_from_chars(v.as_slice())
}

/// Appends `(key, decimal value)` when the value is not `0`.
fn push_nonzero(params: &mut Vec<(String, String)>, key: &str, v: u32)
    ensures
        pair_views(final(params)@) == pair_views(old(params)@) + nonzero_pair(key@, v),
{
    let ghost before = pair_views(params@);
    if v != 0 {
        params.push((String::from_str(key), decimal_string(v as u64)));
        assert(pair_views(params@) =~= before + nonzero_pair(key@, v));
    } else {
        assert(pair_views(params@) =~= before + nonzero_pair(key@, v));
    }
}

/// Appends `(key, decimal value)` when the value is present.
fn push_some(params: &mut Vec<(String, String)>, key: &str, v: Option<u8>)
    ensures
        pair_views(final(params)@) == pair_views(old(params)@) + some_pair(key@, v),
{
    let ghost before = pair_views(params@);
    match v {
        Some(x) => {
            params.push((String::from_str(key), decimal_string(x as u64)));
        },
        None => {},
    }
    assert(pair_views(params@) =~= before + some_pair(key@, v));
}

/// Appends `(key, value)`.
fn push_pair(params: &mut Vec<(String, String)>, key: &str, value: String)
    ensures
        pair_views(final(params)@) == pair_views(old(params)@).push((key@, value@)),
{
    let ghost before = pair_views(params@);
    params.push((String::from_str(key), value));
    assert(pair_views(params@) =~= before.push((key@, value@)));
}

/// The RED encodings joined with `,`.
fn join_encodings(v: &Vec<u8>) -> (r: String)
    ensures
        r@ == joined_decimals(v@),
{
    let mut out: Vec<char> = Vec::new();
    let mut i: usize = 0;
    while i < v.len()
        invariant
            i <= v@.len(),
            out@ == joined_decimals(v@.take(i as int)),
        decreases v@.len() - i,
    {
        assert(v@.take(i + 1).drop_last() =~= v@.take(i as int));
        let ghost prev = out@;
        if i > 0 {
            out.push(',');
        }
        let ghost sep = out@;
        push_decimal(&mut out, v[i] as u128);
        assert(v@.take(i + 1).last() == v@[i as int]);
        if i == 0 {
            assert(v@.take(1).len() == 1);
            assert(v@.take(1)[0] == v@[0]);
            assert(out@ =~= joined_decimals(v@.take(i + 1)));
        } else {
            assert(sep =~= prev + seq![',']);
            assert(out@ =~= joined_decimals(v@.take(i + 1)));
        }
        i += 1;
    }
    assert(v@.take(i as int) =~= v@);
    string_from_chars(out.as_slice())
}

/// The index of the first `=` in `t`.
fn find_eq(t: &[char]) -> (r: Option<usize>)
    ensures
        match r {
            Some(k) => k < t@.len() && first_eq(t@) == Some(k as int),
            None => first_eq(t@) is None,
        },
{
    let mut k: usize = 0;
    while k < t.len()
        invariant
            k <= t@.len(),
            first_eq(t@.take(k as int)) is None,
        decreases t@.len() - k,
    {
        assert(t@.take(k + 1).drop_last() =~= t@.take(k as int));
        if t[k] == '=' {
            proof {
                lemma_first_eq_prefix(t@, k as int);
            }
            return Some(k);
        }
        k += 1;
    }
    assert(t@.take(k as int) =~= t@);
    None
}

/// The `key=value` tokens split at their first `=`.
fn push_tokens(params: &mut Vec<(String, String)>, tokens: &Vec<String>)
    ensures
        pair_views(final(params)@) == pair_views(old(params)@) + token_pairs(
            tokens@.map_values(|t: String| t@),
        ),
{
    let ghost start = pair_views(params@);
    let ghost ts = tokens@.map_values(|t: String| t@);
    let mut i: usize = 0;
    while i < tokens.len()
        invariant
            i <= tokens@.len(),
            ts == tokens@.map_values(|t: String| t@),
            pair_views(params@) == start + token_pairs(ts.take(i as int)),
        decreases tokens@.len() - i,
    {
        assert(ts.take(i + 1).drop_last() =~= ts.take(i as int));
        let t = crate::text::chars_of(tokens[i].as_str());
        assert(ts.take(i + 1).last() == t@);
        let found = find_eq(t.as_slice());
        let ghost before = pair_views(params@);
        if let Some(k) = found {
            let n = t.len();
            assert(k < n);
            let key = string_from_chars(&t.as_slice()[0..k]);
            let value = string_from_chars(&t.as_slice()[k + 1..n]);
            assert(key@ =~= t@.take(k as int));
            assert(value@ =~= t@.skip(k + 1));
            params.push((key, value));
            assert(pair_views(params@) =~= before.push((t@.take(k as int), t@.skip(k + 1))));
        }
        assert(pair_views(params@) =~= start + token_pairs(ts.take(i + 1)));
        i += 1;
    }
    assert(ts.take(i as int) =~= ts);
}

proof fn lemma_first_eq_prefix(s: Seq<char>, k: int)
    requires
        0 <= k < s.len(),
        s[k] == '=',
        first_eq(s.take(k)) is None,
    ensures
        first_eq(s) == Some(k),
    decreases s.len() - k,
{
    assert(s.take(k + 1).drop_last() =~= s.take(k));
    assert(first_eq(s.take(k + 1)) == Some(k));
    lemma_first_eq_extends(s, k, k + 1);
}

proof fn lemma_first_eq_extends(s: Seq<char>, k: int, j: int)
    requires
        0 <= k < j <= s.len(),
        first_eq(s.take(j)) == Some(k),
    ensures
        first_eq(s) == Some(k),
    decreases s.len() - j,
{
    if j == s.len() {
        assert(s.take(j) =~= s);
    } else {
        assert(s.take(j + 1).drop_last() =~= s.take(j));
        lemma_first_eq_extends(s, k, j + 1);
    }
}

#[verifier::spinoff_prover]
#[verifier::rlimit(40)]
fn push_limits(params: &mut Vec<(String, String)>, l: &FmtpLimits)
    ensures
        pair_views(final(params)@) == pair_views(old(params)@) + limit_pairs(*l),
{
    let ghost start = pair_views(params@);
    push_nonzero(params, "packetization-mode", l.packetization_mode);
    if l.profile_level_id != 0 {
        let mut hex: Vec<char> = Vec::new();
        push_hex_padded(&mut hex, l.profile_level_id, 6);
        assert(hex@ =~= hex_padded(l.profile_level_id as nat, 6));
        push_pair(params, "profile-level-id", string_from_chars(hex.as_slice()));
    }
    let ghost a = pair_views(params@);
    assert(a =~= start + head_limit_pairs(*l));
    push_middle_limits(params, l);
    let ghost b = pair_views(params@);
    push_nonzero(params, "maxaveragebitrate", l.maxaveragebitrate);
    push_nonzero(params, "ptime", l.ptime);
    push_nonzero(params, "minptime", l.minptime);
    push_nonzero(params, "maxptime", l.maxptime);
    assert(pair_views(params@) =~= b + tail_limit_pairs(*l));
    assert(pair_views(params@) =~= start + limit_pairs(*l));
}

fn push_middle_limits(params: &mut Vec<(String, String)>, l: &FmtpLimits)
    ensures
        pair_views(final(params)@) == pair_views(old(params)@) + middle_limit_pairs(*l),
{
    let ghost start = pair_views(params@);
    push_nonzero(params, "max-fs", l.max_fs);
    push_nonzero(params, "max-cpb", l.max_cpb);
    push_nonzero(params, "max-dpb", l.max_dpb);
    push_nonzero(params, "max-br", l.max_br);
    push_nonzero(params, "max-mbps", l.max_mbps);
    push_nonzero(params, "max-fr", l.max_fr);
    push_nonzero(params, "maxplaybackrate", l.maxplaybackrate);
    assert(pair_views(params@) =~= start + middle_limit_pairs(*l));
}

fn push_flags(params: &mut Vec<(String, String)>, x: &FmtpExtras)
    ensures
        pair_views(final(params)@) == pair_views(old(params)@) + flag_pairs(*x),
{
    let ghost start = pair_views(params@);
    push_pair(params, "level-asymmetry-allowed", flag_string(x.level_asymmetry_allowed));
    push_pair(params, "usedtx", flag_string(x.usedtx));
    push_pair(params, "stereo", flag_string(x.stereo));
    push_pair(params, "useinbandfec", flag_string(x.useinbandfec));
    push_pair(params, "cbr", flag_string(x.cbr));
    assert(pair_views(params@) =~= start + flag_pairs(*x));
}

fn push_extras(params: &mut Vec<(String, String)>, x: &FmtpExtras)
    ensures
        pair_views(final(params)@) == pair_views(old(params)@) + extra_pairs(*x),
{
    let ghost start = pair_views(params@);
    push_some(params, "profile", x.profile);
    push_some(params, "level-idx", x.level_idx);
    push_some(params, "tier", x.tier);
    let ghost a = pair_views(params@);
    if x.encodings.len() > 0 {
        push_pair(params, "encodings", join_encodings(&x.encodings));
    }
    if x.dtmf_tones.unicode_len() > 0 {
        push_pair(params, "dtmf-tones", x.dtmf_tones.clone());
    }
    push_some(params, "apt", x.rtx_apt);
    let ghost b = pair_views(params@);
    push_tokens(params, &x.unknown_tokens);
    assert(pair_views(params@) =~= start + extra_pairs(*x));
}

/// The Jingle `<parameter>` pairs of an `a=fmtp:` line, as
/// [`fmtp_pairs`] lists them.
pub fn fmtp_to_params(fmtp: &FmtpParams) -> (r: Vec<(String, String)>)
    ensures
        pair_views(r@) == fmtp_pairs(*fmtp),
{
    let mut params: Vec<(String, String)> = Vec::new();
    assert(pair_views(params@) =~= Seq::<(Seq<char>, Seq<char>)>::empty());
    push_limits(&mut params, &fmtp.limits);
    push_flags(&mut params, &fmtp.extras);
    push_extras(&mut params, &fmtp.extras);
    assert(pair_views(params@) =~= fmtp_pairs(*fmtp));
    params
}

/// `"1"` for true, `"0"` for false.
fn flag_string(v: bool) -> (r: String)
    ensures
        r@ == flag_text(v),
{
    if v {
        String::from_str("1")
    } else {
        String::from_str("0")
    }
}


/// An `a=rtpmap:` line.
#[derive(Debug, Clone)]
pub struct RtpMap {
    pub payload_type: u8,
    pub codec_name: String,
    pub frequency: u32,
    pub channels: Option<u32>,
}

/// An `a=fmtp:` line.
#[derive(Debug, Clone)]
pub struct Fmtp {
    pub payload_type: u8,
    pub params: FmtpParams,
}

/// An `a=rtcp-fb:` line: its feedback type as SDP writes it, whether that is
/// `trr-int`, and its parameter.
#[derive(Debug, Clone)]
pub struct RtcpFb {
    pub trr_int: bool,
    pub feedback_type: String,
    pub parameter: String,
}

/// An `a=fingerprint:` line: the hash function's name and the digest.
#[derive(Debug, Clone)]
pub struct Fingerprint {
    pub hash: String,
    pub bytes: Vec<u8>,
}

/// What the `session-accept` reads of one m-line of the answer.
#[derive(Debug, Clone)]
pub struct AnswerMedia {
    pub kind: MediaKind,
    /// The payload types of the m-line, when it lists numbers.
    pub formats: Option<Vec<u32>>,
    pub rtpmaps: Vec<RtpMap>,
    pub fmtps: Vec<Fmtp>,
    pub rtcp_fbs: Vec<RtcpFb>,
    pub rtcp_mux: bool,
    pub fingerprints: Vec<Fingerprint>,
    /// The DTLS role of the first `a=setup:`.
    pub setup: Option<String>,
    pub ufrag: Option<String>,
    pub pwd: Option<String>,
    pub candidates: Vec<CandidateInfo>,
}

/// The answer, as far as the `session-accept` reads it.
#[derive(Debug, Clone)]
pub struct Sdp {
    /// The semantics of the session's first `a=group:`.
    pub group_semantics: Option<String>,
    pub media: Vec<AnswerMedia>,
}

/// The m-lines of a `webrtc_sdp` session.
pub uninterp spec fn session_media(s: SdpSession) -> Seq<SdpMedia>;

/// The semantics of the first `a=group:` of a `webrtc_sdp` session, as it
/// prints them.
pub uninterp spec fn session_group(s: SdpSession) -> Option<Seq<char>>;

/// Trusted: clones the `media` field of a `webrtc_sdp::SdpSession`.
#[verifier::external_body]
pub(crate) fn media_of_session(s: &SdpSession) -> (r: Vec<SdpMedia>)
    ensures
        r@ == session_media(*s),
{
    s.media.clone()
}

/// Trusted: `SdpSession::get_attribute` for the group type, its semantics
/// printed with their `Display`.
#[verifier::external_body]
fn group_of_session(s: &SdpSession) -> (r: Option<String>)
    ensures
        opt_view(r) == session_group(*s),
{
    match s.get_attribute(SdpAttributeType::Group) {
        Some(SdpAttribute::Group(g)) => Some(g.semantics.to_string()),
        _ => None,
    }
}

/// The payload types an m-line of `webrtc_sdp` lists, when it lists numbers.
pub uninterp spec fn media_formats(m: SdpMedia) -> Option<Seq<u32>>;

/// An `a=rtpmap:` attribute of `webrtc_sdp`, as [`rtpmap_in`] converts it.
pub uninterp spec fn attr_rtpmap(a: SdpAttribute) -> Option<RtpMap>;

/// The payload type and numeric limits of an `a=fmtp:` attribute of
/// `webrtc_sdp`, as [`fmtp_limits_in`] converts them.
pub uninterp spec fn attr_fmtp_limits(a: SdpAttribute) -> Option<(u8, FmtpLimits)>;

/// The flags, options and lists of an `a=fmtp:` attribute of `webrtc_sdp`, as
/// [`fmtp_extras_in`] converts them.
pub uninterp spec fn attr_fmtp_extras(a: SdpAttribute) -> Option<FmtpExtras>;

/// An `a=rtcp-fb:` attribute of `webrtc_sdp`, as [`rtcp_fb_in`] converts it.
pub uninterp spec fn attr_rtcp_fb(a: SdpAttribute) -> Option<RtcpFb>;

/// An `a=candidate:` attribute of `webrtc_sdp`, as [`candidate_info_in`]
/// converts it.
pub uninterp spec fn attr_candidate_info(a: SdpAttribute) -> Option<CandidateInfo>;

/// The values `f` reads off the attributes among `vs` that the offer shaping
/// keeps whole, in order.
pub open spec fn collect_other<T>(vs: Seq<AttrView>, f: spec_fn(SdpAttribute) -> Option<T>) -> Seq<T>
    decreases vs.len(),
{
    if vs.len() == 0 {
        seq![]
    } else {
        collect_other(vs.drop_last(), f) + match vs.last() {
            AttrView::Other(a) => match f(a) {
                Some(x) => seq![x],
                None => seq![],
            },
            _ => seq![],
        }
    }
}

/// The first element, if any.
pub open spec fn first_of<T>(s: Seq<T>) -> Option<T> {
    if s.len() > 0 {
        Some(s[0])
    } else {
        None
    }
}

/// An `a=fmtp:` attribute: its payload type with its limits and extras.
pub open spec fn attr_fmtp(a: SdpAttribute) -> Option<(u8, FmtpLimits, FmtpExtras)> {
    match (attr_fmtp_limits(a), attr_fmtp_extras(a)) {
        (Some(l), Some(x)) => Some((l.0, l.1, x)),
        _ => None,
    }
}

/// An `a=fingerprint:` attribute.
pub open spec fn attr_fingerprint(a: SdpAttribute) -> Option<Fingerprint> {
    match attr_transport(a) {
        TransportAttr::Fingerprint(h, b) => Some(Fingerprint { hash: h, bytes: b }),
        _ => None,
    }
}

/// The DTLS role of an `a=setup:` attribute.
pub open spec fn attr_setup(a: SdpAttribute) -> Option<String> {
    match attr_transport(a) {
        TransportAttr::Setup(x) => Some(x),
        _ => None,
    }
}

/// The username fragment of an `a=ice-ufrag:` attribute.
pub open spec fn attr_ufrag(a: SdpAttribute) -> Option<String> {
    match attr_transport(a) {
        TransportAttr::IceUfrag(x) => Some(x),
        _ => None,
    }
}

/// The password of an `a=ice-pwd:` attribute.
pub open spec fn attr_pwd(a: SdpAttribute) -> Option<String> {
    match attr_transport(a) {
        TransportAttr::IcePwd(x) => Some(x),
        _ => None,
    }
}

/// Whether an attribute is `a=rtcp-mux`.
pub open spec fn attr_rtcp_mux(a: SdpAttribute) -> Option<()> {
    match attr_transport(a) {
        TransportAttr::RtcpMux => Some(()),
        _ => None,
    }
}

/// A list of payload types as plain values.
pub open spec fn opt_seq(o: Option<Vec<u32>>) -> Option<Seq<u32>> {
    match o {
        Some(v) => Some(v@),
        None => None,
    }
}

/// Trusted: `SdpMedia::get_formats`, kept when it lists integers. Claims the
/// result depends on the m-line alone (named [`media_formats`]).
#[verifier::external_body]
fn formats_of(m: &SdpMedia) -> (r: Option<Vec<u32>>)
    ensures
        opt_seq(r) == media_formats(*m),
{
    match m.get_formats() {
        SdpFormatList::Integers(v) => Some(v.clone()),
        _ => None,
    }
}

/// Trusted: an `a=rtpmap:` attribute of `webrtc_sdp`, fields moved; `None`
/// for any other attribute (named [`attr_rtpmap`]).
#[verifier::external_body]
fn rtpmap_in(a: &SdpAttribute) -> (r: Option<RtpMap>)
    ensures
        r == attr_rtpmap(*a),
{
    match a {
        SdpAttribute::Rtpmap(r) => Some(RtpMap { payload_type: r.payload_type,
            codec_name: r.codec_name.clone(), frequency: r.frequency, channels: r.channels }),
        _ => None,
    }
}

/// Trusted: the payload type and numeric limits of an `a=fmtp:` attribute of
/// `webrtc_sdp`, fields moved; `None` for any other attribute (named
/// [`attr_fmtp_limits`]).
#[verifier::external_body]
fn fmtp_limits_in(a: &SdpAttribute) -> (r: Option<(u8, FmtpLimits)>)
    ensures
        r == attr_fmtp_limits(*a),
{
    match a {
        SdpAttribute::Fmtp(f) => Some((f.payload_type, {
            let p = &f.parameters;
            FmtpLimits { packetization_mode: p.packetization_mode, profile_level_id: p.profile_level_id,
                max_fs: p.max_fs, max_cpb: p.max_cpb, max_dpb: p.max_dpb, max_br: p.max_br,
                max_mbps: p.max_mbps, max_fr: p.max_fr, maxplaybackrate: p.maxplaybackrate,
                maxaveragebitrate: p.maxaveragebitrate, ptime: p.ptime, minptime: p.minptime,
                maxptime: p.maxptime }
        })),
        _ => None,
    }
}

/// Trusted: the flags, options and lists of an `a=fmtp:` attribute of
/// `webrtc_sdp`, fields moved (the RTX parameters by their `apt`); `None` for
/// any other attribute (named [`attr_fmtp_extras`]).
#[verifier::external_body]
fn fmtp_extras_in(a: &SdpAttribute) -> (r: Option<FmtpExtras>)
    ensures
        r == attr_fmtp_extras(*a),
{
    match a {
        SdpAttribute::Fmtp(f) => Some({
            let p = &f.parameters;
            FmtpExtras { level_asymmetry_allowed: p.level_asymmetry_allowed, usedtx: p.usedtx,
                stereo: p.stereo, useinbandfec: p.useinbandfec, cbr: p.cbr, profile: p.profile,
                level_idx: p.level_idx, tier: p.tier, encodings: p.encodings.clone(),
                dtmf_tones: p.dtmf_tones.clone(), rtx_apt: p.rtx.as_ref().map(|x| x.apt),
                unknown_tokens: p.unknown_tokens.clone() }
        }),
        _ => None,
    }
}

/// Trusted: an `a=rtcp-fb:` attribute of `webrtc_sdp`, its feedback type
/// printed with its `Display`; `None` for any other attribute (named
/// [`attr_rtcp_fb`]).
#[verifier::external_body]
fn rtcp_fb_in(a: &SdpAttribute) -> (r: Option<RtcpFb>)
    ensures
        r == attr_rtcp_fb(*a),
{
    match a {
        SdpAttribute::Rtcpfb(f) => Some(RtcpFb { trr_int: matches!(f.feedback_type, SdpAttributeRtcpFbType::TrrInt),
            feedback_type: f.feedback_type.to_string(), parameter: f.parameter.clone() }),
        _ => None,
    }
}

/// Trusted: an `a=candidate:` attribute of `webrtc_sdp`, fields moved and the
/// transport, type and addresses printed with their `Display`; `None` for any
/// other attribute (named [`attr_candidate_info`]).
#[verifier::external_body]
pub(crate) fn candidate_info_in(a: &SdpAttribute) -> (r: Option<CandidateInfo>)
    ensures
        r == attr_candidate_info(*a),
{
    match a {
        SdpAttribute::Candidate(c) => Some(CandidateInfo { foundation: c.foundation.clone(),
            component: c.component, transport: c.transport.to_string(), priority: c.priority,
            address: c.address.to_string(), port: c.port, kind: c.c_type.to_string(),
            raddr: c.raddr.as_ref().map(|x| x.to_string()), rport: c.rport, generation: c.generation }),
        _ => None,
    }
}

/// The `a=fmtp:` lines among the attributes `vs`, in order.
pub open spec fn fmtps_in(vs: Seq<AttrView>) -> Seq<(u8, FmtpLimits, FmtpExtras)> {
    collect_other(vs, fmtp_reader())
}

/// Whether the fmtp lines `a` hold the values `b` lists, one for one.
pub open spec fn fmtps_agree(a: Seq<Fmtp>, b: Seq<(u8, FmtpLimits, FmtpExtras)>) -> bool {
    &&& a.len() == b.len()
    &&& forall|k: int|
        0 <= k < a.len() ==> #[trigger] a[k].payload_type == b[k].0 && a[k].params.limits == b[k].1
            && same_extras(a[k].params.extras, b[k].2)
}

/// [`attr_fmtp`] as a function value.
pub open spec fn fmtp_reader() -> spec_fn(SdpAttribute) -> Option<(u8, FmtpLimits, FmtpExtras)> {
    |x: SdpAttribute| attr_fmtp(x)
}

/// Whether `a` holds what the `session-accept` reads of m-line `m`: its type
/// and payload types, then, among its attributes in order, the rtpmaps,
/// fmtps, feedback lines and fingerprints, whether `a=rtcp-mux` is there, the
/// first setup, username fragment and password, and the candidates.
pub open spec fn answer_matches(a: AnswerMedia, m: SdpMedia) -> bool {
    let vs = media_attributes(m);
    let fmtps = fmtps_in(vs);
    &&& a.kind@ == media_kind(m)
    &&& opt_seq(a.formats) == media_formats(m)
    &&& a.rtpmaps@ == collect_other(vs, |x: SdpAttribute| attr_rtpmap(x))
    &&& fmtps_agree(a.fmtps@, fmtps)
    &&& a.rtcp_fbs@ == collect_other(vs, |x: SdpAttribute| attr_rtcp_fb(x))
    &&& a.rtcp_mux == (collect_other(vs, |x: SdpAttribute| attr_rtcp_mux(x)).len() > 0)
    &&& a.fingerprints@ == collect_other(vs, |x: SdpAttribute| attr_fingerprint(x))
    &&& a.setup == first_of(collect_other(vs, |x: SdpAttribute| attr_setup(x)))
    &&& a.ufrag == first_of(collect_other(vs, |x: SdpAttribute| attr_ufrag(x)))
    &&& a.pwd == first_of(collect_other(vs, |x: SdpAttribute| attr_pwd(x)))
    &&& a.candidates@ == collect_other(vs, |x: SdpAttribute| attr_candidate_info(x))
}

proof fn lemma_collect_step<T>(vs: Seq<AttrView>, i: int, f: spec_fn(SdpAttribute) -> Option<T>)
    requires
        0 <= i < vs.len(),
    ensures
        collect_other(vs.take(i + 1), f) == collect_other(vs.take(i), f) + match vs[i] {
            AttrView::Other(a) => match f(a) {
                Some(x) => seq![x],
                None => seq![],
            },
            _ => seq![],
        },
{
    assert(vs.take(i + 1).drop_last() =~= vs.take(i));
}

proof fn lemma_first_of_append<T>(s: Seq<T>, t: Seq<T>)
    ensures
        first_of(s + t) == if s.len() > 0 {
            first_of(s)
        } else {
            first_of(t)
        },
{
    if s.len() == 0 {
        assert(s + t =~= t);
    }
}

/// The `a=rtpmap:` lines among an m-line's attributes, in order.
fn rtpmaps_of(attrs: &Vec<MediaAttr>) -> (r: Vec<RtpMap>)
    ensures
        r@ == collect_other(attr_views(attrs@), |x: SdpAttribute| attr_rtpmap(x)),
{
    let ghost vs = attr_views(attrs@);
    let ghost f = |x: SdpAttribute| attr_rtpmap(x);
    let mut out: Vec<RtpMap> = Vec::new();
    let mut i: usize = 0;
    while i < attrs.len()
        invariant
            i <= attrs@.len(),
            vs == attr_views(attrs@),
            f == (|x: SdpAttribute| attr_rtpmap(x)),
            out@ == collect_other(vs.take(i as int), f),
        decreases attrs@.len() - i,
    {
        proof {
            lemma_collect_step(vs, i as int, f);
        }
        match &attrs[i] {
            MediaAttr::Other(a) => match rtpmap_in(a) {
                Some(x) => {
                    out.push(x);
                },
                None => {},
            },
            _ => {},
        }
        i += 1;
    }
    assert(vs.take(i as int) =~= vs);
    out
}

/// The `a=fmtp:` lines among an m-line's attributes, in order.
fn fmtps_of(attrs: &Vec<MediaAttr>) -> (r: Vec<Fmtp>)
    ensures
        fmtps_agree(r@, fmtps_in(attr_views(attrs@))),
{
    let ghost vs = attr_views(attrs@);
    let ghost f = fmtp_reader();
    let mut out: Vec<Fmtp> = Vec::new();
    let mut i: usize = 0;
    while i < attrs.len()
        invariant
            i <= attrs@.len(),
            vs == attr_views(attrs@),
            f == fmtp_reader(),
            fmtps_agree(out@, collect_other(vs.take(i as int), f)),
        decreases attrs@.len() - i,
    {
        proof {
            lemma_collect_step(vs, i as int, f);
        }
        let ghost before = out@;
        let ghost c0 = collect_other(vs.take(i as int), f);
        let ghost c1 = collect_other(vs.take(i + 1), f);
        match &attrs[i] {
            MediaAttr::Other(a) => {
                let lim = fmtp_limits_in(a);
                let ext = fmtp_extras_in(a);
                match (lim, ext) {
                    (Some(l), Some(x)) => {
                        let (pt, ls) = l;
                        let ghost gx = x;
                        out.push(Fmtp { payload_type: pt, params: FmtpParams { limits: ls, extras: x } });
                        assert(c1 == c0.push((pt, ls, gx)));
                        assert(out@[before.len() as int].params.extras == gx);
                    },
                    _ => {
                        assert(c1 =~= c0);
                    },
                }
            },
            _ => {
                assert(c1 =~= c0);
            },
        }
        assert forall|k: int| 0 <= k < out@.len() implies #[trigger] out@[k].payload_type == c1[k].0
            && out@[k].params.limits == c1[k].1 && same_extras(out@[k].params.extras, c1[k].2) by {
            if k < before.len() {
                assert(out@[k] == before[k]);
                assert(c1[k] == c0[k]);
                assert(before[k].payload_type == c0[k].0);
            }
        }
        i += 1;
    }
    assert(vs.take(i as int) =~= vs);
    out
}

/// The `a=rtcp-fb:` lines among an m-line's attributes, in order.
fn rtcp_fbs_of(attrs: &Vec<MediaAttr>) -> (r: Vec<RtcpFb>)
    ensures
        r@ == collect_other(attr_views(attrs@), |x: SdpAttribute| attr_rtcp_fb(x)),
{
    let ghost vs = attr_views(attrs@);
    let ghost f = |x: SdpAttribute| attr_rtcp_fb(x);
    let mut out: Vec<RtcpFb> = Vec::new();
    let mut i: usize = 0;
    while i < attrs.len()
        invariant
            i <= attrs@.len(),
            vs == attr_views(attrs@),
            f == (|x: SdpAttribute| attr_rtcp_fb(x)),
            out@ == collect_other(vs.take(i as int), f),
        decreases attrs@.len() - i,
    {
        proof {
            lemma_collect_step(vs, i as int, f);
        }
        match &attrs[i] {
            MediaAttr::Other(a) => match rtcp_fb_in(a) {
                Some(x) => {
                    out.push(x);
                },
                None => {},
            },
            _ => {},
        }
        i += 1;
    }
    assert(vs.take(i as int) =~= vs);
    out
}

/// The `a=candidate:` lines among an m-line's attributes, in order.
fn candidates_of(attrs: &Vec<MediaAttr>) -> (r: Vec<CandidateInfo>)
    ensures
        r@ == collect_other(attr_views(attrs@), |x: SdpAttribute| attr_candidate_info(x)),
{
    let ghost vs = attr_views(attrs@);
    let ghost f = |x: SdpAttribute| attr_candidate_info(x);
    let mut out: Vec<CandidateInfo> = Vec::new();
    let mut i: usize = 0;
    while i < attrs.len()
        invariant
            i <= attrs@.len(),
            vs == attr_views(attrs@),
            f == (|x: SdpAttribute| attr_candidate_info(x)),
            out@ == collect_other(vs.take(i as int), f),
        decreases attrs@.len() - i,
    {
        proof {
            lemma_collect_step(vs, i as int, f);
        }
        match &attrs[i] {
            MediaAttr::Other(a) => match candidate_info_in(a) {
                Some(x) => {
                    out.push(x);
                },
                None => {},
            },
            _ => {},
        }
        i += 1;
    }
    assert(vs.take(i as int) =~= vs);
    out
}

/// The DTLS and ICE values among an m-line's attributes: its fingerprints in
/// order, whether `a=rtcp-mux` is there, and its first setup, username
/// fragment and password.
fn transport_parts_of(attrs: &Vec<MediaAttr>) -> (r: (
    Vec<Fingerprint>,
    bool,
    Option<String>,
    Option<String>,
    Option<String>,
))
    ensures
        r.0@ == collect_other(attr_views(attrs@), |x: SdpAttribute| attr_fingerprint(x)),
        r.1 == (collect_other(attr_views(attrs@), |x: SdpAttribute| attr_rtcp_mux(x)).len() > 0),
        r.2 == first_of(collect_other(attr_views(attrs@), |x: SdpAttribute| attr_setup(x))),
        r.3 == first_of(collect_other(attr_views(attrs@), |x: SdpAttribute| attr_ufrag(x))),
        r.4 == first_of(collect_other(attr_views(attrs@), |x: SdpAttribute| attr_pwd(x))),
{
    let ghost vs = attr_views(attrs@);
    let ghost ffp = |x: SdpAttribute| attr_fingerprint(x);
    let ghost fmux = |x: SdpAttribute| attr_rtcp_mux(x);
    let ghost fsetup = |x: SdpAttribute| attr_setup(x);
    let ghost fufrag = |x: SdpAttribute| attr_ufrag(x);
    let ghost fpwd = |x: SdpAttribute| attr_pwd(x);
    let mut fps: Vec<Fingerprint> = Vec::new();
    let mut mux = false;
    let mut setup: Option<String> = None;
    let mut ufrag: Option<String> = None;
    let mut pwd: Option<String> = None;
    let mut i: usize = 0;
    while i < attrs.len()
        invariant
            i <= attrs@.len(),
            vs == attr_views(attrs@),
            ffp == (|x: SdpAttribute| attr_fingerprint(x)),
            fmux == (|x: SdpAttribute| attr_rtcp_mux(x)),
            fsetup == (|x: SdpAttribute| attr_setup(x)),
            fufrag == (|x: SdpAttribute| attr_ufrag(x)),
            fpwd == (|x: SdpAttribute| attr_pwd(x)),
            fps@ == collect_other(vs.take(i as int), ffp),
            mux == (collect_other(vs.take(i as int), fmux).len() > 0),
            setup == first_of(collect_other(vs.take(i as int), fsetup)),
            ufrag == first_of(collect_other(vs.take(i as int), fufrag)),
            pwd == first_of(collect_other(vs.take(i as int), fpwd)),
        decreases attrs@.len() - i,
    {
        proof {
            lemma_collect_step(vs, i as int, ffp);
            lemma_collect_step(vs, i as int, fmux);
            lemma_collect_step(vs, i as int, fsetup);
            lemma_collect_step(vs, i as int, fufrag);
            lemma_collect_step(vs, i as int, fpwd);
        }
        let ghost s0 = collect_other(vs.take(i as int), fsetup);
        let ghost u0 = collect_other(vs.take(i as int), fufrag);
        let ghost p0 = collect_other(vs.take(i as int), fpwd);
        match &attrs[i] {
            MediaAttr::Other(a) => {
                let t = transport_attr(a);
                proof {
                    lemma_first_of_append(s0, seq![]);
                    lemma_first_of_append(u0, seq![]);
                    lemma_first_of_append(p0, seq![]);
                }
                match t {
                    TransportAttr::Fingerprint(h, b) => {
                        fps.push(Fingerprint { hash: h, bytes: b });
                    },
                    TransportAttr::RtcpMux => {
                        mux = true;
                    },
                    TransportAttr::Setup(x) => {
                        proof {
                            lemma_first_of_append(s0, seq![x]);
                        }
                        if setup.is_none() {
                            setup = Some(x);
                        }
                    },
                    TransportAttr::IceUfrag(x) => {
                        proof {
                            lemma_first_of_append(u0, seq![x]);
                        }
                        if ufrag.is_none() {
                            ufrag = Some(x);
                        }
                    },
                    TransportAttr::IcePwd(x) => {
                        proof {
                            lemma_first_of_append(p0, seq![x]);
                        }
                        if pwd.is_none() {
                            pwd = Some(x);
                        }
                    },
                    _ => {},
                }
            },
            _ => {
                proof {
                    lemma_first_of_append(s0, seq![]);
                    lemma_first_of_append(u0, seq![]);
                    lemma_first_of_append(p0, seq![]);
                }
            },
        }
        i += 1;
    }
    assert(vs.take(i as int) =~= vs);
    (fps, mux, setup, ufrag, pwd)
}

/// Reads what the `session-accept` needs off one m-line.
fn answer_media_exec(m: &SdpMedia) -> (r: AnswerMedia)
    ensures
        answer_matches(r, *m),
{
    let attrs = attributes_of(m);
    let (fingerprints, rtcp_mux, setup, ufrag, pwd) = transport_parts_of(&attrs);
    AnswerMedia {
        kind: kind_of_media(m),
        formats: formats_of(m),
        rtpmaps: rtpmaps_of(&attrs),
        fmtps: fmtps_of(&attrs),
        rtcp_fbs: rtcp_fbs_of(&attrs),
        rtcp_mux,
        fingerprints,
        setup,
        ufrag,
        pwd,
        candidates: candidates_of(&attrs),
    }
}

/// The first `a=rtpmap:` for payload type `format`.
pub open spec fn rtpmap_for(maps: Seq<RtpMap>, format: u32) -> Option<RtpMap>
    decreases maps.len(),
{
    if maps.len() == 0 {
        None
    } else {
        match rtpmap_for(maps.drop_last(), format) {
            Some(m) => Some(m),
            None => if maps.last().payload_type as u32 == format {
                Some(maps.last())
            } else {
                None
            },
        }
    }
}

/// The first `a=fmtp:` for payload type `format`.
pub open spec fn fmtp_for(fmtps: Seq<Fmtp>, format: u32) -> Option<Fmtp>
    decreases fmtps.len(),
{
    if fmtps.len() == 0 {
        None
    } else {
        match fmtp_for(fmtps.drop_last(), format) {
            Some(f) => Some(f),
            None => if fmtps.last().payload_type as u32 == format {
                Some(fmtps.last())
            } else {
                None
            },
        }
    }
}

/// The payload types of an m-line that have an `a=rtpmap:`, in m-line
/// order.
pub open spec fn mapped_formats(formats: Seq<u32>, maps: Seq<RtpMap>) -> Seq<u32>
    decreases formats.len(),
{
    if formats.len() == 0 {
        seq![]
    } else {
        mapped_formats(formats.drop_last(), maps) + if rtpmap_for(maps, formats.last()) is Some {
            seq![formats.last()]
        } else {
            seq![]
        }
    }
}

/// The payload types of an m-line (none unless it lists numbers) that have an
/// `a=rtpmap:`.
pub open spec fn payload_formats(a: AnswerMedia) -> Seq<u32> {
    match a.formats {
        Some(v) => mapped_formats(v@, a.rtpmaps@),
        None => seq![],
    }
}

/// The `<parameter>` pairs of payload type `format`.
pub open spec fn params_for(a: AnswerMedia, format: u32) -> Seq<(Seq<char>, Seq<char>)> {
    match fmtp_for(a.fmtps@, format) {
        Some(f) => fmtp_pairs(f.params),
        None => seq![],
    }
}

/// Whether `e` is the `<parameter>` for one fmtp pair: the pair becomes its
/// one attribute.
pub open spec fn is_parameter(e: Element, p: (Seq<char>, Seq<char>)) -> bool {
    tag_is(e, "parameter"@, set_pair(seq![], p.0, p.1)) && e.children@.len() == 0
}

/// Whether `e` is the element for one `a=rtcp-fb:`.
pub open spec fn is_rtcp_fb(e: Element, fb: RtcpFb) -> bool {
    &&& e.children@.len() == 0
    &&& if fb.trr_int {
        tag_is(
            e,
            "rtcp-fb-trr-int"@,
            set_pair(set_pair(seq![], "value"@, fb.parameter@), "xmlns"@, xep_urn(XEP::RtpFeedback)),
        )
    } else {
        tag_is(
            e,
            "rtcp_fb"@,
            set_pair(
                set_pair(set_pair(seq![], "xmlns"@, xep_urn(XEP::RtpFeedback)), "type"@, fb.feedback_type@),
                "subtype"@,
                fb.parameter@,
            ),
        )
    }
}

/// The attributes of a `<payload-type>`.
pub open spec fn payload_pairs(m: RtpMap) -> Seq<(Seq<char>, Seq<char>)> {
    set_pair(
        set_pair(
            set_pair(set_pair(seq![], "id"@, decimal(m.payload_type as nat)), "clockrate"@, decimal(m.frequency as nat)),
            "channels"@,
            decimal(
                match m.channels {
                    Some(c) => c as nat,
                    None => 1,
                },
            ),
        ),
        "name"@,
        m.codec_name@,
    )
}

/// Whether `e` is the `<payload-type>` for `format`: its rtpmap, then a
/// `<parameter>` per fmtp pair, then every feedback line of the m-line.
pub open spec fn is_payload(e: Element, a: AnswerMedia, format: u32) -> bool {
    let params = params_for(a, format);
    let fbs = a.rtcp_fbs@;
    &&& rtpmap_for(a.rtpmaps@, format) matches Some(m) && tag_is(e, "payload-type"@, payload_pairs(m))
    &&& e.children@.len() == params.len() + fbs.len()
    &&& forall|k: int| 0 <= k < params.len() ==> is_parameter(#[trigger] e.children@[k], params[k])
    &&& forall|k: int|
        0 <= k < fbs.len() ==> is_rtcp_fb(#[trigger] e.children@[params.len() + k], fbs[k])
}

/// Whether `e` is the `<description>` of an audio or video m-line.
pub open spec fn is_description(e: Element, a: AnswerMedia) -> bool {
    let fs = payload_formats(a);
    &&& tag_is(
        e,
        "description"@,
        set_pair(set_pair(seq![], "media"@, kind_text(a.kind@)), "xmlns"@, xep_urn(XEP::RtpMedia)),
    )
    &&& e.children@.len() == fs.len() + if a.rtcp_mux {
        1int
    } else {
        0int
    }
    &&& forall|k: int| 0 <= k < fs.len() ==> is_payload(#[trigger] e.children@[k], a, fs[k])
    &&& a.rtcp_mux ==> tag_is(e.children@[fs.len() as int], "rtcp-mux"@, seq![])
        && e.children@[fs.len() as int].children@.len() == 0
}

/// Whether `e` is the `<fingerprint>` for `f`: hash, DTLS role when known,
/// and the digest as its text.
pub open spec fn is_fingerprint(e: Element, f: Fingerprint, setup: Option<String>) -> bool {
    let base = set_pair(set_pair(seq![], "xmlns"@, xep_urn(XEP::DtlsSrtp)), "hash"@, f.hash@);
    &&& tag_is(
        e,
        "fingerprint"@,
        match setup {
            Some(s) => set_pair(base, "setup"@, s@),
            None => base,
        },
    )
    &&& e.children@.len() == 1
    &&& text_node_is(e.children@[0], fingerprint_hex(f.bytes@))
}

/// The attributes of a `<candidate>` of the answer, given its element id.
pub open spec fn answer_candidate_pairs(c: CandidateInfo, id: Seq<char>) -> Seq<(Seq<char>, Seq<char>)> {
    let head = set_pair(
        set_pair(
            set_pair(set_pair(seq![], "port"@, decimal(c.port as nat)), "component"@, decimal(c.component as nat)),
            "foundation"@,
            c.foundation@,
        ),
        "type"@,
        c.kind@,
    );
    let addr = set_pair(set_pair(head, "ip"@, c.address@), "priority"@, decimal(c.priority as nat));
    let rel = match c.raddr {
        Some(r) => set_pair(addr, "rel-addr"@, r@),
        None => addr,
    };
    let relp = match c.rport {
        Some(p) => set_pair(rel, "rel-port"@, decimal(p as nat)),
        None => rel,
    };
    set_pair(
        set_pair(
            set_pair(
                set_pair(
                    relp,
                    "generation"@,
                    decimal(
                        match c.generation {
                            Some(g) => g as nat,
                            None => 0,
                        },
                    ),
                ),
                "network"@,
                "1"@,
            ),
            "id"@,
            id,
        ),
        "protocol"@,
        lowercase(c.transport@),
    )
}

/// Whether `e` is the `<candidate>` of the answer for `c`, under a random
/// 21-character element id.
pub open spec fn is_answer_candidate(e: Element, c: CandidateInfo) -> bool {
    &&& exists|id: Seq<char>|
        id.len() == 21 && tag_is(e, "candidate"@, #[trigger] answer_candidate_pairs(c, id))
    &&& e.children@.len() == 0
}

/// Whether an m-line has both ICE credentials.
pub open spec fn has_ice(a: AnswerMedia) -> bool {
    a.ufrag is Some && a.pwd is Some
}

/// Whether `e` is the `<transport>` of an audio or video m-line: the
/// fingerprints, then (with ICE credentials) the credentials as attributes
/// and the candidates.
pub open spec fn is_transport(e: Element, a: AnswerMedia) -> bool {
    let fps = a.fingerprints@;
    let cands = if has_ice(a) {
        a.candidates@
    } else {
        seq![]
    };
    &&& tag_is(
        e,
        "transport"@,
        if has_ice(a) {
            set_pair(
                set_pair(set_pair(seq![], "ufrag"@, a.ufrag->0@), "pwd"@, a.pwd->0@),
                "xmlns"@,
                xep_urn(XEP::IceUdpTransport),
            )
        } else {
            seq![]
        },
    )
    &&& e.children@.len() == fps.len() + cands.len()
    &&& forall|k: int| 0 <= k < fps.len() ==> is_fingerprint(#[trigger] e.children@[k], fps[k], a.setup)
    &&& forall|k: int|
        0 <= k < cands.len() ==> is_answer_candidate(#[trigger] e.children@[fps.len() + k], cands[k])
}

/// Whether an m-line carries audio or video.
pub open spec fn is_av(a: AnswerMedia) -> bool {
    kind_text(a.kind@) == "audio"@ || kind_text(a.kind@) == "video"@
}

/// Whether `e` is the `<content>` of an m-line: named after its media type;
/// for audio and video, with a description and a transport.
pub open spec fn is_content(e: Element, a: AnswerMedia) -> bool {
    &&& tag_is(
        e,
        "content"@,
        set_pair(set_pair(set_pair(seq![], "name"@, kind_text(a.kind@)), "creator"@, "initiator"@), "senders"@, "initiator"@),
    )
    &&& if is_av(a) {
        e.children@.len() == 2 && is_description(e.children@[0], a) && is_transport(e.children@[1], a)
    } else {
        e.children@.len() == 0
    }
}

/// Whether `e` is the BUNDLE `<group>` over the audio and video contents.
pub open spec fn is_group(e: Element, semantics: Seq<char>) -> bool {
    &&& tag_is(e, "group"@, set_pair(set_pair(seq![], "semantics"@, semantics), "xmlns"@, xep_urn(XEP::BundleMedia)))
    &&& e.children@.len() == 2
    &&& tag_is(e.children@[0], "content"@, set_pair(seq![], "name"@, "audio"@))
    &&& e.children@[0].children@.len() == 0
    &&& tag_is(e.children@[1], "content"@, set_pair(seq![], "name"@, "video"@))
    &&& e.children@[1].children@.len() == 0
}

/// Whether `e` is the `session-accept` for an answer: the group when the
/// answer has one, then one `<content>` per m-line.
pub open spec fn is_session_accept(
    e: Element,
    sdp: Sdp,
    initiator: Seq<char>,
    sid: Seq<char>,
    responder: Seq<char>,
) -> bool {
    let g: int = if sdp.group_semantics is Some {
        1
    } else {
        0
    };
    &&& tag_is(
        e,
        "jingle"@,
        set_pair(
            set_pair(
                set_pair(set_pair(set_pair(seq![], "xmlns"@, "urn:xmpp:jingle:1"@), "action"@, "session-accept"@), "initiator"@, initiator),
                "sid"@,
                sid,
            ),
            "responder"@,
            responder,
        ),
    )
    &&& e.children@.len() == g + sdp.media@.len()
    &&& (sdp.group_semantics matches Some(sem) ==> is_group(e.children@[0], sem@))
    &&& forall|j: int| 0 <= j < sdp.media@.len() ==> is_content(#[trigger] e.children@[g + j], sdp.media@[j])
}


/// The first `a=rtpmap:` for payload type `format`.
pub fn find_rtpmap(media: &AnswerMedia, format: u32) -> (r: Option<&RtpMap>)
    ensures
        match r {
            Some(m) => rtpmap_for(media.rtpmaps@, format) == Some(*m),
            None => rtpmap_for(media.rtpmaps@, format) is None,
        },
{
    let maps = &media.rtpmaps;
    let mut i: usize = 0;
    while i < maps.len()
        invariant
            i <= maps@.len(),
            *maps == media.rtpmaps,
            rtpmap_for(maps@.take(i as int), format) is None,
        decreases maps@.len() - i,
    {
        assert(maps@.take(i + 1).drop_last() =~= maps@.take(i as int));
        if maps[i].payload_type as u32 == format {
            assert(rtpmap_for(maps@.take(i + 1), format) == Some(maps@[i as int]));
            proof {
                lemma_rtpmap_for_prefix(maps@, i as int, format);
            }
            return Some(&maps[i]);
        }
        i += 1;
    }
    assert(maps@.take(i as int) =~= maps@);
    None
}

proof fn lemma_rtpmap_for_prefix(maps: Seq<RtpMap>, i: int, format: u32)
    requires
        0 <= i < maps.len(),
        rtpmap_for(maps.take(i + 1), format) is Some,
    ensures
        rtpmap_for(maps, format) == rtpmap_for(maps.take(i + 1), format),
    decreases maps.len() - i,
{
    if i + 1 == maps.len() {
        assert(maps.take(i + 1) =~= maps);
    } else {
        assert(maps.take(i + 2).drop_last() =~= maps.take(i + 1));
        lemma_rtpmap_for_prefix(maps, i + 1, format);
    }
}

/// The first `a=fmtp:` for payload type `format`.
pub fn find_fmtp(media: &AnswerMedia, format: u32) -> (r: Option<&Fmtp>)
    ensures
        match r {
            Some(f) => fmtp_for(media.fmtps@, format) == Some(*f),
            None => fmtp_for(media.fmtps@, format) is None,
        },
{
    let fmtps = &media.fmtps;
    let mut i: usize = 0;
    while i < fmtps.len()
        invariant
            i <= fmtps@.len(),
            *fmtps == media.fmtps,
            fmtp_for(fmtps@.take(i as int), format) is None,
        decreases fmtps@.len() - i,
    {
        assert(fmtps@.take(i + 1).drop_last() =~= fmtps@.take(i as int));
        if fmtps[i].payload_type as u32 == format {
            assert(fmtp_for(fmtps@.take(i + 1), format) == Some(fmtps@[i as int]));
            proof {
                lemma_fmtp_for_prefix(fmtps@, i as int, format);
            }
            return Some(&fmtps[i]);
        }
        i += 1;
    }
    assert(fmtps@.take(i as int) =~= fmtps@);
    None
}

proof fn lemma_fmtp_for_prefix(fmtps: Seq<Fmtp>, i: int, format: u32)
    requires
        0 <= i < fmtps.len(),
        fmtp_for(fmtps.take(i + 1), format) is Some,
    ensures
        fmtp_for(fmtps, format) == fmtp_for(fmtps.take(i + 1), format),
    decreases fmtps.len() - i,
{
    if i + 1 == fmtps.len() {
        assert(fmtps.take(i + 1) =~= fmtps);
    } else {
        assert(fmtps.take(i + 2).drop_last() =~= fmtps.take(i + 1));
        lemma_fmtp_for_prefix(fmtps, i + 1, format);
    }
}

/// Whether the m-line asks for RTP and RTCP on one port.
pub fn rtcp_mux_exist(media: &AnswerMedia) -> (r: bool)
    ensures
        r == media.rtcp_mux,
{
    media.rtcp_mux
}

/// The element for one `a=rtcp-fb:`.
fn rtcp_fb_element(fb: &RtcpFb) -> (r: Element)
    ensures
        is_rtcp_fb(r, *fb),
{
    if fb.trr_int {
        let mut e = Element::tag("rtcp-fb-trr-int");
        e.set_attribute("value", fb.parameter.as_str());
        e.set_attribute("xmlns", XEP::RtpFeedback.urn());
        e
    } else {
        let mut e = Element::tag("rtcp_fb");
        e.set_attribute("xmlns", XEP::RtpFeedback.urn());
        e.set_attribute("type", fb.feedback_type.as_str());
        e.set_attribute("subtype", fb.parameter.as_str());
        e
    }
}

/// Appends an element per feedback line of the m-line.
pub fn rtcp_fb_to_jingle(media: &AnswerMedia, stanza: &mut Element)
    ensures
        final(stanza).children@.len() == old(stanza).children@.len() + media.rtcp_fbs@.len(),
        forall|k: int|
            0 <= k < old(stanza).children@.len() ==> final(stanza).children@[k] == old(
                stanza,
            ).children@[k],
        forall|k: int|
            0 <= k < media.rtcp_fbs@.len() ==> is_rtcp_fb(
                #[trigger] final(stanza).children@[old(stanza).children@.len() + k],
                media.rtcp_fbs@[k],
            ),
        final(stanza).name == old(stanza).name,
        final(stanza).attributes == old(stanza).attributes,
        final(stanza).text == old(stanza).text,
{
    let ghost n0 = stanza.children@.len();
    let ghost kids0 = stanza.children@;
    let mut i: usize = 0;
    while i < media.rtcp_fbs.len()
        invariant
            i <= media.rtcp_fbs@.len(),
            stanza.children@.len() == n0 + i,
            n0 == old(stanza).children@.len(),
            kids0 == old(stanza).children@,
            forall|k: int| 0 <= k < n0 ==> stanza.children@[k] == kids0[k],
            forall|k: int|
                0 <= k < i ==> is_rtcp_fb(#[trigger] stanza.children@[n0 + k], media.rtcp_fbs@[k]),
            stanza.name == old(stanza).name,
            stanza.attributes == old(stanza).attributes,
            stanza.text == old(stanza).text,
        decreases media.rtcp_fbs@.len() - i,
    {
        let e = rtcp_fb_element(&media.rtcp_fbs[i]);
        stanza.add_child(e);
        assert(stanza.children@[n0 + i] == e);
        i += 1;
    }
}

/// The `<payload-type>` for payload type `format`.
fn payload_element(media: &AnswerMedia, format: u32, rtpmap: &RtpMap) -> (r: Element)
    requires
        rtpmap_for(media.rtpmaps@, format) == Some(*rtpmap),
    ensures
        is_payload(r, *media, format),
{
    let mut e = Element::tag("payload-type");
    e.set_attribute("id", decimal_text(rtpmap.payload_type as u64).as_str());
    e.set_attribute("clockrate", decimal_text(rtpmap.frequency as u64).as_str());
    let channels: u64 = match rtpmap.channels {
        Some(c) => c as u64,
        None => 1,
    };
    e.set_attribute("channels", decimal_text(channels).as_str());
    e.set_attribute("name", rtpmap.codec_name.as_str());
    let ghost params_spec = params_for(*media, format);
    let params: Vec<(String, String)> = match find_fmtp(media, format) {
        Some(f) => fmtp_to_params(&f.params),
        None => Vec::new(),
    };
    assert(pair_views(params@) == params_spec);
    let mut k: usize = 0;
    while k < params.len()
        invariant
            k <= params@.len(),
            pair_views(params@) == params_spec,
            tag_is(e, "payload-type"@, payload_pairs(*rtpmap)),
            e.children@.len() == k,
            forall|j: int| 0 <= j < k ==> is_parameter(#[trigger] e.children@[j], params_spec[j]),
        decreases params@.len() - k,
    {
        let mut p = Element::tag("parameter");
        p.set_attribute(params[k].0.as_str(), params[k].1.as_str());
        assert(params_spec[k as int] == (params@[k as int].0@, params@[k as int].1@));
        e.add_child(p);
        k += 1;
    }
    rtcp_fb_to_jingle(media, &mut e);
    e
}

/// The `<description>` of an audio or video m-line.
fn description_element(media: &AnswerMedia) -> (r: Element)
    ensures
        is_description(r, *media),
{
    let mut e = Element::tag("description");
    let kind = kind_name(&media.kind);
    e.set_attribute("media", kind.as_str());
    e.set_attribute("xmlns", XEP::RtpMedia.urn());
    let ghost fs = payload_formats(*media);
    match &media.formats {
        Some(formats) => {
            let mut i: usize = 0;
            let ghost maps = media.rtpmaps@;
            assert(formats@.take(0) =~= Seq::<u32>::empty());
            while i < formats.len()
                invariant
                    i <= formats@.len(),
                    media.formats == Some(*formats),
                    maps == media.rtpmaps@,
                    fs == mapped_formats(formats@, maps),
                    tag_is(
                        e,
                        "description"@,
                        set_pair(set_pair(seq![], "media"@, kind_text(media.kind@)), "xmlns"@, xep_urn(XEP::RtpMedia)),
                    ),
                    e.children@.len() == mapped_formats(formats@.take(i as int), maps).len(),
                    forall|k: int|
                        0 <= k < e.children@.len() ==> is_payload(
                            #[trigger] e.children@[k],
                            *media,
                            mapped_formats(formats@.take(i as int), maps)[k],
                        ),
                decreases formats@.len() - i,
            {
                let format = formats[i];
                let ghost prev = mapped_formats(formats@.take(i as int), maps);
                assert(formats@.take(i + 1).drop_last() =~= formats@.take(i as int));
                assert(formats@.take(i + 1).last() == format);
                match find_rtpmap(media, format) {
                    Some(m) => {
                        let p = payload_element(media, format, m);
                        let ghost kids = e.children@;
                        e.add_child(p);
                        assert(mapped_formats(formats@.take(i + 1), maps) =~= prev.push(format));
                        assert forall|k: int| 0 <= k < e.children@.len() implies is_payload(
                            #[trigger] e.children@[k],
                            *media,
                            mapped_formats(formats@.take(i + 1), maps)[k],
                        ) by {
                            if k < kids.len() {
                                assert(e.children@[k] == kids[k]);
                            }
                        }
                    },
                    None => {
                        assert(mapped_formats(formats@.take(i + 1), maps) =~= prev);
                    },
                }
                i += 1;
            }
            assert(formats@.take(i as int) =~= formats@);
        },
        None => {},
    }
    if rtcp_mux_exist(media) {
        let ghost kids = e.children@;
        e.add_child(Element::tag("rtcp-mux"));
        assert forall|k: int| 0 <= k < fs.len() implies is_payload(#[trigger] e.children@[k], *media, fs[k]) by {
            assert(e.children@[k] == kids[k]);
        }
    }
    e
}

/// The `<fingerprint>` for one `a=fingerprint:`.
fn fingerprint_element(f: &Fingerprint, setup: &Option<String>) -> (r: Element)
    ensures
        is_fingerprint(r, *f, *setup),
{
    let mut e = Element::tag("fingerprint");
    e.set_attribute("xmlns", XEP::DtlsSrtp.urn());
    e.set_attribute("hash", f.hash.as_str());
    let text = fingerprint_to_hex(f.bytes.as_slice());
    e.add_child(Element::text_node(text.as_str()));
    match setup {
        Some(s) => e.set_attribute("setup", s.as_str()),
        None => {},
    }
    e
}

/// The `<candidate>` of the answer for one ICE candidate, under a random
/// element id.
pub fn parse_candidate(candidate: &CandidateInfo) -> (r: Element)
    ensures
        is_answer_candidate(r, *candidate),
{
    let id = random_id(21);
    let mut e = Element::tag("candidate");
    e.set_attribute("port", decimal_text(candidate.port as u64).as_str());
    e.set_attribute("component", decimal_text(candidate.component as u64).as_str());
    e.set_attribute("foundation", candidate.foundation.as_str());
    e.set_attribute("type", candidate.kind.as_str());
    e.set_attribute("ip", candidate.address.as_str());
    e.set_attribute("priority", decimal_text(candidate.priority).as_str());
    match &candidate.raddr {
        Some(a) => e.set_attribute("rel-addr", a.as_str()),
        None => {},
    }
    match candidate.rport {
        Some(p) => e.set_attribute("rel-port", decimal_text(p as u64).as_str()),
        None => {},
    }
    let generation: u64 = match candidate.generation {
        Some(g) => g as u64,
        None => 0,
    };
    e.set_attribute("generation", decimal_text(generation).as_str());
    e.set_attribute("network", "1");
    e.set_attribute("id", id.as_str());
    let protocol = to_lowercase(candidate.transport.as_str());
    e.set_attribute("protocol", protocol.as_str());
    assert(tag_is(e, "candidate"@, answer_candidate_pairs(*candidate, id@)));
    e
}

/// Fills the `<transport>` of an audio or video m-line: the fingerprints,
/// then, when both ICE credentials are known, the credentials and the
/// candidates.
pub fn transport_to_jingle(media: &AnswerMedia, stanza: &mut Element)
    requires
        tag_is(*old(stanza), "transport"@, seq![]),
        old(stanza).children@.len() == 0,
    ensures
        is_transport(*final(stanza), *media),
{
    let mut i: usize = 0;
    while i < media.fingerprints.len()
        invariant
            i <= media.fingerprints@.len(),
            tag_is(*stanza, "transport"@, seq![]),
            stanza.children@.len() == i,
            forall|k: int|
                0 <= k < i ==> is_fingerprint(
                    #[trigger] stanza.children@[k],
                    media.fingerprints@[k],
                    media.setup,
                ),
        decreases media.fingerprints@.len() - i,
    {
        let e = fingerprint_element(&media.fingerprints[i], &media.setup);
        stanza.add_child(e);
        i += 1;
    }
    match (&media.ufrag, &media.pwd) {
        (Some(ufrag), Some(pwd)) => {
            stanza.set_attribute("ufrag", ufrag.as_str());
            stanza.set_attribute("pwd", pwd.as_str());
            stanza.set_attribute("xmlns", XEP::IceUdpTransport.urn());
            let ghost nf = stanza.children@.len();
            let mut j: usize = 0;
            while j < media.candidates.len()
                invariant
                    j <= media.candidates@.len(),
                    nf == media.fingerprints@.len(),
                    has_ice(*media),
                    media.ufrag == Some(*ufrag),
                    media.pwd == Some(*pwd),
                    tag_is(
                        *stanza,
                        "transport"@,
                        set_pair(
                            set_pair(set_pair(seq![], "ufrag"@, ufrag@), "pwd"@, pwd@),
                            "xmlns"@,
                            xep_urn(XEP::IceUdpTransport),
                        ),
                    ),
                    stanza.children@.len() == nf + j,
                    forall|k: int|
                        0 <= k < nf ==> is_fingerprint(
                            #[trigger] stanza.children@[k],
                            media.fingerprints@[k],
                            media.setup,
                        ),
                    forall|k: int|
                        0 <= k < j ==> is_answer_candidate(
                            #[trigger] stanza.children@[nf + k],
                            media.candidates@[k],
                        ),
                decreases media.candidates@.len() - j,
            {
                let e = parse_candidate(&media.candidates[j]);
                stanza.add_child(e);
                assert(stanza.children@[nf + j] == e);
                j += 1;
            }
        },
        _ => {},
    }
}

/// Whether a media type name is `audio` or `video`.
fn is_av_name(kind: &String) -> (r: bool)
    ensures
        r == (kind@ == "audio"@ || kind@ == "video"@),
{
    let k = chars_of(kind.as_str());
    chars_eq_str(k.as_slice(), "audio") || chars_eq_str(k.as_slice(), "video")
}

/// The `<content>` of one m-line.
fn content_element(media: &AnswerMedia) -> (r: Element)
    ensures
        is_content(r, *media),
{
    let kind = kind_name(&media.kind);
    let mut content = Element::tag("content");
    content.set_attribute("name", kind.as_str());
    content.set_attribute("creator", "initiator");
    content.set_attribute("senders", "initiator");
    if is_av_name(&kind) {
        let description = description_element(media);
        let mut transport = Element::tag("transport");
        transport_to_jingle(media, &mut transport);
        content.add_child(description);
        content.add_child(transport);
    }
    content
}

/// Whether `sdp` holds what the `session-accept` reads of session `s`: the
/// semantics of its first group, and each m-line's values.
pub open spec fn reads_session(sdp: Sdp, s: SdpSession) -> bool {
    &&& opt_view(sdp.group_semantics) == session_group(s)
    &&& sdp.media@.len() == session_media(s).len()
    &&& forall|j: int| 0 <= j < sdp.media@.len() ==> answer_matches(#[trigger] sdp.media@[j], session_media(s)[j])
}

impl Sdp {
    /// Reads what the `session-accept` needs off a parsed answer: the
    /// semantics of its first group and, per m-line, an [`AnswerMedia`].
    pub fn new(sdp_session: &SdpSession) -> (r: Sdp)
        ensures
            reads_session(r, *sdp_session),
    {
        let lines = media_of_session(sdp_session);
        let mut media: Vec<AnswerMedia> = Vec::new();
        let mut j: usize = 0;
        while j < lines.len()
            invariant
                j <= lines@.len(),
                lines@ == session_media(*sdp_session),
                media@.len() == j,
                forall|k: int| 0 <= k < j ==> answer_matches(#[trigger] media@[k], lines@[k]),
            decreases lines@.len() - j,
        {
            let a = answer_media_exec(&lines[j]);
            media.push(a);
            j += 1;
        }
        Sdp { group_semantics: group_of_session(sdp_session), media }
    }

    /// The Jingle `session-accept` for this answer: the BUNDLE group when the
    /// answer has one, then a `<content>` per m-line (see
    /// [`is_session_accept`]).
    pub fn parse_sdp_to_jingle(&self, initiator: &str, sid: &str, responder: &str) -> (r: Element)
        ensures
            is_session_accept(r, *self, initiator@, sid@, responder@),
    {
        let mut jingle = Element::tag("jingle");
        jingle.set_attribute("xmlns", "urn:xmpp:jingle:1");
        jingle.set_attribute("action", "session-accept");
        jingle.set_attribute("initiator", initiator);
        jingle.set_attribute("sid", sid);
        jingle.set_attribute("responder", responder);
        self.parse_group(&mut jingle);
        self.parse_media(&mut jingle);
        jingle
    }

    /// Appends the BUNDLE group over the audio and video contents, when the
    /// answer has a group.
    fn parse_group(&self, stanza: &mut Element)
        requires
            old(stanza).children@.len() == 0,
        ensures
            final(stanza).children@.len() == if self.group_semantics is Some {
                1int
            } else {
                0int
            },
            self.group_semantics matches Some(sem) ==> is_group(final(stanza).children@[0], sem@),
            final(stanza).name == old(stanza).name,
            final(stanza).attributes == old(stanza).attributes,
            final(stanza).text == old(stanza).text,
    {
        match &self.group_semantics {
            Some(sem) => {
                let mut group = Element::tag("group");
                group.set_attribute("semantics", sem.as_str());
                group.set_attribute("xmlns", XEP::BundleMedia.urn());
                let mut audio = Element::tag("content");
                audio.set_attribute("name", "audio");
                let mut video = Element::tag("content");
                video.set_attribute("name", "video");
                group.add_child(audio);
                group.add_child(video);
                stanza.add_child(group);
            },
            None => {},
        }
    }

    /// Appends a `<content>` per m-line.
    fn parse_media(&self, stanza: &mut Element)
        ensures
            final(stanza).children@.len() == old(stanza).children@.len() + self.media@.len(),
            forall|k: int|
                0 <= k < old(stanza).children@.len() ==> final(stanza).children@[k] == old(
                    stanza,
                ).children@[k],
            forall|j: int|
                0 <= j < self.media@.len() ==> is_content(
                    #[trigger] final(stanza).children@[old(stanza).children@.len() + j],
                    self.media@[j],
                ),
            final(stanza).name == old(stanza).name,
            final(stanza).attributes == old(stanza).attributes,
            final(stanza).text == old(stanza).text,
    {
        let ghost n0 = stanza.children@.len();
        let ghost kids0 = stanza.children@;
        let mut j: usize = 0;
        while j < self.media.len()
            invariant
                j <= self.media@.len(),
                n0 == old(stanza).children@.len(),
                kids0 == old(stanza).children@,
                stanza.children@.len() == n0 + j,
                forall|k: int| 0 <= k < n0 ==> stanza.children@[k] == kids0[k],
                forall|k: int|
                    0 <= k < j ==> is_content(#[trigger] stanza.children@[n0 + k], self.media@[k]),
                stanza.name == old(stanza).name,
                stanza.attributes == old(stanza).attributes,
                stanza.text == old(stanza).text,
            decreases self.media@.len() - j,
        {
            let c = content_element(&self.media[j]);
            stanza.add_child(c);
            assert(stanza.children@[n0 + j] == c);
            j += 1;
        }
    }

}

} // verus!
