//! XMPP protocol namespaces, kept in one place so stanza builders never spell
//! a URN by hand.

use vstd::prelude::*;

verus! {

/// A namespace URN used in the Jingle stanzas this client exchanges with the
/// focus and the bridge. [`XEP::urn`] yields the URN itself, so these go
/// straight into `xmlns` attributes.
#[derive(Debug, Clone, Copy, PartialEq, Eq)]
pub enum XEP {
    /// XEP-0338 grouping, i.e. BUNDLE.
    BundleMedia,
    /// XEP-0320 DTLS-SRTP key exchange.
    DtlsSrtp,
    /// XEP-0176 ICE-UDP transport.
    IceUdpTransport,
    /// XEP-0166 Jingle itself.
    Jingle,
    /// XEP-0327 Rayo, used by Jitsi for call control.
    Rayo,
    /// XEP-0167 audio content type.
    RtpAudio,
    /// XEP-0293 RTCP feedback negotiation.
    RtpFeedback,
    /// XEP-0294 RTP header extensions.
    RtpHeaderExtensions,
    /// XEP-0167 RTP sessions.
    RtpMedia,
    /// XEP-0167 video content type.
    RtpVideo,
    /// SCTP data channel transport (`urn:xmpp:jingle:transports:dtls-sctp:1`).
    SctpDataChannel,
    /// XEP-0339 source-specific media attributes (`ssrc` / `ssrc-group`).
    SourceAttributes,
}

/// The URN each namespace stands for.
pub open spec fn xep_urn(x: XEP) -> Seq<char> {
    match x {
        XEP::BundleMedia => "urn:xmpp:jingle:apps:grouping:0"@,
        XEP::DtlsSrtp => "urn:xmpp:jingle:apps:dtls:0"@,
        XEP::IceUdpTransport => "urn:xmpp:jingle:transports:ice-udp:1"@,
        XEP::Jingle => "urn:xmpp:jingle:1"@,
        XEP::Rayo => "urn:xmpp:rayo:client:1"@,
        XEP::RtpAudio => "urn:xmpp:jingle:apps:rtp:audio"@,
        XEP::RtpFeedback => "urn:xmpp:jingle:apps:rtp:rtcp-fb:0"@,
        XEP::RtpHeaderExtensions => "urn:xmpp:jingle:apps:rtp:rtp-hdrext:0"@,
        XEP::RtpMedia => "urn:xmpp:jingle:apps:rtp:1"@,
        XEP::RtpVideo => "urn:xmpp:jingle:apps:rtp:video"@,
        XEP::SctpDataChannel => "urn:xmpp:jingle:transports:dtls-sctp:1"@,
        XEP::SourceAttributes => "urn:xmpp:jingle:apps:rtp:ssma:0"@,
    }
}

impl XEP {
    /// The URN, as written into `xmlns` attributes.
    pub fn urn(&self) -> (s: &'static str)
        ensures
            s@ == xep_urn(*self),
    {
        match self {
            XEP::BundleMedia => "urn:xmpp:jingle:apps:grouping:0",
            XEP::DtlsSrtp => "urn:xmpp:jingle:apps:dtls:0",
            XEP::IceUdpTransport => "urn:xmpp:jingle:transports:ice-udp:1",
            XEP::Jingle => "urn:xmpp:jingle:1",
            XEP::Rayo => "urn:xmpp:rayo:client:1",
            XEP::RtpAudio => "urn:xmpp:jingle:apps:rtp:audio",
            XEP::RtpFeedback => "urn:xmpp:jingle:apps:rtp:rtcp-fb:0",
            XEP::RtpHeaderExtensions => "urn:xmpp:jingle:apps:rtp:rtp-hdrext:0",
            XEP::RtpMedia => "urn:xmpp:jingle:apps:rtp:1",
            XEP::RtpVideo => "urn:xmpp:jingle:apps:rtp:video",
            XEP::SctpDataChannel => "urn:xmpp:jingle:transports:dtls-sctp:1",
            XEP::SourceAttributes => "urn:xmpp:jingle:apps:rtp:ssma:0",
        }
    }
}

} // verus!
