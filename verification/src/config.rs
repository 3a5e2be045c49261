//! The recorder's settings, as read from its configuration files, and the
//! log level they select.

use vstd::prelude::*;

verus! {

/// Top-level settings.
#[derive(Debug, Clone)]
pub struct ConfigSettings {
    /// Raises the log filter to `debug`.
    pub debug: bool,
    /// Name the recorder reports for itself.
    pub name: String,
    pub server: ServerConfig,
    pub xmpp_client: XmppClient,
    pub webrtc: Webrtc,
}

/// Where the recorder listens for commands telling it to join a meeting.
#[derive(Debug, Clone)]
pub struct ServerConfig {
    pub ip: String,
    pub port: String,
    /// Prefix stripped off an incoming start command before the remainder is
    /// treated as a room name.
    pub start_pattern_trim: String,
}

/// Settings applied to `webrtcbin` when a room's pipeline is built.
#[derive(Debug, Clone)]
pub struct Webrtc {
    pub stun_server: String,
    /// `bundle-policy` value, e.g. `max-bundle`.
    pub bundle_policy: String,
}

/// Credentials and address of the XMPP server the recorder signs in to.
#[derive(Debug, Clone)]
pub struct XmppClient {
    pub bot_jid: String,
    pub bot_password: String,
    pub domain_url: String,
    pub domain_port: u16,
}

/// The log filters the recorder runs at.
#[derive(Debug, Clone, Copy, PartialEq, Eq)]
pub enum LogLevel {
    Info,
    Debug,
}

impl LogLevel {
    /// The filter text handed to the logger.
    pub fn as_str(&self) -> (r: &'static str)
        ensures
            r@ == match self {
                LogLevel::Info => "info"@,
                LogLevel::Debug => "debug"@,
            },
    {
        match self {
            LogLevel::Info => "info",
            LogLevel::Debug => "debug",
        }
    }
}

impl ConfigSettings {
    /// `debug` when the settings ask for it, `info` otherwise.
    pub fn log_level(&self) -> (r: LogLevel)
        ensures
            r == (if self.debug {
                LogLevel::Debug
            } else {
                LogLevel::Info
            }),
    {
        if self.debug {
            LogLevel::Debug
        } else {
            LogLevel::Info
        }
    }
}

} // verus!
