//! What the command line makes of its arguments.

use vstd::prelude::*;
use crate::agent::Policy;
use crate::agent_server::ServerConfig;
use crate::config::{
    AgentConfig, AgentMode, Config, IntercomConfig, MediaConfig, SecurityConfig,
};
use crate::net::{Ipv4Addr, SocketAddr};
use crate::replay_agent::TimedFrame;
use crate::text;
use crate::time::Duration;

verus! {

/// The flags of the Agent. What is set takes precedence over the configuration.
#[derive(Debug)]
pub struct AgentFlags {
    pub mode: Option<AgentMode>,
    pub device_id: Option<String>,
    pub subnet: Option<String>,
    pub listen: Option<SocketAddr>,
    pub http: Option<SocketAddr>,
    pub token: Option<String>,
    pub swagger: bool,
    pub no_web_ui: bool,
    pub history_secs: Option<u64>,
}

/// A setting that a flag takes precedence over.
pub open spec fn overridden<T>(flag: Option<T>, setting: T) -> T {
    match flag {
        Some(v) => v,
        None => setting,
    }
}

/// The configuration with the flags applied.
pub fn override_config(config: Config, flags: AgentFlags) -> (r: Config)
    ensures
        r == (Config {
            intercom: IntercomConfig {
                mode: overridden(flags.mode, config.intercom.mode),
                device_id: overridden(flags.device_id, config.intercom.device_id),
                subnet: if flags.subnet is Some {
                    flags.subnet
                } else {
                    config.intercom.subnet
                },
                pad_listen: overridden(flags.listen, config.intercom.pad_listen),
                ..config.intercom
            },
            agent: AgentConfig {
                http_listen: overridden(flags.http, config.agent.http_listen),
                token: overridden(flags.token, config.agent.token),
                swagger: flags.swagger || config.agent.swagger,
                web_ui: !flags.no_web_ui && config.agent.web_ui,
                ..config.agent
            },
            media: MediaConfig {
                history_secs: overridden(flags.history_secs, config.media.history_secs),
                ..config.media
            },
            ..config
        }),
{
    let mut out = config;
    if let Some(mode) = flags.mode {
        out.intercom.mode = mode;
    }
    if let Some(id) = flags.device_id {
        out.intercom.device_id = id;
    }
    if let Some(subnet) = flags.subnet {
        out.intercom.subnet = Some(subnet);
    }
    if let Some(listen) = flags.listen {
        out.intercom.pad_listen = listen;
    }
    if let Some(http) = flags.http {
        out.agent.http_listen = http;
    }
    if let Some(token) = flags.token {
        out.agent.token = token;
    }
    if flags.swagger {
        out.agent.swagger = true;
    }
    if flags.no_web_ui {
        out.agent.web_ui = false;
    }
    if let Some(secs) = flags.history_secs {
        out.media.history_secs = secs;
    }
    out
}

/// A token that is not empty.
pub open spec fn set_token(token: Option<Seq<char>>) -> Option<Seq<char>> {
    match token {
        Some(t) => if t.len() > 0 {
            Some(t)
        } else {
            None
        },
        None => None,
    }
}

/// The settings of the control plane. An empty token stands for none.
pub fn server_config(listen: SocketAddr, token: Option<String>, swagger: bool, web_ui: bool) -> (r:
    ServerConfig)
    ensures
        r.listen == listen,
        text::text_view(r.token) == set_token(text::text_view(token)),
        r.swagger == swagger,
        r.web_ui == web_ui,
        r.event_stream_lifetime.0.nanos == 300_000_000_000,
        r.event_stream_lifetime.1.nanos == 600_000_000_000,
{
    let mut out = ServerConfig::default();
    out.listen = listen;
    out.swagger = swagger;
    out.web_ui = web_ui;
    out.token = match token {
        Some(t) => if t.as_str().is_empty() {
            None
        } else {
            Some(t)
        },
        None => None,
    };
    out
}

/// The settings of the control plane with event streams that all stay open equally long.
pub fn with_lifetime(config: ServerConfig, seconds: u64) -> (r: ServerConfig)
    ensures
        r.listen == config.listen,
        r.token == config.token,
        r.swagger == config.swagger,
        r.web_ui == config.web_ui,
        r.event_stream_lifetime.0.nanos == seconds * 1_000_000_000,
        r.event_stream_lifetime.1.nanos == seconds * 1_000_000_000,
{
    let mut out = config;
    let lifetime = Duration::from_secs(seconds);
    out.event_stream_lifetime = (lifetime, lifetime);
    out
}

/// When the door may be opened, as the configuration says.
pub fn policy(security: &SecurityConfig) -> (r: Policy)
    ensures
        r.cooldown.nanos == security.unlock_cooldown_ms * 1_000_000,
        r.unlock_requires_answer == security.unlock_requires_answer,
{
    Policy {
        cooldown: Duration::from_millis(security.unlock_cooldown_ms),
        unlock_requires_answer: security.unlock_requires_answer,
    }
}

/// How many bytes this many KiB are; `None` where they cannot be counted.
pub fn bytes_of_kib(kib: u64) -> (r: Option<usize>)
    ensures
        match r {
            Some(n) => n == kib * 1024,
            None => kib * 1024 > usize::MAX,
        },
{
    if kib <= usize::MAX as u64 / 1024 {
        Some(kib as usize * 1024)
    } else {
        None
    }
}

/// What a replay holds: how many frames, and when the first and the last of them come.
#[derive(Clone, Copy, Debug, PartialEq, Eq, Structural)]
pub struct TimelineSummary {
    pub frames: usize,
    pub first_offset_micros: u64,
    pub last_offset_micros: u64,
}

/// What a replay holds.
pub fn summarize(frames: &Vec<TimedFrame>) -> (r: TimelineSummary)
    ensures
        r.frames == frames@.len(),
        r.first_offset_micros == (if frames@.len() > 0 {
            frames@[0].offset_micros
        } else {
            0
        }),
        r.last_offset_micros == (if frames@.len() > 0 {
            frames@.last().offset_micros
        } else {
            0
        }),
{
    if frames.len() == 0 {
        return TimelineSummary { frames: 0, first_offset_micros: 0, last_offset_micros: 0 };
    }
    TimelineSummary {
        frames: frames.len(),
        first_offset_micros: frames[0].offset_micros,
        last_offset_micros: frames[frames.len() - 1].offset_micros,
    }
}

/// The address of the room in the packets of an emulated door: the one that is given, else that of
/// the target. An IPv6 target needs one that is given.
pub fn room_address(given: Option<Ipv4Addr>, target: SocketAddr) -> (r: Option<Ipv4Addr>)
    ensures
        r == (match given {
            Some(ip) => Some(ip),
            None => match target {
                SocketAddr::V4 { ip, .. } => Some(ip),
                SocketAddr::V6 { .. } => None,
            },
        }),
{
    match given {
        Some(ip) => Some(ip),
        None => match target {
            SocketAddr::V4 { ip, .. } => Some(ip),
            SocketAddr::V6 { .. } => None,
        },
    }
}

/// A flag that is set takes precedence over the setting, and one that is not leaves it; a token
/// that is empty is none.
pub proof fn law_flags_take_precedence<T>(flag: T, setting: T, token: Seq<char>)
    ensures
        overridden(Some(flag), setting) == flag,
        overridden(None, setting) == setting,
        set_token(None) is None,
        token.len() == 0 ==> set_token(Some(token)) is None,
        token.len() > 0 ==> set_token(Some(token)) == Some(token),
{
}

} // verus!
