//! The configuration of an Agent, its defaults and its rules.

use vstd::arithmetic::power2;
use vstd::prelude::*;
use crate::net;
use crate::net::{Ipv4Addr, SocketAddr};
use crate::text;

verus! {

/// What is wrong with a subnet.
#[derive(Clone, Copy, Debug, PartialEq, Eq, Structural)]
pub enum SubnetError {
    /// There is no slash in it.
    Form,
    /// What stands before the slash is no IPv4 address.
    Address,
    /// What stands behind the slash is no number.
    Prefix,
    /// The prefix length exceeds 32.
    PrefixTooLong,
}

/// What is wrong with a configuration.
#[derive(Clone, Copy, Debug, PartialEq, Eq, Structural)]
pub enum ConfigError {
    DeviceIdMissing,
    Subnet(SubnetError),
    CooldownTooShort,
    NoFps,
}

#[derive(Debug)]
pub struct Config {
    pub intercom: IntercomConfig,
    pub agent: AgentConfig,
    pub media: MediaConfig,
    pub coexistence: CoexistenceConfig,
    pub security: SecurityConfig,
}

/// How the Agent stands on the wire.
#[derive(Clone, Copy, Debug, PartialEq, Eq, Structural)]
pub enum AgentMode {
    /// This process is the Pad, a UDP endpoint.
    Pad,
    /// A physical Pad stays; the Agent taps the bridge and arbitrates.
    Tap,
}

impl AgentMode {
    /// The name of the mode.
    pub open spec fn text(self) -> Seq<char> {
        match self {
            AgentMode::Pad => "pad"@,
            AgentMode::Tap => "tap"@,
        }
    }

    pub fn as_str(self) -> (r: &'static str)
        ensures
            r@ == self.text(),
    {
        match self {
            AgentMode::Pad => "pad",
            AgentMode::Tap => "tap",
        }
    }

    /// The mode that a text names.
    pub fn parse(name: &str) -> (r: Option<AgentMode>)
        ensures
            match r {
                Some(mode) => name@ == mode.text(),
                None => name@ != AgentMode::Pad.text() && name@ != AgentMode::Tap.text(),
            },
    {
        if text::same_text(name, "pad") {
            Some(AgentMode::Pad)
        } else if text::same_text(name, "tap") {
            Some(AgentMode::Tap)
        } else {
            None
        }
    }
}

/// The one identity plus the environment. Only `device_id`, and in tap mode the interfaces, must
/// be set: the Pad's address, the door station and both MACs are learned from the first call and
/// then pinned. The optional fields pin them up front instead.
#[derive(Debug)]
pub struct IntercomConfig {
    pub mode: AgentMode,
    /// The Pad's room station id: who this process is, or stands in for.
    pub device_id: String,
    /// The LAN in CIDR form, for the discovery broadcast.
    pub subnet: Option<String>,
    /// The UDP control endpoint that the pad mode binds.
    pub pad_listen: SocketAddr,
    /// The bridge that the tap mode captures, and its two member ports.
    pub bridge_interface: String,
    pub door_interface: String,
    pub pad_interface: String,
    pub door_id: Option<String>,
    pub door_ip: Option<Ipv4Addr>,
    pub room_ip: Option<Ipv4Addr>,
    pub door_mac: Option<String>,
    pub pad_mac: Option<String>,
    pub control_port: u16,
    pub discovery_port: u16,
    /// The door cameras that can be viewed, by their station ids.
    pub cameras: Vec<String>,
    /// The station id of the door that fronts the elevator.
    pub elevator_door: Option<String>,
}

#[derive(Debug)]
pub struct AgentConfig {
    /// Where the HTTP control plane listens.
    pub http_listen: SocketAddr,
    /// The bearer token of the control plane; empty disables authentication.
    pub token: String,
    /// Whether Swagger UI is served.
    pub swagger: bool,
    /// Whether the built-in browser Pad is served.
    pub web_ui: bool,
    /// The resolutions that the browser Pad offers for the outbound camera.
    pub camera_resolutions: Vec<String>,
    pub tls_cert: Option<String>,
    pub tls_key: Option<String>,
    pub backend_ca: Option<String>,
}

#[derive(Clone, Copy, Debug, PartialEq, Eq, Structural)]
pub enum MediaEngineKind {
    Lite,
    Ffmpeg,
}

#[derive(Debug)]
pub struct MediaConfig {
    pub engine: MediaEngineKind,
    pub fps: u16,
    pub width: u16,
    pub height: u16,
    pub static_jpeg: Option<String>,
    pub ffmpeg: String,
    /// Seconds of media kept for late joiners; zero disables the pre-roll.
    pub history_secs: u64,
    /// The hard cap on the pre-roll in KiB.
    pub history_max_kib: u64,
}

#[derive(Clone, Copy, Debug, PartialEq, Eq, Structural)]
pub enum CoexistenceMode {
    Manual,
    Automatic,
}

#[derive(Clone, Copy, Debug, PartialEq, Eq, Structural)]
pub struct CoexistenceConfig {
    pub mode: CoexistenceMode,
    pub nfqueue: u16,
    pub owner_timeout_ms: u64,
}

#[derive(Clone, Copy, Debug, PartialEq, Eq, Structural)]
pub struct SecurityConfig {
    pub unlock_cooldown_ms: u64,
    /// Whether only the remote owner of an answered call may unlock.
    pub unlock_requires_answer: bool,
    pub virtual_unlock_ms: u64,
    pub max_call_seconds: u64,
}

/// The text behind an optional text, where it is set and not empty.
pub open spec fn set_text(s: Option<String>) -> Option<Seq<char>> {
    match s {
        Some(t) => if t@.len() > 0 {
            Some(t@)
        } else {
            None
        },
        None => None,
    }
}

/// The text behind an optional text, where it is set and not empty.
pub fn non_empty(s: &Option<String>) -> (r: Option<&str>)
    ensures
        match r {
            Some(t) => set_text(*s) == Some(t@),
            None => set_text(*s) is None,
        },
{
    match s {
        Some(t) => if t.as_str().is_empty() {
            None
        } else {
            Some(t.as_str())
        },
        None => None,
    }
}

/// The last address of the block of 2^(32 - `prefix`) addresses that holds `ip`.
pub open spec fn block_end(ip: Ipv4Addr, prefix: nat) -> int {
    let size = power2::pow2((32 - prefix) as nat);
    ip.number() - ip.number() % size + size - 1
}

/// What is wrong with a subnet in CIDR form.
pub open spec fn subnet_error(cidr: Seq<char>) -> Option<SubnetError> {
    match text::split_once(cidr, '/') {
        None => Some(SubnetError::Form),
        Some((ip, prefix)) => if net::parsed_ipv4(ip) is None {
            Some(SubnetError::Address)
        } else {
            match text::parsed_number(prefix, 10, u32::MAX as nat) {
                None => Some(SubnetError::Prefix),
                Some(n) => if n > 32 {
                    Some(SubnetError::PrefixTooLong)
                } else {
                    None
                },
            }
        },
    }
}

/// The number of the directed broadcast address of a subnet without an error.
pub open spec fn subnet_end(cidr: Seq<char>) -> int {
    let parts = text::split_once(cidr, '/')->0;
    block_end(
        net::parsed_ipv4(parts.0)->0,
        text::parsed_number(parts.1, 10, u32::MAX as nat)->0,
    )
}

fn block_size(bits: u32) -> (r: u64)
    requires
        bits <= 32,
    ensures
        r == power2::pow2(bits as nat),
        1 <= r <= 0x1_0000_0000,
{
    let mut size: u64 = 1;
    let mut i: u32 = 0;
    proof {
        power2::lemma2_to64();
    }
    while i < bits
        invariant
            i <= bits <= 32,
            size == power2::pow2(i as nat),
            1 <= size <= 0x1_0000_0000,
        decreases bits - i,
    {
        proof {
            power2::lemma_pow2_unfold((i + 1) as nat);
            power2::lemma2_to64();
            if i + 1 < 32 {
                power2::lemma_pow2_strictly_increases((i + 1) as nat, 32);
            }
        }
        size = size * 2;
        i = i + 1;
    }
    size
}

/// The directed broadcast address of an IPv4 CIDR such as "192.168.124.0/24".
pub fn subnet_broadcast(cidr: &str) -> (r: Result<Ipv4Addr, SubnetError>)
    ensures
        match r {
            Ok(ip) => subnet_error(cidr@) is None && ip.number() == subnet_end(cidr@),
            Err(e) => subnet_error(cidr@) == Some(e),
        },
{
    let chars = text::chars_of(cidr);
    let at: usize = text::position(&chars, '/');
    if at == chars.len() {
        return Err(SubnetError::Form);
    }
    let head = &chars.as_slice()[0..at];
    let tail = &chars.as_slice()[at + 1..chars.len()];
    assert(head@ =~= cidr@.take(at as int));
    assert(tail@ =~= cidr@.skip(at + 1));
    let ip = match Ipv4Addr::parse(head) {
        Some(ip) => ip,
        None => return Err(SubnetError::Address),
    };
    let prefix: u64 = match text::parse_number(tail, 10, u32::MAX as u64) {
        Some(n) => n,
        None => return Err(SubnetError::Prefix),
    };
    if prefix > 32 {
        return Err(SubnetError::PrefixTooLong);
    }
    let size: u64 = block_size(32 - prefix as u32);
    let number: u64 = ip.to_number() as u64;
    proof {
        vstd::arithmetic::div_mod::lemma_mod_decreases(number as nat, size as nat);
    }
    let start: u64 = number - number % size;
    proof {
        let q = number / size;
        vstd::arithmetic::div_mod::lemma_fundamental_div_mod(number as int, size as int);
        power2::lemma2_to64();
        power2::lemma_pow2_adds((32 - prefix) as nat, prefix as nat);
        assert(start == size * q);
        let blocks = power2::pow2(prefix as nat) as int;
        assert(size * blocks == 0x1_0000_0000);
        assert(q < blocks) by (nonlinear_arith)
            requires
                size * q <= number,
                number < 0x1_0000_0000,
                size * blocks == 0x1_0000_0000,
                size >= 1,
        ;
        assert(size * q + size <= size * blocks) by (nonlinear_arith)
            requires
                q < blocks,
                size >= 1,
        ;
    }
    Ok(Ipv4Addr::from_number((start + (size - 1)) as u32))
}

impl IntercomConfig {
    /// Where discovery queries are broadcast: the subnet's directed broadcast, or the limited
    /// broadcast where no subnet is configured.
    pub fn discovery_broadcast(&self) -> (r: Result<Ipv4Addr, SubnetError>)
        ensures
            match set_text(self.subnet) {
                Some(cidr) => match r {
                    Ok(ip) => subnet_error(cidr) is None && ip.number() == subnet_end(cidr),
                    Err(e) => subnet_error(cidr) == Some(e),
                },
                None => r == Ok::<Ipv4Addr, SubnetError>(
                    (Ipv4Addr { a: 255, b: 255, c: 255, d: 255 }),
                ),
            },
    {
        match non_empty(&self.subnet) {
            Some(cidr) => subnet_broadcast(cidr),
            None => Ok(Ipv4Addr::new(255, 255, 255, 255)),
        }
    }
}

impl Config {
    /// What is wrong with the configuration; the first rule that fails decides.
    pub open spec fn error(&self) -> Option<ConfigError> {
        if self.intercom.device_id@.len() == 0 {
            Some(ConfigError::DeviceIdMissing)
        } else if set_text(self.intercom.subnet) is Some && subnet_error(
            set_text(self.intercom.subnet)->0,
        ) is Some {
            Some(ConfigError::Subnet(subnet_error(set_text(self.intercom.subnet)->0)->0))
        } else if self.security.unlock_cooldown_ms < 250 {
            Some(ConfigError::CooldownTooShort)
        } else if self.media.fps == 0 {
            Some(ConfigError::NoFps)
        } else {
            None
        }
    }

    pub fn validate(&self) -> (r: Result<(), ConfigError>)
        ensures
            match r {
                Ok(_) => self.error() is None,
                Err(e) => self.error() == Some(e),
            },
    {
        if self.intercom.device_id.as_str().is_empty() {
            return Err(ConfigError::DeviceIdMissing);
        }
        if let Some(subnet) = non_empty(&self.intercom.subnet) {
            if let Err(e) = subnet_broadcast(subnet) {
                return Err(ConfigError::Subnet(e));
            }
        }
        if self.security.unlock_cooldown_ms < 250 {
            return Err(ConfigError::CooldownTooShort);
        }
        if self.media.fps == 0 {
            return Err(ConfigError::NoFps);
        }
        Ok(())
    }
}

/// The resolutions that are offered where none are configured.
pub fn default_camera_resolutions() -> (r: Vec<String>)
    ensures
        text::text_views(r@) == seq!["320x240"@, "640x480"@, "1024x768"@],
{
    let r: Vec<String> = vec![
        "320x240".to_owned(),
        "640x480".to_owned(),
        "1024x768".to_owned(),
    ];
    assert(text::text_views(r@) =~= seq!["320x240"@, "640x480"@, "1024x768"@]);
    r
}

impl IntercomConfig {
    /// Whether every field has its default.
    pub open spec fn is_default(&self) -> bool {
        &&& self.mode == AgentMode::Tap
        &&& self.device_id@ == Seq::<char>::empty()
        &&& self.subnet is None
        &&& self.pad_listen == (SocketAddr::V4 {
            ip: Ipv4Addr { a: 0, b: 0, c: 0, d: 0 },
            port: 10_000,
        })
        &&& self.bridge_interface@ == "br-lan"@
        &&& self.door_interface@ == "CONFIGURE_ME"@
        &&& self.pad_interface@ == "CONFIGURE_ME"@
        &&& self.door_id is None
        &&& self.door_ip is None
        &&& self.room_ip is None
        &&& self.door_mac is None
        &&& self.pad_mac is None
        &&& self.control_port == 10_000
        &&& self.discovery_port == 10_008
        &&& self.cameras@.len() == 0
        &&& self.elevator_door is None
    }
}

impl Default for IntercomConfig {
    fn default() -> (r: Self)
        ensures
            r.is_default(),
    {
        IntercomConfig {
            mode: AgentMode::Tap,
            device_id: String::new(),
            subnet: None,
            pad_listen: SocketAddr::V4 { ip: Ipv4Addr::new(0, 0, 0, 0), port: 10_000 },
            bridge_interface: "br-lan".to_owned(),
            door_interface: "CONFIGURE_ME".to_owned(),
            pad_interface: "CONFIGURE_ME".to_owned(),
            door_id: None,
            door_ip: None,
            room_ip: None,
            door_mac: None,
            pad_mac: None,
            control_port: 10_000,
            discovery_port: 10_008,
            cameras: Vec::new(),
            elevator_door: None,
        }
    }
}

impl AgentConfig {
    /// Whether every field has its default.
    pub open spec fn is_default(&self) -> bool {
        &&& self.http_listen == (SocketAddr::V4 {
            ip: Ipv4Addr { a: 127, b: 0, c: 0, d: 1 },
            port: 8080,
        })
        &&& self.token@ == Seq::<char>::empty()
        &&& !self.swagger
        &&& self.web_ui
        &&& text::text_views(self.camera_resolutions@) == seq![
            "320x240"@,
            "640x480"@,
            "1024x768"@,
        ]
        &&& self.tls_cert is None
        &&& self.tls_key is None
        &&& self.backend_ca is None
    }
}

impl Default for AgentConfig {
    fn default() -> (r: Self)
        ensures
            r.is_default(),
    {
        AgentConfig {
            http_listen: SocketAddr::V4 { ip: Ipv4Addr::new(127, 0, 0, 1), port: 8080 },
            token: String::new(),
            swagger: false,
            web_ui: true,
            camera_resolutions: default_camera_resolutions(),
            tls_cert: None,
            tls_key: None,
            backend_ca: None,
        }
    }
}

impl MediaConfig {
    /// Whether every field has its default.
    pub open spec fn is_default(&self) -> bool {
        &&& self.engine == MediaEngineKind::Lite
        &&& self.fps == 8
        &&& self.width == 320
        &&& self.height == 240
        &&& self.static_jpeg is None
        &&& self.ffmpeg@ == "ffmpeg"@
        &&& self.history_secs == 5
        &&& self.history_max_kib == 2048
    }
}

impl Default for MediaConfig {
    fn default() -> (r: Self)
        ensures
            r.is_default(),
    {
        MediaConfig {
            engine: MediaEngineKind::Lite,
            fps: 8,
            width: 320,
            height: 240,
            static_jpeg: None,
            ffmpeg: "ffmpeg".to_owned(),
            history_secs: 5,
            history_max_kib: 2048,
        }
    }
}

impl Default for CoexistenceConfig {
    fn default() -> (r: Self)
        ensures
            r == (CoexistenceConfig {
                mode: CoexistenceMode::Manual,
                nfqueue: 30,
                owner_timeout_ms: 2_000,
            }),
    {
        CoexistenceConfig { mode: CoexistenceMode::Manual, nfqueue: 30, owner_timeout_ms: 2_000 }
    }
}

impl Default for SecurityConfig {
    fn default() -> (r: Self)
        ensures
            r == (SecurityConfig {
                unlock_cooldown_ms: 1_000,
                unlock_requires_answer: false,
                virtual_unlock_ms: 1_500,
                max_call_seconds: 300,
            }),
    {
        SecurityConfig {
            unlock_cooldown_ms: 1_000,
            unlock_requires_answer: false,
            virtual_unlock_ms: 1_500,
            max_call_seconds: 300,
        }
    }
}

impl Default for Config {
    /// The defaults are complete but for the device id.
    fn default() -> (r: Self)
        ensures
            r.intercom.is_default(),
            r.agent.is_default(),
            r.media.is_default(),
            r.coexistence == (CoexistenceConfig {
                mode: CoexistenceMode::Manual,
                nfqueue: 30,
                owner_timeout_ms: 2_000,
            }),
            r.security == (SecurityConfig {
                unlock_cooldown_ms: 1_000,
                unlock_requires_answer: false,
                virtual_unlock_ms: 1_500,
                max_call_seconds: 300,
            }),
            r.error() == Some(ConfigError::DeviceIdMissing),
    {
        Config {
            intercom: IntercomConfig::default(),
            agent: AgentConfig::default(),
            media: MediaConfig::default(),
            coexistence: CoexistenceConfig::default(),
            security: SecurityConfig::default(),
        }
    }
}

/// The last address of a block shares the leading bits of each address in it and has ones behind
/// them.
pub proof fn law_block_ends_in_ones(ip: Ipv4Addr, prefix: nat)
    requires
        prefix <= 32,
    ensures
        ({
            let size = power2::pow2((32 - prefix) as nat) as int;
            &&& block_end(ip, prefix) / size == ip.number() as int / size
            &&& block_end(ip, prefix) % size == size - 1
            &&& ip.number() <= block_end(ip, prefix) < ip.number() + size
        }),
        prefix == 32 ==> block_end(ip, prefix) == ip.number(),
        prefix == 24 ==> block_end(ip, prefix) == ip.a * 0x100_0000 + ip.b * 0x1_0000 + ip.c * 0x100
            + 255,
        prefix == 16 ==> block_end(ip, prefix) == ip.a * 0x100_0000 + ip.b * 0x1_0000 + 0xffff,
        prefix == 0 ==> block_end(ip, prefix) == 0xffff_ffff,
{
    let size = power2::pow2((32 - prefix) as nat) as int;
    power2::lemma_pow2_pos((32 - prefix) as nat);
    let n = ip.number() as int;
    let end = block_end(ip, prefix);
    vstd::arithmetic::div_mod::lemma_fundamental_div_mod(n, size);
    vstd::arithmetic::div_mod::lemma_mod_bound(n, size);
    assert(end == size * (n / size) + (size - 1));
    vstd::arithmetic::div_mod::lemma_fundamental_div_mod_converse(
        end,
        size,
        n / size,
        size - 1,
    );
    power2::lemma2_to64();
    power2::lemma2_to64_rest();
    if prefix == 24 {
        assert(size == 256);
        assert(n % 256 == ip.d as int);
    }
}

/// A subnet is an address and the length of its prefix, up to 32, with a slash between them; what
/// is wrong with any other text is named, the first thing first.
pub proof fn law_subnets_are_read(cidr: Seq<char>, ip: Ipv4Addr, prefix: nat)
    ensures
        prefix <= 32 && cidr == ip.dotted() + seq!['/'] + text::decimal(prefix) ==> subnet_error(
            cidr,
        ) is None && subnet_end(cidr) == block_end(ip, prefix),
        32 < prefix <= u32::MAX && cidr == ip.dotted() + seq!['/'] + text::decimal(prefix)
            ==> subnet_error(cidr) == Some(SubnetError::PrefixTooLong),
        subnet_error(cidr) == Some(SubnetError::Form) <==> !cidr.contains('/'),
{
    text::lemma_index_of(cidr, '/');
    if cidr.contains('/') {
        let at = choose|i: int| 0 <= i < cidr.len() && cidr[i] == '/';
        assert(cidr[at] == '/');
    } else if text::index_of(cidr, '/') < cidr.len() {
        assert(cidr.contains(cidr[text::index_of(cidr, '/')]));
    }
    let head = ip.dotted();
    let tail = text::decimal(prefix);
    assert forall|i: int| 0 <= i < head.len() implies #[trigger] head[i] != '/' by {
        text::law_numbers_are_plain(ip.a as nat, 10);
        text::law_numbers_are_plain(ip.b as nat, 10);
        text::law_numbers_are_plain(ip.c as nat, 10);
        text::law_numbers_are_plain(ip.d as nat, 10);
        lemma_dotted_chars(ip, i);
    }
    text::law_split_once_cuts_first(head, '/', tail);
    assert(head.push('/') + tail =~= head + seq!['/'] + tail);
    net::law_addresses_are_dotted(head, ip);
    if prefix <= u32::MAX {
        text::law_number_round_trip(prefix, 10, u32::MAX as nat);
    }
}

proof fn lemma_dotted_chars(ip: Ipv4Addr, i: int)
    requires
        0 <= i < ip.dotted().len(),
    ensures
        ip.dotted()[i] == '.' || '0' <= ip.dotted()[i] <= '9' || 'a' <= ip.dotted()[i] <= 'f',
{
    let a = text::decimal(ip.a as nat);
    let b = text::decimal(ip.b as nat);
    let c = text::decimal(ip.c as nat);
    let d = text::decimal(ip.d as nat);
    text::law_numbers_are_plain(ip.a as nat, 10);
    text::law_numbers_are_plain(ip.b as nat, 10);
    text::law_numbers_are_plain(ip.c as nat, 10);
    text::law_numbers_are_plain(ip.d as nat, 10);
    let s = ip.dotted();
    if i < a.len() {
        assert(s[i] == a[i]);
    } else if a.len() < i < a.len() + 1 + b.len() {
        assert(s[i] == b[i - a.len() - 1]);
    } else if a.len() + 1 + b.len() < i < a.len() + 1 + b.len() + 1 + c.len() {
        assert(s[i] == c[i - a.len() - 1 - b.len() - 1]);
    } else if a.len() + 1 + b.len() + 1 + c.len() < i {
        assert(s[i] == d[i - a.len() - 1 - b.len() - 1 - c.len() - 1]);
    }
}

/// What a configuration is refused for, the first thing first: no device id, a subnet that cannot
/// be read, a cooldown under a quarter of a second, a camera without frames.
pub proof fn law_configurations_are_checked(c: &Config)
    ensures
        ({
            let e = c.error();
            let id = c.intercom.device_id@.len() > 0;
            let subnet = set_text(c.intercom.subnet) is None || subnet_error(
                set_text(c.intercom.subnet)->0,
            ) is None;
            let cooldown = c.security.unlock_cooldown_ms >= 250;
            let fps = c.media.fps >= 1;
            &&& e is None <==> id && subnet && cooldown && fps
            &&& e == Some(ConfigError::DeviceIdMissing) <==> !id
            &&& e matches Some(ConfigError::Subnet(why)) ==> Some(why) == subnet_error(
                set_text(c.intercom.subnet)->0,
            )
            &&& e is Some && e->0 is Subnet <==> id && !subnet
            &&& e == Some(ConfigError::CooldownTooShort) <==> id && subnet && !cooldown
            &&& e == Some(ConfigError::NoFps) <==> id && subnet && cooldown && !fps
        }),
        forall|s: Option<String>|
            #![trigger set_text(s)]
            (set_text(s) is Some <==> s is Some && s->0@.len() > 0) && (set_text(s) is Some
                ==> set_text(s) == Some(s->0@)),
        AgentMode::Pad.text() == "pad"@,
        AgentMode::Tap.text() == "tap"@,
{
}

/// The settings that hold where a configuration says nothing.
pub proof fn law_default_settings(i: IntercomConfig, a: AgentConfig, m: MediaConfig)
    ensures
        i.is_default() ==> {
            &&& i.mode == AgentMode::Tap
            &&& i.device_id@.len() == 0
            &&& i.subnet is None && i.door_id is None && i.door_ip is None && i.room_ip is None
            &&& i.door_mac is None && i.pad_mac is None && i.elevator_door is None
            &&& i.control_port == 10000 && i.discovery_port == 10008
            &&& i.pad_listen == (SocketAddr::V4 {
                ip: Ipv4Addr { a: 0, b: 0, c: 0, d: 0 },
                port: 10000,
            })
            &&& i.bridge_interface@ == "br-lan"@
            &&& i.door_interface@ == "CONFIGURE_ME"@ && i.pad_interface@ == "CONFIGURE_ME"@
            &&& i.cameras@.len() == 0
        },
        a.is_default() ==> {
            &&& a.http_listen == (SocketAddr::V4 {
                ip: Ipv4Addr { a: 127, b: 0, c: 0, d: 1 },
                port: 8080,
            })
            &&& a.token@.len() == 0
            &&& !a.swagger && a.web_ui
            &&& a.tls_cert is None && a.tls_key is None && a.backend_ca is None
            &&& text::text_views(a.camera_resolutions@) == seq![
                "320x240"@,
                "640x480"@,
                "1024x768"@,
            ]
        },
        m.is_default() ==> {
            &&& m.engine == MediaEngineKind::Lite
            &&& m.fps == 8 && m.width == 320 && m.height == 240
            &&& m.static_jpeg is None
            &&& m.ffmpeg@ == "ffmpeg"@
            &&& m.history_secs == 5 && m.history_max_kib == 2048
        },
{
}

} // verus!
