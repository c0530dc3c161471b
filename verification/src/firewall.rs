//! The nftables rules that keep the physical Pad and the Agent out of each other's way.

use vstd::prelude::*;
use crate::config::{CoexistenceMode, Config};
use crate::net::Ipv4Addr;
use crate::text;

verus! {

/// The nftables bridge table that the Agent owns. Removing it restores the path of the physical
/// Pad, so the Agent flushes it on shutdown.
pub const TABLE: &'static str = "michoi";

/// Why no rules can be written.
#[derive(Clone, Copy, Debug, PartialEq, Eq, Structural)]
pub enum RulesError {
    PadInterface,
    DoorInterface,
    RoomIp,
}

impl RulesError {
    /// The message that describes the error.
    pub open spec fn text(self) -> Seq<char> {
        match self {
            RulesError::PadInterface => "pad_interface is not configured"@,
            RulesError::DoorInterface => "door_interface is not configured"@,
            RulesError::RoomIp =>
                "intercom.room_ip must be set to print static rules (the agent learns it at runtime)"@,
        }
    }

    /// The message that describes the error.
    pub fn message(&self) -> (r: &'static str)
        ensures
            r@ == self.text(),
    {
        match self {
            RulesError::PadInterface => "pad_interface is not configured",
            RulesError::DoorInterface => "door_interface is not configured",
            RulesError::RoomIp =>
                "intercom.room_ip must be set to print static rules (the agent learns it at runtime)",
        }
    }
}

/// The opening of the table, up to its first rule.
pub open spec fn table_head() -> Seq<char> {
    "table bridge "@ + TABLE@
        + " {\n  chain forward {\n    type filter hook forward priority -200; policy accept;\n    "@
}

/// The start of a rule on what comes in by `interface` from `ip` to the control port, up to the
/// ports.
pub open spec fn rule_head(interface: Seq<char>, ip: Ipv4Addr) -> Seq<char> {
    "iifname \""@ + interface + "\" ip saddr "@ + ip.dotted() + " udp dport "@
}

/// The rule that a coexistence mode installs for the Pad.
pub open spec fn static_rule(config: &Config, room: Ipv4Addr) -> Seq<char> {
    let head = rule_head(config.intercom.pad_interface@, room);
    let control = text::decimal(config.intercom.control_port as nat);
    match config.coexistence.mode {
        CoexistenceMode::Manual => head + "{ "@ + control + ", "@ + text::decimal(
            config.intercom.discovery_port as nat,
        ) + " } counter drop"@,
        CoexistenceMode::Automatic => head + control + " counter queue num "@ + text::decimal(
            config.coexistence.nfqueue as nat,
        ) + " bypass"@,
    }
}

fn push_table_head(out: &mut String)
    ensures
        final(out)@ == old(out)@ + table_head(),
{
    let ghost start = out@;
    text::push_text(out, "table bridge ");
    text::push_text(out, TABLE);
    text::push_text(
        out,
        " {\n  chain forward {\n    type filter hook forward priority -200; policy accept;\n    ",
    );
    assert(out@ =~= start + table_head());
}

fn push_rule_head(out: &mut String, interface: &str, ip: Ipv4Addr)
    ensures
        final(out)@ == old(out)@ + rule_head(interface@, ip),
{
    let ghost start = out@;
    let address = ip.text();
    text::push_text(out, "iifname \"");
    text::push_text(out, interface);
    text::push_text(out, "\" ip saddr ");
    text::push_text(out, address.as_str());
    text::push_text(out, " udp dport ");
    assert(out@ =~= start + rule_head(interface@, ip));
}

/// The table for the selected coexistence mode. Its rule matches the physical ingress interface,
/// so frames that the Agent injects are not mistaken for traffic of the physical Pad.
pub fn nft_rules(config: &Config) -> (r: Result<String, RulesError>)
    ensures
        match r {
            Ok(rules) => {
                &&& config.intercom.pad_interface@ != "CONFIGURE_ME"@
                &&& config.intercom.room_ip is Some
                &&& rules@ == table_head() + static_rule(config, config.intercom.room_ip->0)
                    + "\n  }\n}\n"@
            },
            Err(e) => if config.intercom.pad_interface@ == "CONFIGURE_ME"@ {
                e == RulesError::PadInterface
            } else {
                config.intercom.room_ip is None && e == RulesError::RoomIp
            },
        },
{
    if text::same_text(config.intercom.pad_interface.as_str(), "CONFIGURE_ME") {
        return Err(RulesError::PadInterface);
    }
    let room = match config.intercom.room_ip {
        Some(ip) => ip,
        None => return Err(RulesError::RoomIp),
    };
    let mut out = String::new();
    push_table_head(&mut out);
    let ghost head = out@;
    push_rule_head(&mut out, config.intercom.pad_interface.as_str(), room);
    match config.coexistence.mode {
        CoexistenceMode::Manual => {
            text::push_text(&mut out, "{ ");
            text::push_number(&mut out, config.intercom.control_port as u64, 10);
            text::push_text(&mut out, ", ");
            text::push_number(&mut out, config.intercom.discovery_port as u64, 10);
            text::push_text(&mut out, " } counter drop");
        },
        CoexistenceMode::Automatic => {
            text::push_number(&mut out, config.intercom.control_port as u64, 10);
            text::push_text(&mut out, " counter queue num ");
            text::push_number(&mut out, config.coexistence.nfqueue as u64, 10);
            text::push_text(&mut out, " bypass");
        },
    }
    assert(out@ =~= head + static_rule(config, room));
    text::push_text(&mut out, "\n  }\n}\n");
    assert(out@ =~= table_head() + static_rule(config, room) + "\n  }\n}\n"@);
    Ok(out)
}

/// The rule that drops what comes in by `interface` from `ip` to the control port.
pub open spec fn silence_rule(interface: Seq<char>, ip: Ipv4Addr, control: u16) -> Seq<char> {
    rule_head(interface, ip) + text::decimal(control as nat) + " counter drop"@
}

/// The table that is installed when a remote backend wins the call. Between the door station and
/// the physical Pad both directions of the control port are dropped: the Pad stops ringing and
/// cannot answer late. Discovery is left alone.
pub fn pad_silence_rules(
    pad: &str,
    door: &str,
    door_ip: Ipv4Addr,
    room: Ipv4Addr,
    control: u16,
) -> (r: Result<String, RulesError>)
    ensures
        match r {
            Ok(rules) => {
                &&& pad@ != "CONFIGURE_ME"@
                &&& door@ != "CONFIGURE_ME"@
                &&& rules@ == table_head() + silence_rule(door@, door_ip, control) + "\n    "@
                    + silence_rule(pad@, room, control) + "\n  }\n}\n"@
            },
            Err(e) => if pad@ == "CONFIGURE_ME"@ {
                e == RulesError::PadInterface
            } else {
                door@ == "CONFIGURE_ME"@ && e == RulesError::DoorInterface
            },
        },
{
    if text::same_text(pad, "CONFIGURE_ME") {
        return Err(RulesError::PadInterface);
    }
    if text::same_text(door, "CONFIGURE_ME") {
        return Err(RulesError::DoorInterface);
    }
    let mut out = String::new();
    push_table_head(&mut out);
    push_rule_head(&mut out, door, door_ip);
    text::push_number(&mut out, control as u64, 10);
    text::push_text(&mut out, " counter drop");
    assert(out@ =~= table_head() + silence_rule(door@, door_ip, control));
    text::push_text(&mut out, "\n    ");
    let ghost first = out@;
    push_rule_head(&mut out, pad, room);
    text::push_number(&mut out, control as u64, 10);
    text::push_text(&mut out, " counter drop");
    assert(out@ =~= first + silence_rule(pad@, room, control));
    text::push_text(&mut out, "\n  }\n}\n");
    Ok(out)
}

/// The script that removes the table: it is added first, so that the deletion never fails on a
/// table that does not exist.
pub fn flush_table_command() -> (r: String)
    ensures
        r@ == "add table bridge "@ + TABLE@ + "\ndelete table bridge "@ + TABLE@ + "\n"@,
{
    let mut out = String::new();
    text::push_text(&mut out, "add table bridge ");
    text::push_text(&mut out, TABLE);
    text::push_text(&mut out, "\ndelete table bridge ");
    text::push_text(&mut out, TABLE);
    text::push_text(&mut out, "\n");
    assert(out@ =~= "add table bridge "@ + TABLE@ + "\ndelete table bridge "@ + TABLE@ + "\n"@);
    out
}

/// The rules in full. Where both stations coexist by hand, the Pad's control and discovery
/// datagrams are dropped; else its control datagrams are queued. Silencing drops the control
/// datagrams of a station. Each rule is for what comes in by the interface from the address.
pub proof fn law_rules_name_their_traffic(
    config: &Config,
    room: Ipv4Addr,
    interface: Seq<char>,
    ip: Ipv4Addr,
    control: u16,
)
    ensures
        config.coexistence.mode == CoexistenceMode::Manual ==> static_rule(config, room)
            == "iifname \""@ + config.intercom.pad_interface@ + "\" ip saddr "@ + room.dotted()
            + " udp dport "@ + "{ "@ + text::decimal(config.intercom.control_port as nat) + ", "@
            + text::decimal(config.intercom.discovery_port as nat) + " } counter drop"@,
        config.coexistence.mode == CoexistenceMode::Automatic ==> static_rule(config, room)
            == "iifname \""@ + config.intercom.pad_interface@ + "\" ip saddr "@ + room.dotted()
            + " udp dport "@ + text::decimal(config.intercom.control_port as nat)
            + " counter queue num "@ + text::decimal(config.coexistence.nfqueue as nat)
            + " bypass"@,
        silence_rule(interface, ip, control) == "iifname \""@ + interface + "\" ip saddr "@
            + ip.dotted() + " udp dport "@ + text::decimal(control as nat) + " counter drop"@,
        table_head() == "table bridge "@ + "michoi"@
            + " {\n  chain forward {\n    type filter hook forward priority -200; policy accept;\n    "@,
{
}

} // verus!
