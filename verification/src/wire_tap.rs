//! The wire of the `tap` mode: a physical Pad stays in place and the bridge is captured.
//!
//! Session packets of the household are attributed to the door or the Pad by address and pinned
//! by hardware address; the discovery exchange is followed too, so that both stations are known
//! before the first ring. Packets of the Pad are injected under its addresses. While a remote
//! backend holds the call, the Pad is silenced.

use vstd::prelude::*;
use crate::agent;
use crate::agent::{Agent, AgentView, OutcomeView, Peers, Side, Verdict, WireOutcome, WireResult};
use crate::bytes;
use crate::config::IntercomConfig;
use crate::ethernet;
use crate::ethernet::{EthernetError, EthernetUdp, MacAddress, UdpView};
use crate::firewall;
use crate::firewall::RulesError;
use crate::net::Ipv4Addr;
use crate::peers::PeersView;
use crate::protocol;
use crate::protocol::{EndpointsView, Message, ProtocolError, FAMILY_SESSION, OP_HANGUP};
use crate::text;

verus! {

#[derive(Clone, Copy, Debug, PartialEq, Eq, Structural)]
pub enum TapError {
    BridgeInterface,
    PadInterface,
    DoorInterface,
    DoorUnknown,
    DoorIp,
    PadIp,
    DoorMac,
    PadMac,
    TooLarge,
}

impl TapError {
    /// The message that describes the error.
    pub open spec fn text(self) -> Seq<char> {
        match self {
            TapError::BridgeInterface => "intercom.bridge_interface is required in tap mode"@,
            TapError::PadInterface => "intercom.pad_interface is required in tap mode"@,
            TapError::DoorInterface => "intercom.door_interface is required in tap mode"@,
            TapError::DoorUnknown => "door station not learned yet"@,
            TapError::DoorIp => "door IP not learned yet"@,
            TapError::PadIp => "Pad IP not learned yet"@,
            TapError::DoorMac => "door MAC not learned yet"@,
            TapError::PadMac => "Pad MAC not learned yet"@,
            TapError::TooLarge => "UDP payload is too large"@,
        }
    }

    /// The message that describes the error.
    pub fn message(&self) -> (r: &'static str)
        ensures
            r@ == self.text(),
    {
        match self {
            TapError::BridgeInterface => "intercom.bridge_interface is required in tap mode",
            TapError::PadInterface => "intercom.pad_interface is required in tap mode",
            TapError::DoorInterface => "intercom.door_interface is required in tap mode",
            TapError::DoorUnknown => "door station not learned yet",
            TapError::DoorIp => "door IP not learned yet",
            TapError::PadIp => "Pad IP not learned yet",
            TapError::DoorMac => "door MAC not learned yet",
            TapError::PadMac => "Pad MAC not learned yet",
            TapError::TooLarge => "UDP payload is too large",
        }
    }
}

/// Whether the name of an interface has been set.
pub open spec fn is_set(name: Seq<char>) -> bool {
    name.len() > 0 && name != "CONFIGURE_ME"@
}

fn set(name: &str) -> (r: bool)
    ensures
        r == is_set(name@),
{
    !name.is_empty() && !text::same_text(name, "CONFIGURE_ME")
}

/// Why the bridge cannot be captured with these settings: the first interface that is not set.
pub open spec fn interface_error(bridge: Seq<char>, pad: Seq<char>, door: Seq<char>) -> Option<
    TapError,
> {
    if !is_set(bridge) {
        Some(TapError::BridgeInterface)
    } else if !is_set(pad) {
        Some(TapError::PadInterface)
    } else if !is_set(door) {
        Some(TapError::DoorInterface)
    } else {
        None
    }
}

/// The side that a datagram with this endpoint block came from, by its source address.
pub open spec fn side_of(source: Ipv4Addr, e: EndpointsView) -> Option<Side> {
    if source == e.room.ip {
        Some(Side::Pad)
    } else if source == e.door.ip {
        Some(Side::Door)
    } else {
        None
    }
}

/// The Agent once a station has been seen in the discovery exchange: its address and its hardware
/// address are pinned, where neither contradicts what is known.
pub open spec fn station_seen(a: AgentView, side: Side, d: UdpView) -> AgentView {
    let l = a.peers.address_seen(side, d.source_ip);
    let m = a.peers.mac_seen(side, d.source_mac);
    if !l.accepted {
        a.judged(l)
    } else if !m.accepted {
        a.judged(m)
    } else {
        let b = a.judged(l);
        b.judged(b.peers.mac_seen(side, d.source_mac))
    }
}

/// The Agent once a datagram of the discovery exchange has gone by. Who asks for the own id is
/// the door; who answers for it is the Pad.
pub open spec fn discovery_seen(a: AgentView, d: UdpView) -> AgentView {
    if protocol::discovery_id(1, d.payload) == Some(a.peers.room.id) {
        station_seen(a, Side::Door, d)
    } else if protocol::discovery_id(2, d.payload) == Some(a.peers.room.id) {
        station_seen(a, Side::Pad, d)
    } else {
        a
    }
}

/// A packet of a captured datagram: one that names the own room and comes from one of its two
/// stations, by address and by hardware address, is taken in. The hardware address is pinned only
/// where the endpoints of the packet are accepted.
pub open spec fn tapped_packet(
    a: AgentView,
    d: UdpView,
    raw: Seq<u8>,
    now_ms: u64,
    pts_us: u64,
) -> WireResult {
    match protocol::parsed_message(raw) {
        Err(_) => a.unmoved(),
        Ok(m) => if m.family != FAMILY_SESSION {
            a.unmoved()
        } else {
            match m.endpoints() {
                None => a.unmoved(),
                Some(e) => if e.room.id != a.peers.room.id {
                    a.unmoved()
                } else {
                    match side_of(d.source_ip, e) {
                        None => a.unmoved(),
                        Some(side) => {
                            let claimed = a.peers.endpoints_claimed(e);
                            let l = a.peers.mac_seen(side, d.source_mac);
                            if !claimed.accepted {
                                a.judged(claimed).unmoved()
                            } else if !l.accepted {
                                a.judged(l).unmoved()
                            } else {
                                a.judged(l).wired(side, raw, now_ms, pts_us)
                            }
                        },
                    }
                },
            }
        },
    }
}

/// The Agent once the packets of a captured datagram have gone by, and what is to be done for
/// each.
pub open spec fn tapped_packets(
    a: AgentView,
    d: UdpView,
    pieces: Seq<Seq<u8>>,
    now_ms: u64,
    pts_us: u64,
) -> (AgentView, Seq<OutcomeView>)
    decreases pieces.len(),
{
    if pieces.len() == 0 {
        (a, Seq::empty())
    } else {
        let (before, outcomes) = tapped_packets(a, d, pieces.drop_last(), now_ms, pts_us);
        let last = tapped_packet(before, d, pieces.last(), now_ms, pts_us);
        (last.agent, outcomes.push(last.outcome))
    }
}

/// The Agent once a captured frame has gone by, and what is to be done.
pub open spec fn tapped(
    a: AgentView,
    discovery_port: u16,
    frame: Seq<u8>,
    now_ms: u64,
    pts_us: u64,
) -> (AgentView, Seq<OutcomeView>) {
    match ethernet::parsed_udp(frame) {
        None => (a, Seq::empty()),
        Some(d) => if d.destination_port == discovery_port || d.source_port == discovery_port {
            (discovery_seen(a, d), Seq::empty())
        } else if d.source_port != a.peers.control_port && d.destination_port
            != a.peers.control_port {
            (a, Seq::empty())
        } else {
            tapped_packets(a, d, protocol::pieces(d.payload), now_ms, pts_us)
        },
    }
}

/// The addresses of both stations, once they are all known.
#[derive(Clone, Copy, Debug)]
pub struct Addresses {
    pub pad_mac: MacAddress,
    pub door_mac: MacAddress,
    pub pad_ip: Ipv4Addr,
    pub door_ip: Ipv4Addr,
}

/// What is not yet known of the stations: the first thing that is missing.
pub open spec fn missing(p: PeersView) -> Option<TapError> {
    match p.door {
        None => Some(TapError::DoorUnknown),
        Some(door) => if door.ip.unspecified() {
            Some(TapError::DoorIp)
        } else if p.room.ip.unspecified() {
            Some(TapError::PadIp)
        } else if p.door_mac is None {
            Some(TapError::DoorMac)
        } else if p.pad_mac is None {
            Some(TapError::PadMac)
        } else {
            None
        },
    }
}

/// The frame in which a packet goes from one station to the other.
pub open spec fn injected(p: PeersView, from: Side, payload: Seq<u8>, identification: u16) -> Seq<
    u8,
> {
    let pad = from == Side::Pad;
    ethernet::udp_frame(
        UdpView {
            source_mac: if pad {
                p.pad_mac->0
            } else {
                p.door_mac->0
            },
            destination_mac: if pad {
                p.door_mac->0
            } else {
                p.pad_mac->0
            },
            source_ip: if pad {
                p.room.ip
            } else {
                p.door->0.ip
            },
            destination_ip: if pad {
                p.door->0.ip
            } else {
                p.room.ip
            },
            source_port: p.control_port,
            destination_port: p.control_port,
            payload,
        },
        identification,
    )
}

/// The low 16 bits of a counter.
pub open spec fn low16(n: u32) -> u16 {
    (n % 0x1_0000) as u16
}

/// What silences the physical Pad: the rules that cut it off from the door, and the frame that
/// tells it that the call has ended.
#[derive(Debug)]
pub struct Silence {
    pub rules: Result<String, RulesError>,
    pub reset: Result<Vec<u8>, ProtocolError>,
}

#[derive(Debug)]
pub struct TapWire {
    pub pad_interface: String,
    pub door_interface: String,
    pub discovery_port: u16,
    /// The identification of the next frame, modulo 2^16.
    pub seq: u32,
}

impl TapWire {
    /// The wire for these settings. Its interfaces must have been set.
    pub fn open(ic: &IntercomConfig) -> (r: Result<Self, TapError>)
        ensures
            match r {
                Ok(wire) => {
                    &&& interface_error(
                        ic.bridge_interface@,
                        ic.pad_interface@,
                        ic.door_interface@,
                    ) is None
                    &&& wire.pad_interface@ == ic.pad_interface@
                    &&& wire.door_interface@ == ic.door_interface@
                    &&& wire.discovery_port == ic.discovery_port
                    &&& wire.seq == 1
                },
                Err(e) => interface_error(
                    ic.bridge_interface@,
                    ic.pad_interface@,
                    ic.door_interface@,
                ) == Some(e),
            },
    {
        if !set(ic.bridge_interface.as_str()) {
            return Err(TapError::BridgeInterface);
        }
        if !set(ic.pad_interface.as_str()) {
            return Err(TapError::PadInterface);
        }
        if !set(ic.door_interface.as_str()) {
            return Err(TapError::DoorInterface);
        }
        Ok(
            TapWire {
                pad_interface: ic.pad_interface.clone(),
                door_interface: ic.door_interface.clone(),
                discovery_port: ic.discovery_port,
                seq: 1,
            },
        )
    }

    fn next_seq(&mut self) -> (r: u16)
        ensures
            r == low16(old(self).seq),
            final(self).seq == agent::counted32(old(self).seq),
            final(self).pad_interface == old(self).pad_interface,
            final(self).door_interface == old(self).door_interface,
            final(self).discovery_port == old(self).discovery_port,
    {
        let r: u16 = (self.seq % 0x1_0000) as u16;
        self.seq = agent::count32(self.seq);
        r
    }

    /// Takes in a captured frame.
    pub fn on_frame(&self, agent: &mut Agent, frame: &[u8], now_ms: u64, pts_us: u64) -> (r: Vec<
        WireOutcome,
    >)
        requires
            old(agent).ready_for(frame@.len()),
        ensures
            final(agent).wf(),
            final(agent)@ == tapped(old(agent)@, self.discovery_port, frame@, now_ms, pts_us).0,
            agent::outcome_views(r@) == tapped(
                old(agent)@,
                self.discovery_port,
                frame@,
                now_ms,
                pts_us,
            ).1,
    {
        let none: Vec<WireOutcome> = Vec::new();
        assert(agent::outcome_views(none@) =~= Seq::empty());
        let udp = match EthernetUdp::parse(frame) {
            Ok(udp) => udp,
            Err(_) => return none,
        };
        if udp.destination_port == self.discovery_port || udp.source_port == self.discovery_port {
            observe_discovery(agent, &udp);
            return none;
        }
        let control: u16 = agent.peers().control_port;
        if udp.source_port != control && udp.destination_port != control {
            return none;
        }
        proof {
            ethernet::lemma_payload_fits(frame@);
        }
        tap_packets(agent, &udp, now_ms, pts_us)
    }

    /// The frame in which a packet goes from one station to the other.
    fn inject(&mut self, from: Side, at: Addresses, port: u16, payload: &[u8]) -> (r: Result<
        Vec<u8>,
        EthernetError,
    >)
        ensures
            final(self).seq == agent::counted32(old(self).seq),
            final(self).pad_interface == old(self).pad_interface,
            final(self).door_interface == old(self).door_interface,
            final(self).discovery_port == old(self).discovery_port,
            match r {
                Ok(frame) => 28 + payload@.len() <= 65535 && frame@ == ethernet::udp_frame(
                    (UdpView {
                        source_mac: if from == Side::Pad {
                            at.pad_mac@
                        } else {
                            at.door_mac@
                        },
                        destination_mac: if from == Side::Pad {
                            at.door_mac@
                        } else {
                            at.pad_mac@
                        },
                        source_ip: if from == Side::Pad {
                            at.pad_ip
                        } else {
                            at.door_ip
                        },
                        destination_ip: if from == Side::Pad {
                            at.door_ip
                        } else {
                            at.pad_ip
                        },
                        source_port: port,
                        destination_port: port,
                        payload: payload@,
                    }),
                    low16(old(self).seq),
                ),
                Err(e) => 28 + payload@.len() > 65535,
            },
    {
        let identification: u16 = self.next_seq();
        match from {
            Side::Pad => ethernet::build_udp_ipv4(
                at.pad_mac,
                at.door_mac,
                at.pad_ip,
                at.door_ip,
                port,
                port,
                payload,
                identification,
            ),
            Side::Door => ethernet::build_udp_ipv4(
                at.door_mac,
                at.pad_mac,
                at.door_ip,
                at.pad_ip,
                port,
                port,
                payload,
                identification,
            ),
        }
    }

    /// The addresses of both stations, or what is still missing.
    pub fn addresses(peers: &Peers) -> (r: Result<Addresses, TapError>)
        ensures
            match r {
                Ok(at) => {
                    &&& missing(peers@) is None
                    &&& peers@.pad_mac == Some(at.pad_mac@)
                    &&& peers@.door_mac == Some(at.door_mac@)
                    &&& peers@.room.ip == at.pad_ip
                    &&& peers@.door->0.ip == at.door_ip
                },
                Err(e) => missing(peers@) == Some(e),
            },
    {
        let door_ip = match &peers.door {
            Some(door) => door.ip,
            None => return Err(TapError::DoorUnknown),
        };
        if door_ip.is_unspecified() {
            return Err(TapError::DoorIp);
        }
        if peers.room.ip.is_unspecified() {
            return Err(TapError::PadIp);
        }
        let door_mac = match peers.door_mac {
            Some(mac) => mac,
            None => return Err(TapError::DoorMac),
        };
        let pad_mac = match peers.pad_mac {
            Some(mac) => mac,
            None => return Err(TapError::PadMac),
        };
        Ok(Addresses { pad_mac, door_mac, pad_ip: peers.room.ip, door_ip })
    }

    /// The frame in which a packet goes to the door as if it came from the Pad.
    pub fn send_as_pad(&mut self, payload: &[u8], peers: &Peers) -> (r: Result<Vec<u8>, TapError>)
        ensures
            final(self).pad_interface == old(self).pad_interface,
            final(self).door_interface == old(self).door_interface,
            final(self).discovery_port == old(self).discovery_port,
            final(self).seq == (if missing(peers@) is None {
                agent::counted32(old(self).seq)
            } else {
                old(self).seq
            }),
            match r {
                Ok(frame) => missing(peers@) is None && 28 + payload@.len() <= 65535 && frame@
                    == injected(peers@, Side::Pad, payload@, low16(old(self).seq)),
                Err(e) => match missing(peers@) {
                    Some(error) => e == error,
                    None => 28 + payload@.len() > 65535 && e == TapError::TooLarge,
                },
            },
    {
        let at = match TapWire::addresses(peers) {
            Ok(at) => at,
            Err(e) => return Err(e),
        };
        match self.inject(Side::Pad, at, peers.control_port, payload) {
            Ok(frame) => Ok(frame),
            Err(_) => Err(TapError::TooLarge),
        }
    }

    /// What silences the physical Pad once a remote backend has claimed the call. The rules and
    /// the frame fail apart from each other.
    pub fn on_remote_claim(&mut self, peers: &Peers) -> (r: Result<Silence, TapError>)
        ensures
            final(self).pad_interface == old(self).pad_interface,
            final(self).door_interface == old(self).door_interface,
            final(self).discovery_port == old(self).discovery_port,
            match r {
                Err(e) => missing(peers@) == Some(e) && final(self).seq == old(self).seq,
                Ok(silence) => {
                    let e = peers@.endpoints()->0;
                    &&& missing(peers@) is None
                    &&& match silence.rules {
                        Ok(rules) => {
                            &&& old(self).pad_interface@ != "CONFIGURE_ME"@
                            &&& old(self).door_interface@ != "CONFIGURE_ME"@
                            &&& rules@ == firewall::table_head() + firewall::silence_rule(
                                old(self).door_interface@,
                                e.door.ip,
                                peers@.control_port,
                            ) + "\n    "@ + firewall::silence_rule(
                                old(self).pad_interface@,
                                e.room.ip,
                                peers@.control_port,
                            ) + "\n  }\n}\n"@
                        },
                        Err(error) => if old(self).pad_interface@ == "CONFIGURE_ME"@ {
                            error == RulesError::PadInterface
                        } else {
                            old(self).door_interface@ == "CONFIGURE_ME"@ && error
                                == RulesError::DoorInterface
                        },
                    }
                    &&& match silence.reset {
                        Ok(frame) => {
                            &&& e.fits()
                            &&& frame@ == injected(
                                peers@,
                                Side::Door,
                                protocol::control_bytes(OP_HANGUP, e),
                                low16(old(self).seq),
                            )
                            &&& final(self).seq == agent::counted32(old(self).seq)
                        },
                        Err(error) => !e.fits() && error == ProtocolError::StationTooLong
                            && final(self).seq == old(self).seq,
                    }
                },
            },
    {
        let at = match TapWire::addresses(peers) {
            Ok(at) => at,
            Err(e) => return Err(e),
        };
        let rules = firewall::pad_silence_rules(
            self.pad_interface.as_str(),
            self.door_interface.as_str(),
            at.door_ip,
            at.pad_ip,
            peers.control_port,
        );
        let mut reset: Result<Vec<u8>, ProtocolError> = Err(ProtocolError::StationTooLong);
        if let Some(endpoints) = peers.endpoints() {
            match protocol::session_control(OP_HANGUP, &endpoints) {
                Ok(packet) => {
                    proof {
                        protocol::lemma_control_length(OP_HANGUP, endpoints@);
                    }
                    if let Ok(frame) = self.inject(Side::Door, at, peers.control_port, &packet) {
                        reset = Ok(frame);
                    }
                },
                Err(e) => {
                    reset = Err(e);
                },
            }
        }
        Ok(Silence { rules, reset })
    }
}

fn observe_station(agent: &mut Agent, side: Side, udp: &EthernetUdp<'_>)
    requires
        old(agent).wf(),
    ensures
        final(agent).wf(),
        final(agent)@ == station_seen(old(agent)@, side, udp@),
{
    let mut trial = agent.peers();
    if trial.pin_mac(side, udp.source_mac) == Verdict::Accepted {
        if agent.learn_address(side, udp.source_ip) {
            agent.pin_mac(side, udp.source_mac);
        }
    } else if trial.learn_address(side, udp.source_ip) == Verdict::Accepted {
        agent.pin_mac(side, udp.source_mac);
    } else {
        agent.learn_address(side, udp.source_ip);
    }
}

/// Learns both stations from the discovery exchange.
fn observe_discovery(agent: &mut Agent, udp: &EthernetUdp<'_>)
    requires
        old(agent).wf(),
    ensures
        final(agent).wf(),
        final(agent)@ == discovery_seen(old(agent)@, udp@),
{
    let device_id = agent.device_id();
    if let Some(id) = protocol::discovery_request_room(udp.payload) {
        if text::same_text(id.as_str(), device_id.as_str()) {
            observe_station(agent, Side::Door, udp);
        }
    } else if let Some(id) = protocol::discovery_reply_room(udp.payload) {
        if text::same_text(id.as_str(), device_id.as_str()) {
            observe_station(agent, Side::Pad, udp);
        }
    }
}

/// Takes in one packet of a captured datagram.
fn tap_packet(agent: &mut Agent, udp: &EthernetUdp<'_>, raw: &[u8], now_ms: u64, pts_us: u64)
    -> (r: WireOutcome)
    requires
        old(agent).ready(),
    ensures
        final(agent).wf(),
        final(agent)@ == tapped_packet(old(agent)@, udp@, raw@, now_ms, pts_us).agent,
        r@ == tapped_packet(old(agent)@, udp@, raw@, now_ms, pts_us).outcome,
{
    let message = match Message::parse(raw) {
        Ok(message) => message,
        Err(_) => return agent::no_outcome(),
    };
    if message.family != FAMILY_SESSION {
        return agent::no_outcome();
    }
    let endpoints = match message.endpoints() {
        Some(endpoints) => endpoints,
        None => return agent::no_outcome(),
    };
    let device_id = agent.device_id();
    if !text::same_text(endpoints.room.id.as_str(), device_id.as_str()) {
        return agent::no_outcome();
    }
    let side = if udp.source_ip == endpoints.room.ip {
        Side::Pad
    } else if udp.source_ip == endpoints.door.ip {
        Side::Door
    } else {
        return agent::no_outcome();
    };
    let mut trial = agent.peers();
    if trial.accept_endpoints(&endpoints) == Verdict::Accepted {
        if !agent.pin_mac(side, udp.source_mac) {
            return agent::no_outcome();
        }
    }
    agent.on_wire(side, raw, now_ms, pts_us)
}

proof fn lemma_one_event_at_most(
    a: AgentView,
    d: UdpView,
    raw: Seq<u8>,
    now_ms: u64,
    pts_us: u64,
)
    requires
        a.desk.log.next_seq < u64::MAX,
    ensures
        tapped_packet(a, d, raw, now_ms, pts_us).agent.desk.log.next_seq <= a.desk.log.next_seq + 1,
{
    if let Ok(m) = protocol::parsed_message(raw) {
        if let Some(e) = m.endpoints() {
            if let Some(side) = side_of(d.source_ip, e) {
                let l = a.peers.mac_seen(side, d.source_mac);
                agent::lemma_one_event_at_most(a.judged(l), side, raw, now_ms, pts_us);
            }
        }
    }
}

/// Takes in the packets of a captured datagram.
fn tap_packets(agent: &mut Agent, udp: &EthernetUdp<'_>, now_ms: u64, pts_us: u64) -> (r: Vec<
    WireOutcome,
>)
    requires
        old(agent).ready_for(udp@.payload.len()),
    ensures
        final(agent).wf(),
        final(agent)@ == tapped_packets(
            old(agent)@,
            udp@,
            protocol::pieces(udp@.payload),
            now_ms,
            pts_us,
        ).0,
        agent::outcome_views(r@) == tapped_packets(
            old(agent)@,
            udp@,
            protocol::pieces(udp@.payload),
            now_ms,
            pts_us,
        ).1,
{
    let ghost start = agent@;
    let ghost all = protocol::pieces(udp@.payload);
    let pieces = protocol::split_coalesced(udp.payload);
    let mut out: Vec<WireOutcome> = Vec::new();
    let mut i: usize = 0;
    proof {
        protocol::lemma_piece_count(udp@.payload);
        assert(protocol::slices(pieces@).len() == pieces@.len());
        assert(all.take(0) =~= Seq::empty());
        assert(agent::outcome_views(out@) =~= Seq::empty());
    }
    while i < pieces.len()
        invariant
            i <= pieces@.len() == all.len(),
            protocol::slices(pieces@) == all,
            all.len() <= udp@.payload.len(),
            start.desk.log.next_seq + udp@.payload.len() <= u64::MAX,
            agent.wf(),
            agent@.desk.log.next_seq <= start.desk.log.next_seq + i,
            agent@ == tapped_packets(start, udp@, all.take(i as int), now_ms, pts_us).0,
            agent::outcome_views(out@) == tapped_packets(
                start,
                udp@,
                all.take(i as int),
                now_ms,
                pts_us,
            ).1,
        decreases pieces@.len() - i,
    {
        let ghost before = agent::outcome_views(out@);
        proof {
            assert(protocol::slices(pieces@)[i as int] == pieces@[i as int]@);
            assert(all.take(i + 1).drop_last() =~= all.take(i as int));
            assert(all.take(i + 1).last() == pieces@[i as int]@);
            lemma_one_event_at_most(agent@, udp@, pieces@[i as int]@, now_ms, pts_us);
        }
        let outcome = tap_packet(agent, udp, pieces[i], now_ms, pts_us);
        let ghost view = outcome@;
        out.push(outcome);
        assert(agent::outcome_views(out@) =~= before.push(view));
        i = i + 1;
    }
    assert(all.take(i as int) =~= all);
    out
}

/// What restores the physical Pad: the script that removes the rules which silence it.
pub fn restore_physical_pad() -> (r: String)
    ensures
        r@ == "add table bridge "@ + firewall::TABLE@ + "\ndelete table bridge "@
            + firewall::TABLE@ + "\n"@,
{
    firewall::flush_table_command()
}

/// A frame from another station on the bridge is ignored: one that carries a session packet of
/// the household, but comes from neither of its two addresses, changes nothing.
pub proof fn law_strangers_are_ignored(
    a: AgentView,
    d: UdpView,
    raw: Seq<u8>,
    now_ms: u64,
    pts_us: u64,
)
    requires
        protocol::parsed_message(raw) matches Ok(m) ==> (m.endpoints() matches Some(e)
            ==> d.source_ip != e.room.ip && d.source_ip != e.door.ip),
    ensures
        tapped_packet(a, d, raw, now_ms, pts_us) == a.unmoved(),
{
}

/// Whether the hardware addresses of both stations are pinned, and neither is this one.
pub open spec fn pinned_apart_from(p: PeersView, mac: Seq<u8>) -> bool {
    &&& p.door_mac is Some && p.door_mac->0 != mac
    &&& p.pad_mac is Some && p.pad_mac->0 != mac
}

/// A packet under a pinned address but from another hardware address is not taken in: the call
/// and the stations stay as they are, and only the mismatch is counted.
pub proof fn law_forged_hardware_address_is_refused(
    a: AgentView,
    d: UdpView,
    raw: Seq<u8>,
    now_ms: u64,
    pts_us: u64,
)
    requires
        pinned_apart_from(a.peers, d.source_mac),
    ensures
        ({
            let r = tapped_packet(a, d, raw, now_ms, pts_us);
            &&& r.agent.peers == a.peers
            &&& r.agent.desk == a.desk
            &&& r.outcome == agent::nothing()
        }),
{
}

/// A frame that contradicts what is pinned is dropped: neither a session packet nor a datagram of
/// the discovery exchange pins anything where one of its claims is not accepted.
pub proof fn law_dropped_frames_pin_nothing(
    a: AgentView,
    side: Side,
    d: UdpView,
    raw: Seq<u8>,
    now_ms: u64,
    pts_us: u64,
)
    ensures
        !a.peers.address_seen(side, d.source_ip).accepted || !a.peers.mac_seen(
            side,
            d.source_mac,
        ).accepted ==> station_seen(a, side, d).peers == a.peers,
        protocol::parsed_message(raw) matches Ok(m) ==> (m.endpoints() matches Some(e) ==> (
        !a.peers.endpoints_claimed(e).accepted ==> {
            let r = tapped_packet(a, d, raw, now_ms, pts_us);
            &&& r.agent.peers == a.peers
            &&& r.agent.desk == a.desk
            &&& r.outcome == agent::nothing()
        })),
{
}

/// An interface is set once its name is neither empty nor the placeholder; the first of the
/// bridge, the Pad and the door that is not set is the one that is missing.
pub proof fn law_interfaces_must_be_set(bridge: Seq<char>, pad: Seq<char>, door: Seq<char>)
    ensures
        ({
            let e = interface_error(bridge, pad, door);
            let b = bridge.len() > 0 && bridge != "CONFIGURE_ME"@;
            let p = pad.len() > 0 && pad != "CONFIGURE_ME"@;
            let d = door.len() > 0 && door != "CONFIGURE_ME"@;
            &&& e is None <==> b && p && d
            &&& e == Some(TapError::BridgeInterface) <==> !b
            &&& e == Some(TapError::PadInterface) <==> b && !p
            &&& e == Some(TapError::DoorInterface) <==> b && p && !d
        }),
{
}

/// A packet that is put on the wire goes from the one station to the other: it is read back with
/// the addresses, the hardware addresses and the control port of both, in the direction asked for.
pub proof fn law_injected_packets_name_the_stations(
    p: PeersView,
    payload: Seq<u8>,
    identification: u16,
)
    requires
        missing(p) is None,
        p.door_mac->0.len() == 6,
        p.pad_mac->0.len() == 6,
        28 + payload.len() <= 65535,
    ensures
        ethernet::parsed_udp(injected(p, Side::Pad, payload, identification)) == Some(
            UdpView {
                source_mac: p.pad_mac->0,
                destination_mac: p.door_mac->0,
                source_ip: p.room.ip,
                destination_ip: p.door->0.ip,
                source_port: p.control_port,
                destination_port: p.control_port,
                payload,
            },
        ),
        ethernet::parsed_udp(injected(p, Side::Door, payload, identification)) == Some(
            UdpView {
                source_mac: p.door_mac->0,
                destination_mac: p.pad_mac->0,
                source_ip: p.door->0.ip,
                destination_ip: p.room.ip,
                source_port: p.control_port,
                destination_port: p.control_port,
                payload,
            },
        ),
{
    let to_door = UdpView {
        source_mac: p.pad_mac->0,
        destination_mac: p.door_mac->0,
        source_ip: p.room.ip,
        destination_ip: p.door->0.ip,
        source_port: p.control_port,
        destination_port: p.control_port,
        payload,
    };
    let to_pad = UdpView {
        source_mac: p.door_mac->0,
        destination_mac: p.pad_mac->0,
        source_ip: p.door->0.ip,
        destination_ip: p.room.ip,
        source_port: p.control_port,
        destination_port: p.control_port,
        payload,
    };
    ethernet::law_frame_round_trip(to_door, identification);
    ethernet::law_frame_round_trip(to_pad, identification);
}

/// Nothing is missing once both stations are known by address and by hardware address; else it is
/// the first of the door, its address, the address of the Pad and the two hardware addresses.
pub proof fn law_missing_is_named(p: PeersView)
    ensures
        ({
            let none = Ipv4Addr { a: 0, b: 0, c: 0, d: 0 };
            let door = p.door is Some;
            let door_ip = p.door->0.ip != none;
            let pad_ip = p.room.ip != none;
            &&& missing(p) is None <==> door && door_ip && pad_ip && p.door_mac is Some
                && p.pad_mac is Some
            &&& missing(p) == Some(TapError::DoorUnknown) <==> !door
            &&& missing(p) == Some(TapError::DoorIp) <==> door && !door_ip
            &&& missing(p) == Some(TapError::PadIp) <==> door && door_ip && !pad_ip
            &&& missing(p) == Some(TapError::DoorMac) <==> door && door_ip && pad_ip && p.door_mac
                is None
            &&& missing(p) == Some(TapError::PadMac) <==> door && door_ip && pad_ip && p.door_mac
                is Some && p.pad_mac is None
        }),
{
}

/// What a captured frame does. One of the discovery port, in either direction, only shows where a
/// station is; one of the control port, in either direction, is taken in packet by packet; all
/// else is let pass.
pub proof fn law_captured_frames(
    a: AgentView,
    discovery_port: u16,
    frame: Seq<u8>,
    now_ms: u64,
    pts_us: u64,
)
    ensures
        ({
            let r = tapped(a, discovery_port, frame, now_ms, pts_us);
            let d = ethernet::parsed_udp(frame)->0;
            let finds = d.source_port == discovery_port || d.destination_port == discovery_port;
            let controls = d.source_port == a.peers.control_port || d.destination_port
                == a.peers.control_port;
            &&& ethernet::parsed_udp(frame) is None ==> r.0 == a && r.1.len() == 0
            &&& ethernet::parsed_udp(frame) is Some && finds ==> r.1.len() == 0 && r.0.desk
                == a.desk
            &&& ethernet::parsed_udp(frame) is Some && !finds && !controls ==> r.0 == a
                && r.1.len() == 0
            &&& ethernet::parsed_udp(frame) is Some && !finds && controls ==> r == tapped_packets(
                a,
                d,
                protocol::pieces(d.payload),
                now_ms,
                pts_us,
            )
        }),
{
}

/// Captured packets are taken in one after the other, each with its own outcome.
pub proof fn law_captured_packets_are_taken_in_order(
    a: AgentView,
    d: UdpView,
    packets: Seq<Seq<u8>>,
    next: Seq<u8>,
    now_ms: u64,
    pts_us: u64,
)
    ensures
        ({
            let before = tapped_packets(a, d, packets, now_ms, pts_us);
            let after = tapped_packets(a, d, packets.push(next), now_ms, pts_us);
            let r = tapped_packet(before.0, d, next, now_ms, pts_us);
            &&& after.0 == r.agent
            &&& after.1 == before.1.push(r.outcome)
        }),
        tapped_packets(a, d, Seq::empty(), now_ms, pts_us) == (a, Seq::<OutcomeView>::empty()),
{
    assert(packets.push(next).drop_last() =~= packets);
}

/// Who asks for the own id in the discovery exchange, with the byte 1, is the door; who answers
/// for it, with the byte 2, is the Pad. Their address and hardware address are learned from it,
/// both or neither.
pub proof fn law_discovery_shows_the_stations(a: AgentView, d: UdpView)
    ensures
        ({
            let b = discovery_seen(a, d);
            let about = d.payload.len() > 0 && text::lossy(bytes::before_nul(d.payload.skip(1)))
                == a.peers.room.id;
            let none = Ipv4Addr { a: 0, b: 0, c: 0, d: 0 };
            let p = a.peers;
            let door = d.source_ip != none && (p.door is None || p.door->0.ip == none
                || p.door->0.ip == d.source_ip) && (p.door_mac is None || p.door_mac == Some(
                d.source_mac,
            ));
            let pad = d.source_ip != none && (p.room.ip == none || p.room.ip == d.source_ip) && (
            p.pad_mac is None || p.pad_mac == Some(d.source_mac));
            &&& about && d.payload[0] == 1 && door ==> b.peers.door is Some
                && b.peers.door->0.ip == d.source_ip && b.peers.door_mac == Some(d.source_mac)
                && b.peers.room == p.room && b.peers.pad_mac == p.pad_mac
            &&& about && d.payload[0] == 1 && !door ==> b.peers == p
            &&& about && d.payload[0] == 2 && pad ==> b.peers.room.ip == d.source_ip
                && b.peers.pad_mac == Some(d.source_mac) && b.peers.door == p.door
                && b.peers.door_mac == p.door_mac && b.peers.room.id == p.room.id
            &&& about && d.payload[0] == 2 && !pad ==> b.peers == p
            &&& !about || (d.payload[0] != 1 && d.payload[0] != 2) ==> b == a
            &&& b.desk == a.desk
        }),
{
}

/// A captured session packet that names the own room and comes from the address of one of its two
/// stations, with endpoints and a hardware address that contradict nothing, is taken in as a packet
/// of that station: the Pad where both have one address.
pub proof fn law_captured_packets_come_from_their_station(
    a: AgentView,
    d: UdpView,
    raw: Seq<u8>,
    e: EndpointsView,
    now_ms: u64,
    pts_us: u64,
)
    requires
        protocol::parsed_message(raw) is Ok,
        protocol::parsed_message(raw)->Ok_0.endpoints() == Some(e),
    ensures
        ({
            let r = tapped_packet(a, d, raw, now_ms, pts_us);
            let family = protocol::parsed_message(raw)->Ok_0.family;
            let ours = family == 0x00b7 && e.room.id == a.peers.room.id
                && a.peers.endpoints_claimed(e).accepted;
            let pad = d.source_ip == e.room.ip;
            let door = d.source_ip == e.door.ip && !pad;
            &&& ours && pad && (a.peers.pad_mac is None || a.peers.pad_mac == Some(d.source_mac))
                ==> r == (AgentView {
                peers: PeersView { pad_mac: Some(d.source_mac), ..a.peers },
                ..a
            }).wired(Side::Pad, raw, now_ms, pts_us)
            &&& ours && door && (a.peers.door_mac is None || a.peers.door_mac == Some(d.source_mac))
                ==> r == (AgentView {
                peers: PeersView { door_mac: Some(d.source_mac), ..a.peers },
                ..a
            }).wired(Side::Door, raw, now_ms, pts_us)
            &&& family != 0x00b7 || e.room.id != a.peers.room.id || (!pad && !door) ==> r
                == a.unmoved()
        }),
{
}

/// Frames are numbered round: the counter goes up by one and the number is its low 16 bits.
pub proof fn law_frames_are_numbered(n: u32)
    ensures
        low16(n) as int == n as int % 65536,
{
}

} // verus!
