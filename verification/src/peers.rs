//! The two stations of a household: learned on first sight, then pinned.

use vstd::prelude::*;
use crate::config;
use crate::config::{AgentMode, IntercomConfig};
use crate::ethernet;
use crate::ethernet::{EthernetError, MacAddress};
use crate::net::Ipv4Addr;
use crate::protocol::{Endpoints, EndpointsView, Station, StationView};
use crate::text;

verus! {

/// Which station a datagram came from.
#[derive(Clone, Copy, Debug, PartialEq, Eq, Structural)]
pub enum Side {
    Door,
    Pad,
}

/// The two stations as they are known: the fields start from the configuration, are filled by
/// discovery and learning, and are then pinned.
#[derive(Debug)]
pub struct Peers {
    /// The Pad that the Agent is or stands in for; its address may be unspecified until learned.
    pub room: Station,
    /// The door station, once configured, discovered or seen ringing.
    pub door: Option<Station>,
    pub door_mac: Option<MacAddress>,
    pub pad_mac: Option<MacAddress>,
    pub control_port: u16,
}

/// What is known of the two stations.
pub struct PeersView {
    pub room: StationView,
    pub door: Option<StationView>,
    pub door_mac: Option<Seq<u8>>,
    pub pad_mac: Option<Seq<u8>>,
    pub control_port: u16,
}

/// The view of an optional station.
pub open spec fn station_view(s: Option<Station>) -> Option<StationView> {
    match s {
        Some(station) => Some(station@),
        None => None,
    }
}

/// The view of an optional hardware address.
pub open spec fn mac_view(m: Option<MacAddress>) -> Option<Seq<u8>> {
    match m {
        Some(mac) => Some(mac@),
        None => None,
    }
}

impl View for Peers {
    type V = PeersView;

    open spec fn view(&self) -> PeersView {
        PeersView {
            room: self.room@,
            door: station_view(self.door),
            door_mac: mac_view(self.door_mac),
            pad_mac: mac_view(self.pad_mac),
            control_port: self.control_port,
        }
    }
}

impl Clone for Peers {
    fn clone(&self) -> (r: Self)
        ensures
            r@ == self@,
    {
        Peers {
            room: self.room.clone(),
            door: match &self.door {
                Some(door) => Some(door.clone()),
                None => None,
            },
            door_mac: self.door_mac,
            pad_mac: self.pad_mac,
            control_port: self.control_port,
        }
    }
}

/// What came of a claim about a station: the peers as they are known then, whether the claim is
/// accepted, and whether it contradicts what is pinned.
pub struct Learned {
    pub peers: PeersView,
    pub accepted: bool,
    pub mismatch: bool,
}

impl PeersView {
    /// The endpoint block of packets that come from the Pad, once the door is known.
    pub open spec fn endpoints(self) -> Option<EndpointsView> {
        match self.door {
            Some(door) => Some(EndpointsView { door, room: self.room }),
            None => None,
        }
    }

    /// The peers with this address for the Pad.
    pub open spec fn with_room_ip(self, ip: Ipv4Addr) -> Self {
        PeersView { room: StationView { ip, ..self.room }, ..self }
    }

    /// The peers with this door.
    pub open spec fn with_door(self, door: StationView) -> Self {
        PeersView { door: Some(door), ..self }
    }

    /// A claim that is accepted.
    pub open spec fn yes(self) -> Learned {
        Learned { peers: self, accepted: true, mismatch: false }
    }

    /// A claim that contradicts what is pinned.
    pub open spec fn contradicted(self) -> Learned {
        Learned { peers: self, accepted: false, mismatch: true }
    }

    /// The address of the Pad is learned where it is not yet known.
    pub open spec fn room_ip_set(self, ip: Ipv4Addr) -> Self {
        if self.room.ip.unspecified() && !ip.unspecified() {
            self.with_room_ip(ip)
        } else {
            self
        }
    }

    /// A station is seen at this address outside of a session.
    pub open spec fn address_seen(self, side: Side, ip: Ipv4Addr) -> Learned {
        if ip.unspecified() {
            Learned { peers: self, accepted: false, mismatch: false }
        } else {
            match side {
                Side::Pad => if self.room.ip.unspecified() {
                    self.with_room_ip(ip).yes()
                } else if self.room.ip == ip {
                    self.yes()
                } else {
                    self.contradicted()
                },
                Side::Door => match self.door {
                    None => self.with_door((StationView { id: Seq::empty(), ip })).yes(),
                    Some(door) => if door.ip.unspecified() {
                        self.with_door((StationView { ip, ..door })).yes()
                    } else if door.ip == ip {
                        self.yes()
                    } else {
                        self.contradicted()
                    },
                },
            }
        }
    }

    /// A station is seen with this hardware address.
    pub open spec fn mac_seen(self, side: Side, mac: Seq<u8>) -> Learned {
        match side {
            Side::Door => match self.door_mac {
                None => PeersView { door_mac: Some(mac), ..self }.yes(),
                Some(pinned) => if pinned == mac {
                    self.yes()
                } else {
                    self.contradicted()
                },
            },
            Side::Pad => match self.pad_mac {
                None => PeersView { pad_mac: Some(mac), ..self }.yes(),
                Some(pinned) => if pinned == mac {
                    self.yes()
                } else {
                    self.contradicted()
                },
            },
        }
    }

    /// The door of an endpoint block is held against what is pinned.
    pub open spec fn door_claimed(self, claimed: StationView) -> Learned {
        match self.door {
            None => self.with_door(claimed).yes(),
            Some(door) => if door.id.len() == 0 && door.ip == claimed.ip {
                self.with_door((StationView { id: claimed.id, ..door })).yes()
            } else if door.id == claimed.id && door.ip.unspecified() {
                self.with_door((StationView { ip: claimed.ip, ..door })).yes()
            } else if door.id == claimed.id && door.ip == claimed.ip {
                self.yes()
            } else {
                self.contradicted()
            },
        }
    }

    /// The endpoint block of a session is held against what is pinned, and what is still unknown
    /// is learned from it. A block for another room is ignored, and nothing is learned from a
    /// block that contradicts what is pinned.
    pub open spec fn endpoints_claimed(self, e: EndpointsView) -> Learned {
        if e.room.id != self.room.id {
            Learned { peers: self, accepted: false, mismatch: false }
        } else if !self.room.ip.unspecified() && self.room.ip != e.room.ip {
            self.contradicted()
        } else {
            let l = self.door_claimed(e.door);
            if l.accepted {
                l.peers.room_ip_set(e.room.ip).yes()
            } else {
                self.contradicted()
            }
        }
    }
}

/// What came of a claim about a station.
#[derive(Clone, Copy, Debug, PartialEq, Eq, Structural)]
pub enum Verdict {
    /// The claim is accepted.
    Accepted,
    /// The claim is of no concern.
    Ignored,
    /// The claim contradicts what is pinned.
    Mismatch,
}

impl Learned {
    /// The verdict on the claim.
    pub open spec fn verdict(self) -> Verdict {
        if self.accepted {
            Verdict::Accepted
        } else if self.mismatch {
            Verdict::Mismatch
        } else {
            Verdict::Ignored
        }
    }
}

impl Peers {
    /// The endpoint block of packets that come from the Pad, once the door is known.
    pub fn endpoints(&self) -> (r: Option<Endpoints>)
        ensures
            match r {
                Some(e) => self@.endpoints() == Some(e@),
                None => self@.endpoints() is None,
            },
    {
        match &self.door {
            Some(door) => Some(Endpoints { door: door.clone(), room: self.room.clone() }),
            None => None,
        }
    }

    /// Learns the address of the Pad where it is not yet known.
    pub fn set_room_ip_if_unset(&mut self, ip: Ipv4Addr)
        ensures
            final(self)@ == old(self)@.room_ip_set(ip),
    {
        if self.room.ip.is_unspecified() && !ip.is_unspecified() {
            self.room.ip = ip;
        }
    }

    /// Pins the address of a station that is seen outside of a session, or rejects a change.
    pub fn learn_address(&mut self, side: Side, ip: Ipv4Addr) -> (r: Verdict)
        ensures
            final(self)@ == old(self)@.address_seen(side, ip).peers,
            r == old(self)@.address_seen(side, ip).verdict(),
    {
        if ip.is_unspecified() {
            return Verdict::Ignored;
        }
        match side {
            Side::Pad => {
                if self.room.ip.is_unspecified() {
                    self.room.ip = ip;
                    Verdict::Accepted
                } else if self.room.ip == ip {
                    Verdict::Accepted
                } else {
                    Verdict::Mismatch
                }
            },
            Side::Door => {
                match &mut self.door {
                    None => {
                        self.door = Some(Station::new("", ip));
                        proof {
                            reveal_strlit("");
                            assert(""@ =~= Seq::empty());
                        }
                        Verdict::Accepted
                    },
                    Some(door) => {
                        if door.ip.is_unspecified() {
                            door.ip = ip;
                            Verdict::Accepted
                        } else if door.ip == ip {
                            Verdict::Accepted
                        } else {
                            Verdict::Mismatch
                        }
                    },
                }
            },
        }
    }

    /// Pins the hardware address of a station on first sight, or rejects a change.
    pub fn pin_mac(&mut self, side: Side, mac: MacAddress) -> (r: Verdict)
        ensures
            final(self)@ == old(self)@.mac_seen(side, mac@).peers,
            r == old(self)@.mac_seen(side, mac@).verdict(),
    {
        let pinned = match side {
            Side::Door => self.door_mac,
            Side::Pad => self.pad_mac,
        };
        match pinned {
            None => {
                match side {
                    Side::Door => {
                        self.door_mac = Some(mac);
                    },
                    Side::Pad => {
                        self.pad_mac = Some(mac);
                    },
                }
                Verdict::Accepted
            },
            Some(known) => if known.same(&mac) {
                Verdict::Accepted
            } else {
                Verdict::Mismatch
            },
        }
    }

    /// Holds the door of an endpoint block against what is pinned.
    fn claim_door(&mut self, claimed: &Station) -> (r: Verdict)
        ensures
            final(self)@ == old(self)@.door_claimed(claimed@).peers,
            r == old(self)@.door_claimed(claimed@).verdict(),
    {
        match &mut self.door {
            None => {
                self.door = Some(claimed.clone());
                Verdict::Accepted
            },
            Some(door) => {
                if door.id.as_str().is_empty() && door.ip == claimed.ip {
                    door.id = claimed.id.clone();
                    Verdict::Accepted
                } else if text::same_text(door.id.as_str(), claimed.id.as_str()) {
                    if door.ip.is_unspecified() {
                        door.ip = claimed.ip;
                        Verdict::Accepted
                    } else if door.ip == claimed.ip {
                        Verdict::Accepted
                    } else {
                        Verdict::Mismatch
                    }
                } else {
                    Verdict::Mismatch
                }
            },
        }
    }

    /// Holds the endpoint block of a session against what is pinned, and learns from it what is
    /// still unknown, where it is accepted.
    pub fn accept_endpoints(&mut self, endpoints: &Endpoints) -> (r: Verdict)
        ensures
            final(self)@ == old(self)@.endpoints_claimed(endpoints@).peers,
            r == old(self)@.endpoints_claimed(endpoints@).verdict(),
    {
        if !text::same_text(endpoints.room.id.as_str(), self.room.id.as_str()) {
            return Verdict::Ignored;
        }
        if !self.room.ip.is_unspecified() && self.room.ip != endpoints.room.ip {
            return Verdict::Mismatch;
        }
        let verdict = self.claim_door(&endpoints.door);
        if verdict == Verdict::Accepted {
            self.set_room_ip_if_unset(endpoints.room.ip);
        }
        verdict
    }
}

/// What can be claimed about the stations.
pub enum Claim {
    RoomIp(Ipv4Addr),
    Address(Side, Ipv4Addr),
    Mac(Side, Seq<u8>),
    Session(EndpointsView),
}

/// The peers once a claim has been made.
pub open spec fn after_claim(p: PeersView, claim: Claim) -> PeersView {
    match claim {
        Claim::RoomIp(ip) => p.room_ip_set(ip),
        Claim::Address(side, ip) => p.address_seen(side, ip).peers,
        Claim::Mac(side, mac) => p.mac_seen(side, mac).peers,
        Claim::Session(e) => p.endpoints_claimed(e).peers,
    }
}

/// The peers once all of the claims have been made.
pub open spec fn after_claims(p: PeersView, claims: Seq<Claim>) -> PeersView
    decreases claims.len(),
{
    if claims.len() == 0 {
        p
    } else {
        after_claim(after_claims(p, claims.drop_last()), claims.last())
    }
}

/// Trust on first use: whatever is claimed, the identity of the Pad never changes, an address that
/// is known never changes, a door that is known by id and address never changes, and a hardware
/// address that is known never changes.
pub proof fn law_pins_never_change(p: PeersView, claims: Seq<Claim>)
    ensures
        ({
            let q = after_claims(p, claims);
            &&& q.room.id == p.room.id
            &&& q.control_port == p.control_port
            &&& !p.room.ip.unspecified() ==> q.room.ip == p.room.ip
            &&& p.door is Some ==> q.door is Some
            &&& p.door is Some && p.door->0.id.len() > 0 ==> q.door->0.id == p.door->0.id
            &&& p.door is Some && !p.door->0.ip.unspecified() ==> q.door->0.ip == p.door->0.ip
            &&& p.door_mac is Some ==> q.door_mac == p.door_mac
            &&& p.pad_mac is Some ==> q.pad_mac == p.pad_mac
        }),
    decreases claims.len(),
{
    if claims.len() > 0 {
        law_pins_never_change(p, claims.drop_last());
    }
}

/// A claim that is not accepted changes nothing.
pub proof fn law_contradictions_are_ignored(p: PeersView, side: Side, ip: Ipv4Addr, mac: Seq<u8>, e: EndpointsView)
    ensures
        !p.address_seen(side, ip).accepted ==> p.address_seen(side, ip).peers == p,
        !p.mac_seen(side, mac).accepted ==> p.mac_seen(side, mac).peers == p,
        !p.endpoints_claimed(e).accepted ==> p.endpoints_claimed(e).peers == p,
{
}

/// Once the endpoint block of a session is accepted, it is the block that is known. It is refused
/// where it names another room, or another address or door than those that are pinned.
pub proof fn law_accepted_endpoints_are_known(p: PeersView, e: EndpointsView)
    ensures
        p.endpoints_claimed(e).accepted ==> p.endpoints_claimed(e).peers.endpoints() == Some(e),
        e.room.id != p.room.id ==> !p.endpoints_claimed(e).accepted,
        !p.room.ip.unspecified() && e.room.ip != p.room.ip ==> !p.endpoints_claimed(e).accepted,
        p.door matches Some(door) ==> {
            &&& door.id.len() > 0 && door.id != e.door.id ==> !p.endpoints_claimed(e).accepted
            &&& !door.ip.unspecified() && door.ip != e.door.ip ==> !p.endpoints_claimed(
                e,
            ).accepted
        },
{
}

/// The hardware address that an optional text spells; a text that is empty or not set is none.
pub fn parse_mac(text: &Option<String>) -> (r: Result<Option<MacAddress>, EthernetError>)
    ensures
        match config::set_text(*text) {
            None => r == Ok::<Option<MacAddress>, EthernetError>(None),
            Some(t) => match r {
                Ok(mac) => ethernet::is_mac_text(t) && mac_view(mac) == Some(
                    ethernet::mac_of_text(t),
                ),
                Err(e) => !ethernet::is_mac_text(t) && e == EthernetError::Mac,
            },
        },
{
    match config::non_empty(text) {
        Some(t) => match MacAddress::parse(t) {
            Ok(mac) => Ok(Some(mac)),
            Err(e) => Err(e),
        },
        None => Ok(None),
    }
}

/// What is wrong with the stations of a configuration.
#[derive(Clone, Copy, Debug, PartialEq, Eq, Structural)]
pub enum PeersError {
    /// The id of the Pad is missing.
    DeviceId,
    /// The hardware address of the door cannot be read.
    DoorMac,
    /// The hardware address of the Pad cannot be read.
    PadMac,
}

/// An address, or 0.0.0.0 where there is none.
pub open spec fn ip_or_unspecified(ip: Option<Ipv4Addr>) -> Ipv4Addr {
    match ip {
        Some(ip) => ip,
        None => Ipv4Addr { a: 0, b: 0, c: 0, d: 0 },
    }
}

/// Whether an optional text is empty, not set, or a hardware address.
pub open spec fn readable_mac(text: Option<String>) -> bool {
    config::set_text(text) is Some ==> ethernet::is_mac_text(config::set_text(text)->0)
}

/// The hardware address behind an optional text that is readable.
pub open spec fn configured_mac(text: Option<String>) -> Option<Seq<u8>> {
    match config::set_text(text) {
        Some(t) => Some(ethernet::mac_of_text(t)),
        None => None,
    }
}

/// The stations as a configuration pins them.
pub open spec fn configured_peers(ic: &IntercomConfig) -> PeersView {
    PeersView {
        room: StationView { id: ic.device_id@, ip: ip_or_unspecified(ic.room_ip) },
        door: match config::set_text(ic.door_id) {
            Some(id) => Some(StationView { id, ip: ip_or_unspecified(ic.door_ip) }),
            None => None,
        },
        door_mac: configured_mac(ic.door_mac),
        pad_mac: configured_mac(ic.pad_mac),
        control_port: ic.control_port,
    }
}

fn known_or_unspecified(ip: Option<Ipv4Addr>) -> (r: Ipv4Addr)
    ensures
        r == ip_or_unspecified(ip),
{
    match ip {
        Some(ip) => ip,
        None => Ipv4Addr::new(0, 0, 0, 0),
    }
}

/// The stations that an Agent starts from.
pub fn peers_from_config(ic: &IntercomConfig) -> (r: Result<Peers, PeersError>)
    ensures
        match r {
            Ok(peers) => {
                &&& ic.device_id@.len() > 0
                &&& readable_mac(ic.door_mac)
                &&& readable_mac(ic.pad_mac)
                &&& peers@ == configured_peers(ic)
            },
            Err(e) => if ic.device_id@.len() == 0 {
                e == PeersError::DeviceId
            } else if !readable_mac(ic.door_mac) {
                e == PeersError::DoorMac
            } else {
                !readable_mac(ic.pad_mac) && e == PeersError::PadMac
            },
        },
{
    if ic.device_id.as_str().is_empty() {
        return Err(PeersError::DeviceId);
    }
    let door_mac = match parse_mac(&ic.door_mac) {
        Ok(mac) => mac,
        Err(_) => return Err(PeersError::DoorMac),
    };
    let pad_mac = match parse_mac(&ic.pad_mac) {
        Ok(mac) => mac,
        Err(_) => return Err(PeersError::PadMac),
    };
    let door = match config::non_empty(&ic.door_id) {
        Some(id) => Some(Station::new(id, known_or_unspecified(ic.door_ip))),
        None => None,
    };
    Ok(
        Peers {
            room: Station::new(ic.device_id.as_str(), known_or_unspecified(ic.room_ip)),
            door,
            door_mac,
            pad_mac,
            control_port: ic.control_port,
        },
    )
}

impl Peers {
    /// Whether a starting Agent asks the network for the physical Pad: it taps the bridge and does
    /// not know the address.
    pub fn wants_pad_discovery(&self, mode: AgentMode) -> (r: bool)
        ensures
            r == (mode == AgentMode::Tap && self@.room.ip.unspecified()),
    {
        mode == AgentMode::Tap && self.room.ip.is_unspecified()
    }

    /// The door that a starting Agent asks the network for: one that is known only by its id.
    pub fn door_to_discover(&self) -> (r: Option<&Station>)
        ensures
            match r {
                Some(door) => self@.door == Some(door@) && door@.ip.unspecified(),
                None => self@.door is None || !self@.door->0.ip.unspecified(),
            },
    {
        match &self.door {
            Some(door) => if door.ip.is_unspecified() {
                Some(door)
            } else {
                None
            },
            None => None,
        }
    }

    /// The door answers at this address.
    pub fn door_discovered(&mut self, ip: Ipv4Addr)
        requires
            old(self)@.door is Some,
        ensures
            final(self)@ == old(self)@.with_door((StationView { ip, ..old(self)@.door->0 })),
    {
        if let Some(door) = &mut self.door {
            door.ip = ip;
        }
    }

    /// The address whose hardware address a tapping Agent looks up for the Pad.
    pub fn pad_neighbor(&self) -> (r: Option<Ipv4Addr>)
        ensures
            r == (if self@.pad_mac is None && !self@.room.ip.unspecified() {
                Some(self@.room.ip)
            } else {
                None
            }),
    {
        if self.pad_mac.is_none() && !self.room.ip.is_unspecified() {
            Some(self.room.ip)
        } else {
            None
        }
    }

    /// The address whose hardware address a tapping Agent looks up for the door.
    pub fn door_neighbor(&self) -> (r: Option<Ipv4Addr>)
        ensures
            r == (match self@.door {
                Some(door) => if self@.door_mac is None && !door.ip.unspecified() {
                    Some(door.ip)
                } else {
                    None
                },
                None => None,
            }),
    {
        match &self.door {
            Some(door) => if self.door_mac.is_none() && !door.ip.is_unspecified() {
                Some(door.ip)
            } else {
                None
            },
            None => None,
        }
    }
}

/// The hardware address that the lines of a neighbour table give for an address: that of the
/// first complete entry for it.
pub open spec fn arp_lookup(lines: Seq<Seq<char>>, want: Seq<char>) -> Option<Seq<u8>>
    decreases lines.len(),
{
    if lines.len() == 0 {
        None
    } else {
        let cols = text::words(lines[0]);
        if cols.len() >= 4 && cols[0] == want && cols[2] != "0x0"@ {
            if ethernet::is_mac_text(cols[3]) {
                Some(ethernet::mac_of_text(cols[3]))
            } else {
                None
            }
        } else {
            arp_lookup(lines.drop_first(), want)
        }
    }
}

/// Finds the hardware address of `ip` in the text of a neighbour table, whose first line is a
/// heading.
pub fn parse_arp_table(text: &str, ip: Ipv4Addr) -> (r: Option<MacAddress>)
    ensures
        mac_view(r) == arp_lookup(text::split(text@, '\n').drop_first(), ip.dotted()),
{
    let chars = text::chars_of(text);
    let lines = text::split_at(&chars, '\n');
    let want_text = ip.text();
    let want = text::chars_of(want_text.as_str());
    let zero = text::chars_of("0x0");
    let ghost all = text::split(text@, '\n');
    proof {
        assert(text::slice_views(lines@).len() == lines@.len());
        lemma_split_not_empty(text@, '\n');
        assert(all.skip(1) =~= all.drop_first());
    }
    let mut i: usize = 1;
    while i < lines.len()
        invariant
            1 <= i <= lines@.len() == all.len(),
            text::slice_views(lines@) == all,
            all.skip(1) == text::split(text@, '\n').drop_first(),
            want@ == ip.dotted(),
            zero@ == "0x0"@,
            arp_lookup(all.skip(1), ip.dotted()) == arp_lookup(all.skip(i as int), ip.dotted()),
        decreases lines@.len() - i,
    {
        let cols = text::split_words(lines[i]);
        proof {
            assert(text::slice_views(lines@)[i as int] == lines@[i as int]@);
            assert(all.skip(i as int)[0] == lines@[i as int]@);
            assert(all.skip(i as int).drop_first() =~= all.skip(i + 1));
            assert(text::slice_views(cols@).len() == cols@.len());
            if cols@.len() >= 4 {
                assert(text::slice_views(cols@)[0] == cols@[0]@);
                assert(text::slice_views(cols@)[2] == cols@[2]@);
                assert(text::slice_views(cols@)[3] == cols@[3]@);
            }
        }
        if cols.len() >= 4 && text::same_chars(cols[0], &want) && !text::same_chars(
            cols[2],
            &zero,
        ) {
            let mac = text::text_of(cols[3]);
            return match MacAddress::parse(mac.as_str()) {
                Ok(mac) => Some(mac),
                Err(_) => None,
            };
        }
        i = i + 1;
    }
    assert(all.skip(i as int) =~= Seq::empty());
    None
}

proof fn lemma_split_not_empty(s: Seq<char>, sep: char)
    ensures
        text::split(s, sep).len() >= 1,
{
}

/// What is still unknown is learned at first sight: an address where 0.0.0.0 stands, a hardware
/// address where none stands. What is known is confirmed by the same and contradicted by another;
/// 0.0.0.0 is never learned.
pub proof fn law_first_sight_is_learned(p: PeersView, ip: Ipv4Addr, mac: Seq<u8>)
    ensures
        ({
            let none = Ipv4Addr { a: 0, b: 0, c: 0, d: 0 };
            let seen = p.address_seen(Side::Pad, ip);
            &&& p.room_ip_set(ip).room.ip == (if p.room.ip == none {
                ip
            } else {
                p.room.ip
            })
            &&& p.room_ip_set(ip).room.id == p.room.id
            &&& p.room_ip_set(ip).door == p.door
            &&& seen.accepted <==> ip != none && (p.room.ip == none || p.room.ip == ip)
            &&& seen.mismatch <==> ip != none && p.room.ip != none && p.room.ip != ip
            &&& seen.accepted ==> seen.peers.room.ip == ip && seen.peers.door == p.door
        }),
        ({
            let none = Ipv4Addr { a: 0, b: 0, c: 0, d: 0 };
            let seen = p.address_seen(Side::Door, ip);
            let known = p.door is Some && p.door->0.ip != none;
            &&& seen.accepted <==> ip != none && (!known || p.door->0.ip == ip)
            &&& seen.mismatch <==> ip != none && known && p.door->0.ip != ip
            &&& seen.accepted ==> {
                &&& seen.peers.door is Some
                &&& seen.peers.door->0.ip == ip
                &&& p.door is Some ==> seen.peers.door->0.id == p.door->0.id
                &&& p.door is None ==> seen.peers.door->0.id.len() == 0
                &&& seen.peers.room == p.room
            }
        }),
        ({
            let seen = p.mac_seen(Side::Door, mac);
            &&& seen.accepted <==> p.door_mac is None || p.door_mac == Some(mac)
            &&& seen.mismatch <==> !seen.accepted
            &&& seen.accepted ==> seen.peers == (PeersView { door_mac: Some(mac), ..p })
        }),
        ({
            let seen = p.mac_seen(Side::Pad, mac);
            &&& seen.accepted <==> p.pad_mac is None || p.pad_mac == Some(mac)
            &&& seen.mismatch <==> !seen.accepted
            &&& seen.accepted ==> seen.peers == (PeersView { pad_mac: Some(mac), ..p })
        }),
{
}

/// When the endpoint block of a session is accepted: it is for the own room, at its address where
/// that is known, and its door is the known one as far as that is known. Where it is for the own
/// room and is not accepted, it contradicts what is pinned.
pub proof fn law_endpoints_are_held_against_pins(p: PeersView, e: EndpointsView)
    ensures
        ({
            let none = Ipv4Addr { a: 0, b: 0, c: 0, d: 0 };
            let l = p.endpoints_claimed(e);
            let room = p.room.ip == none || p.room.ip == e.room.ip;
            let door = match p.door {
                None => true,
                Some(d) => (d.id.len() == 0 && d.ip == e.door.ip) || (d.id == e.door.id && (d.ip
                    == none || d.ip == e.door.ip)),
            };
            &&& l.accepted <==> e.room.id == p.room.id && room && door
            &&& l.mismatch <==> e.room.id == p.room.id && !(room && door)
            &&& l.accepted ==> l.peers.door == Some(e.door) && l.peers.room == e.room
            &&& l.peers.door_mac == p.door_mac && l.peers.pad_mac == p.pad_mac
            &&& l.accepted ==> l.verdict() == Verdict::Accepted
            &&& l.mismatch ==> l.verdict() == Verdict::Mismatch
            &&& !l.accepted && !l.mismatch ==> l.verdict() == Verdict::Ignored
        }),
{
}

/// The stations that a configuration pins: the own room with its address, or 0.0.0.0; a door where
/// one is named; the hardware addresses that are written down.
pub proof fn law_configuration_pins_stations(ic: &IntercomConfig)
    ensures
        ({
            let p = configured_peers(ic);
            let none = Ipv4Addr { a: 0, b: 0, c: 0, d: 0 };
            &&& p.room.id == ic.device_id@
            &&& p.room.ip == (match ic.room_ip {
                Some(ip) => ip,
                None => none,
            })
            &&& p.door is Some <==> config::set_text(ic.door_id) is Some
            &&& p.door matches Some(door) ==> Some(door.id) == config::set_text(ic.door_id)
                && door.ip == (match ic.door_ip {
                Some(ip) => ip,
                None => none,
            })
            &&& p.door_mac is Some <==> config::set_text(ic.door_mac) is Some
            &&& p.pad_mac is Some <==> config::set_text(ic.pad_mac) is Some
            &&& p.door_mac matches Some(mac) ==> mac == ethernet::mac_of_text(
                config::set_text(ic.door_mac)->0,
            )
            &&& p.pad_mac matches Some(mac) ==> mac == ethernet::mac_of_text(
                config::set_text(ic.pad_mac)->0,
            )
            &&& p.control_port == ic.control_port
            &&& p.endpoints() == (match p.door {
                Some(door) => Some(EndpointsView { door, room: p.room }),
                None => None,
            })
        }),
{
}

/// Whether a line of a neighbour table is a complete entry for an address.
pub open spec fn is_entry(line: Seq<char>, want: Seq<char>) -> bool {
    let cols = text::words(line);
    cols.len() >= 4 && cols[0] == want && cols[2] != "0x0"@
}

/// A neighbour table gives the hardware address in the fourth column of the first complete entry;
/// without one it gives none.
pub proof fn law_neighbour_table_is_read(
    before: Seq<Seq<char>>,
    line: Seq<char>,
    after: Seq<Seq<char>>,
    want: Seq<char>,
)
    requires
        forall|i: int| 0 <= i < before.len() ==> !is_entry(#[trigger] before[i], want),
    ensures
        arp_lookup(before, want) is None,
        is_entry(line, want) ==> arp_lookup(before.push(line) + after, want)
            == (if ethernet::is_mac_text(text::words(line)[3]) {
            Some(ethernet::mac_of_text(text::words(line)[3]))
        } else {
            None
        }),
    decreases before.len(),
{
    let all = before.push(line) + after;
    if before.len() == 0 {
        assert(all[0] == line);
    } else {
        let rest = before.drop_first();
        assert(!is_entry(before[0], want));
        assert forall|i: int| 0 <= i < rest.len() implies !is_entry(#[trigger] rest[i], want) by {
            assert(rest[i] == before[i + 1]);
        }
        assert(all[0] == before[0]);
        assert(all.drop_first() =~= rest.push(line) + after);
        law_neighbour_table_is_read(rest, line, after, want);
    }
}

} // verus!
