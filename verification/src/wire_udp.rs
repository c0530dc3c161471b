//! The wire of the `pad` mode: this process is the Pad, on a plain UDP socket.

use vstd::prelude::*;
use crate::agent;
use crate::agent::{Agent, AgentView, OutcomeView, Side, WireOutcome};
use crate::discovery;
use crate::net::{Ipv4Addr, SocketAddr};
use crate::protocol;

verus! {

/// The Agent once a datagram has come from this socket: the own address toward it is the Pad's,
/// and its own is the door's.
pub open spec fn sender_seen(a: AgentView, from: SocketAddr, local: Option<Ipv4Addr>) -> AgentView {
    match discovery::ipv4(from) {
        None => a,
        Some(door_ip) => {
            let b = match local {
                Some(ip) => AgentView { peers: a.peers.room_ip_set(ip), ..a },
                None => a,
            };
            b.judged(b.peers.address_seen(Side::Door, door_ip))
        },
    }
}

/// The Agent once a datagram has been taken in, and what is to be done for each of its packets.
pub open spec fn heard(
    a: AgentView,
    datagram: Seq<u8>,
    from: SocketAddr,
    local: Option<Ipv4Addr>,
    now_ms: u64,
    pts_us: u64,
) -> (AgentView, Seq<OutcomeView>) {
    sender_seen(a, from, local).fed(Side::Door, protocol::pieces(datagram), now_ms, pts_us)
}

#[derive(Debug)]
pub struct UdpWire {
    /// Where the door is: replies and packets of the Pad go there.
    pub peer: Option<SocketAddr>,
}

impl UdpWire {
    /// A wire on which no door has been heard yet.
    pub fn new() -> (r: Self)
        ensures
            r.peer is None,
    {
        UdpWire { peer: None }
    }

    /// Takes in a datagram. All of it is attributed to the door; `local` is the own address toward
    /// the sender.
    pub fn on_datagram(
        &mut self,
        agent: &mut Agent,
        datagram: &[u8],
        from: SocketAddr,
        local: Option<Ipv4Addr>,
        now_ms: u64,
        pts_us: u64,
    ) -> (r: Vec<WireOutcome>)
        requires
            old(agent).ready_for(datagram@.len()),
        ensures
            final(self).peer == Some(from),
            final(agent).wf(),
            final(agent)@ == heard(old(agent)@, datagram@, from, local, now_ms, pts_us).0,
            agent::outcome_views(r@) == heard(
                old(agent)@,
                datagram@,
                from,
                local,
                now_ms,
                pts_us,
            ).1,
    {
        self.peer = Some(from);
        if let Some(door_ip) = discovery::ipv4_of_socket(from) {
            if let Some(ip) = local {
                agent.set_room_ip_if_unset(ip);
            }
            agent.learn_address(Side::Door, door_ip);
        }
        agent.on_payload(Side::Door, datagram, now_ms, pts_us)
    }

    /// Where a packet of the Pad goes, once a door has contacted it.
    pub fn destination(&self) -> (r: Option<SocketAddr>)
        ensures
            r == self.peer,
    {
        self.peer
    }
}

impl Default for UdpWire {
    fn default() -> (r: Self)
        ensures
            r.peer is None,
    {
        UdpWire::new()
    }
}

/// Whatever the door sends, the Pad's identity stays, and addresses that are known stay.
pub proof fn law_datagrams_keep_pins(
    a: AgentView,
    datagram: Seq<u8>,
    from: SocketAddr,
    local: Option<Ipv4Addr>,
    now_ms: u64,
    pts_us: u64,
)
    ensures
        ({
            let p = a.peers;
            let q = heard(a, datagram, from, local, now_ms, pts_us).0.peers;
            &&& q.room.id == p.room.id
            &&& !p.room.ip.unspecified() ==> q.room.ip == p.room.ip
            &&& p.door is Some && !p.door->0.ip.unspecified() ==> q.door is Some && q.door->0.ip
                == p.door->0.ip
        }),
{
    lemma_fed_keeps_pins(
        sender_seen(a, from, local),
        protocol::pieces(datagram),
        now_ms,
        pts_us,
    );
}

proof fn lemma_fed_keeps_pins(a: AgentView, pieces: Seq<Seq<u8>>, now_ms: u64, pts_us: u64)
    ensures
        ({
            let p = a.peers;
            let q = a.fed(Side::Door, pieces, now_ms, pts_us).0.peers;
            &&& q.room.id == p.room.id
            &&& !p.room.ip.unspecified() ==> q.room.ip == p.room.ip
            &&& p.door is Some && !p.door->0.ip.unspecified() ==> q.door is Some && q.door->0.ip
                == p.door->0.ip
        }),
    decreases pieces.len(),
{
    if pieces.len() > 0 {
        lemma_fed_keeps_pins(a, pieces.drop_last(), now_ms, pts_us);
        let before = a.fed(Side::Door, pieces.drop_last(), now_ms, pts_us).0;
        agent::law_wire_keeps_pins(before, Side::Door, pieces.last(), now_ms, pts_us);
    }
}

/// What a datagram shows of the stations before its packets are read: from an IPv4 sender, the own
/// address toward it is that of the Pad where none is known, and the sender is the door where its
/// address is not known. Another sender than the known door is counted as a mismatch and changes
/// nothing.
pub proof fn law_sender_is_the_door(
    a: AgentView,
    ip: Ipv4Addr,
    port: u16,
    local: Option<Ipv4Addr>,
)
    ensures
        ({
            let from = SocketAddr::V4 { ip, port };
            let b = sender_seen(a, from, local);
            let none = Ipv4Addr { a: 0, b: 0, c: 0, d: 0 };
            let p = a.peers;
            let known = p.door is Some && p.door->0.ip != none;
            &&& b.peers.room.ip == (if p.room.ip == none && local is Some {
                local->0
            } else {
                p.room.ip
            })
            &&& b.peers.room.id == p.room.id
            &&& ip != none && !known ==> b.peers.door is Some && b.peers.door->0.ip == ip
            &&& ip != none && !known && p.door is None ==> b.peers.door->0.id.len() == 0
            &&& ip != none && !known && p.door is Some ==> b.peers.door->0.id == p.door->0.id
            &&& known || ip == none ==> b.peers.door == p.door
            &&& b.mismatches as int == (if ip != none && known && p.door->0.ip != ip {
                (a.mismatches + 1) % 0x1_0000_0000
            } else {
                a.mismatches as int
            })
            &&& b.desk == a.desk && b.jpeg == a.jpeg && b.next_session == a.next_session
        }),
{
}

/// A datagram is then taken in as the packets of the door that it holds, in their order; a sender
/// without an IPv4 address shows nothing.
pub proof fn law_datagram_is_heard(
    a: AgentView,
    datagram: Seq<u8>,
    from: SocketAddr,
    local: Option<Ipv4Addr>,
    now_ms: u64,
    pts_us: u64,
)
    ensures
        heard(a, datagram, from, local, now_ms, pts_us) == sender_seen(a, from, local).fed(
            Side::Door,
            protocol::pieces(datagram),
            now_ms,
            pts_us,
        ),
        from is V6 ==> sender_seen(a, from, local) == a,
{
}

} // verus!
