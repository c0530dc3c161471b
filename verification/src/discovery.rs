//! One endpoint for station discovery: it answers for the Agent's own id and resolves other ids.
//!
//! Stations send their reply to the discovery port, not to where the query came from, so both
//! jobs are done on what one socket receives.

use vstd::prelude::*;
use vstd::utf8;
use crate::bytes;
use crate::net::{Ipv4Addr, SocketAddr};
use crate::protocol;
use crate::protocol::ProtocolError;
use crate::text;

verus! {

/// Somebody who waits for the address of a station.
#[derive(Debug)]
pub struct Waiter {
    pub id: String,
    pub token: u64,
}

/// Somebody who waits for the address of a station.
pub struct WaiterView {
    pub id: Seq<char>,
    pub token: u64,
}

impl View for Waiter {
    type V = WaiterView;

    open spec fn view(&self) -> WaiterView {
        WaiterView { id: self.id@, token: self.token }
    }
}

/// Who waits, in the order in which they came.
pub open spec fn waiter_views(v: Seq<Waiter>) -> Seq<WaiterView> {
    v.map_values(|w: Waiter| w@)
}

/// The tokens of those who wait for this id, in the order in which they came.
pub open spec fn tokens_for(v: Seq<WaiterView>, id: Seq<char>) -> Seq<u64>
    decreases v.len(),
{
    if v.len() == 0 {
        Seq::empty()
    } else if v.last().id == id {
        tokens_for(v.drop_last(), id).push(v.last().token)
    } else {
        tokens_for(v.drop_last(), id)
    }
}

/// Those who wait for another id, in the order in which they came.
pub open spec fn waiting_for_others(v: Seq<WaiterView>, id: Seq<char>) -> Seq<WaiterView>
    decreases v.len(),
{
    if v.len() == 0 {
        Seq::empty()
    } else if v.last().id == id {
        waiting_for_others(v.drop_last(), id)
    } else {
        waiting_for_others(v.drop_last(), id).push(v.last())
    }
}

/// The reply that a station with this id owes to a datagram, if any.
pub open spec fn answer_to(device_id: Seq<char>, datagram: Seq<u8>) -> Option<Seq<u8>> {
    if protocol::discovery_id(1, datagram) == Some(device_id) && utf8::encode_utf8(device_id).len()
        <= 34 {
        Some(protocol::discovery_bytes(2, device_id, 35))
    } else {
        None
    }
}

/// Answers a datagram that asks for the station with this id.
pub fn answer(device_id: &str, datagram: &[u8]) -> (r: Option<[u8; 35]>)
    ensures
        match r {
            Some(reply) => answer_to(device_id@, datagram@) == Some(reply@),
            None => answer_to(device_id@, datagram@) is None,
        },
{
    match protocol::discovery_request_room(datagram) {
        Some(id) => if text::same_text(id.as_str(), device_id) {
            match protocol::discovery_reply(device_id) {
                Ok(reply) => Some(reply),
                Err(_) => None,
            }
        } else {
            None
        },
        None => None,
    }
}

/// The IPv4 address of a socket.
pub open spec fn ipv4(from: SocketAddr) -> Option<Ipv4Addr> {
    match from {
        SocketAddr::V4 { ip, .. } => Some(ip),
        SocketAddr::V6 { .. } => None,
    }
}

/// The IPv4 address of a socket.
pub fn ipv4_of_socket(from: SocketAddr) -> (r: Option<Ipv4Addr>)
    ensures
        r == ipv4(from),
{
    match from {
        SocketAddr::V4 { ip, .. } => Some(ip),
        SocketAddr::V6 { .. } => None,
    }
}

/// The address that a datagram gives for the station with this id: where its reply came from.
pub fn resolved_by(datagram: &[u8], from: SocketAddr, id: &str) -> (r: Option<Ipv4Addr>)
    ensures
        r == (if protocol::discovery_id(2, datagram@) == Some(id@) {
            ipv4(from)
        } else {
            None
        }),
{
    match protocol::discovery_reply_room(datagram) {
        Some(room) => if text::same_text(room.as_str(), id) {
            ipv4_of_socket(from)
        } else {
            None
        },
        None => None,
    }
}

/// What a datagram asks for.
#[derive(Debug)]
pub enum DiscoveryAction {
    /// There is nothing to do.
    Nothing,
    /// These waiters get this address.
    Resolved { tokens: Vec<u64>, ip: Ipv4Addr },
    /// This reply goes back to the sender.
    Answer([u8; 35]),
}

/// What a datagram asks for.
pub enum ActionView {
    Nothing,
    Resolved { tokens: Seq<u64>, ip: Ipv4Addr },
    Answer(Seq<u8>),
}

impl View for DiscoveryAction {
    type V = ActionView;

    open spec fn view(&self) -> ActionView {
        match self {
            DiscoveryAction::Nothing => ActionView::Nothing,
            DiscoveryAction::Resolved { tokens, ip } => ActionView::Resolved {
                tokens: tokens@,
                ip: *ip,
            },
            DiscoveryAction::Answer(reply) => ActionView::Answer(reply@),
        }
    }
}

#[derive(Debug)]
pub struct DiscoveryService {
    /// The id to answer for; `None` where a physical Pad answers.
    device_id: Option<String>,
    pending: Vec<Waiter>,
}

/// What the discovery endpoint knows.
pub struct ServiceView {
    pub device_id: Option<Seq<char>>,
    pub pending: Seq<WaiterView>,
}

impl View for DiscoveryService {
    type V = ServiceView;

    closed spec fn view(&self) -> ServiceView {
        ServiceView {
            device_id: text::text_view(self.device_id),
            pending: waiter_views(self.pending@),
        }
    }
}

impl ServiceView {
    /// What a datagram asks for. A reply completes those who wait for its id; a query for the own
    /// id is answered.
    pub open spec fn action(self, datagram: Seq<u8>, from: SocketAddr) -> ActionView {
        match protocol::discovery_id(2, datagram) {
            Some(id) => match ipv4(from) {
                Some(ip) => ActionView::Resolved { tokens: tokens_for(self.pending, id), ip },
                None => ActionView::Nothing,
            },
            None => match self.device_id {
                Some(ours) => match answer_to(ours, datagram) {
                    Some(reply) => ActionView::Answer(reply),
                    None => ActionView::Nothing,
                },
                None => ActionView::Nothing,
            },
        }
    }

    /// The endpoint without those who wait for this id.
    pub open spec fn without(self, id: Seq<char>) -> ServiceView {
        ServiceView { pending: waiting_for_others(self.pending, id), ..self }
    }

    /// The endpoint once a datagram has come in.
    pub open spec fn received(self, datagram: Seq<u8>, from: SocketAddr) -> ServiceView {
        match protocol::discovery_id(2, datagram) {
            Some(id) => if ipv4(from) is Some {
                self.without(id)
            } else {
                self
            },
            None => self,
        }
    }
}

impl DiscoveryService {
    /// An endpoint that answers for this id, or for none.
    pub fn new(device_id: Option<String>) -> (r: Self)
        ensures
            r@ == (ServiceView {
                device_id: text::text_view(device_id),
                pending: Seq::empty(),
            }),
    {
        let r = DiscoveryService { device_id, pending: Vec::new() };
        assert(waiter_views(r.pending@) =~= Seq::empty());
        r
    }

    /// Takes those who wait for this id off the list.
    fn take(&mut self, id: &str) -> (r: Vec<u64>)
        ensures
            final(self)@ == old(self)@.without(id@),
            r@ == tokens_for(old(self)@.pending, id@),
    {
        let ghost all = waiter_views(self.pending@);
        let mut tokens: Vec<u64> = Vec::new();
        let mut rest: Vec<Waiter> = Vec::new();
        let mut i: usize = 0;
        proof {
            assert(all.take(0) =~= Seq::empty());
            assert(waiter_views(rest@) =~= Seq::empty());
        }
        while i < self.pending.len()
            invariant
                i <= self.pending@.len(),
                self.pending@ == old(self).pending@,
                self.device_id == old(self).device_id,
                all == waiter_views(self.pending@),
                tokens@ == tokens_for(all.take(i as int), id@),
                waiter_views(rest@) == waiting_for_others(all.take(i as int), id@),
            decreases self.pending@.len() - i,
        {
            let waiter = &self.pending[i];
            let ghost before = waiter_views(rest@);
            proof {
                assert(all.take(i + 1).drop_last() =~= all.take(i as int));
                assert(all.take(i + 1).last() == waiter@);
            }
            if text::same_text(waiter.id.as_str(), id) {
                tokens.push(waiter.token);
            } else {
                rest.push(Waiter { id: waiter.id.clone(), token: waiter.token });
                assert(waiter_views(rest@) =~= before.push(waiter@));
            }
            i = i + 1;
        }
        assert(all.take(i as int) =~= all);
        self.pending = rest;
        tokens
    }

    /// Takes in a datagram.
    pub fn on_datagram(&mut self, datagram: &[u8], from: SocketAddr) -> (r: DiscoveryAction)
        ensures
            final(self)@ == old(self)@.received(datagram@, from),
            r@ == old(self)@.action(datagram@, from),
    {
        if let Some(id) = protocol::discovery_reply_room(datagram) {
            return match ipv4_of_socket(from) {
                Some(ip) => {
                    let tokens = self.take(id.as_str());
                    DiscoveryAction::Resolved { tokens, ip }
                },
                None => DiscoveryAction::Nothing,
            };
        }
        match &self.device_id {
            Some(ours) => match answer(ours.as_str(), datagram) {
                Some(reply) => DiscoveryAction::Answer(reply),
                None => DiscoveryAction::Nothing,
            },
            None => DiscoveryAction::Nothing,
        }
    }

    /// Puts somebody on the list who waits for this id, and gives the query to broadcast.
    pub fn begin_resolve(&mut self, id: &str, token: u64) -> (r: Result<[u8; 100], ProtocolError>)
        ensures
            final(self)@ == (ServiceView {
                pending: old(self)@.pending.push((WaiterView { id: id@, token })),
                ..old(self)@
            }),
            match r {
                Ok(query) => utf8::encode_utf8(id@).len() <= 99 && query@
                    == protocol::discovery_bytes(1, id@, 100),
                Err(e) => utf8::encode_utf8(id@).len() > 99 && e == ProtocolError::StationTooLong,
            },
    {
        let ghost before = waiter_views(self.pending@);
        self.pending.push(Waiter { id: id.to_string(), token });
        assert(waiter_views(self.pending@) =~= before.push((WaiterView { id: id@, token })));
        protocol::discovery_request(id)
    }

    /// Nobody waits for this id any longer.
    pub fn give_up(&mut self, id: &str)
        ensures
            final(self)@ == old(self)@.without(id@),
    {
        self.take(id);
    }
}

/// Nobody is left waiting for an id once it has been resolved, and everybody else still waits.
pub proof fn law_resolved_waiters_are_gone(v: Seq<WaiterView>, id: Seq<char>, other: Seq<char>)
    ensures
        tokens_for(waiting_for_others(v, id), id).len() == 0,
        other != id ==> tokens_for(waiting_for_others(v, id), other) == tokens_for(v, other),
    decreases v.len(),
{
    if v.len() > 0 {
        law_resolved_waiters_are_gone(v.drop_last(), id, other);
        let rest = waiting_for_others(v.drop_last(), id);
        if v.last().id != id {
            assert(rest.push(v.last()).drop_last() =~= rest);
        }
    }
}

/// A query finds its station: the station with the id answers it, and the answer gives everybody
/// who waits for the id the address that it came from.
pub proof fn law_query_finds_station(
    asker: ServiceView,
    station: ServiceView,
    id: Seq<char>,
    from: SocketAddr,
    to: SocketAddr,
)
    requires
        station.device_id == Some(id),
        utf8::encode_utf8(id).len() <= 34,
        forall|i: int| 0 <= i < id.len() ==> #[trigger] id[i] != '\0',
        ipv4(from) is Some,
    ensures
        station.action(protocol::discovery_bytes(1, id, 100), to) == ActionView::Answer(
            protocol::discovery_bytes(2, id, 35),
        ),
        asker.action(protocol::discovery_bytes(2, id, 35), from) == (ActionView::Resolved {
            tokens: tokens_for(asker.pending, id),
            ip: ipv4(from)->0,
        }),
{
    protocol::law_discovery_round_trip(1, id, 100, 2);
    protocol::law_discovery_round_trip(2, id, 35, 1);
}

/// What a datagram of the discovery exchange does. A reply, which begins with the byte 2, completes
/// those who wait for its id, with the IPv4 address that it came from, and those who wait for
/// another go on waiting. A query, which begins with the byte 1, is answered where it asks for the
/// own id. All else does nothing.
pub proof fn law_discovery_exchange(s: ServiceView, datagram: Seq<u8>, from: SocketAddr, id: Seq<char>)
    requires
        datagram.len() > 0,
        id == text::lossy(bytes::before_nul(datagram.skip(1))),
    ensures
        ({
            let action = s.action(datagram, from);
            let after = s.received(datagram, from);
            &&& datagram[0] == 2 ==> match from {
                SocketAddr::V4 { ip, port } => action == (ActionView::Resolved {
                    tokens: tokens_for(s.pending, id),
                    ip,
                }) && after.pending == waiting_for_others(s.pending, id),
                _ => action == ActionView::Nothing && after == s,
            }
            &&& datagram[0] == 1 && s.device_id == Some(id) && utf8::encode_utf8(id).len() <= 34
                ==> {
                let reply = action->Answer_0;
                &&& action is Answer
                &&& reply.len() == 35
                &&& reply[0] == 2
                &&& reply.subrange(1, 1 + utf8::encode_utf8(id).len() as int) == utf8::encode_utf8(id)
                &&& forall|i: int|
                    1 + utf8::encode_utf8(id).len() <= i < 35 ==> #[trigger] reply[i] == 0
                &&& after == s
            }
            &&& datagram[0] == 1 && s.device_id != Some(id) ==> action == ActionView::Nothing
                && after == s
            &&& datagram[0] != 1 && datagram[0] != 2 ==> action == ActionView::Nothing && after
                == s
            &&& after.device_id == s.device_id
        }),
{
    if datagram[0] == 1 && s.device_id == Some(id) && utf8::encode_utf8(id).len() <= 34 {
        let raw = utf8::encode_utf8(id);
        let reply = protocol::discovery_bytes(2, id, 35);
        assert(reply.subrange(1, 1 + raw.len() as int) =~= raw);
    }
}

/// Each of those who wait is completed by a reply for the id that they wait for, in the order in
/// which they came, and by no other.
pub proof fn law_waiters_are_completed(v: Seq<WaiterView>, w: WaiterView, id: Seq<char>)
    ensures
        w.id == id ==> tokens_for(v.push(w), id) == tokens_for(v, id).push(w.token)
            && waiting_for_others(v.push(w), id) == waiting_for_others(v, id),
        w.id != id ==> tokens_for(v.push(w), id) == tokens_for(v, id) && waiting_for_others(
            v.push(w),
            id,
        ) == waiting_for_others(v, id).push(w),
        tokens_for(Seq::empty(), id) == Seq::<u64>::empty(),
        waiting_for_others(Seq::empty(), id) == Seq::<WaiterView>::empty(),
{
    assert(v.push(w).drop_last() =~= v);
}

} // verus!
