//! The Agent: it stands for the household's Pad on the wire and serves the control plane.
//!
//! In `pad` mode it is the Pad; in `tap` mode a physical Pad stays in place and the Agent follows
//! the call on the bridge. How bytes travel differs between the modes; the decisions here do not.

use vstd::prelude::*;
use crate::agent_api::{
    AudioChunk, CallAction, CallError, CallState, CommandResult, Event, EventKind, EventView,
    KindView, MediaHistory, MediaInfo, MediaView, ResultView, VideoFrame,
};
use crate::agent_api;
use crate::bytes;
use crate::config::AgentMode;
use crate::desk;
use crate::desk::{CallDesk, DeskView};
use crate::ethernet::MacAddress;
use crate::media;
use crate::net::Ipv4Addr;
use crate::peers::{Learned, PeersView};
use crate::protocol;
use crate::protocol::{
    Endpoints, EndpointsView, FragmentView, JpegReassembler, MediaFragment, Message, MessageView,
    PendingView, FAMILY_BOOTSTRAP, FAMILY_SESSION, MEDIA_AUDIO, OP_ANSWER, OP_HANGUP,
    OP_KEEPALIVE, OP_MEDIA, OP_REQUEST, OP_UNLOCK,
};
use crate::state;
use crate::state::{CallMachine, CallPhase, MachineView, Owner};
use crate::text;
use crate::time::{Duration, Instant};

pub use crate::peers::{parse_arp_table, parse_mac, Peers, Side, Verdict};

verus! {

/// When the door may be opened.
#[derive(Clone, Copy, Debug, PartialEq, Eq, Structural)]
pub struct Policy {
    pub cooldown: Duration,
    pub unlock_requires_answer: bool,
}

pub struct Agent {
    mode: AgentMode,
    peers: Peers,
    desk: CallDesk,
    next_session: u64,
    jpeg: JpegReassembler,
    audio_seq: u32,
    mismatches: u32,
}

/// What an Agent holds.
pub struct AgentView {
    pub mode: AgentMode,
    pub peers: PeersView,
    pub desk: DeskView,
    pub next_session: u64,
    pub jpeg: Seq<PendingView>,
    pub audio_seq: u32,
    pub mismatches: u32,
}

impl View for Agent {
    type V = AgentView;

    closed spec fn view(&self) -> AgentView {
        AgentView {
            mode: self.mode,
            peers: self.peers@,
            desk: self.desk@,
            next_session: self.next_session,
            jpeg: self.jpeg@,
            audio_seq: self.audio_seq,
            mismatches: self.mismatches,
        }
    }
}

/// A counter of 32 bits that has counted one more.
pub open spec fn counted32(n: u32) -> u32 {
    if n == u32::MAX {
        0
    } else {
        (n + 1) as u32
    }
}

/// A counter of 32 bits that has counted one more, modulo 2^32.
pub fn count32(n: u32) -> (r: u32)
    ensures
        r == counted32(n),
{
    if n == u32::MAX {
        0
    } else {
        n + 1
    }
}

/// What is to be done once a datagram has been taken in: send the reply to the door, let the Pad
/// go, and hand the event and the media on.
#[derive(Debug)]
pub struct WireOutcome {
    pub reply: Option<Vec<u8>>,
    pub call_ended: bool,
    pub event: Option<Event>,
    pub video: Option<VideoFrame>,
    pub audio: Option<AudioChunk>,
}

/// What is to be done once a datagram has been taken in.
pub struct OutcomeView {
    pub reply: Option<Seq<u8>>,
    pub call_ended: bool,
    pub event: Option<EventView>,
    pub video: Option<MediaView>,
    pub audio: Option<MediaView>,
}

/// The view of optional bytes.
pub open spec fn blob_view(b: Option<Vec<u8>>) -> Option<Seq<u8>> {
    match b {
        Some(v) => Some(v@),
        None => None,
    }
}

impl View for WireOutcome {
    type V = OutcomeView;

    open spec fn view(&self) -> OutcomeView {
        OutcomeView {
            reply: blob_view(self.reply),
            call_ended: self.call_ended,
            event: desk::event_view(self.event),
            video: desk::frame_view(self.video),
            audio: desk::chunk_view(self.audio),
        }
    }
}

/// Nothing is to be done.
pub open spec fn nothing() -> OutcomeView {
    OutcomeView { reply: None, call_ended: false, event: None, video: None, audio: None }
}

/// Nothing is to be done.
pub fn no_outcome() -> (r: WireOutcome)
    ensures
        r@ == nothing(),
{
    WireOutcome { reply: None, call_ended: false, event: None, video: None, audio: None }
}

/// An Agent and what is to be done.
pub struct WireResult {
    pub agent: AgentView,
    pub outcome: OutcomeView,
}

impl AgentView {
    /// The id of the Agent: its mode behind a fixed name.
    pub open spec fn id(self) -> Seq<char> {
        "michoi-"@ + self.mode.text()
    }

    /// The Agent with this desk.
    pub open spec fn with_desk(self, desk: DeskView) -> AgentView {
        AgentView { desk, ..self }
    }

    /// The Agent once a claim about a station has been judged.
    pub open spec fn judged(self, l: Learned) -> AgentView {
        AgentView {
            peers: l.peers,
            mismatches: if l.mismatch && !l.accepted {
                counted32(self.mismatches)
            } else {
                self.mismatches
            },
            ..self
        }
    }

    /// Nothing changes and nothing is to be done.
    pub open spec fn unmoved(self) -> WireResult {
        WireResult { agent: self, outcome: nothing() }
    }

    /// The door asks for a session: it gets the capability reply, and the call rings where none
    /// is active.
    pub open spec fn session_requested(self, e: EndpointsView, now_ms: u64) -> WireResult {
        let reply = if e.fits() {
            Some(protocol::reply_bytes(e))
        } else {
            None
        };
        if self.desk.active() {
            WireResult { agent: self, outcome: OutcomeView { reply, ..nothing() } }
        } else {
            let id = self.next_session;
            WireResult {
                agent: AgentView {
                    desk: self.desk.call_started(id, e.door.id, e.room.id, now_ms),
                    next_session: state::counted(id),
                    ..self
                },
                outcome: OutcomeView {
                    reply,
                    event: Some(
                        self.desk.next_event(
                            now_ms,
                            desk::started_kind(id, e.door.id, e.room.id),
                        ),
                    ),
                    ..nothing()
                },
            }
        }
    }

    /// The Pad answers.
    pub open spec fn pad_answers(self, now_ms: u64) -> WireResult {
        let id = self.desk.machine.state.session_id;
        WireResult {
            agent: self.with_desk(self.desk.pad_answered(id, now_ms)),
            outcome: OutcomeView {
                event: if self.desk.machine.pad_refusal() is None {
                    Some(self.desk.next_event(now_ms, desk::answered_kind(id)))
                } else {
                    None
                },
                ..nothing()
            },
        }
    }

    /// The Pad opens the door.
    pub open spec fn pad_unlocks(self, now_ms: u64) -> WireResult {
        let id = self.desk.machine.state.session_id;
        WireResult {
            agent: self.with_desk(self.desk.pad_unlocked(id, now_ms)),
            outcome: OutcomeView {
                event: if self.desk.machine.state.owner == Owner::Pad {
                    Some(self.desk.next_event(now_ms, desk::unlocked_kind(id)))
                } else {
                    None
                },
                ..nothing()
            },
        }
    }

    /// Either side hangs up.
    pub open spec fn wire_hangs_up(self, now_ms: u64) -> WireResult {
        let id = self.desk.machine.state.session_id;
        WireResult {
            agent: self.with_desk(self.desk.call_ended(id, "wire_hangup"@, now_ms)),
            outcome: OutcomeView {
                call_ended: self.desk.active(),
                event: if self.desk.active() {
                    Some(self.desk.next_event(now_ms, desk::ended_kind(id, "wire_hangup"@)))
                } else {
                    None
                },
                ..nothing()
            },
        }
    }

    /// The door sends media: audio goes on at once, video once a frame is complete.
    pub open spec fn media_arrives(self, f: FragmentView, pts_us: u64) -> WireResult {
        if f.media_type == MEDIA_AUDIO {
            let chunk = MediaView { pts_us, data: f.data };
            WireResult {
                agent: self.with_desk(self.desk.with_audio(chunk)),
                outcome: OutcomeView { audio: Some(chunk), ..nothing() },
            }
        } else {
            let rest = AgentView { jpeg: protocol::frames_after(self.jpeg, f), ..self };
            match protocol::frame_from(self.jpeg, f) {
                Some(data) => {
                    let frame = MediaView { pts_us, data };
                    WireResult {
                        agent: rest.with_desk(self.desk.with_video(frame)),
                        outcome: OutcomeView { video: Some(frame), ..nothing() },
                    }
                },
                None => rest.unmoved(),
            }
        }
    }

    /// A session packet with accepted endpoints comes in.
    pub open spec fn session_packet(
        self,
        side: Side,
        m: MessageView,
        e: EndpointsView,
        now_ms: u64,
        pts_us: u64,
    ) -> WireResult {
        if m.opcode == OP_REQUEST && side == Side::Door {
            self.session_requested(e, now_ms)
        } else if m.opcode == OP_ANSWER && side == Side::Pad {
            self.pad_answers(now_ms)
        } else if m.opcode == OP_UNLOCK && side == Side::Pad {
            self.pad_unlocks(now_ms)
        } else if m.opcode == OP_HANGUP {
            self.wire_hangs_up(now_ms)
        } else if m.opcode == OP_MEDIA && side == Side::Door {
            match m.media() {
                Some(f) => self.media_arrives(f, pts_us),
                None => self.unmoved(),
            }
        } else {
            self.unmoved()
        }
    }

    /// A packet comes in from one side.
    pub open spec fn wired(self, side: Side, raw: Seq<u8>, now_ms: u64, pts_us: u64) -> WireResult {
        match protocol::parsed_message(raw) {
            Err(_) => self.unmoved(),
            Ok(m) => if m.family == FAMILY_BOOTSTRAP && m.opcode == OP_REQUEST {
                WireResult {
                    agent: self,
                    outcome: OutcomeView {
                        reply: if side == Side::Door && self.peers.room.fits() {
                            Some(protocol::bootstrap_bytes(self.peers.room))
                        } else {
                            None
                        },
                        ..nothing()
                    },
                }
            } else {
                match m.endpoints() {
                    None => self.unmoved(),
                    Some(e) => {
                        let l = self.peers.endpoints_claimed(e);
                        if l.accepted {
                            self.judged(l).session_packet(side, m, e, now_ms, pts_us)
                        } else {
                            self.judged(l).unmoved()
                        }
                    },
                }
            },
        }
    }
}

impl AgentView {
    /// The Agent once the packets of a datagram have come in, and what is to be done for each.
    pub open spec fn fed(self, side: Side, pieces: Seq<Seq<u8>>, now_ms: u64, pts_us: u64) -> (
        AgentView,
        Seq<OutcomeView>,
    )
        decreases pieces.len(),
    {
        if pieces.len() == 0 {
            (self, Seq::empty())
        } else {
            let (before, outcomes) = self.fed(side, pieces.drop_last(), now_ms, pts_us);
            let last = before.wired(side, pieces.last(), now_ms, pts_us);
            (last.agent, outcomes.push(last.outcome))
        }
    }
}

/// What is to be done, for each packet.
pub open spec fn outcome_views(v: Seq<WireOutcome>) -> Seq<OutcomeView> {
    v.map_values(|o: WireOutcome| o@)
}

/// A packet gives at most one event.
pub proof fn lemma_one_event_at_most(
    a: AgentView,
    side: Side,
    raw: Seq<u8>,
    now_ms: u64,
    pts_us: u64,
)
    requires
        a.desk.log.next_seq < u64::MAX,
    ensures
        ({
            let b = a.wired(side, raw, now_ms, pts_us).agent;
            a.desk.log.next_seq <= b.desk.log.next_seq <= a.desk.log.next_seq + 1
        }),
{
}

/// What to do with a command: it is answered, or a packet is to be sent for it.
#[derive(Debug)]
pub enum CommandStep {
    Done(CommandResult),
    Send { report: EventKind, packet: Vec<u8> },
}

/// What to do with a command.
pub enum StepView {
    Done(ResultView),
    Send { report: KindView, packet: Seq<u8> },
}

impl View for CommandStep {
    type V = StepView;

    open spec fn view(&self) -> StepView {
        match self {
            CommandStep::Done(result) => StepView::Done(result@),
            CommandStep::Send { report, packet } => StepView::Send {
                report: report@,
                packet: packet@,
            },
        }
    }
}

/// What the wire has to do beyond sending the packet of a command.
#[derive(Clone, Copy, Debug, PartialEq, Eq, Structural)]
pub enum WireDuty {
    Nothing,
    /// A remote backend has won the ringing call: the physical Pad is to be silenced.
    RemoteClaimed,
    /// The call has ended: the physical Pad is to be let go.
    CallEnded,
}

/// What the wire has to do once a command of this kind has been sent.
pub open spec fn duty_of(action: CallAction) -> WireDuty {
    match action {
        CallAction::Claim => WireDuty::RemoteClaimed,
        CallAction::Hangup => WireDuty::CallEnded,
        CallAction::Unlock => WireDuty::Nothing,
    }
}

/// What the wire has to do behind a command of this kind; nothing where its packet was not sent.
pub fn wire_duty(action: CallAction, sent: bool) -> (r: WireDuty)
    ensures
        r == (if sent {
            duty_of(action)
        } else {
            WireDuty::Nothing
        }),
{
    if !sent {
        return WireDuty::Nothing;
    }
    match action {
        CallAction::Claim => WireDuty::RemoteClaimed,
        CallAction::Hangup => WireDuty::CallEnded,
        CallAction::Unlock => WireDuty::Nothing,
    }
}

impl AgentView {
    /// What to do with a command.
    pub open spec fn command_step(self, action: CallAction, id: Seq<char>, now: Instant) -> StepView {
        match self.desk.cache.lookup(id) {
            Some(result) => StepView::Done(result),
            None => match self.peers.endpoints() {
                None => StepView::Done(ResultView::refused(id, CallError::NoCall)),
                Some(e) => match desk::preparation(self.desk, action, e, now) {
                    Ok((report, packet)) => StepView::Send { report, packet },
                    Err(error) => StepView::Done(ResultView::refused(id, error)),
                },
            },
        }
    }

    /// The Agent once a command has been taken up. A command that is answered at once is kept.
    pub open spec fn command_begun(
        self,
        action: CallAction,
        id: Seq<char>,
        now: Instant,
        now_ms: u64,
    ) -> AgentView {
        if self.desk.cache.lookup(id) is Some {
            self
        } else {
            match self.peers.endpoints() {
                None => self.with_desk(
                    self.desk.settled(ResultView::refused(id, CallError::NoCall)),
                ),
                Some(e) => {
                    let prepared = desk::after_preparation(self.desk, action, now, now_ms);
                    match desk::preparation(self.desk, action, e, now) {
                        Ok(_) => self.with_desk(prepared),
                        Err(error) => self.with_desk(
                            prepared.settled(ResultView::refused(id, error)),
                        ),
                    }
                },
            }
        }
    }
}

impl Agent {
    /// Whether the parts of the Agent are in order: the results of commands are kept once each, no
    /// more of them than there is room for.
    pub open spec fn wf(&self) -> bool {
        &&& self@.desk.cache.coherent()
        &&& self@.desk.cache.bounded()
        &&& self.parts_wf()
    }

    /// Whether the parts of the Agent are in order, each for itself.
    pub closed spec fn parts_wf(&self) -> bool {
        self.desk.wf() && self.jpeg.wf()
    }

    /// Whether the Agent is in order and there is a number left for another event.
    pub open spec fn ready(&self) -> bool {
        self.wf() && self@.desk.log.next_seq < u64::MAX
    }

    pub fn new(
        mode: AgentMode,
        peers: Peers,
        policy: Policy,
        history: Duration,
        history_max_bytes: usize,
    ) -> (r: Self)
        ensures
            r.ready(),
            r@.mode == mode,
            r@.peers == peers@,
            r@.desk == DeskView::fresh(
                MachineView::fresh(policy.cooldown, policy.unlock_requires_answer),
                history,
                history_max_bytes,
            ),
            r@.next_session == 1,
            r@.jpeg == Seq::<PendingView>::empty(),
            r@.audio_seq == 0,
            r@.mismatches == 0,
    {
        let machine = CallMachine::with_policy(policy.cooldown, policy.unlock_requires_answer);
        Agent {
            mode,
            peers,
            desk: CallDesk::new(machine, history, history_max_bytes),
            next_session: 1,
            jpeg: JpegReassembler::new(),
            audio_seq: 0,
            mismatches: 0,
        }
    }

    /// Whether there is a number left for another event.
    pub fn has_room(&self) -> (r: bool)
        ensures
            r == (self@.desk.log.next_seq < u64::MAX),
    {
        self.desk.has_room()
    }

    /// Whether the Agent is in order and there are numbers left for the events of `n` bytes of
    /// packets.
    pub open spec fn ready_for(&self, n: nat) -> bool {
        self.wf() && self@.desk.log.next_seq + n <= u64::MAX
    }

    /// Whether there are numbers left for the events of `n` bytes of packets.
    pub fn has_room_for(&self, n: usize) -> (r: bool)
        ensures
            r == (self@.desk.log.next_seq + n <= u64::MAX),
    {
        self.desk.has_room_for(n)
    }

    pub fn mode(&self) -> (r: AgentMode)
        ensures
            r == self@.mode,
    {
        self.mode
    }

    /// The Pad's room station id: the one configured identity.
    pub fn device_id(&self) -> (r: String)
        ensures
            r@ == self@.peers.room.id,
    {
        self.peers.room.id.clone()
    }

    pub fn peers(&self) -> (r: Peers)
        ensures
            r@ == self@.peers,
    {
        self.peers.clone()
    }

    pub fn agent_id(&self) -> (r: String)
        ensures
            r@ == self@.id(),
    {
        let mut out = String::new();
        text::push_text(&mut out, "michoi-");
        text::push_text(&mut out, self.mode.as_str());
        assert(out@ =~= self@.id());
        out
    }

    /// How many claims have contradicted what is pinned, modulo 2^32.
    pub fn mismatches(&self) -> (r: u32)
        ensures
            r == self@.mismatches,
    {
        self.mismatches
    }

    fn judge(&mut self, verdict: Verdict) -> (r: bool)
        ensures
            final(self).peers == old(self).peers,
            final(self).desk == old(self).desk,
            final(self).jpeg == old(self).jpeg,
            final(self)@ == (AgentView {
                mismatches: if verdict == Verdict::Mismatch {
                    counted32(old(self)@.mismatches)
                } else {
                    old(self)@.mismatches
                },
                ..old(self)@
            }),
            r == (verdict == Verdict::Accepted),
    {
        if verdict == Verdict::Mismatch {
            self.mismatches = count32(self.mismatches);
        }
        verdict == Verdict::Accepted
    }

    /// The Pad's own address, once a wire learns it.
    pub fn set_room_ip_if_unset(&mut self, ip: Ipv4Addr)
        requires
            old(self).wf(),
        ensures
            final(self).wf(),
            final(self)@ == (AgentView { peers: old(self)@.peers.room_ip_set(ip), ..old(self)@ }),
    {
        self.peers.set_room_ip_if_unset(ip);
    }

    /// Pins the address of a station that is seen outside of a session, or rejects a change.
    pub fn learn_address(&mut self, side: Side, ip: Ipv4Addr) -> (r: bool)
        requires
            old(self).wf(),
        ensures
            final(self).wf(),
            final(self)@ == old(self)@.judged(old(self)@.peers.address_seen(side, ip)),
            r == old(self)@.peers.address_seen(side, ip).accepted,
    {
        let verdict = self.peers.learn_address(side, ip);
        self.judge(verdict)
    }

    /// Pins the hardware address of a station on first sight, or rejects a change.
    pub fn pin_mac(&mut self, side: Side, mac: MacAddress) -> (r: bool)
        requires
            old(self).wf(),
        ensures
            final(self).wf(),
            final(self)@ == old(self)@.judged(old(self)@.peers.mac_seen(side, mac@)),
            r == old(self)@.peers.mac_seen(side, mac@).accepted,
    {
        let verdict = self.peers.pin_mac(side, mac);
        self.judge(verdict)
    }

    /// Holds the endpoints of a session against what is pinned.
    fn accept_endpoints(&mut self, endpoints: &Endpoints) -> (r: bool)
        requires
            old(self).ready(),
        ensures
            final(self).ready(),
            final(self)@ == old(self)@.judged(old(self)@.peers.endpoints_claimed(endpoints@)),
            r == old(self)@.peers.endpoints_claimed(endpoints@).accepted,
    {
        let verdict = self.peers.accept_endpoints(endpoints);
        self.judge(verdict)
    }

    /// Takes in one packet from the wire, already attributed to a side.
    pub fn on_wire(&mut self, side: Side, raw: &[u8], now_ms: u64, pts_us: u64) -> (r: WireOutcome)
        requires
            old(self).ready(),
        ensures
            final(self).wf(),
            final(self)@ == old(self)@.wired(side, raw@, now_ms, pts_us).agent,
            r@ == old(self)@.wired(side, raw@, now_ms, pts_us).outcome,
    {
        let message = match Message::parse(raw) {
            Ok(message) => message,
            Err(_) => return no_outcome(),
        };
        if message.family == FAMILY_BOOTSTRAP && message.opcode == OP_REQUEST {
            let reply = if side == Side::Door {
                match protocol::bootstrap_reply(&self.peers.room) {
                    Ok(reply) => Some(reply),
                    Err(_) => None,
                }
            } else {
                None
            };
            return WireOutcome {
                reply,
                call_ended: false,
                event: None,
                video: None,
                audio: None,
            };
        }
        let endpoints = match message.endpoints() {
            Some(endpoints) => endpoints,
            None => return no_outcome(),
        };
        if !self.accept_endpoints(&endpoints) {
            return no_outcome();
        }
        self.on_session_packet(side, &message, &endpoints, now_ms, pts_us)
    }

    /// Takes in the packets of one datagram, already attributed to a side, one after the other.
    pub fn on_payload(&mut self, side: Side, payload: &[u8], now_ms: u64, pts_us: u64) -> (r: Vec<
        WireOutcome,
    >)
        requires
            old(self).ready_for(payload@.len()),
        ensures
            final(self).wf(),
            final(self)@ == old(self)@.fed(side, protocol::pieces(payload@), now_ms, pts_us).0,
            outcome_views(r@) == old(self)@.fed(
                side,
                protocol::pieces(payload@),
                now_ms,
                pts_us,
            ).1,
    {
        let ghost start = self@;
        let ghost all = protocol::pieces(payload@);
        let pieces = protocol::split_coalesced(payload);
        let mut out: Vec<WireOutcome> = Vec::new();
        let mut i: usize = 0;
        proof {
            protocol::lemma_piece_count(payload@);
            assert(protocol::slices(pieces@).len() == pieces@.len());
            assert(all.take(0) =~= Seq::empty());
            assert(outcome_views(out@) =~= Seq::empty());
        }
        while i < pieces.len()
            invariant
                i <= pieces@.len() == all.len(),
                protocol::slices(pieces@) == all,
                all.len() <= payload@.len(),
                start.desk.log.next_seq + payload@.len() <= u64::MAX,
                self.wf(),
                self@.desk.log.next_seq <= start.desk.log.next_seq + i,
                self@ == start.fed(side, all.take(i as int), now_ms, pts_us).0,
                outcome_views(out@) == start.fed(side, all.take(i as int), now_ms, pts_us).1,
            decreases pieces@.len() - i,
        {
            let ghost before = outcome_views(out@);
            proof {
                assert(protocol::slices(pieces@)[i as int] == pieces@[i as int]@);
                assert(all.take(i + 1).drop_last() =~= all.take(i as int));
                assert(all.take(i + 1).last() == pieces@[i as int]@);
                lemma_one_event_at_most(self@, side, pieces@[i as int]@, now_ms, pts_us);
            }
            let outcome = self.on_wire(side, pieces[i], now_ms, pts_us);
            let ghost view = outcome@;
            out.push(outcome);
            assert(outcome_views(out@) =~= before.push(view));
            i = i + 1;
        }
        assert(all.take(i as int) =~= all);
        out
    }

    /// Takes in a session packet with accepted endpoints.
    fn on_session_packet(
        &mut self,
        side: Side,
        message: &Message<'_>,
        endpoints: &Endpoints,
        now_ms: u64,
        pts_us: u64,
    ) -> (r: WireOutcome)
        requires
            old(self).ready(),
        ensures
            final(self).wf(),
            final(self)@ == old(self)@.session_packet(
                side,
                message@,
                endpoints@,
                now_ms,
                pts_us,
            ).agent,
            r@ == old(self)@.session_packet(side, message@, endpoints@, now_ms, pts_us).outcome,
    {
        let mut out = no_outcome();
        let opcode: u32 = message.opcode;
        if opcode == OP_REQUEST && side == Side::Door {
            out.reply = match protocol::session_reply(endpoints) {
                Ok(reply) => Some(reply),
                Err(_) => None,
            };
            out.event = self.on_call_started(endpoints, now_ms);
        } else if opcode == OP_ANSWER && side == Side::Pad {
            out.event = self.desk.pad_answer(self.desk.session_id(), now_ms);
        } else if opcode == OP_UNLOCK && side == Side::Pad {
            out.event = self.desk.pad_unlock(self.desk.session_id(), now_ms);
        } else if opcode == OP_HANGUP {
            out.call_ended = self.desk.is_active();
            out.event = self.desk.end_call(self.desk.session_id(), "wire_hangup", now_ms);
        } else if opcode == OP_MEDIA && side == Side::Door {
            if let Some(fragment) = message.media() {
                return self.on_media(&fragment, pts_us);
            }
        }
        out
    }

    /// The door asks for a session.
    fn on_call_started(&mut self, endpoints: &Endpoints, now_ms: u64) -> (r: Option<Event>)
        requires
            old(self).ready(),
        ensures
            final(self).wf(),
            final(self)@ == old(self)@.session_requested(endpoints@, now_ms).agent,
            desk::event_view(r) == old(self)@.session_requested(
                endpoints@,
                now_ms,
            ).outcome.event,
    {
        if self.desk.is_active() {
            return None;
        }
        let id: u64 = self.next_session;
        self.next_session = state::count(id);
        Some(
            self.desk.start_call(
                id,
                endpoints.door.id.as_str(),
                endpoints.room.id.as_str(),
                now_ms,
            ),
        )
    }

    /// The door sends media.
    fn on_media(&mut self, fragment: &MediaFragment<'_>, pts_us: u64) -> (r: WireOutcome)
        requires
            old(self).wf(),
        ensures
            final(self).wf(),
            final(self)@ == old(self)@.media_arrives(fragment@, pts_us).agent,
            r@ == old(self)@.media_arrives(fragment@, pts_us).outcome,
    {
        let mut out = no_outcome();
        if fragment.media_type == MEDIA_AUDIO {
            let chunk = AudioChunk { pts_us, pcm: bytes::copy_of(fragment.data) };
            self.desk.push_audio(&chunk);
            out.audio = Some(chunk);
        } else if let Some(jpeg) = self.jpeg.push(fragment) {
            let frame = VideoFrame { pts_us, jpeg };
            self.desk.push_video(&frame);
            out.video = Some(frame);
        }
        out
    }

    /// The keepalive that a Pad sends while a call is active.
    pub fn keepalive(&self) -> (r: Option<Vec<u8>>)
        ensures
            blob_view(r) == (match self@.peers.endpoints() {
                Some(e) => if self@.desk.active() && e.fits() {
                    Some(protocol::control_bytes(OP_KEEPALIVE, e))
                } else {
                    None
                },
                None => None,
            }),
            blob_view(r) == self@.keepalive_bytes(),
    {
        if !self.desk.is_active() {
            return None;
        }
        match self.peers.endpoints() {
            Some(endpoints) => match protocol::session_control(OP_KEEPALIVE, &endpoints) {
                Ok(packet) => Some(packet),
                Err(_) => None,
            },
            None => None,
        }
    }

    /// Takes up a command: it is answered at once, or a packet is to be sent to the door first.
    pub fn begin_command(
        &mut self,
        action: CallAction,
        command_id: &str,
        now: Instant,
        now_ms: u64,
    ) -> (r: CommandStep)
        requires
            old(self).wf(),
        ensures
            final(self).wf(),
            final(self)@ == old(self)@.command_begun(action, command_id@, now, now_ms),
            r@ == old(self)@.command_step(action, command_id@, now),
    {
        if let Some(result) = self.desk.replayed(command_id) {
            return CommandStep::Done(result);
        }
        let built = match self.peers.endpoints() {
            Some(endpoints) => self.desk.prepare(action, &endpoints, now, now_ms),
            None => Err(CallError::NoCall),
        };
        match built {
            Ok(prepared) => CommandStep::Send { report: prepared.report, packet: prepared.packet },
            Err(error) => {
                let result = CommandResult::rejected(command_id, error);
                self.desk.settle(&result);
                CommandStep::Done(result)
            },
        }
    }

    /// Closes a command once its packet has been sent, or could not be.
    pub fn finish_command(&mut self, command_id: &str, report: EventKind, sent: bool, now_ms: u64)
        -> (r: (CommandResult, Option<Event>))
        requires
            old(self).ready(),
        ensures
            final(self).wf(),
            final(self)@ == old(self)@.with_desk(
                desk::concluded(old(self)@.desk, command_id@, report@, sent, now_ms),
            ),
            r.0@ == desk::conclusion(command_id@, sent),
            desk::event_view(r.1) == (if sent {
                Some(old(self)@.desk.next_event(now_ms, report@))
            } else {
                None
            }),
    {
        self.desk.conclude(command_id, report, sent, now_ms)
    }

    /// The state of the call as a backend sees it.
    pub fn state(&self, uptime_ms: u64) -> (r: CallState)
        ensures
            r@ == desk::public_state(
                self@.desk,
                match self@.peers.door {
                    Some(door) => Some(door.id),
                    None => None,
                },
                Some(self@.peers.room.id),
                self@.id(),
                uptime_ms,
            ),
    {
        let door_id = match &self.peers.door {
            Some(door) => Some(door.id.clone()),
            None => None,
        };
        self.desk.call_state(
            door_id,
            Some(self.peers.room.id.clone()),
            self.agent_id(),
            uptime_ms,
        )
    }

    /// The events behind number `after_seq`.
    pub fn recent(&self, after_seq: u64) -> (r: Option<Vec<Event>>)
        requires
            self.wf(),
        ensures
            match r {
                Some(events) => self@.desk.log.since(after_seq) == Some(
                    agent_api::event_views(events@),
                ),
                None => self@.desk.log.since(after_seq) is None,
            },
    {
        self.desk.recent(after_seq)
    }

    /// The latest frame.
    pub fn snapshot(&self) -> (r: Option<VideoFrame>)
        ensures
            desk::frame_view(r) == self@.desk.latest,
    {
        self.desk.snapshot()
    }

    /// The buffered media later than `since_us`.
    pub fn history(&self, since_us: u64) -> (r: MediaHistory)
        ensures
            r.video@.map_values(|f: VideoFrame| f@) == agent_api::later(
                self@.desk.ring.video,
                since_us,
            ),
            r.audio@.map_values(|a: AudioChunk| a@) == agent_api::later(
                self@.desk.ring.audio,
                since_us,
            ),
    {
        self.desk.history(since_us)
    }

    /// The media that a backend can have.
    pub fn media_info(&self) -> (r: MediaInfo)
        ensures
            desk::is_media_info(r, self@.desk.machine.remote_connected(), self@.desk.ring),
    {
        self.desk.media_info(self.desk.talk_allowed())
    }

    /// Whom the remote side talks to, where it may talk.
    pub fn talk_endpoints(&self) -> (r: Result<Endpoints, CallError>)
        ensures
            match r {
                Ok(e) => self@.desk.machine.remote_connected() && self@.peers.endpoints() == Some(e@),
                Err(error) => if self@.desk.machine.remote_connected() {
                    self@.peers.endpoints() is None && error == CallError::AgentOffline
                } else {
                    error == CallError::UnlockNotAllowed
                },
            },
            (match r {
                Ok(_) => None,
                Err(error) => Some(error),
            }) == self@.talk_refusal(),
    {
        if !self.desk.talk_allowed() {
            return Err(CallError::UnlockNotAllowed);
        }
        match self.peers.endpoints() {
            Some(endpoints) => Ok(endpoints),
            None => Err(CallError::AgentOffline),
        }
    }

    /// The packet of one frame of talk; each gets the next sequence number.
    pub fn talk_packet(&mut self, frame: &[u8], endpoints: &Endpoints) -> (r: Result<
        Vec<u8>,
        CallError,
    >)
        requires
            old(self).wf(),
        ensures
            final(self).wf(),
            final(self)@ == (AgentView {
                audio_seq: counted32(old(self)@.audio_seq),
                ..old(self)@
            }),
            match r {
                Ok(packet) => frame@.len() == 512 && endpoints@.fits() && packet@
                    == protocol::audio_bytes(
                    (old(self)@.audio_seq % 0x1_0000) as u16,
                    frame@,
                    endpoints@,
                ),
                Err(e) => !(frame@.len() == 512 && endpoints@.fits()) && e
                    == CallError::AgentOffline,
            },
            final(self)@ == after_step(old(self)@, AgentStep::Talk),
            (match r {
                Ok(packet) => Some(packet@),
                Err(_) => None,
            }) == old(self)@.talk_bytes(frame@, endpoints@),
    {
        let sequence: u16 = (self.audio_seq % 0x1_0000) as u16;
        self.audio_seq = count32(self.audio_seq);
        match protocol::audio_packet(sequence, frame, endpoints) {
            Ok(packet) => Ok(packet),
            Err(_) => Err(CallError::AgentOffline),
        }
    }
}

/// The frames of what the remote side says: 512 bytes each, the last one padded with silence.
pub fn talk_frames(pcm: &[u8]) -> (r: Vec<Vec<u8>>)
    ensures
        media::blob_views(r@) == media::pcm_split(pcm@),
{
    media::pcm_frames(pcm)
}

/// Whether the mismatch after `n` earlier ones is worth a line in the log: the first five are,
/// then every hundredth.
pub fn worth_warning(n: u32) -> (r: bool)
    ensures
        r == (n < 5 || n % 100 == 0),
{
    n < 5 || n % 100 == 0
}

/// Whatever packet comes in, what is pinned stays pinned: the identity of the Pad, and every
/// address and hardware address that is known.
pub proof fn law_wire_keeps_pins(a: AgentView, side: Side, raw: Seq<u8>, now_ms: u64, pts_us: u64)
    ensures
        ({
            let p = a.peers;
            let q = a.wired(side, raw, now_ms, pts_us).agent.peers;
            &&& q.room.id == p.room.id
            &&& !p.room.ip.unspecified() ==> q.room.ip == p.room.ip
            &&& p.door is Some && p.door->0.id.len() > 0 ==> q.door is Some && q.door->0.id
                == p.door->0.id
            &&& p.door is Some && !p.door->0.ip.unspecified() ==> q.door->0.ip == p.door->0.ip
            &&& q.door_mac == p.door_mac
            &&& q.pad_mac == p.pad_mac
        }),
{
}

/// A packet that names another room changes nothing and is not answered.
pub proof fn law_other_households_are_ignored(
    a: AgentView,
    side: Side,
    raw: Seq<u8>,
    now_ms: u64,
    pts_us: u64,
)
    requires
        protocol::parsed_message(raw) is Ok,
        protocol::parsed_message(raw)->Ok_0.endpoints() is Some,
        protocol::parsed_message(raw)->Ok_0.endpoints()->0.room.id != a.peers.room.id,
    ensures
        a.wired(side, raw, now_ms, pts_us) == a.unmoved(),
{
}

/// A door that asks for the session again while the call is active gets its reply again, but no
/// second call.
pub proof fn law_repeated_ring_starts_one_call(a: AgentView, e: EndpointsView, now_ms: u64, later_ms: u64)
    ensures
        ({
            let rung = a.session_requested(e, now_ms).agent;
            &&& rung.desk.active()
            &&& rung.session_requested(e, later_ms).agent == rung
            &&& rung.session_requested(e, later_ms).outcome.event is None
            &&& rung.session_requested(e, later_ms).outcome.reply == a.session_requested(
                e,
                now_ms,
            ).outcome.reply
        }),
{
}

/// Once the remote side has claimed a call, a late answer of the Pad changes nothing.
pub proof fn law_late_pad_answer_is_ignored(a: AgentView, now_ms: u64)
    requires
        a.desk.machine.remote_connected(),
    ensures
        a.pad_answers(now_ms) == a.unmoved(),
{
}

/// What can happen to an Agent.
pub enum AgentStep {
    RoomIp(Ipv4Addr),
    Address(Side, Ipv4Addr),
    Mac(Side, Seq<u8>),
    Packet { side: Side, raw: Seq<u8>, now_ms: u64, pts_us: u64 },
    Talk,
    Begin { action: CallAction, id: Seq<char>, now: Instant, now_ms: u64 },
    Finish { id: Seq<char>, report: KindView, sent: bool, now_ms: u64 },
}

/// The Agent once this has happened.
pub open spec fn after_step(a: AgentView, step: AgentStep) -> AgentView {
    match step {
        AgentStep::RoomIp(ip) => AgentView { peers: a.peers.room_ip_set(ip), ..a },
        AgentStep::Address(side, ip) => a.judged(a.peers.address_seen(side, ip)),
        AgentStep::Mac(side, mac) => a.judged(a.peers.mac_seen(side, mac)),
        AgentStep::Packet { side, raw, now_ms, pts_us } => a.wired(side, raw, now_ms, pts_us).agent,
        AgentStep::Talk => AgentView { audio_seq: counted32(a.audio_seq), ..a },
        AgentStep::Begin { action, id, now, now_ms } => a.command_begun(action, id, now, now_ms),
        AgentStep::Finish { id, report, sent, now_ms } => a.with_desk(
            desk::concluded(a.desk, id, report, sent, now_ms),
        ),
    }
}

/// The Agent once all of this has happened.
pub open spec fn after_steps(a: AgentView, steps: Seq<AgentStep>) -> AgentView
    decreases steps.len(),
{
    if steps.len() == 0 {
        a
    } else {
        after_step(after_steps(a, steps.drop_last()), steps.last())
    }
}

/// The result of a command that is kept at this step, if any.
pub open spec fn kept_by(a: AgentView, step: AgentStep) -> Option<ResultView> {
    match step {
        AgentStep::Begin { action, id, now, now_ms } => if a.desk.cache.lookup(id) is Some {
            None
        } else {
            match a.command_step(action, id, now) {
                StepView::Done(result) => Some(result),
                StepView::Send { .. } => None,
            }
        },
        AgentStep::Finish { id, report, sent, now_ms } => Some(desk::conclusion(id, sent)),
        _ => None,
    }
}

/// The results of commands that are kept at these steps.
pub open spec fn kept_results(a: AgentView, steps: Seq<AgentStep>) -> Seq<ResultView>
    decreases steps.len(),
{
    if steps.len() == 0 {
        Seq::empty()
    } else {
        let before = kept_results(a, steps.drop_last());
        match kept_by(after_steps(a, steps.drop_last()), steps.last()) {
            Some(result) => before.push(result),
            None => before,
        }
    }
}

proof fn lemma_step_keeps(a: AgentView, step: AgentStep)
    ensures
        after_step(a, step).desk.cache == (match kept_by(a, step) {
            Some(result) => a.desk.cache.with_result(result),
            None => a.desk.cache,
        }),
{
}

/// Whether a step closes the command with this id.
pub open spec fn closes(step: AgentStep, id: Seq<char>) -> bool {
    match step {
        AgentStep::Finish { id: other, .. } => other == id,
        _ => false,
    }
}

proof fn lemma_others_are_kept(a: AgentView, id: Seq<char>, result: ResultView, steps: Seq<AgentStep>)
    requires
        a.desk.cache.coherent(),
        a.desk.cache.bounded(),
        !a.desk.cache.results.contains_key(id),
        result.command_id == id,
        forall|i: int| 0 <= i < steps.len() ==> !closes(#[trigger] steps[i], id),
        kept_results(a.with_desk(a.desk.settled(result)), steps).len() < a.desk.cache.capacity,
    ensures
        ({
            let done = a.with_desk(a.desk.settled(result));
            let others = kept_results(done, steps);
            &&& after_steps(done, steps).desk.cache == agent_api::stored(done.desk.cache, others)
            &&& forall|i: int| 0 <= i < others.len() ==> (#[trigger] others[i]).command_id != id
            &&& after_steps(done, steps).desk.cache.lookup(id) == Some(result.again())
        }),
    decreases steps.len(),
{
    let done = a.with_desk(a.desk.settled(result));
    let others = kept_results(done, steps);
    if steps.len() > 0 {
        let init = steps.drop_last();
        assert forall|i: int| 0 <= i < init.len() implies !closes(#[trigger] init[i], id) by {
            assert(!closes(steps[i], id));
        }
        assert(!closes(steps[steps.len() - 1], id));
        lemma_others_are_kept(a, id, result, init);
        let before = after_steps(done, init);
        lemma_step_keeps(before, steps.last());
        match kept_by(before, steps.last()) {
            Some(kept) => {
                assert(kept.command_id != id);
                assert(others.drop_last() =~= kept_results(done, init));
                assert(others.last() == kept);
                assert forall|i: int| 0 <= i < others.len() implies (
                #[trigger] others[i]).command_id != id by {
                    if i < others.len() - 1 {
                        assert(kept_results(done, init)[i].command_id != id);
                    }
                }
            },
            None => {},
        }
    }
    agent_api::law_result_outlives_others(a.desk.cache, result, others);
}

/// A command that was carried out is answered from the cache when it is sent again, without a
/// packet and without a change, whatever has happened in between: as long as the results of other
/// commands that have been kept since are fewer than the cache has room for.
pub proof fn law_repeated_command_sends_nothing(
    a: AgentView,
    id: Seq<char>,
    report: KindView,
    sent: bool,
    now_ms: u64,
    steps: Seq<AgentStep>,
    again: CallAction,
    later: Instant,
    later_ms: u64,
)
    requires
        a.desk.cache.coherent(),
        a.desk.cache.bounded(),
        a.desk.cache.lookup(id) is None,
        forall|i: int| 0 <= i < steps.len() ==> !closes(#[trigger] steps[i], id),
        kept_results(
            a.with_desk(desk::concluded(a.desk, id, report, sent, now_ms)),
            steps,
        ).len() < a.desk.cache.capacity,
    ensures
        ({
            let done = a.with_desk(desk::concluded(a.desk, id, report, sent, now_ms));
            let b = after_steps(done, steps);
            &&& b.command_step(again, id, later) == StepView::Done(
                desk::conclusion(id, sent).again(),
            )
            &&& b.command_begun(again, id, later, later_ms) == b
        }),
{
    let reported = if sent {
        a.with_desk(a.desk.reported(now_ms, report))
    } else {
        a
    };
    lemma_others_are_kept(reported, id, desk::conclusion(id, sent), steps);
}

/// A command that was refused is refused again in the same words, without a packet and without a
/// change, even where it would be accepted by then, and whatever has happened in between: as long
/// as the results of other commands that have been kept since are fewer than the cache has room
/// for.
pub proof fn law_refused_command_stays_refused(
    a: AgentView,
    action: CallAction,
    id: Seq<char>,
    now: Instant,
    now_ms: u64,
    steps: Seq<AgentStep>,
    again: CallAction,
    later: Instant,
    later_ms: u64,
)
    requires
        a.desk.cache.coherent(),
        a.desk.cache.bounded(),
        a.desk.cache.lookup(id) is None,
        a.command_step(action, id, now) is Done,
        forall|i: int| 0 <= i < steps.len() ==> !closes(#[trigger] steps[i], id),
        kept_results(a.command_begun(action, id, now, now_ms), steps).len()
            < a.desk.cache.capacity,
    ensures
        ({
            let b = after_steps(a.command_begun(action, id, now, now_ms), steps);
            &&& b.command_step(again, id, later) == StepView::Done(
                a.command_step(action, id, now)->Done_0.again(),
            )
            &&& b.command_begun(again, id, later, later_ms) == b
        }),
{
    let result = a.command_step(action, id, now)->Done_0;
    let prepared = match a.peers.endpoints() {
        Some(_) => a.with_desk(desk::after_preparation(a.desk, action, now, now_ms)),
        None => a,
    };
    lemma_others_are_kept(prepared, id, result, steps);
}

/// Once the physical Pad has answered, a remote claim is refused and sends nothing.
pub proof fn law_pad_answer_bars_claim(
    a: AgentView,
    id: Seq<char>,
    now_ms: u64,
    now: Instant,
)
    requires
        a.desk.machine.pad_refusal() is None,
        a.desk.cache.lookup(id) is None,
        a.peers.endpoints() is Some,
    ensures
        a.pad_answers(now_ms).agent.command_step(CallAction::Claim, id, now) == StepView::Done(
            ResultView::refused(id, CallError::NotRinging),
        ),
{
}

/// A packet from the door that asks for a session with this room starts a call where none is
/// active, and is answered.
pub proof fn law_ring_starts_call(
    a: AgentView,
    e: EndpointsView,
    capabilities: Seq<u8>,
    now_ms: u64,
    pts_us: u64,
)
    requires
        e.fits(),
        e.door.nul_free(),
        e.room.nul_free(),
        a.peers.endpoints_claimed(e).accepted,
        !a.desk.active(),
    ensures
        ({
            let r = a.wired(
                Side::Door,
                protocol::request_bytes(FAMILY_SESSION, e.packed() + capabilities),
                now_ms,
                pts_us,
            );
            &&& r.agent.desk.active()
            &&& r.outcome.reply == Some(protocol::reply_bytes(e))
            &&& r.outcome.event == Some(
                a.desk.next_event(
                    now_ms,
                    desk::started_kind(a.next_session, e.door.id, e.room.id),
                ),
            )
        }),
{
    protocol::law_session_request_round_trip(e, capabilities);
}

/// Once the endpoints of a session are accepted, they are accepted again and teach nothing new.
proof fn lemma_accepted_again(p: PeersView, e: EndpointsView)
    requires
        p.endpoints_claimed(e).accepted,
    ensures
        p.endpoints_claimed(e).peers.endpoints_claimed(e) == p.endpoints_claimed(e).peers.yes(),
{
}

/// Whether a packet is a session packet with this opcode whose endpoints the Agent accepts.
pub open spec fn is_accepted(a: AgentView, raw: Seq<u8>, opcode: u32, e: EndpointsView) -> bool {
    &&& protocol::parsed_message(raw) is Ok
    &&& protocol::parsed_message(raw)->Ok_0.family == 0x00b7
    &&& protocol::parsed_message(raw)->Ok_0.opcode == opcode
    &&& protocol::parsed_message(raw)->Ok_0.endpoints() == Some(e)
    &&& a.peers.endpoints_claimed(e).accepted
}

/// Whether nothing but the stations differs.
pub open spec fn same_but_peers(b: AgentView, a: AgentView) -> bool {
    &&& b.mode == a.mode
    &&& b.next_session == a.next_session
    &&& b.jpeg == a.jpeg
    &&& b.audio_seq == a.audio_seq
    &&& b.mismatches == a.mismatches
}

/// A hangup on the wire, from either side, ends the call whoever owns it: the call is idle and
/// without an owner, and where there was one, the Pad is let go and the end is reported under the
/// session of the call.
pub proof fn law_wire_hangup_ends_call(
    a: AgentView,
    side: Side,
    raw: Seq<u8>,
    e: EndpointsView,
    now_ms: u64,
    pts_us: u64,
)
    requires
        is_accepted(a, raw, 0x1e, e),
    ensures
        ({
            let r = a.wired(side, raw, now_ms, pts_us);
            let was_active = a.desk.machine.state.phase != CallPhase::Idle;
            let kind = KindView::CallEnded {
                session_id: text::decimal(a.desk.machine.state.session_id as nat),
                reason: "wire_hangup"@,
            };
            &&& r.agent.desk.machine.state.phase == CallPhase::Idle
            &&& r.agent.desk.machine.state.owner == Owner::Nobody
            &&& r.agent.desk.since_ms == Some(now_ms)
            &&& r.outcome.call_ended == was_active
            &&& was_active ==> r.outcome.event == Some(
                EventView { seq: a.desk.log.next_seq, at_ms: now_ms, kind },
            ) && r.agent.desk.log == a.desk.log.with_event(now_ms, kind)
            &&& !was_active ==> r.outcome.event is None && r.agent.desk.log == a.desk.log
            &&& r.outcome.reply is None && r.outcome.video is None && r.outcome.audio is None
            &&& r.agent.peers == a.peers.endpoints_claimed(e).peers
            &&& same_but_peers(r.agent, a)
            &&& r.agent.desk.cache == a.desk.cache
            &&& r.agent.desk.ring == a.desk.ring
            &&& r.agent.desk.latest == a.desk.latest
        }),
{
}

/// An answer of the Pad connects a call that rings and makes it the Pad's; where no call rings, or
/// where it does not come from the Pad, it changes nothing.
pub proof fn law_pad_answer_connects(
    a: AgentView,
    side: Side,
    raw: Seq<u8>,
    e: EndpointsView,
    now_ms: u64,
    pts_us: u64,
)
    requires
        is_accepted(a, raw, 0x05, e),
    ensures
        ({
            let r = a.wired(side, raw, now_ms, pts_us);
            let s = a.desk.machine.state;
            let counts = side == Side::Pad && s.phase == CallPhase::Ringing && s.owner
                != Owner::Remote;
            let kind = KindView::PadAnswered { session_id: text::decimal(s.session_id as nat) };
            &&& counts ==> {
                &&& r.agent.desk.machine.state.phase == CallPhase::Connected
                &&& r.agent.desk.machine.state.owner == Owner::Pad
                &&& r.agent.desk.machine.state.session_id == s.session_id
                &&& r.agent.desk.since_ms == Some(now_ms)
                &&& r.outcome.event == Some(
                    EventView { seq: a.desk.log.next_seq, at_ms: now_ms, kind },
                )
                &&& r.agent.desk.log == a.desk.log.with_event(now_ms, kind)
            }
            &&& !counts ==> r.agent.desk == a.desk && r.outcome.event is None
            &&& !r.outcome.call_ended && r.outcome.reply is None
            &&& r.outcome.video is None && r.outcome.audio is None
            &&& r.agent.peers == a.peers.endpoints_claimed(e).peers
            &&& same_but_peers(r.agent, a)
        }),
{
}

/// The Pad that opens the door of its own call is reported to have done so; nothing else changes,
/// and nobody else is reported.
pub proof fn law_pad_unlock_is_reported(
    a: AgentView,
    side: Side,
    raw: Seq<u8>,
    e: EndpointsView,
    now_ms: u64,
    pts_us: u64,
)
    requires
        is_accepted(a, raw, 0x06, e),
    ensures
        ({
            let r = a.wired(side, raw, now_ms, pts_us);
            let s = a.desk.machine.state;
            let counts = side == Side::Pad && s.owner == Owner::Pad;
            let kind = KindView::Unlocked {
                session_id: text::decimal(s.session_id as nat),
                by: Owner::Pad,
            };
            &&& counts ==> r.outcome.event == Some(
                EventView { seq: a.desk.log.next_seq, at_ms: now_ms, kind },
            ) && r.agent.desk.log == a.desk.log.with_event(now_ms, kind)
            &&& !counts ==> r.outcome.event is None && r.agent.desk.log == a.desk.log
            &&& r.agent.desk.machine == a.desk.machine
            &&& r.agent.desk.since_ms == a.desk.since_ms
            &&& r.agent.desk.cache == a.desk.cache
            &&& r.agent.desk.ring == a.desk.ring
            &&& r.agent.desk.latest == a.desk.latest
            &&& !r.outcome.call_ended && r.outcome.reply is None
            &&& r.outcome.video is None && r.outcome.audio is None
            &&& r.agent.peers == a.peers.endpoints_claimed(e).peers
            &&& same_but_peers(r.agent, a)
        }),
{
}

/// A session request of the door is answered with the capability reply to its own endpoints. Where
/// no call is active it starts one under the next number, which is then used up; where one is
/// active, or where it comes from the Pad, the call stays as it is.
pub proof fn law_session_request_rings(
    a: AgentView,
    side: Side,
    raw: Seq<u8>,
    e: EndpointsView,
    now_ms: u64,
    pts_us: u64,
)
    requires
        is_accepted(a, raw, 0x01, e),
        e.fits(),
    ensures
        ({
            let r = a.wired(side, raw, now_ms, pts_us);
            let starts = side == Side::Door && a.desk.machine.state.phase == CallPhase::Idle;
            let kind = KindView::CallStarted {
                session_id: text::decimal(a.next_session as nat),
                door_id: e.door.id,
                room_id: e.room.id,
            };
            &&& starts ==> {
                &&& r.agent.desk.machine.state.phase == CallPhase::Ringing
                &&& r.agent.desk.machine.state.owner == Owner::Nobody
                &&& r.agent.desk.machine.state.session_id == a.next_session
                &&& r.agent.next_session as int == (a.next_session + 1)
                    % 0x1_0000_0000_0000_0000
                &&& r.agent.desk.since_ms == Some(now_ms)
                &&& r.outcome.event == Some(
                    EventView { seq: a.desk.log.next_seq, at_ms: now_ms, kind },
                )
                &&& r.agent.desk.log == a.desk.log.with_event(now_ms, kind)
            }
            &&& !starts ==> r.agent.desk == a.desk && r.agent.next_session == a.next_session
                && r.outcome.event is None
            &&& side == Side::Door ==> r.outcome.reply == Some(protocol::reply_bytes(e))
            &&& side == Side::Pad ==> r.outcome.reply is None
            &&& !r.outcome.call_ended && r.outcome.video is None && r.outcome.audio is None
            &&& r.agent.peers == a.peers.endpoints_claimed(e).peers
            &&& r.agent.mismatches == a.mismatches && r.agent.jpeg == a.jpeg
            &&& r.agent.desk.cache == a.desk.cache
            &&& r.agent.desk.ring == a.desk.ring
            &&& r.agent.desk.latest == a.desk.latest
        }),
{
}

/// The door's sound is handed on as it came, at its time, and goes into the pre-roll; the call
/// stays as it is. Media that does not come from the door changes nothing.
pub proof fn law_door_sound_is_handed_on(
    a: AgentView,
    side: Side,
    sequence: u16,
    pcm: Seq<u8>,
    e: EndpointsView,
    now_ms: u64,
    pts_us: u64,
)
    requires
        e.fits(),
        e.door.nul_free(),
        e.room.nul_free(),
        pcm.len() == 512,
        a.peers.endpoints_claimed(e).accepted,
    ensures
        ({
            let r = a.wired(side, protocol::audio_bytes(sequence, pcm, e), now_ms, pts_us);
            let chunk = MediaView { pts_us, data: pcm };
            &&& side == Side::Door ==> r.outcome.audio == Some(chunk) && r.agent.desk.ring
                == a.desk.ring.with_audio(chunk)
            &&& side == Side::Pad ==> r.outcome.audio is None && r.agent.desk.ring == a.desk.ring
            &&& r.outcome.video is None && r.outcome.event is None && r.outcome.reply is None
            &&& !r.outcome.call_ended
            &&& r.agent.desk.machine == a.desk.machine
            &&& r.agent.desk.log == a.desk.log
            &&& r.agent.desk.cache == a.desk.cache
            &&& r.agent.desk.latest == a.desk.latest
            &&& r.agent.desk.since_ms == a.desk.since_ms
            &&& same_but_peers(r.agent, a)
        }),
{
    protocol::law_audio_packet_names_its_stations(sequence, pcm, e);
}

/// The packets of a frame that the door shows, in this order.
pub open spec fn shown_packets(sequence: u16, frame: Seq<u8>, e: EndpointsView, order: Seq<int>) -> Seq<
    Seq<u8>,
> {
    Seq::new(order.len(), |i: int| protocol::jpeg_bytes(sequence, frame, order[i], e))
}

proof fn lemma_fragments_are_kept(
    a: AgentView,
    sequence: u16,
    frame: Seq<u8>,
    e: EndpointsView,
    order: Seq<int>,
    fs: Seq<FragmentView>,
    now_ms: u64,
    pts_us: u64,
)
    requires
        e.fits(),
        e.door.nul_free(),
        e.room.nul_free(),
        frame.len() <= 65535 * 1200,
        a.peers.endpoints_claimed(e).accepted,
        forall|i: int|
            0 <= i < order.len() ==> 1 <= #[trigger] order[i] && (order[i] - 1) * 1200
                < frame.len(),
        fs.len() == order.len(),
        forall|i: int|
            0 <= i < fs.len() ==> Some(#[trigger] fs[i]) == protocol::fragment_of(
                sequence,
                frame,
                order[i],
                e,
            ),
    ensures
        ({
            let b = a.fed(
                Side::Door,
                shown_packets(sequence, frame, e, order),
                now_ms,
                pts_us,
            );
            &&& b.0.jpeg == protocol::frames_run(a.jpeg, fs)
            &&& b.0.peers.endpoints_claimed(e).accepted
            &&& b.0.desk.machine == a.desk.machine
            &&& b.0.desk.log == a.desk.log
            &&& b.0.desk.cache == a.desk.cache
            &&& b.1.len() == order.len()
        }),
    decreases order.len(),
{
    let packets = shown_packets(sequence, frame, e, order);
    if order.len() > 0 {
        let init = order.drop_last();
        assert(packets.drop_last() =~= shown_packets(sequence, frame, e, init));
        assert forall|i: int| 0 <= i < init.len() implies 1 <= #[trigger] init[i] && (init[i] - 1)
            * 1200 < frame.len() by {
            assert(order[i] >= 1);
        }
        assert forall|i: int| 0 <= i < fs.drop_last().len() implies Some(
            #[trigger] fs.drop_last()[i],
        ) == protocol::fragment_of(sequence, frame, init[i], e) by {
            assert(fs[i] == fs.drop_last()[i]);
        }
        lemma_fragments_are_kept(
            a,
            sequence,
            frame,
            e,
            init,
            fs.drop_last(),
            now_ms,
            pts_us,
        );
        let before = a.fed(
            Side::Door,
            shown_packets(sequence, frame, e, init),
            now_ms,
            pts_us,
        ).0;
        let last = order[order.len() - 1];
        protocol::law_jpeg_packet_carries_its_part(sequence, frame, last, e);
        assert(packets.last() == protocol::jpeg_bytes(sequence, frame, last, e));
        assert(fs[fs.len() - 1] == fs.last());
        lemma_accepted_again(before.peers, e);
    }
}

/// A frame that the door shows is handed on byte for byte once its last packet has come, in
/// whatever order they came, at the time of that packet; it is the latest frame from then on. The
/// call, its events and the results of commands stay as they are.
pub proof fn law_door_frames_are_handed_on(
    a: AgentView,
    sequence: u16,
    frame: Seq<u8>,
    e: EndpointsView,
    order: Seq<int>,
    now_ms: u64,
    pts_us: u64,
)
    requires
        e.fits(),
        e.door.nul_free(),
        e.room.nul_free(),
        a.peers.endpoints_claimed(e).accepted,
        protocol::is_jpeg(frame),
        frame.len() <= 65535 * 1200,
        forall|i: int| 0 <= i < a.jpeg.len() ==> (#[trigger] a.jpeg[i]).sequence != sequence,
        order.len() == (frame.len() + 1199) / 1200,
        forall|i: int| 0 <= i < order.len() ==> 1 <= #[trigger] order[i] <= order.len(),
        forall|i: int, j: int|
            0 <= i < j < order.len() ==> #[trigger] order[i] != #[trigger] order[j],
    ensures
        ({
            let b = a.fed(
                Side::Door,
                shown_packets(sequence, frame, e, order),
                now_ms,
                pts_us,
            );
            let shown = MediaView { pts_us, data: frame };
            &&& b.1.len() == order.len()
            &&& b.1.last().video == Some(shown)
            &&& b.0.desk.latest == Some(shown)
            &&& b.0.desk.machine == a.desk.machine
            &&& b.0.desk.log == a.desk.log
            &&& b.0.desk.cache == a.desk.cache
        }),
{
    let fs = Seq::new(
        order.len(),
        |i: int| protocol::fragment_of(sequence, frame, order[i], e)->0,
    );
    assert forall|i: int| 0 <= i < fs.len() implies Some(#[trigger] fs[i])
        == protocol::fragment_of(sequence, frame, order[i], e) by {
        let n = order[i];
        assert((n - 1) * 1200 < frame.len());
        protocol::law_jpeg_packet_carries_its_part(sequence, frame, n, e);
    }
    assert forall|i: int| 0 <= i < order.len() implies 1 <= #[trigger] order[i] && (order[i] - 1)
        * 1200 < frame.len() by {}
    protocol::law_jpeg_round_trip(a.jpeg, sequence, frame, e, order, fs);
    lemma_fragments_are_kept(a, sequence, frame, e, order, fs, now_ms, pts_us);
    let packets = shown_packets(sequence, frame, e, order);
    let init = order.drop_last();
    assert(packets.drop_last() =~= shown_packets(sequence, frame, e, init));
    assert forall|i: int| 0 <= i < init.len() implies 1 <= #[trigger] init[i] && (init[i] - 1)
        * 1200 < frame.len() by {
        assert(order[i] >= 1);
    }
    assert forall|i: int| 0 <= i < fs.drop_last().len() implies Some(
        #[trigger] fs.drop_last()[i],
    ) == protocol::fragment_of(sequence, frame, init[i], e) by {
        assert(fs[i] == fs.drop_last()[i]);
    }
    lemma_fragments_are_kept(a, sequence, frame, e, init, fs.drop_last(), now_ms, pts_us);
    let last = order[order.len() - 1];
    protocol::law_jpeg_packet_carries_its_part(sequence, frame, last, e);
    assert(packets.last() == protocol::jpeg_bytes(sequence, frame, last, e));
    assert(fs[fs.len() - 1] == fs.last());
}

/// A session packet with any other opcode, a packet of another family, and what is no packet
/// change nothing of the call and are not answered; but a door that asks for the bootstrap gets
/// it, from the Pad's own station.
pub proof fn law_other_packets_are_ignored(
    a: AgentView,
    side: Side,
    raw: Seq<u8>,
    now_ms: u64,
    pts_us: u64,
)
    ensures
        ({
            let r = a.wired(side, raw, now_ms, pts_us);
            let parsed = protocol::parsed_message(raw);
            let m = parsed->Ok_0;
            let session = parsed is Ok && m.family == 0x00b7;
            let boots = parsed is Ok && m.family == 0x0098 && m.opcode == 0x01;
            let known = m.opcode == 0x01 || m.opcode == 0x05 || m.opcode == 0x06 || m.opcode
                == 0x0a || m.opcode == 0x1e;
            &&& !session ==> r.agent == a && !r.outcome.call_ended && r.outcome.event is None
                && r.outcome.video is None && r.outcome.audio is None
            &&& !session && !boots ==> r.outcome.reply is None
            &&& boots && side == Side::Door && a.peers.room.fits() ==> r.outcome.reply == Some(
                protocol::bootstrap_bytes(a.peers.room),
            )
            &&& boots && side == Side::Pad ==> r.outcome.reply is None
            &&& session && !known ==> r.agent.desk == a.desk && r.outcome == nothing()
        }),
{
}

/// Packets of one datagram are taken in one after the other, each by the Agent that the one before
/// left behind, and each has its own outcome.
#[verifier::rlimit(60)]
pub proof fn law_packets_are_taken_in_order(
    a: AgentView,
    side: Side,
    packets: Seq<Seq<u8>>,
    next: Seq<u8>,
    now_ms: u64,
    pts_us: u64,
)
    ensures
        ({
            let before = a.fed(side, packets, now_ms, pts_us);
            let after = a.fed(side, packets.push(next), now_ms, pts_us);
            let r = before.0.wired(side, next, now_ms, pts_us);
            &&& after.0 == r.agent
            &&& after.1 == before.1.push(r.outcome)
        }),
        a.fed(side, Seq::empty(), now_ms, pts_us) == (a, Seq::<OutcomeView>::empty()),
{
    assert(packets.push(next).drop_last() =~= packets);
}

/// When a command is sent to the door, and what is sent: it needs a door that is known and a call
/// that allows it. The packet is a session packet between the pinned stations that tells the door
/// of an answer, an opening or a hangup, and the report names the same action. Otherwise the
/// command is refused for that reason.
pub proof fn law_commands_tell_the_door(a: AgentView, action: CallAction, id: Seq<char>, now: Instant)
    requires
        a.desk.cache.lookup(id) is None,
    ensures
        ({
            let step = a.command_step(action, id, now);
            let refused = |error: CallError| StepView::Done(
                ResultView { command_id: id, ok: false, error: Some(error), replayed: false },
            );
            let allowed = a.desk.refusal(action, now) is None;
            &&& a.peers.door is None ==> step == refused(CallError::NoCall)
            &&& a.peers.door matches Some(door) ==> {
                let e = EndpointsView { door, room: a.peers.room };
                &&& !allowed ==> step == refused(a.desk.refusal(action, now)->0)
                &&& allowed && !e.fits() ==> step == refused(CallError::AgentOffline)
                &&& allowed && e.fits() ==> {
                    let m = protocol::parsed_message(step->packet);
                    let number = text::decimal(a.desk.machine.state.session_id as nat);
                    &&& step is Send
                    &&& step->packet.len() == 80
                    &&& m is Ok
                    &&& m->Ok_0.family == 0x00b7
                    &&& m->Ok_0.opcode == (match action {
                        CallAction::Claim => 0x05u32,
                        CallAction::Unlock => 0x06u32,
                        CallAction::Hangup => 0x1eu32,
                    })
                    &&& m->Ok_0.body == e.packed()
                    &&& e.door.nul_free() && e.room.nul_free() ==> m->Ok_0.endpoints() == Some(e)
                    &&& step->report == (match action {
                        CallAction::Claim => KindView::RemoteAnswered { session_id: number },
                        CallAction::Unlock => KindView::Unlocked {
                            session_id: number,
                            by: Owner::Remote,
                        },
                        CallAction::Hangup => KindView::CallEnded {
                            session_id: number,
                            reason: "remote_hangup"@,
                        },
                    })
                }
            }
        }),
{
    if let Some(door) = a.peers.door {
        let e = EndpointsView { door, room: a.peers.room };
        desk::law_prepared_packets_tell_the_door(a.desk, action, e, now, 0);
        if e.fits() && e.door.nul_free() && e.room.nul_free() {
            protocol::law_control_round_trip(0x05, e);
            protocol::law_control_round_trip(0x06, e);
            protocol::law_control_round_trip(0x1e, e);
        }
    }
}

/// What a command does to the Agent from its start to its end. One that is sent has changed the
/// call before the packet goes out, and is reported, kept and answered as done once it has; one
/// that is refused leaves the call alone; nothing else of the Agent changes.
pub proof fn law_commands_change_the_call(
    a: AgentView,
    action: CallAction,
    id: Seq<char>,
    now: Instant,
    now_ms: u64,
    sent: bool,
    later_ms: u64,
)
    requires
        a.desk.cache.lookup(id) is None,
    ensures
        ({
            let b = a.command_begun(action, id, now, now_ms);
            &&& b.peers == a.peers
            &&& same_but_peers(b, a)
            &&& b.desk.log == a.desk.log
            &&& b.desk.ring == a.desk.ring
            &&& b.desk.latest == a.desk.latest
            &&& a.command_step(action, id, now) matches StepView::Done(result) ==> {
                &&& b.desk.cache == a.desk.cache.with_result(result)
                &&& a.desk.refusal(action, now) is Some ==> b.desk.machine == a.desk.machine
                    && b.desk.since_ms == a.desk.since_ms
            }
            &&& a.command_step(action, id, now) is Send ==> {
                let s = b.desk.machine.state;
                &&& b.desk.cache == a.desk.cache
                &&& s.session_id == a.desk.machine.state.session_id
                &&& action == CallAction::Claim ==> s.phase == CallPhase::Connected && s.owner
                    == Owner::Remote
                &&& action == CallAction::Unlock ==> s.phase == a.desk.machine.state.phase
                    && s.owner == a.desk.machine.state.owner && b.desk.machine.last_unlock
                    == Some(now)
                &&& action == CallAction::Hangup ==> s.phase == CallPhase::Idle && s.owner
                    == Owner::Nobody
            }
        }),
{
}

/// What the wire owes beyond the packet: a claim silences the physical Pad, a hangup lets it go.
pub proof fn law_wire_duties()
    ensures
        duty_of(CallAction::Claim) == WireDuty::RemoteClaimed,
        duty_of(CallAction::Hangup) == WireDuty::CallEnded,
        duty_of(CallAction::Unlock) == WireDuty::Nothing,
{
}

/// A claim about a station that contradicts what is pinned is counted, and no other is; the
/// stations are then what the claim leaves of them. The name of an Agent tells its mode.
pub proof fn law_mismatches_are_counted(a: AgentView, l: Learned)
    ensures
        a.judged(l).mismatches as int == (if l.mismatch && !l.accepted {
            (a.mismatches + 1) % 0x1_0000_0000
        } else {
            a.mismatches as int
        }),
        a.judged(l).peers == l.peers,
        a.judged(l).desk == a.desk,
        a.judged(l).jpeg == a.jpeg,
        a.judged(l).next_session == a.next_session,
        a.judged(l).audio_seq == a.audio_seq,
        a.judged(l).mode == a.mode,
        a.mode == AgentMode::Pad ==> a.id() == "michoi-"@ + "pad"@,
        a.mode == AgentMode::Tap ==> a.id() == "michoi-"@ + "tap"@,
        forall|n: u32| #[trigger] counted32(n) as int == (n + 1) % 0x1_0000_0000,
{
}

impl AgentView {
    /// The packet that keeps the call alive, where there is a call and the door is known.
    pub open spec fn keepalive_bytes(self) -> Option<Seq<u8>> {
        match self.peers.endpoints() {
            Some(e) => if self.desk.active() && e.fits() {
                Some(protocol::control_bytes(OP_KEEPALIVE, e))
            } else {
                None
            },
            None => None,
        }
    }

    /// Why nobody may talk now.
    pub open spec fn talk_refusal(self) -> Option<CallError> {
        if !self.desk.machine.remote_connected() {
            Some(CallError::UnlockNotAllowed)
        } else if self.peers.endpoints() is None {
            Some(CallError::AgentOffline)
        } else {
            None
        }
    }

    /// The packet with the next samples for the door.
    pub open spec fn talk_bytes(self, frame: Seq<u8>, e: EndpointsView) -> Option<Seq<u8>> {
        if frame.len() == 512 && e.fits() {
            Some(protocol::audio_bytes((self.audio_seq % 0x1_0000) as u16, frame, e))
        } else {
            None
        }
    }
}

/// A call is kept alive with a session packet that names its stations and has the opcode 0x0c;
/// without a call, or without a door, nothing is sent.
pub proof fn law_calls_are_kept_alive(a: AgentView)
    ensures
        a.desk.machine.state.phase == CallPhase::Idle ==> a.keepalive_bytes() is None,
        a.peers.door is None ==> a.keepalive_bytes() is None,
        a.peers.door matches Some(door) ==> {
            let e = EndpointsView { door, room: a.peers.room };
            a.desk.machine.state.phase != CallPhase::Idle && e.fits() && door.nul_free()
                && a.peers.room.nul_free() ==> {
                let m = protocol::parsed_message(a.keepalive_bytes()->0);
                &&& a.keepalive_bytes() is Some
                &&& m is Ok
                &&& m->Ok_0.family == 0x00b7
                &&& m->Ok_0.opcode == 0x0c
                &&& m->Ok_0.endpoints() == Some(e)
            }
        },
{
    if let Some(door) = a.peers.door {
        let e = EndpointsView { door, room: a.peers.room };
        if e.fits() && door.nul_free() && a.peers.room.nul_free() {
            protocol::law_control_round_trip(0x0c, e);
        }
    }
}

/// One may talk exactly once the call has been answered from afar and the door is known.
pub proof fn law_talk_needs_the_call(a: AgentView)
    ensures
        ({
            let s = a.desk.machine.state;
            let ours = s.phase == CallPhase::Connected && s.owner == Owner::Remote;
            &&& a.talk_refusal() is None <==> ours && a.peers.door is Some
            &&& a.talk_refusal() == Some(CallError::UnlockNotAllowed) <==> !ours
            &&& a.talk_refusal() == Some(CallError::AgentOffline) <==> ours && a.peers.door is None
        }),
{
}

/// What is said to the door is counted piece by piece, round, and changes nothing else.
pub proof fn law_talk_is_counted(a: AgentView, steps: Seq<AgentStep>)
    requires
        forall|i: int| 0 <= i < steps.len() ==> #[trigger] steps[i] == AgentStep::Talk,
    ensures
        ({
            let b = after_steps(a, steps);
            &&& b.audio_seq as int == (a.audio_seq + steps.len()) % 0x1_0000_0000
            &&& b.desk == a.desk && b.peers == a.peers && b.jpeg == a.jpeg
            &&& b.next_session == a.next_session && b.mismatches == a.mismatches
        }),
{
    lemma_talk_steps(a, steps);
}

/// A packet of what is said to the door bears whole samples, under the low 16 bits of the count.
pub proof fn law_talk_packets_are_numbered(a: AgentView, frame: Seq<u8>, e: EndpointsView)
    requires
        e.fits(),
        e.door.nul_free(),
        e.room.nul_free(),
    ensures
        a.talk_bytes(frame, e) is Some <==> frame.len() == 512,
        frame.len() == 512 ==> {
            let m = protocol::parsed_message(a.talk_bytes(frame, e)->0);
            &&& m is Ok
            &&& m->Ok_0.endpoints() == Some(e)
            &&& m->Ok_0.media() is Some
            &&& m->Ok_0.media()->0.media_type == 3
            &&& m->Ok_0.media()->0.sequence as int == a.audio_seq as int % 0x1_0000
            &&& m->Ok_0.media()->0.data == frame
        },
{
    if frame.len() == 512 {
        protocol::law_audio_packet_names_its_stations(
            (a.audio_seq % 0x1_0000) as u16,
            frame,
            e,
        );
    }
}

proof fn lemma_talk_steps(a: AgentView, steps: Seq<AgentStep>)
    requires
        forall|i: int| 0 <= i < steps.len() ==> #[trigger] steps[i] == AgentStep::Talk,
    ensures
        after_steps(a, steps) == (AgentView {
            audio_seq: ((a.audio_seq + steps.len()) % 0x1_0000_0000) as u32,
            ..a
        }),
    decreases steps.len(),
{
    if steps.len() > 0 {
        let before = steps.drop_last();
        assert forall|i: int| 0 <= i < before.len() implies #[trigger] before[i]
            == AgentStep::Talk by {
            assert(before[i] == steps[i]);
        }
        assert(steps.last() == steps[steps.len() - 1]);
        lemma_talk_steps(a, before);
        let n = (a.audio_seq + before.len()) % 0x1_0000_0000;
        assert(counted32(n as u32) as int == (a.audio_seq + steps.len()) % 0x1_0000_0000);
    }
}

} // verus!
