//! A software Pad on a plain UDP socket: it answers a door's handshake, follows the call and
//! speaks to the door as the Pad.

use vstd::prelude::*;
use vstd::utf8;
use crate::agent;
use crate::agent::{no_outcome, CommandStep, OutcomeView, StepView, WireOutcome};
use crate::agent_api;
use crate::agent_api::{
    AudioChunk, CallAction, CallError, CallState, CommandResult, Event, EventKind, EventView,
    KindView, MediaHistory, MediaInfo, MediaView, ResultView, VideoFrame,
};
use crate::bytes;
use crate::desk;
use crate::desk::{CallDesk, DeskView};
use crate::net::SocketAddr;
use crate::protocol;
use crate::protocol::{
    Endpoints, EndpointsView, FragmentView, JpegReassembler, MediaFragment, Message, MessageView,
    PendingView, Station, StationView, FAMILY_BOOTSTRAP, FAMILY_SESSION, MEDIA_AUDIO, OP_HANGUP,
    OP_KEEPALIVE, OP_MEDIA, OP_REQUEST,
};
use crate::state;
use crate::state::{CallMachine, CallPhase, MachineView, Owner};
use crate::text;
use crate::time::{Duration, Instant};

verus! {

pub const AGENT_ID: &'static str = "socket-pad";

pub struct SocketAgent {
    desk: CallDesk,
    door_id: Option<String>,
    room_id: Option<String>,
    endpoints: Option<Endpoints>,
    peer: Option<SocketAddr>,
    room: Station,
    jpeg: JpegReassembler,
    audio_seq: u32,
}

/// What a software Pad holds. The endpoints come with the door's session request and serve every
/// packet to the door; the peer is where these packets go.
pub struct SocketView {
    pub desk: DeskView,
    pub door_id: Option<Seq<char>>,
    pub room_id: Option<Seq<char>>,
    pub endpoints: Option<EndpointsView>,
    pub peer: Option<SocketAddr>,
    pub room: StationView,
    pub jpeg: Seq<PendingView>,
    pub audio_seq: u32,
}

/// The view of optional endpoints.
pub open spec fn endpoints_view(e: Option<Endpoints>) -> Option<EndpointsView> {
    match e {
        Some(endpoints) => Some(endpoints@),
        None => None,
    }
}

impl View for SocketAgent {
    type V = SocketView;

    closed spec fn view(&self) -> SocketView {
        SocketView {
            desk: self.desk@,
            door_id: text::text_view(self.door_id),
            room_id: text::text_view(self.room_id),
            endpoints: endpoints_view(self.endpoints),
            peer: self.peer,
            room: self.room@,
            jpeg: self.jpeg@,
            audio_seq: self.audio_seq,
        }
    }
}

/// A software Pad and what is to be done.
pub struct SocketResult {
    pub agent: SocketView,
    pub outcome: OutcomeView,
}

/// The session behind session `id`: the next number, but never zero.
pub open spec fn next_session(id: u64) -> u64 {
    if id == u64::MAX {
        1
    } else {
        (id + 1) as u64
    }
}

impl SocketView {
    /// Nothing changes and nothing is to be done.
    pub open spec fn unmoved(self) -> SocketResult {
        SocketResult { agent: self, outcome: agent::nothing() }
    }

    /// A door at `from` asks for a session: it gets the capability reply, and the call rings where
    /// none is active.
    pub open spec fn session_requested(self, m: MessageView, from: SocketAddr, now_ms: u64) -> SocketResult {
        let e = match m.endpoints() {
            Some(e) => e,
            None => protocol::captured_endpoints(),
        };
        let reply = if e.fits() {
            Some(protocol::reply_bytes(e))
        } else {
            None
        };
        let met = SocketView { peer: Some(from), endpoints: Some(e), ..self };
        if self.desk.active() {
            SocketResult { agent: met, outcome: OutcomeView { reply, ..agent::nothing() } }
        } else {
            let id = next_session(self.desk.machine.state.session_id);
            SocketResult {
                agent: SocketView {
                    desk: self.desk.call_started(id, e.door.id, e.room.id, now_ms),
                    door_id: Some(e.door.id),
                    room_id: Some(e.room.id),
                    ..met
                },
                outcome: OutcomeView {
                    reply,
                    event: Some(
                        self.desk.next_event(
                            now_ms,
                            desk::started_kind(id, e.door.id, e.room.id),
                        ),
                    ),
                    ..agent::nothing()
                },
            }
        }
    }

    /// The door hangs up.
    pub open spec fn door_hangs_up(self, now_ms: u64) -> SocketResult {
        let id = self.desk.machine.state.session_id;
        SocketResult {
            agent: SocketView {
                desk: self.desk.call_ended(id, "door_hangup"@, now_ms),
                ..self
            },
            outcome: OutcomeView {
                event: if self.desk.active() {
                    Some(self.desk.next_event(now_ms, desk::ended_kind(id, "door_hangup"@)))
                } else {
                    None
                },
                ..agent::nothing()
            },
        }
    }

    /// The door sends media.
    pub open spec fn media_arrives(self, f: FragmentView, pts_us: u64) -> SocketResult {
        if f.media_type == MEDIA_AUDIO {
            let chunk = MediaView { pts_us, data: f.data };
            SocketResult {
                agent: SocketView { desk: self.desk.with_audio(chunk), ..self },
                outcome: OutcomeView { audio: Some(chunk), ..agent::nothing() },
            }
        } else {
            let rest = SocketView { jpeg: protocol::frames_after(self.jpeg, f), ..self };
            match protocol::frame_from(self.jpeg, f) {
                Some(data) => {
                    let frame = MediaView { pts_us, data };
                    SocketResult {
                        agent: SocketView { desk: self.desk.with_video(frame), ..rest },
                        outcome: OutcomeView { video: Some(frame), ..agent::nothing() },
                    }
                },
                None => rest.unmoved(),
            }
        }
    }

    /// A packet comes in from `from`.
    pub open spec fn received(self, raw: Seq<u8>, from: SocketAddr, now_ms: u64, pts_us: u64) -> SocketResult {
        match protocol::parsed_message(raw) {
            Err(_) => self.unmoved(),
            Ok(m) => if m.family == FAMILY_BOOTSTRAP && m.opcode == OP_REQUEST {
                SocketResult {
                    agent: self,
                    outcome: OutcomeView {
                        reply: if self.room.fits() {
                            Some(protocol::bootstrap_bytes(self.room))
                        } else {
                            None
                        },
                        ..agent::nothing()
                    },
                }
            } else if m.family != FAMILY_SESSION {
                self.unmoved()
            } else if m.opcode == OP_REQUEST {
                self.session_requested(m, from, now_ms)
            } else if m.opcode == OP_HANGUP {
                self.door_hangs_up(now_ms)
            } else if m.opcode == OP_MEDIA {
                match m.media() {
                    Some(f) => self.media_arrives(f, pts_us),
                    None => self.unmoved(),
                }
            } else {
                self.unmoved()
            },
        }
    }

    /// The software Pad once the packets of a datagram have come in, and what is to be done for
    /// each.
    pub open spec fn fed(self, pieces: Seq<Seq<u8>>, from: SocketAddr, now_ms: u64, pts_us: u64) -> (
        SocketView,
        Seq<OutcomeView>,
    )
        decreases pieces.len(),
    {
        if pieces.len() == 0 {
            (self, Seq::empty())
        } else {
            let (before, outcomes) = self.fed(pieces.drop_last(), from, now_ms, pts_us);
            let last = before.received(pieces.last(), from, now_ms, pts_us);
            (last.agent, outcomes.push(last.outcome))
        }
    }

    /// What to do with a command.
    pub open spec fn command_step(self, action: CallAction, id: Seq<char>, now: Instant) -> StepView {
        match self.desk.cache.lookup(id) {
            Some(result) => StepView::Done(result),
            None => match self.endpoints {
                None => StepView::Done(ResultView::refused(id, CallError::NoCall)),
                Some(e) => match desk::preparation(self.desk, action, e, now) {
                    Ok((report, packet)) => StepView::Send { report, packet },
                    Err(error) => StepView::Done(ResultView::refused(id, error)),
                },
            },
        }
    }

    /// The software Pad once a command has been taken up. Before any door has called, a command is
    /// refused but not kept.
    pub open spec fn command_begun(
        self,
        action: CallAction,
        id: Seq<char>,
        now: Instant,
        now_ms: u64,
    ) -> SocketView {
        if self.desk.cache.lookup(id) is Some {
            self
        } else {
            match self.endpoints {
                None => self,
                Some(e) => {
                    let prepared = desk::after_preparation(self.desk, action, now, now_ms);
                    match desk::preparation(self.desk, action, e, now) {
                        Ok(_) => SocketView { desk: prepared, ..self },
                        Err(error) => SocketView {
                            desk: prepared.settled(ResultView::refused(id, error)),
                            ..self
                        },
                    }
                },
            }
        }
    }
}

impl SocketAgent {
    /// Whether the parts of the software Pad are in order.
    pub closed spec fn wf(&self) -> bool {
        self.desk.wf() && self.jpeg.wf()
    }

    /// Whether it is in order and there is a number left for another event.
    pub open spec fn ready(&self) -> bool {
        self.wf() && self@.desk.log.next_seq < u64::MAX
    }

    pub fn new(room: Station, history: Duration, history_max_bytes: usize) -> (r: Self)
        ensures
            r.ready(),
            r@.desk == DeskView::fresh(
                MachineView::fresh((Duration { nanos: 1_000_000_000 }), false),
                history,
                history_max_bytes,
            ),
            r@.door_id is None,
            r@.room_id is None,
            r@.endpoints is None,
            r@.peer is None,
            r@.room == room@,
            r@.jpeg == Seq::<PendingView>::empty(),
            r@.audio_seq == 0,
    {
        let machine = CallMachine::new(Duration::from_secs(1));
        SocketAgent {
            desk: CallDesk::new(machine, history, history_max_bytes),
            door_id: None,
            room_id: None,
            endpoints: None,
            peer: None,
            room,
            jpeg: JpegReassembler::new(),
            audio_seq: 0,
        }
    }

    /// Whether there is a number left for another event.
    pub fn has_room(&self) -> (r: bool)
        ensures
            r == (self@.desk.log.next_seq < u64::MAX),
    {
        self.desk.has_room()
    }

    /// Whether it is in order and there are numbers left for the events of `n` bytes of packets.
    pub open spec fn ready_for(&self, n: nat) -> bool {
        self.wf() && self@.desk.log.next_seq + n <= u64::MAX
    }

    /// Whether there are numbers left for the events of `n` bytes of packets.
    pub fn has_room_for(&self, n: usize) -> (r: bool)
        ensures
            r == (self@.desk.log.next_seq + n <= u64::MAX),
    {
        self.desk.has_room_for(n)
    }

    /// Where packets to the door go.
    pub fn peer(&self) -> (r: Option<SocketAddr>)
        ensures
            r == self@.peer,
    {
        self.peer
    }

    /// Takes in the packets of one datagram, one after the other.
    pub fn on_payload(&mut self, payload: &[u8], from: SocketAddr, now_ms: u64, pts_us: u64) -> (r:
        Vec<WireOutcome>)
        requires
            old(self).ready_for(payload@.len()),
        ensures
            final(self).wf(),
            final(self)@ == old(self)@.fed(protocol::pieces(payload@), from, now_ms, pts_us).0,
            agent::outcome_views(r@) == old(self)@.fed(
                protocol::pieces(payload@),
                from,
                now_ms,
                pts_us,
            ).1,
    {
        let ghost start = self@;
        let ghost all = protocol::pieces(payload@);
        let pieces = protocol::split_coalesced(payload);
        let mut out: Vec<WireOutcome> = Vec::new();
        let mut i: usize = 0;
        proof {
            protocol::lemma_piece_count(payload@);
            assert(protocol::slices(pieces@).len() == pieces@.len());
            assert(all.take(0) =~= Seq::empty());
            assert(agent::outcome_views(out@) =~= Seq::empty());
        }
        while i < pieces.len()
            invariant
                i <= pieces@.len() == all.len(),
                protocol::slices(pieces@) == all,
                all.len() <= payload@.len(),
                start.desk.log.next_seq + payload@.len() <= u64::MAX,
                self.wf(),
                self@.desk.log.next_seq <= start.desk.log.next_seq + i,
                self@ == start.fed(all.take(i as int), from, now_ms, pts_us).0,
                agent::outcome_views(out@) == start.fed(
                    all.take(i as int),
                    from,
                    now_ms,
                    pts_us,
                ).1,
            decreases pieces@.len() - i,
        {
            let ghost before = agent::outcome_views(out@);
            proof {
                assert(protocol::slices(pieces@)[i as int] == pieces@[i as int]@);
                assert(all.take(i + 1).drop_last() =~= all.take(i as int));
                assert(all.take(i + 1).last() == pieces@[i as int]@);
            }
            let outcome = self.on_datagram(pieces[i], from, now_ms, pts_us);
            let ghost view = outcome@;
            out.push(outcome);
            assert(agent::outcome_views(out@) =~= before.push(view));
            i = i + 1;
        }
        assert(all.take(i as int) =~= all);
        out
    }

    /// Takes in one packet; the reply goes back to where the packet came from.
    pub fn on_datagram(&mut self, raw: &[u8], from: SocketAddr, now_ms: u64, pts_us: u64) -> (r:
        WireOutcome)
        requires
            old(self).ready(),
        ensures
            final(self).wf(),
            final(self)@ == old(self)@.received(raw@, from, now_ms, pts_us).agent,
            r@ == old(self)@.received(raw@, from, now_ms, pts_us).outcome,
    {
        let mut out = no_outcome();
        let message = match Message::parse(raw) {
            Ok(message) => message,
            Err(_) => return out,
        };
        if message.family == FAMILY_BOOTSTRAP && message.opcode == OP_REQUEST {
            out.reply = match protocol::bootstrap_reply(&self.room) {
                Ok(reply) => Some(reply),
                Err(_) => None,
            };
            return out;
        }
        if message.family != FAMILY_SESSION {
            return out;
        }
        if message.opcode == OP_REQUEST {
            return self.on_session_request(&message, from, now_ms);
        }
        if message.opcode == OP_HANGUP {
            out.event = self.desk.end_call(self.desk.session_id(), "door_hangup", now_ms);
            return out;
        }
        if message.opcode == OP_MEDIA {
            if let Some(fragment) = message.media() {
                return self.on_media(&fragment, pts_us);
            }
        }
        out
    }

    fn on_session_request(&mut self, message: &Message<'_>, from: SocketAddr, now_ms: u64) -> (r:
        WireOutcome)
        requires
            old(self).ready(),
        ensures
            final(self).wf(),
            final(self)@ == old(self)@.session_requested(message@, from, now_ms).agent,
            r@ == old(self)@.session_requested(message@, from, now_ms).outcome,
    {
        let mut out = no_outcome();
        let endpoints = match message.endpoints() {
            Some(endpoints) => endpoints,
            None => Endpoints::captured(),
        };
        out.reply = match protocol::session_reply(&endpoints) {
            Ok(reply) => Some(reply),
            Err(_) => None,
        };
        self.peer = Some(from);
        if !self.desk.is_active() {
            let last: u64 = self.desk.session_id();
            let id: u64 = if last == u64::MAX {
                1
            } else {
                last + 1
            };
            self.door_id = Some(endpoints.door.id.clone());
            self.room_id = Some(endpoints.room.id.clone());
            out.event = Some(
                self.desk.start_call(
                    id,
                    endpoints.door.id.as_str(),
                    endpoints.room.id.as_str(),
                    now_ms,
                ),
            );
        }
        self.endpoints = Some(endpoints);
        out
    }

    fn on_media(&mut self, fragment: &MediaFragment<'_>, pts_us: u64) -> (r: WireOutcome)
        requires
            old(self).wf(),
        ensures
            final(self).wf(),
            final(self)@ == old(self)@.media_arrives(fragment@, pts_us).agent,
            r@ == old(self)@.media_arrives(fragment@, pts_us).outcome,
    {
        let mut out = no_outcome();
        if fragment.media_type == MEDIA_AUDIO {
            let chunk = AudioChunk { pts_us, pcm: bytes::copy_of(fragment.data) };
            self.desk.push_audio(&chunk);
            out.audio = Some(chunk);
        } else if let Some(jpeg) = self.jpeg.push(fragment) {
            let frame = VideoFrame { pts_us, jpeg };
            self.desk.push_video(&frame);
            out.video = Some(frame);
        }
        out
    }

    /// The keepalive that a Pad sends while a call is active.
    pub fn keepalive(&self) -> (r: Option<Vec<u8>>)
        ensures
            agent::blob_view(r) == (match self@.endpoints {
                Some(e) => if self@.desk.active() && e.fits() {
                    Some(protocol::control_bytes(OP_KEEPALIVE, e))
                } else {
                    None
                },
                None => None,
            }),
            agent::blob_view(r) == self@.keepalive_bytes(),
    {
        if !self.desk.is_active() {
            return None;
        }
        match &self.endpoints {
            Some(endpoints) => match protocol::session_control(OP_KEEPALIVE, endpoints) {
                Ok(packet) => Some(packet),
                Err(_) => None,
            },
            None => None,
        }
    }

    /// Takes up a command: it is answered at once, or a packet is to be sent to the door first.
    pub fn begin_command(
        &mut self,
        action: CallAction,
        command_id: &str,
        now: Instant,
        now_ms: u64,
    ) -> (r: CommandStep)
        requires
            old(self).wf(),
        ensures
            final(self).wf(),
            final(self)@ == old(self)@.command_begun(action, command_id@, now, now_ms),
            r@ == old(self)@.command_step(action, command_id@, now),
    {
        if let Some(result) = self.desk.replayed(command_id) {
            return CommandStep::Done(result);
        }
        let built = match &self.endpoints {
            Some(endpoints) => self.desk.prepare(action, endpoints, now, now_ms),
            None => {
                return CommandStep::Done(CommandResult::rejected(command_id, CallError::NoCall));
            },
        };
        match built {
            Ok(prepared) => CommandStep::Send { report: prepared.report, packet: prepared.packet },
            Err(error) => {
                let result = CommandResult::rejected(command_id, error);
                self.desk.settle(&result);
                CommandStep::Done(result)
            },
        }
    }

    /// Closes a command once its packet has been sent, or could not be.
    pub fn finish_command(&mut self, command_id: &str, report: EventKind, sent: bool, now_ms: u64)
        -> (r: (CommandResult, Option<Event>))
        requires
            old(self).ready(),
        ensures
            final(self).wf(),
            final(self)@ == (SocketView {
                desk: desk::concluded(old(self)@.desk, command_id@, report@, sent, now_ms),
                ..old(self)@
            }),
            r.0@ == desk::conclusion(command_id@, sent),
            desk::event_view(r.1) == (if sent {
                Some(old(self)@.desk.next_event(now_ms, report@))
            } else {
                None
            }),
    {
        self.desk.conclude(command_id, report, sent, now_ms)
    }

    /// The state of the call as a backend sees it.
    pub fn state(&self, uptime_ms: u64) -> (r: CallState)
        ensures
            r@ == desk::public_state(
                self@.desk,
                self@.door_id,
                self@.room_id,
                AGENT_ID@,
                uptime_ms,
            ),
    {
        self.desk.call_state(
            text::copy_text(&self.door_id),
            text::copy_text(&self.room_id),
            AGENT_ID.to_owned(),
            uptime_ms,
        )
    }

    /// The events behind number `after_seq`.
    pub fn recent(&self, after_seq: u64) -> (r: Option<Vec<Event>>)
        requires
            self.wf(),
        ensures
            match r {
                Some(events) => self@.desk.log.since(after_seq) == Some(
                    agent_api::event_views(events@),
                ),
                None => self@.desk.log.since(after_seq) is None,
            },
    {
        self.desk.recent(after_seq)
    }

    /// The latest frame.
    pub fn snapshot(&self) -> (r: Option<VideoFrame>)
        ensures
            desk::frame_view(r) == self@.desk.latest,
    {
        self.desk.snapshot()
    }

    /// The buffered media later than `since_us`.
    pub fn history(&self, since_us: u64) -> (r: MediaHistory)
        ensures
            r.video@.map_values(|f: VideoFrame| f@) == agent_api::later(
                self@.desk.ring.video,
                since_us,
            ),
            r.audio@.map_values(|a: AudioChunk| a@) == agent_api::later(
                self@.desk.ring.audio,
                since_us,
            ),
    {
        self.desk.history(since_us)
    }

    /// The media that a backend can have.
    pub fn media_info(&self) -> (r: MediaInfo)
        ensures
            desk::is_media_info(r, self@.desk.machine.remote_connected(), self@.desk.ring),
    {
        self.desk.media_info(self.desk.talk_allowed())
    }

    /// Whom the remote side talks to, where it may talk.
    pub fn talk_endpoints(&self) -> (r: Result<Endpoints, CallError>)
        ensures
            match r {
                Ok(e) => self@.desk.machine.remote_connected() && self@.endpoints == Some(e@),
                Err(error) => if self@.desk.machine.remote_connected() {
                    self@.endpoints is None && error == CallError::AgentOffline
                } else {
                    error == CallError::UnlockNotAllowed
                },
            },
            (match r {
                Ok(_) => None,
                Err(error) => Some(error),
            }) == self@.talk_refusal(),
    {
        if !self.desk.talk_allowed() {
            return Err(CallError::UnlockNotAllowed);
        }
        match &self.endpoints {
            Some(endpoints) => Ok(endpoints.clone()),
            None => Err(CallError::AgentOffline),
        }
    }

    /// The packet of one frame of talk; each frame takes the next sequence number, also one that
    /// no packet can be built for.
    pub fn talk_packet(&mut self, frame: &[u8], endpoints: &Endpoints) -> (r: Option<Vec<u8>>)
        requires
            old(self).wf(),
        ensures
            final(self).wf(),
            final(self)@ == (SocketView {
                audio_seq: agent::counted32(old(self)@.audio_seq),
                ..old(self)@
            }),
            agent::blob_view(r) == (if frame@.len() == 512 && endpoints@.fits() {
                Some(
                    protocol::audio_bytes(
                        (old(self)@.audio_seq % 0x1_0000) as u16,
                        frame@,
                        endpoints@,
                    ),
                )
            } else {
                None
            }),
            agent::blob_view(r) == old(self)@.talk_bytes(frame@, endpoints@),
    {
        let sequence: u16 = (self.audio_seq % 0x1_0000) as u16;
        self.audio_seq = agent::count32(self.audio_seq);
        match protocol::audio_packet(sequence, frame, endpoints) {
            Ok(packet) => Some(packet),
            Err(_) => None,
        }
    }
}

/// A door that asks for the session again while the call is active gets its reply again, but no
/// second call.
pub proof fn law_repeated_ring_starts_one_call(
    a: SocketView,
    m: MessageView,
    from: SocketAddr,
    now_ms: u64,
    later_ms: u64,
)
    ensures
        ({
            let rung = a.session_requested(m, from, now_ms).agent;
            &&& rung.desk.active()
            &&& rung.session_requested(m, from, later_ms).agent == rung
            &&& rung.session_requested(m, from, later_ms).outcome.event is None
            &&& rung.session_requested(m, from, later_ms).outcome.reply == a.session_requested(
                m,
                from,
                now_ms,
            ).outcome.reply
        }),
{
}

/// Wherever a packet to the door can be built, it is known where it goes.
pub proof fn law_endpoints_come_with_a_peer(
    a: SocketView,
    raw: Seq<u8>,
    from: SocketAddr,
    now_ms: u64,
    pts_us: u64,
)
    requires
        a.endpoints is Some ==> a.peer is Some,
    ensures
        ({
            let b = a.received(raw, from, now_ms, pts_us).agent;
            b.endpoints is Some ==> b.peer is Some
        }),
{
}

/// Whether a packet is a session packet with this opcode.
pub open spec fn is_session(raw: Seq<u8>, opcode: u32) -> bool {
    &&& protocol::parsed_message(raw) is Ok
    &&& protocol::parsed_message(raw)->Ok_0.family == 0x00b7
    &&& protocol::parsed_message(raw)->Ok_0.opcode == opcode
}

/// A hangup of the door ends the call whoever owns it, and where there was one the end is
/// reported under the session of the call.
pub proof fn law_door_hangup_ends_call(
    a: SocketView,
    raw: Seq<u8>,
    from: SocketAddr,
    now_ms: u64,
    pts_us: u64,
)
    requires
        is_session(raw, 0x1e),
    ensures
        ({
            let r = a.received(raw, from, now_ms, pts_us);
            let was_active = a.desk.machine.state.phase != CallPhase::Idle;
            let kind = KindView::CallEnded {
                session_id: text::decimal(a.desk.machine.state.session_id as nat),
                reason: "door_hangup"@,
            };
            &&& r.agent.desk.machine.state.phase == CallPhase::Idle
            &&& r.agent.desk.machine.state.owner == Owner::Nobody
            &&& r.agent.desk.machine.state.session_id == a.desk.machine.state.session_id
            &&& r.agent.desk.since_ms == Some(now_ms)
            &&& was_active ==> r.outcome.event == Some(
                EventView { seq: a.desk.log.next_seq, at_ms: now_ms, kind },
            ) && r.agent.desk.log == a.desk.log.with_event(now_ms, kind)
            &&& !was_active ==> r.outcome.event is None && r.agent.desk.log == a.desk.log
            &&& r.outcome.reply is None && r.outcome.video is None && r.outcome.audio is None
            &&& r.agent == (SocketView { desk: r.agent.desk, ..a })
            &&& r.agent.desk.cache == a.desk.cache
            &&& r.agent.desk.ring == a.desk.ring
            &&& r.agent.desk.latest == a.desk.latest
        }),
{
}

/// A session request is answered with the capability reply to its own endpoints, and the door is
/// where it came from. Where no call is active it starts one under the next number that is not
/// zero; where one is active, the call stays as it is.
pub proof fn law_session_request_rings(
    a: SocketView,
    raw: Seq<u8>,
    e: EndpointsView,
    from: SocketAddr,
    now_ms: u64,
    pts_us: u64,
)
    requires
        is_session(raw, 0x01),
        protocol::parsed_message(raw)->Ok_0.endpoints() == Some(e),
        e.fits(),
    ensures
        ({
            let r = a.received(raw, from, now_ms, pts_us);
            let s = r.agent.desk.machine.state;
            let starts = a.desk.machine.state.phase == CallPhase::Idle;
            let kind = KindView::CallStarted {
                session_id: text::decimal(s.session_id as nat),
                door_id: e.door.id,
                room_id: e.room.id,
            };
            &&& starts ==> {
                &&& s.phase == CallPhase::Ringing
                &&& s.owner == Owner::Nobody
                &&& s.session_id != 0
                &&& a.desk.machine.state.session_id < u64::MAX ==> s.session_id
                    == a.desk.machine.state.session_id + 1
                &&& r.agent.desk.since_ms == Some(now_ms)
                &&& r.outcome.event == Some(
                    EventView { seq: a.desk.log.next_seq, at_ms: now_ms, kind },
                )
                &&& r.agent.desk.log == a.desk.log.with_event(now_ms, kind)
                &&& r.agent.door_id == Some(e.door.id)
                &&& r.agent.room_id == Some(e.room.id)
            }
            &&& !starts ==> r.agent.desk == a.desk && r.outcome.event is None && r.agent.door_id
                == a.door_id && r.agent.room_id == a.room_id
            &&& r.outcome.reply == Some(protocol::reply_bytes(e))
            &&& r.agent.peer == Some(from)
            &&& r.agent.endpoints == Some(e)
            &&& !r.outcome.call_ended && r.outcome.video is None && r.outcome.audio is None
            &&& r.agent.room == a.room && r.agent.jpeg == a.jpeg
            &&& r.agent.audio_seq == a.audio_seq
            &&& r.agent.desk.cache == a.desk.cache
            &&& r.agent.desk.ring == a.desk.ring
            &&& r.agent.desk.latest == a.desk.latest
        }),
{
}

/// The door's sound is handed on as it came, at its time, and goes into the pre-roll.
pub proof fn law_door_sound_is_handed_on(
    a: SocketView,
    sequence: u16,
    pcm: Seq<u8>,
    e: EndpointsView,
    from: SocketAddr,
    now_ms: u64,
    pts_us: u64,
)
    requires
        e.fits(),
        pcm.len() == 512,
    ensures
        ({
            let r = a.received(protocol::audio_bytes(sequence, pcm, e), from, now_ms, pts_us);
            let chunk = MediaView { pts_us, data: pcm };
            &&& r.outcome.audio == Some(chunk)
            &&& r.agent.desk.ring == a.desk.ring.with_audio(chunk)
            &&& r.outcome.video is None && r.outcome.event is None && r.outcome.reply is None
            &&& r.agent.desk.latest == a.desk.latest
            &&& r.agent.desk.machine == a.desk.machine
            &&& r.agent.desk.log == a.desk.log
            &&& r.agent.desk.cache == a.desk.cache
            &&& r.agent == (SocketView { desk: r.agent.desk, ..a })
        }),
{
    protocol::law_audio_round_trip(sequence, pcm, e);
    protocol::law_packet_round_trip(
        0x00b7,
        0x0a,
        602,
        protocol::media_body(e, MEDIA_AUDIO, sequence, 1, 1, 512, pcm),
    );
}

/// A fragment of a frame goes into the reassembler; a frame that it completes is handed on at its
/// time and is the latest one from then on. The call stays as it is.
pub proof fn law_door_frames_are_handed_on(
    a: SocketView,
    raw: Seq<u8>,
    f: FragmentView,
    from: SocketAddr,
    now_ms: u64,
    pts_us: u64,
)
    requires
        is_session(raw, 0x0a),
        protocol::parsed_message(raw)->Ok_0.media() == Some(f),
        f.media_type == 1,
    ensures
        ({
            let r = a.received(raw, from, now_ms, pts_us);
            &&& r.agent.jpeg == protocol::frames_after(a.jpeg, f)
            &&& protocol::frame_from(a.jpeg, f) matches Some(frame) ==> {
                let shown = MediaView { pts_us, data: frame };
                &&& r.outcome.video == Some(shown)
                &&& r.agent.desk.latest == Some(shown)
                &&& r.agent.desk.ring == a.desk.ring.with_video(shown)
            }
            &&& protocol::frame_from(a.jpeg, f) is None ==> r.outcome.video is None
                && r.agent.desk == a.desk
            &&& r.outcome.audio is None && r.outcome.event is None && r.outcome.reply is None
            &&& r.agent.desk.machine == a.desk.machine
            &&& r.agent.desk.log == a.desk.log
            &&& r.agent.desk.cache == a.desk.cache
            &&& r.agent.peer == a.peer && r.agent.endpoints == a.endpoints
        }),
{
}

/// Any other packet changes nothing; a bootstrap request is answered from the own station.
pub proof fn law_other_packets_are_ignored(
    a: SocketView,
    raw: Seq<u8>,
    from: SocketAddr,
    now_ms: u64,
    pts_us: u64,
)
    ensures
        ({
            let r = a.received(raw, from, now_ms, pts_us);
            let parsed = protocol::parsed_message(raw);
            let m = parsed->Ok_0;
            let boots = parsed is Ok && m.family == 0x0098 && m.opcode == 0x01;
            let known = is_session(raw, 0x01) || is_session(raw, 0x1e) || is_session(raw, 0x0a);
            &&& !known ==> r.agent == a && r.outcome.event is None && r.outcome.video is None
                && r.outcome.audio is None
            &&& !known && !boots ==> r.outcome.reply is None
            &&& boots && a.room.fits() ==> r.outcome.reply == Some(
                protocol::bootstrap_bytes(a.room),
            )
        }),
{
}

/// Packets of one datagram are taken in one after the other, and each has its own outcome.
pub proof fn law_packets_are_taken_in_order(
    a: SocketView,
    packets: Seq<Seq<u8>>,
    next: Seq<u8>,
    from: SocketAddr,
    now_ms: u64,
    pts_us: u64,
)
    ensures
        ({
            let before = a.fed(packets, from, now_ms, pts_us);
            let after = a.fed(packets.push(next), from, now_ms, pts_us);
            let r = before.0.received(next, from, now_ms, pts_us);
            &&& after.0 == r.agent
            &&& after.1 == before.1.push(r.outcome)
        }),
        a.fed(Seq::empty(), from, now_ms, pts_us) == (a, Seq::<OutcomeView>::empty()),
{
    assert(packets.push(next).drop_last() =~= packets);
}

/// When a command is sent to the door, and what is sent: it needs a door that has called and a
/// call that allows it. The packet tells that door of an answer, an opening or a hangup.
pub proof fn law_commands_tell_the_door(
    a: SocketView,
    action: CallAction,
    id: Seq<char>,
    now: Instant,
    now_ms: u64,
)
    requires
        a.desk.cache.lookup(id) is None,
    ensures
        ({
            let step = a.command_step(action, id, now);
            let b = a.command_begun(action, id, now, now_ms);
            let refused = |error: CallError| StepView::Done(
                ResultView { command_id: id, ok: false, error: Some(error), replayed: false },
            );
            let allowed = a.desk.refusal(action, now) is None;
            &&& a.endpoints is None ==> step == refused(CallError::NoCall) && b == a
            &&& a.endpoints matches Some(e) ==> {
                &&& !allowed ==> step == refused(a.desk.refusal(action, now)->0)
                    && b.desk.machine == a.desk.machine
                &&& allowed && !e.fits() ==> step == refused(CallError::AgentOffline)
                &&& allowed && e.fits() ==> {
                    let m = protocol::parsed_message(step->packet);
                    &&& step is Send
                    &&& step->packet.len() == 80
                    &&& m is Ok
                    &&& m->Ok_0.family == 0x00b7
                    &&& m->Ok_0.opcode == (match action {
                        CallAction::Claim => 0x05u32,
                        CallAction::Unlock => 0x06u32,
                        CallAction::Hangup => 0x1eu32,
                    })
                    &&& m->Ok_0.body == e.packed()
                    &&& step->report == a.desk.report_of(action)
                    &&& b.desk == a.desk.acted(action, now, now_ms)
                }
                &&& step matches StepView::Done(result) ==> b.desk.cache
                    == a.desk.cache.with_result(result)
            }
            &&& b.desk.log == a.desk.log && b.desk.ring == a.desk.ring
            &&& b == (SocketView { desk: b.desk, ..a })
        }),
{
    if let Some(e) = a.endpoints {
        desk::law_prepared_packets_tell_the_door(a.desk, action, e, now, now_ms);
    }
}

/// A command that was dealt with before is answered from the cache and changes nothing.
pub proof fn law_repeated_command_sends_nothing(
    a: SocketView,
    action: CallAction,
    id: Seq<char>,
    now: Instant,
    now_ms: u64,
)
    requires
        a.desk.cache.lookup(id) is Some,
    ensures
        a.command_step(action, id, now) == StepView::Done(a.desk.cache.lookup(id)->0),
        a.command_begun(action, id, now, now_ms) == a,
{
}

/// A session request without stations is for those of the captured intercom, and stations whose
/// ids do not fit are not replied to.
pub proof fn law_request_without_stations(
    a: SocketView,
    raw: Seq<u8>,
    from: SocketAddr,
    now_ms: u64,
    pts_us: u64,
)
    requires
        is_session(raw, 0x01),
    ensures
        ({
            let r = a.received(raw, from, now_ms, pts_us);
            let m = protocol::parsed_message(raw)->Ok_0;
            &&& m.endpoints() is None ==> {
                &&& r.agent.endpoints is Some
                &&& r.agent.endpoints->0.door.id == "M00000000000"@
                &&& r.agent.endpoints->0.room.id == "S00000000000"@
            }
            &&& m.endpoints() matches Some(e) ==> (utf8::encode_utf8(e.door.id).len() > 20
                || utf8::encode_utf8(e.room.id).len() > 20 ==> r.outcome.reply is None)
            &&& r.agent.peer == Some(from)
        }),
{
}

impl SocketView {
    /// The packet that keeps the call alive, where there is a call and a door has rung.
    pub open spec fn keepalive_bytes(self) -> Option<Seq<u8>> {
        match self.endpoints {
            Some(e) => if self.desk.active() && e.fits() {
                Some(protocol::control_bytes(OP_KEEPALIVE, e))
            } else {
                None
            },
            None => None,
        }
    }

    /// Why nobody may talk now.
    pub open spec fn talk_refusal(self) -> Option<CallError> {
        if !self.desk.machine.remote_connected() {
            Some(CallError::UnlockNotAllowed)
        } else if self.endpoints is None {
            Some(CallError::AgentOffline)
        } else {
            None
        }
    }

    /// The packet with the next samples for the door.
    pub open spec fn talk_bytes(self, frame: Seq<u8>, e: EndpointsView) -> Option<Seq<u8>> {
        if frame.len() == 512 && e.fits() {
            Some(protocol::audio_bytes((self.audio_seq % 0x1_0000) as u16, frame, e))
        } else {
            None
        }
    }
}

/// A call is kept alive with a session packet that names its stations and has the opcode 0x0c;
/// without a call, or before a door has rung, nothing is sent. One may talk exactly once the call
/// has been answered from afar and a door has rung; what is said goes out in whole pieces, under
/// the low 16 bits of the count.
pub proof fn law_calls_are_kept_up(a: SocketView, frame: Seq<u8>, e: EndpointsView)
    requires
        e.fits(),
        e.door.nul_free(),
        e.room.nul_free(),
    ensures
        a.desk.machine.state.phase == CallPhase::Idle ==> a.keepalive_bytes() is None,
        a.endpoints is None ==> a.keepalive_bytes() is None,
        a.endpoints == Some(e) && a.desk.machine.state.phase != CallPhase::Idle ==> {
            let m = protocol::parsed_message(a.keepalive_bytes()->0);
            &&& a.keepalive_bytes() is Some
            &&& m is Ok
            &&& m->Ok_0.family == 0x00b7
            &&& m->Ok_0.opcode == 0x0c
            &&& m->Ok_0.endpoints() == Some(e)
        },
        ({
            let s = a.desk.machine.state;
            let ours = s.phase == CallPhase::Connected && s.owner == Owner::Remote;
            &&& a.talk_refusal() is None <==> ours && a.endpoints is Some
            &&& a.talk_refusal() == Some(CallError::UnlockNotAllowed) <==> !ours
            &&& a.talk_refusal() == Some(CallError::AgentOffline) <==> ours && a.endpoints is None
        }),
        a.talk_bytes(frame, e) is Some <==> frame.len() == 512,
        frame.len() == 512 ==> {
            let m = protocol::parsed_message(a.talk_bytes(frame, e)->0);
            &&& m is Ok
            &&& m->Ok_0.endpoints() == Some(e)
            &&& m->Ok_0.media() is Some
            &&& m->Ok_0.media()->0.media_type == 3
            &&& m->Ok_0.media()->0.sequence as int == a.audio_seq as int % 0x1_0000
            &&& m->Ok_0.media()->0.data == frame
        },
{
    protocol::law_control_round_trip(0x0c, e);
    if frame.len() == 512 {
        protocol::law_audio_packet_names_its_stations(
            (a.audio_seq % 0x1_0000) as u16,
            frame,
            e,
        );
    }
}

} // verus!
