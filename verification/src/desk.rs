//! What every Agent does above its wire: it runs the call machine, reports events, carries out
//! each command once and keeps the latest media.

use vstd::prelude::*;
use crate::agent_api;
use crate::agent_api::{
    AudioChunk, AudioInfo, CacheView, CallAction, CallError, CallState, CallStateView,
    CommandCache, CommandResult, Event, EventKind, EventLog, EventView, KindView, LogView,
    MediaHistory, MediaInfo, MediaRing, MediaView, Piece, ResultView, RingView, VideoFrame,
    VideoInfo,
};
use crate::protocol;
use crate::protocol::{Endpoints, EndpointsView, OP_ANSWER, OP_HANGUP, OP_UNLOCK};
use crate::state::{CallMachine, CallPhase, MachineView, Owner};
use crate::text;
use crate::time::{Duration, Instant};

verus! {

/// The call, its events and its media.
pub struct CallDesk {
    machine: CallMachine,
    since_ms: Option<u64>,
    events: EventLog,
    commands: CommandCache,
    latest: Option<VideoFrame>,
    history: MediaRing,
}

/// What a desk holds.
pub struct DeskView {
    pub machine: MachineView,
    pub since_ms: Option<u64>,
    pub log: LogView,
    pub cache: CacheView,
    pub latest: Option<MediaView>,
    pub ring: RingView,
}

/// The view of an optional frame.
pub open spec fn frame_view(f: Option<VideoFrame>) -> Option<MediaView> {
    match f {
        Some(frame) => Some(frame@),
        None => None,
    }
}

/// The view of an optional piece of audio.
pub open spec fn chunk_view(c: Option<AudioChunk>) -> Option<MediaView> {
    match c {
        Some(chunk) => Some(chunk@),
        None => None,
    }
}

/// The view of an optional event.
pub open spec fn event_view(e: Option<Event>) -> Option<EventView> {
    match e {
        Some(event) => Some(event@),
        None => None,
    }
}

impl View for CallDesk {
    type V = DeskView;

    closed spec fn view(&self) -> DeskView {
        DeskView {
            machine: self.machine@,
            since_ms: self.since_ms,
            log: self.events@,
            cache: self.commands@,
            latest: frame_view(self.latest),
            ring: self.history@,
        }
    }
}

/// The opcode that tells the door of an action.
pub open spec fn opcode_of(action: CallAction) -> u32 {
    match action {
        CallAction::Claim => OP_ANSWER,
        CallAction::Unlock => OP_UNLOCK,
        CallAction::Hangup => OP_HANGUP,
    }
}

/// The opcode that tells the door of an action.
pub fn action_opcode(action: CallAction) -> (r: u32)
    ensures
        r == opcode_of(action),
{
    match action {
        CallAction::Claim => OP_ANSWER,
        CallAction::Unlock => OP_UNLOCK,
        CallAction::Hangup => OP_HANGUP,
    }
}

impl DeskView {
    /// A desk at which nothing has happened.
    pub open spec fn fresh(machine: MachineView, history: Duration, history_max_bytes: usize) -> DeskView {
        DeskView {
            machine,
            since_ms: None,
            log: LogView { events: Seq::empty(), next_seq: 1, capacity: 256 },
            cache: CacheView { results: Map::empty(), order: Seq::empty(), capacity: 256 },
            latest: None,
            ring: RingView::fresh(history, history_max_bytes),
        }
    }

    /// The session of the call, in decimal notation.
    pub open spec fn session(self) -> Seq<char> {
        text::decimal(self.machine.state.session_id as nat)
    }

    /// Whether a call rings or is connected.
    pub open spec fn active(self) -> bool {
        self.machine.state.phase != CallPhase::Idle
    }

    /// The event that the next report becomes.
    pub open spec fn next_event(self, now_ms: u64, kind: KindView) -> EventView {
        EventView { seq: self.log.next_seq, at_ms: now_ms, kind }
    }

    /// The desk with one more event.
    pub open spec fn reported(self, now_ms: u64, kind: KindView) -> DeskView {
        DeskView { log: self.log.with_event(now_ms, kind), ..self }
    }

    /// The desk with the result of a command.
    pub open spec fn settled(self, result: ResultView) -> DeskView {
        DeskView { cache: self.cache.with_result(result), ..self }
    }

    /// A new call rings.
    pub open spec fn call_started(
        self,
        session_id: u64,
        door: Seq<char>,
        room: Seq<char>,
        now_ms: u64,
    ) -> DeskView {
        DeskView {
            machine: self.machine.started(session_id),
            since_ms: Some(now_ms),
            ..self
        }.reported(now_ms, started_kind(session_id, door, room))
    }

    /// The Pad answers; the answer counts only where the call still rings.
    pub open spec fn pad_answered(self, session_id: u64, now_ms: u64) -> DeskView {
        if self.machine.pad_refusal() is None {
            DeskView {
                machine: self.machine.answered(Owner::Pad),
                since_ms: Some(now_ms),
                ..self
            }.reported(now_ms, answered_kind(session_id))
        } else {
            self
        }
    }

    /// The Pad opens the door; this is reported only where the Pad owns the call.
    pub open spec fn pad_unlocked(self, session_id: u64, now_ms: u64) -> DeskView {
        if self.machine.state.owner == Owner::Pad {
            self.reported(now_ms, unlocked_kind(session_id))
        } else {
            self
        }
    }

    /// The call is over; this is reported only where there was one.
    pub open spec fn call_ended(self, session_id: u64, reason: Seq<char>, now_ms: u64) -> DeskView {
        let idle = DeskView { machine: self.machine.ended(), since_ms: Some(now_ms), ..self };
        if self.active() {
            idle.reported(now_ms, ended_kind(session_id, reason))
        } else {
            idle
        }
    }

    /// A video frame comes in.
    pub open spec fn with_video(self, frame: MediaView) -> DeskView {
        DeskView { latest: Some(frame), ring: self.ring.with_video(frame), ..self }
    }

    /// A piece of audio comes in.
    pub open spec fn with_audio(self, chunk: MediaView) -> DeskView {
        DeskView { ring: self.ring.with_audio(chunk), ..self }
    }

    /// Why a remote action is refused.
    pub open spec fn refusal(self, action: CallAction, now: Instant) -> Option<CallError> {
        match action {
            CallAction::Claim => match self.machine.remote_refusal() {
                Some(e) => Some(agent_api::rejection(e)),
                None => None,
            },
            CallAction::Unlock => match self.machine.unlock_refusal(now) {
                Some(e) => Some(agent_api::rejection(e)),
                None => None,
            },
            CallAction::Hangup => if self.active() {
                None
            } else {
                Some(CallError::NoCall)
            },
        }
    }

    /// The call once a remote action has been carried out.
    pub open spec fn acted(self, action: CallAction, now: Instant, now_ms: u64) -> DeskView {
        match action {
            CallAction::Claim => DeskView {
                machine: self.machine.answered(Owner::Remote),
                since_ms: Some(now_ms),
                ..self
            },
            CallAction::Unlock => DeskView { machine: self.machine.unlocked(now), ..self },
            CallAction::Hangup => DeskView {
                machine: self.machine.ended(),
                since_ms: Some(now_ms),
                ..self
            },
        }
    }

    /// What is reported of a remote action.
    pub open spec fn report_of(self, action: CallAction) -> KindView {
        match action {
            CallAction::Claim => KindView::RemoteAnswered { session_id: self.session() },
            CallAction::Unlock => KindView::Unlocked {
                session_id: self.session(),
                by: Owner::Remote,
            },
            CallAction::Hangup => KindView::CallEnded {
                session_id: self.session(),
                reason: "remote_hangup"@,
            },
        }
    }

    /// The outcome of a command that needs no wire.
    pub open spec fn local_result(self, action: CallAction, id: Seq<char>, now: Instant) -> ResultView {
        match self.cache.lookup(id) {
            Some(result) => result,
            None => match self.refusal(action, now) {
                Some(e) => ResultView::refused(id, e),
                None => ResultView::succeeded(id),
            },
        }
    }

    /// The desk once such a command has been dealt with. A command that was dealt with before
    /// changes nothing.
    pub open spec fn executed(
        self,
        action: CallAction,
        id: Seq<char>,
        now: Instant,
        now_ms: u64,
    ) -> DeskView {
        if self.cache.lookup(id) is Some {
            self
        } else if self.refusal(action, now) is Some {
            self.settled(self.local_result(action, id, now))
        } else {
            self.acted(action, now, now_ms).reported(now_ms, self.report_of(action)).settled(
                self.local_result(action, id, now),
            )
        }
    }
}

/// What is reported of a call that rings.
pub open spec fn started_kind(session_id: u64, door: Seq<char>, room: Seq<char>) -> KindView {
    KindView::CallStarted {
        session_id: text::decimal(session_id as nat),
        door_id: door,
        room_id: room,
    }
}

/// What is reported of the Pad's answer.
pub open spec fn answered_kind(session_id: u64) -> KindView {
    KindView::PadAnswered { session_id: text::decimal(session_id as nat) }
}

/// What is reported where the Pad opens the door.
pub open spec fn unlocked_kind(session_id: u64) -> KindView {
    KindView::Unlocked { session_id: text::decimal(session_id as nat), by: Owner::Pad }
}

/// What is reported of the end of a call.
pub open spec fn ended_kind(session_id: u64, reason: Seq<char>) -> KindView {
    KindView::CallEnded { session_id: text::decimal(session_id as nat), reason }
}

/// A command that waits for its packet to be sent.
#[derive(Debug)]
pub struct Prepared {
    pub report: EventKind,
    pub packet: Vec<u8>,
}

/// What preparing a command for the wire gives: the report and the packet of it, or why it is
/// refused.
pub open spec fn preparation(
    d: DeskView,
    action: CallAction,
    e: EndpointsView,
    now: Instant,
) -> Result<(KindView, Seq<u8>), CallError> {
    match d.refusal(action, now) {
        Some(error) => Err(error),
        None => if e.fits() {
            Ok((d.report_of(action), protocol::control_bytes(opcode_of(action), e)))
        } else {
            Err(CallError::AgentOffline)
        },
    }
}

/// The desk once a command has been prepared: the call has changed where the action is allowed.
pub open spec fn after_preparation(
    d: DeskView,
    action: CallAction,
    now: Instant,
    now_ms: u64,
) -> DeskView {
    if d.refusal(action, now) is Some {
        d
    } else {
        d.acted(action, now, now_ms)
    }
}

impl CallDesk {
    /// Whether the parts of the desk are in order: the events are numbered without gaps, and the
    /// results of commands are kept once each, no more of them than there is room for.
    pub open spec fn wf(&self) -> bool {
        &&& self@.log.consecutive()
        &&& self@.cache.coherent()
        &&& self@.cache.bounded()
        &&& self.parts_wf()
    }

    /// Whether the parts of the desk are in order, each for itself.
    pub closed spec fn parts_wf(&self) -> bool {
        &&& self.commands.wf()
        &&& self.history.wf()
    }

    /// Whether the desk is in order and there is a number left for another event.
    pub open spec fn ready(&self) -> bool {
        self.wf() && self@.log.next_seq < u64::MAX
    }

    pub fn new(machine: CallMachine, history: Duration, history_max_bytes: usize) -> (r: Self)
        ensures
            r.ready(),
            r@ == DeskView::fresh(machine@, history, history_max_bytes),
    {
        CallDesk {
            machine,
            since_ms: None,
            events: EventLog::new(256),
            commands: CommandCache::new(256),
            latest: None,
            history: MediaRing::new(history, history_max_bytes),
        }
    }

    /// Whether there is a number left for another event.
    pub fn has_room(&self) -> (r: bool)
        ensures
            r == (self@.log.next_seq < u64::MAX),
    {
        self.events.has_room()
    }

    /// Whether there are numbers left for `n` more events.
    pub fn has_room_for(&self, n: usize) -> (r: bool)
        ensures
            r == (self@.log.next_seq + n <= u64::MAX),
    {
        self.events.has_room_for(n)
    }

    pub fn is_active(&self) -> (r: bool)
        ensures
            r == self@.active(),
    {
        self.machine.state().phase != CallPhase::Idle
    }

    pub fn session_id(&self) -> (r: u64)
        ensures
            r == self@.machine.state.session_id,
    {
        self.machine.state().session_id
    }

    /// The session of the call, in decimal notation.
    pub fn session_string(&self) -> (r: String)
        ensures
            r@ == self@.session(),
    {
        text::decimal_text(self.machine.state().session_id)
    }

    /// Whether the remote side may talk: it has answered and owns the call.
    pub fn talk_allowed(&self) -> (r: bool)
        ensures
            r == self@.machine.remote_connected(),
    {
        self.machine.remote_media_allowed(self.machine.state().session_id)
    }

    /// Reports an event.
    pub fn report(&mut self, now_ms: u64, kind: EventKind) -> (r: Event)
        requires
            old(self).ready(),
        ensures
            final(self).wf(),
            final(self)@ == old(self)@.reported(now_ms, kind@),
            r@ == old(self)@.next_event(now_ms, kind@),
    {
        self.events.push(now_ms, kind)
    }

    /// A new call rings.
    pub fn start_call(&mut self, session_id: u64, door: &str, room: &str, now_ms: u64) -> (r: Event)
        requires
            old(self).ready(),
        ensures
            final(self).wf(),
            final(self)@ == old(self)@.call_started(session_id, door@, room@, now_ms),
            r@ == old(self)@.next_event(now_ms, started_kind(session_id, door@, room@)),
    {
        self.machine.start_call(session_id);
        self.since_ms = Some(now_ms);
        self.report(
            now_ms,
            EventKind::CallStarted {
                session_id: text::decimal_text(session_id),
                door_id: door.to_owned(),
                room_id: room.to_owned(),
            },
        )
    }

    /// The Pad answers.
    pub fn pad_answer(&mut self, session_id: u64, now_ms: u64) -> (r: Option<Event>)
        requires
            old(self).ready(),
        ensures
            final(self).wf(),
            final(self)@ == old(self)@.pad_answered(session_id, now_ms),
            event_view(r) == (if old(self)@.machine.pad_refusal() is None {
                Some(old(self)@.next_event(now_ms, answered_kind(session_id)))
            } else {
                None
            }),
    {
        match self.machine.pad_answer() {
            Ok(_) => {
                self.since_ms = Some(now_ms);
                Some(
                    self.report(
                        now_ms,
                        EventKind::PadAnswered { session_id: text::decimal_text(session_id) },
                    ),
                )
            },
            Err(_) => None,
        }
    }

    /// The Pad opens the door.
    pub fn pad_unlock(&mut self, session_id: u64, now_ms: u64) -> (r: Option<Event>)
        requires
            old(self).ready(),
        ensures
            final(self).wf(),
            final(self)@ == old(self)@.pad_unlocked(session_id, now_ms),
            event_view(r) == (if old(self)@.machine.state.owner == Owner::Pad {
                Some(old(self)@.next_event(now_ms, unlocked_kind(session_id)))
            } else {
                None
            }),
    {
        if self.machine.state().owner == Owner::Pad {
            Some(
                self.report(
                    now_ms,
                    EventKind::Unlocked {
                        session_id: text::decimal_text(session_id),
                        by: Owner::Pad,
                    },
                ),
            )
        } else {
            None
        }
    }

    /// The call is over.
    pub fn end_call(&mut self, session_id: u64, reason: &str, now_ms: u64) -> (r: Option<Event>)
        requires
            old(self).ready(),
        ensures
            final(self).wf(),
            final(self)@ == old(self)@.call_ended(session_id, reason@, now_ms),
            event_view(r) == (if old(self)@.active() {
                Some(old(self)@.next_event(now_ms, ended_kind(session_id, reason@)))
            } else {
                None
            }),
    {
        let active: bool = self.is_active();
        self.machine.hangup();
        self.since_ms = Some(now_ms);
        if active {
            Some(
                self.report(
                    now_ms,
                    EventKind::CallEnded {
                        session_id: text::decimal_text(session_id),
                        reason: reason.to_owned(),
                    },
                ),
            )
        } else {
            None
        }
    }

    /// Takes in a video frame.
    pub fn push_video(&mut self, frame: &VideoFrame)
        requires
            old(self).wf(),
        ensures
            final(self).wf(),
            final(self)@ == old(self)@.with_video(frame@),
    {
        self.latest = Some(frame.clone());
        self.history.push_video(frame);
    }

    /// Takes in a piece of audio.
    pub fn push_audio(&mut self, chunk: &AudioChunk)
        requires
            old(self).wf(),
        ensures
            final(self).wf(),
            final(self)@ == old(self)@.with_audio(chunk@),
    {
        self.history.push_audio(chunk);
    }

    /// The result of a command that was dealt with before.
    pub fn replayed(&self, command_id: &str) -> (r: Option<CommandResult>)
        requires
            self.wf(),
        ensures
            match r {
                Some(result) => self@.cache.lookup(command_id@) == Some(result@),
                None => self@.cache.lookup(command_id@) is None,
            },
    {
        self.commands.get(command_id)
    }

    /// Keeps the result of a command.
    pub fn settle(&mut self, result: &CommandResult)
        requires
            old(self).wf(),
        ensures
            final(self).wf(),
            final(self)@ == old(self)@.settled(result@),
    {
        self.commands.store(result);
    }

    /// Carries a remote action out on the call, and gives what is to be reported of it.
    pub fn act(&mut self, action: CallAction, now: Instant, now_ms: u64) -> (r: Result<
        EventKind,
        CallError,
    >)
        requires
            old(self).wf(),
        ensures
            final(self).wf(),
            final(self)@ == after_preparation(old(self)@, action, now, now_ms),
            match r {
                Ok(kind) => old(self)@.refusal(action, now) is None && kind@ == old(
                    self,
                )@.report_of(action),
                Err(e) => old(self)@.refusal(action, now) == Some(e),
            },
    {
        let session = self.session_string();
        match action {
            CallAction::Claim => match self.machine.remote_answer() {
                Ok(_) => {
                    self.since_ms = Some(now_ms);
                    Ok(EventKind::RemoteAnswered { session_id: session })
                },
                Err(e) => Err(CallError::from(e)),
            },
            CallAction::Unlock => match self.machine.unlock(now) {
                Ok(_) => Ok(EventKind::Unlocked { session_id: session, by: Owner::Remote }),
                Err(e) => Err(CallError::from(e)),
            },
            CallAction::Hangup => if self.is_active() {
                self.machine.hangup();
                self.since_ms = Some(now_ms);
                Ok(
                    EventKind::CallEnded {
                        session_id: session,
                        reason: "remote_hangup".to_owned(),
                    },
                )
            } else {
                Err(CallError::NoCall)
            },
        }
    }

    /// Deals with a command that needs no wire.
    pub fn execute(&mut self, action: CallAction, command_id: &str, now: Instant, now_ms: u64) -> (r:
        (CommandResult, Option<Event>))
        requires
            old(self).ready(),
        ensures
            final(self).wf(),
            final(self)@ == old(self)@.executed(action, command_id@, now, now_ms),
            r.0@ == old(self)@.local_result(action, command_id@, now),
            event_view(r.1) == (if old(self)@.cache.lookup(command_id@) is None && old(
                self,
            )@.refusal(action, now) is None {
                Some(old(self)@.next_event(now_ms, old(self)@.report_of(action)))
            } else {
                None
            }),
    {
        if let Some(result) = self.replayed(command_id) {
            return (result, None);
        }
        match self.act(action, now, now_ms) {
            Ok(kind) => {
                let event = self.report(now_ms, kind);
                let result = CommandResult::ok(command_id);
                self.settle(&result);
                (result, Some(event))
            },
            Err(error) => {
                let result = CommandResult::rejected(command_id, error);
                self.settle(&result);
                (result, None)
            },
        }
    }

    /// Carries a remote action out on the call, and builds the packet that tells the door of it.
    pub fn prepare(&mut self, action: CallAction, endpoints: &Endpoints, now: Instant, now_ms: u64)
        -> (r: Result<Prepared, CallError>)
        requires
            old(self).wf(),
        ensures
            final(self).wf(),
            final(self)@ == after_preparation(old(self)@, action, now, now_ms),
            match r {
                Ok(p) => preparation(old(self)@, action, endpoints@, now) == Ok::<
                    (KindView, Seq<u8>),
                    CallError,
                >((p.report@, p.packet@)),
                Err(e) => preparation(old(self)@, action, endpoints@, now) == Err::<
                    (KindView, Seq<u8>),
                    CallError,
                >(e),
            },
    {
        match self.act(action, now, now_ms) {
            Ok(report) => match protocol::session_control(action_opcode(action), endpoints) {
                Ok(packet) => Ok(Prepared { report, packet }),
                Err(_) => Err(CallError::AgentOffline),
            },
            Err(e) => Err(e),
        }
    }

    /// Closes a prepared command once its packet has been sent, or could not be.
    pub fn conclude(&mut self, command_id: &str, report: EventKind, sent: bool, now_ms: u64) -> (r: (
        CommandResult,
        Option<Event>,
    ))
        requires
            old(self).ready(),
        ensures
            final(self).wf(),
            final(self)@ == concluded(old(self)@, command_id@, report@, sent, now_ms),
            r.0@ == conclusion(command_id@, sent),
            event_view(r.1) == (if sent {
                Some(old(self)@.next_event(now_ms, report@))
            } else {
                None
            }),
    {
        if sent {
            let event = self.report(now_ms, report);
            let result = CommandResult::ok(command_id);
            self.settle(&result);
            (result, Some(event))
        } else {
            let result = CommandResult::rejected(command_id, CallError::AgentOffline);
            self.settle(&result);
            (result, None)
        }
    }

    /// The state of the call as a backend sees it.
    pub fn call_state(
        &self,
        door_id: Option<String>,
        room_id: Option<String>,
        agent_id: String,
        uptime_ms: u64,
    ) -> (r: CallState)
        ensures
            r@ == public_state(
                self@,
                text::text_view(door_id),
                text::text_view(room_id),
                agent_id@,
                uptime_ms,
            ),
    {
        let state = *self.machine.state();
        let session_id = if self.is_active() {
            Some(self.session_string())
        } else {
            None
        };
        CallState {
            phase: state.phase,
            owner: state.owner,
            session_id,
            door_id,
            room_id,
            since_ms: self.since_ms,
            agent_id,
            connected: true,
            uptime_ms,
        }
    }

    /// The events behind number `after_seq`.
    pub fn recent(&self, after_seq: u64) -> (r: Option<Vec<Event>>)
        requires
            self.wf(),
        ensures
            match r {
                Some(events) => self@.log.since(after_seq) == Some(
                    agent_api::event_views(events@),
                ),
                None => self@.log.since(after_seq) is None,
            },
    {
        self.events.recent(after_seq)
    }

    /// The latest frame.
    pub fn snapshot(&self) -> (r: Option<VideoFrame>)
        ensures
            frame_view(r) == self@.latest,
    {
        match &self.latest {
            Some(frame) => Some(frame.clone()),
            None => None,
        }
    }

    /// The buffered media later than `since_us`.
    pub fn history(&self, since_us: u64) -> (r: MediaHistory)
        ensures
            r.video@.map_values(|f: VideoFrame| f@) == agent_api::later(self@.ring.video, since_us),
            r.audio@.map_values(|a: AudioChunk| a@) == agent_api::later(self@.ring.audio, since_us),
    {
        self.history.history(since_us)
    }

    /// The media that a backend can have, with or without talking back.
    pub fn media_info(&self, talk: bool) -> (r: MediaInfo)
        ensures
            is_media_info(r, talk, self@.ring),
    {
        MediaInfo {
            rtsp_url: None,
            video: VideoInfo { codec: "jpeg".to_owned(), width: 640, height: 480 },
            audio: AudioInfo { codec: "pcm_s16le".to_owned(), sample_rate: 8000, channels: 1 },
            talk,
            history_ms: self.history.window().millis(),
            buffered_ms: self.history.buffered().millis(),
        }
    }
}

/// What a media description says: fixed formats, and the pre-roll in milliseconds.
pub open spec fn is_media_info(info: MediaInfo, talk: bool, ring: RingView) -> bool {
    &&& info.rtsp_url is None
    &&& info.video.codec@ == "jpeg"@
    &&& info.video.width == 640
    &&& info.video.height == 480
    &&& info.audio.codec@ == "pcm_s16le"@
    &&& info.audio.sample_rate == 8000
    &&& info.audio.channels == 1
    &&& info.talk == talk
    &&& info.history_ms as int == ring.window_us as int / 1_000
    &&& info.buffered_ms as int == ring.span_us() / 1_000
}

/// The state of a call as a backend sees it.
pub open spec fn public_state(
    d: DeskView,
    door_id: Option<Seq<char>>,
    room_id: Option<Seq<char>>,
    agent_id: Seq<char>,
    uptime_ms: u64,
) -> CallStateView {
    CallStateView {
        phase: d.machine.state.phase,
        owner: d.machine.state.owner,
        session_id: if d.active() {
            Some(d.session())
        } else {
            None
        },
        door_id,
        room_id,
        since_ms: d.since_ms,
        agent_id,
        connected: true,
        uptime_ms,
    }
}

/// The result of a prepared command.
pub open spec fn conclusion(id: Seq<char>, sent: bool) -> ResultView {
    if sent {
        ResultView::succeeded(id)
    } else {
        ResultView::refused(id, CallError::AgentOffline)
    }
}

/// The desk once a prepared command has been closed.
pub open spec fn concluded(
    d: DeskView,
    id: Seq<char>,
    report: KindView,
    sent: bool,
    now_ms: u64,
) -> DeskView {
    if sent {
        d.reported(now_ms, report).settled(conclusion(id, sent))
    } else {
        d.settled(conclusion(id, sent))
    }
}

/// A command that is sent again changes nothing and is answered as it was the first time.
pub proof fn law_command_runs_once(
    d: DeskView,
    action: CallAction,
    id: Seq<char>,
    now: Instant,
    now_ms: u64,
    again: CallAction,
    later: Instant,
    later_ms: u64,
)
    ensures
        ({
            let after = d.executed(action, id, now, now_ms);
            &&& after.executed(again, id, later, later_ms) == after
            &&& after.local_result(again, id, later) == d.local_result(action, id, now).again()
        }),
{
}

/// A command whose packet was handed to the wire is answered again from the cache, whether the
/// packet got out or not.
pub proof fn law_wire_command_runs_once(
    d: DeskView,
    id: Seq<char>,
    report: KindView,
    sent: bool,
    now_ms: u64,
)
    ensures
        concluded(d, id, report, sent, now_ms).cache.lookup(id) == Some(
            conclusion(id, sent).again(),
        ),
{
}

/// The frame that was taken in last is the latest one, whatever came before it: after a run of
/// frames and sound it is the last of the frames.
pub proof fn law_latest_frame_is_the_last(d: DeskView, pieces: Seq<Piece>, frame: MediaView)
    ensures
        d.with_video(frame).latest == Some(frame),
        media_taken(d, pieces).latest == (if agent_api::video_of(pieces).len() > 0 {
            Some(agent_api::video_of(pieces).last())
        } else {
            d.latest
        }),
        media_taken(d, pieces).ring == agent_api::ring_run(d.ring, pieces),
        media_taken(d, pieces).machine == d.machine,
        media_taken(d, pieces).log == d.log,
        media_taken(d, pieces).cache == d.cache,
        media_taken(d, pieces).since_ms == d.since_ms,
    decreases pieces.len(),
{
    if pieces.len() > 0 {
        law_latest_frame_is_the_last(d, pieces.drop_last(), frame);
    }
}

/// The desk once these pieces of media have come in, one after the other.
pub open spec fn media_taken(d: DeskView, pieces: Seq<Piece>) -> DeskView
    decreases pieces.len(),
{
    if pieces.len() == 0 {
        d
    } else {
        let before = media_taken(d, pieces.drop_last());
        match pieces.last() {
            Piece::Video(frame) => before.with_video(frame),
            Piece::Audio(chunk) => before.with_audio(chunk),
        }
    }
}

/// A report goes to the end of the log under the next number and its own time; the event that is
/// handed out is the one that is logged.
pub proof fn law_reports_are_logged(d: DeskView, now_ms: u64, kind: KindView)
    requires
        d.log.next_seq < u64::MAX,
    ensures
        ({
            let after = d.reported(now_ms, kind);
            &&& after.log.events.len() > 0
            &&& after.log.events.last() == d.next_event(now_ms, kind)
            &&& d.next_event(now_ms, kind).seq == d.log.next_seq
            &&& d.next_event(now_ms, kind).at_ms == now_ms
            &&& d.next_event(now_ms, kind).kind == kind
            &&& after.log.next_seq == d.log.next_seq + 1
            &&& after.machine == d.machine
            &&& after.cache == d.cache
            &&& after.ring == d.ring
            &&& after.latest == d.latest
            &&& after.since_ms == d.since_ms
        }),
{
}

/// What the desk makes of a call on the wire. A ring starts it and is reported with both stations;
/// the Pad's answer counts while the call rings; the Pad opens the door only of its own call; the
/// end makes it idle, and is reported where there was one.
pub proof fn law_desk_follows_the_call(
    d: DeskView,
    session_id: u64,
    door: Seq<char>,
    room: Seq<char>,
    reason: Seq<char>,
    now_ms: u64,
)
    ensures
        ({
            let number = text::decimal(session_id as nat);
            let s = d.call_started(session_id, door, room, now_ms);
            &&& s.machine.state.phase == CallPhase::Ringing
            &&& s.machine.state.owner == Owner::Nobody
            &&& s.machine.state.session_id == session_id
            &&& s.since_ms == Some(now_ms)
            &&& s.log == d.log.with_event(
                now_ms,
                KindView::CallStarted { session_id: number, door_id: door, room_id: room },
            )
            &&& s.cache == d.cache && s.ring == d.ring && s.latest == d.latest
        }),
        ({
            let number = text::decimal(session_id as nat);
            let p = d.pad_answered(session_id, now_ms);
            if d.machine.state.phase == CallPhase::Ringing && d.machine.state.owner
                != Owner::Remote {
                &&& p.machine.state.phase == CallPhase::Connected
                &&& p.machine.state.owner == Owner::Pad
                &&& p.machine.state.session_id == d.machine.state.session_id
                &&& p.since_ms == Some(now_ms)
                &&& p.log == d.log.with_event(
                    now_ms,
                    KindView::PadAnswered { session_id: number },
                )
                &&& p.cache == d.cache && p.ring == d.ring && p.latest == d.latest
            } else {
                p == d
            }
        }),
        ({
            let number = text::decimal(session_id as nat);
            let u = d.pad_unlocked(session_id, now_ms);
            if d.machine.state.owner == Owner::Pad {
                &&& u.machine == d.machine
                &&& u.since_ms == d.since_ms
                &&& u.log == d.log.with_event(
                    now_ms,
                    KindView::Unlocked { session_id: number, by: Owner::Pad },
                )
                &&& u.cache == d.cache && u.ring == d.ring && u.latest == d.latest
            } else {
                u == d
            }
        }),
        ({
            let number = text::decimal(session_id as nat);
            let e = d.call_ended(session_id, reason, now_ms);
            &&& e.machine.state.phase == CallPhase::Idle
            &&& e.machine.state.owner == Owner::Nobody
            &&& e.machine.state.session_id == d.machine.state.session_id
            &&& e.since_ms == Some(now_ms)
            &&& e.log == (if d.machine.state.phase != CallPhase::Idle {
                d.log.with_event(now_ms, KindView::CallEnded { session_id: number, reason })
            } else {
                d.log
            })
            &&& e.cache == d.cache && e.ring == d.ring && e.latest == d.latest
        }),
{
}

/// When a command of a backend is allowed, and why it is not: a claim needs a call that rings and
/// that the Pad does not own, a hangup needs a call, and opening the door is up to the policy and
/// the cooldown alone.
pub proof fn law_commands_are_arbitrated(d: DeskView, now: Instant)
    ensures
        d.refusal(CallAction::Claim, now) is None <==> d.machine.state.phase
            == CallPhase::Ringing && d.machine.state.owner != Owner::Pad,
        d.machine.state.phase != CallPhase::Ringing ==> d.refusal(CallAction::Claim, now)
            == Some(CallError::NotRinging),
        d.refusal(CallAction::Hangup, now) == (if d.machine.state.phase == CallPhase::Idle {
            Some(CallError::NoCall)
        } else {
            None
        }),
        !d.machine.unlock_requires_answer ==> (d.refusal(CallAction::Unlock, now) == (
        match d.machine.last_unlock {
            Some(last) => if d.machine.unlock_cooldown.nanos > 0 && now.nanos < last.nanos
                + d.machine.unlock_cooldown.nanos {
                Some(CallError::UnlockCooldown)
            } else {
                None
            },
            None => None,
        })),
        d.machine.unlock_requires_answer && !(d.machine.state.phase == CallPhase::Connected
            && d.machine.state.owner == Owner::Remote) ==> d.refusal(CallAction::Unlock, now)
            == Some(CallError::UnlockNotAllowed),
{
}

/// What a command that is allowed does to the call, and what is reported of it: a claim makes it
/// the remote side's, opening the door is counted and nothing else, a hangup ends it.
pub proof fn law_commands_act_on_the_call(d: DeskView, now: Instant, now_ms: u64)
    ensures
        ({
            let number = text::decimal(d.machine.state.session_id as nat);
            let c = d.acted(CallAction::Claim, now, now_ms);
            &&& c.machine.state.phase == CallPhase::Connected
            &&& c.machine.state.owner == Owner::Remote
            &&& c.machine.state.session_id == d.machine.state.session_id
            &&& c.machine.last_unlock == d.machine.last_unlock
            &&& c.since_ms == Some(now_ms)
            &&& d.report_of(CallAction::Claim) == KindView::RemoteAnswered { session_id: number }
        }),
        ({
            let number = text::decimal(d.machine.state.session_id as nat);
            let u = d.acted(CallAction::Unlock, now, now_ms);
            &&& u.machine.state.phase == d.machine.state.phase
            &&& u.machine.state.owner == d.machine.state.owner
            &&& u.machine.state.session_id == d.machine.state.session_id
            &&& u.machine.state.unlocks as int == (d.machine.state.unlocks + 1)
                % 0x1_0000_0000_0000_0000
            &&& u.machine.last_unlock == Some(now)
            &&& u.since_ms == d.since_ms
            &&& d.report_of(CallAction::Unlock) == (KindView::Unlocked {
                session_id: number,
                by: Owner::Remote,
            })
        }),
        ({
            let number = text::decimal(d.machine.state.session_id as nat);
            let h = d.acted(CallAction::Hangup, now, now_ms);
            &&& h.machine.state.phase == CallPhase::Idle
            &&& h.machine.state.owner == Owner::Nobody
            &&& h.machine.last_unlock is None
            &&& h.since_ms == Some(now_ms)
            &&& d.report_of(CallAction::Hangup) == (KindView::CallEnded {
                session_id: number,
                reason: "remote_hangup"@,
            })
        }),
        forall|action: CallAction| #[trigger]
            d.acted(action, now, now_ms).log == d.log && d.acted(action, now, now_ms).cache
                == d.cache && d.acted(action, now, now_ms).ring == d.ring && d.acted(
                action,
                now,
                now_ms,
            ).latest == d.latest,
{
}

/// A command that needs no wire is carried out and reported where it is allowed; where it is not,
/// the call and the log stay as they are. Either way its result is kept, and it is the result that
/// is given: the command succeeds exactly where it is allowed.
pub proof fn law_local_commands_take_effect(
    d: DeskView,
    action: CallAction,
    id: Seq<char>,
    now: Instant,
    now_ms: u64,
)
    requires
        d.cache.lookup(id) is None,
    ensures
        ({
            let after = d.executed(action, id, now, now_ms);
            let result = d.local_result(action, id, now);
            &&& result.command_id == id
            &&& result.error == d.refusal(action, now)
            &&& result.ok == (result.error is None)
            &&& !result.replayed
            &&& after.cache.lookup(id) == Some(result.again())
            &&& after.ring == d.ring && after.latest == d.latest
            &&& d.refusal(action, now) is None ==> after.machine == d.acted(
                action,
                now,
                now_ms,
            ).machine && after.since_ms == d.acted(action, now, now_ms).since_ms && after.log
                == d.log.with_event(now_ms, d.report_of(action))
            &&& d.refusal(action, now) is Some ==> after.machine == d.machine && after.since_ms
                == d.since_ms && after.log == d.log
        }),
{
}

/// A command for the wire is prepared exactly where it is allowed and the ids of the stations fit
/// a packet. Its packet is a session packet of 80 bytes that tells the door of the action: an
/// answer, an opening or a hangup.
pub proof fn law_prepared_packets_tell_the_door(
    d: DeskView,
    action: CallAction,
    e: EndpointsView,
    now: Instant,
    now_ms: u64,
)
    ensures
        (preparation(d, action, e, now) is Ok) <==> d.refusal(action, now) is None && e.fits(),
        d.refusal(action, now) matches Some(error) ==> preparation(d, action, e, now) == Err::<
            (KindView, Seq<u8>),
            CallError,
        >(error),
        d.refusal(action, now) is None && !e.fits() ==> preparation(d, action, e, now) == Err::<
            (KindView, Seq<u8>),
            CallError,
        >(CallError::AgentOffline),
        preparation(d, action, e, now) matches Ok((report, packet)) ==> {
            let m = protocol::parsed_message(packet);
            &&& report == d.report_of(action)
            &&& packet.len() == 80
            &&& m is Ok
            &&& m->Ok_0.family == 0x00b7
            &&& m->Ok_0.opcode == (match action {
                CallAction::Claim => 0x05u32,
                CallAction::Unlock => 0x06u32,
                CallAction::Hangup => 0x1eu32,
            })
            &&& m->Ok_0.body == e.packed()
        },
        d.refusal(action, now) is None ==> after_preparation(d, action, now, now_ms) == d.acted(
            action,
            now,
            now_ms,
        ),
        d.refusal(action, now) is Some ==> after_preparation(d, action, now, now_ms) == d,
{
    if e.fits() {
        protocol::lemma_control_length(0x05, e);
        protocol::lemma_control_length(0x06, e);
        protocol::lemma_control_length(0x1e, e);
        protocol::law_packet_round_trip(0x00b7, 0x05, 80, e.packed());
        protocol::law_packet_round_trip(0x00b7, 0x06, 80, e.packed());
        protocol::law_packet_round_trip(0x00b7, 0x1e, 80, e.packed());
    }
}

/// A command whose packet got out succeeds and is reported; one whose packet did not is answered
/// as offline, and nothing is reported. Either way the call stays as the command left it.
pub proof fn law_sending_decides_the_result(
    d: DeskView,
    id: Seq<char>,
    report: KindView,
    now_ms: u64,
)
    ensures
        conclusion(id, true) == (ResultView {
            command_id: id,
            ok: true,
            error: None,
            replayed: false,
        }),
        conclusion(id, false) == (ResultView {
            command_id: id,
            ok: false,
            error: Some(CallError::AgentOffline),
            replayed: false,
        }),
        concluded(d, id, report, true, now_ms).log == d.log.with_event(now_ms, report),
        concluded(d, id, report, false, now_ms).log == d.log,
        forall|sent: bool| #[trigger]
            concluded(d, id, report, sent, now_ms).machine == d.machine && concluded(
                d,
                id,
                report,
                sent,
                now_ms,
            ).since_ms == d.since_ms && concluded(d, id, report, sent, now_ms).ring == d.ring
                && concluded(d, id, report, sent, now_ms).latest == d.latest && concluded(
                d,
                id,
                report,
                sent,
                now_ms,
            ).cache == d.cache.with_result(conclusion(id, sent)),
{
}

/// A backend sees the phase and the owner of the call as they are, its session exactly while there
/// is a call, and what it was told of the stations and the Agent.
pub proof fn law_public_state_shows_the_call(
    d: DeskView,
    door_id: Option<Seq<char>>,
    room_id: Option<Seq<char>>,
    agent_id: Seq<char>,
    uptime_ms: u64,
)
    ensures
        ({
            let s = public_state(d, door_id, room_id, agent_id, uptime_ms);
            &&& s.phase == d.machine.state.phase
            &&& s.owner == d.machine.state.owner
            &&& s.session_id is Some <==> d.machine.state.phase != CallPhase::Idle
            &&& s.session_id matches Some(id) ==> id == text::decimal(
                d.machine.state.session_id as nat,
            )
            &&& s.door_id == door_id
            &&& s.room_id == room_id
            &&& s.agent_id == agent_id
            &&& s.since_ms == d.since_ms
            &&& s.uptime_ms == uptime_ms
            &&& s.connected
        }),
{
}

/// What a desk starts with: no call, no events, no results and no media, the policy of its
/// machine, room for 256 events and 256 results.
pub proof fn law_desk_starts_empty(machine: MachineView, history: Duration, max_bytes: usize)
    ensures
        ({
            let d = DeskView::fresh(machine, history, max_bytes);
            &&& d.machine == machine
            &&& d.since_ms is None
            &&& d.latest is None
            &&& d.log.events.len() == 0 && d.log.next_seq == 1 && d.log.capacity == 256
            &&& d.cache.order.len() == 0 && d.cache.capacity == 256
            &&& forall|id: Seq<char>| #[trigger] d.cache.lookup(id) is None
            &&& d.ring.video.len() == 0 && d.ring.audio.len() == 0
            &&& d.ring.max_bytes == max_bytes
            &&& history.nanos < 0x1_0000_0000_0000_0000 * 1_000 ==> d.ring.window_us
                == history.nanos / 1_000
        }),
{
}

/// What a media description says, in figures: frames of 640 by 480, sound of 8 kHz, one channel
/// and 16 bits, the pre-roll and what is held of it in milliseconds.
pub proof fn law_media_description(info: MediaInfo, talk: bool, ring: RingView)
    requires
        is_media_info(info, talk, ring),
    ensures
        info.rtsp_url is None,
        info.video.codec@ == "jpeg"@,
        info.video.width == 640 && info.video.height == 480,
        info.audio.codec@ == "pcm_s16le"@,
        info.audio.sample_rate == 8000 && info.audio.channels == 1,
        info.talk == talk,
        info.history_ms == ring.window_us / 1_000,
        info.buffered_ms as int == ring.span_us() / 1_000,
{
}

} // verus!
