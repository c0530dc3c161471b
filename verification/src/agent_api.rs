//! The interface that every backend programs against: call state, resumable events, idempotent
//! commands and the pre-roll of door media.

use std::collections::VecDeque;
use vstd::prelude::*;
use crate::bytes;
use crate::state::{CallPhase, Owner, StateError};
use crate::text;
use crate::time::Duration;

verus! {

/// The version of the control plane.
pub const API_VERSION: &'static str = "1";

pub const MEDIA_TYPE_JSON: &'static str = "application/json; v=1";

pub const MEDIA_TYPE_EVENTS: &'static str = "text/event-stream";

pub const MEDIA_TYPE_JPEG: &'static str = "image/jpeg";

pub const MEDIA_TYPE_L16: &'static str = "audio/L16; rate=8000; channels=1";

/// The state of the call as a backend sees it.
#[derive(Debug, PartialEq, Eq)]
pub struct CallState {
    pub phase: CallPhase,
    pub owner: Owner,
    pub session_id: Option<String>,
    pub door_id: Option<String>,
    pub room_id: Option<String>,
    pub since_ms: Option<u64>,
    pub agent_id: String,
    pub connected: bool,
    pub uptime_ms: u64,
}

/// What a call state says.
pub struct CallStateView {
    pub phase: CallPhase,
    pub owner: Owner,
    pub session_id: Option<Seq<char>>,
    pub door_id: Option<Seq<char>>,
    pub room_id: Option<Seq<char>>,
    pub since_ms: Option<u64>,
    pub agent_id: Seq<char>,
    pub connected: bool,
    pub uptime_ms: u64,
}

impl View for CallState {
    type V = CallStateView;

    open spec fn view(&self) -> CallStateView {
        CallStateView {
            phase: self.phase,
            owner: self.owner,
            session_id: text::text_view(self.session_id),
            door_id: text::text_view(self.door_id),
            room_id: text::text_view(self.room_id),
            since_ms: self.since_ms,
            agent_id: self.agent_id@,
            connected: self.connected,
            uptime_ms: self.uptime_ms,
        }
    }
}

impl Clone for CallState {
    fn clone(&self) -> (r: Self)
        ensures
            r@ == self@,
    {
        CallState {
            phase: self.phase,
            owner: self.owner,
            session_id: text::copy_text(&self.session_id),
            door_id: text::copy_text(&self.door_id),
            room_id: text::copy_text(&self.room_id),
            since_ms: self.since_ms,
            agent_id: self.agent_id.clone(),
            connected: self.connected,
            uptime_ms: self.uptime_ms,
        }
    }
}

/// What can be reported.
#[derive(Debug, PartialEq, Eq)]
pub enum EventKind {
    Snapshot { state: CallState },
    CallStarted { session_id: String, door_id: String, room_id: String },
    PadAnswered { session_id: String },
    RemoteAnswered { session_id: String },
    Unlocked { session_id: String, by: Owner },
    CallEnded { session_id: String, reason: String },
    AgentError { message: String },
    MonitorStarted { camera_id: String },
    MonitorStopped { camera_id: String, reason: String },
    ElevatorCalled { room_id: String },
}

/// What a report says.
pub enum KindView {
    Snapshot { state: CallStateView },
    CallStarted { session_id: Seq<char>, door_id: Seq<char>, room_id: Seq<char> },
    PadAnswered { session_id: Seq<char> },
    RemoteAnswered { session_id: Seq<char> },
    Unlocked { session_id: Seq<char>, by: Owner },
    CallEnded { session_id: Seq<char>, reason: Seq<char> },
    AgentError { message: Seq<char> },
    MonitorStarted { camera_id: Seq<char> },
    MonitorStopped { camera_id: Seq<char>, reason: Seq<char> },
    ElevatorCalled { room_id: Seq<char> },
}

impl View for EventKind {
    type V = KindView;

    open spec fn view(&self) -> KindView {
        match self {
            EventKind::Snapshot { state } => KindView::Snapshot { state: state@ },
            EventKind::CallStarted { session_id, door_id, room_id } => KindView::CallStarted {
                session_id: session_id@,
                door_id: door_id@,
                room_id: room_id@,
            },
            EventKind::PadAnswered { session_id } => KindView::PadAnswered {
                session_id: session_id@,
            },
            EventKind::RemoteAnswered { session_id } => KindView::RemoteAnswered {
                session_id: session_id@,
            },
            EventKind::Unlocked { session_id, by } => KindView::Unlocked {
                session_id: session_id@,
                by: *by,
            },
            EventKind::CallEnded { session_id, reason } => KindView::CallEnded {
                session_id: session_id@,
                reason: reason@,
            },
            EventKind::AgentError { message } => KindView::AgentError { message: message@ },
            EventKind::MonitorStarted { camera_id } => KindView::MonitorStarted {
                camera_id: camera_id@,
            },
            EventKind::MonitorStopped { camera_id, reason } => KindView::MonitorStopped {
                camera_id: camera_id@,
                reason: reason@,
            },
            EventKind::ElevatorCalled { room_id } => KindView::ElevatorCalled {
                room_id: room_id@,
            },
        }
    }
}

impl Clone for EventKind {
    fn clone(&self) -> (r: Self)
        ensures
            r@ == self@,
    {
        match self {
            EventKind::Snapshot { state } => EventKind::Snapshot { state: state.clone() },
            EventKind::CallStarted { session_id, door_id, room_id } => EventKind::CallStarted {
                session_id: session_id.clone(),
                door_id: door_id.clone(),
                room_id: room_id.clone(),
            },
            EventKind::PadAnswered { session_id } => EventKind::PadAnswered {
                session_id: session_id.clone(),
            },
            EventKind::RemoteAnswered { session_id } => EventKind::RemoteAnswered {
                session_id: session_id.clone(),
            },
            EventKind::Unlocked { session_id, by } => EventKind::Unlocked {
                session_id: session_id.clone(),
                by: *by,
            },
            EventKind::CallEnded { session_id, reason } => EventKind::CallEnded {
                session_id: session_id.clone(),
                reason: reason.clone(),
            },
            EventKind::AgentError { message } => EventKind::AgentError {
                message: message.clone(),
            },
            EventKind::MonitorStarted { camera_id } => EventKind::MonitorStarted {
                camera_id: camera_id.clone(),
            },
            EventKind::MonitorStopped { camera_id, reason } => EventKind::MonitorStopped {
                camera_id: camera_id.clone(),
                reason: reason.clone(),
            },
            EventKind::ElevatorCalled { room_id } => EventKind::ElevatorCalled {
                room_id: room_id.clone(),
            },
        }
    }
}

impl KindView {
    /// The name of the kind of report.
    pub open spec fn name(self) -> Seq<char> {
        match self {
            KindView::Snapshot { .. } => "snapshot"@,
            KindView::CallStarted { .. } => "call_started"@,
            KindView::PadAnswered { .. } => "pad_answered"@,
            KindView::RemoteAnswered { .. } => "remote_answered"@,
            KindView::Unlocked { .. } => "unlocked"@,
            KindView::CallEnded { .. } => "call_ended"@,
            KindView::AgentError { .. } => "agent_error"@,
            KindView::MonitorStarted { .. } => "monitor_started"@,
            KindView::MonitorStopped { .. } => "monitor_stopped"@,
            KindView::ElevatorCalled { .. } => "elevator_called"@,
        }
    }
}

impl EventKind {
    pub fn name(&self) -> (r: &'static str)
        ensures
            r@ == self@.name(),
    {
        match self {
            EventKind::Snapshot { .. } => "snapshot",
            EventKind::CallStarted { .. } => "call_started",
            EventKind::PadAnswered { .. } => "pad_answered",
            EventKind::RemoteAnswered { .. } => "remote_answered",
            EventKind::Unlocked { .. } => "unlocked",
            EventKind::CallEnded { .. } => "call_ended",
            EventKind::AgentError { .. } => "agent_error",
            EventKind::MonitorStarted { .. } => "monitor_started",
            EventKind::MonitorStopped { .. } => "monitor_stopped",
            EventKind::ElevatorCalled { .. } => "elevator_called",
        }
    }
}

/// A report with its place in the log.
#[derive(Debug, PartialEq, Eq)]
pub struct Event {
    pub seq: u64,
    pub at_ms: u64,
    pub kind: EventKind,
}

/// What an event says.
pub struct EventView {
    pub seq: u64,
    pub at_ms: u64,
    pub kind: KindView,
}

impl View for Event {
    type V = EventView;

    open spec fn view(&self) -> EventView {
        EventView { seq: self.seq, at_ms: self.at_ms, kind: self.kind@ }
    }
}

impl Clone for Event {
    fn clone(&self) -> (r: Self)
        ensures
            r@ == self@,
    {
        Event { seq: self.seq, at_ms: self.at_ms, kind: self.kind.clone() }
    }
}

/// What the events say.
pub open spec fn event_views(v: Seq<Event>) -> Seq<EventView> {
    v.map_values(|e: Event| e@)
}

#[derive(Clone, Copy, Debug, PartialEq, Eq, Structural)]
pub enum CallAction {
    Claim,
    Unlock,
    Hangup,
}

#[derive(Clone, Copy, Debug, PartialEq, Eq, Structural)]
pub enum CallError {
    NotRinging,
    PadOwnsCall,
    UnlockNotAllowed,
    UnlockCooldown,
    NoCall,
    AgentOffline,
    Unsupported,
}

impl CallError {
    /// The HTTP status that the control plane uses for this rejection.
    pub open spec fn status(self) -> u16 {
        match self {
            CallError::UnlockCooldown => 429,
            CallError::AgentOffline => 503,
            CallError::Unsupported => 501,
            _ => 409,
        }
    }

    pub fn http_status(self) -> (r: u16)
        ensures
            r == self.status(),
    {
        match self {
            CallError::UnlockCooldown => 429,
            CallError::AgentOffline => 503,
            CallError::Unsupported => 501,
            _ => 409,
        }
    }

    /// The message that describes the error.
    pub open spec fn text(self) -> Seq<char> {
        match self {
            CallError::NotRinging => "no ringing call is available"@,
            CallError::PadOwnsCall => "the physical pad owns this call"@,
            CallError::UnlockNotAllowed =>
                "unlock is allowed only after the remote session has answered"@,
            CallError::UnlockCooldown => "unlock cooldown is active"@,
            CallError::NoCall => "no call is active"@,
            CallError::AgentOffline => "the Agent is offline"@,
            CallError::Unsupported => "this operation is not supported in this mode"@,
        }
    }

    /// The message that describes the error.
    pub fn message(&self) -> (r: &'static str)
        ensures
            r@ == self.text(),
    {
        match self {
            CallError::NotRinging => "no ringing call is available",
            CallError::PadOwnsCall => "the physical pad owns this call",
            CallError::UnlockNotAllowed =>
                "unlock is allowed only after the remote session has answered",
            CallError::UnlockCooldown => "unlock cooldown is active",
            CallError::NoCall => "no call is active",
            CallError::AgentOffline => "the Agent is offline",
            CallError::Unsupported => "this operation is not supported in this mode",
        }
    }
}

/// The rejection that a refusal of the call machine becomes.
pub open spec fn rejection(error: StateError) -> CallError {
    match error {
        StateError::NotRinging => CallError::NotRinging,
        StateError::PadOwnsCall => CallError::PadOwnsCall,
        StateError::UnlockNotAllowed => CallError::UnlockNotAllowed,
        StateError::UnlockCooldown => CallError::UnlockCooldown,
    }
}

impl From<StateError> for CallError {
    fn from(error: StateError) -> (r: Self) {
        match error {
            StateError::NotRinging => CallError::NotRinging,
            StateError::PadOwnsCall => CallError::PadOwnsCall,
            StateError::UnlockNotAllowed => CallError::UnlockNotAllowed,
            StateError::UnlockCooldown => CallError::UnlockCooldown,
        }
    }
}

impl vstd::std_specs::convert::FromSpecImpl<StateError> for CallError {
    open spec fn obeys_from_spec() -> bool {
        true
    }

    open spec fn from_spec(error: StateError) -> CallError {
        rejection(error)
    }
}

/// A command as it is posted.
#[derive(Debug, PartialEq, Eq)]
pub struct CommandRequest {
    pub command_id: String,
}

/// The outcome of a command.
#[derive(Debug, PartialEq, Eq)]
pub struct CommandResult {
    pub command_id: String,
    pub ok: bool,
    pub error: Option<CallError>,
    pub replayed: bool,
}

/// What the outcome of a command says.
pub struct ResultView {
    pub command_id: Seq<char>,
    pub ok: bool,
    pub error: Option<CallError>,
    pub replayed: bool,
}

impl View for CommandResult {
    type V = ResultView;

    open spec fn view(&self) -> ResultView {
        ResultView {
            command_id: self.command_id@,
            ok: self.ok,
            error: self.error,
            replayed: self.replayed,
        }
    }
}

impl Clone for CommandResult {
    fn clone(&self) -> (r: Self)
        ensures
            r@ == self@,
    {
        CommandResult {
            command_id: self.command_id.clone(),
            ok: self.ok,
            error: self.error,
            replayed: self.replayed,
        }
    }
}

impl ResultView {
    /// The outcome of a command that succeeded.
    pub open spec fn succeeded(command_id: Seq<char>) -> Self {
        ResultView { command_id, ok: true, error: None, replayed: false }
    }

    /// The outcome of a command that was rejected.
    pub open spec fn refused(command_id: Seq<char>, error: CallError) -> Self {
        ResultView { command_id, ok: false, error: Some(error), replayed: false }
    }

    /// The outcome as it is given again to a command that was sent before.
    pub open spec fn again(self) -> Self {
        ResultView { replayed: true, ..self }
    }
}

impl CommandResult {
    pub fn ok(command_id: &str) -> (r: Self)
        ensures
            r@ == ResultView::succeeded(command_id@),
    {
        CommandResult { command_id: command_id.to_owned(), ok: true, error: None, replayed: false }
    }

    pub fn rejected(command_id: &str, error: CallError) -> (r: Self)
        ensures
            r@ == ResultView::refused(command_id@, error),
    {
        CommandResult {
            command_id: command_id.to_owned(),
            ok: false,
            error: Some(error),
            replayed: false,
        }
    }

    pub fn http_status(&self) -> (r: u16)
        ensures
            r == (match self.error {
                None => 200,
                Some(error) => error.status(),
            }),
    {
        match self.error {
            None => 200,
            Some(error) => error.http_status(),
        }
    }
}

/// One complete JPEG frame of the door station.
#[derive(Debug, PartialEq, Eq)]
pub struct VideoFrame {
    /// The presentation time in microseconds on the Agent's monotonic clock.
    pub pts_us: u64,
    pub jpeg: Vec<u8>,
}

/// Audio of the door, 16-bit samples at 8 kHz.
#[derive(Debug, PartialEq, Eq)]
pub struct AudioChunk {
    pub pts_us: u64,
    pub pcm: Vec<u8>,
}

/// A piece of media with its presentation time.
pub struct MediaView {
    pub pts_us: u64,
    pub data: Seq<u8>,
}

impl View for VideoFrame {
    type V = MediaView;

    open spec fn view(&self) -> MediaView {
        MediaView { pts_us: self.pts_us, data: self.jpeg@ }
    }
}

impl View for AudioChunk {
    type V = MediaView;

    open spec fn view(&self) -> MediaView {
        MediaView { pts_us: self.pts_us, data: self.pcm@ }
    }
}

impl Clone for VideoFrame {
    fn clone(&self) -> (r: Self)
        ensures
            r@ == self@,
    {
        VideoFrame { pts_us: self.pts_us, jpeg: bytes::copy_of(&self.jpeg) }
    }
}

impl Clone for AudioChunk {
    fn clone(&self) -> (r: Self)
        ensures
            r@ == self@,
    {
        AudioChunk { pts_us: self.pts_us, pcm: bytes::copy_of(&self.pcm) }
    }
}

#[derive(Debug, PartialEq, Eq)]
pub struct VideoInfo {
    pub codec: String,
    pub width: u16,
    pub height: u16,
}

#[derive(Debug, PartialEq, Eq)]
pub struct AudioInfo {
    pub codec: String,
    pub sample_rate: u32,
    pub channels: u8,
}

#[derive(Debug, PartialEq, Eq)]
pub struct MediaInfo {
    pub rtsp_url: Option<String>,
    pub video: VideoInfo,
    pub audio: AudioInfo,
    pub talk: bool,
    /// The configured pre-roll window in milliseconds.
    pub history_ms: u64,
    /// The span that is held in the pre-roll, in milliseconds.
    pub buffered_ms: u64,
}

/// Buffered media for a late joiner.
#[derive(Debug)]
pub struct MediaHistory {
    pub video: Vec<VideoFrame>,
    pub audio: Vec<AudioChunk>,
}

#[derive(Debug, PartialEq, Eq)]
pub struct ApiInfo {
    pub api_version: String,
    pub agent_id: String,
    pub media_types: Vec<String>,
    pub capabilities: Vec<String>,
}

/// A door camera that the Pad may view, and whether it answers discovery.
#[derive(Debug, PartialEq, Eq)]
pub struct CameraInfo {
    pub station_id: String,
    pub ip: Option<String>,
    pub reachable: bool,
}

/// How many bytes the pieces hold together.
pub open spec fn media_bytes(s: Seq<MediaView>) -> nat
    decreases s.len(),
{
    if s.len() == 0 {
        0
    } else {
        s[0].data.len() + media_bytes(s.drop_first())
    }
}

/// The pieces without those at the front that are older than `floor`.
pub open spec fn without_older(s: Seq<MediaView>, floor: int) -> Seq<MediaView>
    decreases s.len(),
{
    if s.len() > 0 && s[0].pts_us < floor {
        without_older(s.drop_first(), floor)
    } else {
        s
    }
}

/// The pieces later than `since`.
pub open spec fn later(s: Seq<MediaView>, since: u64) -> Seq<MediaView>
    decreases s.len(),
{
    if s.len() == 0 {
        Seq::empty()
    } else if s.last().pts_us > since {
        later(s.drop_last(), since).push(s.last())
    } else {
        later(s.drop_last(), since)
    }
}

/// What the pre-roll holds, oldest first, and its limits.
pub struct RingView {
    pub video: Seq<MediaView>,
    pub audio: Seq<MediaView>,
    pub window_us: u64,
    pub max_bytes: usize,
}

impl RingView {
    /// An empty pre-roll; its window is counted in microseconds, modulo 2^64.
    pub open spec fn fresh(window: Duration, max_bytes: usize) -> RingView {
        RingView {
            video: Seq::empty(),
            audio: Seq::empty(),
            window_us: (window.nanos as int / 1_000 % 0x1_0000_0000_0000_0000) as u64,
            max_bytes,
        }
    }

    /// How many bytes are held.
    pub open spec fn bytes(self) -> nat {
        media_bytes(self.video) + media_bytes(self.audio)
    }

    /// The pre-roll brought under its byte cap: the oldest piece goes first, video before audio of
    /// the same time.
    pub open spec fn capped(self) -> RingView
        decreases self.video.len() + self.audio.len(),
    {
        if self.bytes() <= self.max_bytes || (self.video.len() == 0 && self.audio.len() == 0) {
            self
        } else if self.video.len() > 0 && (self.audio.len() == 0 || self.video[0].pts_us
            <= self.audio[0].pts_us) {
            RingView { video: self.video.drop_first(), ..self }.capped()
        } else {
            RingView { audio: self.audio.drop_first(), ..self }.capped()
        }
    }

    /// The pre-roll once a piece of this time has come: what is out of the window goes, then what
    /// is over the cap.
    pub open spec fn evicted(self, newest_us: u64) -> RingView {
        let floor = newest_us - self.window_us;
        RingView {
            video: without_older(self.video, floor),
            audio: without_older(self.audio, floor),
            ..self
        }.capped()
    }

    /// The pre-roll with a new video frame; a window of zero keeps nothing.
    pub open spec fn with_video(self, frame: MediaView) -> RingView {
        if self.window_us == 0 {
            self
        } else {
            RingView { video: self.video.push(frame), ..self }.evicted(frame.pts_us)
        }
    }

    /// The pre-roll with a new piece of audio; a window of zero keeps nothing.
    pub open spec fn with_audio(self, chunk: MediaView) -> RingView {
        if self.window_us == 0 {
            self
        } else {
            RingView { audio: self.audio.push(chunk), ..self }.evicted(chunk.pts_us)
        }
    }

    /// The earliest time at the front of the two streams.
    pub open spec fn oldest(self) -> Option<u64> {
        if self.video.len() > 0 && (self.audio.len() == 0 || self.video[0].pts_us
            <= self.audio[0].pts_us) {
            Some(self.video[0].pts_us)
        } else if self.audio.len() > 0 {
            Some(self.audio[0].pts_us)
        } else {
            None
        }
    }

    /// The latest time at the back of the two streams.
    pub open spec fn newest(self) -> Option<u64> {
        if self.video.len() > 0 && (self.audio.len() == 0 || self.video.last().pts_us
            >= self.audio.last().pts_us) {
            Some(self.video.last().pts_us)
        } else if self.audio.len() > 0 {
            Some(self.audio.last().pts_us)
        } else {
            None
        }
    }

    /// The microseconds from the oldest to the newest piece.
    pub open spec fn span_us(self) -> int {
        match (self.oldest(), self.newest()) {
            (Some(o), Some(n)) => if n >= o {
                n - o
            } else {
                0
            },
            _ => 0,
        }
    }
}

/// The pre-roll of door media: bounded in time, and in bytes so that a misconfiguration cannot
/// exhaust a small Agent.
pub struct MediaRing {
    video: VecDeque<VideoFrame>,
    audio: VecDeque<AudioChunk>,
    bytes: u128,
    window_us: u64,
    max_bytes: usize,
}

impl View for MediaRing {
    type V = RingView;

    closed spec fn view(&self) -> RingView {
        RingView {
            video: self.video@.map_values(|f: VideoFrame| f@),
            audio: self.audio@.map_values(|a: AudioChunk| a@),
            window_us: self.window_us,
            max_bytes: self.max_bytes,
        }
    }
}

proof fn lemma_media_bytes_push(s: Seq<MediaView>, m: MediaView)
    ensures
        media_bytes(s.push(m)) == media_bytes(s) + m.data.len(),
    decreases s.len(),
{
    reveal_with_fuel(media_bytes, 2);
    if s.len() == 0 {
        assert(s.push(m).drop_first() =~= Seq::empty());
    } else {
        lemma_media_bytes_push(s.drop_first(), m);
        assert(s.push(m).drop_first() =~= s.drop_first().push(m));
    }
}

impl MediaRing {
    /// Whether the byte count is right and within the cap.
    pub closed spec fn wf(&self) -> bool {
        &&& self.bytes == self@.bytes()
        &&& self.bytes <= self.max_bytes
    }

    pub fn new(window: Duration, max_bytes: usize) -> (r: Self)
        ensures
            r.wf(),
            r@ == RingView::fresh(window, max_bytes),
    {
        let r = MediaRing {
            video: VecDeque::new(),
            audio: VecDeque::new(),
            bytes: 0,
            window_us: window.micros(),
            max_bytes,
        };
        assert(r@.video =~= Seq::empty());
        assert(r@.audio =~= Seq::empty());
        r
    }

    pub fn window(&self) -> (r: Duration)
        ensures
            r.nanos == self@.window_us * 1_000,
    {
        Duration::from_micros(self.window_us)
    }

    pub fn push_video(&mut self, frame: &VideoFrame)
        requires
            old(self).wf(),
        ensures
            final(self).wf(),
            final(self)@ == old(self)@.with_video(frame@),
    {
        if self.window_us == 0 {
            return;
        }
        let ghost before = self@;
        proof {
            lemma_media_bytes_push(before.video, frame@);
        }
        self.bytes = self.bytes + frame.jpeg.len() as u128;
        self.video.push_back(frame.clone());
        assert(self@.video =~= before.video.push(frame@));
        self.evict(frame.pts_us);
    }

    pub fn push_audio(&mut self, chunk: &AudioChunk)
        requires
            old(self).wf(),
        ensures
            final(self).wf(),
            final(self)@ == old(self)@.with_audio(chunk@),
    {
        if self.window_us == 0 {
            return;
        }
        let ghost before = self@;
        proof {
            lemma_media_bytes_push(before.audio, chunk@);
        }
        self.bytes = self.bytes + chunk.pcm.len() as u128;
        self.audio.push_back(chunk.clone());
        assert(self@.audio =~= before.audio.push(chunk@));
        self.evict(chunk.pts_us);
    }

    /// Drops the oldest frame.
    fn drop_video(&mut self)
        requires
            old(self).bytes == old(self)@.bytes(),
            old(self)@.video.len() > 0,
        ensures
            final(self).bytes == final(self)@.bytes(),
            final(self)@ == (RingView { video: old(self)@.video.drop_first(), ..old(self)@ }),
    {
        let ghost before = self@;
        assert(before.video[0] == self.video@[0]@);
        if let Some(dropped) = self.video.pop_front() {
            self.bytes = self.bytes - dropped.jpeg.len() as u128;
        }
        assert(self@.video =~= before.video.drop_first());
    }

    /// Drops the oldest piece of audio.
    fn drop_audio(&mut self)
        requires
            old(self).bytes == old(self)@.bytes(),
            old(self)@.audio.len() > 0,
        ensures
            final(self).bytes == final(self)@.bytes(),
            final(self)@ == (RingView { audio: old(self)@.audio.drop_first(), ..old(self)@ }),
    {
        let ghost before = self@;
        assert(before.audio[0] == self.audio@[0]@);
        if let Some(dropped) = self.audio.pop_front() {
            self.bytes = self.bytes - dropped.pcm.len() as u128;
        }
        assert(self@.audio =~= before.audio.drop_first());
    }

    fn evict(&mut self, newest_us: u64)
        requires
            old(self).bytes == old(self)@.bytes(),
        ensures
            final(self).wf(),
            final(self)@ == old(self)@.evicted(newest_us),
    {
        let ghost start = self@;
        let ghost low = newest_us - self.window_us;
        let floor: u64 = newest_us.saturating_sub(self.window_us);
        while self.video.len() > 0 && self.video[0].pts_us < floor
            invariant
                self.bytes == self@.bytes(),
                floor == (if low >= 0 { low } else { 0 }),
                self@ == (RingView { video: self@.video, ..start }),
                without_older(self@.video, low) == without_older(start.video, low),
            decreases self.video@.len(),
        {
            assert(self@.video[0] == self.video@[0]@);
            self.drop_video();
        }
        proof {
            if self@.video.len() > 0 {
                assert(self@.video[0] == self.video@[0]@);
            }
        }
        let ghost trimmed = self@.video;
        while self.audio.len() > 0 && self.audio[0].pts_us < floor
            invariant
                self.bytes == self@.bytes(),
                floor == (if low >= 0 { low } else { 0 }),
                self@ == (RingView { video: trimmed, audio: self@.audio, ..start }),
                without_older(self@.audio, low) == without_older(start.audio, low),
            decreases self.audio@.len(),
        {
            assert(self@.audio[0] == self.audio@[0]@);
            self.drop_audio();
        }
        proof {
            if self@.audio.len() > 0 {
                assert(self@.audio[0] == self.audio@[0]@);
            }
        }
        while self.bytes > self.max_bytes as u128
            invariant
                self.bytes == self@.bytes(),
                self@.capped() == start.evicted(newest_us),
            decreases self@.video.len() + self@.audio.len(),
        {
            proof {
                if self@.video.len() > 0 {
                    assert(self@.video[0] == self.video@[0]@);
                }
                if self@.audio.len() > 0 {
                    assert(self@.audio[0] == self.audio@[0]@);
                }
            }
            if self.video.len() > 0 && (self.audio.len() == 0 || self.video[0].pts_us
                <= self.audio[0].pts_us) {
                self.drop_video();
            } else {
                self.drop_audio();
            }
        }
    }

    /// The pieces later than `since_us`, oldest first.
    pub fn history(&self, since_us: u64) -> (r: MediaHistory)
        ensures
            r.video@.map_values(|f: VideoFrame| f@) == later(self@.video, since_us),
            r.audio@.map_values(|a: AudioChunk| a@) == later(self@.audio, since_us),
    {
        let mut video: Vec<VideoFrame> = Vec::new();
        let mut i: usize = 0;
        assert(self@.video.take(0) =~= Seq::empty());
        assert(video@.map_values(|f: VideoFrame| f@) =~= Seq::empty());
        while i < self.video.len()
            invariant
                i <= self.video@.len() == self@.video.len(),
                video@.map_values(|f: VideoFrame| f@) == later(
                    self@.video.take(i as int),
                    since_us,
                ),
            decreases self.video@.len() - i,
        {
            let ghost done = video@.map_values(|f: VideoFrame| f@);
            proof {
                assert(self@.video.take(i + 1).drop_last() =~= self@.video.take(i as int));
                assert(self@.video[i as int] == self.video@[i as int]@);
            }
            if self.video[i].pts_us > since_us {
                video.push(self.video[i].clone());
                assert(video@.map_values(|f: VideoFrame| f@) =~= done.push(self@.video[i as int]));
            }
            i = i + 1;
        }
        assert(self@.video.take(i as int) =~= self@.video);
        let mut audio: Vec<AudioChunk> = Vec::new();
        let mut j: usize = 0;
        assert(self@.audio.take(0) =~= Seq::empty());
        assert(audio@.map_values(|a: AudioChunk| a@) =~= Seq::empty());
        while j < self.audio.len()
            invariant
                j <= self.audio@.len() == self@.audio.len(),
                audio@.map_values(|a: AudioChunk| a@) == later(
                    self@.audio.take(j as int),
                    since_us,
                ),
            decreases self.audio@.len() - j,
        {
            let ghost done = audio@.map_values(|a: AudioChunk| a@);
            proof {
                assert(self@.audio.take(j + 1).drop_last() =~= self@.audio.take(j as int));
                assert(self@.audio[j as int] == self.audio@[j as int]@);
            }
            if self.audio[j].pts_us > since_us {
                audio.push(self.audio[j].clone());
                assert(audio@.map_values(|a: AudioChunk| a@) =~= done.push(self@.audio[j as int]));
            }
            j = j + 1;
        }
        assert(self@.audio.take(j as int) =~= self@.audio);
        MediaHistory { video, audio }
    }

    /// The span from the oldest to the newest piece.
    pub fn buffered(&self) -> (r: Duration)
        ensures
            r.nanos == self@.span_us() * 1_000,
    {
        let v: usize = self.video.len();
        let a: usize = self.audio.len();
        proof {
            if v > 0 {
                assert(self@.video[0] == self.video@[0]@);
                assert(self@.video[v - 1] == self.video@[v - 1]@);
            }
            if a > 0 {
                assert(self@.audio[0] == self.audio@[0]@);
                assert(self@.audio[a - 1] == self.audio@[a - 1]@);
            }
        }
        if v == 0 && a == 0 {
            return Duration::from_micros(0);
        }
        let oldest: u64 = if v > 0 && (a == 0 || self.video[0].pts_us <= self.audio[0].pts_us) {
            self.video[0].pts_us
        } else {
            self.audio[0].pts_us
        };
        let newest: u64 = if v > 0 && (a == 0 || self.video[v - 1].pts_us >= self.audio[a
            - 1].pts_us) {
            self.video[v - 1].pts_us
        } else {
            self.audio[a - 1].pts_us
        };
        Duration::from_micros(newest.saturating_sub(oldest))
    }

    pub fn bytes(&self) -> (r: usize)
        requires
            self.wf(),
        ensures
            r == self@.bytes(),
            r <= self@.max_bytes,
    {
        self.bytes as usize
    }
}

proof fn lemma_capped(r: RingView)
    ensures
        r.capped().bytes() <= r.max_bytes,
        r.capped().window_us == r.window_us,
        r.capped().max_bytes == r.max_bytes,
        exists|v: int, a: int|
            0 <= v <= r.video.len() && 0 <= a <= r.audio.len() && #[trigger] r.video.skip(v)
                == r.capped().video && #[trigger] r.audio.skip(a) == r.capped().audio,
    decreases r.video.len() + r.audio.len(),
{
    if r.bytes() <= r.max_bytes || (r.video.len() == 0 && r.audio.len() == 0) {
        assert(r.video.skip(0) =~= r.video);
        assert(r.audio.skip(0) =~= r.audio);
    } else {
        let video_first = r.video.len() > 0 && (r.audio.len() == 0 || r.video[0].pts_us
            <= r.audio[0].pts_us);
        let next = if video_first {
            RingView { video: r.video.drop_first(), ..r }
        } else {
            RingView { audio: r.audio.drop_first(), ..r }
        };
        lemma_capped(next);
        let (v, a) = choose|v: int, a: int|
            0 <= v <= next.video.len() && 0 <= a <= next.audio.len() && #[trigger] next.video.skip(v)
                == next.capped().video && #[trigger] next.audio.skip(a) == next.capped().audio;
        if video_first {
            assert(r.video.skip(v + 1) =~= next.video.skip(v));
            assert(r.audio.skip(a) =~= next.audio.skip(a));
        } else {
            assert(r.video.skip(v) =~= next.video.skip(v));
            assert(r.audio.skip(a + 1) =~= next.audio.skip(a));
        }
    }
}

/// Whatever is pushed, the pre-roll never holds more bytes than its cap, and a window of zero
/// holds nothing new.
pub proof fn law_ring_stays_under_cap(r: RingView, m: MediaView)
    requires
        r.bytes() <= r.max_bytes,
    ensures
        r.with_video(m).bytes() <= r.max_bytes,
        r.with_audio(m).bytes() <= r.max_bytes,
        r.window_us == 0 ==> r.with_video(m) == r && r.with_audio(m) == r,
{
    let floor = m.pts_us - r.window_us;
    let v = RingView { video: r.video.push(m), ..r };
    let a = RingView { audio: r.audio.push(m), ..r };
    lemma_capped(
        RingView {
            video: without_older(v.video, floor),
            audio: without_older(v.audio, floor),
            ..v
        },
    );
    lemma_capped(
        RingView {
            video: without_older(a.video, floor),
            audio: without_older(a.audio, floor),
            ..a
        },
    );
}

/// Whether the times never go back.
pub open spec fn in_time_order(s: Seq<MediaView>) -> bool {
    forall|i: int, j: int| 0 <= i <= j < s.len() ==> (#[trigger] s[i]).pts_us <= (
    #[trigger] s[j]).pts_us
}

proof fn lemma_without_older(s: Seq<MediaView>, floor: int)
    requires
        in_time_order(s),
    ensures
        in_time_order(without_older(s, floor)),
        forall|i: int|
            0 <= i < without_older(s, floor).len() ==> (#[trigger] without_older(
                s,
                floor,
            )[i]).pts_us >= floor,
        exists|k: int| 0 <= k <= s.len() && #[trigger] s.skip(k) == without_older(s, floor),
    decreases s.len(),
{
    if s.len() > 0 && s[0].pts_us < floor {
        let rest = s.drop_first();
        assert forall|i: int, j: int| 0 <= i <= j < rest.len() implies (
        #[trigger] rest[i]).pts_us <= (#[trigger] rest[j]).pts_us by {
            assert(s[i + 1].pts_us <= s[j + 1].pts_us);
        }
        lemma_without_older(rest, floor);
        let k = choose|k: int| 0 <= k <= rest.len() && #[trigger] rest.skip(k) == without_older(
            rest,
            floor,
        );
        assert(s.skip(k + 1) =~= rest.skip(k));
    } else {
        assert(s.skip(0) =~= s);
        assert forall|i: int| 0 <= i < s.len() implies (#[trigger] s[i]).pts_us >= floor by {
            assert(s[0].pts_us <= s[i].pts_us);
        }
    }
}

/// Whether everything that the pre-roll holds is in the order of its time and no older than the
/// window before `now`.
pub open spec fn within_window(r: RingView, now: u64) -> bool {
    &&& in_time_order(r.video)
    &&& in_time_order(r.audio)
    &&& forall|i: int|
        0 <= i < r.video.len() ==> (#[trigger] r.video[i]).pts_us + r.window_us >= now
    &&& forall|i: int|
        0 <= i < r.audio.len() ==> (#[trigger] r.audio[i]).pts_us + r.window_us >= now
}

/// Where frames and samples are pushed in the order of their time, everything that the pre-roll
/// holds is within the window of the newest piece, and stays in order.
pub proof fn law_ring_keeps_window(r: RingView, m: MediaView)
    requires
        r.window_us > 0,
    ensures
        in_time_order(r.video.push(m)) && in_time_order(r.audio) ==> within_window(
            r.with_video(m),
            m.pts_us,
        ),
        in_time_order(r.video) && in_time_order(r.audio.push(m)) ==> within_window(
            r.with_audio(m),
            m.pts_us,
        ),
{
    if in_time_order(r.video.push(m)) && in_time_order(r.audio) {
        lemma_evicted(RingView { video: r.video.push(m), ..r }, m.pts_us);
    }
    if in_time_order(r.video) && in_time_order(r.audio.push(m)) {
        lemma_evicted(RingView { audio: r.audio.push(m), ..r }, m.pts_us);
    }
}

proof fn lemma_evicted(r: RingView, now: u64)
    requires
        in_time_order(r.video),
        in_time_order(r.audio),
    ensures
        within_window(r.evicted(now), now),
{
    let floor = now - r.window_us;
    lemma_without_older(r.video, floor);
    lemma_without_older(r.audio, floor);
    let t = RingView {
        video: without_older(r.video, floor),
        audio: without_older(r.audio, floor),
        ..r
    };
    lemma_capped(t);
    let (v, a) = choose|v: int, a: int|
        0 <= v <= t.video.len() && 0 <= a <= t.audio.len() && #[trigger] t.video.skip(v)
            == t.capped().video && #[trigger] t.audio.skip(a) == t.capped().audio;
    let out = r.evicted(now);
    assert(out == t.capped());
    assert forall|i: int| 0 <= i < out.video.len() implies (#[trigger] out.video[i]).pts_us
        + out.window_us >= now by {
        assert(out.video[i] == t.video[i + v]);
    }
    assert forall|i: int| 0 <= i < out.audio.len() implies (#[trigger] out.audio[i]).pts_us
        + out.window_us >= now by {
        assert(out.audio[i] == t.audio[i + a]);
    }
    assert forall|i: int, j: int| 0 <= i <= j < out.video.len() implies (
    #[trigger] out.video[i]).pts_us <= (#[trigger] out.video[j]).pts_us by {
        assert(t.video[i + v].pts_us <= t.video[j + v].pts_us);
    }
    assert forall|i: int, j: int| 0 <= i <= j < out.audio.len() implies (
    #[trigger] out.audio[i]).pts_us <= (#[trigger] out.audio[j]).pts_us by {
        assert(t.audio[i + a].pts_us <= t.audio[j + a].pts_us);
    }
}

/// A piece of media for the pre-roll.
pub enum Piece {
    Video(MediaView),
    Audio(MediaView),
}

/// The pre-roll once these pieces have been pushed, one after the other.
pub open spec fn ring_run(ring: RingView, pieces: Seq<Piece>) -> RingView
    decreases pieces.len(),
{
    if pieces.len() == 0 {
        ring
    } else {
        let before = ring_run(ring, pieces.drop_last());
        match pieces.last() {
            Piece::Video(frame) => before.with_video(frame),
            Piece::Audio(chunk) => before.with_audio(chunk),
        }
    }
}

/// The frames among the pieces, in order.
pub open spec fn video_of(pieces: Seq<Piece>) -> Seq<MediaView>
    decreases pieces.len(),
{
    if pieces.len() == 0 {
        Seq::empty()
    } else {
        match pieces.last() {
            Piece::Video(frame) => video_of(pieces.drop_last()).push(frame),
            Piece::Audio(_) => video_of(pieces.drop_last()),
        }
    }
}

/// The audio among the pieces, in order.
pub open spec fn audio_of(pieces: Seq<Piece>) -> Seq<MediaView>
    decreases pieces.len(),
{
    if pieces.len() == 0 {
        Seq::empty()
    } else {
        match pieces.last() {
            Piece::Video(_) => audio_of(pieces.drop_last()),
            Piece::Audio(chunk) => audio_of(pieces.drop_last()).push(chunk),
        }
    }
}

/// Whether `tail` is what remains of `s` behind its first pieces.
pub open spec fn is_suffix(tail: Seq<MediaView>, s: Seq<MediaView>) -> bool {
    exists|k: int| 0 <= k <= s.len() && tail == #[trigger] s.skip(k)
}

proof fn lemma_suffix_of_suffix(a: Seq<MediaView>, b: Seq<MediaView>, c: Seq<MediaView>)
    requires
        is_suffix(a, b),
        is_suffix(b, c),
    ensures
        is_suffix(a, c),
{
    let i = choose|k: int| 0 <= k <= b.len() && a == #[trigger] b.skip(k);
    let j = choose|k: int| 0 <= k <= c.len() && b == #[trigger] c.skip(k);
    assert(c.skip(i + j) =~= a);
}

proof fn lemma_suffix_push(a: Seq<MediaView>, b: Seq<MediaView>, m: MediaView)
    requires
        is_suffix(a, b),
    ensures
        is_suffix(a.push(m), b.push(m)),
{
    let i = choose|k: int| 0 <= k <= b.len() && a == #[trigger] b.skip(k);
    assert(b.push(m).skip(i) =~= a.push(m));
}

proof fn lemma_without_older_is_suffix(s: Seq<MediaView>, floor: int)
    ensures
        is_suffix(without_older(s, floor), s),
    decreases s.len(),
{
    assert(s.skip(0) =~= s);
    if s.len() > 0 && s[0].pts_us < floor {
        assert(s.skip(1) =~= s.drop_first());
        lemma_without_older_is_suffix(s.drop_first(), floor);
        lemma_suffix_of_suffix(without_older(s, floor), s.drop_first(), s);
    }
}

proof fn lemma_evicted_is_suffix(r: RingView, now: u64)
    ensures
        is_suffix(r.evicted(now).video, r.video),
        is_suffix(r.evicted(now).audio, r.audio),
        r.evicted(now).window_us == r.window_us,
        r.evicted(now).max_bytes == r.max_bytes,
{
    let floor = now - r.window_us;
    let t = RingView {
        video: without_older(r.video, floor),
        audio: without_older(r.audio, floor),
        ..r
    };
    lemma_without_older_is_suffix(r.video, floor);
    lemma_without_older_is_suffix(r.audio, floor);
    lemma_capped(t);
    assert(is_suffix(t.capped().video, t.video));
    assert(is_suffix(t.capped().audio, t.audio));
    lemma_suffix_of_suffix(t.capped().video, t.video, r.video);
    lemma_suffix_of_suffix(t.capped().audio, t.audio, r.audio);
}

/// Whatever is pushed, the pre-roll holds the latest frames and the latest audio without a gap:
/// what it holds of each stream is what remains of it behind the pieces that have left. Its limits
/// never change, and its cap is kept.
pub proof fn law_ring_holds_the_latest(window: Duration, max_bytes: usize, pieces: Seq<Piece>)
    ensures
        ({
            let ring = ring_run(RingView::fresh(window, max_bytes), pieces);
            &&& is_suffix(ring.video, video_of(pieces))
            &&& is_suffix(ring.audio, audio_of(pieces))
            &&& ring.window_us == RingView::fresh(window, max_bytes).window_us
            &&& ring.max_bytes == max_bytes
            &&& ring.bytes() <= max_bytes
        }),
    decreases pieces.len(),
{
    let start = RingView::fresh(window, max_bytes);
    if pieces.len() == 0 {
        assert(video_of(pieces).skip(0) =~= start.video);
        assert(audio_of(pieces).skip(0) =~= start.audio);
    } else {
        let init = pieces.drop_last();
        law_ring_holds_the_latest(window, max_bytes, init);
        let before = ring_run(start, init);
        match pieces.last() {
            Piece::Video(frame) => {
                law_ring_stays_under_cap(before, frame);
                if before.window_us == 0 {
                    lemma_idle_ring(window, max_bytes, init);
                    assert(video_of(pieces).skip(video_of(pieces).len() as int)
                        =~= before.video);
                } else {
                    let next = RingView { video: before.video.push(frame), ..before };
                    lemma_evicted_is_suffix(next, frame.pts_us);
                    lemma_suffix_push(before.video, video_of(init), frame);
                    lemma_suffix_of_suffix(
                        next.evicted(frame.pts_us).video,
                        next.video,
                        video_of(pieces),
                    );
                    lemma_suffix_of_suffix(
                        next.evicted(frame.pts_us).audio,
                        next.audio,
                        audio_of(pieces),
                    );
                }
            },
            Piece::Audio(chunk) => {
                law_ring_stays_under_cap(before, chunk);
                if before.window_us == 0 {
                    lemma_idle_ring(window, max_bytes, init);
                    assert(audio_of(pieces).skip(audio_of(pieces).len() as int)
                        =~= before.audio);
                } else {
                    let next = RingView { audio: before.audio.push(chunk), ..before };
                    lemma_evicted_is_suffix(next, chunk.pts_us);
                    lemma_suffix_push(before.audio, audio_of(init), chunk);
                    lemma_suffix_of_suffix(
                        next.evicted(chunk.pts_us).audio,
                        next.audio,
                        audio_of(pieces),
                    );
                    lemma_suffix_of_suffix(
                        next.evicted(chunk.pts_us).video,
                        next.video,
                        video_of(pieces),
                    );
                }
            },
        }
    }
}

/// A pre-roll without a window stays empty.
proof fn lemma_idle_ring(window: Duration, max_bytes: usize, pieces: Seq<Piece>)
    requires
        RingView::fresh(window, max_bytes).window_us == 0,
    ensures
        ring_run(RingView::fresh(window, max_bytes), pieces) == RingView::fresh(window, max_bytes),
    decreases pieces.len(),
{
    if pieces.len() > 0 {
        lemma_idle_ring(window, max_bytes, pieces.drop_last());
    }
}

/// What the event log holds, oldest first, and the number of the next event.
pub struct LogView {
    pub events: Seq<EventView>,
    pub next_seq: u64,
    pub capacity: usize,
}

impl LogView {
    /// Whether the events are numbered without gaps up to the next number.
    pub open spec fn consecutive(self) -> bool {
        &&& self.events.len() < self.next_seq
        &&& forall|i: int|
            0 <= i < self.events.len() ==> (#[trigger] self.events[i]).seq == self.next_seq
                - self.events.len() + i
    }

    /// The log with one more event; the oldest goes where the log is full.
    pub open spec fn with_event(self, at_ms: u64, kind: KindView) -> LogView {
        let kept = if self.events.len() == self.capacity && self.events.len() > 0 {
            self.events.drop_first()
        } else {
            self.events
        };
        LogView {
            events: kept.push((EventView { seq: self.next_seq, at_ms, kind })),
            next_seq: (self.next_seq + 1) as u64,
            ..self
        }
    }

    /// The events behind number `after`; `None` where some of them are no longer held.
    pub open spec fn since(self, after: u64) -> Option<Seq<EventView>> {
        let oldest = self.next_seq - self.events.len();
        if after + 1 >= self.next_seq {
            Some(Seq::empty())
        } else if after + 1 >= oldest {
            Some(self.events.skip(after + 1 - oldest))
        } else {
            None
        }
    }
}

/// A bounded log of numbered events.
pub struct EventLog {
    events: VecDeque<Event>,
    next_seq: u64,
    capacity: usize,
}

impl View for EventLog {
    type V = LogView;

    closed spec fn view(&self) -> LogView {
        LogView {
            events: event_views(self.events@),
            next_seq: self.next_seq,
            capacity: self.capacity,
        }
    }
}

impl EventLog {
    /// An empty log; the first event gets number one.
    pub fn new(capacity: usize) -> (r: Self)
        ensures
            r@ == (LogView { events: Seq::empty(), next_seq: 1, capacity }),
            r@.consecutive(),
    {
        let r = EventLog { events: VecDeque::new(), next_seq: 1, capacity };
        assert(r@.events =~= Seq::empty());
        r
    }

    /// Whether there is a number left for another event.
    pub open spec fn open(&self) -> bool {
        self@.next_seq < u64::MAX
    }

    /// Whether there is a number left for another event.
    pub fn has_room(&self) -> (r: bool)
        ensures
            r == self.open(),
    {
        self.next_seq < u64::MAX
    }

    /// Whether there are numbers left for `n` more events.
    pub fn has_room_for(&self, n: usize) -> (r: bool)
        ensures
            r == (self@.next_seq + n <= u64::MAX),
    {
        n as u64 <= u64::MAX - self.next_seq
    }

    pub fn push(&mut self, at_ms: u64, kind: EventKind) -> (r: Event)
        requires
            old(self)@.consecutive(),
            old(self).open(),
        ensures
            final(self)@.consecutive(),
            final(self)@ == old(self)@.with_event(at_ms, kind@),
            r@ == (EventView { seq: old(self)@.next_seq, at_ms, kind: kind@ }),
    {
        let ghost before = self@;
        let event = Event { seq: self.next_seq, at_ms, kind };
        self.next_seq = self.next_seq + 1;
        if self.events.len() == self.capacity {
            self.events.pop_front();
        }
        self.events.push_back(event.clone());
        proof {
            let after = before.with_event(at_ms, kind@);
            assert(self@.events =~= after.events);
            assert forall|i: int| 0 <= i < after.events.len() implies (
            #[trigger] after.events[i]).seq == after.next_seq - after.events.len() + i by {
                if i < after.events.len() - 1 {
                    let d = before.events.len() - (after.events.len() - 1);
                    assert(after.events[i] == before.events[i + d]);
                }
            }
        }
        event
    }

    pub fn last_seq(&self) -> (r: u64)
        requires
            self@.consecutive(),
        ensures
            r == self@.next_seq - 1,
    {
        self.next_seq - 1
    }

    /// The events behind number `after_seq`; `None` where the caller has a gap that the log cannot
    /// fill.
    pub fn recent(&self, after_seq: u64) -> (r: Option<Vec<Event>>)
        requires
            self@.consecutive(),
        ensures
            match r {
                Some(events) => self@.since(after_seq) == Some(event_views(events@)),
                None => self@.since(after_seq) is None,
            },
    {
        if after_seq >= self.next_seq - 1 {
            let none: Vec<Event> = Vec::new();
            assert(event_views(none@) =~= Seq::empty());
            return Some(none);
        }
        let oldest: u64 = self.next_seq - self.events.len() as u64;
        if after_seq + 1 < oldest {
            return None;
        }
        let start: usize = (after_seq + 1 - oldest) as usize;
        let mut out: Vec<Event> = Vec::new();
        let mut i: usize = start;
        while i < self.events.len()
            invariant
                start <= i <= self.events@.len(),
                out@.len() == i - start,
                forall|j: int| 0 <= j < out@.len() ==> (#[trigger] out@[j])@ == self.events@[start + j]@,
            decreases self.events@.len() - i,
        {
            out.push(self.events[i].clone());
            i = i + 1;
        }
        assert(event_views(out@) =~= self@.events.skip(start as int));
        Some(out)
    }
}

/// A client that has seen everything up to number `after` and is handed the events behind it has
/// then seen everything up to the last event, each once and in order.
pub proof fn law_resume_leaves_no_gap(log: LogView, after: u64)
    requires
        log.consecutive(),
        log.since(after) is Some,
    ensures
        forall|i: int|
            0 <= i < log.since(after)->0.len() ==> (#[trigger] log.since(after)->0[i]).seq == after
                + 1 + i,
        after < log.next_seq ==> after + log.since(after)->0.len() == log.next_seq - 1,
{
}

/// A client is told of a gap exactly where an event that it has not seen has left the log.
pub proof fn law_gap_is_reported(log: LogView, after: u64)
    requires
        log.consecutive(),
    ensures
        log.since(after) is None <==> after + 1 < log.next_seq - log.events.len(),
{
}

/// The events of a log that has taken in these reports.
pub open spec fn log_run(log: LogView, reports: Seq<(u64, KindView)>) -> LogView
    decreases reports.len(),
{
    if reports.len() == 0 {
        log
    } else {
        log_run(log, reports.drop_last()).with_event(reports.last().0, reports.last().1)
    }
}

/// A log of positive capacity never holds more than its capacity, and always the latest events.
pub proof fn law_log_is_bounded(capacity: usize, reports: Seq<(u64, KindView)>)
    requires
        capacity > 0,
        reports.len() < u64::MAX - 1,
    ensures
        ({
            let log = log_run(
                LogView { events: Seq::empty(), next_seq: 1, capacity },
                reports,
            );
            &&& log.consecutive()
            &&& log.capacity == capacity
            &&& log.next_seq == reports.len() + 1
            &&& log.events.len() == if reports.len() < capacity {
                reports.len() as int
            } else {
                capacity as int
            }
            &&& forall|i: int|
                0 <= i < log.events.len() ==> (#[trigger] log.events[i]).kind == reports[reports.len()
                    - log.events.len() + i].1
        }),
    decreases reports.len(),
{
    if reports.len() > 0 {
        law_log_is_bounded(capacity, reports.drop_last());
        let empty = LogView { events: Seq::empty(), next_seq: 1, capacity };
        let before = log_run(empty, reports.drop_last());
        let log = log_run(empty, reports);
        assert forall|i: int| 0 <= i < log.events.len() implies {
            &&& (#[trigger] log.events[i]).kind == reports[reports.len() - log.events.len() + i].1
            &&& log.events[i].seq == log.next_seq - log.events.len() + i
        } by {
            if i < log.events.len() - 1 {
                let d = before.events.len() - (log.events.len() - 1);
                assert(log.events[i] == before.events[i + d]);
            }
        }
    }
}

/// The results that are held, by command id, and the ids in the order in which they were stored.
pub struct CacheView {
    pub results: Map<Seq<char>, ResultView>,
    pub order: Seq<Seq<char>>,
    pub capacity: usize,
}

impl CacheView {
    /// The result that was stored for the id, marked as replayed.
    pub open spec fn lookup(self, id: Seq<char>) -> Option<ResultView> {
        if self.results.contains_key(id) {
            Some(self.results[id].again())
        } else {
            None
        }
    }

    /// How many results can be held at once: the capacity, but at least one.
    pub open spec fn limit(self) -> nat {
        if self.capacity == 0 {
            1
        } else {
            self.capacity as nat
        }
    }

    /// Whether each id stands once in the order and the results are those of these ids.
    pub open spec fn coherent(self) -> bool {
        &&& self.order.no_duplicates()
        &&& self.results.dom() == self.order.to_set()
    }

    /// Whether no more results are held than the capacity allows.
    pub open spec fn bounded(self) -> bool {
        self.order.len() <= self.limit()
    }

    /// The cache without its oldest id, where it is full.
    pub open spec fn with_room(self) -> CacheView {
        if self.order.len() >= self.capacity && self.order.len() > 0 {
            CacheView {
                results: self.results.remove(self.order[0]),
                order: self.order.drop_first(),
                ..self
            }
        } else {
            self
        }
    }

    /// The cache with this result. The result of an id that is held is replaced where it stands;
    /// for another id the oldest goes where the cache is full.
    pub open spec fn with_result(self, result: ResultView) -> CacheView {
        let id = result.command_id;
        if self.results.contains_key(id) {
            CacheView { results: self.results.insert(id, result), ..self }
        } else {
            let kept = self.with_room();
            CacheView {
                results: kept.results.insert(id, result),
                order: kept.order.push(id),
                ..self
            }
        }
    }
}

/// A cache that has been given these results, one after the other.
pub open spec fn stored(cache: CacheView, results: Seq<ResultView>) -> CacheView
    decreases results.len(),
{
    if results.len() == 0 {
        cache
    } else {
        stored(cache, results.drop_last()).with_result(results.last())
    }
}

/// The results by their ids, where a later result replaces an earlier one.
spec fn by_id(entries: Seq<CommandResult>) -> Map<Seq<char>, ResultView>
    decreases entries.len(),
{
    if entries.len() == 0 {
        Map::empty()
    } else {
        by_id(entries.drop_last()).insert(entries.last()@.command_id, entries.last()@)
    }
}

/// Whether no two results have one id.
spec fn distinct_ids(entries: Seq<CommandResult>) -> bool {
    forall|i: int, j: int|
        0 <= i < j < entries.len() ==> (#[trigger] entries[i])@.command_id != (
        #[trigger] entries[j])@.command_id
}

proof fn lemma_by_id(entries: Seq<CommandResult>)
    requires
        distinct_ids(entries),
    ensures
        by_id(entries).dom().finite(),
        by_id(entries).dom().len() == entries.len(),
        forall|i: int|
            0 <= i < entries.len() ==> by_id(entries).contains_key(
                (#[trigger] entries[i])@.command_id,
            ) && by_id(entries)[entries[i]@.command_id] == entries[i]@,
        forall|id: Seq<char>| #[trigger]
            by_id(entries).contains_key(id) ==> exists|i: int|
                0 <= i < entries.len() && (#[trigger] entries[i])@.command_id == id,
    decreases entries.len(),
{
    if entries.len() > 0 {
        let rest = entries.drop_last();
        let last = entries.last();
        assert forall|i: int, j: int| 0 <= i < j < rest.len() implies (
        #[trigger] rest[i])@.command_id != (#[trigger] rest[j])@.command_id by {
            assert(entries[i]@.command_id != entries[j]@.command_id);
        }
        lemma_by_id(rest);
        if by_id(rest).contains_key(last@.command_id) {
            let i = choose|i: int|
                0 <= i < rest.len() && (#[trigger] rest[i])@.command_id == last@.command_id;
            assert(entries[i]@.command_id != entries[entries.len() - 1]@.command_id);
        }
        assert forall|i: int| 0 <= i < entries.len() implies by_id(entries).contains_key(
            (#[trigger] entries[i])@.command_id,
        ) && by_id(entries)[entries[i]@.command_id] == entries[i]@ by {
            if i < rest.len() {
                assert(rest[i] == entries[i]);
            }
        }
        assert forall|id: Seq<char>| #[trigger] by_id(entries).contains_key(id) implies exists|
            i: int,
        | 0 <= i < entries.len() && (#[trigger] entries[i])@.command_id == id by {
            if id == last@.command_id {
                assert(entries[entries.len() - 1]@.command_id == id);
            } else {
                let i = choose|i: int| 0 <= i < rest.len() && (#[trigger] rest[i])@.command_id == id;
                assert(entries[i]@.command_id == id);
            }
        }
    }
}

/// A result put in the place of that of the same id.
proof fn lemma_replaced(entries: Seq<CommandResult>, i: int, result: CommandResult)
    requires
        distinct_ids(entries),
        0 <= i < entries.len(),
        entries[i]@.command_id == result@.command_id,
    ensures
        distinct_ids(entries.update(i, result)),
        by_id(entries.update(i, result)) == by_id(entries).insert(result@.command_id, result@),
{
    let now = entries.update(i, result);
    let want = by_id(entries).insert(result@.command_id, result@);
    assert forall|a: int, b: int| 0 <= a < b < now.len() implies (#[trigger] now[a])@.command_id
        != (#[trigger] now[b])@.command_id by {
        assert(entries[a]@.command_id != entries[b]@.command_id);
    }
    lemma_by_id(entries);
    lemma_by_id(now);
    assert forall|id: Seq<char>| #[trigger] by_id(now).contains_key(id) implies want.contains_key(
        id,
    ) && by_id(now)[id] == want[id] by {
        let a = choose|a: int| 0 <= a < now.len() && (#[trigger] now[a])@.command_id == id;
        assert(now[a]@.command_id == id);
        if a != i {
            assert(now[a] == entries[a]);
            assert(by_id(entries).contains_key(entries[a]@.command_id));
            if a < i {
                assert(entries[a]@.command_id != entries[i]@.command_id);
            } else {
                assert(entries[i]@.command_id != entries[a]@.command_id);
            }
        }
    }
    assert forall|id: Seq<char>| #[trigger] want.contains_key(id) implies by_id(now).contains_key(
        id,
    ) by {
        if id == result@.command_id {
            assert(now[i]@.command_id == id);
        } else {
            assert(by_id(entries).contains_key(id));
            let a = choose|a: int|
                0 <= a < entries.len() && (#[trigger] entries[a])@.command_id == id;
            assert(now[a]@.command_id == id);
        }
    }
    assert(by_id(now) =~= want);
}

/// A result of a new id at the end.
proof fn lemma_appended(entries: Seq<CommandResult>, result: CommandResult)
    requires
        distinct_ids(entries),
        !by_id(entries).contains_key(result@.command_id),
    ensures
        distinct_ids(entries.push(result)),
        by_id(entries.push(result)) == by_id(entries).insert(result@.command_id, result@),
{
    let now = entries.push(result);
    lemma_by_id(entries);
    assert forall|a: int, b: int| 0 <= a < b < now.len() implies (#[trigger] now[a])@.command_id
        != (#[trigger] now[b])@.command_id by {
        if b < entries.len() {
            assert(entries[a]@.command_id != entries[b]@.command_id);
        } else {
            assert(by_id(entries).contains_key(entries[a]@.command_id));
        }
    }
    assert(now.drop_last() =~= entries);
}

/// A bounded cache of command results, so that a command that is sent again is not carried out
/// again.
pub struct CommandCache {
    entries: Vec<CommandResult>,
    order: VecDeque<String>,
    capacity: usize,
}

impl View for CommandCache {
    type V = CacheView;

    closed spec fn view(&self) -> CacheView {
        CacheView {
            results: by_id(self.entries@),
            order: text::text_views(self.order@),
            capacity: self.capacity,
        }
    }
}

impl CommandCache {
    /// Whether every id stands once among the results and once in the order, and no more results
    /// are held than the capacity allows.
    pub open spec fn wf(&self) -> bool {
        &&& self.distinct()
        &&& self@.coherent()
        &&& self@.bounded()
    }

    /// Whether every id stands once among the results.
    pub closed spec fn distinct(&self) -> bool {
        distinct_ids(self.entries@)
    }

    pub fn new(capacity: usize) -> (r: Self)
        ensures
            r.wf(),
            r@ == (CacheView { results: Map::empty(), order: Seq::empty(), capacity }),
    {
        let r = CommandCache { entries: Vec::new(), order: VecDeque::new(), capacity };
        assert(r@.order =~= Seq::empty());
        assert(r@.results.dom() =~= r@.order.to_set());
        r
    }

    /// Where the id stands among the results; their number where it does not.
    fn index_of(&self, command_id: &str) -> (r: usize)
        requires
            self.distinct(),
        ensures
            r <= self.entries@.len(),
            r < self.entries@.len() ==> self.entries@[r as int]@.command_id == command_id@,
            r < self.entries@.len() <==> self@.results.contains_key(command_id@),
    {
        proof {
            lemma_by_id(self.entries@);
        }
        let mut i: usize = 0;
        while i < self.entries.len()
            invariant
                i <= self.entries@.len(),
                forall|j: int| 0 <= j < i ==> (#[trigger] self.entries@[j])@.command_id != command_id@,
            ensures
                i <= self.entries@.len(),
                i < self.entries@.len() ==> self.entries@[i as int]@.command_id == command_id@,
                forall|j: int| 0 <= j < i ==> (#[trigger] self.entries@[j])@.command_id != command_id@,
            decreases self.entries@.len() - i,
        {
            if text::same_text(self.entries[i].command_id.as_str(), command_id) {
                break;
            }
            i = i + 1;
        }
        i
    }

    /// The result that was stored for this id, marked as replayed.
    pub fn get(&self, command_id: &str) -> (r: Option<CommandResult>)
        requires
            self.wf(),
        ensures
            match r {
                Some(result) => self@.lookup(command_id@) == Some(result@),
                None => self@.lookup(command_id@) is None,
            },
    {
        let i: usize = self.index_of(command_id);
        if i < self.entries.len() {
            proof {
                lemma_by_id(self.entries@);
            }
            let found = &self.entries[i];
            Some(
                CommandResult {
                    command_id: found.command_id.clone(),
                    ok: found.ok,
                    error: found.error,
                    replayed: true,
                },
            )
        } else {
            None
        }
    }

    /// Drops the oldest id and its result.
    fn drop_oldest(&mut self)
        requires
            old(self).distinct(),
        ensures
            final(self).distinct(),
            final(self)@ == (if old(self)@.order.len() > 0 {
                CacheView {
                    results: old(self)@.results.remove(old(self)@.order[0]),
                    order: old(self)@.order.drop_first(),
                    ..old(self)@
                }
            } else {
                old(self)@
            }),
    {
        let ghost before = self@;
        let ghost entries = self.entries@;
        proof {
            lemma_by_id(entries);
        }
        if let Some(oldest) = self.order.pop_front() {
            assert(text::text_views(self.order@) =~= before.order.drop_first());
            assert(before.order[0] == oldest@);
            let i: usize = self.index_of(oldest.as_str());
            if i < self.entries.len() {
                self.entries.remove(i);
                proof {
                    let left = self.entries@;
                    assert forall|a: int, b: int| 0 <= a < b < left.len() implies (
                    #[trigger] left[a])@.command_id != (#[trigger] left[b])@.command_id by {
                        let a2 = if a < i { a } else { a + 1 };
                        let b2 = if b < i { b } else { b + 1 };
                        assert(entries[a2]@.command_id != entries[b2]@.command_id);
                    }
                    lemma_by_id(left);
                    assert forall|id: Seq<char>| #[trigger] by_id(left).contains_key(id) implies
                        by_id(entries).remove(oldest@).contains_key(id) && by_id(left)[id]
                        == by_id(entries)[id] by {
                        let a = choose|a: int|
                            0 <= a < left.len() && (#[trigger] left[a])@.command_id == id;
                        let a2 = if a < i { a } else { a + 1 };
                        assert(left[a] == entries[a2]);
                        assert(left[a]@.command_id == id);
                        if a2 < i {
                            assert(entries[a2]@.command_id != entries[i as int]@.command_id);
                        } else {
                            assert(entries[i as int]@.command_id != entries[a2]@.command_id);
                        }
                    }
                    assert forall|id: Seq<char>| #[trigger]
                        by_id(entries).remove(oldest@).contains_key(id) implies by_id(
                        left,
                    ).contains_key(id) by {
                        assert(by_id(entries).contains_key(id));
                        let a = choose|a: int|
                            0 <= a < entries.len() && (#[trigger] entries[a])@.command_id == id;
                        let a2 = if a < i { a } else { a - 1 };
                        assert(a != i);
                        assert(left[a2] == entries[a]);
                        assert(by_id(left).contains_key(left[a2]@.command_id));
                    }
                    assert(by_id(left) =~= by_id(entries).remove(oldest@));
                }
            } else {
                assert(by_id(entries).remove(oldest@) =~= by_id(entries));
            }
        } else {
            assert(before.order.len() == 0);
        }
    }

    pub fn store(&mut self, result: &CommandResult)
        requires
            old(self).wf(),
        ensures
            final(self).wf(),
            final(self)@ == old(self)@.with_result(result@),
    {
        let ghost before = self@;
        let ghost entries = self.entries@;
        let i: usize = self.index_of(result.command_id.as_str());
        if i < self.entries.len() {
            self.entries.set(i, result.clone());
            proof {
                lemma_replaced(entries, i as int, self.entries@[i as int]);
            }
        } else {
            if self.order.len() >= self.capacity {
                self.drop_oldest();
            }
            assert(self@ == before.with_room());
            let ghost kept = self@;
            let ghost left = self.entries@;
            self.order.push_back(result.command_id.clone());
            assert(text::text_views(self.order@) =~= kept.order.push(result@.command_id));
            self.entries.push(result.clone());
            proof {
                lemma_appended(left, self.entries@.last());
                assert(self.entries@ =~= left.push(self.entries@.last()));
            }
        }
        proof {
            lemma_stored_keeps_bound(before, result@);
        }
    }
}

/// A command that is sent again is answered with the result that was stored for it, marked as
/// replayed.
pub proof fn law_stored_result_is_replayed(cache: CacheView, result: ResultView)
    ensures
        cache.with_result(result).lookup(result.command_id) == Some(result.again()),
{
}

proof fn lemma_room_keeps_coherence(cache: CacheView)
    requires
        cache.coherent(),
    ensures
        cache.with_room().coherent(),
{
    let kept = cache.with_room();
    if cache.order.len() >= cache.capacity && cache.order.len() > 0 {
        assert forall|id: Seq<char>| kept.order.to_set().contains(id) <==> #[trigger]
            kept.results.dom().contains(id) by {
            if kept.order.to_set().contains(id) {
                let i = kept.order.index_of(id);
                assert(kept.order[i] == id);
                assert(cache.order[i + 1] == id);
                assert(cache.order.to_set().contains(id));
            }
            if kept.results.dom().contains(id) {
                assert(cache.order.to_set().contains(id));
                let i = cache.order.index_of(id);
                assert(cache.order[i] == id);
                assert(kept.order[i - 1] == id);
            }
        }
        assert(kept.results.dom() =~= kept.order.to_set());
    }
}

proof fn lemma_stored_keeps_bound(cache: CacheView, result: ResultView)
    requires
        cache.coherent(),
        cache.bounded(),
    ensures
        cache.with_result(result).coherent(),
        cache.with_result(result).bounded(),
{
    let next = cache.with_result(result);
    let id = result.command_id;
    if cache.results.contains_key(id) {
        assert(next.results.dom() =~= cache.results.dom());
    } else {
        let kept = cache.with_room();
        lemma_room_keeps_coherence(cache);
        if kept.order.contains(id) {
            assert(kept.order.to_set().contains(id));
            assert(kept.results.dom().contains(id));
        }
        assert(next.order.no_duplicates());
        assert forall|other: Seq<char>| next.order.to_set().contains(other) <==> #[trigger]
            next.results.dom().contains(other) by {
            if next.order.to_set().contains(other) {
                let i = next.order.index_of(other);
                assert(next.order[i] == other);
                if i < kept.order.len() {
                    assert(kept.order[i] == other);
                    assert(kept.order.to_set().contains(other));
                }
            }
            if next.results.dom().contains(other) {
                if other == id {
                    assert(next.order[next.order.len() - 1] == other);
                } else {
                    assert(kept.order.to_set().contains(other));
                    let i = kept.order.index_of(other);
                    assert(next.order[i] == other);
                }
            }
        }
        assert(next.results.dom() =~= next.order.to_set());
    }
}

/// Whatever is stored, and however often, the cache never holds more results than its capacity;
/// one without capacity holds the last result only.
pub proof fn law_cache_is_bounded(capacity: usize, results: Seq<ResultView>)
    ensures
        ({
            let cache = stored(
                CacheView { results: Map::empty(), order: Seq::empty(), capacity },
                results,
            );
            &&& cache.coherent()
            &&& cache.capacity == capacity
            &&& cache.results.dom().finite()
            &&& cache.results.dom().len() == cache.order.len()
            &&& cache.order.len() <= if capacity == 0 {
                1
            } else {
                capacity as int
            }
        }),
    decreases results.len(),
{
    let empty = CacheView { results: Map::empty(), order: Seq::empty(), capacity };
    let cache = stored(empty, results);
    if results.len() == 0 {
        assert(empty.results.dom() =~= empty.order.to_set());
    } else {
        law_cache_is_bounded(capacity, results.drop_last());
        lemma_stored_keeps_bound(stored(empty, results.drop_last()), results.last());
    }
    cache.order.unique_seq_to_set();
}

/// A result of a new id goes behind the others, and the oldest leaves where the cache is full; a
/// result of an id that is held takes the place of the earlier one. Nothing else changes.
pub proof fn law_cache_keeps_the_latest(cache: CacheView, result: ResultView)
    requires
        cache.coherent(),
        cache.bounded(),
        cache.capacity > 0,
    ensures
        cache.with_result(result).order == (if cache.results.contains_key(result.command_id) {
            cache.order
        } else if cache.order.len() == cache.capacity {
            cache.order.drop_first().push(result.command_id)
        } else {
            cache.order.push(result.command_id)
        }),
        forall|id: Seq<char>|
            id != result.command_id && !(!cache.results.contains_key(result.command_id)
                && cache.order.len() == cache.capacity && id == cache.order[0])
                ==> #[trigger] cache.with_result(result).lookup(id) == cache.lookup(id),
{
}

/// The result of a new command outlives the results of other commands that are stored after it,
/// as long as these are fewer than the capacity.
pub proof fn law_result_outlives_others(
    cache: CacheView,
    result: ResultView,
    others: Seq<ResultView>,
)
    requires
        cache.coherent(),
        cache.bounded(),
        !cache.results.contains_key(result.command_id),
        others.len() < cache.capacity,
        forall|i: int|
            0 <= i < others.len() ==> (#[trigger] others[i]).command_id != result.command_id,
    ensures
        stored(cache.with_result(result), others).lookup(result.command_id) == Some(
            result.again(),
        ),
{
    lemma_stored_keeps_bound(cache, result);
    lemma_result_stays(cache.with_result(result), result, others);
}

/// Where an id stands in the order of a cache that has been given other results.
proof fn lemma_result_stays(start: CacheView, result: ResultView, others: Seq<ResultView>)
    requires
        start.coherent(),
        start.bounded(),
        start.order.len() > 0,
        start.order.last() == result.command_id,
        start.results[result.command_id] == result,
        others.len() < start.capacity,
        forall|i: int|
            0 <= i < others.len() ==> (#[trigger] others[i]).command_id != result.command_id,
    ensures
        ({
            let cache = stored(start, others);
            let p = cache.order.len() - 1 - others.len();
            &&& cache.coherent()
            &&& cache.bounded()
            &&& cache.capacity == start.capacity
            &&& exists|i: int|
                p <= i && 0 <= i < cache.order.len() && #[trigger] cache.order[i]
                    == result.command_id
            &&& cache.results.contains_key(result.command_id)
            &&& cache.results[result.command_id] == result
        }),
    decreases others.len(),
{
    let id = result.command_id;
    if others.len() == 0 {
        assert(start.order[start.order.len() - 1] == id);
        assert(start.order.to_set().contains(id));
    } else {
        let init = others.drop_last();
        assert forall|i: int| 0 <= i < init.len() implies (#[trigger] init[i]).command_id
            != id by {
            assert(others[i].command_id != id);
        }
        lemma_result_stays(start, result, init);
        let before = stored(start, init);
        let other = others.last();
        assert(others[others.len() - 1].command_id != id);
        lemma_stored_keeps_bound(before, other);
        let cache = before.with_result(other);
        assert(stored(start, others) == cache);
        let i = choose|i: int|
            before.order.len() - 1 - init.len() <= i && 0 <= i < before.order.len()
                && #[trigger] before.order[i] == id;
        if before.results.contains_key(other.command_id) {
            assert(cache.order[i] == id);
        } else if before.order.len() >= before.capacity {
            assert(i > 0);
            assert(before.order[0] != id);
            assert(cache.order[i - 1] == id);
        } else {
            assert(cache.order[i] == id);
        }
    }
}

/// What the ring keeps of media: where all of it is within the window and under the cap, all of it
/// in the order in which it came.
pub proof fn law_ring_keeps_what_fits(r: RingView, m: MediaView)
    requires
        r.window_us > 0,
        forall|i: int|
            0 <= i < r.video.len() ==> (#[trigger] r.video[i]).pts_us + r.window_us >= m.pts_us,
        forall|i: int|
            0 <= i < r.audio.len() ==> (#[trigger] r.audio[i]).pts_us + r.window_us >= m.pts_us,
        r.bytes() + m.data.len() <= r.max_bytes,
    ensures
        r.with_video(m) == (RingView { video: r.video.push(m), ..r }),
        r.with_audio(m) == (RingView { audio: r.audio.push(m), ..r }),
{
    lemma_media_bytes_push(r.video, m);
    lemma_media_bytes_push(r.audio, m);
    let v = r.video.push(m);
    let a = r.audio.push(m);
    if r.video.len() > 0 {
        assert(v[0] == r.video[0]);
    }
    if r.audio.len() > 0 {
        assert(a[0] == r.audio[0]);
    }
    let floor = m.pts_us - r.window_us;
    assert(without_older(v, floor) == v);
    assert(without_older(a, floor) == a);
    assert(without_older(r.video, floor) == r.video);
    assert(without_older(r.audio, floor) == r.audio);
}

/// What falls out of the window is what came before its floor, from the oldest on, up to the first
/// that did not.
pub proof fn law_window_drops_the_old(old: Seq<MediaView>, rest: Seq<MediaView>, floor: int)
    requires
        forall|i: int| 0 <= i < old.len() ==> (#[trigger] old[i]).pts_us < floor,
        rest.len() > 0 ==> rest[0].pts_us >= floor,
    ensures
        without_older(old + rest, floor) == rest,
    decreases old.len(),
{
    if old.len() == 0 {
        assert(old + rest =~= rest);
    } else {
        let t = old.drop_first();
        assert((old + rest)[0] == old[0]);
        assert forall|i: int| 0 <= i < t.len() implies (#[trigger] t[i]).pts_us < floor by {
            assert(t[i] == old[i + 1]);
        }
        assert((old + rest).drop_first() =~= t + rest);
        law_window_drops_the_old(t, rest, floor);
    }
}

/// Over the cap, the oldest goes first, a frame before a sound of the same time, until the rest is
/// under the cap; nothing goes that need not.
pub proof fn law_cap_drops_the_oldest_first(r: RingView)
    ensures
        r.bytes() <= r.max_bytes ==> r.capped() == r,
        r.bytes() > r.max_bytes && r.video.len() > 0 && (r.audio.len() == 0 || r.video[0].pts_us
            <= r.audio[0].pts_us) ==> r.capped() == (RingView {
            video: r.video.drop_first(),
            ..r
        }).capped(),
        r.bytes() > r.max_bytes && r.audio.len() > 0 && (r.video.len() == 0 || r.audio[0].pts_us
            < r.video[0].pts_us) ==> r.capped() == (RingView {
            audio: r.audio.drop_first(),
            ..r
        }).capped(),
        r.bytes() == media_bytes(r.video) + media_bytes(r.audio),
{
}

/// The bytes of some media are those of all its pieces.
pub proof fn law_bytes_add_up(s: Seq<MediaView>, m: MediaView)
    ensures
        media_bytes(Seq::empty()) == 0,
        media_bytes(s.push(m)) == media_bytes(s) + m.data.len(),
{
    lemma_media_bytes_push(s, m);
}

/// A new ring is empty; its window is counted in microseconds.
pub proof fn law_rings_start_empty(window: Duration, max_bytes: usize)
    requires
        window.nanos / 1000 <= u64::MAX,
    ensures
        RingView::fresh(window, max_bytes).video.len() == 0,
        RingView::fresh(window, max_bytes).audio.len() == 0,
        RingView::fresh(window, max_bytes).max_bytes == max_bytes,
        RingView::fresh(window, max_bytes).window_us == window.nanos / 1000,
{
}

/// What came later than a time is all that bears a later one, in its order.
pub proof fn law_later_media_is_selected(s: Seq<MediaView>, m: MediaView, since: u64)
    ensures
        later(Seq::empty(), since) == Seq::<MediaView>::empty(),
        m.pts_us > since ==> later(s.push(m), since) == later(s, since).push(m),
        m.pts_us <= since ==> later(s.push(m), since) == later(s, since),
{
    assert(s.push(m).drop_last() =~= s);
}

/// In a ring in order of time, the oldest and the newest time are those of its first and its last
/// pieces: no piece is older or newer. The span lies between them, and an empty ring has none.
pub proof fn law_span_covers_the_ring(r: RingView)
    requires
        in_time_order(r.video),
        in_time_order(r.audio),
    ensures
        r.oldest() is None <==> r.video.len() == 0 && r.audio.len() == 0,
        r.newest() is None <==> r.video.len() == 0 && r.audio.len() == 0,
        r.oldest() matches Some(o) ==> {
            &&& forall|i: int| 0 <= i < r.video.len() ==> o <= (#[trigger] r.video[i]).pts_us
            &&& forall|i: int| 0 <= i < r.audio.len() ==> o <= (#[trigger] r.audio[i]).pts_us
            &&& (r.video.len() > 0 && r.video[0].pts_us == o) || (r.audio.len() > 0
                && r.audio[0].pts_us == o)
        },
        r.newest() matches Some(n) ==> {
            &&& forall|i: int| 0 <= i < r.video.len() ==> (#[trigger] r.video[i]).pts_us <= n
            &&& forall|i: int| 0 <= i < r.audio.len() ==> (#[trigger] r.audio[i]).pts_us <= n
            &&& (r.video.len() > 0 && r.video.last().pts_us == n) || (r.audio.len() > 0
                && r.audio.last().pts_us == n)
        },
        r.span_us() == (if r.oldest() is Some {
            r.newest()->0 - r.oldest()->0
        } else {
            0
        }),
{
    if r.video.len() > 0 {
        assert(r.video[0].pts_us <= r.video.last().pts_us);
    }
    if r.audio.len() > 0 {
        assert(r.audio[0].pts_us <= r.audio.last().pts_us);
    }
}

/// The log takes each event in at its end, under the next number and at its time; a full log lets
/// its first event go for it. What a client has missed is the end of the log.
pub proof fn law_log_takes_events_in(log: LogView, at_ms: u64, kind: KindView, after: u64)
    ensures
        ({
            let next = log.with_event(at_ms, kind);
            &&& next.events.last() == (EventView { seq: log.next_seq, at_ms, kind })
            &&& log.next_seq < u64::MAX ==> next.next_seq == log.next_seq + 1
            &&& next.capacity == log.capacity
            &&& log.events.len() < log.capacity ==> next.events.drop_last() == log.events
            &&& log.events.len() == log.capacity && log.capacity > 0 ==> next.events.drop_last()
                == log.events.drop_first()
        }),
        log.consecutive() && log.since(after) is Some && log.since(after)->0.len() > 0 ==> log.since(
            after,
        )->0 == log.events.skip(log.events.len() - log.since(after)->0.len()),
{
    let next = log.with_event(at_ms, kind);
    if log.events.len() < log.capacity {
        assert(next.events.drop_last() =~= log.events);
    }
    if log.events.len() == log.capacity && log.capacity > 0 {
        assert(next.events.drop_last() =~= log.events.drop_first());
    }
}

/// What a result says: that a command succeeded, or why it did not; one from the cache is the same
/// but for being marked. A refusal of the call goes by its own name, and each has its status.
pub proof fn law_results_say_what_happened(id: Seq<char>, error: CallError, r: ResultView)
    ensures
        ResultView::succeeded(id).ok && ResultView::succeeded(id).error is None,
        ResultView::succeeded(id).command_id == id && !ResultView::succeeded(id).replayed,
        !ResultView::refused(id, error).ok && ResultView::refused(id, error).error == Some(error),
        ResultView::refused(id, error).command_id == id && !ResultView::refused(
            id,
            error,
        ).replayed,
        r.again().replayed && r.again().ok == r.ok && r.again().error == r.error
            && r.again().command_id == r.command_id,
        rejection(StateError::NotRinging) == CallError::NotRinging,
        rejection(StateError::PadOwnsCall) == CallError::PadOwnsCall,
        rejection(StateError::UnlockNotAllowed) == CallError::UnlockNotAllowed,
        rejection(StateError::UnlockCooldown) == CallError::UnlockCooldown,
        error.status() == (match error {
            CallError::NotRinging => 409u16,
            CallError::PadOwnsCall => 409u16,
            CallError::UnlockNotAllowed => 409u16,
            CallError::UnlockCooldown => 429u16,
            CallError::NoCall => 409u16,
            CallError::AgentOffline => 503u16,
            CallError::Unsupported => 501u16,
        }),
{
}

/// The name of each kind of event.
pub proof fn law_events_have_names(kind: KindView)
    ensures
        kind is Snapshot ==> kind.name() == "snapshot"@,
        kind is CallStarted ==> kind.name() == "call_started"@,
        kind is PadAnswered ==> kind.name() == "pad_answered"@,
        kind is RemoteAnswered ==> kind.name() == "remote_answered"@,
        kind is Unlocked ==> kind.name() == "unlocked"@,
        kind is CallEnded ==> kind.name() == "call_ended"@,
        kind is AgentError ==> kind.name() == "agent_error"@,
        kind is MonitorStarted ==> kind.name() == "monitor_started"@,
        kind is MonitorStopped ==> kind.name() == "monitor_stopped"@,
        kind is ElevatorCalled ==> kind.name() == "elevator_called"@,
{
}

} // verus!
