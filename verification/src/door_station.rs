//! A software door station: a virtual door that an operator rings and hangs up, with the camera
//! and the microphone of a capture.

use vstd::prelude::*;
use crate::agent_api;
use crate::agent_api::{
    AudioChunk, CallAction, CallState, CommandResult, Event, KindView, MediaHistory, MediaInfo,
    MediaView, VideoFrame,
};
use crate::bytes;
use crate::desk;
use crate::desk::{CallDesk, DeskView};
use crate::media;
use crate::net::Ipv4Addr;
use crate::replay_agent;
use crate::replay_agent::{ReplayError, TimedFrame, TimedView};
use crate::state::{CallMachine, CallPhase, MachineView, Owner};
use crate::text;
use crate::time::{Duration, Instant};
use crate::transport::FrameKind;

verus! {

pub const AGENT_ID: &'static str = "software-door-station";

/// The player that is used where none is configured.
pub const DEFAULT_PLAYER: &'static str =
    "ffplay -hide_banner -loglevel error -nodisp -autoexit -f s16le -ar 8000 -ch_layout mono -i pipe:0";

/// The shell commands that are run on call events; what is not set is only logged.
#[derive(Debug)]
pub struct Callbacks {
    pub on_answer: Option<String>,
    pub on_unlock: Option<String>,
    pub on_hangup: Option<String>,
}

impl Default for Callbacks {
    fn default() -> (r: Self)
        ensures
            r.on_answer is None,
            r.on_unlock is None,
            r.on_hangup is None,
    {
        Callbacks { on_answer: None, on_unlock: None, on_hangup: None }
    }
}

#[derive(Debug)]
pub struct DoorStationConfig {
    pub door_id: String,
    pub room_id: String,
    /// The address of the door where it calls a real Pad.
    pub door_ip: Ipv4Addr,
    /// How many frames per second the camera shows.
    pub loop_fps: u16,
    pub cooldown: Duration,
    pub history: Duration,
    pub history_max_bytes: usize,
    pub callbacks: Callbacks,
    /// Whether what the visitor says is played.
    pub play: bool,
    /// The player for what the visitor says; where it is set, it is played.
    pub player: Option<String>,
    /// The file for what the visitor says, where it is not played.
    pub audio_out: Option<String>,
}

impl Default for DoorStationConfig {
    fn default() -> (r: Self)
        ensures
            r.door_id@ == "M00000000000"@,
            r.room_id@ == "S00000000000"@,
            r.door_ip == (Ipv4Addr { a: 192, b: 168, c: 124, d: 2 }),
            r.loop_fps == 8,
            r.cooldown.nanos == 1_000_000_000,
            r.history.nanos == 5_000_000_000,
            r.history_max_bytes == 2 * 1024 * 1024,
            r.callbacks.on_answer is None,
            r.callbacks.on_unlock is None,
            r.callbacks.on_hangup is None,
            !r.play,
            r.player is None,
            r.audio_out is None,
    {
        DoorStationConfig {
            door_id: "M00000000000".to_owned(),
            room_id: "S00000000000".to_owned(),
            door_ip: Ipv4Addr::new(192, 168, 124, 2),
            loop_fps: 8,
            cooldown: Duration::from_secs(1),
            history: Duration::from_secs(5),
            history_max_bytes: 2 * 1024 * 1024,
            callbacks: Callbacks::default(),
            play: false,
            player: None,
            audio_out: None,
        }
    }
}

/// Why a capture is no door station.
#[derive(Clone, Copy, Debug, PartialEq, Eq, Structural)]
pub enum DoorError {
    Replay(ReplayError),
    /// It holds no complete video frame.
    NoFrames,
}

/// The payloads of the frames of one kind, in order.
pub open spec fn payloads(timeline: Seq<TimedView>, kind: FrameKind) -> Seq<Seq<u8>>
    decreases timeline.len(),
{
    if timeline.len() == 0 {
        Seq::empty()
    } else if timeline.last().frame.kind == kind {
        payloads(timeline.drop_last(), kind).push(timeline.last().frame.payload)
    } else {
        payloads(timeline.drop_last(), kind)
    }
}

fn collect_payloads(timeline: &Vec<TimedFrame>, kind: FrameKind) -> (r: Vec<Vec<u8>>)
    ensures
        media::blob_views(r@) == payloads(replay_agent::timed_views(timeline@), kind),
{
    let ghost all = replay_agent::timed_views(timeline@);
    let mut out: Vec<Vec<u8>> = Vec::new();
    let mut i: usize = 0;
    assert(all.take(0) =~= Seq::empty());
    assert(media::blob_views(out@) =~= Seq::empty());
    while i < timeline.len()
        invariant
            i <= timeline@.len() == all.len(),
            all == replay_agent::timed_views(timeline@),
            media::blob_views(out@) == payloads(all.take(i as int), kind),
        decreases timeline@.len() - i,
    {
        let ghost before = media::blob_views(out@);
        proof {
            assert(all.take(i + 1).drop_last() =~= all.take(i as int));
            assert(all.take(i + 1).last() == timeline@[i as int]@);
        }
        if timeline[i].frame.kind == kind {
            out.push(bytes::copy_of(&timeline[i].frame.payload));
            assert(media::blob_views(out@) =~= before.push(all[i as int].frame.payload));
        }
        i = i + 1;
    }
    assert(all.take(i as int) =~= all);
    out
}

/// The hook of a call event.
#[derive(Clone, Copy, Debug, PartialEq, Eq, Structural)]
pub enum Hook {
    Answer,
    Unlock,
    Hangup,
}

impl Hook {
    /// The name of the event that a hook is told.
    pub open spec fn text(self) -> Seq<char> {
        match self {
            Hook::Answer => "answer"@,
            Hook::Unlock => "unlock"@,
            Hook::Hangup => "hangup"@,
        }
    }

    /// The name of the event that a hook is told.
    pub fn name(self) -> (r: &'static str)
        ensures
            r@ == self.text(),
    {
        match self {
            Hook::Answer => "answer",
            Hook::Unlock => "unlock",
            Hook::Hangup => "hangup",
        }
    }
}

/// The hook of an action.
pub open spec fn hook_of(action: CallAction) -> Hook {
    match action {
        CallAction::Claim => Hook::Answer,
        CallAction::Unlock => Hook::Unlock,
        CallAction::Hangup => Hook::Hangup,
    }
}

impl Callbacks {
    /// The command of a hook.
    pub open spec fn command_of(&self, hook: Hook) -> Option<Seq<char>> {
        match hook {
            Hook::Answer => text::text_view(self.on_answer),
            Hook::Unlock => text::text_view(self.on_unlock),
            Hook::Hangup => text::text_view(self.on_hangup),
        }
    }

    /// The command of a hook.
    pub fn command(&self, hook: Hook) -> (r: Option<String>)
        ensures
            text::text_view(r) == self.command_of(hook),
    {
        match hook {
            Hook::Answer => text::copy_text(&self.on_answer),
            Hook::Unlock => text::copy_text(&self.on_unlock),
            Hook::Hangup => text::copy_text(&self.on_hangup),
        }
    }
}

pub struct DoorStation {
    frames: Vec<Vec<u8>>,
    audio: Vec<Vec<u8>>,
    config: DoorStationConfig,
    desk: CallDesk,
    streaming: bool,
}

/// What a door station holds.
pub struct StationDesk {
    pub frames: Seq<Seq<u8>>,
    pub audio: Seq<Seq<u8>>,
    pub config: DoorStationConfig,
    pub desk: DeskView,
    pub streaming: bool,
}

impl View for DoorStation {
    type V = StationDesk;

    closed spec fn view(&self) -> StationDesk {
        StationDesk {
            frames: media::blob_views(self.frames@),
            audio: media::blob_views(self.audio@),
            config: self.config,
            desk: self.desk@,
            streaming: self.streaming,
        }
    }
}

/// The session of a call that rings at this time: its number is the time, but never zero.
pub open spec fn session_at(now_ms: u64) -> u64 {
    if now_ms == 0 {
        1
    } else {
        now_ms
    }
}

/// What is to be done once a door station has dealt with a command or an operator.
#[derive(Debug)]
pub struct DoorOutcome {
    pub result: CommandResult,
    pub event: Option<Event>,
    pub hook: Option<Hook>,
}

impl DoorStation {
    /// Whether the station is in order: its camera has something to show.
    pub closed spec fn wf(&self) -> bool {
        self.desk.wf() && self.frames@.len() > 0
    }

    /// Whether the station is in order and there is a number left for another event.
    pub open spec fn ready(&self) -> bool {
        self.wf() && self@.desk.log.next_seq < u64::MAX
    }

    /// A door station with the camera and the microphone of a capture file.
    pub fn from_capture(data: &[u8], config: DoorStationConfig) -> (r: Result<Self, DoorError>)
        ensures
            match replay_agent::captured_timeline(data@) {
                Err(e) => r == Err::<Self, DoorError>(DoorError::Replay(e)),
                Ok(timeline) => match r {
                    Ok(station) => {
                        &&& station.ready()
                        &&& station@.frames.len() > 0
                        &&& station@ == (StationDesk {
                            frames: payloads(timeline, FrameKind::Jpeg),
                            audio: payloads(timeline, FrameKind::DoorPcm),
                            config,
                            desk: DeskView::fresh(
                                MachineView::fresh(config.cooldown, false),
                                config.history,
                                config.history_max_bytes,
                            ),
                            streaming: false,
                        })
                    },
                    Err(e) => e == DoorError::NoFrames && payloads(
                        timeline,
                        FrameKind::Jpeg,
                    ).len() == 0,
                },
            },
    {
        let timeline = match replay_agent::replay_timeline(data) {
            Ok(timeline) => timeline,
            Err(e) => return Err(DoorError::Replay(e)),
        };
        let frames = collect_payloads(&timeline, FrameKind::Jpeg);
        let audio = collect_payloads(&timeline, FrameKind::DoorPcm);
        assert(media::blob_views(frames@).len() == frames@.len());
        if frames.len() == 0 {
            return Err(DoorError::NoFrames);
        }
        let machine = CallMachine::with_policy(config.cooldown, false);
        let desk = CallDesk::new(machine, config.history, config.history_max_bytes);
        Ok(DoorStation { frames, audio, config, desk, streaming: false })
    }

    /// Whether there is a number left for another event.
    pub fn has_room(&self) -> (r: bool)
        ensures
            r == (self@.desk.log.next_seq < u64::MAX),
    {
        self.desk.has_room()
    }

    /// Whether the camera and the microphone are on.
    pub fn is_streaming(&self) -> (r: bool)
        ensures
            r == self@.streaming,
    {
        self.streaming
    }

    /// The session of the call, in decimal notation.
    pub fn session_string(&self) -> (r: String)
        ensures
            r@ == self@.desk.session(),
    {
        self.desk.session_string()
    }

    pub fn config(&self) -> (r: &DoorStationConfig)
        ensures
            *r == self@.config,
    {
        &self.config
    }

    /// The operator presses the doorbell: the call rings where none is active, and the camera and
    /// the microphone go on. The second value says whether they were off.
    pub fn ring(&mut self, now_ms: u64) -> (r: (Option<Event>, bool))
        requires
            old(self).ready(),
        ensures
            final(self).wf(),
            final(self)@ == (if old(self)@.desk.active() {
                old(self)@
            } else {
                StationDesk {
                    desk: old(self)@.desk.call_started(
                        session_at(now_ms),
                        old(self)@.config.door_id@,
                        old(self)@.config.room_id@,
                        now_ms,
                    ),
                    streaming: true,
                    ..old(self)@
                }
            }),
            desk::event_view(r.0) == (if old(self)@.desk.active() {
                None
            } else {
                Some(
                    old(self)@.desk.next_event(
                        now_ms,
                        desk::started_kind(
                            session_at(now_ms),
                            old(self)@.config.door_id@,
                            old(self)@.config.room_id@,
                        ),
                    ),
                )
            }),
            r.1 == (!old(self)@.desk.active() && !old(self)@.streaming),
            final(self)@ == old(self)@.rung(now_ms),
    {
        if self.desk.is_active() {
            return (None, false);
        }
        let session: u64 = if now_ms == 0 {
            1
        } else {
            now_ms
        };
        let event = self.desk.start_call(
            session,
            self.config.door_id.as_str(),
            self.config.room_id.as_str(),
            now_ms,
        );
        let start: bool = !self.streaming;
        self.streaming = true;
        (Some(event), start)
    }

    /// The call ends: the camera and the microphone go off. The event comes where there was a
    /// call, and its hook with it.
    pub fn hangup_local(&mut self, reason: &str, now_ms: u64) -> (r: Option<Event>)
        requires
            old(self).ready(),
        ensures
            final(self).wf(),
            final(self)@ == (StationDesk {
                desk: old(self)@.desk.call_ended(
                    old(self)@.desk.machine.state.session_id,
                    reason@,
                    now_ms,
                ),
                streaming: false,
                ..old(self)@
            }),
            final(self)@ == old(self)@.hung_up(reason@, now_ms),
            desk::event_view(r) == (if old(self)@.desk.active() {
                Some(
                    old(self)@.desk.next_event(
                        now_ms,
                        desk::ended_kind(old(self)@.desk.machine.state.session_id, reason@),
                    ),
                )
            } else {
                None
            }),
    {
        self.streaming = false;
        self.desk.end_call(self.desk.session_id(), reason, now_ms)
    }

    /// Deals with a command of a backend. A hangup turns the camera and the microphone off.
    pub fn command(&mut self, action: CallAction, command_id: &str, now: Instant, now_ms: u64) -> (r:
        DoorOutcome)
        requires
            old(self).ready(),
        ensures
            final(self).wf(),
            r.result@ == old(self)@.desk.local_result(action, command_id@, now),
            ({
                let carried_out = old(self)@.desk.cache.lookup(command_id@) is None && old(
                    self,
                )@.desk.refusal(action, now) is None;
                &&& desk::event_view(r.event) == (if carried_out {
                    Some(old(self)@.desk.next_event(now_ms, old(self)@.desk.report_of(action)))
                } else {
                    None
                })
                &&& r.hook == (if carried_out {
                    Some(hook_of(action))
                } else {
                    None
                })
                &&& final(self)@ == (StationDesk {
                    desk: old(self)@.desk.executed(action, command_id@, now, now_ms),
                    streaming: old(self)@.streaming && !(carried_out && action
                        == CallAction::Hangup),
                    ..old(self)@
                })
            }),
            final(self)@ == old(self)@.commanded(action, command_id@, now, now_ms),
            r.hook == old(self)@.hook_for(action, command_id@, now),
    {
        let (result, event) = self.desk.execute(action, command_id, now, now_ms);
        let hook = if event.is_some() {
            if action == CallAction::Hangup {
                self.streaming = false;
            }
            Some(
                match action {
                    CallAction::Claim => Hook::Answer,
                    CallAction::Unlock => Hook::Unlock,
                    CallAction::Hangup => Hook::Hangup,
                },
            )
        } else {
            None
        };
        DoorOutcome { result, event, hook }
    }

    /// Shows the frame of tick number `tick`: the frames of the capture in turn.
    pub fn stream_frame(&mut self, tick: usize, pts_us: u64) -> (r: VideoFrame)
        requires
            old(self).wf(),
        ensures
            final(self).wf(),
            r@ == (MediaView {
                pts_us,
                data: old(self)@.frames[tick as int % old(self)@.frames.len() as int],
            }),
            r@ == old(self)@.frame_at(tick, pts_us),
            final(self)@ == (StationDesk { desk: old(self)@.desk.with_video(r@), ..old(self)@ }),
    {
        let i: usize = tick % self.frames.len();
        assert(self@.frames[i as int] == self.frames@[i as int]@);
        let frame = VideoFrame { pts_us, jpeg: bytes::copy_of(&self.frames[i]) };
        self.desk.push_video(&frame);
        frame
    }

    /// Plays the audio of tick number `tick`, where the capture holds any.
    pub fn stream_audio(&mut self, tick: usize, pts_us: u64) -> (r: Option<AudioChunk>)
        requires
            old(self).wf(),
        ensures
            final(self).wf(),
            match r {
                None => old(self)@.audio.len() == 0 && final(self)@ == old(self)@,
                Some(chunk) => {
                    &&& old(self)@.audio.len() > 0
                    &&& chunk@ == (MediaView {
                        pts_us,
                        data: old(self)@.audio[tick as int % old(self)@.audio.len() as int],
                    })
                    &&& final(self)@ == (StationDesk {
                        desk: old(self)@.desk.with_audio(chunk@),
                        ..old(self)@
                    })
                },
            },
    {
        if self.audio.len() == 0 {
            return None;
        }
        let i: usize = tick % self.audio.len();
        assert(self@.audio[i as int] == self.audio@[i as int]@);
        let chunk = AudioChunk { pts_us, pcm: bytes::copy_of(&self.audio[i]) };
        self.desk.push_audio(&chunk);
        Some(chunk)
    }

    /// The latest frame, or the first frame of the capture before anything was shown.
    pub fn snapshot(&self, clock_us: u64) -> (r: VideoFrame)
        requires
            self.wf(),
        ensures
            r@ == (match self@.desk.latest {
                Some(frame) => frame,
                None => MediaView { pts_us: clock_us, data: self@.frames[0] },
            }),
    {
        match self.desk.snapshot() {
            Some(frame) => frame,
            None => {
                assert(self@.frames[0] == self.frames@[0]@);
                VideoFrame { pts_us: clock_us, jpeg: bytes::copy_of(&self.frames[0]) }
            },
        }
    }

    /// The state of the call as a backend sees it; the stations are named only during a call.
    pub fn state(&self, uptime_ms: u64) -> (r: CallState)
        ensures
            r@ == desk::public_state(
                self@.desk,
                if self@.desk.active() {
                    Some(self@.config.door_id@)
                } else {
                    None
                },
                if self@.desk.active() {
                    Some(self@.config.room_id@)
                } else {
                    None
                },
                AGENT_ID@,
                uptime_ms,
            ),
    {
        let (door_id, room_id) = if self.desk.is_active() {
            (Some(self.config.door_id.clone()), Some(self.config.room_id.clone()))
        } else {
            (None, None)
        };
        self.desk.call_state(door_id, room_id, AGENT_ID.to_owned(), uptime_ms)
    }

    /// The events behind number `after_seq`.
    pub fn recent(&self, after_seq: u64) -> (r: Option<Vec<Event>>)
        requires
            self.wf(),
        ensures
            match r {
                Some(events) => self@.desk.log.since(after_seq) == Some(
                    agent_api::event_views(events@),
                ),
                None => self@.desk.log.since(after_seq) is None,
            },
    {
        self.desk.recent(after_seq)
    }

    /// The buffered media later than `since_us`.
    pub fn history(&self, since_us: u64) -> (r: MediaHistory)
        ensures
            r.video@.map_values(|f: VideoFrame| f@) == agent_api::later(
                self@.desk.ring.video,
                since_us,
            ),
            r.audio@.map_values(|a: AudioChunk| a@) == agent_api::later(
                self@.desk.ring.audio,
                since_us,
            ),
    {
        self.desk.history(since_us)
    }

    /// The media that a backend can have: it may talk during any call.
    pub fn media_info(&self) -> (r: MediaInfo)
        ensures
            desk::is_media_info(r, self@.desk.active(), self@.desk.ring),
    {
        self.desk.media_info(self.desk.is_active())
    }

    /// The camera and the microphone of the capture, for a call to a real Pad.
    pub fn media_source(&self) -> (r: (Vec<Vec<u8>>, Vec<Vec<u8>>))
        ensures
            media::blob_views(r.0@) == self@.frames,
            media::blob_views(r.1@) == self@.audio,
    {
        (copy_blobs(&self.frames), copy_blobs(&self.audio))
    }
}

/// A copy of a list of byte strings.
pub fn copy_blobs(v: &Vec<Vec<u8>>) -> (r: Vec<Vec<u8>>)
    ensures
        media::blob_views(r@) == media::blob_views(v@),
{
    let mut r: Vec<Vec<u8>> = Vec::new();
    let mut i: usize = 0;
    while i < v.len()
        invariant
            i <= v@.len(),
            r@.len() == i,
            forall|j: int| 0 <= j < i ==> (#[trigger] r@[j])@ == v@[j]@,
        decreases v@.len() - i,
    {
        r.push(bytes::copy_of(&v[i]));
        i = i + 1;
    }
    assert(media::blob_views(r@) =~= media::blob_views(v@));
    r
}

/// What an operator asks of a door station.
#[derive(Debug, PartialEq, Eq)]
pub enum ConsoleCommand {
    /// Ring the Pad at an address.
    RingTarget(String),
    Ring,
    Hangup,
    Quit,
    Help,
    Unknown(String),
}

/// What an operator's line asks for.
pub enum ConsoleView {
    RingTarget(Seq<char>),
    Ring,
    Hangup,
    Quit,
    Help,
    Unknown(Seq<char>),
}

impl View for ConsoleCommand {
    type V = ConsoleView;

    open spec fn view(&self) -> ConsoleView {
        match self {
            ConsoleCommand::RingTarget(arg) => ConsoleView::RingTarget(arg@),
            ConsoleCommand::Ring => ConsoleView::Ring,
            ConsoleCommand::Hangup => ConsoleView::Hangup,
            ConsoleCommand::Quit => ConsoleView::Quit,
            ConsoleCommand::Help => ConsoleView::Help,
            ConsoleCommand::Unknown(other) => ConsoleView::Unknown(other@),
        }
    }
}

/// What an operator's line asks for; white space around it does not count.
pub open spec fn console_command(line: Seq<char>) -> ConsoleView {
    let s = text::trimmed(line);
    if text::text_begins(s, "ring "@) {
        ConsoleView::RingTarget(text::trimmed(s.skip(5)))
    } else if s == "ring"@ || s == "r"@ {
        ConsoleView::Ring
    } else if s == "hangup"@ || s == "h"@ || s == "end"@ {
        ConsoleView::Hangup
    } else if s == "quit"@ || s == "q"@ || s == "exit"@ {
        ConsoleView::Quit
    } else if s == "help"@ || s == "?"@ || s == ""@ {
        ConsoleView::Help
    } else {
        ConsoleView::Unknown(s)
    }
}

/// Reads an operator's line.
pub fn parse_console(line: &str) -> (r: ConsoleCommand)
    ensures
        r@ == console_command(line@),
{
    let chars = text::chars_of(line);
    let s = text::trim(&chars);
    let ring = text::chars_of("ring ");
    proof {
        reveal_strlit("ring ");
    }
    if text::chars_begin(s, &ring) {
        let rest = &s[5..s.len()];
        assert(rest@ =~= s@.skip(5));
        return ConsoleCommand::RingTarget(text::text_of(text::trim(rest)));
    }
    let word = text::text_of(s);
    let w = word.as_str();
    if text::same_text(w, "ring") || text::same_text(w, "r") {
        ConsoleCommand::Ring
    } else if text::same_text(w, "hangup") || text::same_text(w, "h") || text::same_text(w, "end") {
        ConsoleCommand::Hangup
    } else if text::same_text(w, "quit") || text::same_text(w, "q") || text::same_text(w, "exit") {
        ConsoleCommand::Quit
    } else if text::same_text(w, "help") || text::same_text(w, "?") || text::same_text(w, "") {
        ConsoleCommand::Help
    } else {
        ConsoleCommand::Unknown(word)
    }
}

/// Where received audio goes.
#[derive(Debug, PartialEq, Eq)]
pub enum SinkChoice {
    /// Into a player that this command starts.
    Play(String),
    /// Into a file.
    File(String),
}

/// Chooses where received audio goes: a player that is named, the default player where playing is
/// asked for, else a file.
pub fn choose_sink(
    play: bool,
    player: &Option<String>,
    audio_out: &Option<String>,
    default_file: &str,
) -> (r: SinkChoice)
    ensures
        match crate::config::set_text(*player) {
            Some(command) => r matches SinkChoice::Play(c) && c@ == command,
            None => if play {
                r matches SinkChoice::Play(c) && c@ == DEFAULT_PLAYER@
            } else {
                r matches SinkChoice::File(f) && f@ == (match *audio_out {
                    Some(path) => path@,
                    None => default_file@,
                })
            },
        },
{
    if let Some(command) = crate::config::non_empty(player) {
        return SinkChoice::Play(command.to_owned());
    }
    if play {
        return SinkChoice::Play(DEFAULT_PLAYER.to_owned());
    }
    match audio_out {
        Some(path) => SinkChoice::File(path.clone()),
        None => SinkChoice::File(default_file.to_owned()),
    }
}

/// The program of a command line and its arguments; `None` where the line is blank.
pub fn split_command(command: &str) -> (r: Option<(String, Vec<String>)>)
    ensures
        match r {
            Some((program, args)) => text::words(command@) == seq![program@] + text::text_views(
                args@,
            ),
            None => text::words(command@).len() == 0,
        },
{
    let chars = text::chars_of(command);
    let parts = text::split_words(&chars);
    let ghost all = text::words(command@);
    assert(text::slice_views(parts@).len() == parts@.len());
    if parts.len() == 0 {
        return None;
    }
    let program = text::text_of(parts[0]);
    assert(text::slice_views(parts@)[0] == parts@[0]@);
    let mut args: Vec<String> = Vec::new();
    let mut i: usize = 1;
    while i < parts.len()
        invariant
            1 <= i <= parts@.len() == all.len(),
            text::slice_views(parts@) == all,
            args@.len() == i - 1,
            forall|j: int| 0 <= j < args@.len() ==> (#[trigger] args@[j])@ == all[j + 1],
        decreases parts@.len() - i,
    {
        assert(text::slice_views(parts@)[i as int] == parts@[i as int]@);
        args.push(text::text_of(parts[i]));
        i = i + 1;
    }
    assert(all =~= seq![program@] + text::text_views(args@));
    Some((program, args))
}

/// The payloads of a kind are those of its frames in the timeline, in their order.
pub proof fn law_payloads_are_in_order(timeline: Seq<TimedView>, t: TimedView, kind: FrameKind)
    ensures
        payloads(Seq::empty(), kind) == Seq::<Seq<u8>>::empty(),
        t.frame.kind == kind ==> payloads(timeline.push(t), kind) == payloads(timeline, kind).push(
            t.frame.payload,
        ),
        t.frame.kind != kind ==> payloads(timeline.push(t), kind) == payloads(timeline, kind),
{
    assert(timeline.push(t).drop_last() =~= timeline);
}

/// Each command of the call has its hook: an answer, an opening, a hangup. A call is numbered by
/// the time at which it starts, and never 0.
pub proof fn law_commands_have_hooks(now_ms: u64)
    ensures
        hook_of(CallAction::Claim) == Hook::Answer,
        hook_of(CallAction::Unlock) == Hook::Unlock,
        hook_of(CallAction::Hangup) == Hook::Hangup,
        Hook::Answer.text() == "answer"@,
        Hook::Unlock.text() == "unlock"@,
        Hook::Hangup.text() == "hangup"@,
        session_at(now_ms) != 0,
        now_ms != 0 ==> session_at(now_ms) == now_ms,
{
}

/// What the operator's words mean, blanks around them apart: to ring, by name or at a target, to
/// hang up, to quit, to be helped; all else is unknown.
pub proof fn law_operator_words(line: Seq<char>, target: Seq<char>)
    ensures
        ({
            let s = text::trimmed(line);
            let c = console_command(line);
            let named = "ring "@.is_prefix_of(s);
            &&& s == "ring "@ + target ==> c == ConsoleView::RingTarget(text::trimmed(target))
            &&& c is RingTarget <==> named
            &&& c == ConsoleView::Ring <==> s == "ring"@ || s == "r"@
            &&& c == ConsoleView::Hangup <==> s == "hangup"@ || s == "h"@ || s == "end"@
            &&& c == ConsoleView::Quit <==> s == "quit"@ || s == "q"@ || s == "exit"@
            &&& c == ConsoleView::Help <==> s == "help"@ || s == "?"@ || s.len() == 0
            &&& c matches ConsoleView::Unknown(other) ==> other == s
        }),
{
    let s = text::trimmed(line);
    reveal_strlit("ring ");
    reveal_strlit("ring");
    reveal_strlit("r");
    reveal_strlit("hangup");
    reveal_strlit("h");
    reveal_strlit("end");
    reveal_strlit("quit");
    reveal_strlit("q");
    reveal_strlit("exit");
    reveal_strlit("help");
    reveal_strlit("?");
    reveal_strlit("");
    assert("ring "@.len() == 5 && "ring"@.len() == 4 && "r"@.len() == 1 && "hangup"@.len() == 6
        && "h"@.len() == 1 && "end"@.len() == 3 && "quit"@.len() == 4 && "q"@.len() == 1
        && "exit"@.len() == 4 && "help"@.len() == 4 && "?"@.len() == 1 && ""@.len() == 0);
    assert("ring "@[0] == 'r' && "ring"@[0] == 'r' && "r"@[0] == 'r' && "hangup"@[0] == 'h'
        && "h"@[0] == 'h' && "quit"@[0] == 'q' && "q"@[0] == 'q' && "exit"@[0] == 'e' && "help"@[0]
        == 'h' && "?"@[0] == '?');
    if s.len() == 0 {
        assert(s =~= ""@);
    }
    if s.len() >= 5 {
        assert(s.take(5) =~= s.subrange(0, 5));
        assert(s.take(5)[0] == s[0]);
    }
    if s == "ring "@ + target {
        assert(s.take(5) =~= "ring "@);
        assert(s.skip(5) =~= target);
    }
}

/// The command that is run for a hook is the one that is configured for it.
pub proof fn law_hooks_have_their_commands(c: Callbacks)
    ensures
        c.command_of(Hook::Answer) == text::text_view(c.on_answer),
        c.command_of(Hook::Unlock) == text::text_view(c.on_unlock),
        c.command_of(Hook::Hangup) == text::text_view(c.on_hangup),
{
}

impl StationDesk {
    /// The station once its bell has been rung.
    pub open spec fn rung(self, now_ms: u64) -> StationDesk {
        if self.desk.active() {
            self
        } else {
            StationDesk {
                desk: self.desk.call_started(
                    session_at(now_ms),
                    self.config.door_id@,
                    self.config.room_id@,
                    now_ms,
                ),
                streaming: true,
                ..self
            }
        }
    }

    /// The station once the call has been ended at the door.
    pub open spec fn hung_up(self, reason: Seq<char>, now_ms: u64) -> StationDesk {
        StationDesk {
            desk: self.desk.call_ended(self.desk.machine.state.session_id, reason, now_ms),
            streaming: false,
            ..self
        }
    }

    /// Whether a command is carried out: it is new, and the call allows it.
    pub open spec fn carries_out(self, action: CallAction, id: Seq<char>, now: Instant) -> bool {
        self.desk.cache.lookup(id) is None && self.desk.refusal(action, now) is None
    }

    /// The station once a command has come.
    pub open spec fn commanded(
        self,
        action: CallAction,
        id: Seq<char>,
        now: Instant,
        now_ms: u64,
    ) -> StationDesk {
        StationDesk {
            desk: self.desk.executed(action, id, now, now_ms),
            streaming: self.streaming && !(self.carries_out(action, id, now) && action
                == CallAction::Hangup),
            ..self
        }
    }

    /// The hook that a command runs.
    pub open spec fn hook_for(self, action: CallAction, id: Seq<char>, now: Instant) -> Option<Hook> {
        if self.carries_out(action, id, now) {
            Some(hook_of(action))
        } else {
            None
        }
    }

    /// The frame that the camera shows at a tick.
    pub open spec fn frame_at(self, tick: usize, pts_us: u64) -> MediaView {
        MediaView { pts_us, data: self.frames[tick as int % self.frames.len() as int] }
    }
}

/// Ringing starts a call under the time of the ring, for the stations of the configuration, and the
/// stream; a call that goes on is not rung again.
pub proof fn law_station_rings(s: StationDesk, now_ms: u64)
    ensures
        ({
            let t = s.rung(now_ms);
            let c = t.desk.machine.state;
            let idle = s.desk.machine.state.phase == CallPhase::Idle;
            let kind = KindView::CallStarted {
                session_id: text::decimal(c.session_id as nat),
                door_id: s.config.door_id@,
                room_id: s.config.room_id@,
            };
            &&& idle ==> c.phase == CallPhase::Ringing && c.owner == Owner::Nobody && t.streaming
            &&& idle && now_ms > 0 ==> c.session_id == now_ms
            &&& idle ==> c.session_id != 0 && t.desk.since_ms == Some(now_ms) && t.desk.log
                == s.desk.log.with_event(now_ms, kind)
            &&& !idle ==> t == s
            &&& t.frames == s.frames && t.audio == s.audio && t.config == s.config
        }),
{
}

/// Hanging up at the door ends the call whoever owns it, and the stream with it; where there was a
/// call, its end is reported under its number with the reason.
pub proof fn law_station_hangs_up(s: StationDesk, reason: Seq<char>, now_ms: u64)
    ensures
        ({
            let t = s.hung_up(reason, now_ms);
            let c = t.desk.machine.state;
            let active = s.desk.machine.state.phase != CallPhase::Idle;
            let kind = KindView::CallEnded {
                session_id: text::decimal(s.desk.machine.state.session_id as nat),
                reason,
            };
            &&& c.phase == CallPhase::Idle && c.owner == Owner::Nobody
            &&& !t.streaming
            &&& active ==> t.desk.log == s.desk.log.with_event(now_ms, kind)
            &&& !active ==> t.desk.log == s.desk.log
            &&& t.frames == s.frames && t.audio == s.audio && t.config == s.config
        }),
{
}

/// A command that is refused, or was dealt with before, leaves the call and the stream and runs no
/// hook. One that is carried out runs its hook: an answer connects the call from afar, an opening
/// is counted, and a hangup ends the call and the stream.
pub proof fn law_station_obeys(
    s: StationDesk,
    action: CallAction,
    id: Seq<char>,
    now: Instant,
    now_ms: u64,
)
    ensures
        ({
            let t = s.commanded(action, id, now, now_ms);
            let c = s.desk.machine.state;
            let d = t.desk.machine.state;
            let done = s.desk.cache.lookup(id) is None && s.desk.refusal(action, now) is None;
            let hook = s.hook_for(action, id, now);
            &&& !done ==> hook is None && t.desk.machine == s.desk.machine && t.streaming
                == s.streaming && t.desk.log == s.desk.log
            &&& done && action == CallAction::Claim ==> hook == Some(Hook::Answer) && d.phase
                == CallPhase::Connected && d.owner == Owner::Remote && t.streaming == s.streaming
            &&& done && action == CallAction::Unlock ==> hook == Some(Hook::Unlock) && d.unlocks
                as int == (c.unlocks + 1) % 0x1_0000_0000_0000_0000 && d.phase == c.phase
                && d.owner == c.owner && t.streaming == s.streaming
            &&& done && action == CallAction::Hangup ==> hook == Some(Hook::Hangup) && d.phase
                == CallPhase::Idle && d.owner == Owner::Nobody && !t.streaming
            &&& t.desk.cache.lookup(id) is Some
            &&& t.frames == s.frames && t.audio == s.audio && t.config == s.config
        }),
{
    if s.desk.cache.lookup(id) is None {
        agent_api::law_stored_result_is_replayed(
            s.desk.cache,
            s.desk.local_result(action, id, now),
        );
    }
}

/// The camera shows its frames in turn, from the first on, over and over.
pub proof fn law_station_shows_in_turn(s: StationDesk, tick: usize, pts_us: u64)
    requires
        s.frames.len() > 0,
    ensures
        s.frame_at(tick, pts_us).pts_us == pts_us,
        (tick as int) < s.frames.len() ==> s.frame_at(tick, pts_us).data == s.frames[tick as int],
        tick as int >= s.frames.len() ==> s.frame_at(tick, pts_us).data == s.frame_at(
            (tick - s.frames.len()) as usize,
            pts_us,
        ).data,
{
    let n = s.frames.len() as int;
    let t = tick as int;
    if t >= n {
        vstd::arithmetic::div_mod::lemma_mod_sub_multiples_vanish(t, n);
        assert(((t - n) as usize) as int == t - n);
    } else {
        vstd::arithmetic::div_mod::lemma_small_mod(t as nat, n as nat);
    }
}

} // verus!
