//! A door station in software: it rings a Pad with packets of its own, shows it a camera and takes
//! in what comes back. Beside it, the viewer of a door's camera.

use vstd::prelude::*;
use crate::agent;
use crate::agent::{AgentView, StepView};
use crate::agent_api::CallAction;
use crate::bytes;
use crate::desk;
use crate::media;
use crate::net::SocketAddr;
use crate::protocol;
use crate::protocol::{
    Endpoints, EndpointsView, JpegReassembler, Message, MessageView, PendingView, ProtocolError,
    Station, StationView, FAMILY_BOOTSTRAP, FAMILY_MONITOR, FAMILY_PAGE, FAMILY_SESSION,
    MEDIA_AUDIO, OP_ANSWER, OP_HANGUP, OP_KEEPALIVE, OP_REPLY, OP_REQUEST, OP_UNLOCK,
};
use crate::socket_agent;
use crate::socket_agent::SocketView;
use crate::state;
use crate::text;
use crate::time::Instant;

verus! {

/// The door's own identity and the Pad that it calls.
#[derive(Debug)]
pub struct DoorIdentity {
    pub door: Station,
    pub room: Station,
}

impl DoorIdentity {
    /// The endpoint block of the door's packets.
    pub fn endpoints(&self) -> (r: Endpoints)
        ensures
            r@ == (EndpointsView { door: self.door@, room: self.room@ }),
    {
        Endpoints { door: self.door.clone(), room: self.room.clone() }
    }

    /// Fills in the door's own address from the local address of the socket, where it is not set.
    pub fn fill_door_ip(&mut self, local: SocketAddr)
        ensures
            final(self).room@ == old(self).room@,
            final(self).door@ == filled(old(self).door@, local),
    {
        fill_ip(&mut self.door, local);
    }
}

/// A station whose address is taken from a socket where it is not set.
pub open spec fn filled(s: StationView, local: SocketAddr) -> StationView {
    match local {
        SocketAddr::V4 { ip, .. } => if s.ip.unspecified() {
            StationView { ip, ..s }
        } else {
            s
        },
        SocketAddr::V6 { .. } => s,
    }
}

/// Fills in the address of a station from the local address of the socket, where it is not set.
pub fn fill_ip(station: &mut Station, local: SocketAddr)
    ensures
        final(station)@ == filled(old(station)@, local),
{
    if station.ip.is_unspecified() {
        if let SocketAddr::V4 { ip, .. } = local {
            station.ip = ip;
        }
    }
}

/// A fake camera and a fake microphone: JPEG frames and samples in packets of 512 bytes.
#[derive(Debug)]
pub struct MediaSource {
    pub frames: Vec<Vec<u8>>,
    pub audio: Vec<Vec<u8>>,
}

/// Whether a file is taken for a frame, by the extension of its name.
pub fn is_frame_extension(extension: &str) -> (r: bool)
    ensures
        r == (extension@ == "jpg"@ || extension@ == "jpeg"@),
{
    text::same_text(extension, "jpg") || text::same_text(extension, "jpeg")
}

/// Whether the bytes begin like a JPEG file.
pub open spec fn begins_like_jpeg(b: Seq<u8>) -> bool {
    b.len() >= 2 && b[0] == 0xff && b[1] == 0xd8
}

/// The byte strings that begin like a JPEG file, in order.
pub open spec fn jpeg_files(files: Seq<Seq<u8>>) -> Seq<Seq<u8>>
    decreases files.len(),
{
    if files.len() == 0 {
        Seq::empty()
    } else if begins_like_jpeg(files.last()) {
        jpeg_files(files.drop_last()).push(files.last())
    } else {
        jpeg_files(files.drop_last())
    }
}

impl MediaSource {
    /// The camera shows the files that begin like a JPEG file, and the microphone plays the
    /// samples; `None` where there is nothing to show.
    pub fn load(files: &Vec<Vec<u8>>, samples: Option<&[u8]>) -> (r: Option<Self>)
        ensures
            match r {
                Some(source) => {
                    &&& media::blob_views(source.frames@) == jpeg_files(
                        media::blob_views(files@),
                    )
                    &&& source.frames@.len() > 0
                    &&& media::blob_views(source.audio@) == (match samples {
                        Some(pcm) => media::pcm_split(pcm@),
                        None => Seq::empty(),
                    })
                },
                None => jpeg_files(media::blob_views(files@)).len() == 0,
            },
    {
        let ghost all = media::blob_views(files@);
        let mut frames: Vec<Vec<u8>> = Vec::new();
        let mut i: usize = 0;
        assert(all.take(0) =~= Seq::empty());
        assert(media::blob_views(frames@) =~= Seq::empty());
        while i < files.len()
            invariant
                i <= files@.len() == all.len(),
                all == media::blob_views(files@),
                media::blob_views(frames@) == jpeg_files(all.take(i as int)),
            decreases files@.len() - i,
        {
            let ghost before = media::blob_views(frames@);
            proof {
                assert(all.take(i + 1).drop_last() =~= all.take(i as int));
                assert(all.take(i + 1).last() == files@[i as int]@);
            }
            let file = &files[i];
            if file.len() >= 2 && file[0] == 0xff && file[1] == 0xd8 {
                frames.push(bytes::copy_of(file));
                assert(media::blob_views(frames@) =~= before.push(files@[i as int]@));
            }
            i = i + 1;
        }
        assert(all.take(i as int) =~= all);
        assert(media::blob_views(frames@).len() == frames@.len());
        if frames.len() == 0 {
            return None;
        }
        let audio: Vec<Vec<u8>> = match samples {
            Some(pcm) => media::pcm_frames(pcm),
            None => {
                let none: Vec<Vec<u8>> = Vec::new();
                assert(media::blob_views(none@) =~= Seq::empty());
                none
            },
        };
        Some(MediaSource { frames, audio })
    }
}

/// What came back from the Pad. The counters count modulo 2^64.
#[derive(Clone, Copy, Debug, PartialEq, Eq, Structural)]
pub struct DoorObservation {
    pub capability_reply: bool,
    pub answered: bool,
    pub unlocks: u64,
    pub hangups: u64,
    pub audio_packets: u64,
    pub audio_bytes: u64,
}

impl Default for DoorObservation {
    fn default() -> (r: Self)
        ensures
            r == (DoorObservation {
                capability_reply: false,
                answered: false,
                unlocks: 0,
                hangups: 0,
                audio_packets: 0,
                audio_bytes: 0,
            }),
    {
        DoorObservation {
            capability_reply: false,
            answered: false,
            unlocks: 0,
            hangups: 0,
            audio_packets: 0,
            audio_bytes: 0,
        }
    }
}

/// A sum modulo 2^64.
pub open spec fn wrapped_sum(a: u64, n: nat) -> u64 {
    ((a + n) % 0x1_0000_0000_0000_0000) as u64
}

fn wrapping_sum(a: u64, n: usize) -> (r: u64)
    ensures
        r == wrapped_sum(a, n as nat),
{
    ((a as u128 + n as u128) % 0x1_0000_0000_0000_0000) as u64
}

impl DoorObservation {
    /// What has been seen once a packet of the Pad has come.
    pub open spec fn seen(self, m: MessageView) -> DoorObservation {
        if m.family != FAMILY_SESSION {
            self
        } else if m.opcode == OP_REPLY {
            DoorObservation { capability_reply: true, ..self }
        } else if m.opcode == OP_ANSWER {
            DoorObservation { answered: true, ..self }
        } else if m.opcode == OP_UNLOCK {
            DoorObservation { unlocks: state::counted(self.unlocks), ..self }
        } else if m.opcode == OP_HANGUP {
            DoorObservation { hangups: state::counted(self.hangups), ..self }
        } else if voice_of(m) is Some {
            DoorObservation {
                audio_packets: state::counted(self.audio_packets),
                audio_bytes: wrapped_sum(self.audio_bytes, voice_of(m)->0.len()),
                ..self
            }
        } else {
            self
        }
    }

    /// The line that tells of a packet of the Pad: of every control packet, and of the first audio
    /// packet and every hundredth.
    pub open spec fn line(self, m: MessageView) -> Option<Seq<char>> {
        let after = self.seen(m);
        if m.family != FAMILY_SESSION {
            None
        } else if m.opcode == OP_REPLY {
            Some("Pad accepted the ring (00b7/03 capability reply)"@)
        } else if m.opcode == OP_ANSWER {
            Some("Pad answered (00b7/05)"@)
        } else if m.opcode == OP_UNLOCK {
            Some("UNLOCK from Pad (00b7/06) x"@ + text::decimal(after.unlocks as nat))
        } else if m.opcode == OP_HANGUP {
            Some("Pad hung up (00b7/1e)"@)
        } else if voice_of(m) is Some && (after.audio_packets == 1 || after.audio_packets % 100
            == 0) {
            Some(
                "voice from Pad: "@ + text::decimal(after.audio_packets as nat)
                    + " audio packets"@,
            )
        } else {
            None
        }
    }
}

/// The samples that a session packet carries.
pub open spec fn voice_of(m: MessageView) -> Option<Seq<u8>> {
    match m.media() {
        Some(f) => if f.media_type == MEDIA_AUDIO {
            Some(f.data)
        } else {
            None
        },
        None => None,
    }
}

/// What to do with a packet of the Pad: a line for the operator, and samples to play.
#[derive(Debug)]
pub struct Observed {
    pub line: Option<String>,
    pub voice: Option<Vec<u8>>,
    pub hung_up: bool,
}

/// Takes in a packet of the Pad.
pub fn observe_reply(raw: &[u8], obs: &mut DoorObservation) -> (r: Observed)
    ensures
        match protocol::parsed_message(raw@) {
            Err(_) => *final(obs) == *old(obs) && r.line is None && r.voice is None && !r.hung_up,
            Ok(m) => {
                &&& *final(obs) == old(obs).seen(m)
                &&& text::text_view(r.line) == old(obs).line(m)
                &&& agent::blob_view(r.voice) == voice_of(m)
                &&& r.hung_up == (m.family == FAMILY_SESSION && m.opcode == OP_HANGUP)
            },
        },
{
    let mut out = Observed { line: None, voice: None, hung_up: false };
    let msg = match Message::parse(raw) {
        Ok(msg) => msg,
        Err(_) => return out,
    };
    if msg.family != FAMILY_SESSION {
        return out;
    }
    if msg.opcode == OP_REPLY {
        obs.capability_reply = true;
        out.line = Some("Pad accepted the ring (00b7/03 capability reply)".to_owned());
    } else if msg.opcode == OP_ANSWER {
        obs.answered = true;
        out.line = Some("Pad answered (00b7/05)".to_owned());
    } else if msg.opcode == OP_UNLOCK {
        obs.unlocks = state::count(obs.unlocks);
        let mut line = String::new();
        text::push_text(&mut line, "UNLOCK from Pad (00b7/06) x");
        text::push_number(&mut line, obs.unlocks, 10);
        assert(line@ =~= "UNLOCK from Pad (00b7/06) x"@ + text::decimal(obs.unlocks as nat));
        out.line = Some(line);
    } else if msg.opcode == OP_HANGUP {
        obs.hangups = state::count(obs.hangups);
        out.line = Some("Pad hung up (00b7/1e)".to_owned());
        out.hung_up = true;
    } else if let Some(fragment) = msg.media() {
        if fragment.media_type == MEDIA_AUDIO {
            obs.audio_packets = state::count(obs.audio_packets);
            obs.audio_bytes = wrapping_sum(obs.audio_bytes, fragment.data.len());
            out.voice = Some(bytes::copy_of(fragment.data));
            if obs.audio_packets == 1 || obs.audio_packets % 100 == 0 {
                let mut line = String::new();
                text::push_text(&mut line, "voice from Pad: ");
                text::push_number(&mut line, obs.audio_packets, 10);
                text::push_text(&mut line, " audio packets");
                assert(line@ =~= "voice from Pad: "@ + text::decimal(obs.audio_packets as nat)
                    + " audio packets"@);
                out.line = Some(line);
            }
        }
    }
    out
}

/// The microseconds between two frames at this rate; a rate of zero counts as one.
pub fn frame_gap_us(fps: u16) -> (r: u64)
    ensures
        r as int == 1_000_000int / (if fps == 0 {
            1
        } else {
            fps as int
        }),
{
    let rate: u64 = if fps == 0 {
        1
    } else {
        fps as u64
    };
    1_000_000 / rate
}

/// One step of the handshake that rings a Pad: a packet, then a pause.
#[derive(Debug)]
pub struct ScriptStep {
    pub packet: Vec<u8>,
    pub pause_ms: u64,
    /// Whether the call fails where the packet cannot be sent.
    pub required: bool,
}

/// The bytes of a paging packet.
pub open spec fn page_bytes() -> Seq<u8> {
    protocol::request_bytes(FAMILY_PAGE, seq![0x1eu8, 0u8, 0u8, 0u8])
}

/// The bytes of a bootstrap request.
pub open spec fn boot_bytes() -> Seq<u8> {
    protocol::packet_bytes(FAMILY_BOOTSTRAP, OP_REQUEST, 20, Seq::empty())
}

/// The packet of step `i` of the handshake: ten pages, the bootstrap request, then three session
/// requests.
pub open spec fn script_packet(i: int, e: EndpointsView, capabilities: Seq<u8>) -> Seq<u8> {
    if i < 10 {
        page_bytes()
    } else if i == 10 {
        boot_bytes()
    } else {
        protocol::request_bytes(FAMILY_SESSION, e.packed() + capabilities)
    }
}

/// The handshake in the order in which a door does it: a burst of pages, which is what rings the
/// Pad, the bootstrap request, then the session request three times.
pub fn ring_script(endpoints: &Endpoints, capabilities: &[u8]) -> (r: Result<
    Vec<ScriptStep>,
    ProtocolError,
>)
    requires
        capabilities@.len() <= u32::MAX - 80,
    ensures
        match r {
            Ok(steps) => {
                &&& endpoints@.fits()
                &&& steps@.len() == 14
                &&& forall|i: int|
                    0 <= i < 14 ==> {
                        &&& (#[trigger] steps@[i]).packet@ == script_packet(
                            i,
                            endpoints@,
                            capabilities@,
                        )
                        &&& steps@[i].pause_ms == (if i <= 10 {
                            100
                        } else {
                            0int
                        })
                        &&& steps@[i].required == (i > 10)
                    }
            },
            Err(e) => !endpoints@.fits() && e == ProtocolError::StationTooLong,
        },
{
    let mut steps: Vec<ScriptStep> = Vec::new();
    while steps.len() < 10
        invariant
            steps@.len() <= 10,
            forall|i: int|
                0 <= i < steps@.len() ==> (#[trigger] steps@[i]).packet@ == page_bytes()
                    && steps@[i].pause_ms == 100 && !steps@[i].required,
        decreases 10 - steps@.len(),
    {
        steps.push(
            ScriptStep { packet: protocol::page_request(), pause_ms: 100, required: false },
        );
    }
    steps.push(
        ScriptStep { packet: protocol::bootstrap_request(), pause_ms: 100, required: false },
    );
    let ring = match protocol::session_request(endpoints, capabilities) {
        Ok(ring) => ring,
        Err(e) => return Err(e),
    };
    steps.push(ScriptStep { packet: bytes::copy_of(&ring), pause_ms: 0, required: true });
    steps.push(ScriptStep { packet: bytes::copy_of(&ring), pause_ms: 0, required: true });
    steps.push(ScriptStep { packet: ring, pause_ms: 0, required: true });
    Ok(steps)
}

/// A ringing door: its media, and where it is in it.
pub struct Emulator {
    endpoints: Endpoints,
    source: MediaSource,
    frame: usize,
    chunk: usize,
    sequence: u16,
    audio_sequence: u16,
}

/// What a ringing door holds.
pub struct EmulatorView {
    pub endpoints: EndpointsView,
    pub frames: Seq<Seq<u8>>,
    pub audio: Seq<Seq<u8>>,
    pub frame: usize,
    pub chunk: usize,
    pub sequence: u16,
    pub audio_sequence: u16,
}

impl View for Emulator {
    type V = EmulatorView;

    closed spec fn view(&self) -> EmulatorView {
        EmulatorView {
            endpoints: self.endpoints@,
            frames: media::blob_views(self.source.frames@),
            audio: media::blob_views(self.source.audio@),
            frame: self.frame,
            chunk: self.chunk,
            sequence: self.sequence,
            audio_sequence: self.audio_sequence,
        }
    }
}

/// A sequence number of 16 bits behind `n`, modulo 2^16.
pub open spec fn next16(n: u16) -> u16 {
    if n == u16::MAX {
        0
    } else {
        (n + 1) as u16
    }
}

fn count16(n: u16) -> (r: u16)
    ensures
        r == next16(n),
{
    if n == u16::MAX {
        0
    } else {
        n + 1
    }
}

/// The place behind place `i` in a loop over `n` pieces.
pub open spec fn next_place(i: usize, n: nat) -> usize {
    if i + 1 >= n {
        0
    } else {
        (i + 1) as usize
    }
}

impl EmulatorView {
    /// Whether the places are in range.
    pub open spec fn in_range(self) -> bool {
        &&& self.frame < self.frames.len()
        &&& self.audio.len() > 0 ==> self.chunk < self.audio.len()
    }

    /// The samples that are sent next: those of the microphone in turn, or silence.
    pub open spec fn next_samples(self) -> Seq<u8> {
        if self.audio.len() == 0 {
            bytes::zeros(512)
        } else {
            self.audio[self.chunk as int]
        }
    }

    /// The door once it has shown its frame.
    pub open spec fn shown(self) -> EmulatorView {
        EmulatorView {
            frame: next_place(self.frame, self.frames.len()),
            sequence: next16(self.sequence),
            ..self
        }
    }

    /// The door once it has played its samples.
    pub open spec fn played(self) -> EmulatorView {
        EmulatorView {
            chunk: if self.audio.len() == 0 {
                self.chunk
            } else {
                next_place(self.chunk, self.audio.len())
            },
            audio_sequence: next16(self.audio_sequence),
            ..self
        }
    }
}

impl Emulator {
    /// Whether the places in the media are in range.
    pub open spec fn wf(&self) -> bool {
        self@.in_range()
    }

    /// A door that is about to ring; video is numbered from one, audio from zero.
    pub fn new(endpoints: Endpoints, source: MediaSource) -> (r: Self)
        requires
            source.frames@.len() > 0,
        ensures
            r.wf(),
            r@ == (EmulatorView {
                endpoints: endpoints@,
                frames: media::blob_views(source.frames@),
                audio: media::blob_views(source.audio@),
                frame: 0,
                chunk: 0,
                sequence: 1,
                audio_sequence: 0,
            }),
    {
        Emulator { endpoints, source, frame: 0, chunk: 0, sequence: 1, audio_sequence: 0 }
    }

    /// The packets of the next frame. A frame that takes more packets than can be numbered is
    /// skipped, as is any frame where an id does not fit.
    pub fn next_frame(&mut self) -> (r: Vec<Vec<u8>>)
        requires
            old(self).wf(),
        ensures
            final(self).wf(),
            final(self)@ == old(self)@.shown(),
            ({
                let frame = old(self)@.frames[old(self)@.frame as int];
                if old(self)@.endpoints.fits() && frame.len() <= 65535 * 1200 {
                    &&& r@.len() == protocol::slot_count(frame.len())
                    &&& forall|i: int|
                        0 <= i < r@.len() ==> (#[trigger] r@[i])@ == protocol::jpeg_bytes(
                            old(self)@.sequence,
                            frame,
                            i + 1,
                            old(self)@.endpoints,
                        )
                } else {
                    r@.len() == 0
                }
            }),
    {
        let ghost before = self@;
        let none: Vec<Vec<u8>> = Vec::new();
        assert(before.frames[before.frame as int] == self.source.frames@[self.frame as int]@);
        let frame: &Vec<u8> = &self.source.frames[self.frame];
        let packets: Vec<Vec<u8>> = if frame.len() > 65535 * 1200 {
            none
        } else {
            match protocol::jpeg_packets(self.sequence, frame, &self.endpoints) {
                Ok(packets) => packets,
                Err(_) => none,
            }
        };
        let total: usize = self.source.frames.len();
        assert(self.frame < total);
        self.frame = if self.frame + 1 >= total {
            0
        } else {
            self.frame + 1
        };
        self.sequence = count16(self.sequence);
        packets
    }

    /// The packet of the next samples. Until the Pad has answered nothing is sent: audio during
    /// the ring would put the Pad straight into the call.
    pub fn next_audio(&mut self, answered: bool) -> (r: Option<Vec<u8>>)
        requires
            old(self).wf(),
        ensures
            final(self).wf(),
            final(self)@ == (if answered {
                old(self)@.played()
            } else {
                old(self)@
            }),
            agent::blob_view(r) == (if answered && old(self)@.next_samples().len() == 512 && old(
                self,
            )@.endpoints.fits() {
                Some(
                    protocol::audio_bytes(
                        old(self)@.audio_sequence,
                        old(self)@.next_samples(),
                        old(self)@.endpoints,
                    ),
                )
            } else {
                None
            }),
    {
        if !answered {
            return None;
        }
        let ghost before = self@;
        let pcm: Vec<u8> = if self.source.audio.len() == 0 {
            let mut silence: Vec<u8> = Vec::new();
            bytes::append_zeros(&mut silence, 512);
            assert(silence@ =~= bytes::zeros(512));
            silence
        } else {
            assert(before.audio[before.chunk as int] == self.source.audio@[self.chunk as int]@);
            let chunk = bytes::copy_of(&self.source.audio[self.chunk]);
            self.chunk = if self.chunk + 1 >= self.source.audio.len() {
                0
            } else {
                self.chunk + 1
            };
            chunk
        };
        let sequence: u16 = self.audio_sequence;
        self.audio_sequence = count16(sequence);
        match protocol::audio_packet(sequence, &pcm, &self.endpoints) {
            Ok(packet) => Some(packet),
            Err(_) => None,
        }
    }

    /// A packet that holds nothing but the endpoints: the keepalive, or the hangup at the end.
    pub fn control(&self, opcode: u32) -> (r: Option<Vec<u8>>)
        ensures
            agent::blob_view(r) == (if self@.endpoints.fits() {
                Some(protocol::control_bytes(opcode, self@.endpoints))
            } else {
                None
            }),
    {
        match protocol::session_control(opcode, &self.endpoints) {
            Ok(packet) => Some(packet),
            Err(_) => None,
        }
    }
}

/// What came from a door's camera. The counters count modulo 2^64.
#[derive(Clone, Copy, Debug, PartialEq, Eq, Structural)]
pub struct MonitorObservation {
    pub capability_reply: bool,
    pub jpeg_frames: u64,
    pub audio_packets: u64,
    pub audio_bytes: u64,
    pub hangups: u64,
}

impl Default for MonitorObservation {
    fn default() -> (r: Self)
        ensures
            r == (MonitorObservation {
                capability_reply: false,
                jpeg_frames: 0,
                audio_packets: 0,
                audio_bytes: 0,
                hangups: 0,
            }),
    {
        MonitorObservation {
            capability_reply: false,
            jpeg_frames: 0,
            audio_packets: 0,
            audio_bytes: 0,
            hangups: 0,
        }
    }
}

/// The viewer of a door's camera.
pub struct Monitor {
    block: Vec<u8>,
    jpeg: JpegReassembler,
    seen: MonitorObservation,
    stopped: bool,
    deadline: Option<Instant>,
}

/// What the viewer of a camera holds: the endpoint block of its packets, the frames that are
/// incomplete, what has been seen, whether the door has hung up, and when the viewer leaves at
/// the latest.
pub struct MonitorView {
    pub block: Seq<u8>,
    pub jpeg: Seq<PendingView>,
    pub seen: MonitorObservation,
    pub stopped: bool,
    pub deadline: Option<Instant>,
}

impl View for Monitor {
    type V = MonitorView;

    closed spec fn view(&self) -> MonitorView {
        MonitorView {
            block: self.block@,
            jpeg: self.jpeg@,
            seen: self.seen,
            stopped: self.stopped,
            deadline: self.deadline,
        }
    }
}

/// What to do with a packet of the camera: samples to play, a frame to show under its number, or
/// to stop.
#[derive(Debug)]
pub struct Viewed {
    pub voice: Option<Vec<u8>>,
    pub frame: Option<(u64, Vec<u8>)>,
    pub stop: bool,
}

/// What to do with a packet of the camera.
pub struct ViewedView {
    pub voice: Option<Seq<u8>>,
    pub frame: Option<(u64, Seq<u8>)>,
    pub stop: bool,
}

impl View for Viewed {
    type V = ViewedView;

    open spec fn view(&self) -> ViewedView {
        ViewedView {
            voice: agent::blob_view(self.voice),
            frame: match self.frame {
                Some((n, frame)) => Some((n, frame@)),
                None => None,
            },
            stop: self.stop,
        }
    }
}

/// What to do with each of several packets.
pub open spec fn viewed_views(s: Seq<Viewed>) -> Seq<ViewedView> {
    s.map_values(|v: Viewed| v@)
}

/// A viewer and what is to be done.
pub struct MonitorResult {
    pub monitor: MonitorView,
    pub viewed: ViewedView,
}

impl MonitorView {
    /// Nothing changes and nothing is to be done.
    pub open spec fn unmoved(self) -> MonitorResult {
        MonitorResult {
            monitor: self,
            viewed: ViewedView { voice: None, frame: None, stop: false },
        }
    }

    /// A packet of the camera comes in.
    pub open spec fn received(self, raw: Seq<u8>) -> MonitorResult {
        let quiet = ViewedView { voice: None, frame: None, stop: false };
        match protocol::parsed_message(raw) {
            Err(_) => self.unmoved(),
            Ok(m) => if m.family != FAMILY_MONITOR {
                self.unmoved()
            } else if m.opcode == OP_REPLY {
                MonitorResult {
                    monitor: MonitorView {
                        seen: MonitorObservation { capability_reply: true, ..self.seen },
                        ..self
                    },
                    viewed: quiet,
                }
            } else if m.opcode == OP_HANGUP {
                MonitorResult {
                    monitor: MonitorView {
                        seen: MonitorObservation {
                            hangups: state::counted(self.seen.hangups),
                            ..self.seen
                        },
                        stopped: true,
                        ..self
                    },
                    viewed: ViewedView { stop: true, ..quiet },
                }
            } else {
                match m.media_of(FAMILY_MONITOR) {
                    None => self.unmoved(),
                    Some(f) => if f.media_type == MEDIA_AUDIO {
                        MonitorResult {
                            monitor: MonitorView {
                                seen: MonitorObservation {
                                    audio_packets: state::counted(self.seen.audio_packets),
                                    audio_bytes: wrapped_sum(self.seen.audio_bytes, f.data.len()),
                                    ..self.seen
                                },
                                ..self
                            },
                            viewed: ViewedView { voice: Some(f.data), ..quiet },
                        }
                    } else {
                        let jpeg = protocol::frames_after(self.jpeg, f);
                        match protocol::frame_from(self.jpeg, f) {
                            None => MonitorView { jpeg, ..self }.unmoved(),
                            Some(frame) => MonitorResult {
                                monitor: MonitorView {
                                    jpeg,
                                    seen: MonitorObservation {
                                        jpeg_frames: state::counted(self.seen.jpeg_frames),
                                        ..self.seen
                                    },
                                    ..self
                                },
                                viewed: ViewedView {
                                    frame: Some((state::counted(self.seen.jpeg_frames), frame)),
                                    ..quiet
                                },
                            },
                        }
                    },
                }
            },
        }
    }

    /// The packets of a datagram come in, one after the other.
    pub open spec fn fed(self, pieces: Seq<Seq<u8>>) -> (MonitorView, Seq<ViewedView>)
        decreases pieces.len(),
    {
        if pieces.len() == 0 {
            (self, Seq::empty())
        } else {
            let before = self.fed(pieces.drop_last());
            let r = before.0.received(pieces.last());
            (r.monitor, before.1.push(r.viewed))
        }
    }

    /// Whether the viewer is done at this time: the door has hung up, or the deadline is there.
    pub open spec fn over(self, now: Instant) -> bool {
        self.stopped || match self.deadline {
            Some(deadline) => now.nanos >= deadline.nanos,
            None => false,
        }
    }
}

impl Monitor {
    /// Whether the incomplete frames are in order.
    pub closed spec fn wf(&self) -> bool {
        self.jpeg.wf()
    }

    /// A viewer of the camera of `target`, without a deadline.
    pub fn new(us: &Station, target: &Station) -> (r: Result<Self, ProtocolError>)
        ensures
            match r {
                Ok(m) => {
                    &&& us@.fits() && target@.fits()
                    &&& m.wf()
                    &&& m@.block == us@.packed() + target@.packed()
                    &&& m@.jpeg == Seq::<PendingView>::empty()
                    &&& m@.seen == (MonitorObservation {
                        capability_reply: false,
                        jpeg_frames: 0,
                        audio_packets: 0,
                        audio_bytes: 0,
                        hangups: 0,
                    })
                    &&& !m@.stopped
                    &&& m@.deadline is None
                },
                Err(e) => !(us@.fits() && target@.fits()) && e == ProtocolError::StationTooLong,
            },
    {
        let first: [u8; 24] = match us.pack() {
            Ok(raw) => raw,
            Err(e) => return Err(e),
        };
        let second: [u8; 24] = match target.pack() {
            Ok(raw) => raw,
            Err(e) => return Err(e),
        };
        let mut block: Vec<u8> = bytes::copy_of(&first);
        bytes::append_slice(&mut block, &second);
        Ok(
            Monitor {
                block,
                jpeg: JpegReassembler::new(),
                seen: MonitorObservation::default(),
                stopped: false,
                deadline: None,
            },
        )
    }

    /// Sets when the viewer leaves at the latest.
    pub fn end_at(&mut self, deadline: Option<Instant>)
        requires
            old(self).wf(),
        ensures
            final(self).wf(),
            final(self)@ == (MonitorView { deadline, ..old(self)@ }),
    {
        self.deadline = deadline;
    }

    /// Whether the viewer is done at this time.
    pub fn is_over(&self, now: Instant) -> (r: bool)
        ensures
            r == self@.over(now),
    {
        if self.stopped {
            return true;
        }
        match self.deadline {
            Some(deadline) => now.nanos >= deadline.nanos,
            None => false,
        }
    }

    /// What has been seen.
    pub fn observation(&self) -> (r: MonitorObservation)
        ensures
            r == self@.seen,
    {
        self.seen
    }

    /// Takes in a packet of the camera.
    pub fn on_packet(&mut self, raw: &[u8]) -> (r: Viewed)
        requires
            old(self).wf(),
        ensures
            final(self).wf(),
            final(self)@ == old(self)@.received(raw@).monitor,
            r@ == old(self)@.received(raw@).viewed,
    {
        let mut out = Viewed { voice: None, frame: None, stop: false };
        let msg = match Message::parse(raw) {
            Ok(msg) => msg,
            Err(_) => return out,
        };
        if msg.family != FAMILY_MONITOR {
            return out;
        }
        if msg.opcode == OP_REPLY {
            self.seen.capability_reply = true;
        } else if msg.opcode == OP_HANGUP {
            self.seen.hangups = state::count(self.seen.hangups);
            self.stopped = true;
            out.stop = true;
        } else if let Some(fragment) = msg.media_of(FAMILY_MONITOR) {
            if fragment.media_type == MEDIA_AUDIO {
                self.seen.audio_packets = state::count(self.seen.audio_packets);
                self.seen.audio_bytes = wrapping_sum(self.seen.audio_bytes, fragment.data.len());
                out.voice = Some(bytes::copy_of(fragment.data));
            } else if let Some(frame) = self.jpeg.push(&fragment) {
                self.seen.jpeg_frames = state::count(self.seen.jpeg_frames);
                out.frame = Some((self.seen.jpeg_frames, frame));
            }
        }
        out
    }

    /// Takes in a datagram of the camera; what to do with each of its packets.
    pub fn on_datagram(&mut self, payload: &[u8]) -> (r: Vec<Viewed>)
        requires
            old(self).wf(),
        ensures
            final(self).wf(),
            final(self)@ == old(self)@.fed(protocol::pieces(payload@)).0,
            viewed_views(r@) == old(self)@.fed(protocol::pieces(payload@)).1,
    {
        let ghost start = self@;
        let ghost all = protocol::pieces(payload@);
        let pieces = protocol::split_coalesced(payload);
        let mut out: Vec<Viewed> = Vec::new();
        let mut i: usize = 0;
        proof {
            assert(protocol::slices(pieces@).len() == pieces@.len());
            assert(all.take(0) =~= Seq::empty());
            assert(viewed_views(out@) =~= Seq::empty());
        }
        while i < pieces.len()
            invariant
                i <= pieces@.len() == all.len(),
                protocol::slices(pieces@) == all,
                self.wf(),
                self@ == start.fed(all.take(i as int)).0,
                viewed_views(out@) == start.fed(all.take(i as int)).1,
            decreases pieces@.len() - i,
        {
            let ghost before = viewed_views(out@);
            proof {
                assert(protocol::slices(pieces@)[i as int] == pieces@[i as int]@);
                assert(all.take(i + 1).drop_last() =~= all.take(i as int));
                assert(all.take(i + 1).last() == pieces@[i as int]@);
            }
            let viewed = self.on_packet(pieces[i]);
            let ghost view = viewed@;
            out.push(viewed);
            assert(viewed_views(out@) =~= before.push(view));
            i = i + 1;
        }
        assert(all.take(i as int) =~= all);
        out
    }

    /// The keepalive of a viewer.
    pub fn keepalive(&self) -> (r: Vec<u8>)
        ensures
            r@ == protocol::packet_bytes(FAMILY_MONITOR, OP_KEEPALIVE, 80, self@.block),
    {
        protocol::packet(FAMILY_MONITOR, OP_KEEPALIVE, 80, &self.block)
    }

    /// The hangup of a viewer.
    pub fn hangup(&self) -> (r: Vec<u8>)
        ensures
            r@ == protocol::packet_bytes(FAMILY_MONITOR, OP_HANGUP, 80, self@.block),
    {
        protocol::packet(FAMILY_MONITOR, OP_HANGUP, 80, &self.block)
    }
}

/// A number in decimal notation, filled with zeros to four digits.
pub open spec fn four_digits(n: nat) -> Seq<char> {
    if n < 10 {
        "000"@ + text::decimal(n)
    } else if n < 100 {
        "00"@ + text::decimal(n)
    } else if n < 1000 {
        "0"@ + text::decimal(n)
    } else {
        text::decimal(n)
    }
}

/// The name of the file for frame number `n`.
pub fn frame_name(n: u64) -> (r: String)
    ensures
        r@ == "frame-"@ + four_digits(n as nat) + ".jpg"@,
{
    let mut out = String::new();
    text::push_text(&mut out, "frame-");
    if n < 10 {
        text::push_text(&mut out, "000");
    } else if n < 100 {
        text::push_text(&mut out, "00");
    } else if n < 1000 {
        text::push_text(&mut out, "0");
    }
    text::push_number(&mut out, n, 10);
    assert(out@ =~= "frame-"@ + four_digits(n as nat));
    text::push_text(&mut out, ".jpg");
    out
}

/// An emulated door rings a software Pad that is idle: the Pad accepts the session and reports the
/// call under the ids of the door and the room, and the door sees that it was accepted.
pub proof fn law_emulated_door_rings_pad(
    pad: SocketView,
    e: EndpointsView,
    capabilities: Seq<u8>,
    from: SocketAddr,
    now_ms: u64,
    pts_us: u64,
    seen: DoorObservation,
)
    requires
        e.fits(),
        e.door.nul_free(),
        e.room.nul_free(),
        !pad.desk.active(),
    ensures
        ({
            let r = pad.received(
                protocol::request_bytes(FAMILY_SESSION, e.packed() + capabilities),
                from,
                now_ms,
                pts_us,
            );
            &&& r.agent.desk.active()
            &&& r.agent.peer == Some(from)
            &&& r.outcome.event == Some(
                pad.desk.next_event(
                    now_ms,
                    desk::started_kind(
                        socket_agent::next_session(pad.desk.machine.state.session_id),
                        e.door.id,
                        e.room.id,
                    ),
                ),
            )
            &&& r.outcome.reply == Some(protocol::reply_bytes(e))
            &&& protocol::parsed_message(protocol::reply_bytes(e)) is Ok
            &&& seen.seen(
                protocol::parsed_message(protocol::reply_bytes(e))->Ok_0,
            ).capability_reply
        }),
{
    protocol::law_session_request_round_trip(e, capabilities);
    protocol::law_reply_round_trip(e);
}

/// A Pad that answers, opens the door or hangs up is seen to do so by the emulated door.
pub proof fn law_emulated_door_sees_pad(e: EndpointsView, seen: DoorObservation)
    requires
        e.fits(),
        e.door.nul_free(),
        e.room.nul_free(),
    ensures
        ({
            let answer = protocol::parsed_message(protocol::control_bytes(OP_ANSWER, e));
            let unlock = protocol::parsed_message(protocol::control_bytes(OP_UNLOCK, e));
            let hangup = protocol::parsed_message(protocol::control_bytes(OP_HANGUP, e));
            &&& answer is Ok && seen.seen(answer->Ok_0).answered
            &&& unlock is Ok && seen.seen(unlock->Ok_0).unlocks == state::counted(seen.unlocks)
            &&& hangup is Ok && seen.seen(hangup->Ok_0).hangups == state::counted(seen.hangups)
        }),
{
    protocol::law_control_round_trip(OP_ANSWER, e);
    protocol::law_control_round_trip(OP_UNLOCK, e);
    protocol::law_control_round_trip(OP_HANGUP, e);
}

/// A door that has played its samples this many times.
pub open spec fn played_times(v: EmulatorView, k: nat) -> EmulatorView
    decreases k,
{
    if k == 0 {
        v
    } else {
        played_times(v, (k - 1) as nat).played()
    }
}

/// A door that has shown its frame this many times.
pub open spec fn shown_times(v: EmulatorView, k: nat) -> EmulatorView
    decreases k,
{
    if k == 0 {
        v
    } else {
        shown_times(v, (k - 1) as nat).shown()
    }
}

/// The microphone plays its pieces in turn: from a new door on, packet number `k` carries piece
/// `k` modulo their number, under sequence number `k`; without any piece it carries silence. Every
/// piece is played once before any is repeated. The camera is not affected.
pub proof fn law_sound_plays_in_turn(v: EmulatorView, k: nat)
    requires
        v.chunk == 0,
        v.audio_sequence == 0,
        v.audio.len() <= usize::MAX,
    ensures
        ({
            let d = played_times(v, k);
            &&& v.audio.len() > 0 ==> d.next_samples() == v.audio[k as int % v.audio.len() as int]
            &&& v.audio.len() == 0 ==> d.next_samples() == Seq::new(512, |i: int| 0u8)
            &&& d.audio_sequence as int == k as int % 0x1_0000
            &&& v.audio.len() > 0 ==> d.chunk as int == k as int % v.audio.len() as int
            &&& v.audio.len() == 0 ==> d.chunk == 0
            &&& d.audio == v.audio && d.frames == v.frames && d.endpoints == v.endpoints
            &&& d.frame == v.frame && d.sequence == v.sequence
        }),
    decreases k,
{
    if k > 0 {
        law_sound_plays_in_turn(v, (k - 1) as nat);
        if v.audio.len() > 0 {
            lemma_in_turn((k - 1) as nat, v.audio.len());
        }
    } else if v.audio.len() > 0 {
        assert(0int % v.audio.len() as int == 0) by (nonlinear_arith)
            requires
                v.audio.len() > 0,
        ;
    }
}

/// The camera shows its frames in turn: from a new door on, frame number `k` is frame `k` modulo
/// their number, under sequence number `k + 1`. The microphone is not affected.
pub proof fn law_camera_shows_in_turn(v: EmulatorView, k: nat)
    requires
        v.frame == 0,
        v.sequence == 1,
        0 < v.frames.len() <= usize::MAX,
    ensures
        ({
            let d = shown_times(v, k);
            &&& d.frame as int == k as int % v.frames.len() as int
            &&& d.sequence as int == (k as int + 1) % 0x1_0000
            &&& d.audio == v.audio && d.frames == v.frames && d.endpoints == v.endpoints
            &&& d.chunk == v.chunk && d.audio_sequence == v.audio_sequence
        }),
    decreases k,
{
    if k > 0 {
        law_camera_shows_in_turn(v, (k - 1) as nat);
        lemma_in_turn((k - 1) as nat, v.frames.len());
    } else {
        assert(0int % v.frames.len() as int == 0) by (nonlinear_arith)
            requires
                v.frames.len() > 0,
        ;
    }
}

/// The place behind place `k` in a loop over `n` pieces.
proof fn lemma_in_turn(k: nat, n: nat)
    requires
        n > 0,
    ensures
        0 <= (k as int % n as int) && (k as int % n as int) < n,
        (k + 1) as int % n as int == (if k as int % n as int + 1 == n {
            0
        } else {
            k as int % n as int + 1
        }),
{
    let q = k as int / n as int;
    let r = k as int % n as int;
    vstd::arithmetic::div_mod::lemma_fundamental_div_mod(k as int, n as int);
    vstd::arithmetic::div_mod::lemma_mod_bound(k as int, n as int);
    if r + 1 == n {
        assert((k + 1) as int == n * (q + 1) + 0) by (nonlinear_arith)
            requires
                k as int == n * q + r,
                r + 1 == n,
        ;
        vstd::arithmetic::div_mod::lemma_fundamental_div_mod_converse(
            (k + 1) as int,
            n as int,
            q + 1,
            0,
        );
    } else {
        vstd::arithmetic::div_mod::lemma_fundamental_div_mod_converse(
            (k + 1) as int,
            n as int,
            q,
            r + 1,
        );
    }
}

/// What a door makes of what the Pad sends: the capability reply, the answer, each opening, each
/// hangup, and each packet of voice with its bytes; anything else it does not count.
pub proof fn law_door_counts_what_the_pad_sends(seen: DoorObservation, m: MessageView)
    ensures
        ({
            let after = seen.seen(m);
            let session = m.family == 0x00b7;
            let voice = session && m.media() is Some && m.media()->0.media_type == 3;
            &&& after.capability_reply == (seen.capability_reply || (session && m.opcode == 0x03))
            &&& after.answered == (seen.answered || (session && m.opcode == 0x05))
            &&& after.unlocks as int == (seen.unlocks + (if session && m.opcode == 0x06 {
                1int
            } else {
                0
            })) % 0x1_0000_0000_0000_0000
            &&& after.hangups as int == (seen.hangups + (if session && m.opcode == 0x1e {
                1int
            } else {
                0
            })) % 0x1_0000_0000_0000_0000
            &&& after.audio_packets as int == (seen.audio_packets + (if voice {
                1int
            } else {
                0
            })) % 0x1_0000_0000_0000_0000
            &&& after.audio_bytes as int == (seen.audio_bytes + (if voice {
                m.media()->0.data.len() as int
            } else {
                0
            })) % 0x1_0000_0000_0000_0000
            &&& voice ==> voice_of(m) == Some(m.media()->0.data)
            &&& session && !voice ==> voice_of(m) is None
        }),
{
}

/// What an operator is told of a packet of the Pad: of the reply, the answer, each opening with its
/// number, and the hangup; of voice at the first packet and at every hundredth.
pub proof fn law_operator_is_told(seen: DoorObservation, m: MessageView)
    ensures
        m.family != 0x00b7 ==> seen.line(m) is None,
        m.family == 0x00b7 && m.opcode == 0x03 ==> seen.line(m) == Some(
            "Pad accepted the ring (00b7/03 capability reply)"@,
        ),
        m.family == 0x00b7 && m.opcode == 0x05 ==> seen.line(m) == Some("Pad answered (00b7/05)"@),
        m.family == 0x00b7 && m.opcode == 0x06 && seen.unlocks < u64::MAX ==> seen.line(m) == Some(
            "UNLOCK from Pad (00b7/06) x"@ + text::decimal((seen.unlocks + 1) as nat),
        ),
        m.family == 0x00b7 && m.opcode == 0x1e ==> seen.line(m) == Some("Pad hung up (00b7/1e)"@),
        m.family == 0x00b7 && m.opcode == 0x0a && seen.audio_packets < u64::MAX ==> (seen.line(m)
            is Some <==> m.media() is Some && m.media()->0.media_type == 3 && (seen.audio_packets
            == 0 || (seen.audio_packets + 1) % 100 == 0)),
        m.family == 0x00b7 && m.opcode == 0x0a && seen.audio_packets < u64::MAX && seen.line(m)
            is Some ==> seen.line(m)->0 == "voice from Pad: "@ + text::decimal(
            (seen.audio_packets + 1) as nat,
        ) + " audio packets"@,
{
}

/// What the steps of the handshake say: ten pages, the bootstrap request, then session requests
/// between the stations with the capabilities.
pub proof fn law_handshake_rings_the_pad(i: int, e: EndpointsView, capabilities: Seq<u8>)
    requires
        0 <= i < 14,
        e.fits(),
        e.door.nul_free(),
        e.room.nul_free(),
    ensures
        ({
            let m = protocol::parsed_message(script_packet(i, e, capabilities));
            &&& m is Ok
            &&& m->Ok_0.opcode == 0x01
            &&& i < 10 ==> m->Ok_0.family == 0x005d && m->Ok_0.body == seq![0x1eu8, 0u8, 0u8, 0u8]
                && m->Ok_0.declared == 36
            &&& i == 10 ==> m->Ok_0.family == 0x0098 && m->Ok_0.body.len() == 0
                && m->Ok_0.declared == 20
            &&& i > 10 ==> m->Ok_0.family == 0x00b7 && m->Ok_0.endpoints() == Some(e)
                && m->Ok_0.body == e.packed() + capabilities
        }),
{
    protocol::law_packet_round_trip(0x005d, 1, 36, seq![0x1eu8, 0u8, 0u8, 0u8]);
    protocol::law_packet_round_trip(0x0098, 1, 20, Seq::empty());
    let body = e.packed() + capabilities;
    protocol::law_packet_round_trip(0x00b7, 1, (32 + body.len()) as u32, body);
    protocol::law_session_request_round_trip(e, capabilities);
}

/// What an Agent sends for a command is what the door counts: a claim as an answer, an unlock as
/// one more opening, a hangup as one more hangup.
pub proof fn law_commands_reach_the_door(
    a: AgentView,
    pad: SocketView,
    action: CallAction,
    id: Seq<char>,
    now: Instant,
    seen: DoorObservation,
)
    ensures
        forall|step: StepView|
            #![trigger step->packet]
            (step == a.command_step(action, id, now) || step == pad.command_step(action, id, now))
                && step is Send ==> {
                let m = protocol::parsed_message(step->packet);
                let after = seen.seen(m->Ok_0);
                &&& m is Ok
                &&& action == CallAction::Claim ==> after.answered
                &&& action == CallAction::Unlock ==> after.unlocks as int == (seen.unlocks + 1)
                    % 0x1_0000_0000_0000_0000 && after.answered == seen.answered
                &&& action == CallAction::Hangup ==> after.hangups as int == (seen.hangups + 1)
                    % 0x1_0000_0000_0000_0000 && after.answered == seen.answered
            },
{
    if let Some(e) = a.peers.endpoints() {
        desk::law_prepared_packets_tell_the_door(a.desk, action, e, now, 0);
    }
    if let Some(e) = pad.endpoints {
        desk::law_prepared_packets_tell_the_door(pad.desk, action, e, now, 0);
    }
}

/// What a viewer makes of a camera's packets: the reply is noted, a hangup stops it for good, sound
/// is handed on and counted, and packets of another family change nothing.
pub proof fn law_viewer_follows_the_camera(v: MonitorView, raw: Seq<u8>)
    ensures
        ({
            let r = v.received(raw);
            let parsed = protocol::parsed_message(raw);
            let m = parsed->Ok_0;
            let ours = parsed is Ok && m.family == 0x00b8;
            let media = m.media_of(0x00b8);
            let sound = ours && m.opcode == 0x0a && media is Some && media->0.media_type == 3;
            &&& !ours ==> r.monitor == v && r.viewed == (ViewedView {
                voice: None,
                frame: None,
                stop: false,
            })
            &&& r.viewed.stop <==> ours && m.opcode == 0x1e
            &&& r.monitor.stopped == (v.stopped || (ours && m.opcode == 0x1e))
            &&& r.monitor.seen.hangups as int == (v.seen.hangups + (if ours && m.opcode == 0x1e {
                1int
            } else {
                0
            })) % 0x1_0000_0000_0000_0000
            &&& r.monitor.seen.capability_reply == (v.seen.capability_reply || (ours && m.opcode
                == 0x03))
            &&& sound ==> r.viewed.voice == Some(media->0.data) && r.monitor.seen.audio_bytes as int
                == (v.seen.audio_bytes + media->0.data.len()) % 0x1_0000_0000_0000_0000
                && r.monitor.seen.audio_packets as int == (v.seen.audio_packets + 1)
                % 0x1_0000_0000_0000_0000 && r.monitor.jpeg == v.jpeg
            &&& !sound ==> r.viewed.voice is None && r.monitor.seen.audio_packets
                == v.seen.audio_packets && r.monitor.seen.audio_bytes == v.seen.audio_bytes
            &&& r.viewed.frame matches Some((n, frame)) ==> {
                &&& ours && m.opcode == 0x0a
                &&& n as int == (v.seen.jpeg_frames + 1) % 0x1_0000_0000_0000_0000
                &&& r.monitor.seen.jpeg_frames == n
                &&& protocol::is_jpeg(frame)
            }
            &&& r.viewed.frame is None ==> r.monitor.seen.jpeg_frames == v.seen.jpeg_frames
            &&& ours && m.opcode == 0x0a && media is Some && media->0.media_type == 1 ==> {
                &&& r.monitor.jpeg == protocol::frames_after(v.jpeg, media->0)
                &&& (match r.viewed.frame {
                    Some((n, frame)) => Some(frame),
                    None => None,
                }) == protocol::frame_from(v.jpeg, media->0)
            }
            &&& r.monitor.block == v.block && r.monitor.deadline == v.deadline
        }),
{
}

/// A viewer is done exactly once the door has hung up or its deadline is there.
pub proof fn law_viewer_leaves_in_time(v: MonitorView, now: Instant)
    ensures
        v.over(now) <==> v.stopped || (v.deadline is Some && now.nanos >= v.deadline->0.nanos),
{
}

/// The files that are shown are those that begin with the two bytes of a JPEG file, in their
/// order: what is shown of two lists of files is shown of one and then of the other.
pub proof fn law_jpeg_files_are_shown(a: Seq<Seq<u8>>, b: Seq<Seq<u8>>, file: Seq<u8>)
    ensures
        jpeg_files(a + b) == jpeg_files(a) + jpeg_files(b),
        file.len() >= 2 && file[0] == 0xff && file[1] == 0xd8 ==> jpeg_files(seq![file])
            == seq![file],
        !(file.len() >= 2 && file[0] == 0xff && file[1] == 0xd8) ==> jpeg_files(seq![file])
            == Seq::<Seq<u8>>::empty(),
    decreases b.len(),
{
    if b.len() > 0 {
        law_jpeg_files_are_shown(a, b.drop_last(), file);
        assert((a + b).drop_last() =~= a + b.drop_last());
        assert((a + b).last() == b.last());
        assert(jpeg_files(a + b) =~= jpeg_files(a) + jpeg_files(b));
    } else {
        assert(a + b =~= a);
        assert(jpeg_files(a) + jpeg_files(b) =~= jpeg_files(a));
    }
    reveal_with_fuel(jpeg_files, 2);
    assert(seq![file].drop_last() =~= Seq::empty());
    assert(Seq::<Seq<u8>>::empty().push(file) =~= seq![file]);
}

/// A station keeps the address that it has; one without takes that of the socket, where this is an
/// IPv4 address.
pub proof fn law_own_address_is_filled_in(s: StationView, local: SocketAddr)
    ensures
        filled(s, local).id == s.id,
        !s.ip.unspecified() ==> filled(s, local) == s,
        s.ip.unspecified() ==> filled(s, local).ip == (match local {
            SocketAddr::V4 { ip, .. } => ip,
            SocketAddr::V6 { .. } => s.ip,
        }),
{
}

/// A file number has at least four digits and is the number itself behind its zeros.
pub proof fn law_frame_numbers_are_padded(n: nat)
    ensures
        four_digits(n).len() >= 4,
        text::digits_value(four_digits(n), 10) == Some(n),
        n >= 1000 ==> four_digits(n) == text::decimal(n),
{
    reveal_strlit("000");
    reveal_strlit("00");
    reveal_strlit("0");
    text::law_number_round_trip(n, 10, n);
    lemma_decimal_length(n);
    let d = text::decimal(n);
    assert(d[0] != '+') by {
        assert(text::digit_value(d[0], 10) is Some);
    }
    if n < 1000 {
        lemma_leading_zero(d);
        lemma_leading_zero("0"@ + d);
        lemma_leading_zero("0"@ + ("0"@ + d));
        assert("00"@ + d =~= "0"@ + ("0"@ + d));
        assert("000"@ + d =~= "0"@ + ("0"@ + ("0"@ + d)));
    }
}

/// How many digits a number has, up to four.
proof fn lemma_decimal_length(n: nat)
    ensures
        n < 10 ==> text::decimal(n).len() == 1,
        10 <= n < 100 ==> text::decimal(n).len() == 2,
        100 <= n < 1000 ==> text::decimal(n).len() == 3,
        n >= 1000 ==> text::decimal(n).len() >= 4,
{
    text::law_number_round_trip(n / 1000, 10, n);
    assert(n / 10 / 10 / 10 == n / 1000);
    assert(text::number_text(n, 10).len() == (if n < 10 {
        1
    } else {
        text::number_text(n / 10, 10).len() + 1
    }));
    assert(n >= 10 ==> text::number_text(n / 10, 10).len() == (if n / 10 < 10 {
        1
    } else {
        text::number_text(n / 10 / 10, 10).len() + 1
    }));
    assert(n >= 100 ==> text::number_text(n / 10 / 10, 10).len() == (if n / 10 / 10 < 10 {
        1
    } else {
        text::number_text(n / 10 / 10 / 10, 10).len() + 1
    }));
}

/// A zero in front of a number does not change it.
proof fn lemma_leading_zero(s: Seq<char>)
    requires
        s.len() > 0,
    ensures
        text::digits_value("0"@ + s, 10) == text::digits_value(s, 10),
    decreases s.len(),
{
    reveal_strlit("0");
    let t = "0"@ + s;
    assert(t.drop_last() =~= "0"@ + s.drop_last());
    assert(t.last() == s.last());
    if s.len() > 1 {
        lemma_leading_zero(s.drop_last());
    } else {
        assert(s.drop_last() =~= Seq::empty());
        assert(t.drop_last() =~= "0"@);
        reveal_with_fuel(text::digits_value, 3);
        assert("0"@.drop_last() =~= Seq::empty());
        assert("0"@.last() == '0');
    }
}

/// The packets of a camera are taken in one after the other.
pub proof fn law_camera_packets_are_taken_in_order(
    v: MonitorView,
    packets: Seq<Seq<u8>>,
    next: Seq<u8>,
)
    ensures
        ({
            let before = v.fed(packets);
            let after = v.fed(packets.push(next));
            let r = before.0.received(next);
            &&& after.0 == r.monitor
            &&& after.1 == before.1.push(r.viewed)
        }),
        v.fed(Seq::empty()) == (v, Seq::<ViewedView>::empty()),
{
    assert(packets.push(next).drop_last() =~= packets);
}

} // verus!
