//! The framed transport between an Agent and its backend: a header of 32 bytes in network order,
//! then the payload.

use vstd::prelude::*;
use crate::bytes;
use crate::text;

verus! {

pub const HEADER_LEN: usize = 32;

pub const MAGIC: [u8; 4] = [0x50, 0x41, 0x47, 0x31];

pub const VERSION: u8 = 1;

/// The four bytes that every frame starts with, "PAG1" in ASCII.
pub open spec fn magic() -> Seq<u8> {
    seq![0x50u8, 0x41u8, 0x47u8, 0x31u8]
}

#[derive(Clone, Copy, Debug, PartialEq, Eq, Structural)]
pub enum FrameKind {
    Event,
    Command,
    Result,
    Jpeg,
    DoorPcm,
    TalkPcm,
    Heartbeat,
}

#[derive(Debug, PartialEq, Eq)]
pub enum WireError {
    Short,
    Header,
    Kind(u8),
    Length,
    Cbor(String),
}

impl FrameKind {
    /// The byte that stands for the kind.
    pub open spec fn code(self) -> u8 {
        match self {
            FrameKind::Event => 1,
            FrameKind::Command => 2,
            FrameKind::Result => 3,
            FrameKind::Jpeg => 4,
            FrameKind::DoorPcm => 5,
            FrameKind::TalkPcm => 6,
            FrameKind::Heartbeat => 7,
        }
    }

    /// The byte that stands for the kind.
    pub fn to_byte(self) -> (r: u8)
        ensures
            r == self.code(),
    {
        match self {
            FrameKind::Event => 1,
            FrameKind::Command => 2,
            FrameKind::Result => 3,
            FrameKind::Jpeg => 4,
            FrameKind::DoorPcm => 5,
            FrameKind::TalkPcm => 6,
            FrameKind::Heartbeat => 7,
        }
    }

    /// The kind that a byte stands for.
    pub open spec fn of_code(value: u8) -> Option<FrameKind> {
        match value {
            1 => Some(FrameKind::Event),
            2 => Some(FrameKind::Command),
            3 => Some(FrameKind::Result),
            4 => Some(FrameKind::Jpeg),
            5 => Some(FrameKind::DoorPcm),
            6 => Some(FrameKind::TalkPcm),
            7 => Some(FrameKind::Heartbeat),
            _ => None,
        }
    }

    /// The kind that a byte stands for.
    pub fn from_byte(value: u8) -> (r: Result<FrameKind, WireError>)
        ensures
            match r {
                Ok(kind) => FrameKind::of_code(value) == Some(kind),
                Err(e) => FrameKind::of_code(value) is None && e == WireError::Kind(value),
            },
    {
        match value {
            1 => Ok(FrameKind::Event),
            2 => Ok(FrameKind::Command),
            3 => Ok(FrameKind::Result),
            4 => Ok(FrameKind::Jpeg),
            5 => Ok(FrameKind::DoorPcm),
            6 => Ok(FrameKind::TalkPcm),
            7 => Ok(FrameKind::Heartbeat),
            _ => Err(WireError::Kind(value)),
        }
    }
}

#[derive(Debug, PartialEq, Eq)]
pub struct WireFrame {
    pub kind: FrameKind,
    pub flags: u16,
    pub session_id: u64,
    pub sequence: u32,
    pub timestamp_micros: u64,
    pub payload: Vec<u8>,
}

/// What a frame holds.
pub struct FrameView {
    pub kind: FrameKind,
    pub flags: u16,
    pub session_id: u64,
    pub sequence: u32,
    pub timestamp_micros: u64,
    pub payload: Seq<u8>,
}

impl View for WireFrame {
    type V = FrameView;

    open spec fn view(&self) -> FrameView {
        FrameView {
            kind: self.kind,
            flags: self.flags,
            session_id: self.session_id,
            sequence: self.sequence,
            timestamp_micros: self.timestamp_micros,
            payload: self.payload@,
        }
    }
}

impl Clone for WireFrame {
    fn clone(&self) -> (r: Self)
        ensures
            r@ == self@,
    {
        WireFrame {
            kind: self.kind,
            flags: self.flags,
            session_id: self.session_id,
            sequence: self.sequence,
            timestamp_micros: self.timestamp_micros,
            payload: bytes::copy_of(&self.payload),
        }
    }
}

impl FrameView {
    /// The bytes of the frame. The length field holds the low 32 bits of the payload's length.
    pub open spec fn encoded(self) -> Seq<u8> {
        magic() + seq![VERSION, self.kind.code()] + bytes::be_bytes(self.flags as nat, 2)
            + bytes::be_bytes(self.session_id as nat, 8) + bytes::be_bytes(self.sequence as nat, 4)
            + bytes::be_bytes(self.timestamp_micros as nat, 8) + bytes::be_bytes(
            self.payload.len(),
            4,
        ) + self.payload
    }
}

/// The frame that a byte string spells, or what is wrong with it.
pub open spec fn decoded(raw: Seq<u8>) -> Result<FrameView, WireError> {
    if raw.len() < HEADER_LEN {
        Err(WireError::Short)
    } else if raw.take(4) != magic() || raw[4] != VERSION {
        Err(WireError::Header)
    } else if raw.len() != HEADER_LEN + bytes::be_value(raw.subrange(28, 32)) {
        Err(WireError::Length)
    } else {
        match FrameKind::of_code(raw[5]) {
            None => Err(WireError::Kind(raw[5])),
            Some(kind) => Ok(
                FrameView {
                    kind,
                    flags: bytes::be_value(raw.subrange(6, 8)) as u16,
                    session_id: bytes::be_value(raw.subrange(8, 16)) as u64,
                    sequence: bytes::be_value(raw.subrange(16, 20)) as u32,
                    timestamp_micros: bytes::be_value(raw.subrange(20, 28)) as u64,
                    payload: raw.skip(32),
                },
            ),
        }
    }
}

impl WireFrame {
    pub fn encode(&self) -> (r: Vec<u8>)
        ensures
            r@ == self@.encoded(),
    {
        let mut out: Vec<u8> = Vec::new();
        bytes::append_slice(&mut out, &MAGIC);
        out.push(VERSION);
        out.push(self.kind.to_byte());
        assert(out@ =~= magic() + seq![VERSION, self.kind.code()]);
        bytes::push_be(&mut out, self.flags as u64, 2);
        bytes::push_be(&mut out, self.session_id, 8);
        bytes::push_be(&mut out, self.sequence as u64, 4);
        bytes::push_be(&mut out, self.timestamp_micros, 8);
        bytes::push_be(&mut out, self.payload.len() as u64, 4);
        bytes::append_slice(&mut out, &self.payload);
        out
    }

    pub fn decode(raw: &[u8]) -> (r: Result<Self, WireError>)
        ensures
            match r {
                Ok(frame) => decoded(raw@) == Ok::<FrameView, WireError>(frame@),
                Err(e) => decoded(raw@) == Err::<FrameView, WireError>(e),
            },
    {
        if raw.len() < HEADER_LEN {
            return Err(WireError::Short);
        }
        assert(MAGIC@ =~= magic());
        if !bytes::begins_with(raw, &MAGIC) || raw[4] != VERSION {
            return Err(WireError::Header);
        }
        let length: u32 = bytes::read_u32_be(raw, 28);
        if raw.len() - HEADER_LEN != length as usize {
            return Err(WireError::Length);
        }
        let kind = match FrameKind::from_byte(raw[5]) {
            Ok(kind) => kind,
            Err(e) => return Err(e),
        };
        let payload = bytes::copy_of(&raw[32..raw.len()]);
        assert(payload@ =~= raw@.skip(32));
        Ok(
            WireFrame {
                kind,
                flags: bytes::read_u16_be(raw, 6),
                session_id: bytes::read_be(raw, 8, 16),
                sequence: bytes::read_u32_be(raw, 16),
                timestamp_micros: bytes::read_be(raw, 20, 28),
                payload,
            },
        )
    }

    /// A frame without flags around bytes that are already encoded.
    pub fn sealed(
        kind: FrameKind,
        session_id: u64,
        sequence: u32,
        timestamp_micros: u64,
        payload: Vec<u8>,
    ) -> (r: Self)
        ensures
            r@ == (FrameView {
                kind,
                flags: 0,
                session_id,
                sequence,
                timestamp_micros,
                payload: payload@,
            }),
    {
        WireFrame { kind, flags: 0, session_id, sequence, timestamp_micros, payload }
    }
}

/// Decoding gives back the frame that was encoded, where its length fits the length field.
pub proof fn law_decode_inverts_encode(f: FrameView)
    requires
        f.payload.len() <= u32::MAX,
    ensures
        decoded(f.encoded()) == Ok::<FrameView, WireError>(f),
{
    let raw = f.encoded();
    bytes::lemma_byte_span();
    bytes::lemma_be_round_trip(f.flags as nat, 2);
    bytes::lemma_be_round_trip(f.session_id as nat, 8);
    bytes::lemma_be_round_trip(f.sequence as nat, 4);
    bytes::lemma_be_round_trip(f.timestamp_micros as nat, 8);
    bytes::lemma_be_round_trip(f.payload.len(), 4);
    assert(raw.take(4) =~= magic());
    assert(raw.subrange(6, 8) =~= bytes::be_bytes(f.flags as nat, 2));
    assert(raw.subrange(8, 16) =~= bytes::be_bytes(f.session_id as nat, 8));
    assert(raw.subrange(16, 20) =~= bytes::be_bytes(f.sequence as nat, 4));
    assert(raw.subrange(20, 28) =~= bytes::be_bytes(f.timestamp_micros as nat, 8));
    assert(raw.subrange(28, 32) =~= bytes::be_bytes(f.payload.len(), 4));
    assert(raw.skip(32) =~= f.payload);
}

/// A byte string that decodes is the only encoding of its frame.
pub proof fn law_encode_inverts_decode(raw: Seq<u8>)
    requires
        decoded(raw) is Ok,
    ensures
        decoded(raw)->Ok_0.encoded() == raw,
{
    let f = decoded(raw)->Ok_0;
    bytes::lemma_byte_span();
    bytes::lemma_be_value_bound(raw.subrange(6, 8));
    bytes::lemma_be_value_bound(raw.subrange(8, 16));
    bytes::lemma_be_value_bound(raw.subrange(16, 20));
    bytes::lemma_be_value_bound(raw.subrange(20, 28));
    bytes::lemma_be_value_bound(raw.subrange(28, 32));
    bytes::lemma_be_bytes_of_value(raw.subrange(6, 8));
    bytes::lemma_be_bytes_of_value(raw.subrange(8, 16));
    bytes::lemma_be_bytes_of_value(raw.subrange(16, 20));
    bytes::lemma_be_bytes_of_value(raw.subrange(20, 28));
    bytes::lemma_be_bytes_of_value(raw.subrange(28, 32));
    assert(f.encoded() =~= raw.take(4) + raw.subrange(4, 6) + raw.subrange(6, 8) + raw.subrange(
        8,
        16,
    ) + raw.subrange(16, 20) + raw.subrange(20, 28) + raw.subrange(28, 32) + raw.skip(32));
    assert(f.encoded() =~= raw);
}

/// What an Agent reports to its backend.
#[derive(Debug, PartialEq, Eq)]
pub enum AgentEvent {
    Hello { agent_id: String, protocol: u16, capabilities: Vec<String> },
    Snapshot { phase: String, owner: String },
    CallStarted { door_id: String, room_id: String },
    PadActionObserved { opcode: u32 },
    CallEnded { reason: String },
    Error { message: String },
}

/// What an Agent's report says.
pub enum AgentEventView {
    Hello { agent_id: Seq<char>, protocol: u16, capabilities: Seq<Seq<char>> },
    Snapshot { phase: Seq<char>, owner: Seq<char> },
    CallStarted { door_id: Seq<char>, room_id: Seq<char> },
    PadActionObserved { opcode: u32 },
    CallEnded { reason: Seq<char> },
    Error { message: Seq<char> },
}

impl View for AgentEvent {
    type V = AgentEventView;

    open spec fn view(&self) -> AgentEventView {
        match self {
            AgentEvent::Hello { agent_id, protocol, capabilities } => AgentEventView::Hello {
                agent_id: agent_id@,
                protocol: *protocol,
                capabilities: text::text_views(capabilities@),
            },
            AgentEvent::Snapshot { phase, owner } => AgentEventView::Snapshot {
                phase: phase@,
                owner: owner@,
            },
            AgentEvent::CallStarted { door_id, room_id } => AgentEventView::CallStarted {
                door_id: door_id@,
                room_id: room_id@,
            },
            AgentEvent::PadActionObserved { opcode } => AgentEventView::PadActionObserved {
                opcode: *opcode,
            },
            AgentEvent::CallEnded { reason } => AgentEventView::CallEnded { reason: reason@ },
            AgentEvent::Error { message } => AgentEventView::Error { message: message@ },
        }
    }
}

/// What a backend asks of an Agent.
#[derive(Debug, PartialEq, Eq)]
pub enum AgentCommand {
    RegisterBackend { backend_id: String },
    ClaimCall { command_id: u64 },
    Unlock { command_id: u64 },
    Hangup { command_id: u64 },
    ReleaseCall { command_id: u64 },
}

impl AgentCommand {
    /// The id under which the result is reported; a registration has none.
    pub open spec fn id(self) -> Option<u64> {
        match self {
            AgentCommand::RegisterBackend { .. } => None,
            AgentCommand::ClaimCall { command_id } => Some(command_id),
            AgentCommand::Unlock { command_id } => Some(command_id),
            AgentCommand::Hangup { command_id } => Some(command_id),
            AgentCommand::ReleaseCall { command_id } => Some(command_id),
        }
    }

    pub fn command_id(&self) -> (r: Option<u64>)
        ensures
            r == self.id(),
    {
        match self {
            AgentCommand::RegisterBackend { .. } => None,
            AgentCommand::ClaimCall { command_id } => Some(*command_id),
            AgentCommand::Unlock { command_id } => Some(*command_id),
            AgentCommand::Hangup { command_id } => Some(*command_id),
            AgentCommand::ReleaseCall { command_id } => Some(*command_id),
        }
    }
}

/// The outcome of a backend's command.
#[derive(Debug, PartialEq, Eq)]
pub struct CommandResult {
    pub command_id: u64,
    pub ok: bool,
    pub error: Option<String>,
}

/// Where the parts of a frame stand: the letters PAG1, version 1, the number of the kind, and then
/// in big-endian order the flags, the session, the sequence number, the time and the length of
/// the payload, which follows.
pub proof fn law_frame_layout(f: FrameView)
    requires
        f.payload.len() <= u32::MAX,
    ensures
        ({
            let raw = f.encoded();
            &&& raw.len() == 32 + f.payload.len()
            &&& raw[0] == 0x50 && raw[1] == 0x41 && raw[2] == 0x47 && raw[3] == 0x31
            &&& raw[4] == 1
            &&& raw[5] == (match f.kind {
                FrameKind::Event => 1u8,
                FrameKind::Command => 2u8,
                FrameKind::Result => 3u8,
                FrameKind::Jpeg => 4u8,
                FrameKind::DoorPcm => 5u8,
                FrameKind::TalkPcm => 6u8,
                FrameKind::Heartbeat => 7u8,
            })
            &&& raw[6] * 256 + raw[7] == f.flags
            &&& bytes::be_value(raw.subrange(8, 16)) == f.session_id
            &&& bytes::be_value(raw.subrange(16, 20)) == f.sequence
            &&& bytes::be_value(raw.subrange(20, 28)) == f.timestamp_micros
            &&& bytes::be_value(raw.subrange(28, 32)) == f.payload.len()
            &&& raw.skip(32) == f.payload
        }),
{
    let raw = f.encoded();
    bytes::lemma_byte_span();
    bytes::lemma_be_round_trip(f.flags as nat, 2);
    bytes::lemma_be_round_trip(f.session_id as nat, 8);
    bytes::lemma_be_round_trip(f.sequence as nat, 4);
    bytes::lemma_be_round_trip(f.timestamp_micros as nat, 8);
    bytes::lemma_be_round_trip(f.payload.len(), 4);
    bytes::law_big_endian(raw.subrange(6, 8), 0, 0);
    assert(raw.subrange(6, 8) =~= bytes::be_bytes(f.flags as nat, 2));
    assert(raw.subrange(8, 16) =~= bytes::be_bytes(f.session_id as nat, 8));
    assert(raw.subrange(16, 20) =~= bytes::be_bytes(f.sequence as nat, 4));
    assert(raw.subrange(20, 28) =~= bytes::be_bytes(f.timestamp_micros as nat, 8));
    assert(raw.subrange(28, 32) =~= bytes::be_bytes(f.payload.len(), 4));
    assert(raw.skip(32) =~= f.payload);
}

/// What is no frame, and why: under 32 bytes it is short; then the letters and the version have to
/// be right, then the length has to be that of the payload, and then the kind has to be known.
pub proof fn law_bad_frames_are_named(raw: Seq<u8>)
    ensures
        ({
            let r = decoded(raw);
            let short = raw.len() < 32;
            let header = raw[0] == 0x50 && raw[1] == 0x41 && raw[2] == 0x47 && raw[3] == 0x31
                && raw[4] == 1;
            let length = raw.len() == 32 + bytes::be_value(raw.subrange(28, 32));
            &&& short ==> r == Err::<FrameView, WireError>(WireError::Short)
            &&& !short && !header ==> r == Err::<FrameView, WireError>(WireError::Header)
            &&& !short && header && !length ==> r == Err::<FrameView, WireError>(WireError::Length)
            &&& !short && header && length && !(1 <= raw[5] <= 7) ==> r == Err::<
                FrameView,
                WireError,
            >(WireError::Kind(raw[5]))
            &&& !short && header && length && 1 <= raw[5] <= 7 ==> r is Ok
        }),
{
    if raw.len() >= 32 {
        let m = raw.take(4);
        if raw[0] == 0x50 && raw[1] == 0x41 && raw[2] == 0x47 && raw[3] == 0x31 {
            assert(m =~= magic());
        } else if m == magic() {
            assert(m[0] == raw[0] && m[1] == raw[1] && m[2] == raw[2] && m[3] == raw[3]);
            assert(magic()[0] == 0x50);
        }
    }
}

/// A command goes by the number that it was given; only the registration has none.
pub proof fn law_commands_have_numbers(command_id: u64, c: AgentCommand)
    ensures
        (AgentCommand::ClaimCall { command_id }).id() == Some(command_id),
        (AgentCommand::Unlock { command_id }).id() == Some(command_id),
        (AgentCommand::Hangup { command_id }).id() == Some(command_id),
        (AgentCommand::ReleaseCall { command_id }).id() == Some(command_id),
        c is RegisterBackend <==> c.id() is None,
{
}

} // verus!
