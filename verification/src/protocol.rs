//! The PENGUIN0 datagram format: stations, control packets, media fragments and discovery.
//!
//! Every packet starts with a header of 32 bytes: the magic, then family, opcode and declared
//! length in little-endian order, then 14 reserved bytes.

use vstd::prelude::*;
use vstd::utf8;
use crate::bytes;
use crate::net::Ipv4Addr;
use crate::text;

verus! {

pub const MAGIC: [u8; 8] = [0x50, 0x45, 0x4e, 0x47, 0x55, 0x49, 0x4e, 0x30];

pub const CONTROL_PORT: u16 = 10_000;

pub const DISCOVERY_PORT: u16 = 10_008;

pub const FAMILY_BOOTSTRAP: u16 = 0x0098;

pub const FAMILY_SESSION: u16 = 0x00b7;

pub const FAMILY_SNAPSHOT_NAME: u16 = 0x009b;

pub const FAMILY_SNAPSHOT_DATA: u16 = 0x00b4;

pub const FAMILY_PAGE: u16 = 0x005d;

pub const FAMILY_MONITOR: u16 = 0x00b8;

pub const FAMILY_ELEVATOR: u16 = 0x0106;

pub const OP_REQUEST: u32 = 0x01;

pub const OP_REPLY: u32 = 0x03;

pub const OP_ANSWER: u32 = 0x05;

pub const OP_UNLOCK: u32 = 0x06;

pub const OP_MEDIA: u32 = 0x0a;

pub const OP_KEEPALIVE: u32 = 0x0c;

pub const OP_HANGUP: u32 = 0x1e;

pub const MEDIA_JPEG: u16 = 1;

pub const MEDIA_AUDIO: u16 = 3;

/// The eight bytes that every packet starts with, "PENGUIN0" in ASCII.
pub open spec fn magic() -> Seq<u8> {
    seq![0x50u8, 0x45u8, 0x4eu8, 0x47u8, 0x55u8, 0x49u8, 0x4eu8, 0x30u8]
}

#[derive(Clone, Copy, Debug, PartialEq, Eq, Structural)]
pub enum ProtocolError {
    Short,
    BadMagic,
    StationTooLong,
    BadStation,
    BadAudioLength,
}

impl ProtocolError {
    /// The message that describes the error.
    pub open spec fn text(self) -> Seq<char> {
        match self {
            ProtocolError::Short => "short PENGUIN0 message"@,
            ProtocolError::BadMagic => "invalid PENGUIN0 magic"@,
            ProtocolError::StationTooLong => "station id is longer than 20 bytes"@,
            ProtocolError::BadStation => "invalid station endpoint"@,
            ProtocolError::BadAudioLength => "audio packets must contain exactly 512 PCM bytes"@,
        }
    }

    /// The message that describes the error.
    pub fn message(&self) -> (r: &'static str)
        ensures
            r@ == self.text(),
    {
        match self {
            ProtocolError::Short => "short PENGUIN0 message",
            ProtocolError::BadMagic => "invalid PENGUIN0 magic",
            ProtocolError::StationTooLong => "station id is longer than 20 bytes",
            ProtocolError::BadStation => "invalid station endpoint",
            ProtocolError::BadAudioLength => "audio packets must contain exactly 512 PCM bytes",
        }
    }
}

/// A station of the intercom: its id and its address.
#[derive(Debug, PartialEq, Eq)]
pub struct Station {
    pub id: String,
    pub ip: Ipv4Addr,
}

/// What a station is, with its id as a sequence of characters.
pub struct StationView {
    pub id: Seq<char>,
    pub ip: Ipv4Addr,
}

impl View for Station {
    type V = StationView;

    open spec fn view(&self) -> StationView {
        StationView { id: self.id@, ip: self.ip }
    }
}

impl Clone for Station {
    fn clone(&self) -> (r: Self)
        ensures
            r@ == self@,
    {
        Station { id: self.id.clone(), ip: self.ip }
    }
}

impl StationView {
    /// The 24 bytes of a station on the wire: the id in UTF-8, padded with zeros to 20 bytes,
    /// and the address.
    pub open spec fn packed(self) -> Seq<u8> {
        utf8::encode_utf8(self.id) + bytes::zeros((20 - utf8::encode_utf8(self.id).len()) as nat)
            + self.ip.bytes()
    }

    /// Whether the id fits the 20 bytes that a packet has for it.
    pub open spec fn fits(self) -> bool {
        utf8::encode_utf8(self.id).len() <= 20
    }

    /// Whether the id holds no zero character, which would end it on the wire.
    pub open spec fn nul_free(self) -> bool {
        forall|i: int| 0 <= i < self.id.len() ==> #[trigger] self.id[i] != '\0'
    }
}

/// The station that 24 bytes describe: the id is what stands before the first zero byte.
pub open spec fn parsed_station(raw: Seq<u8>) -> StationView {
    StationView {
        id: text::lossy(bytes::before_nul(raw.take(20))),
        ip: crate::net::ipv4_of(raw.subrange(20, 24)),
    }
}

impl Station {
    pub fn new(id: &str, ip: Ipv4Addr) -> (r: Self)
        ensures
            r@ == (StationView { id: id@, ip }),
    {
        Station { id: id.to_owned(), ip }
    }

    pub fn pack(&self) -> (r: Result<[u8; 24], ProtocolError>)
        ensures
            match r {
                Ok(out) => self@.fits() && out@ == self@.packed(),
                Err(e) => !self@.fits() && e == ProtocolError::StationTooLong,
            },
    {
        let id = self.id.as_str().as_bytes();
        if id.len() > 20 {
            return Err(ProtocolError::StationTooLong);
        }
        let mut out: [u8; 24] = [0; 24];
        let mut i: usize = 0;
        while i < id.len()
            invariant
                i <= id@.len() <= 20,
                forall|j: int| 0 <= j < i ==> out@[j] == id@[j],
                forall|j: int| i <= j < 24 ==> out@[j] == 0,
            decreases id@.len() - i,
        {
            out[i] = id[i];
            i = i + 1;
        }
        out[20] = self.ip.a;
        out[21] = self.ip.b;
        out[22] = self.ip.c;
        out[23] = self.ip.d;
        assert(out@ =~= self@.packed());
        Ok(out)
    }

    pub fn parse(raw: &[u8]) -> (r: Result<Self, ProtocolError>)
        ensures
            match r {
                Ok(station) => raw@.len() >= 24 && station@ == parsed_station(raw@),
                Err(e) => raw@.len() < 24 && e == ProtocolError::BadStation,
            },
    {
        if raw.len() < 24 {
            return Err(ProtocolError::BadStation);
        }
        let end: usize = bytes::nul_position(&raw[0..20]);
        let id = text::lossy_text(&raw[0..end]);
        proof {
            assert(raw@.subrange(0, 20) =~= raw@.take(20));
            assert(raw@.subrange(0, end as int) =~= raw@.take(20).take(end as int));
        }
        Ok(Station { id, ip: Ipv4Addr::new(raw[20], raw[21], raw[22], raw[23]) })
    }
}

/// Parsing gives back the station that was packed, where the id fits and holds no zero
/// character.
pub proof fn law_station_round_trip(s: StationView)
    requires
        s.fits(),
        s.nul_free(),
    ensures
        s.packed().len() == 24,
        parsed_station(s.packed()) == s,
{
    let id = utf8::encode_utf8(s.id);
    let raw = s.packed();
    text::lemma_encoded_has_no_zero(s.id);
    assert(bytes::nul_at(raw.take(20), id.len() as int)) by {
        assert forall|i: int| 0 <= i < id.len() implies #[trigger] raw.take(20)[i] != 0 by {
            assert(id[i] != 0);
        }
    }
    bytes::lemma_before_nul(raw.take(20), id.len() as int);
    assert(raw.take(20).take(id.len() as int) =~= id);
    text::lemma_lossy_encoded(s.id);
    assert(raw.subrange(20, 24) =~= s.ip.bytes());
}

/// The two stations that every session packet names.
#[derive(Debug, PartialEq, Eq)]
pub struct Endpoints {
    pub door: Station,
    pub room: Station,
}

/// What a pair of endpoints is.
pub struct EndpointsView {
    pub door: StationView,
    pub room: StationView,
}

impl View for Endpoints {
    type V = EndpointsView;

    open spec fn view(&self) -> EndpointsView {
        EndpointsView { door: self.door@, room: self.room@ }
    }
}

impl Clone for Endpoints {
    fn clone(&self) -> (r: Self)
        ensures
            r@ == self@,
    {
        Endpoints { door: self.door.clone(), room: self.room.clone() }
    }
}

impl EndpointsView {
    /// The 48 bytes of the endpoints on the wire: the door, then the room.
    pub open spec fn packed(self) -> Seq<u8> {
        self.door.packed() + self.room.packed()
    }

    /// Whether both ids fit their fields.
    pub open spec fn fits(self) -> bool {
        self.door.fits() && self.room.fits()
    }
}

/// The endpoints that 48 bytes describe.
pub open spec fn parsed_endpoints(raw: Seq<u8>) -> EndpointsView {
    EndpointsView {
        door: parsed_station(raw.take(24)),
        room: parsed_station(raw.subrange(24, 48)),
    }
}

/// The endpoints of the reference capture.
pub open spec fn captured_endpoints() -> EndpointsView {
    EndpointsView {
        door: StationView {
            id: "M00000000000"@,
            ip: Ipv4Addr { a: 192, b: 168, c: 124, d: 2 },
        },
        room: StationView {
            id: "S00000000000"@,
            ip: Ipv4Addr { a: 192, b: 168, c: 124, d: 61 },
        },
    }
}

impl Endpoints {
    /// The endpoints of the reference capture.
    pub fn captured() -> (r: Self)
        ensures
            r@ == captured_endpoints(),
    {
        Endpoints {
            door: Station::new("M00000000000", Ipv4Addr::new(192, 168, 124, 2)),
            room: Station::new("S00000000000", Ipv4Addr::new(192, 168, 124, 61)),
        }
    }

    pub fn pack(&self) -> (r: Result<[u8; 48], ProtocolError>)
        ensures
            match r {
                Ok(out) => self@.fits() && out@ == self@.packed(),
                Err(e) => !self@.fits() && e == ProtocolError::StationTooLong,
            },
    {
        let door: [u8; 24] = match self.door.pack() {
            Ok(raw) => raw,
            Err(e) => return Err(e),
        };
        let room: [u8; 24] = match self.room.pack() {
            Ok(raw) => raw,
            Err(e) => return Err(e),
        };
        let mut out: [u8; 48] = [0; 48];
        let mut i: usize = 0;
        while i < 24
            invariant
                i <= 24,
                forall|j: int| 0 <= j < i ==> out@[j] == door@[j],
                forall|j: int| 0 <= j < i ==> #[trigger] out@[24 + j] == room@[j],
            decreases 24 - i,
        {
            out[i] = door[i];
            out[24 + i] = room[i];
            i = i + 1;
        }
        assert(out@ =~= self@.packed()) by {
            assert forall|j: int| 0 <= j < 48 implies out@[j] == (door@ + room@)[j] by {
                if j >= 24 {
                    assert(out@[24 + (j - 24)] == room@[j - 24]);
                }
            }
        }
        Ok(out)
    }

    pub fn parse(raw: &[u8]) -> (r: Result<Self, ProtocolError>)
        ensures
            match r {
                Ok(endpoints) => raw@.len() >= 48 && endpoints@ == parsed_endpoints(raw@),
                Err(e) => raw@.len() < 48 && e == ProtocolError::Short,
            },
    {
        if raw.len() < 48 {
            return Err(ProtocolError::Short);
        }
        let door = match Station::parse(&raw[0..24]) {
            Ok(station) => station,
            Err(e) => return Err(e),
        };
        let room = match Station::parse(&raw[24..48]) {
            Ok(station) => station,
            Err(e) => return Err(e),
        };
        assert(raw@.subrange(0, 24) =~= raw@.take(24));
        Ok(Endpoints { door, room })
    }
}

/// The ids of the reference capture fit their fields.
pub proof fn lemma_captured_endpoints_fit()
    ensures
        captured_endpoints().fits(),
{
    reveal_strlit("M00000000000");
    reveal_strlit("S00000000000");
    utf8::is_ascii_chars_encode_utf8("M00000000000"@);
    utf8::is_ascii_chars_encode_utf8("S00000000000"@);
}

/// Parsing gives back the endpoints that were packed, whatever follows them.
pub proof fn law_endpoints_round_trip(e: EndpointsView, tail: Seq<u8>)
    requires
        e.fits(),
        e.door.nul_free(),
        e.room.nul_free(),
    ensures
        e.packed().len() == 48,
        parsed_endpoints(e.packed() + tail) == e,
{
    law_station_round_trip(e.door);
    law_station_round_trip(e.room);
    let raw = e.packed() + tail;
    assert(raw.take(24) =~= e.door.packed());
    assert(raw.subrange(24, 48) =~= e.room.packed());
}

/// A parsed packet.
#[derive(Clone, Copy, Debug, PartialEq, Eq)]
pub struct Message<'a> {
    pub family: u16,
    pub opcode: u32,
    pub declared: u32,
    pub reserved: &'a [u8],
    pub body: &'a [u8],
    pub raw: &'a [u8],
}

/// What a packet holds.
pub struct MessageView {
    pub family: u16,
    pub opcode: u32,
    pub declared: u32,
    pub reserved: Seq<u8>,
    pub body: Seq<u8>,
    pub raw: Seq<u8>,
}

impl<'a> View for Message<'a> {
    type V = MessageView;

    open spec fn view(&self) -> MessageView {
        MessageView {
            family: self.family,
            opcode: self.opcode,
            declared: self.declared,
            reserved: self.reserved@,
            body: self.body@,
            raw: self.raw@,
        }
    }
}

/// The packet that a byte string spells.
pub open spec fn parsed_message(raw: Seq<u8>) -> Result<MessageView, ProtocolError> {
    if raw.len() < 32 {
        Err(ProtocolError::Short)
    } else if !bytes::begins(raw, magic()) {
        Err(ProtocolError::BadMagic)
    } else {
        Ok(
            MessageView {
                family: bytes::le_value(raw.subrange(8, 10)) as u16,
                opcode: bytes::le_value(raw.subrange(10, 14)) as u32,
                declared: bytes::le_value(raw.subrange(14, 18)) as u32,
                reserved: raw.subrange(18, 32),
                body: raw.skip(32),
                raw,
            },
        )
    }
}

/// A piece of media inside a packet.
#[derive(Clone, Copy, Debug, PartialEq, Eq)]
pub struct MediaFragment<'a> {
    pub media_type: u16,
    pub sequence: u16,
    pub fragment_count: u16,
    pub fragment_index: u16,
    pub valid_length: u16,
    pub data: &'a [u8],
}

/// What a media fragment holds.
pub struct FragmentView {
    pub media_type: u16,
    pub sequence: u16,
    pub fragment_count: u16,
    pub fragment_index: u16,
    pub valid_length: u16,
    pub data: Seq<u8>,
}

impl<'a> View for MediaFragment<'a> {
    type V = FragmentView;

    open spec fn view(&self) -> FragmentView {
        FragmentView {
            media_type: self.media_type,
            sequence: self.sequence,
            fragment_count: self.fragment_count,
            fragment_index: self.fragment_index,
            valid_length: self.valid_length,
            data: self.data@,
        }
    }
}

impl MessageView {
    /// The endpoints that a session packet names.
    pub open spec fn endpoints(self) -> Option<EndpointsView> {
        if self.family == FAMILY_SESSION && self.body.len() >= 48 {
            Some(parsed_endpoints(self.body.take(48)))
        } else {
            None
        }
    }

    /// The media fragment that a session packet carries behind its endpoints.
    pub open spec fn media(self) -> Option<FragmentView> {
        self.media_of(FAMILY_SESSION)
    }

    /// The media fragment that a media packet of the family carries behind its endpoints.
    pub open spec fn media_of(self, family: u16) -> Option<FragmentView> {
        let body = self.body;
        if self.family != family || self.opcode != OP_MEDIA || body.len() < 58 {
            None
        } else {
            let valid = bytes::le_value(body.subrange(56, 58));
            if valid > body.len() - 58 {
                None
            } else {
                Some(
                    FragmentView {
                        media_type: bytes::le_value(body.subrange(48, 50)) as u16,
                        sequence: bytes::le_value(body.subrange(50, 52)) as u16,
                        fragment_count: bytes::le_value(body.subrange(52, 54)) as u16,
                        fragment_index: bytes::le_value(body.subrange(54, 56)) as u16,
                        valid_length: valid as u16,
                        data: body.subrange(58, 58 + valid as int),
                    },
                )
            }
        }
    }
}

impl<'a> Message<'a> {
    pub fn parse(raw: &'a [u8]) -> (r: Result<Self, ProtocolError>)
        ensures
            match r {
                Ok(m) => parsed_message(raw@) == Ok::<MessageView, ProtocolError>(m@),
                Err(e) => parsed_message(raw@) == Err::<MessageView, ProtocolError>(e),
            },
    {
        if raw.len() < 32 {
            return Err(ProtocolError::Short);
        }
        assert(MAGIC@ =~= magic());
        if !bytes::begins_with(raw, &MAGIC) {
            return Err(ProtocolError::BadMagic);
        }
        let m = Message {
            family: bytes::read_u16_le(raw, 8),
            opcode: bytes::read_u32_le(raw, 10),
            declared: bytes::read_u32_le(raw, 14),
            reserved: &raw[18..32],
            body: &raw[32..raw.len()],
            raw,
        };
        assert(m.body@ =~= raw@.skip(32));
        Ok(m)
    }

    pub fn endpoints(&self) -> (r: Option<Endpoints>)
        ensures
            match r {
                Some(e) => self@.endpoints() == Some(e@),
                None => self@.endpoints() is None,
            },
    {
        if self.family == FAMILY_SESSION && self.body.len() >= 48 {
            assert(self.body@.subrange(0, 48) =~= self.body@.take(48));
            match Endpoints::parse(&self.body[0..48]) {
                Ok(e) => Some(e),
                Err(_) => None,
            }
        } else {
            None
        }
    }

    pub fn media(&self) -> (r: Option<MediaFragment<'a>>)
        ensures
            match r {
                Some(f) => self@.media() == Some(f@),
                None => self@.media() is None,
            },
    {
        self.media_of(FAMILY_SESSION)
    }

    /// The media fragment that a media packet of the family carries: a monitor session frames
    /// its media like a call.
    pub fn media_of(&self, family: u16) -> (r: Option<MediaFragment<'a>>)
        ensures
            match r {
                Some(f) => self@.media_of(family) == Some(f@),
                None => self@.media_of(family) is None,
            },
    {
        let body: &'a [u8] = self.body;
        if self.family != family || self.opcode != OP_MEDIA || body.len() < 58 {
            return None;
        }
        let valid_length: u16 = bytes::read_u16_le(body, 56);
        if valid_length as usize > body.len() - 58 {
            return None;
        }
        Some(
            MediaFragment {
                media_type: bytes::read_u16_le(body, 48),
                sequence: bytes::read_u16_le(body, 50),
                fragment_count: bytes::read_u16_le(body, 52),
                fragment_index: bytes::read_u16_le(body, 54),
                valid_length,
                data: &body[58..58 + valid_length as usize],
            },
        )
    }
}

/// The bytes of a packet with this header and body.
pub open spec fn packet_bytes(family: u16, opcode: u32, declared: u32, body: Seq<u8>) -> Seq<u8> {
    magic() + bytes::le_bytes(family as nat, 2) + bytes::le_bytes(opcode as nat, 4)
        + bytes::le_bytes(declared as nat, 4) + bytes::zeros(14) + body
}

pub fn packet(family: u16, opcode: u32, declared: u32, body: &[u8]) -> (r: Vec<u8>)
    ensures
        r@ == packet_bytes(family, opcode, declared, body@),
{
    let mut out: Vec<u8> = Vec::new();
    bytes::append_slice(&mut out, &MAGIC);
    assert(out@ =~= magic());
    bytes::push_le(&mut out, family as u64, 2);
    bytes::push_le(&mut out, opcode as u64, 4);
    bytes::push_le(&mut out, declared as u64, 4);
    bytes::append_zeros(&mut out, 14);
    bytes::append_slice(&mut out, body);
    out
}

/// Parsing gives back the header and the body that a packet was built from.
pub proof fn law_packet_round_trip(family: u16, opcode: u32, declared: u32, body: Seq<u8>)
    ensures
        parsed_message(packet_bytes(family, opcode, declared, body)) == Ok::<
            MessageView,
            ProtocolError,
        >(
            (MessageView {
                family,
                opcode,
                declared,
                reserved: bytes::zeros(14),
                body,
                raw: packet_bytes(family, opcode, declared, body),
            }),
        ),
        packet_bytes(family, opcode, declared, body).len() == 32 + body.len(),
{
    bytes::lemma_byte_span();
    bytes::lemma_le_round_trip(family as nat, 2);
    bytes::lemma_le_round_trip(opcode as nat, 4);
    bytes::lemma_le_round_trip(declared as nat, 4);
    let raw = packet_bytes(family, opcode, declared, body);
    assert(raw.take(8) =~= magic());
    assert(raw.subrange(8, 10) =~= bytes::le_bytes(family as nat, 2));
    assert(raw.subrange(10, 14) =~= bytes::le_bytes(opcode as nat, 4));
    assert(raw.subrange(14, 18) =~= bytes::le_bytes(declared as nat, 4));
    assert(raw.subrange(18, 32) =~= bytes::zeros(14));
    assert(raw.skip(32) =~= body);
}

/// The bytes of an 80-byte session packet that holds nothing but its endpoints.
pub open spec fn control_bytes(opcode: u32, e: EndpointsView) -> Seq<u8> {
    packet_bytes(FAMILY_SESSION, opcode, 80, e.packed())
}

/// A control packet is short.
pub proof fn lemma_control_length(opcode: u32, e: EndpointsView)
    requires
        e.fits(),
    ensures
        control_bytes(opcode, e).len() == 80,
{
    bytes::lemma_byte_span();
    bytes::lemma_le_round_trip(FAMILY_SESSION as nat, 2);
    bytes::lemma_le_round_trip(opcode as nat, 4);
    bytes::lemma_le_round_trip(80, 4);
}

pub fn session_control(opcode: u32, endpoints: &Endpoints) -> (r: Result<Vec<u8>, ProtocolError>)
    ensures
        match r {
            Ok(p) => endpoints@.fits() && p@ == control_bytes(opcode, endpoints@),
            Err(e) => !endpoints@.fits() && e == ProtocolError::StationTooLong,
        },
{
    match endpoints.pack() {
        Ok(body) => Ok(packet(FAMILY_SESSION, opcode, 80, &body)),
        Err(e) => Err(e),
    }
}

/// The opcode and the endpoints of a control packet are read back from it, where the ids hold no
/// zero character.
pub proof fn law_control_round_trip(opcode: u32, e: EndpointsView)
    requires
        e.fits(),
        e.door.nul_free(),
        e.room.nul_free(),
    ensures
        control_bytes(opcode, e).len() == 80,
        parsed_message(control_bytes(opcode, e)) is Ok,
        parsed_message(control_bytes(opcode, e))->Ok_0.family == FAMILY_SESSION,
        parsed_message(control_bytes(opcode, e))->Ok_0.opcode == opcode,
        parsed_message(control_bytes(opcode, e))->Ok_0.declared == 80,
        parsed_message(control_bytes(opcode, e))->Ok_0.endpoints() == Some(e),
{
    law_endpoints_round_trip(e, Seq::empty());
    law_packet_round_trip(FAMILY_SESSION, opcode, 80, e.packed());
    assert(e.packed().take(48) =~= e.packed() + Seq::empty());
}

/// The capability values that a Pad offers: "VIDEOA", two zero bytes, then four numbers.
pub open spec fn capability_bytes() -> Seq<u8> {
    seq![0x56u8, 0x49u8, 0x44u8, 0x45u8, 0x4fu8, 0x41u8, 0u8, 0u8] + bytes::le_bytes(50, 2)
        + bytes::le_bytes(9, 2) + bytes::le_bytes(9, 2) + bytes::le_bytes(255, 2)
}

/// The bytes of a Pad's capability reply.
pub open spec fn reply_bytes(e: EndpointsView) -> Seq<u8> {
    packet_bytes(FAMILY_SESSION, OP_REPLY, 96, e.packed() + capability_bytes())
}

pub fn session_reply(endpoints: &Endpoints) -> (r: Result<Vec<u8>, ProtocolError>)
    ensures
        match r {
            Ok(p) => endpoints@.fits() && p@ == reply_bytes(endpoints@),
            Err(e) => !endpoints@.fits() && e == ProtocolError::StationTooLong,
        },
{
    let packed: [u8; 48] = match endpoints.pack() {
        Ok(raw) => raw,
        Err(e) => return Err(e),
    };
    let mut body: Vec<u8> = bytes::copy_of(&packed);
    let name: [u8; 8] = [0x56, 0x49, 0x44, 0x45, 0x4f, 0x41, 0, 0];
    bytes::append_slice(&mut body, &name);
    bytes::push_le(&mut body, 50, 2);
    bytes::push_le(&mut body, 9, 2);
    bytes::push_le(&mut body, 9, 2);
    bytes::push_le(&mut body, 255, 2);
    assert(name@ =~= seq![0x56u8, 0x49u8, 0x44u8, 0x45u8, 0x4fu8, 0x41u8, 0u8, 0u8]);
    assert(body@ =~= endpoints@.packed() + capability_bytes());
    Ok(packet(FAMILY_SESSION, OP_REPLY, 96, &body))
}

/// The endpoints of a capability reply are read back from it, where the ids hold no zero
/// character.
pub proof fn law_reply_round_trip(e: EndpointsView)
    requires
        e.fits(),
        e.door.nul_free(),
        e.room.nul_free(),
    ensures
        parsed_message(reply_bytes(e)) is Ok,
        parsed_message(reply_bytes(e))->Ok_0.family == FAMILY_SESSION,
        parsed_message(reply_bytes(e))->Ok_0.opcode == OP_REPLY,
        parsed_message(reply_bytes(e))->Ok_0.endpoints() == Some(e),
{
    let body = e.packed() + capability_bytes();
    law_endpoints_round_trip(e, Seq::empty());
    law_packet_round_trip(FAMILY_SESSION, OP_REPLY, 96, body);
    assert(body.take(48) =~= e.packed() + Seq::empty());
}

/// The bytes of a Pad's bootstrap reply.
pub open spec fn bootstrap_bytes(room: StationView) -> Seq<u8> {
    packet_bytes(FAMILY_BOOTSTRAP, 2, 898, seq![1u8, 0u8] + room.packed() + bytes::zeros(840))
}

pub fn bootstrap_reply(room: &Station) -> (r: Result<Vec<u8>, ProtocolError>)
    ensures
        match r {
            Ok(p) => room@.fits() && p@ == bootstrap_bytes(room@),
            Err(e) => !room@.fits() && e == ProtocolError::StationTooLong,
        },
{
    let packed: [u8; 24] = match room.pack() {
        Ok(raw) => raw,
        Err(e) => return Err(e),
    };
    let mut body: Vec<u8> = vec![1, 0];
    assert(body@ =~= seq![1u8, 0u8]);
    bytes::append_slice(&mut body, &packed);
    bytes::append_zeros(&mut body, 840);
    Ok(packet(FAMILY_BOOTSTRAP, 2, 898, &body))
}

/// The body of a media packet: the endpoints, five numbers, then the payload.
pub open spec fn media_body(
    e: EndpointsView,
    media_type: u16,
    sequence: u16,
    count: u16,
    index: u16,
    valid: u16,
    payload: Seq<u8>,
) -> Seq<u8> {
    e.packed() + bytes::le_bytes(media_type as nat, 2) + bytes::le_bytes(sequence as nat, 2)
        + bytes::le_bytes(count as nat, 2) + bytes::le_bytes(index as nat, 2) + bytes::le_bytes(
        valid as nat,
        2,
    ) + payload
}

/// Builds the body of a media packet.
fn build_media_body(
    packed: &[u8],
    media_type: u16,
    sequence: u16,
    count: u16,
    index: u16,
    valid: u16,
    Ghost(e): Ghost<EndpointsView>,
) -> (r: Vec<u8>)
    requires
        packed@ == e.packed(),
    ensures
        r@ == media_body(e, media_type, sequence, count, index, valid, Seq::empty()),
{
    let mut body: Vec<u8> = bytes::copy_of(packed);
    bytes::push_le(&mut body, media_type as u64, 2);
    bytes::push_le(&mut body, sequence as u64, 2);
    bytes::push_le(&mut body, count as u64, 2);
    bytes::push_le(&mut body, index as u64, 2);
    bytes::push_le(&mut body, valid as u64, 2);
    assert(body@ =~= media_body(e, media_type, sequence, count, index, valid, Seq::empty()));
    body
}

/// The fragment that a media packet was built from is the fragment that is read from it.
pub proof fn law_media_round_trip(
    family: u16,
    declared: u32,
    e: EndpointsView,
    media_type: u16,
    sequence: u16,
    count: u16,
    index: u16,
    valid: u16,
    payload: Seq<u8>,
)
    requires
        e.fits(),
        valid <= payload.len(),
    ensures
        ({
            let body = media_body(e, media_type, sequence, count, index, valid, payload);
            let m = parsed_message(packet_bytes(family, OP_MEDIA, declared, body));
            &&& m is Ok
            &&& m->Ok_0.media_of(family) == Some(
                (FragmentView {
                    media_type,
                    sequence,
                    fragment_count: count,
                    fragment_index: index,
                    valid_length: valid,
                    data: payload.take(valid as int),
                }),
            )
        }),
{
    let body = media_body(e, media_type, sequence, count, index, valid, payload);
    law_packet_round_trip(family, OP_MEDIA, declared, body);
    bytes::lemma_byte_span();
    bytes::lemma_le_round_trip(media_type as nat, 2);
    bytes::lemma_le_round_trip(sequence as nat, 2);
    bytes::lemma_le_round_trip(count as nat, 2);
    bytes::lemma_le_round_trip(index as nat, 2);
    bytes::lemma_le_round_trip(valid as nat, 2);
    assert(body.subrange(48, 50) =~= bytes::le_bytes(media_type as nat, 2));
    assert(body.subrange(50, 52) =~= bytes::le_bytes(sequence as nat, 2));
    assert(body.subrange(52, 54) =~= bytes::le_bytes(count as nat, 2));
    assert(body.subrange(54, 56) =~= bytes::le_bytes(index as nat, 2));
    assert(body.subrange(56, 58) =~= bytes::le_bytes(valid as nat, 2));
    assert(body.subrange(58, 58 + valid as int) =~= payload.take(valid as int));
}

/// The bytes of a Pad's audio packet.
pub open spec fn audio_bytes(sequence: u16, pcm: Seq<u8>, e: EndpointsView) -> Seq<u8> {
    packet_bytes(
        FAMILY_SESSION,
        OP_MEDIA,
        602,
        media_body(e, MEDIA_AUDIO, sequence, 1, 1, 512, pcm),
    )
}

pub fn audio_packet(sequence: u16, pcm: &[u8], endpoints: &Endpoints) -> (r: Result<
    Vec<u8>,
    ProtocolError,
>)
    ensures
        match r {
            Ok(p) => pcm@.len() == 512 && endpoints@.fits() && p@ == audio_bytes(
                sequence,
                pcm@,
                endpoints@,
            ),
            Err(e) => if pcm@.len() != 512 {
                e == ProtocolError::BadAudioLength
            } else {
                !endpoints@.fits() && e == ProtocolError::StationTooLong
            },
        },
{
    if pcm.len() != 512 {
        return Err(ProtocolError::BadAudioLength);
    }
    let packed: [u8; 48] = match endpoints.pack() {
        Ok(raw) => raw,
        Err(e) => return Err(e),
    };
    let mut body: Vec<u8> = build_media_body(
        &packed,
        MEDIA_AUDIO,
        sequence,
        1,
        1,
        512,
        Ghost(endpoints@),
    );
    bytes::append_slice(&mut body, pcm);
    assert(body@ =~= media_body(endpoints@, MEDIA_AUDIO, sequence, 1, 1, 512, pcm@));
    Ok(packet(FAMILY_SESSION, OP_MEDIA, 602, &body))
}

/// The sequence number and the samples of an audio packet are read back from it.
pub proof fn law_audio_round_trip(sequence: u16, pcm: Seq<u8>, e: EndpointsView)
    requires
        e.fits(),
        pcm.len() == 512,
    ensures
        audio_bytes(sequence, pcm, e).len() == 602,
        parsed_message(audio_bytes(sequence, pcm, e)) is Ok,
        parsed_message(audio_bytes(sequence, pcm, e))->Ok_0.media() == Some(
            (FragmentView {
                media_type: MEDIA_AUDIO,
                sequence,
                fragment_count: 1,
                fragment_index: 1,
                valid_length: 512,
                data: pcm,
            }),
        ),
{
    law_media_round_trip(FAMILY_SESSION, 602, e, MEDIA_AUDIO, sequence, 1, 1, 512, pcm);
    assert(pcm.take(512) =~= pcm);
    bytes::lemma_byte_span();
    bytes::lemma_le_round_trip(MEDIA_AUDIO as nat, 2);
    bytes::lemma_le_round_trip(sequence as nat, 2);
    bytes::lemma_le_round_trip(1, 2);
    bytes::lemma_le_round_trip(512, 2);
    law_packet_round_trip(
        FAMILY_SESSION,
        OP_MEDIA,
        602,
        media_body(e, MEDIA_AUDIO, sequence, 1, 1, 512, pcm),
    );
}

/// How many bytes of a frame one JPEG packet carries.
pub const JPEG_SLOT: usize = 1200;

/// How many packets a JPEG frame of this length takes.
pub open spec fn slot_count(len: nat) -> nat {
    (len + 1199) / 1200
}

/// The part of a frame that its packet number `index`, counted from one, carries.
pub open spec fn slot(frame: Seq<u8>, index: int) -> Seq<u8> {
    frame.subrange(
        (index - 1) * 1200,
        if index * 1200 <= frame.len() {
            index * 1200
        } else {
            frame.len() as int
        },
    )
}

/// The bytes of the packet number `index` of a door's JPEG frame.
pub open spec fn jpeg_bytes(sequence: u16, frame: Seq<u8>, index: int, e: EndpointsView) -> Seq<
    u8,
> {
    let part = slot(frame, index);
    packet_bytes(
        FAMILY_SESSION,
        OP_MEDIA,
        0,
        media_body(
            e,
            MEDIA_JPEG,
            sequence,
            slot_count(frame.len()) as u16,
            index as u16,
            part.len() as u16,
            part + bytes::zeros((1200 - part.len()) as nat),
        ),
    )
}

/// The packets of a door's JPEG frame: 1200 bytes of it in each, the last one padded with zeros.
pub fn jpeg_packets(sequence: u16, frame: &[u8], endpoints: &Endpoints) -> (r: Result<
    Vec<Vec<u8>>,
    ProtocolError,
>)
    requires
        frame@.len() <= 65535 * 1200,
    ensures
        match r {
            Ok(p) => endpoints@.fits() && p@.len() == slot_count(frame@.len()) && forall|i: int|
                0 <= i < p@.len() ==> (#[trigger] p@[i])@ == jpeg_bytes(
                    sequence,
                    frame@,
                    i + 1,
                    endpoints@,
                ),
            Err(e) => !endpoints@.fits() && e == ProtocolError::StationTooLong,
        },
{
    let packed: [u8; 48] = match endpoints.pack() {
        Ok(raw) => raw,
        Err(e) => return Err(e),
    };
    let len: usize = frame.len();
    let count: usize = len / JPEG_SLOT + if len % JPEG_SLOT == 0 {
        0
    } else {
        1
    };
    assert(count == slot_count(frame@.len()));
    let mut out: Vec<Vec<u8>> = Vec::new();
    let mut done: usize = 0;
    while done < count
        invariant
            done <= count == slot_count(frame@.len()),
            len == frame@.len() <= 65535 * 1200,
            endpoints@.fits(),
            packed@ == endpoints@.packed(),
            out@.len() == done,
            forall|i: int|
                0 <= i < done ==> (#[trigger] out@[i])@ == jpeg_bytes(
                    sequence,
                    frame@,
                    i + 1,
                    endpoints@,
                ),
        decreases count - done,
    {
        let start: usize = done * JPEG_SLOT;
        let end: usize = if len - start > JPEG_SLOT {
            start + JPEG_SLOT
        } else {
            len
        };
        let ghost part = slot(frame@, done + 1);
        assert(frame@.subrange(start as int, end as int) =~= part);
        let valid: usize = end - start;
        let mut body: Vec<u8> = build_media_body(
            &packed,
            MEDIA_JPEG,
            sequence,
            count as u16,
            (done + 1) as u16,
            valid as u16,
            Ghost(endpoints@),
        );
        bytes::append_slice(&mut body, &frame[start..end]);
        bytes::append_zeros(&mut body, JPEG_SLOT - valid);
        assert(body@ =~= media_body(
            endpoints@,
            MEDIA_JPEG,
            sequence,
            count as u16,
            (done + 1) as u16,
            valid as u16,
            part + bytes::zeros((1200 - part.len()) as nat),
        ));
        out.push(packet(FAMILY_SESSION, OP_MEDIA, 0, &body));
        done = done + 1;
    }
    Ok(out)
}

/// The bytes of a request with this body, which declares its own length.
pub open spec fn request_bytes(family: u16, body: Seq<u8>) -> Seq<u8> {
    packet_bytes(family, OP_REQUEST, (32 + body.len()) as u32, body)
}

/// A door's paging packet: the burst of these is what rings a Pad.
pub fn page_request() -> (r: Vec<u8>)
    ensures
        r@ == request_bytes(FAMILY_PAGE, seq![0x1eu8, 0u8, 0u8, 0u8]),
        r@.len() == 36,
{
    let body: [u8; 4] = [0x1e, 0, 0, 0];
    assert(body@ =~= seq![0x1eu8, 0u8, 0u8, 0u8]);
    proof {
        law_packet_round_trip(FAMILY_PAGE, OP_REQUEST, 36, body@);
    }
    packet(FAMILY_PAGE, OP_REQUEST, 36, &body)
}

/// A door's bootstrap request: a bare header that declares 20 bytes.
pub fn bootstrap_request() -> (r: Vec<u8>)
    ensures
        r@ == packet_bytes(FAMILY_BOOTSTRAP, OP_REQUEST, 20, Seq::empty()),
{
    let body: [u8; 0] = [];
    assert(body@ =~= Seq::empty());
    packet(FAMILY_BOOTSTRAP, OP_REQUEST, 20, &body)
}

/// A door's session request: the endpoints, then the capability values that it offers. A door
/// sends 174 bytes of them.
pub fn session_request(endpoints: &Endpoints, capabilities: &[u8]) -> (r: Result<
    Vec<u8>,
    ProtocolError,
>)
    requires
        capabilities@.len() <= u32::MAX - 80,
    ensures
        match r {
            Ok(p) => endpoints@.fits() && p@ == request_bytes(
                FAMILY_SESSION,
                endpoints@.packed() + capabilities@,
            ),
            Err(e) => !endpoints@.fits() && e == ProtocolError::StationTooLong,
        },
{
    let packed: [u8; 48] = match endpoints.pack() {
        Ok(raw) => raw,
        Err(e) => return Err(e),
    };
    let mut body: Vec<u8> = bytes::copy_of(&packed);
    bytes::append_slice(&mut body, capabilities);
    Ok(packet(FAMILY_SESSION, OP_REQUEST, 80 + capabilities.len() as u32, &body))
}

/// The endpoints of a session request are read back from it, whatever capabilities follow, where
/// the ids hold no zero character.
pub proof fn law_session_request_round_trip(e: EndpointsView, capabilities: Seq<u8>)
    requires
        e.fits(),
        e.door.nul_free(),
        e.room.nul_free(),
    ensures
        ({
            let m = parsed_message(request_bytes(FAMILY_SESSION, e.packed() + capabilities));
            &&& m is Ok
            &&& m->Ok_0.family == FAMILY_SESSION
            &&& m->Ok_0.opcode == OP_REQUEST
            &&& m->Ok_0.endpoints() == Some(e)
        }),
{
    let body = e.packed() + capabilities;
    law_endpoints_round_trip(e, Seq::empty());
    law_packet_round_trip(FAMILY_SESSION, OP_REQUEST, (32 + body.len()) as u32, body);
    assert(body.take(48) =~= e.packed() + Seq::empty());
}

/// A Pad's request to view a door's camera: the viewer, the door, then the capability values.
pub fn monitor_request(us: &Station, target: &Station, capabilities: &[u8]) -> (r: Result<
    Vec<u8>,
    ProtocolError,
>)
    requires
        capabilities@.len() <= u32::MAX - 80,
    ensures
        match r {
            Ok(p) => us@.fits() && target@.fits() && p@ == request_bytes(
                FAMILY_MONITOR,
                us@.packed() + target@.packed() + capabilities@,
            ),
            Err(e) => !(us@.fits() && target@.fits()) && e == ProtocolError::StationTooLong,
        },
{
    let first: [u8; 24] = match us.pack() {
        Ok(raw) => raw,
        Err(e) => return Err(e),
    };
    let second: [u8; 24] = match target.pack() {
        Ok(raw) => raw,
        Err(e) => return Err(e),
    };
    let mut body: Vec<u8> = bytes::copy_of(&first);
    bytes::append_slice(&mut body, &second);
    bytes::append_slice(&mut body, capabilities);
    Ok(packet(FAMILY_MONITOR, OP_REQUEST, 80 + capabilities.len() as u32, &body))
}

/// A Pad's elevator call with this body.
pub fn elevator_request(body: &[u8]) -> (r: Vec<u8>)
    requires
        body@.len() <= u32::MAX - 32,
    ensures
        r@ == request_bytes(FAMILY_ELEVATOR, body@),
{
    packet(FAMILY_ELEVATOR, OP_REQUEST, 32 + body.len() as u32, body)
}

/// Whether a datagram acknowledges an elevator call.
pub open spec fn acknowledges_elevator(raw: Seq<u8>) -> bool {
    match parsed_message(raw) {
        Ok(m) => m.family == FAMILY_ELEVATOR && m.opcode != OP_REQUEST,
        Err(_) => false,
    }
}

/// Whether a datagram acknowledges an elevator call: any packet of the elevator family that is
/// not itself a request.
pub fn is_elevator_ack(raw: &[u8]) -> (r: bool)
    ensures
        r == acknowledges_elevator(raw@),
{
    match Message::parse(raw) {
        Ok(m) => m.family == FAMILY_ELEVATOR && m.opcode != OP_REQUEST,
        Err(_) => false,
    }
}

/// A tag byte, then an id in UTF-8, padded with zeros to `size` bytes.
pub open spec fn discovery_bytes(tag: u8, id: Seq<char>, size: nat) -> Seq<u8> {
    seq![tag] + utf8::encode_utf8(id) + bytes::zeros(
        (size - 1 - utf8::encode_utf8(id).len()) as nat,
    )
}

/// The id behind a tag byte: what stands before the first zero byte.
pub open spec fn discovery_id(tag: u8, payload: Seq<u8>) -> Option<Seq<char>> {
    if payload.len() > 0 && payload[0] == tag {
        Some(text::lossy(bytes::before_nul(payload.skip(1))))
    } else {
        None
    }
}

fn read_discovery(tag: u8, payload: &[u8]) -> (r: Option<String>)
    ensures
        text::text_view(r) == discovery_id(tag, payload@),
{
    if payload.len() == 0 || payload[0] != tag {
        return None;
    }
    let data = &payload[1..payload.len()];
    let end: usize = bytes::nul_position(data);
    let id = text::lossy_text(&data[0..end]);
    proof {
        assert(data@ =~= payload@.skip(1));
        assert(data@.subrange(0, end as int) =~= data@.take(end as int));
    }
    Some(id)
}

/// The room that a discovery request asks for.
pub fn discovery_request_room(payload: &[u8]) -> (r: Option<String>)
    ensures
        text::text_view(r) == discovery_id(1, payload@),
{
    read_discovery(1, payload)
}

/// The room that answers with a discovery reply.
pub fn discovery_reply_room(payload: &[u8]) -> (r: Option<String>)
    ensures
        text::text_view(r) == discovery_id(2, payload@),
{
    read_discovery(2, payload)
}

/// The 100 bytes that ask which station has the id.
pub fn discovery_request(id: &str) -> (r: Result<[u8; 100], ProtocolError>)
    ensures
        match r {
            Ok(out) => utf8::encode_utf8(id@).len() <= 99 && out@ == discovery_bytes(1, id@, 100),
            Err(e) => utf8::encode_utf8(id@).len() > 99 && e == ProtocolError::StationTooLong,
        },
{
    let raw = id.as_bytes();
    if raw.len() > 99 {
        return Err(ProtocolError::StationTooLong);
    }
    let mut out: [u8; 100] = [0; 100];
    out[0] = 1;
    let mut i: usize = 0;
    while i < raw.len()
        invariant
            i <= raw@.len() <= 99,
            out@[0] == 1,
            forall|j: int| 0 <= j < i ==> #[trigger] out@[1 + j] == raw@[j],
            forall|j: int| i < j < 100 ==> out@[j] == 0,
        decreases raw@.len() - i,
    {
        out[1 + i] = raw[i];
        i = i + 1;
    }
    assert(out@ =~= discovery_bytes(1, id@, 100)) by {
        assert forall|j: int| 0 < j <= raw@.len() implies out@[j] == discovery_bytes(
            1,
            id@,
            100,
        )[j] by {
            assert(out@[1 + (j - 1)] == raw@[j - 1]);
        }
    }
    Ok(out)
}

/// The 35 bytes with which a room answers a request for its id.
pub fn discovery_reply(room_id: &str) -> (r: Result<[u8; 35], ProtocolError>)
    ensures
        match r {
            Ok(out) => utf8::encode_utf8(room_id@).len() <= 34 && out@ == discovery_bytes(
                2,
                room_id@,
                35,
            ),
            Err(e) => utf8::encode_utf8(room_id@).len() > 34 && e == ProtocolError::StationTooLong,
        },
{
    let raw = room_id.as_bytes();
    if raw.len() > 34 {
        return Err(ProtocolError::StationTooLong);
    }
    let mut out: [u8; 35] = [0; 35];
    out[0] = 2;
    let mut i: usize = 0;
    while i < raw.len()
        invariant
            i <= raw@.len() <= 34,
            out@[0] == 2,
            forall|j: int| 0 <= j < i ==> #[trigger] out@[1 + j] == raw@[j],
            forall|j: int| i < j < 35 ==> out@[j] == 0,
        decreases raw@.len() - i,
    {
        out[1 + i] = raw[i];
        i = i + 1;
    }
    assert(out@ =~= discovery_bytes(2, room_id@, 35)) by {
        assert forall|j: int| 0 < j <= raw@.len() implies out@[j] == discovery_bytes(
            2,
            room_id@,
            35,
        )[j] by {
            assert(out@[1 + (j - 1)] == raw@[j - 1]);
        }
    }
    Ok(out)
}

/// A discovery datagram gives back the id that it was built from, where the id fits and holds no
/// zero character, and is not mistaken for one with another tag.
pub proof fn law_discovery_round_trip(tag: u8, id: Seq<char>, size: nat, other: u8)
    requires
        1 + utf8::encode_utf8(id).len() <= size,
        forall|i: int| 0 <= i < id.len() ==> #[trigger] id[i] != '\0',
        other != tag,
    ensures
        discovery_bytes(tag, id, size).len() == size,
        discovery_id(tag, discovery_bytes(tag, id, size)) == Some(id),
        discovery_id(other, discovery_bytes(tag, id, size)) is None,
{
    let raw = discovery_bytes(tag, id, size);
    let data = raw.skip(1);
    let n = utf8::encode_utf8(id).len() as int;
    text::lemma_encoded_has_no_zero(id);
    assert(bytes::nul_at(data, n)) by {
        assert forall|i: int| 0 <= i < n implies #[trigger] data[i] != 0 by {
            assert(utf8::encode_utf8(id)[i] != 0);
        }
    }
    bytes::lemma_before_nul(data, n);
    assert(data.take(n) =~= utf8::encode_utf8(id));
    text::lemma_lossy_encoded(id);
}

/// The length of the packet at the start of `data` as its header gives it: fixed for media and
/// keepalives, else what the header declares.
pub open spec fn logical_length(data: Seq<u8>) -> Option<nat> {
    match parsed_message(data) {
        Err(_) => None,
        Ok(m) => if m.family == FAMILY_SESSION && m.opcode == OP_MEDIA && data.len() >= 90 {
            let media_type = bytes::le_value(data.subrange(80, 82));
            if media_type == MEDIA_JPEG {
                Some(1290)
            } else if media_type == MEDIA_AUDIO {
                Some(602)
            } else {
                None
            }
        } else if m.declared >= 32 {
            Some(m.declared as nat)
        } else if m.family == FAMILY_SESSION && m.opcode == OP_KEEPALIVE {
            Some(80)
        } else {
            None
        },
    }
}

pub fn logical_size(data: &[u8]) -> (r: Option<u32>)
    ensures
        match r {
            Some(n) => logical_length(data@) == Some(n as nat),
            None => logical_length(data@) is None,
        },
{
    let msg = match Message::parse(data) {
        Ok(m) => m,
        Err(_) => return None,
    };
    if msg.family == FAMILY_SESSION && msg.opcode == OP_MEDIA && data.len() >= 90 {
        let media_type: u16 = bytes::read_u16_le(data, 80);
        if media_type == MEDIA_JPEG {
            return Some(1290);
        }
        if media_type == MEDIA_AUDIO {
            return Some(602);
        }
        return None;
    }
    if msg.declared >= 32 {
        return Some(msg.declared);
    }
    if msg.family == FAMILY_SESSION && msg.opcode == OP_KEEPALIVE {
        Some(80)
    } else {
        None
    }
}

/// How much of `data`, which begins with the magic, its first packet takes: its logical length
/// where there is so much, else up to the next magic, else everything.
pub open spec fn piece_length(data: Seq<u8>) -> int {
    match logical_length(data) {
        Some(n) => if n <= data.len() {
            n as int
        } else {
            length_to_next_magic(data)
        },
        None => length_to_next_magic(data),
    }
}

/// How much of `data` stands before the next magic behind its own.
pub open spec fn length_to_next_magic(data: Seq<u8>) -> int {
    match bytes::occurrence(data.skip(8), magic()) {
        Some(at) => at + 8,
        None => data.len() as int,
    }
}

proof fn lemma_piece_length(data: Seq<u8>)
    requires
        bytes::begins(data, magic()),
    ensures
        8 <= piece_length(data) <= data.len(),
{
    bytes::lemma_occurrence(data.skip(8), magic());
}

/// The packets of a datagram that may hold several: what stands before a magic is skipped.
pub open spec fn pieces(payload: Seq<u8>) -> Seq<Seq<u8>>
    decreases payload.len(),
    via pieces_decreases
{
    match bytes::occurrence(payload, magic()) {
        None => Seq::empty(),
        Some(at) => {
            let data = payload.skip(at);
            seq![data.take(piece_length(data))] + pieces(data.skip(piece_length(data)))
        },
    }
}

#[via_fn]
proof fn pieces_decreases(payload: Seq<u8>) {
    bytes::lemma_occurrence(payload, magic());
    if let Some(at) = bytes::occurrence(payload, magic()) {
        lemma_piece_length(payload.skip(at));
    }
}

/// The bytes that the slices hold.
pub open spec fn slices(v: Seq<&[u8]>) -> Seq<Seq<u8>> {
    v.map_values(|s: &[u8]| s@)
}

/// Splits a datagram into its packets.
pub fn split_coalesced<'a>(payload: &'a [u8]) -> (r: Vec<&'a [u8]>)
    ensures
        slices(r@) == pieces(payload@),
{
    let mut out: Vec<&'a [u8]> = Vec::new();
    let mut rest: &'a [u8] = payload;
    assert(MAGIC@ =~= magic());
    loop
        invariant
            MAGIC@ == magic(),
            slices(out@) + pieces(rest@) == pieces(payload@),
        decreases rest@.len(),
    {
        let ghost done = slices(out@);
        let at: usize = match bytes::find(rest, &MAGIC) {
            Some(at) => at,
            None => {
                assert(done + pieces(rest@) =~= done);
                return out;
            },
        };
        let data: &'a [u8] = &rest[at..rest.len()];
        proof {
            bytes::lemma_occurrence(rest@, magic());
            assert(data@ =~= rest@.skip(at as int));
            lemma_piece_length(data@);
        }
        let size: usize = match logical_size(data) {
            Some(n) if n as usize <= data.len() => n as usize,
            _ => {
                let tail: &'a [u8] = &data[8..data.len()];
                assert(tail@ =~= data@.skip(8));
                proof {
                    bytes::lemma_occurrence(tail@, magic());
                }
                match bytes::find(tail, &MAGIC) {
                    Some(p) => p + 8,
                    None => data.len(),
                }
            },
        };
        assert(size == piece_length(data@));
        let piece: &'a [u8] = &data[0..size];
        let next: &'a [u8] = &data[size..data.len()];
        assert(piece@ =~= data@.take(size as int));
        assert(next@ =~= data@.skip(size as int));
        out.push(piece);
        assert(slices(out@) + pieces(next@) =~= done + pieces(rest@)) by {
            assert(slices(out@) =~= done + seq![piece@]);
        }
        rest = next;
    }
}

/// A datagram holds at most one packet for every eight bytes.
pub proof fn lemma_piece_count(payload: Seq<u8>)
    ensures
        pieces(payload).len() * 8 <= payload.len(),
    decreases payload.len(),
{
    bytes::lemma_occurrence(payload, magic());
    if let Some(at) = bytes::occurrence(payload, magic()) {
        let data = payload.skip(at);
        lemma_piece_length(data);
        lemma_piece_count(data.skip(piece_length(data)));
    }
}

/// Whether a packet's header gives its length whatever follows it.
pub open spec fn self_delimiting(p: Seq<u8>) -> bool {
    &&& logical_length(p) == Some(p.len())
    &&& parsed_message(p)->Ok_0.family == FAMILY_SESSION && parsed_message(p)->Ok_0.opcode
        == OP_MEDIA ==> p.len() >= 90
}

/// All of the packets one behind the other.
pub open spec fn joined(packets: Seq<Seq<u8>>) -> Seq<u8>
    decreases packets.len(),
{
    if packets.len() == 0 {
        Seq::empty()
    } else {
        packets[0] + joined(packets.drop_first())
    }
}

/// A datagram that holds several self-delimiting packets is split into exactly these packets.
pub proof fn law_split_inverts_joining(packets: Seq<Seq<u8>>)
    requires
        forall|i: int| 0 <= i < packets.len() ==> self_delimiting(#[trigger] packets[i]),
    ensures
        pieces(joined(packets)) == packets,
    decreases packets.len(),
{
    if packets.len() == 0 {
        assert(!bytes::begins(Seq::<u8>::empty(), magic()));
        assert(pieces(joined(packets)) =~= packets);
    } else {
        let p = packets[0];
        let rest = joined(packets.drop_first());
        let all = p + rest;
        assert(self_delimiting(p));
        assert forall|i: int| 0 <= i < packets.drop_first().len() implies self_delimiting(
            #[trigger] packets.drop_first()[i],
        ) by {
            assert(self_delimiting(packets[i + 1]));
        }
        law_split_inverts_joining(packets.drop_first());
        assert(all.take(8) =~= p.take(8));
        assert(all.subrange(8, 10) =~= p.subrange(8, 10));
        assert(all.subrange(10, 14) =~= p.subrange(10, 14));
        assert(all.subrange(14, 18) =~= p.subrange(14, 18));
        if p.len() >= 90 {
            assert(all.subrange(80, 82) =~= p.subrange(80, 82));
        }
        assert(logical_length(all) == Some(p.len()));
        assert(all.skip(0) =~= all);
        assert(all.take(p.len() as int) =~= p);
        assert(all.skip(p.len() as int) =~= rest);
        assert(seq![p] + packets.drop_first() =~= packets);
    }
}

/// Every packet that is split from a datagram begins with the magic.
pub proof fn law_pieces_begin_with_magic(payload: Seq<u8>)
    ensures
        forall|i: int|
            0 <= i < pieces(payload).len() ==> bytes::begins(#[trigger] pieces(payload)[i], magic()),
    decreases payload.len(),
{
    bytes::lemma_occurrence(payload, magic());
    if let Some(at) = bytes::occurrence(payload, magic()) {
        let data = payload.skip(at);
        lemma_piece_length(data);
        let n = piece_length(data);
        law_pieces_begin_with_magic(data.skip(n));
        assert(data.take(n).take(8) =~= data.take(8));
        assert forall|i: int| 0 <= i < pieces(payload).len() implies bytes::begins(
            #[trigger] pieces(payload)[i],
            magic(),
        ) by {
            if i > 0 {
                assert(pieces(payload)[i] == pieces(data.skip(n))[i - 1]);
            }
        }
    }
}

/// A JPEG frame of which some fragments have arrived.
pub struct PendingFrame {
    sequence: u16,
    count: u16,
    slots: Vec<Option<Vec<u8>>>,
}

/// What has arrived of a JPEG frame: its fragments by their index, counted from one.
pub struct PendingView {
    pub sequence: u16,
    pub count: u16,
    pub parts: Map<int, Seq<u8>>,
}

/// The fragments that a list of slots holds.
pub open spec fn slot_parts(slots: Seq<Option<Vec<u8>>>) -> Map<int, Seq<u8>> {
    Map::new(
        |i: int| 1 <= i <= slots.len() && slots[i - 1] is Some,
        |i: int| slots[i - 1]->0@,
    )
}

impl View for PendingFrame {
    type V = PendingView;

    closed spec fn view(&self) -> PendingView {
        PendingView {
            sequence: self.sequence,
            count: self.count,
            parts: slot_parts(self.slots@),
        }
    }
}

impl PendingView {
    /// Whether every fragment has arrived.
    pub open spec fn complete(self) -> bool {
        forall|i: int| 1 <= i <= self.count ==> #[trigger] self.parts.contains_key(i)
    }
}

/// The fragments up to `n`, one behind the other.
pub open spec fn joined_parts(parts: Map<int, Seq<u8>>, n: nat) -> Seq<u8>
    decreases n,
{
    if n == 0 {
        Seq::empty()
    } else {
        joined_parts(parts, (n - 1) as nat) + parts[n as int]
    }
}

/// Whether the bytes begin and end like a JPEG file.
pub open spec fn is_jpeg(frame: Seq<u8>) -> bool {
    &&& frame.len() >= 2
    &&& frame[0] == 0xff && frame[1] == 0xd8
    &&& frame[frame.len() - 2] == 0xff && frame[frame.len() - 1] == 0xd9
}

impl FragmentView {
    /// Whether this is a fragment of a JPEG frame with an index in range.
    pub open spec fn valid_jpeg(self) -> bool {
        self.media_type == MEDIA_JPEG && 1 <= self.fragment_index <= self.fragment_count
    }
}

/// Where the frame with this sequence number stands; the length where it does not.
pub open spec fn pending_index(frames: Seq<PendingView>, sequence: u16) -> int
    decreases frames.len(),
{
    if frames.len() == 0 || frames[0].sequence == sequence {
        0
    } else {
        1 + pending_index(frames.drop_first(), sequence)
    }
}

/// The fragments of the frame that `f` belongs to once `f` has arrived: a frame that announces
/// another fragment count starts afresh.
pub open spec fn with_fragment(frames: Seq<PendingView>, f: FragmentView) -> PendingView {
    let at = pending_index(frames, f.sequence);
    let known = if at < frames.len() && frames[at].count == f.fragment_count {
        frames[at].parts
    } else {
        Map::empty()
    };
    PendingView {
        sequence: f.sequence,
        count: f.fragment_count,
        parts: known.insert(f.fragment_index as int, f.data),
    }
}

/// How many incomplete frames are kept.
pub const MAX_PENDING_FRAMES: usize = 8;

/// The incomplete frames, oldest first, once `f` has arrived. Where too many are incomplete the
/// oldest is dropped.
pub open spec fn frames_after(frames: Seq<PendingView>, f: FragmentView) -> Seq<PendingView> {
    let at = pending_index(frames, f.sequence);
    let entry = with_fragment(frames, f);
    if !f.valid_jpeg() {
        frames
    } else if at < frames.len() {
        if entry.complete() {
            frames.remove(at)
        } else {
            frames.update(at, entry)
        }
    } else if entry.complete() {
        frames
    } else if frames.len() >= MAX_PENDING_FRAMES {
        frames.push(entry).skip(frames.len() + 1 - MAX_PENDING_FRAMES)
    } else {
        frames.push(entry)
    }
}

/// The frame that the arrival of `f` completes: its fragments in the order of their indices,
/// where they form a JPEG file.
pub open spec fn frame_from(frames: Seq<PendingView>, f: FragmentView) -> Option<Seq<u8>> {
    let entry = with_fragment(frames, f);
    let frame = joined_parts(entry.parts, entry.count as nat);
    if f.valid_jpeg() && entry.complete() && is_jpeg(frame) {
        Some(frame)
    } else {
        None
    }
}

/// Puts JPEG frames together from fragments that may arrive in any order.
pub struct JpegReassembler {
    frames: Vec<PendingFrame>,
}

impl View for JpegReassembler {
    type V = Seq<PendingView>;

    closed spec fn view(&self) -> Seq<PendingView> {
        self.frames@.map_values(|f: PendingFrame| f@)
    }
}

proof fn lemma_pending_index(frames: Seq<PendingView>, sequence: u16)
    ensures
        0 <= pending_index(frames, sequence) <= frames.len(),
        pending_index(frames, sequence) < frames.len() ==> frames[pending_index(
            frames,
            sequence,
        )].sequence == sequence,
        forall|i: int|
            0 <= i < pending_index(frames, sequence) ==> (#[trigger] frames[i]).sequence
                != sequence,
    decreases frames.len(),
{
    if frames.len() > 0 && frames[0].sequence != sequence {
        lemma_pending_index(frames.drop_first(), sequence);
        assert forall|i: int| 0 <= i < pending_index(frames, sequence) implies (
        #[trigger] frames[i]).sequence != sequence by {
            if i > 0 {
                assert(frames.drop_first()[i - 1].sequence != sequence);
            }
        }
    }
}

impl JpegReassembler {
    /// Whether at most eight frames are incomplete, no two of them with one sequence number.
    pub open spec fn wf(&self) -> bool {
        &&& self@.len() <= MAX_PENDING_FRAMES
        &&& forall|i: int, j: int|
            0 <= i < j < self@.len() ==> (#[trigger] self@[i]).sequence != (
            #[trigger] self@[j]).sequence
        &&& self.slots_fit()
    }

    /// Whether no frame has more slots than it announced fragments.
    pub closed spec fn slots_fit(&self) -> bool {
        forall|i: int|
            0 <= i < self.frames@.len() ==> (#[trigger] self.frames@[i]).slots@.len()
                <= self.frames@[i].count
    }

    pub fn new() -> (r: Self)
        ensures
            r.wf(),
            r@ == Seq::<PendingView>::empty(),
    {
        let r = JpegReassembler { frames: Vec::new() };
        assert(r@ =~= Seq::empty());
        r
    }

    fn index_of(&self, sequence: u16) -> (r: usize)
        ensures
            r == pending_index(self@, sequence),
            r <= self.frames@.len() == self@.len(),
    {
        let mut i: usize = 0;
        while i < self.frames.len() && self.frames[i].sequence != sequence
            invariant
                i <= self.frames@.len() == self@.len(),
                forall|j: int| 0 <= j < i ==> (#[trigger] self@[j]).sequence != sequence,
            decreases self.frames@.len() - i,
        {
            assert(self@[i as int] == self.frames@[i as int]@);
            i = i + 1;
        }
        proof {
            lemma_pending_index(self@, sequence);
            if i < self.frames@.len() {
                assert(self@[i as int] == self.frames@[i as int]@);
            }
        }
        i
    }

    /// Takes in a fragment, and hands out the frame that it completes.
    pub fn push(&mut self, fragment: &MediaFragment<'_>) -> (r: Option<Vec<u8>>)
        requires
            old(self).wf(),
        ensures
            final(self).wf(),
            final(self)@ == frames_after(old(self)@, fragment@),
            match r {
                Some(frame) => frame_from(old(self)@, fragment@) == Some(frame@),
                None => frame_from(old(self)@, fragment@) is None,
            },
    {
        if fragment.media_type != MEDIA_JPEG || fragment.fragment_count == 0
            || fragment.fragment_index == 0 || fragment.fragment_index > fragment.fragment_count {
            return None;
        }
        let ghost before = self@;
        let ghost f = fragment@;
        let ghost entry = with_fragment(before, f);
        let at: usize = self.index_of(fragment.sequence);
        proof {
            lemma_pending_index(before, f.sequence);
        }
        let known: bool = at < self.frames.len();
        let mut frame: PendingFrame = if known {
            assert(before[at as int] == self.frames@[at as int]@);
            self.frames.remove(at)
        } else {
            PendingFrame {
                sequence: fragment.sequence,
                count: fragment.fragment_count,
                slots: Vec::new(),
            }
        };
        assert(self@ =~= if known { before.remove(at as int) } else { before });
        if frame.count != fragment.fragment_count {
            frame = PendingFrame {
                sequence: fragment.sequence,
                count: fragment.fragment_count,
                slots: Vec::new(),
            };
        }
        proof {
            if !(known && before[at as int].count == f.fragment_count) {
                assert(slot_parts(frame.slots@) =~= Map::empty());
            }
        }
        frame.insert(fragment.fragment_index, fragment.data);
        assert(frame@ == entry);
        if frame.is_complete() {
            let out = frame.join();
            proof {
                if known {
                    assert(frames_after(before, f) == before.remove(at as int));
                }
                assert forall|i: int, j: int| 0 <= i < j < self@.len() implies (
                #[trigger] self@[i]).sequence != (#[trigger] self@[j]).sequence by {
                    if known {
                        let i2 = if i < at { i } else { i + 1 };
                        let j2 = if j < at { j } else { j + 1 };
                        assert(before[i2].sequence != before[j2].sequence);
                    }
                }
            }
            if begins_and_ends_like_jpeg(&out) {
                Some(out)
            } else {
                None
            }
        } else {
            if known {
                self.frames.insert(at, frame);
                proof {
                    assert(self@ =~= before.update(at as int, entry));
                    assert forall|i: int, j: int| 0 <= i < j < self@.len() implies (
                    #[trigger] self@[i]).sequence != (#[trigger] self@[j]).sequence by {
                        assert(before[i].sequence != before[j].sequence);
                    }
                }
            } else {
                self.frames.push(frame);
                proof {
                    assert(self@ =~= before.push(entry));
                    assert forall|i: int, j: int| 0 <= i < j < self@.len() implies (
                    #[trigger] self@[i]).sequence != (#[trigger] self@[j]).sequence by {
                        if j < before.len() {
                            assert(before[i].sequence != before[j].sequence);
                        } else {
                            assert(before[i].sequence != f.sequence);
                        }
                    }
                }
                self.trim();
            }
            None
        }
    }

    /// Drops the oldest incomplete frames until at most eight are left.
    fn trim(&mut self)
        requires
            old(self).slots_fit(),
            forall|i: int, j: int|
                0 <= i < j < old(self)@.len() ==> (#[trigger] old(self)@[i]).sequence != (
                #[trigger] old(self)@[j]).sequence,
        ensures
            final(self).wf(),
            final(self)@ == (if old(self)@.len() > MAX_PENDING_FRAMES {
                old(self)@.skip(old(self)@.len() - MAX_PENDING_FRAMES)
            } else {
                old(self)@
            }),
    {
        let ghost before = self@;
        assert(before.skip(0) =~= before);
        while self.frames.len() > MAX_PENDING_FRAMES
            invariant
                self.slots_fit(),
                self@ == before.skip(before.len() - self@.len()),
                self.frames@.len() == self@.len() <= before.len(),
                before.len() > MAX_PENDING_FRAMES ==> self@.len() >= MAX_PENDING_FRAMES,
                before.len() <= MAX_PENDING_FRAMES ==> self@ == before,
            decreases self.frames@.len(),
        {
            let ghost now = self@;
            self.frames.remove(0);
            assert(self@ =~= now.skip(1));
        }
        assert forall|i: int, j: int| 0 <= i < j < self@.len() implies (
        #[trigger] self@[i]).sequence != (#[trigger] self@[j]).sequence by {
            let d = before.len() - self@.len();
            assert(before[i + d].sequence != before[j + d].sequence);
        }
    }
}

impl PendingFrame {
    fn insert(&mut self, index: u16, data: &[u8])
        requires
            1 <= index <= old(self).count,
            old(self).slots@.len() <= old(self).count,
        ensures
            final(self)@ == (PendingView {
                sequence: old(self).sequence,
                count: old(self).count,
                parts: slot_parts(old(self).slots@).insert(index as int, data@),
            }),
            final(self).slots@.len() <= final(self).count,
    {
        let ghost start = self.slots@;
        while self.slots.len() < index as usize
            invariant
                start.len() <= self.slots@.len(),
                self.slots@.len() <= self.count,
                1 <= index <= self.count,
                self.sequence == old(self).sequence,
                self.count == old(self).count,
                forall|i: int| 0 <= i < start.len() ==> self.slots@[i] == start[i],
                forall|i: int| start.len() <= i < self.slots@.len() ==> self.slots@[i] is None,
            decreases index - self.slots@.len(),
        {
            self.slots.push(None);
        }
        let at: usize = index as usize - 1;
        self.slots.set(at, Some(bytes::copy_of(data)));
        assert(slot_parts(self.slots@) =~= slot_parts(start).insert(index as int, data@));
    }

    fn is_complete(&self) -> (r: bool)
        requires
            self.slots@.len() <= self.count,
        ensures
            r == self@.complete(),
            r ==> self.slots@.len() == self.count,
    {
        if self.slots.len() != self.count as usize {
            assert(!self@.parts.contains_key(self.count as int));
            return false;
        }
        let mut i: usize = 0;
        while i < self.slots.len()
            invariant
                i <= self.slots@.len() == self.count,
                forall|j: int| 1 <= j <= i ==> #[trigger] self@.parts.contains_key(j),
            decreases self.slots@.len() - i,
        {
            if self.slots[i].is_none() {
                assert(!self@.parts.contains_key(i + 1));
                return false;
            }
            i = i + 1;
        }
        true
    }

    fn join(&self) -> (r: Vec<u8>)
        requires
            self@.complete(),
            self.slots@.len() == self.count,
        ensures
            r@ == joined_parts(self@.parts, self.count as nat),
    {
        let mut out: Vec<u8> = Vec::new();
        let mut i: usize = 0;
        while i < self.slots.len()
            invariant
                i <= self.slots@.len() == self.count,
                self@.complete(),
                out@ == joined_parts(self@.parts, i as nat),
            decreases self.slots@.len() - i,
        {
            assert(self@.parts.contains_key(i + 1));
            if let Some(part) = &self.slots[i] {
                bytes::append_slice(&mut out, part);
            }
            i = i + 1;
        }
        out
    }
}

fn begins_and_ends_like_jpeg(frame: &[u8]) -> (r: bool)
    ensures
        r == is_jpeg(frame@),
{
    let n: usize = frame.len();
    n >= 2 && frame[0] == 0xff && frame[1] == 0xd8 && frame[n - 2] == 0xff && frame[n - 1] == 0xd9
}

impl Default for JpegReassembler {
    fn default() -> (r: Self)
        ensures
            r.wf(),
            r@ == Seq::<PendingView>::empty(),
    {
        JpegReassembler::new()
    }
}

/// The incomplete frames once the fragments have arrived one after the other.
pub open spec fn frames_run(start: Seq<PendingView>, fs: Seq<FragmentView>) -> Seq<PendingView>
    decreases fs.len(),
{
    if fs.len() == 0 {
        start
    } else {
        frames_after(frames_run(start, fs.drop_last()), fs.last())
    }
}

/// Whether these are the fragments of one frame, each once, in any order: `parts` gives the data
/// of each index.
pub open spec fn arrival_of(
    fs: Seq<FragmentView>,
    sequence: u16,
    count: u16,
    parts: Map<int, Seq<u8>>,
) -> bool {
    &&& fs.len() == count
    &&& forall|i: int|
        0 <= i < fs.len() ==> {
            &&& (#[trigger] fs[i]).valid_jpeg()
            &&& fs[i].sequence == sequence
            &&& fs[i].fragment_count == count
            &&& fs[i].data == parts[fs[i].fragment_index as int]
        }
    &&& forall|i: int, j: int|
        0 <= i < j < fs.len() ==> (#[trigger] fs[i]).fragment_index != (
        #[trigger] fs[j]).fragment_index
}

/// The indices of the first `k` fragments.
spec fn arrived(fs: Seq<FragmentView>, k: int) -> Set<int>
    decreases k,
{
    if k <= 0 {
        Set::empty()
    } else {
        arrived(fs, k - 1).insert(fs[k - 1].fragment_index as int)
    }
}

proof fn lemma_arrived(
    fs: Seq<FragmentView>,
    sequence: u16,
    count: u16,
    parts: Map<int, Seq<u8>>,
    k: int,
)
    requires
        arrival_of(fs, sequence, count, parts),
        0 <= k <= fs.len(),
    ensures
        arrived(fs, k).finite(),
        arrived(fs, k).len() == k,
        arrived(fs, k).subset_of(vstd::set_lib::set_int_range(1, count + 1)),
        forall|i: int| 0 <= i < k ==> arrived(fs, k).contains((#[trigger] fs[i]).fragment_index as int),
        forall|x: int|
            arrived(fs, k).contains(x) ==> exists|i: int|
                0 <= i < k && (#[trigger] fs[i]).fragment_index == x,
    decreases k,
{
    if k > 0 {
        lemma_arrived(fs, sequence, count, parts, k - 1);
        let x = fs[k - 1].fragment_index as int;
        assert(fs[k - 1].valid_jpeg());
        if arrived(fs, k - 1).contains(x) {
            let i = choose|i: int| 0 <= i < k - 1 && (#[trigger] fs[i]).fragment_index == x;
            assert(fs[i].fragment_index != fs[k - 1].fragment_index);
        }
        assert forall|y: int| arrived(fs, k).contains(y) implies exists|i: int|
            0 <= i < k && (#[trigger] fs[i]).fragment_index == y by {
            if y == x {
                assert(fs[k - 1].fragment_index == y);
            } else {
                let i = choose|i: int| 0 <= i < k - 1 && (#[trigger] fs[i]).fragment_index == y;
                assert(fs[i].fragment_index == y);
            }
        }
    }
}

proof fn lemma_pending_index_is(frames: Seq<PendingView>, sequence: u16, at: int)
    requires
        0 <= at <= frames.len(),
        at < frames.len() ==> frames[at].sequence == sequence,
        forall|i: int| 0 <= i < at ==> (#[trigger] frames[i]).sequence != sequence,
    ensures
        pending_index(frames, sequence) == at,
{
    lemma_pending_index(frames, sequence);
}

/// What is left of the older incomplete frames once a new incomplete frame has come.
pub open spec fn without_oldest(start: Seq<PendingView>) -> Seq<PendingView> {
    if start.len() >= MAX_PENDING_FRAMES {
        start.skip(start.len() + 1 - MAX_PENDING_FRAMES)
    } else {
        start
    }
}

/// The data of the first `k` fragments by their indices.
spec fn arrived_parts(fs: Seq<FragmentView>, k: int, parts: Map<int, Seq<u8>>) -> Map<
    int,
    Seq<u8>,
> {
    Map::new(|i: int| arrived(fs, k).contains(i), |i: int| parts[i])
}

proof fn lemma_entry_so_far(
    start: Seq<PendingView>,
    fs: Seq<FragmentView>,
    sequence: u16,
    count: u16,
    parts: Map<int, Seq<u8>>,
    k: int,
)
    requires
        arrival_of(fs, sequence, count, parts),
        1 <= k <= count,
        forall|i: int| 0 <= i < start.len() ==> (#[trigger] start[i]).sequence != sequence,
    ensures
        ({
            let before = frames_run(start, fs.take(k - 1));
            let at = pending_index(before, sequence);
            &&& with_fragment(before, fs[k - 1]) == (PendingView {
                sequence,
                count,
                parts: arrived_parts(fs, k, parts),
            })
            &&& k == 1 ==> at == before.len() && before == start
            &&& k > 1 ==> at == without_oldest(start).len() && before == without_oldest(start).push(
                (PendingView { sequence, count, parts: arrived_parts(fs, k - 1, parts) }),
            )
            &&& (PendingView { sequence, count, parts: arrived_parts(fs, k, parts) }).complete()
                <==> k == count
        }),
    decreases k, 0int,
{
    let f = fs[k - 1];
    let before = frames_run(start, fs.take(k - 1));
    let base = without_oldest(start);
    let entry = PendingView { sequence, count, parts: arrived_parts(fs, k, parts) };
    let range = vstd::set_lib::set_int_range(1, count + 1);
    vstd::set_lib::lemma_int_range(1, count + 1);
    lemma_arrived(fs, sequence, count, parts, k);
    assert(f.valid_jpeg());
    if k == 1 {
        assert(fs.take(0) =~= Seq::empty());
        lemma_pending_index_is(before, sequence, before.len() as int);
        assert(Map::<int, Seq<u8>>::empty().insert(f.fragment_index as int, f.data)
            =~= entry.parts) by {
            reveal_with_fuel(arrived, 2);
        }
    } else {
        lemma_frames_run(start, fs, sequence, count, parts, k - 1);
        lemma_pending_index_is(before, sequence, base.len() as int);
        assert(arrived_parts(fs, k - 1, parts).insert(f.fragment_index as int, f.data)
            =~= entry.parts);
    }
    if entry.complete() {
        assert(range.subset_of(arrived(fs, k))) by {
            assert forall|x: int| range.contains(x) implies arrived(fs, k).contains(x) by {
                assert(entry.parts.contains_key(x));
            }
        }
        vstd::set_lib::lemma_len_subset(range, arrived(fs, k));
    }
    if k == count {
        vstd::set_lib::lemma_subset_equality(arrived(fs, k), range);
        assert forall|i: int| 1 <= i <= count implies #[trigger] entry.parts.contains_key(i) by {
            assert(range.contains(i));
        }
    }
}

proof fn lemma_frames_run(
    start: Seq<PendingView>,
    fs: Seq<FragmentView>,
    sequence: u16,
    count: u16,
    parts: Map<int, Seq<u8>>,
    k: int,
)
    requires
        arrival_of(fs, sequence, count, parts),
        1 <= k < count,
        forall|i: int| 0 <= i < start.len() ==> (#[trigger] start[i]).sequence != sequence,
    ensures
        frames_run(start, fs.take(k)) == without_oldest(start).push(
            (PendingView { sequence, count, parts: arrived_parts(fs, k, parts) }),
        ),
    decreases k, 1int,
{
    let f = fs[k - 1];
    let entry = PendingView { sequence, count, parts: arrived_parts(fs, k, parts) };
    assert(fs.take(k).drop_last() =~= fs.take(k - 1));
    assert(fs.take(k).last() == f);
    assert(f.valid_jpeg());
    lemma_entry_so_far(start, fs, sequence, count, parts, k);
    assert(frames_run(start, fs.take(k)) =~= without_oldest(start).push(entry));
}

proof fn lemma_joined_parts_agree(a: Map<int, Seq<u8>>, b: Map<int, Seq<u8>>, n: nat)
    requires
        forall|i: int| 1 <= i <= n ==> #[trigger] a[i] == b[i],
    ensures
        joined_parts(a, n) == joined_parts(b, n),
    decreases n,
{
    if n > 0 {
        lemma_joined_parts_agree(a, b, (n - 1) as nat);
        assert(a[n as int] == b[n as int]);
    }
}

/// Whatever the order in which the fragments of a frame arrive, and whatever other frames are
/// incomplete, the last of them to arrive completes the frame: its parts in the order of their
/// indices. Only the oldest incomplete frame may have been dropped for it.
pub proof fn law_fragments_in_any_order(
    start: Seq<PendingView>,
    fs: Seq<FragmentView>,
    sequence: u16,
    count: u16,
    parts: Map<int, Seq<u8>>,
)
    requires
        arrival_of(fs, sequence, count, parts),
        count >= 1,
        forall|i: int| 0 <= i < start.len() ==> (#[trigger] start[i]).sequence != sequence,
    ensures
        frame_from(frames_run(start, fs.drop_last()), fs.last()) == (if is_jpeg(
            joined_parts(parts, count as nat),
        ) {
            Some(joined_parts(parts, count as nat))
        } else {
            None
        }),
        frames_run(start, fs) == (if count == 1 {
            start
        } else {
            without_oldest(start)
        }),
{
    let k = count as int;
    let f = fs[k - 1];
    assert(fs.take(k - 1) =~= fs.drop_last());
    assert(f.valid_jpeg());
    lemma_entry_so_far(start, fs, sequence, count, parts, k);
    let entry = with_fragment(frames_run(start, fs.drop_last()), f);
    assert(entry.complete());
    assert forall|i: int| 1 <= i <= count implies #[trigger] entry.parts[i] == parts[i] by {
        assert(entry.parts.contains_key(i));
    }
    lemma_joined_parts_agree(entry.parts, parts, count as nat);
    if count > 1 {
        let base = without_oldest(start);
        assert(base.push(
            (PendingView { sequence, count, parts: arrived_parts(fs, k - 1, parts) }),
        ).remove(base.len() as int) =~= base);
    }
}

/// The parts of a frame as its packets carry them.
pub open spec fn slots_of(frame: Seq<u8>) -> Map<int, Seq<u8>> {
    Map::new(|i: int| 1 <= i <= slot_count(frame.len()), |i: int| slot(frame, i))
}

proof fn lemma_joined_slots(frame: Seq<u8>, n: nat)
    requires
        n <= slot_count(frame.len()),
    ensures
        joined_parts(slots_of(frame), n) == frame.take(
            if n * 1200 <= frame.len() {
                (n * 1200) as int
            } else {
                frame.len() as int
            },
        ),
    decreases n,
{
    if n == 0 {
        assert(frame.take(0) =~= Seq::empty());
    } else {
        lemma_joined_slots(frame, (n - 1) as nat);
        let end = if n * 1200 <= frame.len() {
            (n * 1200) as int
        } else {
            frame.len() as int
        };
        assert(slots_of(frame)[n as int] == slot(frame, n as int));
        assert(frame.take((n - 1) * 1200) + slot(frame, n as int) =~= frame.take(end));
    }
}

/// The fragment that is read from the packet number `index` of a frame.
pub open spec fn fragment_of(sequence: u16, frame: Seq<u8>, index: int, e: EndpointsView) -> Option<
    FragmentView,
> {
    match parsed_message(jpeg_bytes(sequence, frame, index, e)) {
        Ok(m) => m.media(),
        Err(_) => None,
    }
}

/// A frame that a door sends as JPEG packets comes out of the reassembler byte for byte, in
/// whatever order the packets arrive.
pub proof fn law_jpeg_round_trip(
    start: Seq<PendingView>,
    sequence: u16,
    frame: Seq<u8>,
    e: EndpointsView,
    order: Seq<int>,
    fs: Seq<FragmentView>,
)
    requires
        e.fits(),
        is_jpeg(frame),
        frame.len() <= 65535 * 1200,
        forall|i: int| 0 <= i < start.len() ==> (#[trigger] start[i]).sequence != sequence,
        order.len() == slot_count(frame.len()),
        forall|i: int| 0 <= i < order.len() ==> 1 <= #[trigger] order[i] <= order.len(),
        forall|i: int, j: int| 0 <= i < j < order.len() ==> #[trigger] order[i] != #[trigger] order[j],
        fs.len() == order.len(),
        forall|i: int|
            0 <= i < fs.len() ==> Some(#[trigger] fs[i]) == fragment_of(
                sequence,
                frame,
                order[i],
                e,
            ),
    ensures
        frame_from(frames_run(start, fs.drop_last()), fs.last()) == Some(frame),
{
    let count = slot_count(frame.len()) as u16;
    let parts = slots_of(frame);
    assert forall|i: int| 0 <= i < fs.len() implies {
        &&& (#[trigger] fs[i]).valid_jpeg()
        &&& fs[i].sequence == sequence
        &&& fs[i].fragment_count == count
        &&& fs[i].data == parts[fs[i].fragment_index as int]
        &&& fs[i].fragment_index == order[i]
    } by {
        let index = order[i];
        let part = slot(frame, index);
        let payload = part + bytes::zeros((1200 - part.len()) as nat);
        law_media_round_trip(
            FAMILY_SESSION,
            0,
            e,
            MEDIA_JPEG,
            sequence,
            count,
            index as u16,
            part.len() as u16,
            payload,
        );
        assert(payload.take(part.len() as int) =~= part);
        assert(parts.contains_key(index));
    }
    assert forall|i: int, j: int| 0 <= i < j < fs.len() implies (
    #[trigger] fs[i]).fragment_index != (#[trigger] fs[j]).fragment_index by {
        assert(order[i] != order[j]);
    }
    law_fragments_in_any_order(start, fs, sequence, count, parts);
    lemma_joined_slots(frame, count as nat);
    assert(frame.take(frame.len() as int) =~= frame);
}

/// What is read from a packet of a door's frame: a session packet of media type 1 between these
/// stations, its place among the packets of the frame, and 1200 bytes of the frame, or what is
/// left of it.
pub proof fn law_jpeg_packet_carries_its_part(sequence: u16, frame: Seq<u8>, index: int, e: EndpointsView)
    requires
        e.fits(),
        e.door.nul_free(),
        e.room.nul_free(),
        frame.len() <= 65535 * 1200,
        1 <= index,
        (index - 1) * 1200 < frame.len(),
    ensures
        ({
            let p = jpeg_bytes(sequence, frame, index, e);
            let m = parsed_message(p);
            let end = if index * 1200 <= frame.len() {
                index * 1200
            } else {
                frame.len() as int
            };
            &&& p.len() == 1290
            &&& m is Ok
            &&& m->Ok_0.family == 0x00b7
            &&& m->Ok_0.opcode == 0x0a
            &&& m->Ok_0.endpoints() == Some(e)
            &&& m->Ok_0.media() is Some
            &&& m->Ok_0.media() == fragment_of(sequence, frame, index, e)
            &&& ({
                let f = m->Ok_0.media()->0;
                &&& f.media_type == 1
                &&& f.sequence == sequence
                &&& f.fragment_index == index
                &&& (f.fragment_count - 1) * 1200 < frame.len() <= f.fragment_count * 1200
                &&& f.valid_length == end - (index - 1) * 1200
                &&& f.data == frame.subrange((index - 1) * 1200, end)
            })
        }),
{
    let part = slot(frame, index);
    let payload = part + bytes::zeros((1200 - part.len()) as nat);
    let count = slot_count(frame.len()) as u16;
    let body = media_body(
        e,
        MEDIA_JPEG,
        sequence,
        count,
        index as u16,
        part.len() as u16,
        payload,
    );
    law_media_round_trip(
        FAMILY_SESSION,
        0,
        e,
        MEDIA_JPEG,
        sequence,
        count,
        index as u16,
        part.len() as u16,
        payload,
    );
    law_packet_round_trip(FAMILY_SESSION, OP_MEDIA, 0, body);
    law_endpoints_round_trip(e, Seq::empty());
    assert(e.packed() + Seq::<u8>::empty() =~= e.packed());
    assert(body.take(48) =~= e.packed());
    assert(payload.take(part.len() as int) =~= part);
    bytes::lemma_byte_span();
    bytes::lemma_le_round_trip(MEDIA_JPEG as nat, 2);
    bytes::lemma_le_round_trip(sequence as nat, 2);
    bytes::lemma_le_round_trip(count as nat, 2);
    bytes::lemma_le_round_trip(index as u16 as nat, 2);
    bytes::lemma_le_round_trip(part.len() as u16 as nat, 2);
    assert(body.take(48) =~= e.packed());
    assert(body.len() == 58 + 1200);
}

/// What is read from an audio packet: a session packet of media type 3 between these stations.
pub proof fn law_audio_packet_names_its_stations(sequence: u16, pcm: Seq<u8>, e: EndpointsView)
    requires
        e.fits(),
        e.door.nul_free(),
        e.room.nul_free(),
        pcm.len() == 512,
    ensures
        ({
            let m = parsed_message(audio_bytes(sequence, pcm, e));
            &&& m is Ok
            &&& m->Ok_0.family == 0x00b7
            &&& m->Ok_0.opcode == 0x0a
            &&& m->Ok_0.endpoints() == Some(e)
            &&& m->Ok_0.media() is Some
            &&& m->Ok_0.media()->0.media_type == 3
            &&& m->Ok_0.media()->0.sequence == sequence
            &&& m->Ok_0.media()->0.data == pcm
        }),
{
    let body = media_body(e, MEDIA_AUDIO, sequence, 1, 1, 512, pcm);
    law_audio_round_trip(sequence, pcm, e);
    law_packet_round_trip(FAMILY_SESSION, OP_MEDIA, 602, body);
    law_endpoints_round_trip(e, Seq::empty());
    assert(e.packed() + Seq::<u8>::empty() =~= e.packed());
    bytes::lemma_byte_span();
    bytes::lemma_le_round_trip(MEDIA_AUDIO as nat, 2);
    bytes::lemma_le_round_trip(sequence as nat, 2);
    bytes::lemma_le_round_trip(1, 2);
    bytes::lemma_le_round_trip(512, 2);
    assert(body.take(48) =~= e.packed());
}

/// Where the numbers of a packet stand on the wire: behind the eight letters of the magic, the
/// family in two bytes, the opcode in four and the declared length in four, each with its low byte
/// first, then fourteen zeros, then the body.
pub proof fn law_packet_layout(family: u16, opcode: u32, declared: u32, body: Seq<u8>)
    ensures
        ({
            let p = packet_bytes(family, opcode, declared, body);
            &&& p.len() == 32 + body.len()
            &&& p.take(8) == seq![0x50u8, 0x45u8, 0x4eu8, 0x47u8, 0x55u8, 0x49u8, 0x4eu8, 0x30u8]
            &&& p[8] + 256 * p[9] == family
            &&& p[10] + 256 * p[11] + 65536 * p[12] + 16777216 * p[13] == opcode
            &&& p[14] + 256 * p[15] + 65536 * p[16] + 16777216 * p[17] == declared
            &&& forall|i: int| 18 <= i < 32 ==> #[trigger] p[i] == 0
            &&& p.skip(32) == body
        }),
{
    let p = packet_bytes(family, opcode, declared, body);
    law_packet_round_trip(family, opcode, declared, body);
    let m = parsed_message(p)->Ok_0;
    assert(m.family == bytes::le_value(p.subrange(8, 10)) as u16);
    bytes::lemma_byte_span();
    bytes::lemma_le_round_trip(family as nat, 2);
    bytes::lemma_le_round_trip(opcode as nat, 4);
    bytes::lemma_le_round_trip(declared as nat, 4);
    let f = bytes::le_bytes(family as nat, 2);
    let o = bytes::le_bytes(opcode as nat, 4);
    let d = bytes::le_bytes(declared as nat, 4);
    lemma_le_two(f);
    lemma_le_four(o);
    lemma_le_four(d);
    assert(p[8] == f[0] && p[9] == f[1]);
    assert(p[10] == o[0] && p[11] == o[1] && p[12] == o[2] && p[13] == o[3]);
    assert(p[14] == d[0] && p[15] == d[1] && p[16] == d[2] && p[17] == d[3]);
    assert(p.take(8) =~= magic());
    assert(p.skip(32) =~= body);
}

proof fn lemma_le_two(s: Seq<u8>)
    requires
        s.len() == 2,
    ensures
        bytes::le_value(s) == s[0] + 256 * s[1],
{
    reveal_with_fuel(bytes::le_value, 3);
}

proof fn lemma_le_four(s: Seq<u8>)
    requires
        s.len() == 4,
    ensures
        bytes::le_value(s) == s[0] + 256 * s[1] + 65536 * s[2] + 16777216 * s[3],
{
    reveal_with_fuel(bytes::le_value, 5);
    assert(s.drop_first().drop_first()[0] == s[2]);
    assert(s.drop_first().drop_first().drop_first()[0] == s[3]);
}

/// Where the parts of a station and of the endpoints stand on the wire: the id from the first byte
/// on, zeros up to byte 20, then the four bytes of the address; the door before the room.
pub proof fn law_station_layout(s: StationView, e: EndpointsView)
    requires
        s.fits(),
        e.fits(),
    ensures
        ({
            let id = utf8::encode_utf8(s.id);
            let p = s.packed();
            &&& p.len() == 24
            &&& p.take(id.len() as int) == id
            &&& forall|i: int| id.len() <= i < 20 ==> #[trigger] p[i] == 0
            &&& p[20] == s.ip.a && p[21] == s.ip.b && p[22] == s.ip.c && p[23] == s.ip.d
            &&& e.packed().len() == 48
            &&& e.packed().take(24) == e.door.packed()
            &&& e.packed().skip(24) == e.room.packed()
        }),
{
    let id = utf8::encode_utf8(s.id);
    assert(s.packed().take(id.len() as int) =~= id);
    assert(e.packed().take(24) =~= e.door.packed());
    assert(e.packed().skip(24) =~= e.room.packed());
}

/// Where the numbers of a media packet stand behind its endpoints: its type, its sequence number,
/// how many fragments there are, which one this is, and how many bytes of it count, two bytes
/// each with the low byte first.
pub proof fn law_media_layout(
    e: EndpointsView,
    media_type: u16,
    sequence: u16,
    count: u16,
    index: u16,
    valid: u16,
    payload: Seq<u8>,
)
    requires
        e.fits(),
    ensures
        ({
            let b = media_body(e, media_type, sequence, count, index, valid, payload);
            &&& b.len() == 58 + payload.len()
            &&& b.take(48) == e.packed()
            &&& b[48] + 256 * b[49] == media_type
            &&& b[50] + 256 * b[51] == sequence
            &&& b[52] + 256 * b[53] == count
            &&& b[54] + 256 * b[55] == index
            &&& b[56] + 256 * b[57] == valid
            &&& b.skip(58) == payload
        }),
{
    let b = media_body(e, media_type, sequence, count, index, valid, payload);
    bytes::lemma_byte_span();
    bytes::lemma_le_round_trip(media_type as nat, 2);
    bytes::lemma_le_round_trip(sequence as nat, 2);
    bytes::lemma_le_round_trip(count as nat, 2);
    bytes::lemma_le_round_trip(index as nat, 2);
    bytes::lemma_le_round_trip(valid as nat, 2);
    lemma_le_two(bytes::le_bytes(media_type as nat, 2));
    lemma_le_two(bytes::le_bytes(sequence as nat, 2));
    lemma_le_two(bytes::le_bytes(count as nat, 2));
    lemma_le_two(bytes::le_bytes(index as nat, 2));
    lemma_le_two(bytes::le_bytes(valid as nat, 2));
    assert(b.take(48) =~= e.packed());
    assert(b.skip(58) =~= payload);
}

/// What is read from any datagram that is long enough and begins with the magic: the family, the
/// opcode and the declared length from where they stand, and everything behind byte 32 as the
/// body. Any other datagram is refused.
pub proof fn law_messages_are_read(raw: Seq<u8>)
    ensures
        raw.len() < 32 ==> parsed_message(raw) == Err::<MessageView, ProtocolError>(
            ProtocolError::Short,
        ),
        raw.len() >= 32 && raw.take(8) != seq![
            0x50u8,
            0x45u8,
            0x4eu8,
            0x47u8,
            0x55u8,
            0x49u8,
            0x4eu8,
            0x30u8,
        ] ==> parsed_message(raw) == Err::<MessageView, ProtocolError>(ProtocolError::BadMagic),
        raw.len() >= 32 && raw.take(8) == seq![
            0x50u8,
            0x45u8,
            0x4eu8,
            0x47u8,
            0x55u8,
            0x49u8,
            0x4eu8,
            0x30u8,
        ] ==> {
            let m = parsed_message(raw)->Ok_0;
            &&& parsed_message(raw) is Ok
            &&& m.family == raw[8] + 256 * raw[9]
            &&& m.opcode == raw[10] + 256 * raw[11] + 65536 * raw[12] + 16777216 * raw[13]
            &&& m.declared == raw[14] + 256 * raw[15] + 65536 * raw[16] + 16777216 * raw[17]
            &&& m.reserved == raw.subrange(18, 32)
            &&& m.body == raw.skip(32)
            &&& m.raw == raw
        },
{
    if raw.len() >= 32 {
        let magic_bytes = seq![0x50u8, 0x45u8, 0x4eu8, 0x47u8, 0x55u8, 0x49u8, 0x4eu8, 0x30u8];
        if bytes::begins(raw, magic()) {
            assert(raw.take(8) =~= magic_bytes);
        }
        if raw.take(8) == magic_bytes {
            assert forall|i: int| 0 <= i < 8 implies raw[i] == magic()[i] by {
                assert(raw.take(8)[i] == magic_bytes[i]);
            }
            assert(bytes::begins(raw, magic()));
        }
        lemma_le_two(raw.subrange(8, 10));
        lemma_le_four(raw.subrange(10, 14));
        lemma_le_four(raw.subrange(14, 18));
    }
}

/// What is read from the body of a packet: a session packet of at least 48 bytes names the door in
/// the first 24 of them and the room in the next; a media packet carries a fragment behind them,
/// where as many bytes follow as it announces.
pub proof fn law_bodies_are_read(m: MessageView, family: u16)
    ensures
        m.family == 0x00b7 && m.body.len() >= 48 ==> m.endpoints() == Some(
            EndpointsView {
                door: parsed_station(m.body.subrange(0, 24)),
                room: parsed_station(m.body.subrange(24, 48)),
            },
        ),
        m.family != 0x00b7 || m.body.len() < 48 ==> m.endpoints() is None,
        m.media() == m.media_of(0x00b7),
        m.family == family && m.opcode == 0x0a && m.body.len() >= 58 && m.body[56] + 256
            * m.body[57] <= m.body.len() - 58 ==> {
            let f = m.media_of(family)->0;
            &&& m.media_of(family) is Some
            &&& f.media_type == m.body[48] + 256 * m.body[49]
            &&& f.sequence == m.body[50] + 256 * m.body[51]
            &&& f.fragment_count == m.body[52] + 256 * m.body[53]
            &&& f.fragment_index == m.body[54] + 256 * m.body[55]
            &&& f.valid_length == m.body[56] + 256 * m.body[57]
            &&& f.data == m.body.subrange(58, 58 + f.valid_length)
        },
        m.family != family || m.opcode != 0x0a || m.body.len() < 58 || m.body[56] + 256
            * m.body[57] > m.body.len() - 58 ==> m.media_of(family) is None,
{
    if m.body.len() >= 48 {
        assert(m.body.take(48).take(24) =~= m.body.subrange(0, 24));
        assert(m.body.take(48).subrange(24, 48) =~= m.body.subrange(24, 48));
    }
    if m.body.len() >= 58 {
        lemma_le_two(m.body.subrange(48, 50));
        lemma_le_two(m.body.subrange(50, 52));
        lemma_le_two(m.body.subrange(52, 54));
        lemma_le_two(m.body.subrange(54, 56));
        lemma_le_two(m.body.subrange(56, 58));
    }
}

/// The packets of fixed form, as they are read. A control packet bears nothing but the stations; a
/// reply adds the capabilities of the Pad; a bootstrap answer names the own station in a body of
/// 866 bytes; a request bears its length; sound declares 602 bytes and a frame none.
pub proof fn law_packets_of_fixed_form(
    opcode: u32,
    e: EndpointsView,
    room: StationView,
    family: u16,
    body: Seq<u8>,
)
    requires
        room.fits(),
        body.len() <= 0xffff,
    ensures
        control_bytes(opcode, e) == packet_bytes(0x00b7, opcode, 80, e.packed()),
        reply_bytes(e) == packet_bytes(
            0x00b7,
            0x03,
            96,
            e.packed() + seq![
                0x56u8,
                0x49u8,
                0x44u8,
                0x45u8,
                0x4fu8,
                0x41u8,
                0u8,
                0u8,
                50u8,
                0u8,
                9u8,
                0u8,
                9u8,
                0u8,
                255u8,
                0u8,
            ],
        ),
        request_bytes(family, body) == packet_bytes(family, 0x01, (32 + body.len()) as u32, body),
        ({
            let b = parsed_message(bootstrap_bytes(room))->Ok_0;
            &&& parsed_message(bootstrap_bytes(room)) is Ok
            &&& b.family == 0x0098
            &&& b.opcode == 2
            &&& b.declared == 898
            &&& bootstrap_bytes(room).len() == 898
            &&& b.body[0] == 1 && b.body[1] == 0
            &&& b.body.subrange(2, 26) == room.packed()
            &&& forall|i: int| 26 <= i < 866 ==> #[trigger] b.body[i] == 0
        }),
{
    let capability = seq![
        0x56u8,
        0x49u8,
        0x44u8,
        0x45u8,
        0x4fu8,
        0x41u8,
        0u8,
        0u8,
        50u8,
        0u8,
        9u8,
        0u8,
        9u8,
        0u8,
        255u8,
        0u8,
    ];
    lemma_small_pair(50);
    lemma_small_pair(9);
    lemma_small_pair(255);
    assert(capability_bytes() =~= capability);
    let content = seq![1u8, 0u8] + room.packed() + bytes::zeros(840);
    law_station_layout(room, EndpointsView { door: room, room });
    law_packet_round_trip(0x0098, 2, 898, content);
    assert(content.subrange(2, 26) =~= room.packed());
}

proof fn lemma_small_pair(v: nat)
    requires
        v < 256,
    ensures
        bytes::le_bytes(v, 2) == seq![v as u8, 0u8],
{
    let s = seq![v as u8, 0u8];
    bytes::law_little_endian(s, 0);
    assert(bytes::le_value(s) == v);
}

/// How long a packet is. One of media is as long as its kind says: a frame's part 1290 bytes,
/// sound 602. Another is as long as it declares, where that is 32 or more; a keepalive that
/// declares nothing is 80 bytes long. The length of all others is not known.
pub proof fn law_packet_lengths(data: Seq<u8>)
    ensures
        parsed_message(data) is Err ==> logical_length(data) is None,
        parsed_message(data) is Ok ==> {
            let m = parsed_message(data)->Ok_0;
            let media = m.family == 0x00b7 && m.opcode == 0x0a && data.len() >= 90;
            let kind = data[80] + 256 * data[81];
            &&& media && kind == 1 ==> logical_length(data) == Some(1290nat)
            &&& media && kind == 3 ==> logical_length(data) == Some(602nat)
            &&& media && kind != 1 && kind != 3 ==> logical_length(data) is None
            &&& !media && m.declared >= 32 ==> logical_length(data) == Some(m.declared as nat)
            &&& !media && m.declared < 32 && m.family == 0x00b7 && m.opcode == 0x0c
                ==> logical_length(data) == Some(80nat)
            &&& !media && m.declared < 32 && !(m.family == 0x00b7 && m.opcode == 0x0c)
                ==> logical_length(data) is None
        },
{
    if data.len() >= 90 {
        lemma_le_two(data.subrange(80, 82));
    }
}

/// How a datagram is cut. What stands in front of the first magic is passed over. A packet is as
/// long as its own length says where all of it is there; else it runs to the next magic, or to the
/// end. The rest is cut in the same way.
pub proof fn law_datagrams_are_cut(noise: Seq<u8>, packet: Seq<u8>, rest: Seq<u8>)
    requires
        bytes::occurrence(noise + packet + rest, magic()) == Some(noise.len() as int),
        packet.len() >= 8,
    ensures
        ({
            let data = packet + rest;
            let length = logical_length(data);
            let next = bytes::occurrence(data.skip(8), magic());
            &&& length == Some(packet.len()) ==> pieces(noise + packet + rest) == seq![packet]
                + pieces(rest)
            &&& (length is None || length->0 > data.len()) && next == Some(packet.len() - 8)
                ==> pieces(noise + packet + rest) == seq![packet] + pieces(rest)
            &&& (length is None || length->0 > data.len()) && next is None && rest.len() == 0
                ==> pieces(noise + packet + rest) == seq![packet]
        }),
        bytes::occurrence(noise, magic()) is None ==> pieces(noise) == Seq::<Seq<u8>>::empty(),
        magic() == seq![0x50u8, 0x45u8, 0x4eu8, 0x47u8, 0x55u8, 0x49u8, 0x4eu8, 0x30u8],
{
    let all = noise + packet + rest;
    let data = packet + rest;
    assert(all.skip(noise.len() as int) =~= data);
    if piece_length(data) == packet.len() {
        assert(data.take(packet.len() as int) =~= packet);
        assert(data.skip(packet.len() as int) =~= rest);
        assert(pieces(all) == seq![packet] + pieces(rest));
        if rest.len() == 0 {
            bytes::lemma_occurrence(rest, magic());
            assert(pieces(rest) =~= Seq::<Seq<u8>>::empty());
            assert(seq![packet] + pieces(rest) =~= seq![packet]);
        }
    }
}

/// What a fragment does to the frames that are under way. It counts only as a part of a picture,
/// numbered from one to their count. It joins the other parts of its frame, in place of one with
/// its number; where the frame was announced with another count, it starts it anew. A frame that
/// is complete is under way no longer, and of more than eight the oldest is given up.
pub proof fn law_fragments_join_their_frame(frames: Seq<PendingView>, f: FragmentView, at: int)
    requires
        0 <= at <= frames.len(),
        at < frames.len() ==> frames[at].sequence == f.sequence,
        forall|i: int| 0 <= i < at ==> (#[trigger] frames[i]).sequence != f.sequence,
    ensures
        ({
            let counts = f.media_type == 1 && 1 <= f.fragment_index && f.fragment_index
                <= f.fragment_count;
            let known = at < frames.len();
            let same = known && frames[at].count == f.fragment_count;
            let entry = with_fragment(frames, f);
            let after = frames_after(frames, f);
            let whole = forall|i: int|
                1 <= i <= f.fragment_count ==> #[trigger] entry.parts.contains_key(i);
            &&& entry.sequence == f.sequence
            &&& entry.count == f.fragment_count
            &&& same ==> entry.parts == frames[at].parts.insert(f.fragment_index as int, f.data)
            &&& !same ==> entry.parts == Map::<int, Seq<u8>>::empty().insert(
                f.fragment_index as int,
                f.data,
            )
            &&& !counts ==> after == frames && frame_from(frames, f) is None
            &&& counts && known && whole ==> after == frames.remove(at)
            &&& counts && known && !whole ==> after == frames.update(at, entry)
            &&& counts && !known && whole ==> after == frames
            &&& counts && !known && !whole && frames.len() < 8 ==> after == frames.push(entry)
            &&& counts && !known && !whole && frames.len() == 8 ==> after
                == frames.drop_first().push(entry)
            &&& !whole ==> frame_from(frames, f) is None
            &&& frame_from(frames, f) matches Some(frame) ==> {
                &&& frame == joined_parts(entry.parts, f.fragment_count as nat)
                &&& frame.len() >= 2
                &&& frame[0] == 0xff && frame[1] == 0xd8
                &&& frame[frame.len() - 2] == 0xff && frame[frame.len() - 1] == 0xd9
            }
        }),
{
    lemma_pending_index_is(frames, f.sequence, at);
    if frames.len() == 8 {
        let entry = with_fragment(frames, f);
        assert(frames.push(entry).skip(1) =~= frames.drop_first().push(entry));
    }
}

/// The parts of a frame stand one behind the other from the first on.
pub proof fn law_parts_are_joined_in_order(parts: Map<int, Seq<u8>>, n: nat)
    ensures
        joined_parts(parts, 0) == Seq::<u8>::empty(),
        joined_parts(parts, n + 1) == joined_parts(parts, n) + parts[n as int + 1],
{
}

/// The elevator answers with a packet of its family that is no request.
pub proof fn law_elevator_acknowledges(raw: Seq<u8>)
    ensures
        acknowledges_elevator(raw) <==> parsed_message(raw) is Ok && parsed_message(raw)->Ok_0.family
            == 0x0106 && parsed_message(raw)->Ok_0.opcode != 0x01,
{
}

/// A datagram of the discovery exchange is its byte, the id, and zeros; it is read up to its first
/// zero.
pub proof fn law_discovery_layout(tag: u8, id: Seq<char>, size: nat, payload: Seq<u8>)
    requires
        1 + utf8::encode_utf8(id).len() <= size,
    ensures
        ({
            let d = discovery_bytes(tag, id, size);
            let raw = utf8::encode_utf8(id);
            &&& d.len() == size
            &&& d[0] == tag
            &&& d.subrange(1, 1 + raw.len() as int) == raw
            &&& forall|i: int| 1 + raw.len() <= i < size ==> #[trigger] d[i] == 0
        }),
        discovery_id(tag, payload) is Some <==> payload.len() > 0 && payload[0] == tag,
        discovery_id(tag, payload) is Some ==> discovery_id(tag, payload) == Some(
            text::lossy(bytes::before_nul(payload.skip(1))),
        ),
{
    let d = discovery_bytes(tag, id, size);
    let raw = utf8::encode_utf8(id);
    assert(d.subrange(1, 1 + raw.len() as int) =~= raw);
}

} // verus!
