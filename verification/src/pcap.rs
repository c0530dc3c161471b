//! Classic pcap files: the UDP datagrams of a capture.

use vstd::prelude::*;
use crate::bytes;
use crate::ethernet;
use crate::net;
use crate::net::Ipv4Addr;

verus! {

#[derive(Clone, Copy, Debug, PartialEq, Eq, Structural)]
pub enum PcapError {
    Format,
}

/// A UDP datagram of a capture, with the time since the first frame of the capture.
#[derive(Debug)]
pub struct UdpRecord {
    pub frame: u32,
    pub timestamp_micros: u64,
    pub source_ip: Ipv4Addr,
    pub destination_ip: Ipv4Addr,
    pub source_port: u16,
    pub destination_port: u16,
    pub payload: Vec<u8>,
}

/// What a datagram of a capture holds.
pub struct RecordView {
    pub frame: u32,
    pub timestamp_micros: u64,
    pub source_ip: Ipv4Addr,
    pub destination_ip: Ipv4Addr,
    pub source_port: u16,
    pub destination_port: u16,
    pub payload: Seq<u8>,
}

impl View for UdpRecord {
    type V = RecordView;

    open spec fn view(&self) -> RecordView {
        RecordView {
            frame: self.frame,
            timestamp_micros: self.timestamp_micros,
            source_ip: self.source_ip,
            destination_ip: self.destination_ip,
            source_port: self.source_port,
            destination_port: self.destination_port,
            payload: self.payload@,
        }
    }
}

impl Clone for UdpRecord {
    fn clone(&self) -> (r: Self)
        ensures
            r@ == self@,
    {
        UdpRecord {
            frame: self.frame,
            timestamp_micros: self.timestamp_micros,
            source_ip: self.source_ip,
            destination_ip: self.destination_ip,
            source_port: self.source_port,
            destination_port: self.destination_port,
            payload: bytes::copy_of(&self.payload),
        }
    }
}

/// What the records hold.
pub open spec fn record_views(v: Seq<UdpRecord>) -> Seq<RecordView> {
    v.map_values(|r: UdpRecord| r@)
}

/// The datagram in a captured frame. The frame may have been cut short behind the UDP header.
pub open spec fn decoded_udp(frame: u32, raw: Seq<u8>, timestamp_micros: u64) -> Option<
    RecordView,
> {
    match ethernet::ipv4_start(raw, 12) {
        None => None,
        Some(at) => {
            let ip = raw.skip(at);
            let ihl = ethernet::header_length(ip[0]);
            let udp = ip.skip(ihl);
            let length = bytes::be_value(udp.subrange(4, 6));
            if ip.len() < 20 || ihl < 20 || ip.len() < ihl + 8 || ip[9] != 17 || length < 8 {
                None
            } else {
                Some(
                    RecordView {
                        frame,
                        timestamp_micros,
                        source_ip: net::ipv4_of(ip.subrange(12, 16)),
                        destination_ip: net::ipv4_of(ip.subrange(16, 20)),
                        source_port: bytes::be_value(udp.take(2)) as u16,
                        destination_port: bytes::be_value(udp.subrange(2, 4)) as u16,
                        payload: udp.subrange(
                            8,
                            if udp.len() < length {
                                udp.len() as int
                            } else {
                                length as int
                            },
                        ),
                    },
                )
            }
        },
    }
}

fn decode_udp(frame: u32, raw: &[u8], timestamp_micros: u64) -> (r: Option<UdpRecord>)
    ensures
        match r {
            Some(record) => decoded_udp(frame, raw@, timestamp_micros) == Some(record@),
            None => decoded_udp(frame, raw@, timestamp_micros) is None,
        },
{
    let at: usize = match ethernet::find_ipv4(raw) {
        Some(at) => at,
        None => return None,
    };
    let ip = &raw[at..raw.len()];
    assert(ip@ =~= raw@.skip(at as int));
    if ip.len() < 20 {
        return None;
    }
    let ihl: usize = (ip[0] % 16) as usize * 4;
    if ihl < 20 || ip.len() < ihl + 8 || ip[9] != 17 {
        return None;
    }
    let udp = &ip[ihl..ip.len()];
    assert(udp@ =~= ip@.skip(ihl as int));
    let length: usize = bytes::read_u16_be(udp, 4) as usize;
    if length < 8 {
        return None;
    }
    let end: usize = if udp.len() < length {
        udp.len()
    } else {
        length
    };
    assert(udp@.subrange(0, 2) =~= udp@.take(2));
    Some(
        UdpRecord {
            frame,
            timestamp_micros,
            source_ip: Ipv4Addr::new(ip[12], ip[13], ip[14], ip[15]),
            destination_ip: Ipv4Addr::new(ip[16], ip[17], ip[18], ip[19]),
            source_port: bytes::read_u16_be(udp, 0),
            destination_port: bytes::read_u16_be(udp, 2),
            payload: bytes::copy_of(&udp[8..end]),
        },
    )
}

/// How the numbers of a capture are written: the byte order, and the nanoseconds in one unit of
/// the fraction field.
#[derive(Clone, Copy, Debug, PartialEq, Eq, Structural)]
pub struct Layout {
    pub little: bool,
    pub unit: u64,
}

/// The layout that the first four bytes of a capture announce.
pub open spec fn layout_of(data: Seq<u8>) -> Option<Layout> {
    let m = data.take(4);
    if data.len() < 24 {
        None
    } else if m == seq![0xd4u8, 0xc3u8, 0xb2u8, 0xa1u8] {
        Some(Layout { little: true, unit: 1_000 })
    } else if m == seq![0xa1u8, 0xb2u8, 0xc3u8, 0xd4u8] {
        Some(Layout { little: false, unit: 1_000 })
    } else if m == seq![0x4du8, 0x3cu8, 0xb2u8, 0xa1u8] {
        Some(Layout { little: true, unit: 1 })
    } else if m == seq![0xa1u8, 0xb2u8, 0x3cu8, 0x4du8] {
        Some(Layout { little: false, unit: 1 })
    } else {
        None
    }
}

/// A number of four bytes in the byte order of the capture.
pub open spec fn field(data: Seq<u8>, at: int, layout: Layout) -> nat {
    if layout.little {
        bytes::le_value(data.subrange(at, at + 4))
    } else {
        bytes::be_value(data.subrange(at, at + 4))
    }
}

fn read_field(data: &[u8], at: usize, layout: Layout) -> (r: u32)
    requires
        at + 4 <= data@.len(),
    ensures
        r == field(data@, at as int, layout),
{
    if layout.little {
        bytes::read_u32_le(data, at)
    } else {
        bytes::read_u32_be(data, at)
    }
}

/// The time of a record in nanoseconds.
pub open spec fn record_nanos(data: Seq<u8>, layout: Layout) -> nat {
    field(data, 0, layout) * 1_000_000_000 + field(data, 4, layout) * layout.unit as nat
}

/// The number of the frame behind frame `n`, modulo 2^32.
pub open spec fn next_frame(n: u32) -> u32 {
    if n == u32::MAX {
        0
    } else {
        (n + 1) as u32
    }
}

/// The microseconds from `base` to `nanos`, where the difference is taken modulo 2^64
/// nanoseconds.
pub open spec fn micros_since(base: nat, nanos: nat) -> u64 {
    ((nanos - base) % 0x1_0000_0000_0000_0000 / 1_000) as u64
}

/// The datagrams in the records of `data`, which follow frame `frame` of a capture whose first
/// frame was taken at `first`; `None` where a record is cut short. What remains behind the last
/// whole record header is ignored.
pub open spec fn records_in(
    data: Seq<u8>,
    layout: Layout,
    frame: u32,
    first: Option<nat>,
) -> Option<Seq<RecordView>>
    decreases data.len(),
{
    let captured = field(data, 8, layout);
    if data.len() < 16 {
        Some(Seq::empty())
    } else if data.len() - 16 < captured {
        None
    } else {
        let nanos = record_nanos(data, layout);
        let base = match first {
            Some(base) => base,
            None => nanos,
        };
        let number = next_frame(frame);
        let rest = records_in(data.skip(16 + captured as int), layout, number, Some(base));
        match rest {
            None => None,
            Some(rest) => match decoded_udp(
                number,
                data.subrange(16, 16 + captured as int),
                micros_since(base, nanos),
            ) {
                Some(record) => Some(seq![record] + rest),
                None => Some(rest),
            },
        }
    }
}

/// The datagrams of a capture file; `None` where it is no classic pcap or is cut short.
pub open spec fn captured_records(data: Seq<u8>) -> Option<Seq<RecordView>> {
    match layout_of(data) {
        Some(layout) => records_in(data.skip(24), layout, 0, None),
        None => None,
    }
}

fn read_layout(data: &[u8]) -> (r: Option<Layout>)
    ensures
        r == layout_of(data@),
{
    if data.len() < 24 {
        return None;
    }
    let ghost m = data@.take(4);
    let (a, b, c, d) = (data[0], data[1], data[2], data[3]);
    assert(m =~= seq![a, b, c, d]);
    if a == 0xd4 && b == 0xc3 && c == 0xb2 && d == 0xa1 {
        Some(Layout { little: true, unit: 1_000 })
    } else if a == 0xa1 && b == 0xb2 && c == 0xc3 && d == 0xd4 {
        assert(m[0] != 0xd4);
        Some(Layout { little: false, unit: 1_000 })
    } else if a == 0x4d && b == 0x3c && c == 0xb2 && d == 0xa1 {
        assert(m[0] != 0xd4 && m[0] != 0xa1);
        Some(Layout { little: true, unit: 1 })
    } else if a == 0xa1 && b == 0xb2 && c == 0x3c && d == 0x4d {
        assert(m[0] != 0xd4 && m[0] != 0x4d && m[2] != 0xc3);
        Some(Layout { little: false, unit: 1 })
    } else {
        assert(m[0] == a && m[1] == b && m[2] == c && m[3] == d);
        None
    }
}

/// An optional number without a bound.
pub open spec fn wide(n: Option<u64>) -> Option<nat> {
    match n {
        Some(v) => Some(v as nat),
        None => None,
    }
}

/// What reading one record gives: its datagram, where the next record starts, and the time of
/// the first frame of the capture.
struct ReadRecord {
    record: Option<UdpRecord>,
    next: usize,
    base: u64,
}

/// Reads the record at the start of `data`; `None` where it is cut short.
fn read_record(data: &[u8], layout: Layout, number: u32, first: Option<u64>) -> (r: Option<
    ReadRecord,
>)
    requires
        data@.len() >= 16,
        layout.unit == 1 || layout.unit == 1_000,
    ensures
        match r {
            None => data@.len() - 16 < field(data@, 8, layout),
            Some(read) => {
                &&& read.next == 16 + field(data@, 8, layout)
                &&& read.next <= data@.len()
                &&& read.base == (match first {
                    Some(base) => base as nat,
                    None => record_nanos(data@, layout),
                })
                &&& match read.record {
                    Some(record) => decoded_udp(
                        number,
                        data@.subrange(16, read.next as int),
                        micros_since(read.base as nat, record_nanos(data@, layout)),
                    ) == Some(record@),
                    None => decoded_udp(
                        number,
                        data@.subrange(16, read.next as int),
                        micros_since(read.base as nat, record_nanos(data@, layout)),
                    ) is None,
                }
            },
        },
{
    let seconds: u64 = read_field(data, 0, layout) as u64;
    let fraction: u64 = read_field(data, 4, layout) as u64;
    let captured: usize = read_field(data, 8, layout) as usize;
    if data.len() - 16 < captured {
        return None;
    }
    assert(fraction * layout.unit <= 0xffff_ffff * 1_000) by (nonlinear_arith)
        requires
            fraction <= 0xffff_ffff,
            layout.unit <= 1_000,
    ;
    let nanos: u64 = seconds * 1_000_000_000 + fraction * layout.unit;
    let base: u64 = match first {
        Some(base) => base,
        None => nanos,
    };
    let micros: u64 = nanos.wrapping_sub(base) / 1_000;
    assert(micros == micros_since(base as nat, nanos as nat));
    let record = decode_udp(number, &data[16..16 + captured], micros);
    Some(ReadRecord { record, next: 16 + captured, base })
}

/// The records read so far, followed by what is still to be read.
spec fn resumed(done: Seq<RecordView>, more: Option<Seq<RecordView>>) -> Option<Seq<RecordView>> {
    match more {
        Some(more) => Some(done + more),
        None => None,
    }
}

/// Reads the UDP datagrams out of the bytes of a capture file.
pub fn read_udp(data: &[u8]) -> (r: Result<Vec<UdpRecord>, PcapError>)
    ensures
        match r {
            Ok(records) => captured_records(data@) == Some(record_views(records@)),
            Err(e) => captured_records(data@) is None && e == PcapError::Format,
        },
{
    let layout = match read_layout(data) {
        Some(layout) => layout,
        None => return Err(PcapError::Format),
    };
    let mut first: Option<u64> = None;
    let mut frame: u32 = 0;
    let mut records: Vec<UdpRecord> = Vec::new();
    let mut rest: &[u8] = &data[24..data.len()];
    assert(rest@ =~= data@.skip(24));
    proof {
        assert(record_views(records@) =~= Seq::empty());
        let all = records_in(rest@, layout, frame, None);
        if all is Some {
            assert(record_views(records@) + all->0 =~= all->0);
        }
    }
    while rest.len() >= 16
        invariant
            layout.unit == 1 || layout.unit == 1_000,
            captured_records(data@) == resumed(
                record_views(records@),
                records_in(rest@, layout, frame, wide(first)),
            ),
        decreases rest@.len(),
    {
        let ghost before = record_views(records@);
        let number: u32 = if frame == u32::MAX {
            0
        } else {
            frame + 1
        };
        let read = match read_record(rest, layout, number, first) {
            Some(read) => read,
            None => return Err(PcapError::Format),
        };
        let next = &rest[read.next..rest.len()];
        assert(next@ =~= rest@.skip(read.next as int));
        let ghost more = records_in(next@, layout, number, Some(read.base as nat));
        match read.record {
            Some(record) => {
                let ghost view = record@;
                records.push(record);
                proof {
                    assert(record_views(records@) =~= before.push(view));
                    if more is Some {
                        assert(before + (seq![view] + more->0) =~= record_views(records@)
                            + more->0);
                    }
                }
            },
            None => {},
        }
        frame = number;
        first = Some(read.base);
        rest = next;
    }
    assert(record_views(records@) + Seq::<RecordView>::empty() =~= record_views(records@));
    Ok(records)
}

/// A frame that a bridge hands over reads the same out of a capture: wherever the bridge finds a
/// datagram in it, the capture gives the same addresses, ports and payload.
pub proof fn law_capture_agrees_with_bridge(frame: u32, raw: Seq<u8>, timestamp_micros: u64)
    requires
        ethernet::parsed_udp(raw) is Some,
    ensures
        ({
            let d = ethernet::parsed_udp(raw)->0;
            decoded_udp(frame, raw, timestamp_micros) == Some(
                (RecordView {
                    frame,
                    timestamp_micros,
                    source_ip: d.source_ip,
                    destination_ip: d.destination_ip,
                    source_port: d.source_port,
                    destination_port: d.destination_port,
                    payload: d.payload,
                }),
            )
        }),
{
}

/// A frame as it was captured: its time in seconds and a fraction, and its bytes.
pub struct CapturedFrame {
    pub seconds: u32,
    pub fraction: u32,
    /// How long the frame was on the wire.
    pub original: u32,
    pub raw: Seq<u8>,
}

/// Four bytes of a number in either byte order.
pub open spec fn number_bytes(v: nat, little: bool) -> Seq<u8> {
    if little {
        bytes::le_bytes(v, 4)
    } else {
        bytes::be_bytes(v, 4)
    }
}

/// A captured frame in a file: its seconds, its fraction, how much of it was kept, how long it was,
/// then what was kept.
pub open spec fn frame_record(c: CapturedFrame, little: bool) -> Seq<u8> {
    number_bytes(c.seconds as nat, little) + number_bytes(c.fraction as nat, little) + number_bytes(
        c.raw.len(),
        little,
    ) + number_bytes(c.original as nat, little) + c.raw
}

/// Captured frames one behind the other.
pub open spec fn frame_records(frames: Seq<CapturedFrame>, little: bool) -> Seq<u8>
    decreases frames.len(),
{
    if frames.len() == 0 {
        Seq::empty()
    } else {
        frame_record(frames[0], little) + frame_records(frames.drop_first(), little)
    }
}

/// The head of a file: the magic number that tells the byte order and the unit of the fractions,
/// then twenty bytes that do not matter here.
pub open spec fn file_head(little: bool, nano: bool, rest: Seq<u8>) -> Seq<u8> {
    (if little && !nano {
        seq![0xd4u8, 0xc3u8, 0xb2u8, 0xa1u8]
    } else if !little && !nano {
        seq![0xa1u8, 0xb2u8, 0xc3u8, 0xd4u8]
    } else if little {
        seq![0x4du8, 0x3cu8, 0xb2u8, 0xa1u8]
    } else {
        seq![0xa1u8, 0xb2u8, 0x3cu8, 0x4du8]
    }) + rest
}

/// The microseconds from one captured frame to another.
pub open spec fn micros_between(first: CapturedFrame, c: CapturedFrame, nano: bool) -> int {
    if nano {
        ((c.seconds - first.seconds) * 1_000_000_000 + c.fraction - first.fraction) / 1_000
    } else {
        (c.seconds - first.seconds) * 1_000_000 + c.fraction - first.fraction
    }
}

/// Whether one captured frame is not earlier than another.
pub open spec fn not_earlier(first: CapturedFrame, c: CapturedFrame, nano: bool) -> bool {
    if nano {
        (c.seconds - first.seconds) * 1_000_000_000 + c.fraction - first.fraction >= 0
    } else {
        (c.seconds - first.seconds) * 1_000_000 + c.fraction - first.fraction >= 0
    }
}

proof fn lemma_number_bytes(v: nat, little: bool)
    requires
        v <= u32::MAX,
    ensures
        number_bytes(v, little).len() == 4,
        little ==> bytes::le_value(number_bytes(v, little)) == v,
        !little ==> bytes::be_value(number_bytes(v, little)) == v,
{
    bytes::lemma_byte_span();
    bytes::lemma_le_round_trip(v, 4);
    bytes::lemma_be_round_trip(v, 4);
}

/// What is read from the head of a record.
proof fn lemma_frame_record(c: CapturedFrame, little: bool, unit: u64, tail: Seq<u8>)
    requires
        c.raw.len() <= u32::MAX,
    ensures
        ({
            let data = frame_record(c, little) + tail;
            let layout = Layout { little, unit };
            &&& data.len() == 16 + c.raw.len() + tail.len()
            &&& field(data, 0, layout) == c.seconds
            &&& field(data, 4, layout) == c.fraction
            &&& field(data, 8, layout) == c.raw.len()
            &&& data.subrange(16, 16 + c.raw.len() as int) == c.raw
            &&& data.skip(16 + c.raw.len() as int) == tail
        }),
{
    let data = frame_record(c, little) + tail;
    lemma_number_bytes(c.seconds as nat, little);
    lemma_number_bytes(c.fraction as nat, little);
    lemma_number_bytes(c.raw.len(), little);
    lemma_number_bytes(c.original as nat, little);
    assert(data.subrange(0, 4) =~= number_bytes(c.seconds as nat, little));
    assert(data.subrange(4, 8) =~= number_bytes(c.fraction as nat, little));
    assert(data.subrange(8, 12) =~= number_bytes(c.raw.len(), little));
    assert(data.subrange(16, 16 + c.raw.len() as int) =~= c.raw);
    assert(data.skip(16 + c.raw.len() as int) =~= tail);
}

/// The time of a captured frame in nanoseconds.
spec fn captured_nanos(c: CapturedFrame, nano: bool) -> nat {
    (c.seconds * 1_000_000_000 + c.fraction * (if nano {
        1int
    } else {
        1_000
    })) as nat
}

/// The layout that the head of a file announces.
pub open spec fn layout_for(little: bool, nano: bool) -> Layout {
    if nano {
        Layout { little, unit: 1 }
    } else {
        Layout { little, unit: 1_000 }
    }
}

/// Whether these are the datagrams of the frames, numbered behind `number`, with the times since
/// the first frame.
spec fn all_read(
    records: Seq<RecordView>,
    first: CapturedFrame,
    frames: Seq<CapturedFrame>,
    number: u32,
    nano: bool,
) -> bool {
    &&& records.len() == frames.len()
    &&& forall|i: int|
        0 <= i < frames.len() ==> #[trigger] records[i] == read_as(
            frames[i].raw,
            (number + 1 + i) as u32,
            micros_between(first, frames[i], nano) as u64,
        )
}

/// What the datagram of a captured frame is read as, under its number and its time.
#[verifier::opaque]
pub open spec fn read_as(raw: Seq<u8>, number: u32, micros: u64) -> RecordView {
    let d = ethernet::parsed_udp(raw)->0;
    RecordView {
        frame: number,
        timestamp_micros: micros,
        source_ip: d.source_ip,
        destination_ip: d.destination_ip,
        source_port: d.source_port,
        destination_port: d.destination_port,
        payload: d.payload,
    }
}

/// The time of a captured frame as it is read.
proof fn lemma_capture_time(first: CapturedFrame, c: CapturedFrame, nano: bool)
    requires
        not_earlier(first, c, nano),
    ensures
        micros_since(captured_nanos(first, nano), captured_nanos(c, nano)) == micros_between(
            first,
            c,
            nano,
        ),
        0 <= micros_between(first, c, nano) <= u64::MAX,
{
    let d = captured_nanos(c, nano) - captured_nanos(first, nano);
    assert(0 <= d < 0x1_0000_0000_0000_0000);
    assert(d % 0x1_0000_0000_0000_0000 == d);
}

/// A record with a datagram, and what follows it.
proof fn lemma_record_is_read(
    c: CapturedFrame,
    tail: Seq<u8>,
    little: bool,
    nano: bool,
    number: u32,
    first: Option<nat>,
)
    requires
        number < u32::MAX,
        c.raw.len() <= u32::MAX,
        ethernet::parsed_udp(c.raw) is Some,
    ensures
        ({
            let layout = layout_for(little, nano);
            let base = match first {
                Some(base) => base,
                None => captured_nanos(c, nano),
            };
            records_in(frame_record(c, little) + tail, layout, number, first) == (
            match records_in(tail, layout, (number + 1) as u32, Some(base)) {
                Some(more) => Some(
                    seq![
                        read_as(
                            c.raw,
                            (number + 1) as u32,
                            micros_since(base, captured_nanos(c, nano)),
                        ),
                    ] + more,
                ),
                None => None,
            })
        }),
{
    let layout = layout_for(little, nano);
    let base = match first {
        Some(base) => base,
        None => captured_nanos(c, nano),
    };
    let data = frame_record(c, little) + tail;
    lemma_frame_record(c, little, layout.unit, tail);
    assert(record_nanos(data, layout) == captured_nanos(c, nano));
    let micros = micros_since(base, captured_nanos(c, nano));
    law_capture_agrees_with_bridge((number + 1) as u32, c.raw, micros);
    reveal(read_as);
    assert(decoded_udp((number + 1) as u32, c.raw, micros) == Some(
        read_as(c.raw, (number + 1) as u32, micros),
    ));
}

proof fn lemma_records_are_read(
    first: CapturedFrame,
    frames: Seq<CapturedFrame>,
    little: bool,
    nano: bool,
    number: u32,
)
    requires
        number + frames.len() <= u32::MAX,
        forall|i: int|
            0 <= i < frames.len() ==> {
                &&& (#[trigger] frames[i]).raw.len() <= u32::MAX
                &&& not_earlier(first, frames[i], nano)
                &&& ethernet::parsed_udp(frames[i].raw) is Some
            },
    ensures
        ({
            let layout = layout_for(little, nano);
            let read = records_in(
                frame_records(frames, little),
                layout,
                number,
                Some(captured_nanos(first, nano)),
            );
            read is Some && all_read(read->0, first, frames, number, nano)
        }),
    decreases frames.len(),
{
    let layout = layout_for(little, nano);
    let base = captured_nanos(first, nano);
    if frames.len() > 0 {
        let c = frames[0];
        let rest = frames.drop_first();
        assert forall|i: int| 0 <= i < rest.len() implies {
            &&& (#[trigger] rest[i]).raw.len() <= u32::MAX
            &&& not_earlier(first, rest[i], nano)
            &&& ethernet::parsed_udp(rest[i].raw) is Some
        } by {
            assert(rest[i] == frames[i + 1]);
        }
        lemma_records_are_read(first, rest, little, nano, (number + 1) as u32);
        lemma_record_is_read(
            c,
            frame_records(rest, little),
            little,
            nano,
            number,
            Some(base),
        );
        lemma_capture_time(first, c, nano);
        let more = records_in(
            frame_records(rest, little),
            layout,
            (number + 1) as u32,
            Some(base),
        )->0;
        let records = seq![
            read_as(c.raw, (number + 1) as u32, micros_between(first, c, nano) as u64),
        ] + more;
        assert forall|i: int| 0 <= i < frames.len() implies #[trigger] records[i] == read_as(
            frames[i].raw,
            (number + 1 + i) as u32,
            micros_between(first, frames[i], nano) as u64,
        ) by {
            if i > 0 {
                assert(records[i] == more[i - 1]);
                assert(rest[i - 1] == frames[i]);
            }
        }
        assert(records_in(frame_records(frames, little), layout, number, Some(base)) == Some(
            records,
        ));
    }
}

/// Whether a record is what is read from a captured frame, which is number `i` from zero on.
pub open spec fn is_read(
    r: RecordView,
    i: int,
    first: CapturedFrame,
    c: CapturedFrame,
    nano: bool,
) -> bool {
    let d = ethernet::parsed_udp(c.raw)->0;
    &&& r.frame == i + 1
    &&& r.timestamp_micros == micros_between(first, c, nano)
    &&& r.source_ip == d.source_ip
    &&& r.destination_ip == d.destination_ip
    &&& r.source_port == d.source_port
    &&& r.destination_port == d.destination_port
    &&& r.payload == d.payload
}

/// Whether the records are what is read from the captured frames, one for each and in order.
pub open spec fn read_back(records: Seq<RecordView>, frames: Seq<CapturedFrame>, nano: bool) -> bool {
    &&& records.len() == frames.len()
    &&& forall|i: int|
        0 <= i < frames.len() ==> is_read(
            #[trigger] records[i],
            i,
            frames[0],
            frames[i],
            nano,
        )
}

/// The head of a file tells its layout, and what follows it is the body.
proof fn lemma_layout_is_read(little: bool, nano: bool, rest: Seq<u8>, body: Seq<u8>)
    requires
        rest.len() == 20,
    ensures
        layout_of(file_head(little, nano, rest) + body) == Some(layout_for(little, nano)),
        (file_head(little, nano, rest) + body).skip(24) == body,
{
    let data = file_head(little, nano, rest) + body;
    let layout = layout_for(little, nano);
    assert(data.take(4) =~= file_head(little, nano, rest).take(4));
    assert(data.take(4)[1] == file_head(little, nano, rest)[1]);
    assert(data.take(4)[2] == file_head(little, nano, rest)[2]);
    assert(file_head(little, nano, rest).take(4) =~= (if little && !nano {
        seq![0xd4u8, 0xc3u8, 0xb2u8, 0xa1u8]
    } else if !little && !nano {
        seq![0xa1u8, 0xb2u8, 0xc3u8, 0xd4u8]
    } else if little {
        seq![0x4du8, 0x3cu8, 0xb2u8, 0xa1u8]
    } else {
        seq![0xa1u8, 0xb2u8, 0x3cu8, 0x4du8]
    }));
    assert(seq![0xd4u8, 0xc3u8, 0xb2u8, 0xa1u8][0] != seq![0xa1u8, 0xb2u8, 0xc3u8, 0xd4u8][0]);
    assert(layout_of(data) == Some(layout)) by {
        let m = data.take(4);
        if !little && !nano {
            assert(m[0] == 0xa1);
        }
        if little && nano {
            assert(m[0] == 0x4d);
        }
        if !little && nano {
            assert(m[0] == 0xa1 && m[2] == 0x3c);
            assert(seq![0xa1u8, 0xb2u8, 0xc3u8, 0xd4u8][2] == 0xc3);
        }
    }
    assert(data.skip(24) =~= body);
}

/// A capture is read back as it was taken: its frames in order, numbered from one, each with its
/// addresses, ports and payload, and with the microseconds since the first frame, whatever the
/// byte order of the file and the unit of its fractions.
pub proof fn law_capture_is_read_back(
    frames: Seq<CapturedFrame>,
    little: bool,
    nano: bool,
    rest: Seq<u8>,
)
    requires
        rest.len() == 20,
        frames.len() <= u32::MAX,
        forall|i: int|
            0 <= i < frames.len() ==> {
                &&& (#[trigger] frames[i]).raw.len() <= u32::MAX
                &&& not_earlier(frames[0], frames[i], nano)
                &&& ethernet::parsed_udp(frames[i].raw) is Some
            },
    ensures
        ({
            let read = captured_records(
                file_head(little, nano, rest) + frame_records(frames, little),
            );
            read is Some && read_back(read->0, frames, nano)
        }),
{
    let data = file_head(little, nano, rest) + frame_records(frames, little);
    let layout = layout_for(little, nano);
    lemma_layout_is_read(little, nano, rest, frame_records(frames, little));
    if frames.len() > 0 {
        let first = frames[0];
        let body = frame_records(frames, little);
        let tail = frame_records(frames.drop_first(), little);
        lemma_records_are_read(first, frames, little, nano, 0);
        lemma_record_is_read(first, tail, little, nano, 0, None);
        lemma_record_is_read(
            first,
            tail,
            little,
            nano,
            0,
            Some(captured_nanos(first, nano)),
        );
        let records = records_in(body, layout, 0, None)->0;
        assert(all_read(records, first, frames, 0, nano));
        assert(captured_records(data) == Some(records));
        lemma_all_read(records, frames, nano);
    }
}

proof fn lemma_all_read(records: Seq<RecordView>, frames: Seq<CapturedFrame>, nano: bool)
    requires
        frames.len() <= u32::MAX,
        frames.len() > 0,
        all_read(records, frames[0], frames, 0, nano),
        forall|i: int|
            0 <= i < frames.len() ==> not_earlier(frames[0], #[trigger] frames[i], nano),
    ensures
        read_back(records, frames, nano),
{
    assert forall|i: int| 0 <= i < frames.len() implies is_read(
        #[trigger] records[i],
        i,
        frames[0],
        frames[i],
        nano,
    ) by {
        lemma_capture_time(frames[0], frames[i], nano);
        reveal(read_as);
    }
}

/// In a capture whose frames are in the order of their time, so are the times of its datagrams.
pub proof fn law_capture_times_are_ordered(
    first: CapturedFrame,
    a: CapturedFrame,
    b: CapturedFrame,
    nano: bool,
)
    requires
        not_earlier(first, a, nano),
        not_earlier(a, b, nano),
    ensures
        0 <= micros_between(first, a, nano) <= micros_between(first, b, nano),
        micros_between(first, first, nano) == 0,
{
}

/// A frame in which there is no datagram is left out of what is read from a capture, and a capture
/// whose last frame is cut short is refused.
pub proof fn law_other_frames_are_left_out(
    c: CapturedFrame,
    tail: Seq<u8>,
    little: bool,
    unit: u64,
    number: u32,
    base: nat,
)
    requires
        c.raw.len() <= u32::MAX,
        number < u32::MAX,
    ensures
        ({
            let layout = Layout { little, unit };
            let read = records_in(frame_record(c, little) + tail, layout, number, Some(base));
            let rest = records_in(tail, layout, (number + 1) as u32, Some(base));
            &&& (forall|t: u64| #[trigger]
                decoded_udp((number + 1) as u32, c.raw, t) is None) ==> read == rest
            &&& rest is None ==> read is None
            &&& tail.len() < 16 ==> rest == Some(Seq::<RecordView>::empty())
        }),
        c.raw.len() > 0 ==> records_in(
            frame_record(c, little).drop_last(),
            Layout { little, unit },
            number,
            Some(base),
        ) is None,
{
    let layout = Layout { little, unit };
    lemma_frame_record(c, little, unit, tail);
    if c.raw.len() > 0 {
        lemma_number_bytes(c.seconds as nat, little);
        lemma_number_bytes(c.fraction as nat, little);
        lemma_number_bytes(c.raw.len(), little);
        lemma_number_bytes(c.original as nat, little);
        let short = frame_record(c, little).drop_last();
        assert(short.subrange(8, 12) =~= number_bytes(c.raw.len(), little));
        assert(field(short, 8, layout) == c.raw.len());
    }
}

/// The clock of a capture starts with its first frame, whether there is a datagram in it or not.
pub proof fn law_clock_starts_with_the_first_frame(
    c: CapturedFrame,
    tail: Seq<u8>,
    little: bool,
    nano: bool,
)
    requires
        c.raw.len() <= u32::MAX,
        forall|t: u64| #[trigger] decoded_udp(1, c.raw, t) is None,
    ensures
        records_in(frame_record(c, little) + tail, layout_for(little, nano), 0, None) == records_in(
            tail,
            layout_for(little, nano),
            1,
            Some(
                (c.seconds * 1_000_000_000 + c.fraction * (if nano {
                    1int
                } else {
                    1000
                })) as nat,
            ),
        ),
{
    let layout = layout_for(little, nano);
    let data = frame_record(c, little) + tail;
    lemma_frame_record(c, little, layout.unit, tail);
    assert(record_nanos(data, layout) == captured_nanos(c, nano));
    let t = micros_since(captured_nanos(c, nano), captured_nanos(c, nano));
    assert(decoded_udp(1, c.raw, t) is None);
}

/// What the datagram of a captured frame without tags says, byte by byte. It has to be of IPv4 and
/// UDP; a payload that was cut short is what there is of it.
pub proof fn law_captured_datagrams_are_read(frame: u32, f: Seq<u8>, timestamp_micros: u64)
    requires
        f.len() >= 14,
        !(f[12] == 0x81 && f[13] == 0x00),
        !(f[12] == 0x88 && f[13] == 0xa8),
    ensures
        ({
            let n = (f[14] % 16) * 4;
            let u = 14 + n;
            let length = f[u + 4] * 256 + f[u + 5];
            let r = decoded_udp(frame, f, timestamp_micros);
            let good = f[12] == 0x08 && f[13] == 0x00 && f.len() >= 34 && n >= 20 && f.len() >= u
                + 8 && f[23] == 17 && length >= 8;
            &&& r is Some <==> good
            &&& r matches Some(d) ==> {
                &&& d.frame == frame
                &&& d.timestamp_micros == timestamp_micros
                &&& d.source_ip == (Ipv4Addr { a: f[26], b: f[27], c: f[28], d: f[29] })
                &&& d.destination_ip == (Ipv4Addr { a: f[30], b: f[31], c: f[32], d: f[33] })
                &&& d.source_port == f[u] * 256 + f[u + 1]
                &&& d.destination_port == f[u + 2] * 256 + f[u + 3]
                &&& f.len() >= u + length ==> d.payload == f.subrange(u + 8, u + length)
                &&& f.len() < u + length ==> d.payload == f.skip(u + 8)
            }
        }),
{
    let t = f.subrange(12, 14);
    bytes::law_big_endian(t, 0, 0);
    assert(t[0] == f[12] && t[1] == f[13]);
    if f[12] == 0x08 && f[13] == 0x00 && f.len() >= 34 {
        let ip = f.skip(14);
        let n = (f[14] % 16) * 4;
        let udp = ip.skip(n);
        assert(ip[0] == f[14] && ip[9] == f[23]);
        if n >= 20 && ip.len() >= n + 8 {
            bytes::law_big_endian(udp.subrange(4, 6), 0, 0);
            bytes::law_big_endian(udp.take(2), 0, 0);
            bytes::law_big_endian(udp.subrange(2, 4), 0, 0);
            let length = f[14 + n + 4] * 256 + f[14 + n + 5];
            assert(bytes::be_value(udp.subrange(4, 6)) == length);
            if length >= 8 {
                if udp.len() >= length {
                    assert(udp.subrange(8, length) =~= f.subrange(14 + n + 8, 14 + n + length));
                } else {
                    assert(udp.subrange(8, udp.len() as int) =~= f.skip(14 + n + 8));
                }
            }
        }
    }
}

/// What is no capture: less than 24 bytes, or another magic number than the four of the format.
pub proof fn law_other_files_are_refused(data: Seq<u8>)
    ensures
        data.len() < 24 ==> captured_records(data) is None,
        data.len() >= 24 && data.take(4) != seq![0xd4u8, 0xc3u8, 0xb2u8, 0xa1u8] && data.take(4)
            != seq![0xa1u8, 0xb2u8, 0xc3u8, 0xd4u8] && data.take(4) != seq![
            0x4du8,
            0x3cu8,
            0xb2u8,
            0xa1u8,
        ] && data.take(4) != seq![0xa1u8, 0xb2u8, 0x3cu8, 0x4du8] ==> captured_records(data)
            is None,
{
}

} // verus!
