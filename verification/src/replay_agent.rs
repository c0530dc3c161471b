//! An Agent that replays a captured call.

use vstd::prelude::*;
use crate::agent;
use crate::agent::{no_outcome, OutcomeView, WireOutcome};
use crate::agent_api;
use crate::agent_api::{
    AudioChunk, CallAction, CallError, CallState, CommandResult, Event, EventKind, EventView, KindView,
    MediaHistory, MediaInfo, MediaView, VideoFrame,
};
use crate::bytes;
use crate::desk;
use crate::desk::{CallDesk, DeskView};
use crate::net::Ipv4Addr;
use crate::pcap;
use crate::pcap::{RecordView, UdpRecord};
use crate::protocol;
use crate::protocol::{
    Endpoints, JpegReassembler, Message, PendingView, FAMILY_SESSION, MEDIA_AUDIO, OP_ANSWER,
    OP_HANGUP, OP_MEDIA, OP_REQUEST, OP_UNLOCK,
};
use crate::state::{CallMachine, CallPhase, MachineView, Owner};
use crate::text;
use crate::time::{Duration, Instant};
use crate::transport::{AgentEvent, AgentEventView, FrameKind, FrameView, WireFrame};

verus! {

/// A frame of a captured call at its time since the call began. A frame of kind `Event` carries
/// its event beside it: its payload stays empty until the event is encoded into it.
#[derive(Debug)]
pub struct TimedFrame {
    pub offset_micros: u64,
    pub frame: WireFrame,
    pub event: Option<AgentEvent>,
}

/// What a timed frame holds.
pub struct TimedView {
    pub offset_micros: u64,
    pub frame: FrameView,
    pub event: Option<AgentEventView>,
}

impl View for TimedFrame {
    type V = TimedView;

    open spec fn view(&self) -> TimedView {
        TimedView {
            offset_micros: self.offset_micros,
            frame: self.frame@,
            event: match self.event {
                Some(event) => Some(event@),
                None => None,
            },
        }
    }
}

/// What the timed frames hold.
pub open spec fn timed_views(v: Seq<TimedFrame>) -> Seq<TimedView> {
    v.map_values(|t: TimedFrame| t@)
}

/// Why a capture cannot be replayed.
#[derive(Clone, Copy, Debug, PartialEq, Eq, Structural)]
pub enum ReplayError {
    /// It is no classic pcap, or it is cut short.
    Capture,
    /// It holds no session request.
    NoSession,
}

/// Whether a packet asks for a session.
pub open spec fn is_session_request(raw: Seq<u8>) -> bool {
    match protocol::parsed_message(raw) {
        Ok(m) => m.family == FAMILY_SESSION && m.opcode == OP_REQUEST,
        Err(_) => false,
    }
}

/// Whether one of the packets asks for a session.
pub open spec fn any_request(pieces: Seq<Seq<u8>>) -> bool {
    exists|i: int| 0 <= i < pieces.len() && is_session_request(#[trigger] pieces[i])
}

/// The time of the first datagram that asks for a session.
pub open spec fn first_request(records: Seq<RecordView>) -> Option<u64>
    decreases records.len(),
{
    if records.len() == 0 {
        None
    } else if any_request(protocol::pieces(records[0].payload)) {
        Some(records[0].timestamp_micros)
    } else {
        first_request(records.drop_first())
    }
}

/// The address of the door in the reference capture; only its media is replayed.
pub open spec fn door_ip() -> Ipv4Addr {
    Ipv4Addr { a: 192, b: 168, c: 124, d: 2 }
}

/// A timeline as far as it has been built.
pub struct TimelineView {
    pub out: Seq<TimedView>,
    pub sequence: u32,
    pub session_id: u64,
    pub started: bool,
    pub ended: bool,
    pub jpeg: Seq<PendingView>,
}

impl TimelineView {
    /// Nothing has been built.
    pub open spec fn start() -> Self {
        TimelineView {
            out: Seq::empty(),
            sequence: 0,
            session_id: 0,
            started: false,
            ended: false,
            jpeg: Seq::empty(),
        }
    }

    /// The timeline with one more frame.
    pub open spec fn with_frame(
        self,
        kind: FrameKind,
        offset: u64,
        payload: Seq<u8>,
        event: Option<AgentEventView>,
    ) -> Self {
        TimelineView {
            out: self.out.push(
                (TimedView {
                    offset_micros: offset,
                    frame: FrameView {
                        kind,
                        flags: 0,
                        session_id: self.session_id,
                        sequence: self.sequence,
                        timestamp_micros: offset,
                        payload,
                    },
                    event,
                }),
            ),
            sequence: agent::counted32(self.sequence),
            ..self
        }
    }

    /// The timeline with one more event.
    pub open spec fn with_event(self, offset: u64, event: AgentEventView) -> Self {
        self.with_frame(FrameKind::Event, offset, Seq::empty(), Some(event))
    }

    /// The timeline once a packet has been taken in.
    pub open spec fn with_packet(self, raw: Seq<u8>, source: Ipv4Addr, first: u64, offset: u64) -> Self {
        match protocol::parsed_message(raw) {
            Err(_) => self,
            Ok(m) => if m.family != FAMILY_SESSION {
                self
            } else if m.opcode == OP_REQUEST {
                if self.started {
                    self
                } else {
                    let e = match m.endpoints() {
                        Some(e) => e,
                        None => protocol::captured_endpoints(),
                    };
                    TimelineView {
                        started: true,
                        session_id: if first == 0 {
                            1
                        } else {
                            first
                        },
                        ..self
                    }.with_event(
                        offset,
                        AgentEventView::CallStarted { door_id: e.door.id, room_id: e.room.id },
                    )
                }
            } else if m.opcode == OP_ANSWER || m.opcode == OP_UNLOCK {
                self.with_event(offset, AgentEventView::PadActionObserved { opcode: m.opcode })
            } else if m.opcode == OP_HANGUP {
                if self.ended {
                    self
                } else {
                    TimelineView { ended: true, ..self }.with_event(
                        offset,
                        AgentEventView::CallEnded { reason: "captured_hangup"@ },
                    )
                }
            } else if m.opcode == OP_MEDIA && source == door_ip() {
                match m.media() {
                    None => self,
                    Some(f) => if f.media_type == MEDIA_AUDIO {
                        self.with_frame(FrameKind::DoorPcm, offset, f.data, None)
                    } else {
                        let rest = TimelineView {
                            jpeg: protocol::frames_after(self.jpeg, f),
                            ..self
                        };
                        match protocol::frame_from(self.jpeg, f) {
                            Some(frame) => rest.with_frame(FrameKind::Jpeg, offset, frame, None),
                            None => rest,
                        }
                    },
                }
            } else {
                self
            },
        }
    }

    /// The timeline once the packets of a datagram have been taken in.
    pub open spec fn with_packets(
        self,
        pieces: Seq<Seq<u8>>,
        source: Ipv4Addr,
        first: u64,
        offset: u64,
    ) -> Self
        decreases pieces.len(),
    {
        if pieces.len() == 0 {
            self
        } else {
            self.with_packets(pieces.drop_last(), source, first, offset).with_packet(
                pieces.last(),
                source,
                first,
                offset,
            )
        }
    }

    /// The timeline once the datagrams of a capture have been taken in; those before the first
    /// session request are skipped.
    pub open spec fn with_records(self, records: Seq<RecordView>, first: u64) -> Self
        decreases records.len(),
    {
        if records.len() == 0 {
            self
        } else {
            let before = self.with_records(records.drop_last(), first);
            let record = records.last();
            if record.timestamp_micros < first {
                before
            } else {
                before.with_packets(
                    protocol::pieces(record.payload),
                    record.source_ip,
                    first,
                    (record.timestamp_micros - first) as u64,
                )
            }
        }
    }
}

/// The timeline of the datagrams of a capture.
pub open spec fn timeline_of(records: Seq<RecordView>) -> Result<Seq<TimedView>, ReplayError> {
    match first_request(records) {
        Some(first) => Ok(TimelineView::start().with_records(records, first).out),
        None => Err(ReplayError::NoSession),
    }
}

/// The timeline of a capture file.
pub open spec fn captured_timeline(data: Seq<u8>) -> Result<Seq<TimedView>, ReplayError> {
    match pcap::captured_records(data) {
        Some(records) => timeline_of(records),
        None => Err(ReplayError::Capture),
    }
}

/// A timeline under construction.
struct Timeline {
    out: Vec<TimedFrame>,
    sequence: u32,
    session_id: u64,
    started: bool,
    ended: bool,
    jpeg: JpegReassembler,
}

impl View for Timeline {
    type V = TimelineView;

    closed spec fn view(&self) -> TimelineView {
        TimelineView {
            out: timed_views(self.out@),
            sequence: self.sequence,
            session_id: self.session_id,
            started: self.started,
            ended: self.ended,
            jpeg: self.jpeg@,
        }
    }
}

impl Timeline {
    fn push_frame(&mut self, kind: FrameKind, offset: u64, payload: Vec<u8>, event: Option<AgentEvent>)
        requires
            old(self).jpeg.wf(),
        ensures
            final(self).jpeg.wf(),
            final(self)@ == old(self)@.with_frame(
                kind,
                offset,
                payload@,
                match event {
                    Some(e) => Some(e@),
                    None => None,
                },
            ),
    {
        let ghost before = timed_views(self.out@);
        let timed = TimedFrame {
            offset_micros: offset,
            frame: WireFrame {
                kind,
                flags: 0,
                session_id: self.session_id,
                sequence: self.sequence,
                timestamp_micros: offset,
                payload,
            },
            event,
        };
        let ghost view = timed@;
        self.out.push(timed);
        self.sequence = agent::count32(self.sequence);
        assert(timed_views(self.out@) =~= before.push(view));
    }

    fn push_event(&mut self, offset: u64, event: AgentEvent)
        requires
            old(self).jpeg.wf(),
        ensures
            final(self).jpeg.wf(),
            final(self)@ == old(self)@.with_event(offset, event@),
    {
        let empty: Vec<u8> = Vec::new();
        assert(empty@ =~= Seq::<u8>::empty());
        self.push_frame(FrameKind::Event, offset, empty, Some(event));
    }

    fn push_packet(&mut self, raw: &[u8], source: Ipv4Addr, first: u64, offset: u64)
        requires
            old(self).jpeg.wf(),
        ensures
            final(self).jpeg.wf(),
            final(self)@ == old(self)@.with_packet(raw@, source, first, offset),
    {
        let msg = match Message::parse(raw) {
            Ok(msg) => msg,
            Err(_) => return,
        };
        if msg.family != FAMILY_SESSION {
            return;
        }
        if msg.opcode == OP_REQUEST {
            if self.started {
                return;
            }
            self.started = true;
            self.session_id = if first == 0 {
                1
            } else {
                first
            };
            let endpoints = match msg.endpoints() {
                Some(endpoints) => endpoints,
                None => Endpoints::captured(),
            };
            self.push_event(
                offset,
                AgentEvent::CallStarted {
                    door_id: endpoints.door.id,
                    room_id: endpoints.room.id,
                },
            );
        } else if msg.opcode == OP_ANSWER || msg.opcode == OP_UNLOCK {
            self.push_event(offset, AgentEvent::PadActionObserved { opcode: msg.opcode });
        } else if msg.opcode == OP_HANGUP {
            if self.ended {
                return;
            }
            self.ended = true;
            self.push_event(offset, AgentEvent::CallEnded { reason: "captured_hangup".to_owned() });
        } else if msg.opcode == OP_MEDIA && source == Ipv4Addr::new(192, 168, 124, 2) {
            let media = match msg.media() {
                Some(media) => media,
                None => return,
            };
            if media.media_type == MEDIA_AUDIO {
                self.push_frame(FrameKind::DoorPcm, offset, bytes::copy_of(media.data), None);
            } else if let Some(frame) = self.jpeg.push(&media) {
                self.push_frame(FrameKind::Jpeg, offset, frame, None);
            }
        }
    }

    fn push_record(&mut self, record: &UdpRecord, first: u64)
        requires
            old(self).jpeg.wf(),
            record.timestamp_micros >= first,
        ensures
            final(self).jpeg.wf(),
            final(self)@ == old(self)@.with_packets(
                protocol::pieces(record@.payload),
                record@.source_ip,
                first,
                (record@.timestamp_micros - first) as u64,
            ),
    {
        let ghost start = self@;
        let offset: u64 = record.timestamp_micros - first;
        let pieces = protocol::split_coalesced(&record.payload);
        let ghost all = protocol::pieces(record@.payload);
        assert(protocol::slices(pieces@).len() == pieces@.len());
        assert(all.take(0) =~= Seq::empty());
        let mut i: usize = 0;
        while i < pieces.len()
            invariant
                i <= pieces@.len() == all.len(),
                protocol::slices(pieces@) == all,
                self.jpeg.wf(),
                self@ == start.with_packets(
                    all.take(i as int),
                    record@.source_ip,
                    first,
                    offset,
                ),
            decreases pieces@.len() - i,
        {
            proof {
                assert(protocol::slices(pieces@)[i as int] == pieces@[i as int]@);
                assert(all.take(i + 1).drop_last() =~= all.take(i as int));
                assert(all.take(i + 1).last() == pieces@[i as int]@);
            }
            self.push_packet(pieces[i], record.source_ip, first, offset);
            i = i + 1;
        }
        assert(all.take(i as int) =~= all);
    }
}

/// Whether the datagram holds a session request.
fn holds_request(payload: &[u8]) -> (r: bool)
    ensures
        r == any_request(protocol::pieces(payload@)),
{
    let pieces = protocol::split_coalesced(payload);
    let ghost all = protocol::pieces(payload@);
    assert(protocol::slices(pieces@).len() == pieces@.len());
    let mut i: usize = 0;
    while i < pieces.len()
        invariant
            i <= pieces@.len() == all.len(),
            protocol::slices(pieces@) == all,
            forall|j: int| 0 <= j < i ==> !is_session_request(#[trigger] all[j]),
            all == protocol::pieces(payload@),
        decreases pieces@.len() - i,
    {
        assert(protocol::slices(pieces@)[i as int] == pieces@[i as int]@);
        if let Ok(msg) = Message::parse(pieces[i]) {
            if msg.family == FAMILY_SESSION && msg.opcode == OP_REQUEST {
                assert(is_session_request(all[i as int]));
                return true;
            }
        }
        i = i + 1;
    }
    false
}

fn find_first_request(records: &Vec<UdpRecord>) -> (r: Option<u64>)
    ensures
        r == first_request(pcap::record_views(records@)),
{
    let ghost all = pcap::record_views(records@);
    assert(all.skip(0) =~= all);
    let mut i: usize = 0;
    while i < records.len()
        invariant
            i <= records@.len() == all.len(),
            all == pcap::record_views(records@),
            first_request(all) == first_request(all.skip(i as int)),
        decreases records@.len() - i,
    {
        proof {
            assert(all[i as int] == records@[i as int]@);
            assert(all.skip(i as int)[0] == all[i as int]);
            assert(all.skip(i as int).drop_first() =~= all.skip(i + 1));
        }
        if holds_request(&records[i].payload) {
            return Some(records[i].timestamp_micros);
        }
        i = i + 1;
    }
    assert(all.skip(i as int) =~= Seq::empty());
    None
}

/// Builds the timeline of the datagrams of a capture.
pub fn timeline(records: &Vec<UdpRecord>) -> (r: Result<Vec<TimedFrame>, ReplayError>)
    ensures
        match r {
            Ok(frames) => timeline_of(pcap::record_views(records@)) == Ok::<
                Seq<TimedView>,
                ReplayError,
            >(timed_views(frames@)),
            Err(e) => timeline_of(pcap::record_views(records@)) == Err::<
                Seq<TimedView>,
                ReplayError,
            >(e),
        },
{
    let first: u64 = match find_first_request(records) {
        Some(first) => first,
        None => return Err(ReplayError::NoSession),
    };
    let ghost all = pcap::record_views(records@);
    let mut t = Timeline {
        out: Vec::new(),
        sequence: 0,
        session_id: 0,
        started: false,
        ended: false,
        jpeg: JpegReassembler::new(),
    };
    assert(timed_views(t.out@) =~= Seq::empty());
    assert(all.take(0) =~= Seq::empty());
    let mut i: usize = 0;
    while i < records.len()
        invariant
            i <= records@.len() == all.len(),
            all == pcap::record_views(records@),
            t.jpeg.wf(),
            t@ == TimelineView::start().with_records(all.take(i as int), first),
        decreases records@.len() - i,
    {
        proof {
            assert(all[i as int] == records@[i as int]@);
            assert(all.take(i + 1).drop_last() =~= all.take(i as int));
            assert(all.take(i + 1).last() == all[i as int]);
        }
        if records[i].timestamp_micros >= first {
            t.push_record(&records[i], first);
        }
        i = i + 1;
    }
    assert(all.take(i as int) =~= all);
    Ok(t.out)
}

/// Builds the timeline of the bytes of a capture file.
pub fn replay_timeline(data: &[u8]) -> (r: Result<Vec<TimedFrame>, ReplayError>)
    ensures
        match r {
            Ok(frames) => captured_timeline(data@) == Ok::<Seq<TimedView>, ReplayError>(
                timed_views(frames@),
            ),
            Err(e) => captured_timeline(data@) == Err::<Seq<TimedView>, ReplayError>(e),
        },
{
    match pcap::read_udp(data) {
        Ok(records) => timeline(&records),
        Err(_) => Err(ReplayError::Capture),
    }
}

/// Whether a frame tells of the start of the call.
pub open spec fn tells_start(t: TimedView) -> bool {
    match t.event {
        Some(e) => e is CallStarted,
        None => false,
    }
}

/// Whether a frame tells of the end of the call.
pub open spec fn tells_end(t: TimedView) -> bool {
    match t.event {
        Some(e) => e is CallEnded,
        None => false,
    }
}

impl TimelineView {
    /// Whether the frames are numbered from zero on, modulo 2^32, are stamped with their own time,
    /// and carry an event exactly where they are events; and whether the call starts and ends at
    /// most once, and its start is told once it has started.
    pub open spec fn orderly(self) -> bool {
        &&& self.sequence as int == self.out.len() % 0x1_0000_0000
        &&& forall|i: int|
            0 <= i < self.out.len() ==> {
                &&& (#[trigger] self.out[i]).frame.sequence as int == i % 0x1_0000_0000
                &&& self.out[i].frame.timestamp_micros == self.out[i].offset_micros
                &&& self.out[i].frame.kind == FrameKind::Event <==> self.out[i].event is Some
                &&& tells_start(self.out[i]) ==> self.started
                &&& tells_end(self.out[i]) ==> self.ended
            }
        &&& forall|i: int, j: int|
            0 <= i < j < self.out.len() ==> !(tells_start(#[trigger] self.out[i]) && tells_start(
                #[trigger] self.out[j],
            ))
        &&& self.started ==> exists|i: int|
            0 <= i < self.out.len() && tells_start(#[trigger] self.out[i])
        &&& forall|i: int, j: int|
            0 <= i < j < self.out.len() ==> !(tells_end(#[trigger] self.out[i]) && tells_end(
                #[trigger] self.out[j],
            ))
    }
}

proof fn lemma_packet_keeps_order(t: TimelineView, raw: Seq<u8>, source: Ipv4Addr, first: u64, offset: u64)
    requires
        t.orderly(),
    ensures
        t.with_packet(raw, source, first, offset).orderly(),
{
    let u = t.with_packet(raw, source, first, offset);
    if t.started {
        let i = choose|i: int| 0 <= i < t.out.len() && tells_start(#[trigger] t.out[i]);
        assert(u.out[i] == t.out[i]);
    } else if u.started {
        assert(tells_start(u.out[t.out.len() as int]));
    }
}

proof fn lemma_packets_keep_order(
    t: TimelineView,
    pieces: Seq<Seq<u8>>,
    source: Ipv4Addr,
    first: u64,
    offset: u64,
)
    requires
        t.orderly(),
    ensures
        t.with_packets(pieces, source, first, offset).orderly(),
    decreases pieces.len(),
{
    if pieces.len() > 0 {
        lemma_packets_keep_order(t, pieces.drop_last(), source, first, offset);
        lemma_packet_keeps_order(
            t.with_packets(pieces.drop_last(), source, first, offset),
            pieces.last(),
            source,
            first,
            offset,
        );
    }
}

/// The frames of a timeline are numbered in order and stamped with their own time, carry an event
/// exactly where they are events, and tell of at most one start and one end of the call.
pub proof fn law_timeline_is_orderly(records: Seq<RecordView>, first: u64)
    ensures
        TimelineView::start().with_records(records, first).orderly(),
    decreases records.len(),
{
    if records.len() > 0 {
        law_timeline_is_orderly(records.drop_last(), first);
        let before = TimelineView::start().with_records(records.drop_last(), first);
        let record = records.last();
        if record.timestamp_micros >= first {
            lemma_packets_keep_order(
                before,
                protocol::pieces(record.payload),
                record.source_ip,
                first,
                (record.timestamp_micros - first) as u64,
            );
        }
    }
}

proof fn lemma_packets_start(
    t: TimelineView,
    pieces: Seq<Seq<u8>>,
    source: Ipv4Addr,
    first: u64,
    offset: u64,
)
    ensures
        t.started || any_request(pieces) ==> t.with_packets(
            pieces,
            source,
            first,
            offset,
        ).started,
    decreases pieces.len(),
{
    if pieces.len() > 0 {
        let init = pieces.drop_last();
        lemma_packets_start(t, init, source, first, offset);
        if any_request(pieces) && !any_request(init) {
            let i = choose|i: int|
                0 <= i < pieces.len() && is_session_request(#[trigger] pieces[i]);
            if i < init.len() {
                assert(is_session_request(init[i]));
            }
        }
    }
}

proof fn lemma_records_start(t: TimelineView, records: Seq<RecordView>, first: u64, k: int)
    requires
        0 <= k < records.len(),
        records[k].timestamp_micros >= first,
        any_request(protocol::pieces(records[k].payload)),
    ensures
        t.with_records(records, first).started,
    decreases records.len(),
{
    let init = records.drop_last();
    let record = records.last();
    if k < init.len() {
        lemma_records_start(t, init, first, k);
    }
    if record.timestamp_micros >= first {
        lemma_packets_start(
            t.with_records(init, first),
            protocol::pieces(record.payload),
            record.source_ip,
            first,
            (record.timestamp_micros - first) as u64,
        );
    }
}

proof fn lemma_first_request(records: Seq<RecordView>) -> (k: int)
    requires
        first_request(records) is Some,
    ensures
        0 <= k < records.len(),
        records[k].timestamp_micros == first_request(records)->0,
        any_request(protocol::pieces(records[k].payload)),
    decreases records.len(),
{
    if any_request(protocol::pieces(records[0].payload)) {
        0
    } else {
        let k = lemma_first_request(records.drop_first());
        assert(records.drop_first()[k] == records[k + 1]);
        k + 1
    }
}

/// Whether frame `i`, and no other, tells of the start of the call.
pub open spec fn only_start(frames: Seq<TimedView>, i: int) -> bool {
    &&& 0 <= i < frames.len()
    &&& tells_start(frames[i])
    &&& forall|j: int| 0 <= j < frames.len() && j != i ==> !tells_start(#[trigger] frames[j])
}

/// A capture that can be replayed tells of the start of its call, and tells of it once.
pub proof fn law_timeline_starts_call(records: Seq<RecordView>)
    requires
        timeline_of(records) is Ok,
    ensures
        exists|i: int| only_start(timeline_of(records)->Ok_0, i),
{
    let first = first_request(records)->0;
    let k = lemma_first_request(records);
    lemma_records_start(TimelineView::start(), records, first, k);
    law_timeline_is_orderly(records, first);
    let frames = TimelineView::start().with_records(records, first).out;
    let i = choose|i: int| 0 <= i < frames.len() && tells_start(#[trigger] frames[i]);
    assert forall|j: int| 0 <= j < frames.len() && j != i implies !tells_start(
        #[trigger] frames[j],
    ) by {
        if tells_start(frames[j]) {
            if i < j {
                assert(!(tells_start(frames[i]) && tells_start(frames[j])));
            } else {
                assert(!(tells_start(frames[j]) && tells_start(frames[i])));
            }
        }
    }
    assert(timeline_of(records)->Ok_0 == frames);
    assert(only_start(timeline_of(records)->Ok_0, i));
}

pub const AGENT_ID: &'static str = "fake-pad-cap";

/// An Agent that replays a captured call. Its commands run through the call machine and the packet
/// encoders, but nothing is sent.
pub struct ReplayAgent {
    desk: CallDesk,
    door_id: Option<String>,
    room_id: Option<String>,
}

/// What a replaying Agent holds.
pub struct ReplayView {
    pub desk: DeskView,
    pub door_id: Option<Seq<char>>,
    pub room_id: Option<Seq<char>>,
}

impl View for ReplayAgent {
    type V = ReplayView;

    closed spec fn view(&self) -> ReplayView {
        ReplayView {
            desk: self.desk@,
            door_id: text::text_view(self.door_id),
            room_id: text::text_view(self.room_id),
        }
    }
}

impl ReplayView {
    /// The Agent once a captured event has been replayed. The sessions in its reports are those of
    /// the capture.
    pub open spec fn applied(self, session_id: u64, event: AgentEventView, now_ms: u64) -> ReplayView {
        match event {
            AgentEventView::CallStarted { door_id, room_id } => ReplayView {
                desk: self.desk.call_started(session_id, door_id, room_id, now_ms),
                door_id: Some(door_id),
                room_id: Some(room_id),
            },
            AgentEventView::PadActionObserved { opcode } => if opcode == OP_ANSWER {
                ReplayView { desk: self.desk.pad_answered(session_id, now_ms), ..self }
            } else if opcode == OP_UNLOCK {
                ReplayView { desk: self.desk.pad_unlocked(session_id, now_ms), ..self }
            } else {
                self
            },
            AgentEventView::CallEnded { reason } => ReplayView {
                desk: self.desk.call_ended(session_id, reason, now_ms),
                ..self
            },
            AgentEventView::Error { message } => ReplayView {
                desk: self.desk.reported(now_ms, KindView::AgentError { message }),
                ..self
            },
            _ => self,
        }
    }

    /// What is reported of a captured event.
    pub open spec fn report_of(self, session_id: u64, event: AgentEventView) -> Option<KindView> {
        match event {
            AgentEventView::CallStarted { door_id, room_id } => Some(
                desk::started_kind(session_id, door_id, room_id),
            ),
            AgentEventView::PadActionObserved { opcode } => if opcode == OP_ANSWER
                && self.desk.machine.pad_refusal() is None {
                Some(desk::answered_kind(session_id))
            } else if opcode == OP_UNLOCK && self.desk.machine.state.owner == Owner::Pad {
                Some(desk::unlocked_kind(session_id))
            } else {
                None
            },
            AgentEventView::CallEnded { reason } => if self.desk.active() {
                Some(desk::ended_kind(session_id, reason))
            } else {
                None
            },
            AgentEventView::Error { message } => Some(KindView::AgentError { message }),
            _ => None,
        }
    }
}

impl ReplayAgent {
    /// Whether the parts of the Agent are in order.
    pub closed spec fn wf(&self) -> bool {
        self.desk.wf()
    }

    /// Whether the Agent is in order and there is a number left for another event.
    pub open spec fn ready(&self) -> bool {
        self.wf() && self@.desk.log.next_seq < u64::MAX
    }

    pub fn new(cooldown: Duration, history: Duration, history_max_bytes: usize) -> (r: Self)
        ensures
            r.ready(),
            r@.desk == DeskView::fresh(
                MachineView::fresh(cooldown, false),
                history,
                history_max_bytes,
            ),
            r@.door_id is None,
            r@.room_id is None,
    {
        ReplayAgent {
            desk: CallDesk::new(CallMachine::new(cooldown), history, history_max_bytes),
            door_id: None,
            room_id: None,
        }
    }

    /// Whether there is a number left for another event.
    pub fn has_room(&self) -> (r: bool)
        ensures
            r == (self@.desk.log.next_seq < u64::MAX),
    {
        self.desk.has_room()
    }

    /// Replays a captured event.
    pub fn apply(&mut self, session_id: u64, event: &AgentEvent, now_ms: u64) -> (r: Option<Event>)
        requires
            old(self).ready(),
        ensures
            final(self).wf(),
            final(self)@ == old(self)@.applied(session_id, event@, now_ms),
            desk::event_view(r) == (match old(self)@.report_of(session_id, event@) {
                Some(kind) => Some(old(self)@.desk.next_event(now_ms, kind)),
                None => None,
            }),
    {
        match event {
            AgentEvent::CallStarted { door_id, room_id } => {
                self.door_id = Some(door_id.clone());
                self.room_id = Some(room_id.clone());
                Some(
                    self.desk.start_call(session_id, door_id.as_str(), room_id.as_str(), now_ms),
                )
            },
            AgentEvent::PadActionObserved { opcode } => if *opcode == OP_ANSWER {
                self.desk.pad_answer(session_id, now_ms)
            } else if *opcode == OP_UNLOCK {
                self.desk.pad_unlock(session_id, now_ms)
            } else {
                None
            },
            AgentEvent::CallEnded { reason } => self.desk.end_call(
                session_id,
                reason.as_str(),
                now_ms,
            ),
            AgentEvent::Error { message } => Some(
                self.desk.report(now_ms, EventKind::AgentError { message: message.clone() }),
            ),
            _ => None,
        }
    }

    /// Replays a frame of a timeline: an event is applied, media is handed on, and any other kind
    /// is skipped.
    pub fn play(&mut self, timed: &TimedFrame, now_ms: u64, pts_us: u64) -> (r: WireOutcome)
        requires
            old(self).ready(),
        ensures
            final(self).wf(),
            final(self)@ == played(old(self)@, timed@, now_ms, pts_us),
            r@ == play_outcome(old(self)@, timed@, now_ms, pts_us),
    {
        let mut out = no_outcome();
        match timed.frame.kind {
            FrameKind::Event => {
                if let Some(event) = &timed.event {
                    out.event = self.apply(timed.frame.session_id, event, now_ms);
                }
            },
            FrameKind::Jpeg => {
                let frame = VideoFrame { pts_us, jpeg: bytes::copy_of(&timed.frame.payload) };
                self.desk.push_video(&frame);
                out.video = Some(frame);
            },
            FrameKind::DoorPcm => {
                let chunk = AudioChunk { pts_us, pcm: bytes::copy_of(&timed.frame.payload) };
                self.desk.push_audio(&chunk);
                out.audio = Some(chunk);
            },
            _ => {},
        }
        out
    }

    /// Deals with a command. The packet that would tell the door of it is built, so that the
    /// encoder is exercised, and dropped.
    pub fn execute(&mut self, action: CallAction, command_id: &str, now: Instant, now_ms: u64) -> (r:
        (CommandResult, Option<Event>))
        requires
            old(self).ready(),
        ensures
            final(self).wf(),
            final(self)@ == (ReplayView {
                desk: old(self)@.desk.executed(action, command_id@, now, now_ms),
                ..old(self)@
            }),
            r.0@ == old(self)@.desk.local_result(action, command_id@, now),
            desk::event_view(r.1) == (if old(self)@.desk.cache.lookup(command_id@) is None && old(
                self,
            )@.desk.refusal(action, now) is None {
                Some(old(self)@.desk.next_event(now_ms, old(self)@.desk.report_of(action)))
            } else {
                None
            }),
    {
        if let Some(result) = self.desk.replayed(command_id) {
            return (result, None);
        }
        proof {
            protocol::lemma_captured_endpoints_fit();
        }
        match protocol::session_control(desk::action_opcode(action), &Endpoints::captured()) {
            Ok(_) => self.desk.execute(action, command_id, now, now_ms),
            Err(_) => {
                let result = CommandResult::rejected(command_id, CallError::AgentOffline);
                self.desk.settle(&result);
                (result, None)
            },
        }
    }

    /// The state of the call as a backend sees it.
    pub fn state(&self, uptime_ms: u64) -> (r: CallState)
        ensures
            r@ == desk::public_state(
                self@.desk,
                self@.door_id,
                self@.room_id,
                AGENT_ID@,
                uptime_ms,
            ),
    {
        self.desk.call_state(
            text::copy_text(&self.door_id),
            text::copy_text(&self.room_id),
            AGENT_ID.to_owned(),
            uptime_ms,
        )
    }

    /// The events behind number `after_seq`.
    pub fn recent(&self, after_seq: u64) -> (r: Option<Vec<Event>>)
        requires
            self.wf(),
        ensures
            match r {
                Some(events) => self@.desk.log.since(after_seq) == Some(
                    agent_api::event_views(events@),
                ),
                None => self@.desk.log.since(after_seq) is None,
            },
    {
        self.desk.recent(after_seq)
    }

    /// The latest frame.
    pub fn snapshot(&self) -> (r: Option<VideoFrame>)
        ensures
            desk::frame_view(r) == self@.desk.latest,
    {
        self.desk.snapshot()
    }

    /// The buffered media later than `since_us`.
    pub fn history(&self, since_us: u64) -> (r: MediaHistory)
        ensures
            r.video@.map_values(|f: VideoFrame| f@) == agent_api::later(
                self@.desk.ring.video,
                since_us,
            ),
            r.audio@.map_values(|a: AudioChunk| a@) == agent_api::later(
                self@.desk.ring.audio,
                since_us,
            ),
    {
        self.desk.history(since_us)
    }

    /// The media that a backend can have.
    pub fn media_info(&self) -> (r: MediaInfo)
        ensures
            desk::is_media_info(r, self@.desk.machine.remote_connected(), self@.desk.ring),
    {
        self.desk.media_info(self.desk.talk_allowed())
    }

    /// Whether the remote side may say this: it has answered, and the samples fill one packet.
    pub fn talk(&self, pcm: &[u8]) -> (r: Result<(), CallError>)
        ensures
            r == (if !self@.desk.machine.remote_connected() {
                Err(CallError::UnlockNotAllowed)
            } else if pcm@.len() != 512 {
                Err(CallError::AgentOffline)
            } else {
                Ok::<(), CallError>(())
            }),
    {
        if !self.desk.talk_allowed() {
            return Err(CallError::UnlockNotAllowed);
        }
        proof {
            protocol::lemma_captured_endpoints_fit();
        }
        match protocol::audio_packet(0, pcm, &Endpoints::captured()) {
            Ok(_) => Ok(()),
            Err(_) => Err(CallError::AgentOffline),
        }
    }
}

/// A replaying Agent once a frame has been replayed.
pub open spec fn played(a: ReplayView, t: TimedView, now_ms: u64, pts_us: u64) -> ReplayView {
    let piece = MediaView { pts_us, data: t.frame.payload };
    match t.frame.kind {
        FrameKind::Event => match t.event {
            Some(event) => a.applied(t.frame.session_id, event, now_ms),
            None => a,
        },
        FrameKind::Jpeg => ReplayView { desk: a.desk.with_video(piece), ..a },
        FrameKind::DoorPcm => ReplayView { desk: a.desk.with_audio(piece), ..a },
        _ => a,
    }
}

/// What is to be handed on once a frame has been replayed.
pub open spec fn play_outcome(a: ReplayView, t: TimedView, now_ms: u64, pts_us: u64) -> OutcomeView {
    let piece = MediaView { pts_us, data: t.frame.payload };
    match t.frame.kind {
        FrameKind::Event => match t.event {
            Some(event) => match a.report_of(t.frame.session_id, event) {
                Some(kind) => OutcomeView {
                    event: Some(a.desk.next_event(now_ms, kind)),
                    ..agent::nothing()
                },
                None => agent::nothing(),
            },
            None => agent::nothing(),
        },
        FrameKind::Jpeg => OutcomeView { video: Some(piece), ..agent::nothing() },
        FrameKind::DoorPcm => OutcomeView { audio: Some(piece), ..agent::nothing() },
        _ => agent::nothing(),
    }
}

/// What a replayed event does. The start of the captured call rings under its session and names
/// its stations; the captured Pad answers a call that rings, and opens the door only of its own
/// call; the end makes the call idle and is reported where there was one; an error is reported.
pub proof fn law_replay_follows_the_capture(
    a: ReplayView,
    session_id: u64,
    door: Seq<char>,
    room: Seq<char>,
    opcode: u32,
    words: Seq<char>,
    now_ms: u64,
)
    ensures
        ({
            let event = AgentEventView::CallStarted { door_id: door, room_id: room };
            let kind = KindView::CallStarted {
                session_id: text::decimal(session_id as nat),
                door_id: door,
                room_id: room,
            };
            let b = a.applied(session_id, event, now_ms);
            &&& b.desk.machine.state.phase == CallPhase::Ringing
            &&& b.desk.machine.state.owner == Owner::Nobody
            &&& b.desk.machine.state.session_id == session_id
            &&& b.desk.since_ms == Some(now_ms)
            &&& b.door_id == Some(door) && b.room_id == Some(room)
            &&& a.report_of(session_id, event) == Some(kind)
            &&& b.desk.log == a.desk.log.with_event(now_ms, kind)
        }),
        ({
            let event = AgentEventView::PadActionObserved { opcode };
            let s = a.desk.machine.state;
            let answers = opcode == 0x05 && s.phase == CallPhase::Ringing && s.owner
                != Owner::Remote;
            let opens = opcode == 0x06 && s.owner == Owner::Pad;
            let b = a.applied(session_id, event, now_ms);
            &&& answers ==> {
                let kind = KindView::PadAnswered { session_id: text::decimal(session_id as nat) };
                &&& b.desk.machine.state.phase == CallPhase::Connected
                &&& b.desk.machine.state.owner == Owner::Pad
                &&& a.report_of(session_id, event) == Some(kind)
                &&& b.desk.log == a.desk.log.with_event(now_ms, kind)
            }
            &&& opens ==> {
                let kind = KindView::Unlocked {
                    session_id: text::decimal(session_id as nat),
                    by: Owner::Pad,
                };
                &&& b.desk.machine == a.desk.machine
                &&& a.report_of(session_id, event) == Some(kind)
                &&& b.desk.log == a.desk.log.with_event(now_ms, kind)
            }
            &&& !answers && !opens ==> b == a && a.report_of(session_id, event) is None
            &&& b.door_id == a.door_id && b.room_id == a.room_id
        }),
        ({
            let event = AgentEventView::CallEnded { reason: words };
            let was_active = a.desk.machine.state.phase != CallPhase::Idle;
            let kind = KindView::CallEnded {
                session_id: text::decimal(session_id as nat),
                reason: words,
            };
            let b = a.applied(session_id, event, now_ms);
            &&& b.desk.machine.state.phase == CallPhase::Idle
            &&& b.desk.machine.state.owner == Owner::Nobody
            &&& b.desk.since_ms == Some(now_ms)
            &&& was_active ==> a.report_of(session_id, event) == Some(kind) && b.desk.log
                == a.desk.log.with_event(now_ms, kind)
            &&& !was_active ==> a.report_of(session_id, event) is None && b.desk.log == a.desk.log
            &&& b.door_id == a.door_id && b.room_id == a.room_id
        }),
        ({
            let event = AgentEventView::Error { message: words };
            let kind = KindView::AgentError { message: words };
            let b = a.applied(session_id, event, now_ms);
            &&& a.report_of(session_id, event) == Some(kind)
            &&& b.desk.log == a.desk.log.with_event(now_ms, kind)
            &&& b.desk.machine == a.desk.machine
        }),
{
}

/// What replaying a frame of a timeline does: an event is applied under its own session and
/// reported under the next number, a picture becomes the latest one and is handed on, sound is
/// handed on, and nothing else does anything.
pub proof fn law_replay_plays_the_timeline(a: ReplayView, t: TimedView, now_ms: u64, pts_us: u64)
    ensures
        ({
            let b = played(a, t, now_ms, pts_us);
            let o = play_outcome(a, t, now_ms, pts_us);
            let piece = MediaView { pts_us, data: t.frame.payload };
            &&& t.frame.kind == FrameKind::Jpeg ==> o.video == Some(piece) && b.desk.latest
                == Some(piece) && b.desk.ring == a.desk.ring.with_video(piece)
                && b.desk.machine == a.desk.machine && b.desk.log == a.desk.log
            &&& t.frame.kind != FrameKind::Jpeg ==> o.video is None && b.desk.latest
                == a.desk.latest
            &&& t.frame.kind == FrameKind::DoorPcm ==> o.audio == Some(piece) && b.desk.ring
                == a.desk.ring.with_audio(piece) && b.desk.machine == a.desk.machine && b.desk.log
                == a.desk.log
            &&& t.frame.kind != FrameKind::DoorPcm ==> o.audio is None
            &&& t.frame.kind == FrameKind::Event && t.event is Some ==> {
                &&& b == a.applied(t.frame.session_id, t.event->0, now_ms)
                &&& o.event == (match a.report_of(t.frame.session_id, t.event->0) {
                    Some(kind) => Some(
                        EventView { seq: a.desk.log.next_seq, at_ms: now_ms, kind },
                    ),
                    None => None,
                })
            }
            &&& t.frame.kind != FrameKind::Event ==> o.event is None
            &&& t.frame.kind != FrameKind::Event && t.frame.kind != FrameKind::Jpeg
                && t.frame.kind != FrameKind::DoorPcm ==> b == a
            &&& o.reply is None && !o.call_ended
        }),
{
}

/// What a packet of a capture adds to the timeline, at its offset from the first session request:
/// the first session request starts the call under its stations, an answer and an opening of the
/// Pad are noted with their opcode, the first hangup ends it, and media counts only where it comes
/// from the door. Each frame bears the session and the next sequence number.
pub proof fn law_timeline_tells_the_call(
    t: TimelineView,
    raw: Seq<u8>,
    source: Ipv4Addr,
    first: u64,
    offset: u64,
)
    requires
        protocol::parsed_message(raw) is Ok,
    ensures
        ({
            let m = protocol::parsed_message(raw)->Ok_0;
            let u = t.with_packet(raw, source, first, offset);
            let one_more = u.out.len() == t.out.len() + 1;
            let last = u.out[t.out.len() as int];
            let from_door = source == (Ipv4Addr { a: 192, b: 168, c: 124, d: 2 });
            let adds = m.family == 0x00b7 && ((m.opcode == 0x01 && !t.started) || m.opcode == 0x05
                || m.opcode == 0x06 || (m.opcode == 0x1e && !t.ended) || (m.opcode == 0x0a
                && from_door && m.media() is Some && (m.media()->0.media_type == 3
                || protocol::frame_from(t.jpeg, m.media()->0) is Some)));
            &&& u.out.take(t.out.len() as int) == t.out
            &&& one_more == adds
            &&& !adds ==> u.out == t.out && u.sequence == t.sequence
            &&& adds ==> {
                &&& last.offset_micros == offset
                &&& last.frame.timestamp_micros == offset
                &&& last.frame.sequence == t.sequence
                &&& last.frame.session_id == u.session_id
                &&& last.frame.flags == 0
                &&& u.sequence as int == (t.sequence + 1) % 0x1_0000_0000
            }
            &&& adds && m.opcode == 0x01 ==> {
                &&& last.frame.kind == FrameKind::Event
                &&& m.endpoints() matches Some(e) ==> last.event == Some(
                    AgentEventView::CallStarted { door_id: e.door.id, room_id: e.room.id },
                )
                &&& u.started
                &&& u.session_id != 0 && (first != 0 ==> u.session_id == first)
            }
            &&& adds && m.opcode == 0x05 ==> last.event == Some(
                AgentEventView::PadActionObserved { opcode: 0x05 },
            )
            &&& adds && m.opcode == 0x06 ==> last.event == Some(
                AgentEventView::PadActionObserved { opcode: 0x06 },
            )
            &&& adds && m.opcode == 0x1e ==> last.event == Some(
                AgentEventView::CallEnded { reason: "captured_hangup"@ },
            ) && u.ended
            &&& adds && m.opcode == 0x0a && m.media()->0.media_type == 3 ==> last.frame.kind
                == FrameKind::DoorPcm && last.frame.payload == m.media()->0.data
            &&& adds && m.opcode == 0x0a && m.media()->0.media_type != 3 ==> last.frame.kind
                == FrameKind::Jpeg && Some(last.frame.payload) == protocol::frame_from(
                t.jpeg,
                m.media()->0,
            )
            &&& m.opcode != 0x01 ==> u.session_id == t.session_id && u.started == t.started
            &&& m.opcode != 0x1e ==> u.ended == t.ended
        }),
{
    let u = t.with_packet(raw, source, first, offset);
    assert(u.out.take(t.out.len() as int) =~= t.out);
}

/// The offsets of a timeline count from the first datagram that asks for a session: a datagram
/// before it adds nothing, and one behind it adds what its packets add at the time since then.
pub proof fn law_timeline_counts_from_the_ring(records: Seq<RecordView>, record: RecordView, first: u64)
    ensures
        ({
            let t = TimelineView::start().with_records(records, first);
            let u = TimelineView::start().with_records(records.push(record), first);
            &&& record.timestamp_micros < first ==> u == t
            &&& record.timestamp_micros >= first ==> u == t.with_packets(
                protocol::pieces(record.payload),
                record.source_ip,
                first,
                (record.timestamp_micros - first) as u64,
            )
        }),
        TimelineView::start().with_records(Seq::empty(), first).out.len() == 0,
        TimelineView::start().sequence == 0,
        !TimelineView::start().started && !TimelineView::start().ended,
        first_request(records) matches Some(at) ==> exists|k: int|
            0 <= k < records.len() && (#[trigger] records[k]).timestamp_micros == at && any_request(
                protocol::pieces(records[k].payload),
            ) && forall|j: int|
                0 <= j < k ==> !any_request(protocol::pieces((#[trigger] records[j]).payload)),
        first_request(records) is None <==> forall|k: int|
            0 <= k < records.len() ==> !any_request(
                protocol::pieces((#[trigger] records[k]).payload),
            ),
{
    assert(records.push(record).drop_last() =~= records);
    lemma_first_request_is_first(records);
}

proof fn lemma_first_request_is_first(records: Seq<RecordView>)
    ensures
        first_request(records) matches Some(at) ==> exists|k: int|
            0 <= k < records.len() && (#[trigger] records[k]).timestamp_micros == at && any_request(
                protocol::pieces(records[k].payload),
            ) && forall|j: int|
                0 <= j < k ==> !any_request(protocol::pieces((#[trigger] records[j]).payload)),
        first_request(records) is None <==> forall|k: int|
            0 <= k < records.len() ==> !any_request(
                protocol::pieces((#[trigger] records[k]).payload),
            ),
    decreases records.len(),
{
    if records.len() > 0 && !any_request(protocol::pieces(records[0].payload)) {
        let rest = records.drop_first();
        lemma_first_request_is_first(rest);
        if first_request(rest) is Some {
            let k = choose|k: int|
                0 <= k < rest.len() && (#[trigger] rest[k]).timestamp_micros == first_request(
                    rest,
                )->0 && any_request(protocol::pieces(rest[k].payload)) && forall|j: int|
                    0 <= j < k ==> !any_request(
                        protocol::pieces((#[trigger] rest[j]).payload),
                    );
            assert(records[k + 1] == rest[k]);
            assert forall|j: int| 0 <= j < k + 1 implies !any_request(
                protocol::pieces((#[trigger] records[j]).payload),
            ) by {
                if j > 0 {
                    assert(rest[j - 1] == records[j]);
                }
            }
        } else {
            assert forall|k: int| 0 <= k < records.len() implies !any_request(
                protocol::pieces((#[trigger] records[k]).payload),
            ) by {
                if k > 0 {
                    assert(rest[k - 1] == records[k]);
                }
            }
        }
        if forall|k: int|
            0 <= k < records.len() ==> !any_request(
                protocol::pieces((#[trigger] records[k]).payload),
            ) {
            assert forall|k: int| 0 <= k < rest.len() implies !any_request(
                protocol::pieces((#[trigger] rest[k]).payload),
            ) by {
                assert(records[k + 1] == rest[k]);
            }
        }
    } else if records.len() > 0 {
        assert(records[0].timestamp_micros == first_request(records)->0);
    }
}

/// The packets of a captured datagram go into the timeline one after the other, at one offset.
pub proof fn law_timeline_takes_packets_in_order(
    t: TimelineView,
    packets: Seq<Seq<u8>>,
    next: Seq<u8>,
    source: Ipv4Addr,
    first: u64,
    offset: u64,
)
    ensures
        t.with_packets(packets.push(next), source, first, offset) == t.with_packets(
            packets,
            source,
            first,
            offset,
        ).with_packet(next, source, first, offset),
        t.with_packets(Seq::empty(), source, first, offset) == t,
{
    assert(packets.push(next).drop_last() =~= packets);
}

/// Parts of pictures are kept where they come from the door, until their frame is whole; what is
/// no packet, or no session packet, adds nothing. A call without stations bears those of the
/// captured intercom.
pub proof fn law_timeline_keeps_parts(
    t: TimelineView,
    raw: Seq<u8>,
    source: Ipv4Addr,
    first: u64,
    offset: u64,
)
    ensures
        ({
            let m = protocol::parsed_message(raw)->Ok_0;
            let u = t.with_packet(raw, source, first, offset);
            let part = protocol::parsed_message(raw) is Ok && m.family == 0x00b7 && m.opcode == 0x0a
                && source == (Ipv4Addr { a: 192, b: 168, c: 124, d: 2 }) && m.media() is Some
                && m.media()->0.media_type != 3;
            &&& part ==> u.jpeg == protocol::frames_after(t.jpeg, m.media()->0)
            &&& !part ==> u.jpeg == t.jpeg
            &&& protocol::parsed_message(raw) is Err ==> u == t
            &&& protocol::parsed_message(raw) is Ok && m.family != 0x00b7 ==> u == t
            &&& protocol::parsed_message(raw) is Ok && m.family == 0x00b7 && m.opcode == 0x01
                && m.endpoints() is None && !t.started ==> u.out.last().event == Some(
                AgentEventView::CallStarted { door_id: "M00000000000"@, room_id: "S00000000000"@ },
            )
        }),
        protocol::captured_endpoints().door.ip == (Ipv4Addr { a: 192, b: 168, c: 124, d: 2 }),
        protocol::captured_endpoints().room.ip == (Ipv4Addr { a: 192, b: 168, c: 124, d: 61 }),
{
}

/// A capture is replayed from its first session request on; one without any, or that cannot be
/// read, is refused. A session request is a session packet with the opcode 1.
pub proof fn law_captures_are_replayed(data: Seq<u8>, records: Seq<RecordView>, raw: Seq<u8>, packets: Seq<Seq<u8>>)
    ensures
        pcap::captured_records(data) is None ==> captured_timeline(data) == Err::<
            Seq<TimedView>,
            ReplayError,
        >(ReplayError::Capture),
        pcap::captured_records(data) == Some(records) ==> captured_timeline(data) == timeline_of(
            records,
        ),
        first_request(records) is None ==> timeline_of(records) == Err::<
            Seq<TimedView>,
            ReplayError,
        >(ReplayError::NoSession),
        first_request(records) matches Some(first) ==> timeline_of(records) == Ok::<
            Seq<TimedView>,
            ReplayError,
        >(TimelineView::start().with_records(records, first).out),
        is_session_request(raw) <==> protocol::parsed_message(raw) is Ok && protocol::parsed_message(
            raw,
        )->Ok_0.family == 0x00b7 && protocol::parsed_message(raw)->Ok_0.opcode == 0x01,
        any_request(packets) <==> exists|i: int|
            0 <= i < packets.len() && is_session_request(#[trigger] packets[i]),
{
}

/// A replayed event touches the call and the log, never the media or the results; news of the
/// other kinds does nothing.
pub proof fn law_replayed_events_touch_the_call(
    a: ReplayView,
    session_id: u64,
    event: AgentEventView,
    now_ms: u64,
)
    ensures
        ({
            let b = a.applied(session_id, event, now_ms);
            &&& b.desk.ring == a.desk.ring
            &&& b.desk.latest == a.desk.latest
            &&& b.desk.cache == a.desk.cache
            &&& event is Hello || event is Snapshot ==> b == a && a.report_of(session_id, event)
                is None
        }),
{
}

} // verus!
