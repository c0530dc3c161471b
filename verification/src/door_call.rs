//! The call of an emulated door, from the ring to the hangup: which packets each tick of a clock
//! sends, what the datagrams of the Pad bring, and when the call is over.

use vstd::prelude::*;
use vstd::utf8;
use crate::agent;
use crate::bytes;
use crate::emitter;
use crate::emitter::{DoorObservation, Emulator, EmulatorView, MediaSource, Observed};
use crate::media;
use crate::protocol;
use crate::protocol::{Endpoints, FAMILY_SESSION, OP_HANGUP, OP_KEEPALIVE};
use crate::text;
use crate::time::Instant;

verus! {

/// The clocks of a call.
#[derive(Clone, Copy, Debug, PartialEq, Eq, Structural)]
pub enum Tick {
    /// The camera has another frame.
    Frame,
    /// The microphone has more samples.
    Audio,
    /// It is time to say that the call goes on.
    Keepalive,
}

pub struct DoorCall {
    door: Emulator,
    seen: DoorObservation,
    hung_up: bool,
    deadline: Option<Instant>,
}

/// What a call holds: the door and its place in its media, what came back from the Pad, whether
/// the Pad has hung up, and when the call ends at the latest.
pub struct DoorCallView {
    pub door: EmulatorView,
    pub seen: DoorObservation,
    pub hung_up: bool,
    pub deadline: Option<Instant>,
}

impl View for DoorCall {
    type V = DoorCallView;

    closed spec fn view(&self) -> DoorCallView {
        DoorCallView {
            door: self.door@,
            seen: self.seen,
            hung_up: self.hung_up,
            deadline: self.deadline,
        }
    }
}

/// What to do with a packet of the Pad.
pub struct ObservedView {
    pub line: Option<Seq<char>>,
    pub voice: Option<Seq<u8>>,
    pub hung_up: bool,
}

impl View for Observed {
    type V = ObservedView;

    open spec fn view(&self) -> ObservedView {
        ObservedView {
            line: text::text_view(self.line),
            voice: agent::blob_view(self.voice),
            hung_up: self.hung_up,
        }
    }
}

/// What to do with each of several packets.
pub open spec fn observed_views(s: Seq<Observed>) -> Seq<ObservedView> {
    s.map_values(|o: Observed| o@)
}

impl DoorCallView {
    /// What to do with a packet of the Pad.
    pub open spec fn observed(self, raw: Seq<u8>) -> ObservedView {
        match protocol::parsed_message(raw) {
            Err(_) => ObservedView { line: None, voice: None, hung_up: false },
            Ok(m) => ObservedView {
                line: self.seen.line(m),
                voice: emitter::voice_of(m),
                hung_up: m.family == FAMILY_SESSION && m.opcode == OP_HANGUP,
            },
        }
    }

    /// The call once a packet of the Pad has come.
    pub open spec fn heard(self, raw: Seq<u8>) -> DoorCallView {
        DoorCallView {
            seen: match protocol::parsed_message(raw) {
                Err(_) => self.seen,
                Ok(m) => self.seen.seen(m),
            },
            hung_up: self.hung_up || self.observed(raw).hung_up,
            ..self
        }
    }

    /// The packets of a datagram come in, one after the other.
    pub open spec fn fed(self, pieces: Seq<Seq<u8>>) -> (DoorCallView, Seq<ObservedView>)
        decreases pieces.len(),
    {
        if pieces.len() == 0 {
            (self, Seq::empty())
        } else {
            let before = self.fed(pieces.drop_last());
            (before.0.heard(pieces.last()), before.1.push(before.0.observed(pieces.last())))
        }
    }

    /// The packets that a tick sends. There is no voice until the Pad has answered.
    pub open spec fn packets(self, tick: Tick) -> Seq<Seq<u8>> {
        let e = self.door.endpoints;
        match tick {
            Tick::Frame => {
                let frame = self.door.frames[self.door.frame as int];
                if e.fits() && frame.len() <= 65535 * 1200 {
                    Seq::new(
                        protocol::slot_count(frame.len()),
                        |i: int| protocol::jpeg_bytes(self.door.sequence, frame, i + 1, e),
                    )
                } else {
                    Seq::empty()
                }
            },
            Tick::Audio => if self.seen.answered && self.door.next_samples().len() == 512
                && e.fits() {
                seq![
                    protocol::audio_bytes(self.door.audio_sequence, self.door.next_samples(), e),
                ]
            } else {
                Seq::empty()
            },
            Tick::Keepalive => if e.fits() {
                seq![protocol::control_bytes(OP_KEEPALIVE, e)]
            } else {
                Seq::empty()
            },
        }
    }

    /// The call once a tick has passed.
    pub open spec fn ticked(self, tick: Tick) -> DoorCallView {
        match tick {
            Tick::Frame => DoorCallView { door: self.door.shown(), ..self },
            Tick::Audio => if self.seen.answered {
                DoorCallView { door: self.door.played(), ..self }
            } else {
                self
            },
            Tick::Keepalive => self,
        }
    }

    /// Whether the call is over at this time: the Pad has hung up, or the deadline is there.
    pub open spec fn over(self, now: Instant) -> bool {
        self.hung_up || match self.deadline {
            Some(deadline) => now.nanos >= deadline.nanos,
            None => false,
        }
    }
}

impl DoorCall {
    /// Whether the places in the media are in range.
    pub open spec fn wf(&self) -> bool {
        self@.door.in_range()
    }

    /// A call that is about to ring, without a deadline.
    pub fn new(endpoints: Endpoints, source: MediaSource) -> (r: Self)
        requires
            source.frames@.len() > 0,
        ensures
            r.wf(),
            r@ == (DoorCallView {
                door: EmulatorView {
                    endpoints: endpoints@,
                    frames: media::blob_views(source.frames@),
                    audio: media::blob_views(source.audio@),
                    frame: 0,
                    chunk: 0,
                    sequence: 1,
                    audio_sequence: 0,
                },
                seen: DoorObservation {
                    capability_reply: false,
                    answered: false,
                    unlocks: 0,
                    hangups: 0,
                    audio_packets: 0,
                    audio_bytes: 0,
                },
                hung_up: false,
                deadline: None,
            }),
    {
        DoorCall {
            door: Emulator::new(endpoints, source),
            seen: DoorObservation::default(),
            hung_up: false,
            deadline: None,
        }
    }

    /// Sets when the call ends at the latest.
    pub fn end_at(&mut self, deadline: Option<Instant>)
        ensures
            final(self)@ == (DoorCallView { deadline, ..old(self)@ }),
    {
        self.deadline = deadline;
    }

    /// What came back from the Pad.
    pub fn observation(&self) -> (r: DoorObservation)
        ensures
            r == self@.seen,
    {
        self.seen
    }

    /// Whether the call is over at this time.
    pub fn is_over(&self, now: Instant) -> (r: bool)
        ensures
            r == self@.over(now),
    {
        if self.hung_up {
            return true;
        }
        match self.deadline {
            Some(deadline) => now.nanos >= deadline.nanos,
            None => false,
        }
    }

    /// Takes in one packet of the Pad.
    fn on_packet(&mut self, raw: &[u8]) -> (r: Observed)
        ensures
            final(self)@ == old(self)@.heard(raw@),
            r@ == old(self)@.observed(raw@),
    {
        let observed = emitter::observe_reply(raw, &mut self.seen);
        self.hung_up = self.hung_up || observed.hung_up;
        observed
    }

    /// Takes in a datagram of the Pad; what to do with each of its packets.
    pub fn on_datagram(&mut self, payload: &[u8]) -> (r: Vec<Observed>)
        ensures
            final(self)@ == old(self)@.fed(protocol::pieces(payload@)).0,
            observed_views(r@) == old(self)@.fed(protocol::pieces(payload@)).1,
    {
        let ghost start = self@;
        let ghost all = protocol::pieces(payload@);
        let pieces = protocol::split_coalesced(payload);
        let mut out: Vec<Observed> = Vec::new();
        let mut i: usize = 0;
        proof {
            assert(protocol::slices(pieces@).len() == pieces@.len());
            assert(all.take(0) =~= Seq::empty());
            assert(observed_views(out@) =~= Seq::empty());
        }
        while i < pieces.len()
            invariant
                i <= pieces@.len() == all.len(),
                protocol::slices(pieces@) == all,
                self@ == start.fed(all.take(i as int)).0,
                observed_views(out@) == start.fed(all.take(i as int)).1,
            decreases pieces@.len() - i,
        {
            let ghost before = observed_views(out@);
            proof {
                assert(protocol::slices(pieces@)[i as int] == pieces@[i as int]@);
                assert(all.take(i + 1).drop_last() =~= all.take(i as int));
                assert(all.take(i + 1).last() == pieces@[i as int]@);
            }
            let observed = self.on_packet(pieces[i]);
            let ghost view = observed@;
            out.push(observed);
            assert(observed_views(out@) =~= before.push(view));
            i = i + 1;
        }
        assert(all.take(i as int) =~= all);
        out
    }

    /// The packets that a tick sends.
    pub fn on_tick(&mut self, tick: Tick) -> (r: Vec<Vec<u8>>)
        requires
            old(self).wf(),
        ensures
            final(self).wf(),
            final(self)@ == old(self)@.ticked(tick),
            media::blob_views(r@) == old(self)@.packets(tick),
    {
        let ghost before = self@;
        match tick {
            Tick::Frame => {
                let packets = self.door.next_frame();
                assert(media::blob_views(packets@) =~= before.packets(tick));
                packets
            },
            Tick::Audio => {
                let packet = self.door.next_audio(self.seen.answered);
                let packets = listed(packet);
                assert(media::blob_views(packets@) =~= before.packets(tick));
                packets
            },
            Tick::Keepalive => {
                let packet = self.door.control(OP_KEEPALIVE);
                let packets = listed(packet);
                assert(media::blob_views(packets@) =~= before.packets(tick));
                packets
            },
        }
    }

    /// The packet that ends the call.
    pub fn hangup(&self) -> (r: Option<Vec<u8>>)
        ensures
            agent::blob_view(r) == (if self@.door.endpoints.fits() {
                Some(protocol::control_bytes(OP_HANGUP, self@.door.endpoints))
            } else {
                None
            }),
    {
        self.door.control(OP_HANGUP)
    }
}

/// A list of the packet, where there is one.
fn listed(packet: Option<Vec<u8>>) -> (r: Vec<Vec<u8>>)
    ensures
        media::blob_views(r@) == (match agent::blob_view(packet) {
            Some(p) => seq![p],
            None => Seq::empty(),
        }),
{
    let mut out: Vec<Vec<u8>> = Vec::new();
    if let Some(p) = packet {
        out.push(p);
    }
    assert(media::blob_views(out@) =~= (match agent::blob_view(packet) {
        Some(p) => seq![p],
        None => Seq::empty(),
    }));
    out
}

/// Until the Pad has answered, the microphone sends nothing and keeps its place.
pub proof fn law_no_voice_before_answer(call: DoorCallView)
    requires
        !call.seen.answered,
    ensures
        call.packets(Tick::Audio) == Seq::<Seq<u8>>::empty(),
        call.ticked(Tick::Audio) == call,
{
}

/// A hangup of the Pad ends the call at once and for good: whatever other packets came with it
/// or come later, and whatever ticks pass.
pub proof fn law_pad_hangup_ends_call(
    call: DoorCallView,
    pieces: Seq<Seq<u8>>,
    at: int,
    later: Seq<Seq<u8>>,
    tick: Tick,
    now: Instant,
)
    requires
        0 <= at < pieces.len(),
        call.observed(pieces[at]).hung_up,
    ensures
        call.fed(pieces).0.over(now),
        call.fed(pieces).0.fed(later).0.ticked(tick).over(now),
{
    lemma_hangup_is_heard(call, pieces, at);
    lemma_hangup_stays(call.fed(pieces).0, later);
}

/// Whether a packet is a hangup does not depend on the call.
proof fn lemma_hangup_is_heard(call: DoorCallView, pieces: Seq<Seq<u8>>, at: int)
    requires
        0 <= at < pieces.len(),
        call.observed(pieces[at]).hung_up,
    ensures
        call.fed(pieces).0.hung_up,
    decreases pieces.len(),
{
    let rest = pieces.drop_last();
    if at < rest.len() {
        assert(rest[at] == pieces[at]);
        lemma_hangup_is_heard(call, rest, at);
    }
}

/// Once the Pad has hung up, no packet undoes it.
proof fn lemma_hangup_stays(call: DoorCallView, pieces: Seq<Seq<u8>>)
    requires
        call.hung_up,
    ensures
        call.fed(pieces).0.hung_up,
    decreases pieces.len(),
{
    if pieces.len() > 0 {
        lemma_hangup_stays(call, pieces.drop_last());
    }
}

/// The call once these ticks have passed.
pub open spec fn ticked_all(call: DoorCallView, ticks: Seq<Tick>) -> DoorCallView
    decreases ticks.len(),
{
    if ticks.len() == 0 {
        call
    } else {
        ticked_all(call, ticks.drop_last()).ticked(ticks.last())
    }
}

/// How many of the ticks are of this kind.
pub open spec fn ticks_of(ticks: Seq<Tick>, tick: Tick) -> nat
    decreases ticks.len(),
{
    if ticks.len() == 0 {
        0
    } else {
        ticks_of(ticks.drop_last(), tick) + if ticks.last() == tick {
            1nat
        } else {
            0nat
        }
    }
}

/// Whatever ticks have passed, the camera has shown as many frames as there were ticks of it and,
/// once the Pad has answered, the microphone has played as many pieces; until then it has played
/// none. A keepalive moves neither.
pub proof fn law_ticks_move_the_media(call: DoorCallView, ticks: Seq<Tick>)
    ensures
        ({
            let after = ticked_all(call, ticks);
            let shown = emitter::shown_times(call.door, ticks_of(ticks, Tick::Frame));
            &&& call.seen.answered ==> after.door == emitter::played_times(
                shown,
                ticks_of(ticks, Tick::Audio),
            )
            &&& !call.seen.answered ==> after.door == shown
            &&& after.seen == call.seen
            &&& after.hung_up == call.hung_up
            &&& after.deadline == call.deadline
        }),
    decreases ticks.len(),
{
    if ticks.len() > 0 {
        law_ticks_move_the_media(call, ticks.drop_last());
        let n = ticks_of(ticks.drop_last(), Tick::Frame);
        let k = ticks_of(ticks.drop_last(), Tick::Audio);
        lemma_shown_and_played(emitter::shown_times(call.door, n), k);
    }
}

/// Showing a frame and playing samples do not depend on each other.
proof fn lemma_shown_and_played(v: EmulatorView, k: nat)
    ensures
        emitter::played_times(v, k).shown() == emitter::played_times(v.shown(), k),
    decreases k,
{
    if k > 0 {
        lemma_shown_and_played(v, (k - 1) as nat);
    }
}

/// What a tick sends. A tick of the camera sends the frame that is due, cut into packets of 1200
/// bytes; one of the microphone sends the samples that are due, once the Pad has answered; a
/// keepalive is a session packet with nothing but the stations.
pub proof fn law_ticks_send_what_is_due(call: DoorCallView, i: int)
    requires
        call.door.in_range(),
        call.door.endpoints.fits(),
        call.door.endpoints.door.nul_free(),
        call.door.endpoints.room.nul_free(),
    ensures
        ({
            let frame = call.door.frames[call.door.frame as int];
            let packets = call.packets(Tick::Frame);
            &&& frame.len() <= 65535 * 1200 ==> packets.len() == (frame.len() + 1199) / 1200
            &&& frame.len() <= 65535 * 1200 && 0 <= i < packets.len() ==> {
                let m = protocol::parsed_message(packets[i]);
                let end = if (i + 1) * 1200 <= frame.len() {
                    (i + 1) * 1200
                } else {
                    frame.len() as int
                };
                &&& m is Ok
                &&& m->Ok_0.endpoints() == Some(call.door.endpoints)
                &&& m->Ok_0.media() is Some
                &&& m->Ok_0.media()->0.media_type == 1
                &&& m->Ok_0.media()->0.sequence == call.door.sequence
                &&& m->Ok_0.media()->0.fragment_index == i + 1
                &&& m->Ok_0.media()->0.data == frame.subrange(i * 1200, end)
            }
        }),
        ({
            let samples = if call.door.audio.len() == 0 {
                Seq::new(512, |j: int| 0u8)
            } else {
                call.door.audio[call.door.chunk as int]
            };
            let packets = call.packets(Tick::Audio);
            &&& !call.seen.answered || samples.len() != 512 ==> packets.len() == 0
            &&& call.seen.answered && samples.len() == 512 ==> {
                let m = protocol::parsed_message(packets[0]);
                &&& packets.len() == 1
                &&& m is Ok
                &&& m->Ok_0.endpoints() == Some(call.door.endpoints)
                &&& m->Ok_0.media() is Some
                &&& m->Ok_0.media()->0.media_type == 3
                &&& m->Ok_0.media()->0.sequence == call.door.audio_sequence
                &&& m->Ok_0.media()->0.data == samples
            }
        }),
        ({
            let packets = call.packets(Tick::Keepalive);
            let m = protocol::parsed_message(packets[0]);
            &&& packets.len() == 1
            &&& m is Ok
            &&& m->Ok_0.family == 0x00b7
            &&& m->Ok_0.opcode == 0x0c
            &&& m->Ok_0.endpoints() == Some(call.door.endpoints)
        }),
{
    let e = call.door.endpoints;
    let frame = call.door.frames[call.door.frame as int];
    let packets = call.packets(Tick::Frame);
    if frame.len() <= 65535 * 1200 && 0 <= i < packets.len() {
        assert((i + 1 - 1) * 1200 < frame.len());
        protocol::law_jpeg_packet_carries_its_part(call.door.sequence, frame, i + 1, e);
    }
    let silence = Seq::new(512, |j: int| 0u8);
    assert(bytes::zeros(512) =~= silence);
    let samples = call.door.next_samples();
    if samples.len() == 512 {
        protocol::law_audio_packet_names_its_stations(call.door.audio_sequence, samples, e);
    }
    protocol::law_control_round_trip(0x0c, e);
}

/// What a packet of the Pad does to the call: it is counted, a hangup is noted, and voice is handed
/// on; the media keep their places and the deadline stays. What is no packet does nothing.
pub proof fn law_call_hears_the_pad(call: DoorCallView, raw: Seq<u8>)
    ensures
        ({
            let parsed = protocol::parsed_message(raw);
            let m = parsed->Ok_0;
            let after = call.heard(raw);
            let o = call.observed(raw);
            let hangup = parsed is Ok && m.family == 0x00b7 && m.opcode == 0x1e;
            &&& parsed is Err ==> after == call && o.line is None && o.voice is None
            &&& parsed is Ok ==> after.seen == call.seen.seen(m) && o.line == call.seen.line(m)
            &&& after.hung_up == (call.hung_up || hangup)
            &&& o.hung_up == hangup
            &&& parsed is Ok && m.media() is Some && m.media()->0.media_type == 3 ==> o.voice
                == Some(m.media()->0.data)
            &&& parsed is Ok && m.media() is None ==> o.voice is None
            &&& after.door == call.door
            &&& after.deadline == call.deadline
        }),
{
}

/// A call is over exactly once the Pad has hung up or the deadline is there.
pub proof fn law_call_ends_in_time(call: DoorCallView, now: Instant)
    ensures
        call.over(now) <==> call.hung_up || (call.deadline is Some && now.nanos
            >= call.deadline->0.nanos),
{
}

/// The packets of a datagram are heard one after the other, each observed on what those before it
/// have brought.
pub proof fn law_packets_are_heard_in_order(
    call: DoorCallView,
    packets: Seq<Seq<u8>>,
    next: Seq<u8>,
)
    ensures
        ({
            let before = call.fed(packets);
            let after = call.fed(packets.push(next));
            &&& after.0 == before.0.heard(next)
            &&& after.1 == before.1.push(before.0.observed(next))
        }),
        call.fed(Seq::empty()) == (call, Seq::<ObservedView>::empty()),
{
    assert(packets.push(next).drop_last() =~= packets);
}

/// What is no voice is not handed on, and nothing is sent for stations whose ids do not fit.
pub proof fn law_call_keeps_to_its_form(call: DoorCallView, raw: Seq<u8>, tick: Tick)
    ensures
        protocol::parsed_message(raw) matches Ok(m) ==> (m.media() matches Some(f) ==> (f.media_type
            != 3 ==> call.observed(raw).voice is None)),
        !(utf8::encode_utf8(call.door.endpoints.door.id).len() <= 20 && utf8::encode_utf8(
            call.door.endpoints.room.id,
        ).len() <= 20) ==> call.packets(tick).len() == 0,
{
}

} // verus!
