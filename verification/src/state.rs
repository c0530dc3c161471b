//! The state machine of one call: who owns it, and when the door may be opened.

use vstd::prelude::*;
use crate::time;
use crate::time::{Duration, Instant};

verus! {

#[derive(Clone, Copy, Debug, PartialEq, Eq, Structural)]
pub enum CallPhase {
    Idle,
    Ringing,
    Connected,
    Ending,
}

#[derive(Clone, Copy, Debug, PartialEq, Eq, Structural)]
pub enum Owner {
    Nobody,
    Pad,
    Remote,
}

#[derive(Clone, Copy, Debug, PartialEq, Eq, Structural)]
pub enum StateError {
    NotRinging,
    PadOwnsCall,
    UnlockNotAllowed,
    UnlockCooldown,
}

impl StateError {
    /// The message that describes the error.
    pub open spec fn text(self) -> Seq<char> {
        match self {
            StateError::NotRinging => "no ringing call is available"@,
            StateError::PadOwnsCall => "the physical pad owns this call"@,
            StateError::UnlockNotAllowed =>
                "unlock is allowed only after the remote Matter session has answered"@,
            StateError::UnlockCooldown => "unlock cooldown is active"@,
        }
    }

    /// The message that describes the error.
    pub fn message(&self) -> (r: &'static str)
        ensures
            r@ == self.text(),
    {
        match self {
            StateError::NotRinging => "no ringing call is available",
            StateError::PadOwnsCall => "the physical pad owns this call",
            StateError::UnlockNotAllowed =>
                "unlock is allowed only after the remote Matter session has answered",
            StateError::UnlockCooldown => "unlock cooldown is active",
        }
    }
}

/// What the outside sees of a call. The counters count modulo 2^64.
#[derive(Clone, Copy, Debug, PartialEq, Eq, Structural)]
pub struct PublicCallState {
    pub session_id: u64,
    pub phase: CallPhase,
    pub owner: Owner,
    pub video_frames: u64,
    pub door_audio_packets: u64,
    pub unlocks: u64,
}

/// A counter that has counted one more.
pub open spec fn counted(n: u64) -> u64 {
    if n == u64::MAX {
        0
    } else {
        (n + 1) as u64
    }
}

/// One call, and the rules on answering it and on opening the door.
pub struct CallMachine {
    state: PublicCallState,
    unlock_cooldown: Duration,
    unlock_requires_answer: bool,
    last_unlock: Option<Instant>,
}

/// What a call machine holds.
#[derive(Clone, Copy, Debug, PartialEq, Eq, Structural)]
pub struct MachineView {
    pub state: PublicCallState,
    pub unlock_cooldown: Duration,
    pub unlock_requires_answer: bool,
    pub last_unlock: Option<Instant>,
}

impl View for CallMachine {
    type V = MachineView;

    closed spec fn view(&self) -> MachineView {
        MachineView {
            state: self.state,
            unlock_cooldown: self.unlock_cooldown,
            unlock_requires_answer: self.unlock_requires_answer,
            last_unlock: self.last_unlock,
        }
    }
}

impl MachineView {
    /// No call yet, and nothing counted.
    pub open spec fn fresh(unlock_cooldown: Duration, unlock_requires_answer: bool) -> Self {
        MachineView {
            state: PublicCallState {
                session_id: 0,
                phase: CallPhase::Idle,
                owner: Owner::Nobody,
                video_frames: 0,
                door_audio_packets: 0,
                unlocks: 0,
            },
            unlock_cooldown,
            unlock_requires_answer,
            last_unlock: None,
        }
    }

    /// A new call rings: everything starts from zero but the policy.
    pub open spec fn started(self, session_id: u64) -> Self {
        MachineView {
            state: PublicCallState {
                session_id,
                phase: CallPhase::Ringing,
                owner: Owner::Nobody,
                video_frames: 0,
                door_audio_packets: 0,
                unlocks: 0,
            },
            last_unlock: None,
            ..self
        }
    }

    /// The call is answered by this owner.
    pub open spec fn answered(self, owner: Owner) -> Self {
        MachineView {
            state: PublicCallState { phase: CallPhase::Connected, owner, ..self.state },
            ..self
        }
    }

    /// Why the Pad may not answer.
    pub open spec fn pad_refusal(self) -> Option<StateError> {
        if self.state.phase != CallPhase::Ringing || self.state.owner == Owner::Remote {
            Some(StateError::NotRinging)
        } else {
            None
        }
    }

    /// Why the remote side may not answer.
    pub open spec fn remote_refusal(self) -> Option<StateError> {
        if self.state.phase != CallPhase::Ringing {
            Some(StateError::NotRinging)
        } else if self.state.owner == Owner::Pad {
            Some(StateError::PadOwnsCall)
        } else {
            None
        }
    }

    /// Whether the remote side has answered and owns the call.
    pub open spec fn remote_connected(self) -> bool {
        self.state.phase == CallPhase::Connected && self.state.owner == Owner::Remote
    }

    /// Why the door may not be opened at this point in time.
    pub open spec fn unlock_refusal(self, now: Instant) -> Option<StateError> {
        if self.unlock_requires_answer && !self.remote_connected() {
            Some(StateError::UnlockNotAllowed)
        } else {
            match self.last_unlock {
                Some(last) => if time::elapsed(now, last) < self.unlock_cooldown.nanos {
                    Some(StateError::UnlockCooldown)
                } else {
                    None
                },
                None => None,
            }
        }
    }

    /// The door has been opened.
    pub open spec fn unlocked(self, now: Instant) -> Self {
        MachineView {
            state: PublicCallState { unlocks: counted(self.state.unlocks), ..self.state },
            last_unlock: Some(now),
            ..self
        }
    }

    /// One more video frame has been seen.
    pub open spec fn with_frame(self) -> Self {
        MachineView {
            state: PublicCallState {
                video_frames: counted(self.state.video_frames),
                ..self.state
            },
            ..self
        }
    }

    /// One more audio packet of the door has been heard.
    pub open spec fn with_audio(self) -> Self {
        MachineView {
            state: PublicCallState {
                door_audio_packets: counted(self.state.door_audio_packets),
                ..self.state
            },
            ..self
        }
    }

    /// The call is over; its counters stay.
    pub open spec fn ended(self) -> Self {
        MachineView {
            state: PublicCallState { phase: CallPhase::Idle, owner: Owner::Nobody, ..self.state },
            last_unlock: None,
            ..self
        }
    }
}

impl CallMachine {
    /// A machine that lets the door be opened at any time, once per cooldown.
    pub fn new(unlock_cooldown: Duration) -> (r: Self)
        ensures
            r@ == MachineView::fresh(unlock_cooldown, false),
    {
        CallMachine::with_policy(unlock_cooldown, false)
    }

    /// A machine that may ask for a remotely answered call before it opens the door.
    pub fn with_policy(unlock_cooldown: Duration, unlock_requires_answer: bool) -> (r: Self)
        ensures
            r@ == MachineView::fresh(unlock_cooldown, unlock_requires_answer),
    {
        CallMachine {
            state: PublicCallState {
                session_id: 0,
                phase: CallPhase::Idle,
                owner: Owner::Nobody,
                video_frames: 0,
                door_audio_packets: 0,
                unlocks: 0,
            },
            unlock_cooldown,
            unlock_requires_answer,
            last_unlock: None,
        }
    }

    pub fn start_call(&mut self, session_id: u64)
        ensures
            final(self)@ == old(self)@.started(session_id),
    {
        self.state = PublicCallState {
            session_id,
            phase: CallPhase::Ringing,
            owner: Owner::Nobody,
            video_frames: 0,
            door_audio_packets: 0,
            unlocks: 0,
        };
        self.last_unlock = None;
    }

    pub fn pad_answer(&mut self) -> (r: Result<(), StateError>)
        ensures
            match r {
                Ok(_) => old(self)@.pad_refusal() is None && final(self)@ == old(self)@.answered(
                    Owner::Pad,
                ),
                Err(e) => old(self)@.pad_refusal() == Some(e) && final(self)@ == old(self)@,
            },
    {
        if self.state.phase != CallPhase::Ringing {
            return Err(StateError::NotRinging);
        }
        if self.state.owner == Owner::Remote {
            return Err(StateError::NotRinging);
        }
        self.state.owner = Owner::Pad;
        self.state.phase = CallPhase::Connected;
        Ok(())
    }

    pub fn remote_answer(&mut self) -> (r: Result<(), StateError>)
        ensures
            match r {
                Ok(_) => old(self)@.remote_refusal() is None && final(self)@ == old(
                    self,
                )@.answered(Owner::Remote),
                Err(e) => old(self)@.remote_refusal() == Some(e) && final(self)@ == old(self)@,
            },
    {
        if self.state.phase != CallPhase::Ringing {
            return Err(StateError::NotRinging);
        }
        if self.state.owner == Owner::Pad {
            return Err(StateError::PadOwnsCall);
        }
        self.state.owner = Owner::Remote;
        self.state.phase = CallPhase::Connected;
        Ok(())
    }

    pub fn unlock(&mut self, now: Instant) -> (r: Result<(), StateError>)
        ensures
            match r {
                Ok(_) => old(self)@.unlock_refusal(now) is None && final(self)@ == old(
                    self,
                )@.unlocked(now),
                Err(e) => old(self)@.unlock_refusal(now) == Some(e) && final(self)@ == old(self)@,
            },
    {
        if self.unlock_requires_answer && (self.state.phase != CallPhase::Connected
            || self.state.owner != Owner::Remote) {
            return Err(StateError::UnlockNotAllowed);
        }
        if let Some(last) = self.last_unlock {
            if now.duration_since(last).nanos < self.unlock_cooldown.nanos {
                return Err(StateError::UnlockCooldown);
            }
        }
        self.last_unlock = Some(now);
        self.state.unlocks = count(self.state.unlocks);
        Ok(())
    }

    pub fn video_frame(&mut self)
        ensures
            final(self)@ == old(self)@.with_frame(),
    {
        self.state.video_frames = count(self.state.video_frames);
    }

    pub fn door_audio(&mut self)
        ensures
            final(self)@ == old(self)@.with_audio(),
    {
        self.state.door_audio_packets = count(self.state.door_audio_packets);
    }

    pub fn hangup(&mut self)
        ensures
            final(self)@ == old(self)@.ended(),
    {
        self.state.phase = CallPhase::Idle;
        self.state.owner = Owner::Nobody;
        self.last_unlock = None;
    }

    pub fn state(&self) -> (r: &PublicCallState)
        ensures
            *r == self@.state,
    {
        &self.state
    }

    /// Whether the remote side may send and receive the media of this session.
    pub fn remote_media_allowed(&self, session_id: u64) -> (r: bool)
        ensures
            r == (self@.state.session_id == session_id && self@.remote_connected()),
    {
        self.state.session_id == session_id && self.state.phase == CallPhase::Connected
            && self.state.owner == Owner::Remote
    }
}

/// A counter that has counted one more, modulo 2^64.
pub fn count(n: u64) -> (r: u64)
    ensures
        r == counted(n),
{
    if n == u64::MAX {
        0
    } else {
        n + 1
    }
}

/// What can happen to a call.
pub enum CallStep {
    Start(u64),
    PadAnswer,
    RemoteAnswer,
    Unlock(Instant),
    VideoFrame,
    DoorAudio,
    Hangup,
}

/// The machine after a step; a refused step changes nothing.
pub open spec fn stepped(m: MachineView, step: CallStep) -> MachineView {
    match step {
        CallStep::Start(session_id) => m.started(session_id),
        CallStep::PadAnswer => if m.pad_refusal() is None {
            m.answered(Owner::Pad)
        } else {
            m
        },
        CallStep::RemoteAnswer => if m.remote_refusal() is None {
            m.answered(Owner::Remote)
        } else {
            m
        },
        CallStep::Unlock(now) => if m.unlock_refusal(now) is None {
            m.unlocked(now)
        } else {
            m
        },
        CallStep::VideoFrame => m.with_frame(),
        CallStep::DoorAudio => m.with_audio(),
        CallStep::Hangup => m.ended(),
    }
}

/// The machine after all of the steps.
pub open spec fn run(m: MachineView, steps: Seq<CallStep>) -> MachineView
    decreases steps.len(),
{
    if steps.len() == 0 {
        m
    } else {
        stepped(run(m, steps.drop_last()), steps.last())
    }
}

impl MachineView {
    /// A call has an owner exactly while it is connected, and it is never in the ending phase.
    pub open spec fn consistent(self) -> bool {
        &&& self.state.phase != CallPhase::Ending
        &&& self.state.phase == CallPhase::Connected <==> self.state.owner != Owner::Nobody
    }
}

/// Whatever happens, a call has an owner exactly while it is connected.
pub proof fn law_owner_only_while_connected(
    unlock_cooldown: Duration,
    unlock_requires_answer: bool,
    steps: Seq<CallStep>,
)
    ensures
        run(MachineView::fresh(unlock_cooldown, unlock_requires_answer), steps).consistent(),
    decreases steps.len(),
{
    if steps.len() > 0 {
        law_owner_only_while_connected(
            unlock_cooldown,
            unlock_requires_answer,
            steps.drop_last(),
        );
    }
}

/// The first answer wins: once a call is connected, neither side can answer it, and only the end
/// of the call or a new call changes its owner.
pub proof fn law_first_answer_wins(m: MachineView, step: CallStep)
    requires
        m.state.phase == CallPhase::Connected,
    ensures
        m.pad_refusal() == Some(StateError::NotRinging),
        m.remote_refusal() == Some(StateError::NotRinging),
        !(step is Start) && !(step is Hangup) ==> stepped(m, step).state.owner == m.state.owner
            && stepped(m, step).state.phase == CallPhase::Connected,
{
}

/// Whether a step leaves a door shut that was opened at `first`: it neither ends the call nor
/// starts another, and a request to open the door comes within the cooldown.
pub open spec fn within_cooldown(step: CallStep, first: Instant, cooldown: Duration) -> bool {
    match step {
        CallStep::Start(_) => false,
        CallStep::Hangup => false,
        CallStep::Unlock(now) => time::elapsed(now, first) < cooldown.nanos,
        _ => true,
    }
}

/// After the door has been opened, every further request is refused until the cooldown is over,
/// however many there are, unless the call ends or a new one starts in between.
pub proof fn law_unlock_cooldown(m: MachineView, first: Instant, steps: Seq<CallStep>, now: Instant)
    requires
        m.unlock_refusal(first) is None,
        forall|i: int|
            0 <= i < steps.len() ==> within_cooldown(
                #[trigger] steps[i],
                first,
                m.unlock_cooldown,
            ),
        time::elapsed(now, first) < m.unlock_cooldown.nanos,
    ensures
        run(m.unlocked(first), steps).unlock_refusal(now) is Some,
        run(m.unlocked(first), steps).last_unlock == Some(first),
        run(m.unlocked(first), steps).unlock_cooldown == m.unlock_cooldown,
        run(m.unlocked(first), steps).state.unlocks == m.unlocked(first).state.unlocks,
    decreases steps.len(),
{
    if steps.len() > 0 {
        let rest = steps.drop_last();
        assert forall|i: int| 0 <= i < rest.len() implies within_cooldown(
            #[trigger] rest[i],
            first,
            m.unlock_cooldown,
        ) by {
            assert(rest[i] == steps[i]);
        }
        law_unlock_cooldown(m, first, rest, now);
        let last = steps[steps.len() - 1];
        if let CallStep::Unlock(at) = last {
            law_unlock_cooldown(m, first, rest, at);
        }
    }
}

/// Under the strict policy the door opens only for the remote owner of an answered call.
pub proof fn law_strict_policy(m: MachineView, now: Instant)
    requires
        m.unlock_requires_answer,
        m.unlock_refusal(now) is None,
    ensures
        m.remote_connected(),
{
}

/// Under the default policy nothing but the cooldown keeps the door shut, whatever the call does.
pub proof fn law_default_policy(m: MachineView, now: Instant)
    requires
        !m.unlock_requires_answer,
    ensures
        m.last_unlock is None ==> m.unlock_refusal(now) is None,
        m.unlock_refusal(now) is Some ==> m.unlock_refusal(now) == Some(
            StateError::UnlockCooldown,
        ) && time::elapsed(now, m.last_unlock->0) < m.unlock_cooldown.nanos,
{
}

/// A call that rings and that nobody owns can be answered by either side; in every other phase
/// neither can.
pub proof fn law_who_may_answer(m: MachineView)
    ensures
        m.state.phase == CallPhase::Ringing && m.state.owner == Owner::Nobody
            ==> m.pad_refusal() is None && m.remote_refusal() is None,
        m.state.phase != CallPhase::Ringing ==> m.pad_refusal() == Some(StateError::NotRinging)
            && m.remote_refusal() == Some(StateError::NotRinging),
        m.state.phase == CallPhase::Ringing && m.state.owner == Owner::Pad ==> m.remote_refusal()
            == Some(StateError::PadOwnsCall),
        m.state.phase == CallPhase::Ringing && m.state.owner == Owner::Remote ==> m.pad_refusal()
            == Some(StateError::NotRinging),
{
}

/// Who answers owns the connected call; nothing else of it changes. The remote side may talk
/// exactly where it is the one who answered.
pub proof fn law_answer_gives_the_call(m: MachineView, owner: Owner)
    ensures
        m.answered(owner).state.phase == CallPhase::Connected,
        m.answered(owner).state.owner == owner,
        m.answered(owner).state.session_id == m.state.session_id,
        m.answered(owner).state.unlocks == m.state.unlocks,
        m.answered(owner).state.video_frames == m.state.video_frames,
        m.answered(owner).state.door_audio_packets == m.state.door_audio_packets,
        m.answered(owner).last_unlock == m.last_unlock,
        m.answered(owner).unlock_cooldown == m.unlock_cooldown,
        m.answered(owner).unlock_requires_answer == m.unlock_requires_answer,
        m.answered(owner).remote_connected() <==> owner == Owner::Remote,
{
}

/// A new call rings under its own number, without an owner and with nothing counted; an ended call
/// is idle, without an owner, and keeps what it counted. Either way the door may be opened at once
/// under the default policy, and the policy stays.
pub proof fn law_calls_begin_and_end(m: MachineView, session_id: u64, now: Instant)
    ensures
        m.started(session_id).state == (PublicCallState {
            session_id,
            phase: CallPhase::Ringing,
            owner: Owner::Nobody,
            video_frames: 0,
            door_audio_packets: 0,
            unlocks: 0,
        }),
        m.ended().state == (PublicCallState {
            session_id: m.state.session_id,
            phase: CallPhase::Idle,
            owner: Owner::Nobody,
            video_frames: m.state.video_frames,
            door_audio_packets: m.state.door_audio_packets,
            unlocks: m.state.unlocks,
        }),
        !m.unlock_requires_answer ==> m.started(session_id).unlock_refusal(now) is None
            && m.ended().unlock_refusal(now) is None,
        m.unlock_requires_answer ==> m.started(session_id).unlock_refusal(now) == Some(
            StateError::UnlockNotAllowed,
        ) && m.ended().unlock_refusal(now) == Some(StateError::UnlockNotAllowed),
        m.started(session_id).unlock_cooldown == m.unlock_cooldown,
        m.ended().unlock_cooldown == m.unlock_cooldown,
        m.started(session_id).unlock_requires_answer == m.unlock_requires_answer,
        m.ended().unlock_requires_answer == m.unlock_requires_answer,
{
}

/// A door that was opened at `first` can be opened again exactly once the cooldown is over, and a
/// request before that is told so; under the strict policy only while the remote side owns the
/// connected call.
pub proof fn law_cooldown_runs_from_the_opening(m: MachineView, first: Instant, now: Instant)
    ensures
        ({
            let opened = m.unlocked(first);
            let remote = m.state.phase == CallPhase::Connected && m.state.owner == Owner::Remote;
            let waiting = m.unlock_cooldown.nanos > 0 && now.nanos < first.nanos
                + m.unlock_cooldown.nanos;
            &&& m.unlock_requires_answer && !remote ==> opened.unlock_refusal(now) == Some(
                StateError::UnlockNotAllowed,
            )
            &&& (!m.unlock_requires_answer || remote) && waiting ==> opened.unlock_refusal(now)
                == Some(StateError::UnlockCooldown)
            &&& (!m.unlock_requires_answer || remote) && !waiting ==> opened.unlock_refusal(now)
                is None
        }),
{
}

/// Opening the door is counted once, modulo 2^64, and leaves the call as it is; so is a frame and
/// a packet of sound.
pub proof fn law_counters_count(m: MachineView, now: Instant)
    ensures
        m.unlocked(now).state.unlocks as int == (m.state.unlocks + 1) % 0x1_0000_0000_0000_0000,
        m.with_frame().state.video_frames as int == (m.state.video_frames + 1)
            % 0x1_0000_0000_0000_0000,
        m.with_audio().state.door_audio_packets as int == (m.state.door_audio_packets + 1)
            % 0x1_0000_0000_0000_0000,
        forall|other: MachineView|
            #![trigger other.state]
            other == m.unlocked(now) || other == m.with_frame() || other == m.with_audio() ==> {
                &&& other.state.phase == m.state.phase
                &&& other.state.owner == m.state.owner
                &&& other.state.session_id == m.state.session_id
                &&& other.unlock_cooldown == m.unlock_cooldown
                &&& other.unlock_requires_answer == m.unlock_requires_answer
            },
        m.with_frame().last_unlock == m.last_unlock,
        m.with_audio().last_unlock == m.last_unlock,
        m.unlocked(now).state.video_frames == m.state.video_frames,
        m.unlocked(now).state.door_audio_packets == m.state.door_audio_packets,
        m.with_frame().state.unlocks == m.state.unlocks,
        m.with_frame().state.door_audio_packets == m.state.door_audio_packets,
        m.with_audio().state.unlocks == m.state.unlocks,
        m.with_audio().state.video_frames == m.state.video_frames,
{
}

/// A machine starts idle, with nothing counted, under the policy that it was given.
pub proof fn law_machine_starts_idle(cooldown: Duration, strict: bool, now: Instant)
    ensures
        ({
            let m = MachineView::fresh(cooldown, strict);
            &&& m.state == (PublicCallState {
                session_id: 0,
                phase: CallPhase::Idle,
                owner: Owner::Nobody,
                video_frames: 0,
                door_audio_packets: 0,
                unlocks: 0,
            })
            &&& m.unlock_cooldown == cooldown
            &&& m.unlock_requires_answer == strict
            &&& !strict ==> m.unlock_refusal(now) is None
            &&& strict ==> m.unlock_refusal(now) == Some(StateError::UnlockNotAllowed)
        }),
{
}

} // verus!
