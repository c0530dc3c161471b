//! The decisions of the HomeKit controller: a lock that opens the door, a momentary switch that
//! calls the elevator, and a doorbell.

use vstd::prelude::*;
use vstd::utf8;
use crate::agent;
use crate::agent_api::{CallAction, EventKind};
use crate::digest;
use crate::ethernet::MacAddress;
use crate::net::Ipv4Addr;
use crate::text;
use crate::time::Duration;

verus! {

pub const LOCK_SECURED: u8 = 1;

pub const LOCK_UNSECURED: u8 = 0;

pub const SINGLE_PRESS: u8 = 0;

/// The lock relocks this long after it has opened the door.
pub const RELOCK_MS: u64 = 1_500;

/// A byte with the bits of a locally administered unicast address.
pub open spec fn local_unicast(b: u8) -> u8 {
    (b - b % 4 + 2) as u8
}

/// The identity that a digest gives: its first six bytes, marked as a local unicast address.
pub open spec fn identity_of(sum: Seq<u8>) -> Seq<u8> {
    sum.take(6).update(0, local_unicast(sum[0]))
}

/// The identity that a digest gives.
pub fn identity(sum: &[u8]) -> (r: MacAddress)
    requires
        sum@.len() >= 6,
    ensures
        r@ == identity_of(sum@),
{
    let first: u8 = sum[0];
    let marked: u8 = (first | 0x02) & 0xfe;
    assert(((first | 0x02) & 0xfe) == first - first % 4 + 2) by (bit_vector);
    let out: [u8; 6] = [marked, sum[1], sum[2], sum[3], sum[4], sum[5]];
    assert(out@ =~= identity_of(sum@));
    MacAddress(out)
}

/// The stable identity of the accessory with this serial number.
pub fn device_id(serial: &str) -> (r: MacAddress)
    requires
        utf8::encode_utf8(serial@).len() + 11 < digest::DIGEST_LIMIT,
    ensures
        r@ == identity_of(digest::sha256_of(utf8::encode_utf8("michoi-hap:"@ + serial@))),
{
    let mut name = String::new();
    text::push_text(&mut name, "michoi-hap:");
    text::push_text(&mut name, serial);
    proof {
        assert(name@ =~= "michoi-hap:"@ + serial@);
        reveal_strlit("michoi-hap:");
        utf8::is_ascii_chars_encode_utf8("michoi-hap:"@);
        text::lemma_encode_concat("michoi-hap:"@, serial@);
    }
    let sum = digest::sha256(name.as_str().as_bytes());
    identity(&sum)
}

/// The identity is a local unicast address, whatever the digest is.
pub proof fn law_identity_is_local_unicast(sum: Seq<u8>)
    requires
        sum.len() >= 6,
    ensures
        identity_of(sum).len() == 6,
        identity_of(sum)[0] & 0x01 == 0,
        identity_of(sum)[0] & 0x02 == 0x02,
        forall|i: int| 1 <= i < 6 ==> identity_of(sum)[i] == sum[i],
{
    let b = sum[0];
    let marked = local_unicast(b);
    assert(marked % 4 == 2);
    assert(marked & 0x01 == 0 && marked & 0x02 == 0x02) by (bit_vector)
        requires
            marked % 4 == 2,
    ;
}

/// A network interface: its name, its IPv4 address and whether it is the loopback interface.
#[derive(Debug)]
pub struct Interface {
    pub name: String,
    pub ip: Option<Ipv4Addr>,
    pub loopback: bool,
}

/// Whether an address can be reached from other machines.
pub open spec fn usable(ip: Ipv4Addr) -> bool {
    ip.a != 127 && !(ip.a == 169 && ip.b == 254) && !ip.unspecified()
}

/// The address that an interface offers under this name, or under any.
pub open spec fn offer(i: Interface, want: Option<Seq<char>>) -> Option<Ipv4Addr> {
    match i.ip {
        Some(ip) => if usable(ip) && !i.loopback && (want is None || want == Some(i.name@)) {
            Some(ip)
        } else {
            None
        },
        None => None,
    }
}

/// The address of the first interface that offers one.
pub open spec fn first_offer(interfaces: Seq<Interface>, want: Option<Seq<char>>) -> Option<
    Ipv4Addr,
>
    decreases interfaces.len(),
{
    if interfaces.len() == 0 {
        None
    } else {
        match offer(interfaces[0], want) {
            Some(ip) => Some(ip),
            None => first_offer(interfaces.drop_first(), want),
        }
    }
}

/// The address to serve on: that of the wanted interface where it has one, else the first that
/// can be used.
pub open spec fn chosen_address(interfaces: Seq<Interface>, interface: Seq<char>) -> Option<
    Ipv4Addr,
> {
    if interface.len() > 0 && first_offer(interfaces, Some(interface)) is Some {
        first_offer(interfaces, Some(interface))
    } else {
        first_offer(interfaces, None)
    }
}

fn pick(interfaces: &[Interface], want: Option<&str>) -> (r: Option<Ipv4Addr>)
    ensures
        r == first_offer(
            interfaces@,
            match want {
                Some(name) => Some(name@),
                None => None,
            },
        ),
{
    let ghost name = match want {
        Some(name) => Some(name@),
        None => None,
    };
    let mut i: usize = 0;
    assert(interfaces@.skip(0) =~= interfaces@);
    while i < interfaces.len()
        invariant
            i <= interfaces@.len(),
            name == (match want {
                Some(name) => Some(name@),
                None => None,
            }),
            first_offer(interfaces@, name) == first_offer(interfaces@.skip(i as int), name),
        decreases interfaces@.len() - i,
    {
        assert(interfaces@.skip(i as int).drop_first() =~= interfaces@.skip(i + 1));
        assert(interfaces@.skip(i as int)[0] == interfaces@[i as int]);
        let interface = &interfaces[i];
        let wanted = match want {
            Some(want) => text::same_text(want, interface.name.as_str()),
            None => true,
        };
        if let Some(ip) = interface.ip {
            let reachable = ip.a != 127 && !(ip.a == 169 && ip.b == 254) && !ip.is_unspecified();
            if reachable && !interface.loopback && wanted {
                return Some(ip);
            }
        }
        i = i + 1;
    }
    assert(interfaces@.skip(i as int) =~= Seq::empty());
    None
}

/// The address to serve on: that of the wanted interface where it has one, else the first that
/// can be used.
pub fn local_ipv4(interfaces: &[Interface], interface: &str) -> (r: Option<Ipv4Addr>)
    ensures
        r == chosen_address(interfaces@, interface@),
{
    if !interface.is_empty() {
        if let Some(ip) = pick(interfaces, Some(interface)) {
            return Some(ip);
        }
    }
    pick(interfaces, None)
}

/// The numbers under which the services of the accessory are found.
#[derive(Clone, Copy, Debug, PartialEq, Eq, Structural)]
pub struct IntercomAccessory {
    pub id: u64,
    pub doorbell: u64,
    pub lock: u64,
    pub elevator: u64,
}

/// The highest of the numbers; one where there are none.
pub open spec fn highest(ids: Seq<u64>) -> u64
    decreases ids.len(),
{
    if ids.len() == 0 {
        1
    } else if ids.len() == 1 {
        ids[0]
    } else if ids.last() > highest(ids.drop_last()) {
        ids.last()
    } else {
        highest(ids.drop_last())
    }
}

fn highest_of(ids: &[u64]) -> (r: u64)
    ensures
        r == highest(ids@),
{
    if ids.len() == 0 {
        return 1;
    }
    let mut r: u64 = ids[0];
    let mut i: usize = 1;
    assert(ids@.take(1)[0] == ids@[0]);
    while i < ids.len()
        invariant
            1 <= i <= ids@.len(),
            r == highest(ids@.take(i as int)),
        decreases ids@.len() - i,
    {
        assert(ids@.take(i + 1).drop_last() =~= ids@.take(i as int));
        if ids[i] > r {
            r = ids[i];
        }
        i = i + 1;
    }
    assert(ids@.take(i as int) =~= ids@);
    r
}

impl IntercomAccessory {
    /// Numbers the services. They follow the highest number that the information service uses;
    /// each service takes one number and one more for each of its characteristics.
    pub fn new(id: u64, information: &[u64], doorbell_len: u64, lock_len: u64) -> (r: Self)
        requires
            highest(information@) + 3 + doorbell_len + lock_len <= u64::MAX,
        ensures
            r.id == id,
            r.doorbell == highest(information@) + 1,
            r.lock == r.doorbell + 1 + doorbell_len,
            r.elevator == r.lock + 1 + lock_len,
    {
        let doorbell: u64 = highest_of(information) + 1;
        let lock: u64 = doorbell + 1 + doorbell_len;
        let elevator: u64 = lock + 1 + lock_len;
        IntercomAccessory { id, doorbell, lock, elevator }
    }
}

/// No two services of the accessory share a number, their characteristics included, and none
/// takes one that the information service uses.
pub proof fn law_service_numbers_are_distinct(
    a: IntercomAccessory,
    information: Seq<u64>,
    doorbell_len: u64,
    lock_len: u64,
)
    requires
        a.doorbell == highest(information) + 1,
        a.lock == a.doorbell + 1 + doorbell_len,
        a.elevator == a.lock + 1 + lock_len,
    ensures
        forall|i: int| 0 <= i < information.len() ==> (#[trigger] information[i]) < a.doorbell,
        a.doorbell + doorbell_len < a.lock,
        a.lock + lock_len < a.elevator,
{
    assert forall|i: int| 0 <= i < information.len() implies (#[trigger] information[i])
        < a.doorbell by {
        lemma_highest(information, i);
    }
}

proof fn lemma_highest(ids: Seq<u64>, i: int)
    requires
        0 <= i < ids.len(),
    ensures
        ids[i] <= highest(ids),
    decreases ids.len(),
{
    if i < ids.len() - 1 {
        lemma_highest(ids.drop_last(), i);
    }
}

/// The key of the next command, and one more is counted, modulo 2^32.
pub fn next_id(seq: &mut u32, kind: &str) -> (r: String)
    ensures
        r@ == command_key(kind@, *old(seq)),
        *final(seq) == agent::counted32(*old(seq)),
{
    let mut out = String::new();
    text::push_text(&mut out, "hap-");
    text::push_text(&mut out, kind);
    text::push_text(&mut out, "-");
    text::push_number(&mut out, *seq as u64, 10);
    assert(out@ =~= command_key(kind@, *seq));
    *seq = agent::count32(*seq);
    out
}

/// Follows the target state of the lock.
#[derive(Clone, Copy, Debug, PartialEq, Eq, Structural)]
pub struct LockPoll {
    pub last: u8,
}

/// The state that a polled value stands for: its low byte, or secured where it is no number.
pub open spec fn polled_state(value: Option<u64>) -> u8 {
    match value {
        Some(v) => (v % 256) as u8,
        None => LOCK_SECURED,
    }
}

impl LockPoll {
    /// A lock that is secured.
    pub fn new() -> (r: Self)
        ensures
            r.last == LOCK_SECURED,
    {
        LockPoll { last: LOCK_SECURED }
    }

    /// Takes in what the target state is now, and says whether the door is to be opened: where it
    /// has just turned to unsecured.
    pub fn observe(&mut self, value: Option<u64>) -> (r: bool)
        ensures
            final(self).last == polled_state(value),
            r == (old(self).last != polled_state(value) && polled_state(value) == LOCK_UNSECURED),
    {
        let current: u8 = match value {
            Some(v) => (v % 256) as u8,
            None => LOCK_SECURED,
        };
        if current == self.last {
            return false;
        }
        self.last = current;
        current == LOCK_UNSECURED
    }

    /// The lock has been set back to secured.
    pub fn relocked(&mut self)
        ensures
            final(self).last == LOCK_SECURED,
    {
        self.last = LOCK_SECURED;
    }
}

impl Default for LockPoll {
    fn default() -> (r: Self)
        ensures
            r.last == LOCK_SECURED,
    {
        LockPoll::new()
    }
}

/// The state that the lock shows once the door has been asked to open.
pub fn shown_state(opened: bool) -> (r: u8)
    ensures
        r == (if opened {
            LOCK_UNSECURED
        } else {
            LOCK_SECURED
        }),
{
    if opened {
        LOCK_UNSECURED
    } else {
        LOCK_SECURED
    }
}

/// How long the lock shows that the door is open.
pub fn relock_delay() -> (r: Duration)
    ensures
        r.nanos == RELOCK_MS * 1_000_000,
{
    Duration::from_millis(RELOCK_MS)
}

/// How far the lock is in opening the door.
#[derive(Clone, Copy, Debug, PartialEq, Eq, Structural)]
pub enum LockStage {
    /// It follows its target state.
    Watching,
    /// The call is being claimed.
    Claiming,
    /// The door is being asked to open.
    Unlocking,
    /// It shows what became of it.
    Showing,
    /// It is being set back to secured.
    Relocking,
}

/// What happens to the lock.
#[derive(Clone, Copy, Debug, PartialEq, Eq, Structural)]
pub enum LockEvent {
    /// The target state has been read.
    Polled(Option<u64>),
    /// The command has come back, accepted or not.
    Answered(bool),
    /// The states are shown, and the wait is over.
    Shown,
}

/// What the lock wants done.
#[derive(Debug)]
pub enum LockAction {
    Nothing,
    Command { action: CallAction, id: String },
    /// To show these states, and to wait where there is a wait.
    Show { current: u8, target: u8, wait: Option<Duration> },
}

/// What the lock wants done.
pub enum LockActionView {
    Nothing,
    Command { action: CallAction, id: Seq<char> },
    Show { current: u8, target: u8, wait: Option<Duration> },
}

impl View for LockAction {
    type V = LockActionView;

    open spec fn view(&self) -> LockActionView {
        match self {
            LockAction::Nothing => LockActionView::Nothing,
            LockAction::Command { action, id } => LockActionView::Command {
                action: *action,
                id: id@,
            },
            LockAction::Show { current, target, wait } => LockActionView::Show {
                current: *current,
                target: *target,
                wait: *wait,
            },
        }
    }
}

/// The key of command number `n` of this kind.
pub open spec fn command_key(kind: Seq<char>, n: u32) -> Seq<char> {
    "hap-"@ + kind + "-"@ + text::decimal(n as nat)
}

/// The lock: opening it claims the call, opens the door, shows what became of it and relocks.
#[derive(Clone, Copy, Debug, PartialEq, Eq, Structural)]
pub struct LockControl {
    pub poll: LockPoll,
    pub stage: LockStage,
}

/// The lock, the number of the next command, and what is to be done.
pub struct LockResult {
    pub control: LockControl,
    pub seq: u32,
    pub action: LockActionView,
}

impl LockControl {
    /// What follows an event. What does not belong to the stage is ignored.
    pub open spec fn stepped(self, seq: u32, event: LockEvent) -> LockResult {
        let ignored = LockResult { control: self, seq, action: LockActionView::Nothing };
        match (self.stage, event) {
            (LockStage::Watching, LockEvent::Polled(value)) => {
                let state = polled_state(value);
                let poll = LockPoll { last: state };
                if self.poll.last != state && state == LOCK_UNSECURED {
                    LockResult {
                        control: LockControl { poll, stage: LockStage::Claiming },
                        seq: agent::counted32(seq),
                        action: LockActionView::Command {
                            action: CallAction::Claim,
                            id: command_key("claim"@, seq),
                        },
                    }
                } else {
                    LockResult {
                        control: LockControl { poll, ..self },
                        seq,
                        action: LockActionView::Nothing,
                    }
                }
            },
            (LockStage::Claiming, LockEvent::Answered(_)) => LockResult {
                control: LockControl { stage: LockStage::Unlocking, ..self },
                seq: agent::counted32(seq),
                action: LockActionView::Command {
                    action: CallAction::Unlock,
                    id: command_key("unlock"@, seq),
                },
            },
            (LockStage::Unlocking, LockEvent::Answered(opened)) => LockResult {
                control: LockControl { stage: LockStage::Showing, ..self },
                seq,
                action: LockActionView::Show {
                    current: if opened {
                        LOCK_UNSECURED
                    } else {
                        LOCK_SECURED
                    },
                    target: LOCK_UNSECURED,
                    wait: if opened {
                        Some(Duration { nanos: 1_500_000_000 })
                    } else {
                        None
                    },
                },
            },
            (LockStage::Showing, LockEvent::Shown) => LockResult {
                control: LockControl { stage: LockStage::Relocking, ..self },
                seq,
                action: LockActionView::Show {
                    current: LOCK_SECURED,
                    target: LOCK_SECURED,
                    wait: None,
                },
            },
            (LockStage::Relocking, LockEvent::Shown) => LockResult {
                control: LockControl {
                    poll: LockPoll { last: LOCK_SECURED },
                    stage: LockStage::Watching,
                },
                seq,
                action: LockActionView::Nothing,
            },
            _ => ignored,
        }
    }

    /// A lock that is secured.
    pub fn new() -> (r: Self)
        ensures
            r == (LockControl {
                poll: LockPoll { last: LOCK_SECURED },
                stage: LockStage::Watching,
            }),
    {
        LockControl { poll: LockPoll::new(), stage: LockStage::Watching }
    }

    /// Takes in an event, and says what is to be done. The claim is an attempt: the door is asked
    /// to open whatever became of it.
    pub fn step(&mut self, seq: &mut u32, event: LockEvent) -> (r: LockAction)
        ensures
            *final(self) == old(self).stepped(*old(seq), event).control,
            *final(seq) == old(self).stepped(*old(seq), event).seq,
            r@ == old(self).stepped(*old(seq), event).action,
    {
        match (self.stage, event) {
            (LockStage::Watching, LockEvent::Polled(value)) => {
                if self.poll.observe(value) {
                    self.stage = LockStage::Claiming;
                    LockAction::Command { action: CallAction::Claim, id: next_id(seq, "claim") }
                } else {
                    LockAction::Nothing
                }
            },
            (LockStage::Claiming, LockEvent::Answered(_)) => {
                self.stage = LockStage::Unlocking;
                LockAction::Command { action: CallAction::Unlock, id: next_id(seq, "unlock") }
            },
            (LockStage::Unlocking, LockEvent::Answered(opened)) => {
                self.stage = LockStage::Showing;
                LockAction::Show {
                    current: shown_state(opened),
                    target: LOCK_UNSECURED,
                    wait: if opened {
                        Some(relock_delay())
                    } else {
                        None
                    },
                }
            },
            (LockStage::Showing, LockEvent::Shown) => {
                self.stage = LockStage::Relocking;
                LockAction::Show { current: LOCK_SECURED, target: LOCK_SECURED, wait: None }
            },
            (LockStage::Relocking, LockEvent::Shown) => {
                self.poll.relocked();
                self.stage = LockStage::Watching;
                LockAction::Nothing
            },
            _ => LockAction::Nothing,
        }
    }
}

impl Default for LockControl {
    fn default() -> (r: Self)
        ensures
            r == (LockControl {
                poll: LockPoll { last: LOCK_SECURED },
                stage: LockStage::Watching,
            }),
    {
        LockControl::new()
    }
}

/// A press on a secured lock claims the call, asks the door to open exactly once, whatever the
/// claim came to, and leaves the lock secured and ready for the next press, whatever the door
/// said.
pub proof fn law_press_opens_once_and_relocks(seq: u32, claimed: bool, opened: bool)
    ensures
        ({
            let secured = LockControl {
                poll: LockPoll { last: LOCK_SECURED },
                stage: LockStage::Watching,
            };
            let a = secured.stepped(seq, LockEvent::Polled(Some(LOCK_UNSECURED as u64)));
            let b = a.control.stepped(a.seq, LockEvent::Answered(claimed));
            let c = b.control.stepped(b.seq, LockEvent::Answered(opened));
            let d = c.control.stepped(c.seq, LockEvent::Shown);
            let e = d.control.stepped(d.seq, LockEvent::Shown);
            &&& a.action == (LockActionView::Command {
                action: CallAction::Claim,
                id: command_key("claim"@, seq),
            })
            &&& b.action == (LockActionView::Command {
                action: CallAction::Unlock,
                id: command_key("unlock"@, agent::counted32(seq)),
            })
            &&& c.action is Show && d.action is Show && e.action is Nothing
            &&& e.control == secured
        }),
{
}

/// What the server of the accessory is set to.
#[derive(Debug)]
pub struct ServerSettings {
    pub host: Ipv4Addr,
    pub port: u16,
    pub name: String,
    pub pin: [u8; 8],
    pub device_id: MacAddress,
}

/// The settings to serve under. An identity that has been stored is kept, so that pairings last;
/// without one it is made from the serial number. Everything else is as configured now.
pub fn server_settings(
    stored: Option<MacAddress>,
    host: Ipv4Addr,
    port: u16,
    name: String,
    pin: [u8; 8],
    serial: &str,
) -> (r: ServerSettings)
    requires
        utf8::encode_utf8(serial@).len() + 11 < digest::DIGEST_LIMIT,
    ensures
        r.host == host,
        r.port == port,
        r.name@ == name@,
        r.pin == pin,
        r.device_id@ == (match stored {
            Some(id) => id@,
            None => identity_of(
                digest::sha256_of(utf8::encode_utf8("michoi-hap:"@ + serial@)),
            ),
        }),
{
    let device_id = match stored {
        Some(id) => id,
        None => device_id(serial),
    };
    ServerSettings { host, port, name, pin, device_id }
}

/// Follows the elevator switch.
#[derive(Clone, Copy, Debug, PartialEq, Eq, Structural)]
pub struct SwitchPoll {
    pub last: bool,
}

impl SwitchPoll {
    /// A switch that is off.
    pub fn new() -> (r: Self)
        ensures
            !r.last,
    {
        SwitchPoll { last: false }
    }

    /// Takes in whether the switch is on, and says whether the elevator is to be called. The
    /// switch is then set back off.
    pub fn observe(&mut self, on: bool) -> (r: bool)
        ensures
            r == (on && !old(self).last),
            final(self).last == (on && old(self).last),
    {
        if on && !self.last {
            self.last = false;
            true
        } else {
            self.last = on;
            false
        }
    }
}

impl Default for SwitchPoll {
    fn default() -> (r: Self)
        ensures
            !r.last,
    {
        SwitchPoll::new()
    }
}

/// Whether an event rings the doorbell: a call that starts.
pub fn rings(kind: &EventKind) -> (r: bool)
    ensures
        r == (kind@ is CallStarted),
{
    match kind {
        EventKind::CallStarted { .. } => true,
        _ => false,
    }
}

/// The identity keeps all of the digest but the two lowest bits of its first byte, which are made
/// binary 10.
pub proof fn law_identity_keeps_the_digest(sum: Seq<u8>)
    requires
        sum.len() >= 6,
    ensures
        identity_of(sum)[0] as int / 4 == sum[0] as int / 4,
        identity_of(sum)[0] as int % 4 == 2,
        identity_of(sum).len() == 6,
        identity_of(sum).skip(1) == sum.subrange(1, 6),
{
    assert(identity_of(sum).skip(1) =~= sum.subrange(1, 6));
}

/// Whether an interface offers an address that others can reach: not that of the loopback
/// interface, not 127.x.x.x, 169.254.x.x or 0.0.0.0.
pub open spec fn reachable(i: Interface) -> bool {
    i.ip is Some && !i.loopback && i.ip->0.a != 127 && !(i.ip->0.a == 169 && i.ip->0.b == 254)
        && i.ip->0 != (Ipv4Addr { a: 0, b: 0, c: 0, d: 0 })
}

/// Whether an address is that of the first reachable interface, of those with this name or of all.
pub open spec fn is_first(interfaces: Seq<Interface>, want: Option<Seq<char>>, k: int) -> bool {
    &&& 0 <= k < interfaces.len()
    &&& reachable(interfaces[k])
    &&& want is None || want == Some(interfaces[k].name@)
    &&& forall|j: int|
        0 <= j < k ==> !(reachable(#[trigger] interfaces[j]) && (want is None || want == Some(
            interfaces[j].name@,
        )))
}

/// The controller is announced at the first reachable address of the interface that is asked for;
/// where it has none, or none is asked for, at the first reachable address of all.
pub proof fn law_address_is_the_first_reachable(
    interfaces: Seq<Interface>,
    interface: Seq<char>,
    k: int,
)
    ensures
        interface.len() > 0 && is_first(interfaces, Some(interface), k) ==> chosen_address(
            interfaces,
            interface,
        ) == interfaces[k].ip,
        (interface.len() == 0 || forall|j: int|
            0 <= j < interfaces.len() && interfaces[j].name@ == interface ==> !reachable(
                #[trigger] interfaces[j],
            )) && is_first(interfaces, None, k) ==> chosen_address(interfaces, interface)
            == interfaces[k].ip,
        (forall|j: int| 0 <= j < interfaces.len() ==> !reachable(#[trigger] interfaces[j]))
            ==> chosen_address(interfaces, interface) is None,
{
    lemma_first_offer(interfaces, Some(interface), k);
    lemma_first_offer(interfaces, None, k);
}

proof fn lemma_first_offer(interfaces: Seq<Interface>, want: Option<Seq<char>>, k: int)
    ensures
        is_first(interfaces, want, k) ==> first_offer(interfaces, want) == interfaces[k].ip,
        (forall|j: int|
            0 <= j < interfaces.len() ==> !(reachable(#[trigger] interfaces[j]) && (want is None
                || want == Some(interfaces[j].name@)))) ==> first_offer(interfaces, want) is None,
    decreases interfaces.len(),
{
    if interfaces.len() > 0 {
        let rest = interfaces.drop_first();
        let head = interfaces[0];
        assert(offer(head, want) is Some <==> reachable(head) && (want is None || want == Some(
            head.name@,
        )));
        lemma_first_offer(rest, want, k - 1);
        if is_first(interfaces, want, k) && k > 0 {
            assert(!(reachable(interfaces[0]) && (want is None || want == Some(
                interfaces[0].name@,
            ))));
            assert forall|j: int| 0 <= j < k - 1 implies !(reachable(#[trigger] rest[j]) && (want
                is None || want == Some(rest[j].name@))) by {
                assert(rest[j] == interfaces[j + 1]);
            }
            assert(rest[k - 1] == interfaces[k]);
            assert(is_first(rest, want, k - 1));
        }
        if forall|j: int|
            0 <= j < interfaces.len() ==> !(reachable(#[trigger] interfaces[j]) && (want is None
                || want == Some(interfaces[j].name@))) {
            assert(!(reachable(interfaces[0]) && (want is None || want == Some(
                interfaces[0].name@,
            ))));
            assert forall|j: int| 0 <= j < rest.len() implies !(reachable(#[trigger] rest[j]) && (
            want is None || want == Some(rest[j].name@))) by {
                assert(rest[j] == interfaces[j + 1]);
            }
        }
    }
}

/// The highest of some numbers is one of them and none is higher; of no numbers it is 1.
pub proof fn law_highest_is_the_maximum(ids: Seq<u64>)
    ensures
        ids.len() == 0 ==> highest(ids) == 1,
        ids.len() > 0 ==> ids.contains(highest(ids)),
        forall|i: int| 0 <= i < ids.len() ==> #[trigger] ids[i] <= highest(ids),
    decreases ids.len(),
{
    if ids.len() == 1 {
        assert(ids[0] == highest(ids));
    } else if ids.len() > 1 {
        let rest = ids.drop_last();
        law_highest_is_the_maximum(rest);
        let at = choose|i: int| 0 <= i < rest.len() && rest[i] == highest(rest);
        assert(ids[at] == rest[at]);
        assert(ids[ids.len() - 1] == ids.last());
        assert forall|i: int| 0 <= i < ids.len() implies #[trigger] ids[i] <= highest(ids) by {
            if i < rest.len() {
                assert(rest[i] == ids[i]);
            }
        }
    }
}

/// What the lock does on each event, from any state. A poll that finds it newly unlocked, which is
/// 0, answers the call; without a value it is locked, which is 1. Then the door is opened whatever
/// the answer was, the lock shows for a second and a half that it is open where the door did open,
/// shows that it is locked, and watches again. All other events are ignored.
pub proof fn law_lock_goes_round(c: LockControl, seq: u32, event: LockEvent)
    ensures
        ({
            let r = c.stepped(seq, event);
            let next = (seq + 1) % 0x1_0000_0000;
            &&& c.stage == LockStage::Watching ==> (event matches LockEvent::Polled(value) ==> {
                let state = match value {
                    Some(v) => v as int % 256,
                    None => 1,
                };
                let pressed = state == 0 && c.poll.last != 0;
                &&& r.control.poll.last == state
                &&& pressed ==> r.control.stage == LockStage::Claiming && r.seq == next && r.action
                    == (LockActionView::Command {
                    action: CallAction::Claim,
                    id: "hap-"@ + "claim"@ + "-"@ + text::decimal(seq as nat),
                })
                &&& !pressed ==> r.control.stage == LockStage::Watching && r.seq == seq && r.action
                    == LockActionView::Nothing
            })
            &&& c.stage == LockStage::Claiming && event is Answered ==> r.control.stage
                == LockStage::Unlocking && r.seq == next && r.action == (LockActionView::Command {
                action: CallAction::Unlock,
                id: "hap-"@ + "unlock"@ + "-"@ + text::decimal(seq as nat),
            }) && r.control.poll == c.poll
            &&& c.stage == LockStage::Unlocking && event == LockEvent::Answered(true)
                ==> r.control.stage == LockStage::Showing && r.seq == seq && r.action == (
            LockActionView::Show {
                current: 0,
                target: 0,
                wait: Some(Duration { nanos: 1_500_000_000 }),
            })
            &&& c.stage == LockStage::Unlocking && event == LockEvent::Answered(false)
                ==> r.control.stage == LockStage::Showing && r.seq == seq && r.action == (
            LockActionView::Show { current: 1, target: 0, wait: None })
            &&& c.stage == LockStage::Showing && event is Shown ==> r.control.stage
                == LockStage::Relocking && r.seq == seq && r.action == (LockActionView::Show {
                current: 1,
                target: 1,
                wait: None,
            })
            &&& c.stage == LockStage::Relocking && event is Shown ==> r.control.stage
                == LockStage::Watching && r.control.poll.last == 1 && r.seq == seq && r.action
                == LockActionView::Nothing
            &&& !(c.stage == LockStage::Watching && event is Polled) && !((c.stage
                == LockStage::Claiming || c.stage == LockStage::Unlocking) && event is Answered)
                && !((c.stage == LockStage::Showing || c.stage == LockStage::Relocking) && event
                is Shown) ==> r.control == c && r.seq == seq && r.action == LockActionView::Nothing
        }),
{
}

} // verus!
