use michoi::agent::{
    talk_frames, wire_duty, worth_warning, Agent, CommandStep, Peers, Policy, Side, Verdict,
    WireDuty,
};
use michoi::agent_api::{CallAction, CallError, EventKind};
use michoi::config::{AgentMode, Config, IntercomConfig};
use michoi::emitter::{observe_reply, DoorObservation};
use michoi::ethernet::{build_udp_ipv4, EthernetUdp, MacAddress};
use michoi::net::{Ipv4Addr, SocketAddr};
use michoi::peers::{peers_from_config, PeersError};
use michoi::protocol::{
    audio_packet, discovery_reply, discovery_request, jpeg_packets, session_control,
    session_request, Endpoints, Message, Station, OP_ANSWER, OP_HANGUP, OP_UNLOCK,
};
use michoi::socket_agent::SocketAgent;
use michoi::state::{CallPhase, Owner};
use michoi::time::{Duration, Instant};
use michoi::wire_tap::{restore_physical_pad, TapError, TapWire};
use michoi::wire_udp::UdpWire;

fn at(secs: u64) -> Instant {
    Instant { nanos: (1000 + secs as u128) * 1_000_000_000 }
}

fn door() -> Station {
    Station::new("M00000000000", Ipv4Addr::new(192, 168, 124, 2))
}

fn room() -> Station {
    Station::new("S00000000000", Ipv4Addr::new(192, 168, 124, 61))
}

fn endpoints() -> Endpoints {
    Endpoints { door: door(), room: room() }
}

fn intercom() -> IntercomConfig {
    IntercomConfig { device_id: "S00000000000".into(), ..Config::default().intercom }
}

fn agent(mode: AgentMode) -> Agent {
    let policy = Policy { cooldown: Duration::from_secs(1), unlock_requires_answer: false };
    let peers = peers_from_config(&intercom()).unwrap();
    Agent::new(mode, peers, policy, Duration::from_secs(5), 1_000_000)
}

fn ring() -> Vec<u8> {
    session_request(&endpoints(), &[0; 174]).unwrap()
}

#[test]
fn a_ring_starts_one_call() {
    let mut agent = agent(AgentMode::Pad);
    assert_eq!(agent.agent_id(), "michoi-pad");
    let outcome = agent.on_wire(Side::Door, &ring(), 10, 20);
    let event = outcome.event.unwrap();
    assert_eq!(event.seq, 1);
    assert!(matches!(event.kind, EventKind::CallStarted { .. }));
    assert_eq!(Message::parse(&outcome.reply.unwrap()).unwrap().opcode, 3);
    let again = agent.on_wire(Side::Door, &ring(), 11, 21);
    assert!(again.event.is_none());
    assert!(again.reply.is_some());
    let state = agent.state(99);
    assert_eq!(state.phase, CallPhase::Ringing);
    assert_eq!(state.door_id.as_deref(), Some("M00000000000"));
    assert_eq!(state.session_id.as_deref(), Some("1"));
    assert_eq!(agent.peers().room.ip, room().ip);
}

#[test]
fn another_household_is_ignored() {
    let mut agent = agent(AgentMode::Pad);
    let other = Endpoints { door: door(), room: Station::new("S9", room().ip) };
    let raw = session_request(&other, &[]).unwrap();
    let outcome = agent.on_wire(Side::Door, &raw, 1, 1);
    assert!(outcome.reply.is_none() && outcome.event.is_none());
    assert_eq!(agent.state(0).phase, CallPhase::Idle);
    assert_eq!(agent.mismatches(), 0);
}

#[test]
fn a_station_that_changes_its_address_is_refused() {
    let mut agent = agent(AgentMode::Pad);
    agent.on_wire(Side::Door, &ring(), 1, 1);
    let moved = Endpoints { door: Station::new("M00000000000", Ipv4Addr::new(9, 9, 9, 9)), room: room() };
    let hangup = session_control(OP_HANGUP, &moved).unwrap();
    let outcome = agent.on_wire(Side::Door, &hangup, 2, 2);
    assert!(!outcome.call_ended);
    assert_eq!(agent.mismatches(), 1);
    assert_eq!(agent.state(0).phase, CallPhase::Ringing);
    assert_eq!(agent.peers().door.unwrap().ip, door().ip);
    assert!(worth_warning(4) && !worth_warning(5) && worth_warning(200));
}

#[test]
fn a_claim_is_sent_and_replayed() {
    let mut agent = agent(AgentMode::Pad);
    match agent.begin_command(CallAction::Claim, "early", at(0), 1) {
        CommandStep::Done(result) => assert_eq!(result.error, Some(CallError::NoCall)),
        _ => panic!("sent"),
    }
    agent.on_wire(Side::Door, &ring(), 1, 1);
    let (report, packet) = match agent.begin_command(CallAction::Claim, "c1", at(0), 5) {
        CommandStep::Send { report, packet } => (report, packet),
        _ => panic!("not sent"),
    };
    assert_eq!(packet, session_control(OP_ANSWER, &endpoints()).unwrap());
    let (result, event) = agent.finish_command("c1", report, true, 6);
    assert!(result.ok);
    assert!(matches!(event.unwrap().kind, EventKind::RemoteAnswered { .. }));
    match agent.begin_command(CallAction::Claim, "c1", at(9), 9) {
        CommandStep::Done(result) => assert!(result.ok && result.replayed),
        _ => panic!("sent again"),
    }
    assert_eq!(agent.state(0).owner, Owner::Remote);
    assert_eq!(wire_duty(CallAction::Claim, true), WireDuty::RemoteClaimed);
    assert_eq!(wire_duty(CallAction::Claim, false), WireDuty::Nothing);
    assert_eq!(wire_duty(CallAction::Unlock, true), WireDuty::Nothing);
    assert_eq!(wire_duty(CallAction::Hangup, true), WireDuty::CallEnded);
    // The Pad comes too late.
    let late = session_control(OP_ANSWER, &endpoints()).unwrap();
    assert!(agent.on_wire(Side::Pad, &late, 7, 7).event.is_none());
    assert_eq!(agent.state(0).owner, Owner::Remote);
}

#[test]
fn the_pad_that_answers_first_bars_the_claim() {
    let mut agent = agent(AgentMode::Tap);
    agent.on_wire(Side::Door, &ring(), 1, 1);
    let answer = session_control(OP_ANSWER, &endpoints()).unwrap();
    let outcome = agent.on_wire(Side::Pad, &answer, 2, 2);
    assert!(matches!(outcome.event.unwrap().kind, EventKind::PadAnswered { .. }));
    match agent.begin_command(CallAction::Claim, "c", at(0), 3) {
        CommandStep::Done(result) => assert_eq!(result.error, Some(CallError::NotRinging)),
        _ => panic!("sent"),
    }
    let unlock = session_control(OP_UNLOCK, &endpoints()).unwrap();
    let outcome = agent.on_wire(Side::Pad, &unlock, 3, 3);
    assert!(matches!(outcome.event.unwrap().kind, EventKind::Unlocked { by: Owner::Pad, .. }));
    let hangup = session_control(OP_HANGUP, &endpoints()).unwrap();
    let outcome = agent.on_wire(Side::Door, &hangup, 4, 4);
    assert!(outcome.call_ended);
    assert!(matches!(outcome.event.unwrap().kind, EventKind::CallEnded { .. }));
}

#[test]
fn a_failed_send_is_reported() {
    let mut agent = agent(AgentMode::Pad);
    agent.on_wire(Side::Door, &ring(), 1, 1);
    let report = match agent.begin_command(CallAction::Unlock, "u", at(0), 2) {
        CommandStep::Send { report, .. } => report,
        _ => panic!("not sent"),
    };
    let (result, event) = agent.finish_command("u", report, false, 3);
    assert_eq!(result.error, Some(CallError::AgentOffline));
    assert!(event.is_none());
}

#[test]
fn media_and_talk_go_through() {
    let mut agent = agent(AgentMode::Pad);
    agent.on_wire(Side::Door, &ring(), 1, 1);
    assert_eq!(agent.talk_endpoints(), Err(CallError::UnlockNotAllowed));
    let audio = audio_packet(1, &[7; 512], &endpoints()).unwrap();
    assert_eq!(agent.on_wire(Side::Door, &audio, 2, 30).audio.unwrap().pcm, vec![7; 512]);
    let mut jpeg = vec![1; 1500];
    jpeg[..2].copy_from_slice(&[0xff, 0xd8]);
    jpeg[1498..].copy_from_slice(&[0xff, 0xd9]);
    let packets = jpeg_packets(3, &jpeg, &endpoints()).unwrap();
    assert!(agent.on_wire(Side::Door, &packets[0], 2, 40).video.is_none());
    assert_eq!(agent.on_wire(Side::Door, &packets[1], 2, 41).video.unwrap().jpeg, jpeg);
    assert_eq!(agent.snapshot().unwrap().pts_us, 41);
    assert_eq!(agent.history(0).video.len(), 1);
    assert_eq!(agent.history(0).audio.len(), 1);
    assert!(!agent.media_info().talk);
    if let CommandStep::Send { report, .. } = agent.begin_command(CallAction::Claim, "c", at(0), 3) {
        agent.finish_command("c", report, true, 3);
    }
    assert!(agent.media_info().talk);
    let to = agent.talk_endpoints().unwrap();
    let frames = talk_frames(&[1; 600]);
    assert_eq!(frames.len(), 2);
    let packet = agent.talk_packet(&frames[1], &to).unwrap();
    assert_eq!(packet, audio_packet(0, &frames[1], &endpoints()).unwrap());
    assert_eq!(agent.talk_packet(&[0; 3], &to), Err(CallError::AgentOffline));
    assert!(agent.keepalive().is_some());
    assert_eq!(agent.recent(0).unwrap().len(), 2);
}

#[test]
fn a_datagram_of_several_packets_is_taken_in_order() {
    let mut agent = agent(AgentMode::Pad);
    let hangup = session_control(OP_HANGUP, &endpoints()).unwrap();
    let both = [ring(), hangup].concat();
    assert!(agent.has_room() && agent.has_room_for(both.len()));
    let outcomes = agent.on_payload(Side::Door, &both, 1, 1);
    assert_eq!(outcomes.len(), 2);
    assert!(matches!(outcomes[0].event.as_ref().unwrap().kind, EventKind::CallStarted { .. }));
    assert!(outcomes[1].call_ended);
    assert_eq!(agent.state(0).phase, CallPhase::Idle);
}

#[test]
fn stations_are_pinned_on_first_use() {
    let mut peers: Peers = peers_from_config(&intercom()).unwrap();
    let mac = MacAddress([2, 0, 0, 0, 0, 1]);
    assert!(peers.wants_pad_discovery(AgentMode::Tap));
    assert_eq!(peers.pin_mac(Side::Pad, mac), Verdict::Accepted);
    assert_eq!(peers.pin_mac(Side::Pad, MacAddress([9; 6])), Verdict::Mismatch);
    assert_eq!(peers.learn_address(Side::Door, Ipv4Addr::new(0, 0, 0, 0)), Verdict::Ignored);
    assert_eq!(peers.learn_address(Side::Door, door().ip), Verdict::Accepted);
    assert_eq!(peers.learn_address(Side::Door, room().ip), Verdict::Mismatch);
    assert_eq!(peers.door_neighbor(), Some(door().ip));
    // The id of a door that is known by its address comes with the first session.
    assert_eq!(peers.accept_endpoints(&endpoints()), Verdict::Accepted);
    assert_eq!(peers.door.as_ref().unwrap().id, "M00000000000");
    assert_eq!(peers.endpoints().unwrap(), endpoints());
    assert_eq!(peers.pad_neighbor(), None);
    let mut bad = intercom();
    bad.door_mac = Some("x".into());
    assert_eq!(peers_from_config(&bad).unwrap_err(), PeersError::DoorMac);
    bad.door_mac = None;
    bad.pad_mac = Some("x".into());
    assert_eq!(peers_from_config(&bad).unwrap_err(), PeersError::PadMac);
    bad.device_id = String::new();
    assert_eq!(peers_from_config(&bad).unwrap_err(), PeersError::DeviceId);
    let named = IntercomConfig { door_id: Some("M1".into()), ..intercom() };
    let mut peers = peers_from_config(&named).unwrap();
    assert_eq!(peers.door_to_discover().unwrap().id, "M1");
    peers.door_discovered(door().ip);
    assert!(peers.door_to_discover().is_none());
}

fn tap() -> TapWire {
    let mut ic = intercom();
    ic.bridge_interface = "br-lan".into();
    ic.pad_interface = "eth0.1".into();
    ic.door_interface = "eth0.2".into();
    TapWire::open(&ic).unwrap()
}

const DOOR_MAC: MacAddress = MacAddress([2, 0, 0, 0, 0, 2]);
const PAD_MAC: MacAddress = MacAddress([2, 0, 0, 0, 0, 0x3d]);

fn frame(from_door: bool, mac: MacAddress, port: u16, payload: &[u8]) -> Vec<u8> {
    let (source, destination) = if from_door { (door().ip, room().ip) } else { (room().ip, door().ip) };
    build_udp_ipv4(mac, PAD_MAC, source, destination, port, port, payload, 1).unwrap()
}

#[test]
fn a_tap_needs_its_interfaces() {
    let mut ic = intercom();
    ic.bridge_interface = "br".into();
    ic.pad_interface = "CONFIGURE_ME".into();
    ic.door_interface = String::new();
    assert_eq!(TapWire::open(&ic).unwrap_err(), TapError::PadInterface);
    ic.pad_interface = "p".into();
    assert_eq!(TapWire::open(&ic).unwrap_err(), TapError::DoorInterface);
    ic.bridge_interface = String::new();
    let error = TapWire::open(&ic).unwrap_err();
    assert_eq!(error.message(), "intercom.bridge_interface is required in tap mode");
}

#[test]
fn a_tap_learns_both_stations_from_discovery() {
    let mut agent = agent(AgentMode::Tap);
    let wire = tap();
    let query = discovery_request("S00000000000").unwrap();
    assert!(wire.on_frame(&mut agent, &frame(true, DOOR_MAC, 10_008, &query), 1, 1).is_empty());
    let reply = discovery_reply("S00000000000").unwrap();
    wire.on_frame(&mut agent, &frame(false, PAD_MAC, 10_008, &reply), 1, 1);
    let peers = agent.peers();
    assert_eq!(peers.door.unwrap().ip, door().ip);
    assert_eq!(peers.door_mac, Some(DOOR_MAC));
    assert_eq!(peers.room.ip, room().ip);
    assert_eq!(peers.pad_mac, Some(PAD_MAC));
}

#[test]
fn a_tap_follows_the_call_of_its_own_stations() {
    let mut agent = agent(AgentMode::Tap);
    let wire = tap();
    let outcomes = wire.on_frame(&mut agent, &frame(true, DOOR_MAC, 10_000, &ring()), 1, 1);
    assert!(outcomes[0].event.is_some());
    // The same packet under another hardware address is refused.
    let answer = session_control(OP_ANSWER, &endpoints()).unwrap();
    wire.on_frame(&mut agent, &frame(false, PAD_MAC, 10_000, &answer), 2, 2);
    assert_eq!(agent.state(0).owner, Owner::Pad);
    let hangup = session_control(OP_HANGUP, &endpoints()).unwrap();
    let forged = wire.on_frame(&mut agent, &frame(true, MacAddress([6; 6]), 10_000, &hangup), 3, 3);
    assert!(!forged[0].call_ended);
    assert_eq!(agent.mismatches(), 1);
    // Another port is of no concern.
    assert!(wire.on_frame(&mut agent, &frame(true, DOOR_MAC, 53, &hangup), 4, 4).is_empty());
    assert!(wire.on_frame(&mut agent, b"no frame", 4, 4).is_empty());
    let real = wire.on_frame(&mut agent, &frame(true, DOOR_MAC, 10_000, &hangup), 5, 5);
    assert!(real[0].call_ended);
}

#[test]
fn a_tap_injects_under_the_addresses_of_the_stations() {
    let mut wire = tap();
    let mut peers = peers_from_config(&intercom()).unwrap();
    assert_eq!(wire.send_as_pad(b"x", &peers).unwrap_err(), TapError::DoorUnknown);
    peers.door = Some(Station::new("M00000000000", Ipv4Addr::new(0, 0, 0, 0)));
    assert_eq!(wire.send_as_pad(b"x", &peers).unwrap_err(), TapError::DoorIp);
    peers.door = Some(door());
    assert_eq!(wire.send_as_pad(b"x", &peers).unwrap_err(), TapError::PadIp);
    peers.room = room();
    assert_eq!(wire.send_as_pad(b"x", &peers).unwrap_err(), TapError::DoorMac);
    peers.door_mac = Some(DOOR_MAC);
    assert_eq!(wire.send_as_pad(b"x", &peers).unwrap_err(), TapError::PadMac);
    peers.pad_mac = Some(PAD_MAC);
    assert_eq!(wire.send_as_pad(&[0; 65_508], &peers).unwrap_err(), TapError::TooLarge);
    let sent = wire.send_as_pad(b"hello", &peers).unwrap();
    let udp = EthernetUdp::parse(&sent).unwrap();
    assert_eq!((udp.source_mac, udp.destination_mac), (PAD_MAC, DOOR_MAC));
    assert_eq!((udp.source_ip, udp.destination_ip), (room().ip, door().ip));
    assert_eq!(udp.payload, b"hello");
    assert_eq!(sent[18..20], [0, 2]);
    let silence = wire.on_remote_claim(&peers).unwrap();
    assert!(silence.rules.unwrap().contains("iifname \"eth0.1\" ip saddr 192.168.124.61"));
    let reset = silence.reset.unwrap();
    let udp = EthernetUdp::parse(&reset).unwrap();
    assert_eq!((udp.source_mac, udp.destination_mac), (DOOR_MAC, PAD_MAC));
    assert_eq!(udp.payload, session_control(OP_HANGUP, &endpoints()).unwrap());
    assert!(restore_physical_pad().contains("delete table bridge michoi"));
}

#[test]
fn a_udp_wire_learns_from_the_sender() {
    let mut agent = agent(AgentMode::Pad);
    let mut wire = UdpWire::new();
    assert_eq!(wire.destination(), None);
    let from = SocketAddr::V4 { ip: door().ip, port: 10_000 };
    let outcomes = wire.on_datagram(&mut agent, &ring(), from, Some(room().ip), 1, 1);
    assert!(outcomes[0].reply.is_some());
    assert_eq!(wire.destination(), Some(from));
    assert_eq!(agent.peers().room.ip, room().ip);
    assert_eq!(agent.peers().door.unwrap().id, "M00000000000");
}

#[test]
fn a_software_pad_and_an_emulated_door_close_the_loop() {
    let mut pad = SocketAgent::new(room(), Duration::from_secs(5), 100_000);
    let from = SocketAddr::V4 { ip: door().ip, port: 10_000 };
    let mut seen = DoorObservation::default();
    assert_eq!(pad.peer(), None);
    for outcome in pad.on_payload(&[ring(), ring()].concat(), from, 1, 1) {
        observe_reply(&outcome.reply.unwrap(), &mut seen);
    }
    assert!(seen.capability_reply && !seen.answered);
    assert_eq!(pad.peer(), Some(from));
    assert_eq!(pad.recent(0).unwrap().len(), 1);
    for (action, id) in [(CallAction::Claim, "a"), (CallAction::Unlock, "b"), (CallAction::Hangup, "c")] {
        match pad.begin_command(action, id, at(0), 2) {
            CommandStep::Send { report, packet } => {
                observe_reply(&packet, &mut seen);
                assert!(pad.finish_command(id, report, true, 3).0.ok);
            }
            CommandStep::Done(result) => panic!("{:?}", result.error),
        }
    }
    assert!(seen.answered);
    assert_eq!((seen.unlocks, seen.hangups), (1, 1));
    assert_eq!(pad.state(0).phase, CallPhase::Idle);
}

#[test]
fn a_software_pad_talks_only_while_it_is_connected() {
    let mut pad = SocketAgent::new(room(), Duration::from_secs(5), 100_000);
    let from = SocketAddr::V4 { ip: door().ip, port: 10_000 };
    assert!(pad.keepalive().is_none());
    pad.on_datagram(&ring(), from, 1, 1);
    assert_eq!(pad.talk_endpoints().unwrap_err(), CallError::UnlockNotAllowed);
    if let CommandStep::Send { report, .. } = pad.begin_command(CallAction::Claim, "c", at(0), 2) {
        pad.finish_command("c", report, true, 2);
    }
    let to = pad.talk_endpoints().unwrap();
    assert!(pad.talk_packet(&[0; 512], &to).is_some());
    assert!(pad.talk_packet(&[0; 511], &to).is_none());
    assert!(pad.keepalive().is_some());
    assert!(pad.media_info().talk);
}

#[test]
fn a_block_that_is_dropped_pins_nothing() {
    let named = IntercomConfig {
        door_id: Some("M00000000000".into()),
        door_ip: Some(door().ip),
        ..intercom()
    };
    let mut peers = peers_from_config(&named).unwrap();
    let forged = Endpoints {
        door: Station::new("M00000000009", Ipv4Addr::new(9, 9, 9, 9)),
        room: Station::new("S00000000000", Ipv4Addr::new(9, 9, 9, 8)),
    };
    assert_eq!(peers.accept_endpoints(&forged), Verdict::Mismatch);
    assert!(peers.room.ip.is_unspecified());
    assert_eq!(peers.door.as_ref().unwrap().ip, door().ip);
    assert_eq!(peers.accept_endpoints(&endpoints()), Verdict::Accepted);
    assert_eq!(peers.endpoints().unwrap(), endpoints());
}

#[test]
fn a_frame_that_is_dropped_pins_nothing_on_the_bridge() {
    let mut agent = agent(AgentMode::Tap);
    let wire = tap();
    wire.on_frame(&mut agent, &frame(true, DOOR_MAC, 10_000, &ring()), 1, 1);
    // Another address for the Pad: neither it nor its hardware address is learned.
    let moved = Endpoints {
        door: door(),
        room: Station::new("S00000000000", Ipv4Addr::new(9, 9, 9, 8)),
    };
    let answer = session_control(OP_ANSWER, &moved).unwrap();
    let forged = build_udp_ipv4(
        MacAddress([6; 6]),
        DOOR_MAC,
        moved.room.ip,
        door().ip,
        10_000,
        10_000,
        &answer,
        1,
    )
    .unwrap();
    wire.on_frame(&mut agent, &forged, 2, 2);
    assert_eq!(agent.peers().pad_mac, None);
    assert_eq!(agent.mismatches(), 1);
    assert_eq!(agent.state(0).phase, CallPhase::Ringing);
    // A query under the hardware address of another station teaches no address.
    let pinned = IntercomConfig { door_mac: Some("02:00:00:00:00:02".into()), ..intercom() };
    let policy = Policy { cooldown: Duration::from_secs(1), unlock_requires_answer: false };
    let peers = peers_from_config(&pinned).unwrap();
    let mut agent = Agent::new(AgentMode::Tap, peers, policy, Duration::from_secs(5), 1_000_000);
    let query = discovery_request("S00000000000").unwrap();
    wire.on_frame(&mut agent, &frame(true, MacAddress([6; 6]), 10_008, &query), 3, 3);
    assert!(agent.peers().door.is_none());
    assert_eq!(agent.mismatches(), 1);
    wire.on_frame(&mut agent, &frame(true, DOOR_MAC, 10_008, &query), 4, 4);
    assert_eq!(agent.peers().door.unwrap().ip, door().ip);
    assert_eq!(agent.mismatches(), 1);
}

#[test]
fn a_command_is_replayed_behind_many_others() {
    let mut agent = agent(AgentMode::Pad);
    agent.on_wire(Side::Door, &ring(), 1, 1);
    let report = match agent.begin_command(CallAction::Claim, "first", at(0), 1) {
        CommandStep::Send { report, .. } => report,
        _ => panic!("not sent"),
    };
    agent.finish_command("first", report, true, 1);
    for i in 0..255 {
        match agent.begin_command(CallAction::Claim, &format!("other{i}"), at(0), 2) {
            CommandStep::Done(result) => assert_eq!(result.error, Some(CallError::NotRinging)),
            _ => panic!("sent"),
        }
    }
    match agent.begin_command(CallAction::Claim, "first", at(9), 3) {
        CommandStep::Done(result) => assert!(result.ok && result.replayed),
        _ => panic!("sent again"),
    }
    agent.begin_command(CallAction::Claim, "one more", at(9), 4);
    match agent.begin_command(CallAction::Claim, "first", at(9), 5) {
        CommandStep::Done(result) => assert!(!result.ok && !result.replayed),
        _ => panic!("sent again"),
    }
}
