use michoi::agent_api::{CallAction, CallError, EventKind};
use michoi::cli::{
    bytes_of_kib, override_config, policy, room_address, server_config, summarize, with_lifetime,
    AgentFlags,
};
use michoi::config::{AgentMode, Config};
use michoi::digest::capture_digest;
use michoi::discovery::{resolved_by, DiscoveryAction, DiscoveryService};
use michoi::door_station::{
    choose_sink, parse_console, split_command, ConsoleCommand, DoorError, DoorStation,
    DoorStationConfig, Hook, SinkChoice,
};
use michoi::emitter::{
    frame_gap_us, frame_name, is_frame_extension, observe_reply, ring_script, DoorIdentity,
    DoorObservation, Emulator, MediaSource, Monitor,
};
use michoi::ethernet::{build_udp_ipv4, MacAddress};
use michoi::hap::{
    device_id, identity, local_ipv4, next_id, relock_delay, rings, shown_state, Interface,
    IntercomAccessory, LockPoll, SwitchPoll,
};
use michoi::media::{ffmpeg_filter, pcm_frames, LiteMediaEngine, MediaEngine};
use michoi::net::{Ipv4Addr, SocketAddr};
use michoi::pcap::{read_udp, PcapError};
use michoi::protocol::{
    audio_packet, discovery_reply, discovery_request, jpeg_packets, session_control,
    session_request, Endpoints, Message, Station, FAMILY_MONITOR, OP_ANSWER, OP_HANGUP,
    OP_KEEPALIVE, OP_UNLOCK,
};
use michoi::replay_agent::{replay_timeline, ReplayAgent, ReplayError};
use michoi::state::{CallPhase, Owner};
use michoi::time::{Duration, Instant};
use michoi::transport::{AgentEvent, FrameKind};

fn at(secs: u64) -> Instant {
    Instant { nanos: (1000 + secs as u128) * 1_000_000_000 }
}

fn jpeg(len: usize) -> Vec<u8> {
    let mut frame = vec![3; len];
    frame[..2].copy_from_slice(&[0xff, 0xd8]);
    frame[len - 2..].copy_from_slice(&[0xff, 0xd9]);
    frame
}

/// A capture of one call: the door rings three times, shows a frame and plays audio, the Pad
/// answers and unlocks, the door hangs up.
fn capture() -> Vec<u8> {
    let e = Endpoints::captured();
    let door = |payload: &[u8]| frame(e.door.ip, e.room.ip, payload);
    let pad = |payload: &[u8]| frame(e.room.ip, e.door.ip, payload);
    let ring = session_request(&e, &[0; 174]).unwrap();
    let packets = jpeg_packets(1, &jpeg(1300), &e).unwrap();
    let mut frames = vec![
        (5, door(b"noise before the call")),
        (10, door(&ring)),
        (11, door(&ring)),
        (12, door(&ring)),
        (20, door(&packets.concat())),
        (30, door(&audio_packet(1, &[7; 512], &e).unwrap())),
        (31, pad(&audio_packet(1, &[8; 512], &e).unwrap())),
        (40, pad(&session_control(OP_ANSWER, &e).unwrap())),
        (50, pad(&session_control(OP_UNLOCK, &e).unwrap())),
        (60, door(&session_control(OP_HANGUP, &e).unwrap())),
        (61, door(&session_control(OP_HANGUP, &e).unwrap())),
    ];
    let mut out = vec![0xd4, 0xc3, 0xb2, 0xa1, 2, 0, 4, 0, 0, 0, 0, 0, 0, 0, 0, 0, 0, 0, 4, 0, 1, 0, 0, 0];
    for (ms, raw) in frames.drain(..) {
        out.extend_from_slice(&100_u32.to_le_bytes());
        out.extend_from_slice(&(ms * 1000_u32).to_le_bytes());
        out.extend_from_slice(&(raw.len() as u32).to_le_bytes());
        out.extend_from_slice(&(raw.len() as u32).to_le_bytes());
        out.extend_from_slice(&raw);
    }
    out
}

fn frame(source: Ipv4Addr, destination: Ipv4Addr, payload: &[u8]) -> Vec<u8> {
    let mac = MacAddress([2, 0, 0, 0, 0, 1]);
    build_udp_ipv4(mac, mac, source, destination, 10_000, 10_000, payload, 1).unwrap()
}

#[test]
fn a_capture_is_read() {
    let records = read_udp(&capture()).unwrap();
    assert_eq!(records.len(), 11);
    assert_eq!(records[0].frame, 1);
    assert_eq!(records[0].timestamp_micros, 0);
    assert_eq!(records[0].payload, b"noise before the call");
    assert_eq!(records[1].timestamp_micros, 5_000);
    assert_eq!(records[6].source_ip, Ipv4Addr::new(192, 168, 124, 61));
    assert_eq!(read_udp(b"no capture").unwrap_err(), PcapError::Format);
    let mut cut = capture();
    cut.pop();
    assert_eq!(read_udp(&cut).unwrap_err(), PcapError::Format);
}

#[test]
fn a_capture_becomes_a_timeline() {
    let timeline = replay_timeline(&capture()).unwrap();
    let kinds: Vec<FrameKind> = timeline.iter().map(|t| t.frame.kind).collect();
    assert_eq!(
        kinds,
        vec![
            FrameKind::Event,
            FrameKind::Jpeg,
            FrameKind::DoorPcm,
            FrameKind::Event,
            FrameKind::Event,
            FrameKind::Event
        ]
    );
    assert!(matches!(timeline[0].event, Some(AgentEvent::CallStarted { .. })));
    assert_eq!(timeline[0].offset_micros, 0);
    assert_eq!(timeline[1].frame.payload, jpeg(1300));
    assert_eq!(timeline[2].frame.payload, vec![7; 512]);
    assert_eq!(timeline[3].event, Some(AgentEvent::PadActionObserved { opcode: OP_ANSWER }));
    assert_eq!(timeline[5].offset_micros, 50_000);
    assert_eq!(timeline[5].frame.sequence, 5);
    let summary = summarize(&timeline);
    assert_eq!(summary.frames, 6);
    assert_eq!((summary.first_offset_micros, summary.last_offset_micros), (0, 50_000));
    assert_eq!(replay_timeline(&capture()[..24]).unwrap_err(), ReplayError::NoSession);
    assert_eq!(replay_timeline(b"x").unwrap_err(), ReplayError::Capture);
}

#[test]
fn a_replay_takes_commands() {
    let mut agent = ReplayAgent::new(Duration::from_secs(1), Duration::from_secs(5), 100_000);
    let timeline = replay_timeline(&capture()).unwrap();
    assert!(agent.has_room());
    let started = agent.play(&timeline[0], 1, 1);
    assert!(matches!(started.event.unwrap().kind, EventKind::CallStarted { .. }));
    assert_eq!(agent.play(&timeline[1], 2, 2).video.unwrap().jpeg, jpeg(1300));
    assert_eq!(agent.talk(&[0; 512]), Err(CallError::UnlockNotAllowed));
    let (result, event) = agent.execute(CallAction::Claim, "c", at(0), 3);
    assert!(result.ok && event.is_some());
    assert!(agent.execute(CallAction::Claim, "c", at(0), 3).0.replayed);
    assert_eq!(agent.talk(&[0; 512]), Ok(()));
    assert_eq!(agent.talk(&[0; 5]), Err(CallError::AgentOffline));
    // The captured Pad answers too late.
    assert!(agent.play(&timeline[3], 4, 4).event.is_none());
    assert!(agent.execute(CallAction::Unlock, "u", at(0), 5).0.ok);
    let refused = agent.execute(CallAction::Unlock, "v", at(0), 5).0;
    assert_eq!(refused.error, Some(CallError::UnlockCooldown));
    assert!(agent.play(&timeline[5], 6, 6).event.is_some());
    assert_eq!(agent.state(0).phase, CallPhase::Idle);
    assert_eq!(agent.state(0).agent_id, "fake-pad-cap");
    let error = AgentEvent::Error { message: "m".into() };
    assert!(matches!(agent.apply(1, &error, 7).unwrap().kind, EventKind::AgentError { .. }));
}

#[test]
fn a_door_station_is_operated() {
    let config = DoorStationConfig::default();
    let mut station = DoorStation::from_capture(&capture(), config).unwrap();
    assert_eq!(station.snapshot(9).jpeg, jpeg(1300));
    let (event, start) = station.ring(500);
    assert!(event.is_some() && start);
    assert_eq!(station.session_string(), "500");
    assert_eq!(station.ring(501).0, None);
    assert!(station.is_streaming());
    assert_eq!(station.stream_frame(3, 77).pts_us, 77);
    assert_eq!(station.stream_audio(1, 78).unwrap().pcm, vec![7; 512]);
    let claimed = station.command(CallAction::Claim, "c", at(0), 600);
    assert!(claimed.result.ok);
    assert_eq!(claimed.hook, Some(Hook::Answer));
    let again = station.command(CallAction::Claim, "c", at(0), 600);
    assert!(again.result.replayed && again.hook.is_none());
    assert_eq!(station.state(1).owner, Owner::Remote);
    assert!(station.hangup_local("door", 700).is_some());
    assert!(!station.is_streaming());
    assert!(station.hangup_local("door", 701).is_none());
    assert_eq!(
        DoorStation::from_capture(b"x", DoorStationConfig::default()).err(),
        Some(DoorError::Replay(ReplayError::Capture))
    );
}

#[test]
fn an_operator_types() {
    assert_eq!(parse_console(" ring 10.0.0.1 \n"), ConsoleCommand::RingTarget("10.0.0.1".into()));
    assert_eq!(parse_console("r"), ConsoleCommand::Ring);
    assert_eq!(parse_console("end"), ConsoleCommand::Hangup);
    assert_eq!(parse_console("exit"), ConsoleCommand::Quit);
    assert_eq!(parse_console(""), ConsoleCommand::Help);
    assert_eq!(parse_console("jump"), ConsoleCommand::Unknown("jump".into()));
    assert_eq!(
        choose_sink(false, &None, &None, "d.s16le"),
        SinkChoice::File("d.s16le".into())
    );
    assert_eq!(
        choose_sink(true, &Some("mpv -".into()), &None, "d"),
        SinkChoice::Play("mpv -".into())
    );
    assert!(matches!(choose_sink(true, &None, &Some("f".into()), "d"), SinkChoice::Play(_)));
    assert_eq!(split_command(" a  b c "), Some(("a".into(), vec!["b".into(), "c".into()])));
    assert_eq!(split_command("  "), None);
}

#[test]
fn a_door_is_emulated() {
    let files = vec![jpeg(1300), b"no picture".to_vec(), jpeg(10)];
    let source = MediaSource::load(&files, Some(&[5; 600])).unwrap();
    assert_eq!((source.frames.len(), source.audio.len()), (2, 2));
    assert!(MediaSource::load(&vec![b"x".to_vec()], None).is_none());
    let mut identity = DoorIdentity {
        door: Station::new("M00000000000", Ipv4Addr::new(0, 0, 0, 0)),
        room: Station::new("S00000000000", Ipv4Addr::new(192, 168, 124, 61)),
    };
    identity.fill_door_ip(SocketAddr::V4 { ip: Ipv4Addr::new(192, 168, 124, 2), port: 1 });
    let e = identity.endpoints();
    assert_eq!(e, Endpoints::captured());
    let script = ring_script(&e, &[0; 174]).unwrap();
    assert_eq!(script.len(), 14);
    assert_eq!(script.iter().filter(|s| s.required).count(), 3);
    let mut door = Emulator::new(e, source);
    assert_eq!(door.next_frame().len(), 2);
    assert_eq!(door.next_frame().len(), 1);
    assert!(door.next_audio(false).is_none());
    let sent = door.next_audio(true).unwrap();
    assert_eq!(Message::parse(&sent).unwrap().media().unwrap().data, &[5; 512]);
    assert!(door.control(OP_KEEPALIVE).is_some());
    assert_eq!(frame_gap_us(8), 125_000);
    assert_eq!(frame_gap_us(0), 1_000_000);
    assert!(is_frame_extension("jpeg") && !is_frame_extension("png"));
    assert_eq!(frame_name(7), "frame-0007.jpg");
    assert_eq!(frame_name(12_345), "frame-12345.jpg");
}

#[test]
fn what_comes_back_is_observed() {
    let e = Endpoints::captured();
    let mut seen = DoorObservation::default();
    let voice = audio_packet(1, &[9; 512], &e).unwrap();
    let observed = observe_reply(&voice, &mut seen);
    assert_eq!(observed.voice, Some(vec![9; 512]));
    assert_eq!(observed.line.as_deref(), Some("voice from Pad: 1 audio packets"));
    assert!(observe_reply(&voice, &mut seen).line.is_none());
    assert_eq!(seen.audio_bytes, 1024);
    let hangup = observe_reply(&session_control(OP_HANGUP, &e).unwrap(), &mut seen);
    assert!(hangup.hung_up);
    assert!(observe_reply(b"junk", &mut seen).line.is_none());
}

#[test]
fn a_camera_is_viewed() {
    let e = Endpoints::captured();
    let mut monitor = Monitor::new(&e.room, &e.door).unwrap();
    let hangup = Message::parse(&monitor.hangup()).unwrap().family;
    assert_eq!(hangup, FAMILY_MONITOR);
    assert_eq!(Message::parse(&monitor.keepalive()).unwrap().opcode, OP_KEEPALIVE);
    assert!(!monitor.on_packet(b"junk").stop);
    let stop = monitor.hangup();
    assert!(monitor.on_packet(&stop).stop);
    assert_eq!(monitor.observation().hangups, 1);
    let long = Station::new(&"x".repeat(30), e.room.ip);
    assert!(Monitor::new(&long, &e.door).is_err());
}

#[test]
fn discovery_answers_and_resolves() {
    let from = SocketAddr::V4 { ip: Ipv4Addr::new(10, 0, 0, 7), port: 10_008 };
    let six = SocketAddr::V6 { address: 1, port: 1, flowinfo: 0, scope_id: 0 };
    let mut station = DiscoveryService::new(Some("S1".into()));
    let mut asker = DiscoveryService::new(None);
    let query = asker.begin_resolve("S1", 41).unwrap();
    asker.begin_resolve("S2", 42).unwrap();
    asker.begin_resolve("S1", 43).unwrap();
    let reply = match station.on_datagram(&query, from) {
        DiscoveryAction::Answer(reply) => reply,
        _ => panic!("no answer"),
    };
    assert!(matches!(asker.on_datagram(&query, from), DiscoveryAction::Nothing));
    assert!(matches!(asker.on_datagram(&reply, six), DiscoveryAction::Nothing));
    match asker.on_datagram(&reply, from) {
        DiscoveryAction::Resolved { tokens, ip } => {
            assert_eq!(tokens, vec![41, 43]);
            assert_eq!(ip, Ipv4Addr::new(10, 0, 0, 7));
        }
        _ => panic!("not resolved"),
    }
    // Who gives up takes everybody with them who waits for the same id, and nobody else.
    asker.begin_resolve("S2", 44).unwrap();
    asker.begin_resolve("S3", 45).unwrap();
    asker.give_up("S2");
    match asker.on_datagram(&discovery_reply("S3").unwrap(), from) {
        DiscoveryAction::Resolved { tokens, .. } => assert_eq!(tokens, vec![45]),
        _ => panic!("not resolved"),
    }
    match asker.on_datagram(&discovery_reply("S2").unwrap(), from) {
        DiscoveryAction::Resolved { tokens, .. } => assert!(tokens.is_empty()),
        _ => panic!("not resolved"),
    }
    assert!(matches!(
        station.on_datagram(&discovery_request("S2").unwrap(), from),
        DiscoveryAction::Nothing
    ));
    assert!(asker.begin_resolve(&"x".repeat(100), 1).is_err());
    assert_eq!(resolved_by(&reply, from, "S1"), Some(Ipv4Addr::new(10, 0, 0, 7)));
    assert_eq!(resolved_by(&reply, from, "S2"), None);
    assert_eq!(resolved_by(&reply, six, "S1"), None);
}

#[test]
fn an_accessory_has_a_stable_identity() {
    let id = device_id("1234");
    assert_eq!(id, device_id("1234"));
    assert_ne!(id, device_id("1235"));
    assert_eq!(id.0[0] & 3, 2);
    assert_eq!(identity(&[0xff, 1, 2, 3, 4, 5, 6]), MacAddress([0xfe, 1, 2, 3, 4, 5]));
    assert_eq!(identity(&[0x00, 1, 2, 3, 4, 5]), MacAddress([0x02, 1, 2, 3, 4, 5]));
    let accessory = IntercomAccessory::new(1, &[2, 9, 4], 1, 2);
    assert_eq!((accessory.doorbell, accessory.lock, accessory.elevator), (10, 12, 15));
    assert_eq!(IntercomAccessory::new(1, &[], 0, 0).doorbell, 2);
    let mut seq = 1;
    assert_eq!(next_id(&mut seq, "claim"), "hap-claim-1");
    assert_eq!(next_id(&mut seq, "unlock"), "hap-unlock-2");
}

#[test]
fn an_accessory_serves_on_a_usable_address() {
    let interface = |name: &str, ip: Option<Ipv4Addr>, loopback: bool| Interface {
        name: name.into(),
        ip,
        loopback,
    };
    let list = vec![
        interface("lo", Some(Ipv4Addr::new(127, 0, 0, 1)), true),
        interface("eth9", Some(Ipv4Addr::new(169, 254, 1, 1)), false),
        interface("eth0", Some(Ipv4Addr::new(10, 0, 0, 1)), false),
        interface("eth1", Some(Ipv4Addr::new(10, 0, 1, 1)), false),
        interface("eth2", None, false),
    ];
    assert_eq!(local_ipv4(&list, ""), Some(Ipv4Addr::new(10, 0, 0, 1)));
    assert_eq!(local_ipv4(&list, "eth1"), Some(Ipv4Addr::new(10, 0, 1, 1)));
    assert_eq!(local_ipv4(&list, "eth2"), Some(Ipv4Addr::new(10, 0, 0, 1)));
    assert_eq!(local_ipv4(&list[..2], "eth9"), None);
}

#[test]
fn the_lock_and_the_switch_are_momentary() {
    let mut lock = LockPoll::new();
    assert!(!lock.observe(Some(1)));
    assert!(lock.observe(Some(0)));
    assert!(!lock.observe(Some(0)));
    lock.relocked();
    assert!(!lock.observe(None));
    assert!(lock.observe(Some(256)));
    assert_eq!((shown_state(true), shown_state(false)), (0, 1));
    assert_eq!(relock_delay(), Duration::from_millis(1500));
    let mut switch = SwitchPoll::new();
    assert!(!switch.observe(false));
    assert!(switch.observe(true));
    assert!(!switch.observe(false));
    assert!(switch.observe(true));
    let started = EventKind::CallStarted {
        session_id: "1".into(),
        door_id: "d".into(),
        room_id: "r".into(),
    };
    assert!(rings(&started));
    assert!(!rings(&EventKind::PadAnswered { session_id: "1".into() }));
}

#[test]
fn flags_take_precedence() {
    let mut config = Config::default();
    config.intercom.device_id = "S1".into();
    config.agent.token = "t".into();
    let flags = AgentFlags {
        mode: Some(AgentMode::Pad),
        device_id: None,
        subnet: Some("10.0.0.0/8".into()),
        listen: None,
        http: None,
        token: Some(String::new()),
        swagger: true,
        no_web_ui: true,
        history_secs: Some(9),
    };
    let config = override_config(config, flags);
    assert_eq!(config.intercom.mode, AgentMode::Pad);
    assert_eq!(config.intercom.device_id, "S1");
    assert!(config.agent.swagger && !config.agent.web_ui);
    assert_eq!(config.media.history_secs, 9);
    let server = server_config(config.agent.http_listen, Some(config.agent.token), true, false);
    assert!(server.token.is_none());
    assert_eq!(with_lifetime(server, 7).event_stream_lifetime.1, Duration::from_secs(7));
    assert_eq!(policy(&config.security).cooldown, Duration::from_millis(config.security.unlock_cooldown_ms));
    assert_eq!(bytes_of_kib(2048), Some(2_097_152));
    assert_eq!(bytes_of_kib(u64::MAX), None);
    let target = SocketAddr::V4 { ip: Ipv4Addr::new(1, 2, 3, 4), port: 5 };
    assert_eq!(room_address(None, target), Some(Ipv4Addr::new(1, 2, 3, 4)));
}

#[test]
fn a_capture_has_a_digest() {
    assert_eq!(
        capture_digest(b"abc"),
        "ba7816bf8f01cfea414140de5dae2223b00361a396177a9cb410ff61f20015ad"
    );
}

#[test]
fn media_is_prepared() {
    let frames = pcm_frames(&[1; 513]);
    assert_eq!(frames.len(), 2);
    assert_eq!(frames[1][..2], [1, 0]);
    assert_eq!(ffmpeg_filter(640, 480, 8), "scale=640:480,fps=8");
    let mut engine = LiteMediaEngine::new(None, b"black");
    assert_eq!(engine.static_snapshot(), b"black");
    assert!(engine.push_jpeg(&jpeg(20), 5).is_ok());
    assert_eq!(engine.discarded_frames, 1);
    assert_eq!(engine.name(), "lite");
    assert!(engine.poll_h264().is_none());
}
