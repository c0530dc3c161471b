use michoi::agent_api::{AudioChunk, CallAction, VideoFrame};
use michoi::agent_server::{EventText, TalkBuffer};
use michoi::door_call::{DoorCall, Tick};
use michoi::emitter::{frame_name, MediaSource, Monitor};
use michoi::ethernet::MacAddress;
use michoi::hap::{
    device_id, server_settings, IntercomAccessory, LockAction, LockControl, LockEvent, LockStage,
};
use michoi::net::Ipv4Addr;
use michoi::protocol::{
    jpeg_packets, session_control, session_reply, Endpoints, Message, Station, FAMILY_MONITOR,
    FAMILY_SESSION, OP_ANSWER, OP_HANGUP, OP_KEEPALIVE, OP_MEDIA, OP_UNLOCK,
};
use michoi::streams::{
    on_audio, on_feed, on_talk, on_video, AudioEvent, FeedEvent, StreamStep, TalkMessage,
    TalkStep, VideoEvent,
};
use michoi::time::{Duration, Instant};

fn second(n: u128) -> Instant {
    Instant { nanos: n * 1_000_000_000 }
}

fn call() -> DoorCall {
    let source = MediaSource {
        frames: vec![vec![1; 1300], vec![2; 10]],
        audio: vec![vec![5; 512]],
    };
    DoorCall::new(Endpoints::captured(), source)
}

#[test]
fn voice_waits_for_the_answer() {
    let e = Endpoints::captured();
    let mut call = call();
    assert_eq!(call.on_tick(Tick::Frame).len(), 2);
    assert_eq!(call.on_tick(Tick::Frame).len(), 1);
    assert_eq!(call.on_tick(Tick::Frame).len(), 2);
    assert!(call.on_tick(Tick::Audio).is_empty());
    let keepalive = call.on_tick(Tick::Keepalive);
    assert_eq!(keepalive, vec![session_control(OP_KEEPALIVE, &e).unwrap()]);
    let answer = session_control(OP_ANSWER, &e).unwrap();
    let seen = call.on_datagram(&answer);
    assert_eq!(seen.len(), 1);
    assert_eq!(seen[0].line.as_deref(), Some("Pad answered (00b7/05)"));
    assert!(call.observation().answered);
    let voice = call.on_tick(Tick::Audio);
    assert_eq!(voice.len(), 1);
    assert_eq!(Message::parse(&voice[0]).unwrap().media().unwrap().data, &[5; 512]);
}

#[test]
fn a_hangup_among_other_packets_ends_the_call() {
    let e = Endpoints::captured();
    let mut call = call();
    assert!(!call.is_over(second(100)));
    let mut datagram = session_reply(&e).unwrap();
    datagram.extend(session_control(OP_HANGUP, &e).unwrap());
    datagram.extend(session_control(OP_UNLOCK, &e).unwrap());
    let seen = call.on_datagram(&datagram);
    assert_eq!(seen.len(), 3);
    assert!(!seen[0].hung_up && seen[1].hung_up && !seen[2].hung_up);
    let observation = call.observation();
    assert!(observation.capability_reply);
    assert_eq!((observation.hangups, observation.unlocks), (1, 1));
    assert!(call.is_over(second(0)));
    call.on_datagram(&session_control(OP_ANSWER, &e).unwrap());
    assert!(call.is_over(second(0)));
    assert_eq!(call.hangup(), session_control(OP_HANGUP, &e).ok());
}

#[test]
fn a_call_ends_at_its_deadline() {
    let mut call = call();
    call.end_at(Some(second(5)));
    assert!(!call.is_over(second(4)));
    assert!(call.is_over(second(5)));
    call.end_at(None);
    assert!(!call.is_over(second(5)));
}

#[test]
fn an_id_that_does_not_fit_sends_nothing() {
    let mut e = Endpoints::captured();
    e.door = Station::new(&"x".repeat(30), e.door.ip);
    let source = MediaSource { frames: vec![vec![1; 10]], audio: Vec::new() };
    let mut call = DoorCall::new(e, source);
    assert!(call.on_tick(Tick::Frame).is_empty());
    assert!(call.on_tick(Tick::Keepalive).is_empty());
    assert!(call.hangup().is_none());
}

/// A session packet under the family of a monitor.
fn monitored(mut packet: Vec<u8>) -> Vec<u8> {
    let from = FAMILY_SESSION.to_le_bytes();
    let at = packet.windows(2).position(|pair| pair == &from[..]).unwrap();
    packet[at..at + 2].copy_from_slice(&FAMILY_MONITOR.to_le_bytes());
    packet
}

#[test]
fn a_camera_is_viewed_until_it_hangs_up() {
    let e = Endpoints::captured();
    let mut monitor = Monitor::new(&e.room, &e.door).unwrap();
    let mut jpeg = vec![9; 1300];
    jpeg[..2].copy_from_slice(&[0xff, 0xd8]);
    jpeg[1298..].copy_from_slice(&[0xff, 0xd9]);
    let packets = jpeg_packets(1, &jpeg, &e).unwrap();
    let datagram: Vec<u8> = packets.into_iter().flat_map(monitored).collect();
    assert_eq!(Message::parse(&datagram).unwrap().family, FAMILY_MONITOR);
    assert_eq!(Message::parse(&datagram).unwrap().opcode, OP_MEDIA);
    let seen = monitor.on_datagram(&datagram);
    assert_eq!(seen.len(), 2);
    assert!(seen[0].frame.is_none());
    let (number, frame) = seen[1].frame.as_ref().unwrap();
    assert_eq!((*number, frame), (1, &jpeg));
    assert_eq!(frame_name(*number), "frame-0001.jpg");
    monitor.end_at(Some(second(9)));
    assert!(!monitor.is_over(second(8)));
    assert!(monitor.is_over(second(9)));
    let bye = monitor.hangup();
    let seen = monitor.on_datagram(&bye);
    assert!(seen[0].stop);
    assert!(monitor.is_over(second(0)));
    assert_eq!(monitor.observation().jpeg_frames, 1);
}

fn written(step: StreamStep) -> String {
    match step {
        StreamStep::Write(bytes) => String::from_utf8(bytes).unwrap(),
        other => panic!("{other:?}"),
    }
}

fn finished(step: StreamStep) -> Vec<u8> {
    match step {
        StreamStep::Finish(bytes) => bytes,
        other => panic!("{other:?}"),
    }
}

#[test]
fn events_are_streamed() {
    let text = EventText { seq: 7, name: "call_ended".into(), data: "{}".into() };
    assert_eq!(
        written(on_feed(FeedEvent::Message(text))),
        "22\r\nid: 7\nevent: call_ended\ndata: {}\n\n\r\n",
    );
    assert_eq!(
        written(on_feed(FeedEvent::Lagged("{}".into()))),
        "20\r\nid: 0\nevent: snapshot\ndata: {}\n\n\r\n",
    );
    assert_eq!(written(on_feed(FeedEvent::Heartbeat)), "e\r\n: keep-alive\n\n\r\n");
    assert_eq!(finished(on_feed(FeedEvent::Closed)), b"0\r\n\r\n");
    assert_eq!(finished(on_feed(FeedEvent::Expired)), b"0\r\n\r\n");
    assert!(matches!(on_feed(FeedEvent::ClientSpoke), StreamStep::Wait));
    assert!(matches!(on_feed(FeedEvent::ClientGone), StreamStep::Leave));
}

#[test]
fn media_are_streamed() {
    let frame = VideoFrame { pts_us: 5, jpeg: b"ab".to_vec() };
    assert_eq!(
        written(on_video(VideoEvent::Frame(frame))),
        "--frame\r\nContent-Type: image/jpeg\r\nContent-Length: 2\r\nX-Pts-Us: 5\r\n\r\nab\r\n",
    );
    assert!(matches!(on_video(VideoEvent::Lagged), StreamStep::Wait));
    assert!(matches!(on_video(VideoEvent::Closed), StreamStep::Leave));
    assert!(matches!(on_video(VideoEvent::ClientGone), StreamStep::Leave));
    let chunk = AudioChunk { pts_us: 5, pcm: b"abcd".to_vec() };
    assert_eq!(written(on_audio(AudioEvent::Chunk(chunk))), "4\r\nbadc\r\n");
    assert!(matches!(on_audio(AudioEvent::Lagged), StreamStep::Wait));
    assert_eq!(finished(on_audio(AudioEvent::Closed)), b"0\r\n\r\n");
    assert!(matches!(on_audio(AudioEvent::ClientGone), StreamStep::Leave));
}

#[test]
fn talk_over_a_socket_is_cut_into_frames() {
    let mut buffer = TalkBuffer::new();
    match on_talk(&mut buffer, TalkMessage::Binary(vec![1; 500])) {
        TalkStep::Forward(frames) => assert!(frames.is_empty()),
        other => panic!("{other:?}"),
    }
    match on_talk(&mut buffer, TalkMessage::Ping(vec![4])) {
        TalkStep::Pong(payload) => assert_eq!(payload, vec![4]),
        other => panic!("{other:?}"),
    }
    match on_talk(&mut buffer, TalkMessage::Binary(vec![2; 600])) {
        TalkStep::Forward(frames) => {
            assert_eq!(frames.len(), 2);
            assert_eq!(&frames[0][..500], &[1; 500]);
            assert_eq!(frames[1], vec![2; 512]);
        }
        other => panic!("{other:?}"),
    }
    assert!(matches!(on_talk(&mut buffer, TalkMessage::Other), TalkStep::Nothing));
    assert!(matches!(on_talk(&mut buffer, TalkMessage::Close), TalkStep::End));
    assert!(matches!(on_talk(&mut buffer, TalkMessage::Failed), TalkStep::End));
}

fn commanded(action: LockAction) -> (CallAction, String) {
    match action {
        LockAction::Command { action, id } => (action, id),
        other => panic!("{other:?}"),
    }
}

#[test]
fn a_press_opens_once_and_relocks() {
    let mut lock = LockControl::new();
    let mut seq = 1;
    assert!(matches!(lock.step(&mut seq, LockEvent::Shown), LockAction::Nothing));
    assert!(matches!(lock.step(&mut seq, LockEvent::Polled(Some(1))), LockAction::Nothing));
    let claim = commanded(lock.step(&mut seq, LockEvent::Polled(Some(0))));
    assert_eq!(claim, (CallAction::Claim, "hap-claim-1".into()));
    assert!(matches!(lock.step(&mut seq, LockEvent::Polled(Some(0))), LockAction::Nothing));
    let unlock = commanded(lock.step(&mut seq, LockEvent::Answered(false)));
    assert_eq!(unlock, (CallAction::Unlock, "hap-unlock-2".into()));
    match lock.step(&mut seq, LockEvent::Answered(true)) {
        LockAction::Show { current, target, wait } => {
            assert_eq!((current, target), (0, 0));
            assert_eq!(wait, Some(Duration::from_millis(1500)));
        }
        other => panic!("{other:?}"),
    }
    match lock.step(&mut seq, LockEvent::Shown) {
        LockAction::Show { current, target, wait } => {
            assert_eq!((current, target), (1, 1));
            assert_eq!(wait, None);
        }
        other => panic!("{other:?}"),
    }
    assert!(matches!(lock.step(&mut seq, LockEvent::Shown), LockAction::Nothing));
    assert_eq!((lock.stage, seq), (LockStage::Watching, 3));
    assert_eq!(lock, LockControl::default());
}

#[test]
fn a_refused_press_shows_a_secured_lock() {
    let mut lock = LockControl::new();
    let mut seq = u32::MAX;
    lock.step(&mut seq, LockEvent::Polled(Some(0)));
    assert_eq!(seq, 0);
    lock.step(&mut seq, LockEvent::Answered(true));
    match lock.step(&mut seq, LockEvent::Answered(false)) {
        LockAction::Show { current, target, wait } => {
            assert_eq!((current, target, wait), (1, 0, None));
        }
        other => panic!("{other:?}"),
    }
}

#[test]
fn a_stored_identity_is_kept() {
    let ip = Ipv4Addr::new(10, 0, 0, 1);
    let stored = MacAddress([2, 1, 2, 3, 4, 5]);
    let kept = server_settings(Some(stored), ip, 5001, "Door".into(), [1; 8], "serial");
    assert_eq!(kept.device_id, stored);
    assert_eq!((kept.host, kept.port, kept.name.as_str(), kept.pin), (ip, 5001, "Door", [1; 8]));
    let fresh = server_settings(None, ip, 5001, "Door".into(), [1; 8], "serial");
    assert_eq!(fresh.device_id, device_id("serial"));
    assert_ne!(fresh.device_id, device_id("other"));
}

#[test]
fn services_are_numbered_apart() {
    let accessory = IntercomAccessory::new(1, &[2, 9, 4], 3, 2);
    assert_eq!((accessory.doorbell, accessory.lock, accessory.elevator), (10, 14, 17));
}
