use michoi::net::Ipv4Addr;
use michoi::protocol::{
    audio_packet, bootstrap_reply, bootstrap_request, discovery_reply, discovery_reply_room,
    discovery_request, discovery_request_room, elevator_request, is_elevator_ack, jpeg_packets,
    logical_size, monitor_request, packet, page_request, session_control, session_reply,
    session_request, split_coalesced, Endpoints, JpegReassembler, Message, ProtocolError, Station,
    FAMILY_BOOTSTRAP, FAMILY_ELEVATOR, FAMILY_MONITOR, FAMILY_PAGE, FAMILY_SESSION, MEDIA_AUDIO,
    MEDIA_JPEG, OP_ANSWER, OP_HANGUP, OP_KEEPALIVE, OP_MEDIA, OP_REPLY, OP_REQUEST,
};

#[test]
fn discovery_request_reply_round_trip() {
    let req = discovery_request("S00000000000").unwrap();
    assert_eq!(req.len(), 100);
    assert_eq!(req[0], 1);
    assert_eq!(
        discovery_request_room(&req).as_deref(),
        Some("S00000000000")
    );
    let reply = discovery_reply("S00000000000").unwrap();
    assert_eq!(
        discovery_reply_room(&reply).as_deref(),
        Some("S00000000000")
    );
    // A request is not mistaken for a reply and vice versa.
    assert!(discovery_reply_room(&req).is_none());
    assert!(discovery_request_room(&reply).is_none());
}

#[test]
fn discovery_ids_have_a_limit() {
    assert_eq!(discovery_reply(&"x".repeat(34)).unwrap()[34], b'x');
    assert_eq!(discovery_reply(&"x".repeat(35)), Err(ProtocolError::StationTooLong));
    assert!(discovery_request(&"x".repeat(99)).is_ok());
    assert_eq!(discovery_request(&"x".repeat(100)), Err(ProtocolError::StationTooLong));
    assert!(discovery_request_room(&[]).is_none());
    // What is no UTF-8 is read with replacement characters.
    assert_eq!(discovery_request_room(&[1, b'a', 0xff, 0]).as_deref(), Some("a\u{fffd}"));
}

#[test]
fn production_encoder_round_trips() {
    let endpoints = Endpoints::captured();
    let answer = session_control(OP_ANSWER, &endpoints).unwrap();
    let message = Message::parse(&answer).unwrap();
    assert_eq!(message.declared, 80);
    assert_eq!(message.endpoints().unwrap(), endpoints);

    let pcm = [0x5a; 512];
    let packet = audio_packet(42, &pcm, &endpoints).unwrap();
    let media = Message::parse(&packet).unwrap().media().unwrap();
    assert_eq!(media.sequence, 42);
    assert_eq!(media.data, pcm);
}

#[test]
fn a_station_is_24_bytes() {
    let station = Station::new("S00000000000", Ipv4Addr::new(192, 168, 124, 61));
    let raw = station.pack().unwrap();
    assert_eq!(&raw[..12], b"S00000000000");
    assert_eq!(&raw[12..20], &[0; 8]);
    assert_eq!(&raw[20..], &[192, 168, 124, 61]);
    assert_eq!(Station::parse(&raw).unwrap(), station);
    assert_eq!(Station::parse(&raw[..23]), Err(ProtocolError::BadStation));
    let long = Station::new(&"x".repeat(21), Ipv4Addr::new(0, 0, 0, 0));
    assert_eq!(long.pack(), Err(ProtocolError::StationTooLong));
    assert_eq!(session_control(OP_ANSWER, &Endpoints { door: long, room: station }), Err(ProtocolError::StationTooLong));
}

#[test]
fn a_header_is_checked() {
    assert_eq!(Message::parse(b"PENGUIN0").unwrap_err(), ProtocolError::Short);
    assert_eq!(Message::parse(&[0; 32]).unwrap_err(), ProtocolError::BadMagic);
    let raw = packet(0x1234, 0x55, 40, &[9; 8]);
    assert_eq!(
        raw,
        [
            b"PENGUIN0".as_slice(),
            &[0x34, 0x12],
            &[0x55, 0, 0, 0],
            &[40, 0, 0, 0],
            &[0; 14],
            &[9; 8]
        ]
        .concat()
    );
    let message = Message::parse(&raw).unwrap();
    assert_eq!(message.family, 0x1234);
    assert_eq!(message.opcode, 0x55);
    assert_eq!(message.body, &[9; 8]);
    assert!(message.endpoints().is_none());
    assert!(message.media().is_none());
    assert_eq!(
        audio_packet(1, &[0; 511], &Endpoints::captured()),
        Err(ProtocolError::BadAudioLength)
    );
    assert_eq!(ProtocolError::BadAudioLength.message(), "audio packets must contain exactly 512 PCM bytes");
}

#[test]
fn the_replies_of_a_pad() {
    let endpoints = Endpoints::captured();
    let reply = session_reply(&endpoints).unwrap();
    let message = Message::parse(&reply).unwrap();
    assert_eq!((message.family, message.opcode, message.declared), (FAMILY_SESSION, OP_REPLY, 96));
    assert_eq!(&message.body[48..], b"VIDEOA\0\0\x32\0\x09\0\x09\0\xff\0");
    let boot = bootstrap_reply(&endpoints.room).unwrap();
    assert_eq!(boot.len(), 898);
    let message = Message::parse(&boot).unwrap();
    assert_eq!((message.family, message.opcode), (FAMILY_BOOTSTRAP, 2));
    assert_eq!(&message.body[2..14], b"S00000000000");
}

#[test]
fn the_requests_of_a_door() {
    let endpoints = Endpoints::captured();
    let page = page_request();
    assert_eq!(Message::parse(&page).unwrap().family, FAMILY_PAGE);
    assert_eq!(page.len(), 36);
    let boot = bootstrap_request();
    assert_eq!(Message::parse(&boot).unwrap().declared, 20);
    let ring = session_request(&endpoints, &[7; 174]).unwrap();
    let message = Message::parse(&ring).unwrap();
    assert_eq!(message.opcode, OP_REQUEST);
    assert_eq!(message.declared, 254);
    assert_eq!(message.endpoints().unwrap(), endpoints);
    let view = monitor_request(&endpoints.room, &endpoints.door, &[]).unwrap();
    let message = Message::parse(&view).unwrap();
    assert_eq!(message.family, FAMILY_MONITOR);
    // The viewer comes first.
    assert_eq!(&message.body[..12], b"S00000000000");
    let call = elevator_request(&[1, 2]);
    assert_eq!(Message::parse(&call).unwrap().declared, 34);
    assert!(!is_elevator_ack(&call));
    assert!(is_elevator_ack(&packet(FAMILY_ELEVATOR, 2, 32, &[])));
}

#[test]
fn coalesced_packets_are_split() {
    let endpoints = Endpoints::captured();
    let answer = session_control(OP_ANSWER, &endpoints).unwrap();
    let audio = audio_packet(1, &[3; 512], &endpoints).unwrap();
    let hangup = session_control(OP_HANGUP, &endpoints).unwrap();
    let joined = [b"junk".as_slice(), &answer, &audio, &hangup].concat();
    let pieces = split_coalesced(&joined);
    assert_eq!(pieces, vec![answer.as_slice(), &audio, &hangup]);
    assert_eq!(logical_size(&audio), Some(602));
    assert_eq!(logical_size(&answer), Some(80));
    assert_eq!(logical_size(&packet(FAMILY_SESSION, OP_KEEPALIVE, 0, &[0; 48])), Some(80));
    assert_eq!(logical_size(&packet(FAMILY_SESSION, OP_ANSWER, 0, &[0; 48])), None);
    assert!(split_coalesced(b"no packet here").is_empty());
}

fn jpeg(len: usize) -> Vec<u8> {
    let mut frame: Vec<u8> = (0..len).map(|i| i as u8).collect();
    frame[0] = 0xff;
    frame[1] = 0xd8;
    frame[len - 2] = 0xff;
    frame[len - 1] = 0xd9;
    frame
}

#[test]
fn a_frame_is_put_together_in_any_order() {
    let endpoints = Endpoints::captured();
    let frame = jpeg(3000);
    let packets = jpeg_packets(9, &frame, &endpoints).unwrap();
    assert_eq!(packets.len(), 3);
    assert!(packets.iter().all(|p| p.len() == 1290));
    for order in [[0, 1, 2], [2, 0, 1], [1, 2, 0]] {
        let mut reassembler = JpegReassembler::default();
        let mut done = None;
        for i in order {
            let message = Message::parse(&packets[i]).unwrap();
            let media = message.media().unwrap();
            assert_eq!(media.media_type, MEDIA_JPEG);
            assert_eq!(media.sequence, 9);
            assert!(done.is_none());
            done = reassembler.push(&media);
        }
        assert_eq!(done, Some(frame.clone()));
    }
}

#[test]
fn a_frame_with_a_hole_is_not_shown() {
    let endpoints = Endpoints::captured();
    let packets = jpeg_packets(1, &jpeg(2500), &endpoints).unwrap();
    let mut reassembler = JpegReassembler::new();
    for i in [0, 2, 0] {
        assert!(reassembler.push(&Message::parse(&packets[i]).unwrap().media().unwrap()).is_none());
    }
    // A picture that does not start like one is dropped when it is complete.
    let mut wrong = jpeg(100);
    wrong[0] = 0;
    let packets = jpeg_packets(2, &wrong, &endpoints).unwrap();
    assert!(reassembler.push(&Message::parse(&packets[0]).unwrap().media().unwrap()).is_none());
}

#[test]
fn media_is_read_from_its_own_family_alone() {
    let endpoints = Endpoints::captured();
    let audio = audio_packet(5, &[1; 512], &endpoints).unwrap();
    let message = Message::parse(&audio).unwrap();
    assert_eq!(message.opcode, OP_MEDIA);
    assert_eq!(message.media().unwrap().media_type, MEDIA_AUDIO);
    assert!(message.media_of(FAMILY_MONITOR).is_none());
}
