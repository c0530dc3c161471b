use michoi::transport::{AgentCommand, FrameKind, WireError, WireFrame, HEADER_LEN};

fn sample() -> WireFrame {
    WireFrame {
        kind: FrameKind::Jpeg,
        flags: 3,
        session_id: 0x0102_0304_0506_0708,
        sequence: 7,
        timestamp_micros: 99,
        payload: vec![1, 2, 3],
    }
}

#[test]
fn a_wire_frame_is_read_back() {
    let raw = sample().encode();
    assert_eq!(&raw[..6], b"PAG1\x01\x04");
    assert_eq!(&raw[8..16], &[1, 2, 3, 4, 5, 6, 7, 8]);
    assert_eq!(raw.len(), HEADER_LEN + 3);
    assert_eq!(WireFrame::decode(&raw), Ok(sample()));
}

#[test]
fn a_wire_frame_that_is_wrong_is_refused() {
    let raw = sample().encode();
    assert_eq!(WireFrame::decode(&raw[..31]), Err(WireError::Short));
    let mut wrong = raw.clone();
    wrong[0] = b'X';
    assert_eq!(WireFrame::decode(&wrong), Err(WireError::Header));
    let mut version = raw.clone();
    version[4] = 2;
    assert_eq!(WireFrame::decode(&version), Err(WireError::Header));
    let mut kind = raw.clone();
    kind[5] = 0xee;
    assert_eq!(WireFrame::decode(&kind), Err(WireError::Kind(0xee)));
    let mut short = raw.clone();
    short.pop();
    assert_eq!(WireFrame::decode(&short), Err(WireError::Length));
    assert_eq!(FrameKind::from_byte(0), Err(WireError::Kind(0)));
    assert_eq!(FrameKind::from_byte(FrameKind::DoorPcm.to_byte()), Ok(FrameKind::DoorPcm));
}

#[test]
fn commands_carry_their_id() {
    assert_eq!(AgentCommand::ClaimCall { command_id: 5 }.command_id(), Some(5));
    assert_eq!(AgentCommand::ReleaseCall { command_id: 6 }.command_id(), Some(6));
    assert_eq!(AgentCommand::RegisterBackend { backend_id: "b".into() }.command_id(), None);
}
