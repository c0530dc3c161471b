use michoi::state::{CallMachine, CallPhase, Owner, StateError};
use michoi::time::{Duration, Instant};

fn at(secs: u64) -> Instant {
    Instant { nanos: (100 + secs as u128) * 1_000_000_000 }
}

#[test]
fn unlock_is_allowed_any_time_with_cooldown() {
    let mut state = CallMachine::new(Duration::from_secs(1));
    state.unlock(at(0)).unwrap();
    assert_eq!(state.unlock(at(0)), Err(StateError::UnlockCooldown));
    state.start_call(7);
    assert_eq!(
        state.unlock(at(2)),
        Ok(()),
        "ringing calls can be unlocked without answering"
    );
    state.pad_answer().unwrap();
    assert_eq!(state.unlock(at(4)), Ok(()));
}

#[test]
fn strict_policy_requires_remote_owner_before_unlock() {
    let mut state = CallMachine::with_policy(Duration::from_secs(1), true);
    state.start_call(7);
    assert_eq!(state.unlock(at(0)), Err(StateError::UnlockNotAllowed));
    state.remote_answer().unwrap();
    state.unlock(at(1)).unwrap();
    assert_eq!(state.unlock(at(1)), Err(StateError::UnlockCooldown));
    assert_eq!(state.state().phase, CallPhase::Connected);
    assert_eq!(state.state().owner, Owner::Remote);
}

#[test]
fn the_first_answer_wins() {
    let mut state = CallMachine::new(Duration::from_secs(1));
    assert_eq!(state.pad_answer(), Err(StateError::NotRinging));
    assert_eq!(state.remote_answer(), Err(StateError::NotRinging));
    state.start_call(1);
    state.remote_answer().unwrap();
    assert_eq!(state.pad_answer(), Err(StateError::NotRinging));
    assert!(state.remote_media_allowed(1));
    assert!(!state.remote_media_allowed(2));
    state.hangup();
    assert_eq!(state.state().phase, CallPhase::Idle);
    assert_eq!(state.state().owner, Owner::Nobody);
}

#[test]
fn media_is_counted_for_each_call() {
    let mut state = CallMachine::new(Duration::from_secs(1));
    state.start_call(3);
    state.video_frame();
    state.video_frame();
    state.door_audio();
    assert_eq!(state.state().session_id, 3);
    assert_eq!(state.state().video_frames, 2);
    assert_eq!(state.state().door_audio_packets, 1);
    assert_eq!(StateError::NotRinging.message(), "no ringing call is available");
}
