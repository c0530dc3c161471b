use michoi::agent_api::{
    AudioChunk, CallError, CommandCache, CommandResult, EventKind, EventLog, MediaRing, VideoFrame,
};
use michoi::state::StateError;
use michoi::time::Duration;

fn frame(pts_ms: u64, bytes: usize) -> VideoFrame {
    VideoFrame {
        pts_us: pts_ms * 1000,
        jpeg: vec![0_u8; bytes],
    }
}

#[test]
fn media_ring_evicts_by_time_and_bytes() {
    let mut ring = MediaRing::new(Duration::from_secs(2), 10_000);
    for i in 0..10 {
        ring.push_video(&frame(i * 500, 100));
    }
    // 4.5 s pushed, window 2 s: frames at >= 2.5 s remain (2.5..=4.5).
    let history = ring.history(0);
    assert_eq!(history.video.first().unwrap().pts_us, 2_500_000);
    assert_eq!(history.video.len(), 5);
    assert_eq!(ring.buffered(), Duration::from_millis(2000));
    // Byte cap wins over time.
    for i in 10..20 {
        ring.push_video(&frame(i * 500, 3_000));
    }
    assert!(ring.bytes() <= 10_000);
    assert!(ring.history(0).video.len() <= 3);
    // since_us filters.
    assert!(ring.history(u64::MAX).video.is_empty());
    // Zero window disables buffering.
    let mut off = MediaRing::new(Duration::from_secs(0), 10_000);
    off.push_video(&frame(1, 10));
    assert!(off.history(0).video.is_empty());
}

#[test]
fn media_ring_counts_audio_against_the_same_cap() {
    let mut ring = MediaRing::new(Duration::from_secs(5), 1_000);
    ring.push_video(&frame(0, 600));
    ring.push_audio(&AudioChunk { pts_us: 10_000, pcm: vec![1; 512] });
    // 1112 bytes are too many: the older video goes first.
    assert_eq!(ring.bytes(), 512);
    assert!(ring.history(0).video.is_empty());
    assert_eq!(ring.history(0).audio[0].pcm, vec![1; 512]);
    assert_eq!(ring.window(), Duration::from_secs(5));
}

#[test]
fn event_log_resumes_inside_window_and_reports_gaps() {
    let mut log = EventLog::new(3);
    for at_ms in 0..5 {
        log.push(at_ms, EventKind::AgentError { message: "x".into() });
    }
    assert_eq!(log.last_seq(), 5);
    assert_eq!(log.recent(5).unwrap().len(), 0);
    assert_eq!(
        log.recent(3).unwrap().iter().map(|e| e.seq).collect::<Vec<_>>(),
        vec![4, 5]
    );
    // Oldest buffered is 3, so a client that saw 1 has a gap.
    assert!(log.recent(1).is_none());
    assert_eq!(log.recent(2).unwrap().len(), 3);
}

#[test]
fn event_log_has_room_until_its_numbers_run_out() {
    let mut log = EventLog::new(3);
    assert!(log.has_room());
    assert!(log.has_room_for(usize::MAX - 1));
    assert!(!log.has_room_for(usize::MAX));
    let event = log.push(77, EventKind::ElevatorCalled { room_id: "S1".into() });
    assert_eq!(event.seq, 1);
    assert_eq!(event.at_ms, 77);
    assert_eq!(event.kind.name(), "elevator_called");
}

#[test]
fn command_cache_replays_and_evicts() {
    let mut cache = CommandCache::new(2);
    cache.store(&CommandResult::ok("a"));
    cache.store(&CommandResult::rejected("b", CallError::NotRinging));
    assert!(cache.get("a").unwrap().replayed);
    cache.store(&CommandResult::ok("c"));
    assert!(cache.get("a").is_none());
    assert_eq!(cache.get("b").unwrap().error, Some(CallError::NotRinging));
}

#[test]
fn rejections_have_their_status_and_message() {
    assert_eq!(CallError::NotRinging.http_status(), 409);
    assert_eq!(CallError::PadOwnsCall.http_status(), 409);
    assert_eq!(CallError::UnlockNotAllowed.http_status(), 409);
    assert_eq!(CallError::UnlockCooldown.http_status(), 429);
    assert_eq!(CallError::NoCall.http_status(), 409);
    assert_eq!(CallError::AgentOffline.http_status(), 503);
    assert_eq!(CallError::Unsupported.http_status(), 501);
    assert_eq!(CallError::UnlockCooldown.message(), "unlock cooldown is active");
    assert_eq!(CallError::from(StateError::PadOwnsCall), CallError::PadOwnsCall);
    assert_eq!(CommandResult::ok("x").http_status(), 200);
    assert_eq!(CommandResult::rejected("x", CallError::AgentOffline).http_status(), 503);
}

#[test]
fn a_result_that_is_stored_again_takes_no_second_place() {
    let mut cache = CommandCache::new(2);
    for id in ["a", "a", "b", "c", "d"] {
        cache.store(&CommandResult::ok(id));
    }
    assert!(cache.get("a").is_none());
    assert!(cache.get("b").is_none());
    assert!(cache.get("c").unwrap().ok);
    assert!(cache.get("d").unwrap().ok);
    cache.store(&CommandResult::rejected("c", CallError::NoCall));
    assert_eq!(cache.get("c").unwrap().error, Some(CallError::NoCall));
    assert!(cache.get("d").unwrap().ok);
    // A cache without capacity holds the last result only.
    let mut none = CommandCache::new(0);
    none.store(&CommandResult::ok("a"));
    none.store(&CommandResult::ok("b"));
    assert!(none.get("a").is_none());
    assert!(none.get("b").unwrap().ok);
}

#[test]
fn a_result_outlives_fewer_others_than_the_capacity() {
    let mut cache = CommandCache::new(4);
    cache.store(&CommandResult::ok("x"));
    for id in ["1", "2", "3"] {
        cache.store(&CommandResult::ok(id));
    }
    assert!(cache.get("x").unwrap().replayed);
    cache.store(&CommandResult::ok("4"));
    assert!(cache.get("x").is_none());
}

#[test]
fn the_ring_holds_the_latest_of_each_stream() {
    let mut ring = MediaRing::new(Duration::from_secs(60), 250);
    for i in 1..=4 {
        ring.push_video(&frame(i * 10, 100));
        ring.push_audio(&AudioChunk { pts_us: i * 10_000 + 1, pcm: vec![i as u8; 10] });
    }
    let held = ring.history(0);
    let video: Vec<u64> = held.video.iter().map(|f| f.pts_us).collect();
    let audio: Vec<u8> = held.audio.iter().map(|c| c.pcm[0]).collect();
    assert_eq!(video, vec![30_000, 40_000]);
    assert_eq!(audio, vec![2, 3, 4]);
}
