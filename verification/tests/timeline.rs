use cool_scroll::loop_mode::LoopMode;
use cool_scroll::segments::{ConstraintMode, HoldSegment};
use cool_scroll::track::{checked_total_duration, locate, segment_at};
use std::time::Duration;

fn ms(n: u64) -> Duration {
    Duration::from_millis(n)
}

#[test]
fn a_zero_length_track_is_always_at_its_start() {
    for mode in [
        LoopMode::Once,
        LoopMode::LoopForever,
        LoopMode::Count(3),
        LoopMode::PingPong,
        LoopMode::PingPongCount(3),
    ] {
        assert_eq!(mode.map_time(ms(500), Duration::ZERO), Duration::ZERO);
    }
}

#[test]
fn once_follows_time_and_holds_the_end() {
    assert_eq!(LoopMode::Once.map_time(ms(250), ms(1000)), ms(250));
    assert_eq!(LoopMode::Once.map_time(ms(1000), ms(1000)), ms(1000));
    assert_eq!(LoopMode::Once.map_time(ms(2500), ms(1000)), ms(1000));
}

#[test]
fn loop_forever_wraps_around() {
    assert_eq!(LoopMode::default(), LoopMode::LoopForever);
    assert_eq!(LoopMode::LoopForever.map_time(ms(250), ms(1000)), ms(250));
    assert_eq!(LoopMode::LoopForever.map_time(ms(1000), ms(1000)), ms(0));
    assert_eq!(LoopMode::LoopForever.map_time(ms(2250), ms(1000)), ms(250));
}

#[test]
fn a_counted_loop_stops_at_its_end() {
    assert_eq!(LoopMode::Count(0).map_time(ms(250), ms(1000)), ms(0));
    assert_eq!(LoopMode::Count(2).map_time(ms(1250), ms(1000)), ms(250));
    assert_eq!(LoopMode::Count(2).map_time(ms(2000), ms(1000)), ms(1000));
    assert_eq!(LoopMode::Count(2).map_time(ms(9999), ms(1000)), ms(1000));
}

#[test]
fn ping_pong_goes_out_and_back() {
    assert_eq!(LoopMode::PingPong.map_time(ms(250), ms(1000)), ms(250));
    assert_eq!(LoopMode::PingPong.map_time(ms(1000), ms(1000)), ms(1000));
    assert_eq!(LoopMode::PingPong.map_time(ms(1250), ms(1000)), ms(750));
    assert_eq!(LoopMode::PingPong.map_time(ms(2000), ms(1000)), ms(0));
    assert_eq!(LoopMode::PingPong.map_time(ms(2250), ms(1000)), ms(250));
}

#[test]
fn counted_ping_pong_ends_where_its_last_leg_did() {
    assert_eq!(LoopMode::PingPongCount(0).map_time(ms(250), ms(1000)), ms(0));
    assert_eq!(LoopMode::PingPongCount(3).map_time(ms(1250), ms(1000)), ms(750));
    assert_eq!(LoopMode::PingPongCount(3).map_time(ms(2250), ms(1000)), ms(250));
    assert_eq!(LoopMode::PingPongCount(3).map_time(ms(5000), ms(1000)), ms(1000));
    assert_eq!(LoopMode::PingPongCount(2).map_time(ms(5000), ms(1000)), ms(0));
}

#[test]
fn local_time_is_exact_to_the_nanosecond() {
    let total = Duration::new(1, 1);
    let elapsed = Duration::new(3, 7);
    assert_eq!(LoopMode::LoopForever.map_time(elapsed, total), Duration::from_nanos(4));
    assert_eq!(LoopMode::LoopForever.map_nanos(3_000_000_007, 1_000_000_001), 4);
    assert_eq!(LoopMode::Once.map_time(Duration::MAX, Duration::MAX), Duration::MAX);
}

#[test]
fn a_hold_remembers_its_value_and_length() {
    let hold = HoldSegment::new(42.5f32, ms(300));
    assert_eq!(hold.value, 42.5);
    assert_eq!(hold.duration, ms(300));
    assert_ne!(ConstraintMode::Fit, ConstraintMode::Clamp);
}

#[test]
fn a_track_lasts_as_long_as_its_segments_together() {
    assert_eq!(checked_total_duration(&[]), Some(Duration::ZERO));
    assert_eq!(checked_total_duration(&[ms(300), ms(200), ms(0)]), Some(ms(500)));
    assert_eq!(checked_total_duration(&[Duration::MAX]), Some(Duration::MAX));
    assert_eq!(checked_total_duration(&[Duration::MAX, Duration::from_nanos(1)]), None);
}

#[test]
fn the_segment_at_a_time_is_the_one_playing_then() {
    let segments = [ms(300), ms(0), ms(200)];
    assert_eq!(segment_at(&segments, ms(0)), Some((0, ms(0))));
    assert_eq!(segment_at(&segments, ms(299)), Some((0, ms(299))));
    // The empty segment is never the one playing.
    assert_eq!(segment_at(&segments, ms(300)), Some((2, ms(0))));
    assert_eq!(segment_at(&segments, ms(450)), Some((2, ms(150))));
    assert_eq!(segment_at(&segments, ms(500)), None);
    assert_eq!(segment_at(&[], ms(0)), None);
}

#[test]
fn a_track_is_located_after_its_offset_and_loop() {
    let durations = [ms(100), ms(200)];
    // Before the offset the track sits at its start.
    assert_eq!(locate(&durations, LoopMode::Once, ms(50), ms(20)), Some((0, ms(0))));
    // 200 ms in, started 50 ms late: 150 ms into the first leg, so the second segment.
    assert_eq!(locate(&durations, LoopMode::Once, ms(50), ms(200)), Some((1, ms(50))));
    // Played once to the end, it holds the end: no segment is playing.
    assert_eq!(locate(&durations, LoopMode::Once, ms(0), ms(900)), None);
    // Looping, 350 ms in is 50 ms into the second lap.
    assert_eq!(locate(&durations, LoopMode::LoopForever, ms(0), ms(350)), Some((0, ms(50))));
    // Ping-pong, 400 ms in is on the way back, 200 ms from the start.
    assert_eq!(locate(&durations, LoopMode::PingPong, ms(0), ms(400)), Some((1, ms(100))));
}

#[test]
fn an_empty_track_is_never_located() {
    assert_eq!(locate(&[], LoopMode::LoopForever, ms(0), ms(10)), None);
}

#[test]
fn a_hold_plays_its_value_throughout() {
    let hold = HoldSegment::new(42.5f32, ms(300));
    assert_eq!(hold.duration(), ms(300));
    assert_eq!(hold.evaluate(ms(0)), 42.5);
    assert_eq!(hold.evaluate(ms(299)), 42.5);
    assert_eq!(hold.velocity(ms(150)), 42.5);
    assert_eq!(hold.end_value(), 42.5);
}
