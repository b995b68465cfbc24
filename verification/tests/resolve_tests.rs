use midi_timeline::resolve::resolve_playback_index;
use midi_timeline::resolve::resolve_playback_position;
use midi_timeline::timeline::build_time_axis;
use midi_timeline::types::TempoChangeEvent;
use midi_timeline::types::TimeAxis;
use midi_timeline::types::TimeSignatureChangeEvent;

fn entry_at(seconds_scaled: u64, tick: u32) -> TimeAxis {
    let mut e = TimeAxis::default();
    e.ticks_total = tick;
    e.seconds_scaled = seconds_scaled;
    e
}

#[test]
fn elapsed_before_the_first_entry_resolves_to_the_first() {
    let timeline = vec![entry_at(10, 0), entry_at(20, 1), entry_at(30, 2)];
    assert_eq!(resolve_playback_index(&timeline, 0), 0);
    assert_eq!(resolve_playback_index(&timeline, 9), 0);
    assert_eq!(resolve_playback_position(&timeline, 5).ticks_total, 0);
}

#[test]
fn elapsed_beyond_the_last_entry_resolves_to_the_last() {
    let timeline = vec![entry_at(10, 0), entry_at(20, 1), entry_at(30, 2)];
    assert_eq!(resolve_playback_index(&timeline, 30), 2);
    assert_eq!(resolve_playback_index(&timeline, 1_000_000), 2);
    assert_eq!(resolve_playback_position(&timeline, 31).ticks_total, 2);
}

#[test]
fn exact_match_resolves_to_that_entry() {
    let timeline = vec![entry_at(10, 0), entry_at(20, 1), entry_at(30, 2)];
    assert_eq!(resolve_playback_index(&timeline, 10), 0);
    assert_eq!(resolve_playback_index(&timeline, 20), 1);
    assert_eq!(resolve_playback_index(&timeline, 29), 1);
}

#[test]
fn resolver_walks_a_built_timeline() {
    // 120 BPM at division 480: one tick lasts 500_000 scaled units.
    let tempos: Vec<TempoChangeEvent> = Vec::new();
    let sigs: Vec<TimeSignatureChangeEvent> = Vec::new();
    let timeline = build_time_axis(&tempos, &sigs, 480, 960);
    // Exactly half a second in: tick 480.
    let half_second: u64 = 480 * 500_000;
    let e = resolve_playback_position(&timeline, half_second);
    assert_eq!(e.ticks_total, 480);
    // A hair earlier still resolves to the previous tick.
    let e = resolve_playback_position(&timeline, half_second - 1);
    assert_eq!(e.ticks_total, 479);
    // Far past the end clamps to the last entry.
    let e = resolve_playback_position(&timeline, u64::MAX);
    assert_eq!(e.ticks_total, 960);
}
