use midi_timeline::timeline::build_time_axis;
use midi_timeline::types::TempoChangeEvent;
use midi_timeline::types::TimeAxis;
use midi_timeline::types::TimeSignatureChangeEvent;

#[test]
fn default_tempo_and_signature_timeline() {
    // 120 BPM, 4/4, division 480, no changes recorded.
    let tempos: Vec<TempoChangeEvent> = Vec::new();
    let sigs: Vec<TimeSignatureChangeEvent> = Vec::new();
    let timeline = build_time_axis(&tempos, &sigs, 480, 1920);
    assert_eq!(timeline.len(), 1921);

    let e0 = &timeline[0];
    assert_eq!(e0.ticks_total, 0);
    assert_eq!(e0.seconds_scaled, 0);
    assert_eq!(e0.measure, 0);
    assert_eq!(e0.beat, 1);
    assert_eq!(e0.ticks_reset_by_beat, 0);
    assert_eq!(e0.ticks_reset_by_measure, 0);
    assert_eq!(e0.measure_length_ticks, 1920);
    assert_eq!(e0.beat_length_ticks, 480);
    assert_eq!(e0.tempo_us_per_quarter, 500_000);
    assert_eq!(e0.time_signature_numerator, 4);
    assert_eq!(e0.time_signature_denominator, 4);

    // One quarter note in: exactly half a second at 120 BPM.
    let e480 = &timeline[480];
    assert_eq!(e480.seconds_scaled, 480 * 500_000);
    let seconds = e480.seconds_scaled as f64 / (480.0 * 1_000_000.0);
    assert_eq!(seconds, 0.5);
    assert_eq!(e480.beat, 2);
    assert_eq!(e480.ticks_reset_by_beat, 0);
    assert_eq!(e480.ticks_reset_by_measure, 480);

    // The effective seconds-per-tick matches 60 / 120 / 480.
    let seconds_per_tick = e0.tempo_us_per_quarter as f64 / (480.0 * 1_000_000.0);
    assert_eq!(seconds_per_tick, 60.0 / 120.0 / 480.0);

    // Last tick of the first measure, then the rollover.
    let e1919 = &timeline[1919];
    assert_eq!(e1919.measure, 0);
    assert_eq!(e1919.beat, 4);
    assert_eq!(e1919.ticks_reset_by_beat, 479);
    assert_eq!(e1919.ticks_reset_by_measure, 1919);
    let e1920 = &timeline[1920];
    assert_eq!(e1920.measure, 1);
    assert_eq!(e1920.beat, 1);
    assert_eq!(e1920.ticks_reset_by_measure, 0);
}

#[test]
fn every_entry_keeps_the_timeline_invariants() {
    let tempos = vec![
        TempoChangeEvent { microseconds_per_quarter: 250_000, at_tick: 97 },
        TempoChangeEvent { microseconds_per_quarter: 750_000, at_tick: 800 },
    ];
    let sigs = vec![TimeSignatureChangeEvent {
        numerator: 3,
        denominator: 8,
        midi_clocks_per_metronome_click: 24,
        thirty_seconds_notes_per_quarter_note: 8,
        at_tick: 0,
    }];
    let timeline = build_time_axis(&tempos, &sigs, 96, 1200);
    let mut previous_seconds: u64 = 0;
    for (i, e) in timeline.iter().enumerate() {
        assert_eq!(e.ticks_total as usize, i);
        assert!(e.seconds_scaled >= previous_seconds);
        previous_seconds = e.seconds_scaled;
        assert!(e.ticks_reset_by_beat < e.beat_length_ticks);
        assert!(e.ticks_reset_by_measure < e.measure_length_ticks);
        assert!(e.beat >= 1);
        assert!(e.beat <= e.time_signature_numerator as u32);
    }
}

#[test]
fn tempo_change_lands_exactly_at_its_tick() {
    // 120 BPM by default, 60 BPM from tick 960 on.
    let tempos = vec![TempoChangeEvent { microseconds_per_quarter: 1_000_000, at_tick: 960 }];
    let sigs: Vec<TimeSignatureChangeEvent> = Vec::new();
    let timeline = build_time_axis(&tempos, &sigs, 480, 1000);
    assert_eq!(timeline[959].tempo_us_per_quarter, 500_000);
    assert_eq!(timeline[960].tempo_us_per_quarter, 1_000_000);
    assert_eq!(timeline[961].tempo_us_per_quarter, 1_000_000);
    // Elapsed time: 960 default ticks, then the slower tempo takes over.
    assert_eq!(timeline[960].seconds_scaled, 960 * 500_000);
    assert_eq!(timeline[961].seconds_scaled, 960 * 500_000 + 1_000_000);
}

#[test]
fn time_signature_change_lands_exactly_at_its_tick() {
    // 4/4 by default; 3/4 from tick 1920 (a measure boundary) on.
    let tempos: Vec<TempoChangeEvent> = Vec::new();
    let sigs = vec![TimeSignatureChangeEvent {
        numerator: 3,
        denominator: 4,
        midi_clocks_per_metronome_click: 24,
        thirty_seconds_notes_per_quarter_note: 8,
        at_tick: 1920,
    }];
    let timeline = build_time_axis(&tempos, &sigs, 480, 3840);
    assert_eq!(timeline[1919].measure_length_ticks, 1920);
    assert_eq!(timeline[1919].time_signature_numerator, 4);
    assert_eq!(timeline[1920].measure_length_ticks, 1440);
    assert_eq!(timeline[1920].time_signature_numerator, 3);
    assert_eq!(timeline[1920].measure, 1);
    // The shorter measure rolls over after 1440 ticks.
    assert_eq!(timeline[3359].measure, 1);
    assert_eq!(timeline[3360].measure, 2);
    assert_eq!(timeline[3360].ticks_reset_by_measure, 0);
}

#[test]
fn latest_recorded_change_wins_at_equal_ticks() {
    let tempos = vec![
        TempoChangeEvent { microseconds_per_quarter: 400_000, at_tick: 100 },
        TempoChangeEvent { microseconds_per_quarter: 300_000, at_tick: 100 },
    ];
    let sigs: Vec<TimeSignatureChangeEvent> = Vec::new();
    let timeline = build_time_axis(&tempos, &sigs, 480, 200);
    assert_eq!(timeline[100].tempo_us_per_quarter, 300_000);
    assert_eq!(timeline[99].tempo_us_per_quarter, 500_000);
}

#[test]
fn default_time_axis_value() {
    let d = TimeAxis::default();
    assert_eq!(d.ticks_total, 0);
    assert_eq!(d.seconds_scaled, 0);
    assert_eq!(d.measure, 0);
    assert_eq!(d.beat, 1);
    assert_eq!(d.tempo_us_per_quarter, 500_000);
    assert_eq!(d.time_signature_numerator, 4);
    assert_eq!(d.time_signature_denominator, 4);
    assert_eq!(d.time_signature_midi_clocks_per_metronome_click, 24);
    assert_eq!(d.time_signature_thirty_seconds_notes_per_quarter_note, 8);
}
