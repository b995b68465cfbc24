use midi_timeline::notes::extract_midi_notes;
use midi_timeline::split::split_midi_notes;
use midi_timeline::timeline::build_time_axis;
use midi_timeline::types::MidiEventKind;
use midi_timeline::types::TempoChangeEvent;
use midi_timeline::types::TimeAxis;
use midi_timeline::types::TimeSignatureChangeEvent;
use midi_timeline::types::TrackEvent;

fn default_timeline(last_tick: u32) -> Vec<TimeAxis> {
    let tempos: Vec<TempoChangeEvent> = Vec::new();
    let sigs: Vec<TimeSignatureChangeEvent> = Vec::new();
    build_time_axis(&tempos, &sigs, 480, last_tick)
}

fn one_note(on_tick: u32, off_tick: u32, last_tick: u32) -> (Vec<Vec<midi_timeline::notes::MidiNote>>, Vec<TimeAxis>) {
    let timeline = default_timeline(last_tick);
    let tracks = vec![vec![
        TrackEvent {
            delta: on_tick,
            kind: MidiEventKind::NoteOn { channel: 0, key: 60, velocity: 100 },
        },
        TrackEvent {
            delta: off_tick - on_tick,
            kind: MidiEventKind::NoteOff { channel: 0, key: 60 },
        },
    ]];
    let notes = extract_midi_notes(&tracks, &timeline);
    (notes, timeline)
}

#[test]
fn note_crossing_one_measure_boundary_splits_in_two() {
    // 4/4 at division 480: measure length 1920.  A note from tick 1900 to
    // tick 2100 crosses the boundary at tick 1920.
    let (notes, timeline) = one_note(1900, 2100, 2400);
    let split = split_midi_notes(notes, &timeline);
    assert_eq!(split[0].len(), 2);
    let f1 = &split[0][0];
    let f2 = &split[0][1];
    assert_eq!(f1.note_on_time_axis.ticks_total, 1900);
    assert_eq!(f1.note_off_time_axis.unwrap().ticks_total, 1919);
    assert_eq!(f1.note_length_ticks, Some(20));
    assert_eq!(f1.note_on_time_axis.measure, f1.note_off_time_axis.unwrap().measure);
    assert_eq!(f2.note_on_time_axis.ticks_total, 1920);
    assert_eq!(f2.note_off_time_axis.unwrap().ticks_total, 2100);
    assert_eq!(f2.note_length_ticks, Some(180));
    assert_eq!(f2.note_on_time_axis.measure, f2.note_off_time_axis.unwrap().measure);
    // The fragments' lengths sum to the original note's length.
    assert_eq!(
        f1.note_length_ticks.unwrap() + f2.note_length_ticks.unwrap(),
        2100 - 1900
    );
    // The metadata is carried into every fragment.
    assert_eq!(f1.key, 60);
    assert_eq!(f2.key, 60);
    assert_eq!(f1.key_and_octave_yamaha, "C3");
    assert_eq!(f2.key_and_octave_yamaha, "C3");
    assert_eq!(f2.velocity, 100);
}

#[test]
fn note_within_one_measure_stays_whole() {
    let (notes, timeline) = one_note(100, 500, 2400);
    let split = split_midi_notes(notes, &timeline);
    assert_eq!(split[0].len(), 1);
    let n = &split[0][0];
    assert_eq!(n.note_on_time_axis.ticks_total, 100);
    assert_eq!(n.note_off_time_axis.unwrap().ticks_total, 500);
    assert_eq!(n.note_length_ticks, Some(400));
}

#[test]
fn note_ending_on_the_next_measures_first_tick_stays_whole() {
    // Off lands exactly on tick 1920: measure 1, beat 1, zero residual.
    let (notes, timeline) = one_note(1900, 1920, 2400);
    let split = split_midi_notes(notes, &timeline);
    assert_eq!(split[0].len(), 1);
    let n = &split[0][0];
    assert_eq!(n.note_on_time_axis.ticks_total, 1900);
    assert_eq!(n.note_off_time_axis.unwrap().ticks_total, 1920);
    assert_eq!(n.note_length_ticks, Some(20));
    assert_eq!(n.note_on_time_axis.measure, 0);
    assert_eq!(n.note_off_time_axis.unwrap().measure, 1);
}

#[test]
fn note_spanning_three_measures_splits_in_three() {
    let (notes, timeline) = one_note(0, 4000, 4800);
    let split = split_midi_notes(notes, &timeline);
    assert_eq!(split[0].len(), 3);
    let durations: Vec<u32> = split[0].iter().map(|n| n.note_length_ticks.unwrap()).collect();
    assert_eq!(durations, vec![1920, 1920, 160]);
    assert_eq!(durations.iter().sum::<u32>(), 4000);
    assert_eq!(split[0][0].note_off_time_axis.unwrap().ticks_total, 1919);
    assert_eq!(split[0][1].note_on_time_axis.ticks_total, 1920);
    assert_eq!(split[0][1].note_off_time_axis.unwrap().ticks_total, 3839);
    assert_eq!(split[0][2].note_on_time_axis.ticks_total, 3840);
    assert_eq!(split[0][2].note_off_time_axis.unwrap().ticks_total, 4000);
    for f in split[0].iter() {
        assert_eq!(f.note_on_time_axis.measure, f.note_off_time_axis.unwrap().measure);
    }
}

#[test]
fn open_notes_are_dropped_by_the_splitter() {
    let timeline = default_timeline(100);
    let tracks = vec![vec![TrackEvent {
        delta: 10,
        kind: MidiEventKind::NoteOn { channel: 7, key: 70, velocity: 50 },
    }]];
    let notes = extract_midi_notes(&tracks, &timeline);
    assert_eq!(notes[7].len(), 1);
    let split = split_midi_notes(notes, &timeline);
    assert_eq!(split.len(), 16);
    assert_eq!(split[7].len(), 0);
}
