use midi_timeline::notes::extract_midi_notes;
use midi_timeline::timeline::build_time_axis;
use midi_timeline::types::MidiEventKind;
use midi_timeline::types::TempoChangeEvent;
use midi_timeline::types::TimeSignatureChangeEvent;
use midi_timeline::types::TrackEvent;

fn default_timeline(last_tick: u32) -> Vec<midi_timeline::types::TimeAxis> {
    let tempos: Vec<TempoChangeEvent> = Vec::new();
    let sigs: Vec<TimeSignatureChangeEvent> = Vec::new();
    build_time_axis(&tempos, &sigs, 480, last_tick)
}

#[test]
fn note_on_and_off_pair_into_one_note() {
    let timeline = default_timeline(200);
    let tracks = vec![vec![
        TrackEvent { delta: 10, kind: MidiEventKind::NoteOn { channel: 0, key: 60, velocity: 100 } },
        TrackEvent { delta: 90, kind: MidiEventKind::NoteOff { channel: 0, key: 60 } },
        TrackEvent { delta: 0, kind: MidiEventKind::EndOfTrack },
    ]];
    let notes = extract_midi_notes(&tracks, &timeline);
    assert_eq!(notes.len(), 16);
    assert_eq!(notes[0].len(), 1);
    for c in 1..16 {
        assert_eq!(notes[c].len(), 0);
    }
    let n = &notes[0][0];
    assert_eq!(n.note_on_time_axis.ticks_total, 10);
    assert_eq!(n.note_off_time_axis.unwrap().ticks_total, 100);
    assert_eq!(n.note_length_ticks, Some(90));
    assert_eq!(n.key, 60);
    assert_eq!(n.key_cdefgab, "C");
    assert_eq!(n.key_octave_yamaha, 3);
    assert_eq!(n.key_octave_general_midi, 4);
    assert_eq!(n.key_and_octave_yamaha, "C3");
    assert_eq!(n.velocity, 100);
    assert_eq!(n.channel, 0);
}

#[test]
fn pitch_names_cover_the_range() {
    let timeline = default_timeline(10);
    let tracks = vec![vec![
        TrackEvent { delta: 0, kind: MidiEventKind::NoteOn { channel: 2, key: 0, velocity: 10 } },
        TrackEvent { delta: 0, kind: MidiEventKind::NoteOn { channel: 2, key: 61, velocity: 20 } },
        TrackEvent { delta: 0, kind: MidiEventKind::NoteOn { channel: 2, key: 127, velocity: 30 } },
    ]];
    let notes = extract_midi_notes(&tracks, &timeline);
    assert_eq!(notes[2].len(), 3);
    assert_eq!(notes[2][0].key_and_octave_yamaha, "C-2");
    assert_eq!(notes[2][0].key_octave_general_midi, -1);
    assert_eq!(notes[2][1].key_cdefgab, "C#");
    assert_eq!(notes[2][1].key_and_octave_yamaha, "C#3");
    assert_eq!(notes[2][2].key_cdefgab, "G");
    assert_eq!(notes[2][2].key_and_octave_yamaha, "G8");
}

#[test]
fn unmatched_note_off_is_ignored() {
    let timeline = default_timeline(100);
    // A note-off with no note open at all, and one with a different key open.
    let tracks = vec![vec![
        TrackEvent { delta: 5, kind: MidiEventKind::NoteOff { channel: 3, key: 40 } },
        TrackEvent { delta: 5, kind: MidiEventKind::NoteOn { channel: 3, key: 41, velocity: 90 } },
        TrackEvent { delta: 5, kind: MidiEventKind::NoteOff { channel: 3, key: 40 } },
    ]];
    let notes = extract_midi_notes(&tracks, &timeline);
    assert_eq!(notes[3].len(), 1);
    let n = &notes[3][0];
    assert_eq!(n.key, 41);
    // The open note is untouched by the unmatched note-offs.
    assert!(n.note_off_time_axis.is_none());
    assert!(n.note_length_ticks.is_none());
}

#[test]
fn velocity_zero_note_on_closes_the_open_note() {
    let timeline = default_timeline(100);
    let tracks = vec![vec![
        TrackEvent { delta: 0, kind: MidiEventKind::NoteOn { channel: 1, key: 64, velocity: 80 } },
        TrackEvent { delta: 30, kind: MidiEventKind::NoteOn { channel: 1, key: 64, velocity: 0 } },
    ]];
    let notes = extract_midi_notes(&tracks, &timeline);
    // The zero-velocity note-on opened nothing: one note, now closed.
    assert_eq!(notes[1].len(), 1);
    let n = &notes[1][0];
    assert_eq!(n.note_on_time_axis.ticks_total, 0);
    assert_eq!(n.note_off_time_axis.unwrap().ticks_total, 30);
    assert_eq!(n.note_length_ticks, Some(30));
}

#[test]
fn overlapping_same_key_notes_pair_newest_first() {
    let timeline = default_timeline(100);
    let tracks = vec![vec![
        TrackEvent { delta: 0, kind: MidiEventKind::NoteOn { channel: 0, key: 50, velocity: 70 } },
        TrackEvent { delta: 10, kind: MidiEventKind::NoteOn { channel: 0, key: 50, velocity: 71 } },
        TrackEvent { delta: 10, kind: MidiEventKind::NoteOff { channel: 0, key: 50 } },
        TrackEvent { delta: 10, kind: MidiEventKind::NoteOff { channel: 0, key: 50 } },
    ]];
    let notes = extract_midi_notes(&tracks, &timeline);
    assert_eq!(notes[0].len(), 2);
    // The first off (tick 20) closed the newest note (opened at tick 10).
    assert_eq!(notes[0][1].note_on_time_axis.ticks_total, 10);
    assert_eq!(notes[0][1].note_off_time_axis.unwrap().ticks_total, 20);
    assert_eq!(notes[0][1].note_length_ticks, Some(10));
    // The second off (tick 30) closed the outer note (opened at tick 0).
    assert_eq!(notes[0][0].note_on_time_axis.ticks_total, 0);
    assert_eq!(notes[0][0].note_off_time_axis.unwrap().ticks_total, 30);
    assert_eq!(notes[0][0].note_length_ticks, Some(30));
}

#[test]
fn events_beyond_the_timeline_are_ignored() {
    let timeline = default_timeline(50);
    let tracks = vec![vec![
        TrackEvent { delta: 60, kind: MidiEventKind::NoteOn { channel: 0, key: 60, velocity: 99 } },
    ]];
    let notes = extract_midi_notes(&tracks, &timeline);
    assert_eq!(notes[0].len(), 0);
}

#[test]
fn channels_are_kept_apart() {
    let timeline = default_timeline(100);
    let tracks = vec![vec![
        TrackEvent { delta: 0, kind: MidiEventKind::NoteOn { channel: 4, key: 60, velocity: 10 } },
        TrackEvent { delta: 0, kind: MidiEventKind::NoteOn { channel: 5, key: 60, velocity: 11 } },
        // This off is on channel 5 only; channel 4's note stays open.
        TrackEvent { delta: 10, kind: MidiEventKind::NoteOff { channel: 5, key: 60 } },
    ]];
    let notes = extract_midi_notes(&tracks, &timeline);
    assert_eq!(notes[4].len(), 1);
    assert!(notes[4][0].note_off_time_axis.is_none());
    assert_eq!(notes[5].len(), 1);
    assert_eq!(notes[5][0].note_length_ticks, Some(10));
}
