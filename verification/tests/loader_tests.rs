use midi_timeline::loader::load_midi;
use midi_timeline::types::MidiFormat;
use midi_timeline::types::MidiLoadError;

fn header_chunk(format: u16, ntracks: u16, division: [u8; 2]) -> Vec<u8> {
    let mut bytes: Vec<u8> = Vec::new();
    bytes.extend_from_slice(b"MThd");
    bytes.extend_from_slice(&6u32.to_be_bytes());
    bytes.extend_from_slice(&format.to_be_bytes());
    bytes.extend_from_slice(&ntracks.to_be_bytes());
    bytes.extend_from_slice(&division);
    bytes
}

fn track_chunk(data: &[u8]) -> Vec<u8> {
    let mut bytes: Vec<u8> = Vec::new();
    bytes.extend_from_slice(b"MTrk");
    bytes.extend_from_slice(&(data.len() as u32).to_be_bytes());
    bytes.extend_from_slice(data);
    bytes
}

/// A two-track file at division 480: a control track with the default
/// tempo written out, 4/4, and end-of-track at tick 2400; a note track
/// with one note on channel 0, key 60, from tick 1900 to tick 2100.
fn sample_file() -> Vec<u8> {
    let mut bytes = header_chunk(1, 2, [0x01, 0xE0]);
    let control: Vec<u8> = vec![
        0x00, 0xFF, 0x51, 0x03, 0x07, 0xA1, 0x20, // tempo: 500000 us per quarter
        0x00, 0xFF, 0x58, 0x04, 0x04, 0x02, 0x18, 0x08, // time signature: 4/4
        0x92, 0x60, 0xFF, 0x2F, 0x00, // end of track at tick 2400
    ];
    let notes: Vec<u8> = vec![
        0x8E, 0x6C, 0x90, 0x3C, 0x64, // note on, tick 1900, key 60, velocity 100
        0x81, 0x48, 0x80, 0x3C, 0x40, // note off, tick 2100
        0x00, 0xFF, 0x2F, 0x00, // end of track at tick 2100
    ];
    bytes.extend_from_slice(&track_chunk(&control));
    bytes.extend_from_slice(&track_chunk(&notes));
    bytes
}

#[test]
fn loads_a_file_end_to_end() {
    let bytes = sample_file();
    let out = load_midi(&bytes).unwrap();
    assert_eq!(out.format, MidiFormat::Parallel);
    assert_eq!(out.ppm, 480);
    assert_eq!(out.time_axis_vec.len(), 2401);

    // The timeline carries the written tempo and signature.
    let e = &out.time_axis_vec[480];
    assert_eq!(e.ticks_total, 480);
    assert_eq!(e.tempo_us_per_quarter, 500_000);
    assert_eq!(e.time_signature_numerator, 4);
    assert_eq!(e.time_signature_denominator, 4);
    assert_eq!(e.seconds_scaled, 480 * 500_000);
    assert_eq!(e.seconds_scaled as f64 / (480.0 * 1_000_000.0), 0.5);

    // The note crossed the measure boundary at tick 1920 and was split.
    assert_eq!(out.midi_notes_vec.len(), 16);
    assert_eq!(out.midi_notes_vec[0].len(), 2);
    let f1 = &out.midi_notes_vec[0][0];
    let f2 = &out.midi_notes_vec[0][1];
    assert_eq!(f1.note_on_time_axis.ticks_total, 1900);
    assert_eq!(f1.note_off_time_axis.unwrap().ticks_total, 1919);
    assert_eq!(f1.note_length_ticks, Some(20));
    assert_eq!(f2.note_on_time_axis.ticks_total, 1920);
    assert_eq!(f2.note_off_time_axis.unwrap().ticks_total, 2100);
    assert_eq!(f2.note_length_ticks, Some(180));
    assert_eq!(f1.key_and_octave_yamaha, "C3");
    assert_eq!(f1.velocity, 100);
    for c in 1..16 {
        assert_eq!(out.midi_notes_vec[c].len(), 0);
    }
}

#[test]
fn rejects_garbage_bytes_as_malformed() {
    let bytes: Vec<u8> = vec![0x00, 0x01, 0x02, 0x03, 0x04];
    assert_eq!(load_midi(&bytes).unwrap_err(), MidiLoadError::MalformedFile);
    let empty: Vec<u8> = Vec::new();
    assert_eq!(load_midi(&empty).unwrap_err(), MidiLoadError::MalformedFile);
}

#[test]
fn rejects_smpte_timing_as_unsupported() {
    // Division with the top bit set: SMPTE, 24 frames per second (0xE8 is
    // -24), 40 subframes.
    let mut bytes = header_chunk(0, 1, [0xE8, 0x28]);
    bytes.extend_from_slice(&track_chunk(&[0x00, 0xFF, 0x2F, 0x00]));
    assert_eq!(load_midi(&bytes).unwrap_err(), MidiLoadError::UnsupportedTiming);
}

#[test]
fn rejects_zero_division_as_unsupported() {
    let mut bytes = header_chunk(0, 1, [0x00, 0x00]);
    bytes.extend_from_slice(&track_chunk(&[0x00, 0xFF, 0x2F, 0x00]));
    assert_eq!(load_midi(&bytes).unwrap_err(), MidiLoadError::UnsupportedTiming);
}

#[test]
fn a_file_with_no_events_still_has_a_timeline() {
    // One track holding only its end-of-track marker at tick 0.
    let mut bytes = header_chunk(0, 1, [0x01, 0xE0]);
    bytes.extend_from_slice(&track_chunk(&[0x00, 0xFF, 0x2F, 0x00]));
    let out = load_midi(&bytes).unwrap();
    assert_eq!(out.format, MidiFormat::SingleTrack);
    assert_eq!(out.time_axis_vec.len(), 1);
    assert_eq!(out.time_axis_vec[0].ticks_total, 0);
    assert_eq!(out.time_axis_vec[0].tempo_us_per_quarter, 500_000);
    for c in 0..16 {
        assert_eq!(out.midi_notes_vec[c].len(), 0);
    }
}
