//! Core data types of the loader: track events, control-change records,
//! timeline entries, and the error type.

use vstd::prelude::*;

verus! {

/// Microseconds per quarter note at the default tempo of 120 beats per
/// minute, used before the first tempo change of a file.
pub const DEFAULT_TEMPO_US_PER_QUARTER: u32 = 500_000;

/// Track layout of a MIDI file, mirroring the three standard file formats.
#[derive(Clone, Copy, Debug, PartialEq, Eq, Structural)]
pub enum MidiFormat {
    /// A single track holds the whole piece.
    SingleTrack,
    /// Several tracks play simultaneously.
    Parallel,
    /// Several tracks play one after another.
    Sequential,
}

/// Why a byte buffer could not be loaded.
#[derive(Clone, Copy, Debug, PartialEq, Eq, Structural)]
pub enum MidiLoadError {
    /// The byte stream is not a valid MIDI container, or its tick
    /// positions do not fit the timeline's tick range.
    MalformedFile,
    /// The file counts time in SMPTE frames, or declares a zero
    /// ticks-per-quarter-note division; neither can drive the timeline.
    UnsupportedTiming,
}

/// The kinds of track events the loader acts on.  Everything else a MIDI
/// file may carry is mapped to `Other` and ignored.
#[derive(Clone, Copy, Debug, PartialEq, Eq, Structural)]
pub enum MidiEventKind {
    /// A key was pressed.  By MIDI convention a `NoteOn` with velocity 0
    /// acts as a `NoteOff`.
    NoteOn { channel: u8, key: u8, velocity: u8 },
    /// A key was released.
    NoteOff { channel: u8, key: u8 },
    /// The tempo changes to `microseconds_per_quarter` per quarter note.
    TempoChange { microseconds_per_quarter: u32 },
    /// The time signature changes.  The denominator is stored as a
    /// power-of-two exponent, as the file records it.
    TimeSignatureChange {
        numerator: u8,
        denominator_exponent: u8,
        midi_clocks_per_metronome_click: u8,
        thirty_seconds_notes_per_quarter_note: u8,
    },
    /// The end-of-track marker.
    EndOfTrack,
    /// Any event the loader does not act on.
    Other,
}

/// One event of a track: a delta time in ticks since the previous event,
/// and the event itself.
#[derive(Clone, Copy, Debug, PartialEq, Eq, Structural)]
pub struct TrackEvent {
    pub delta: u32,
    pub kind: MidiEventKind,
}

/// A tempo change recorded while scanning the tracks, pinned to the
/// absolute tick at which it takes effect.
#[derive(Clone, Copy, Debug, PartialEq, Eq, Structural)]
pub struct TempoChangeEvent {
    /// Microseconds per quarter note from `at_tick` onward.
    pub microseconds_per_quarter: u32,
    /// Absolute tick at which the change takes effect.
    pub at_tick: u32,
}

/// A time-signature change recorded while scanning the tracks, pinned to
/// the absolute tick at which it takes effect.
#[derive(Clone, Copy, Debug, PartialEq, Eq, Structural)]
pub struct TimeSignatureChangeEvent {
    /// Beats per measure.
    pub numerator: u8,
    /// The beat unit (4 = quarter note, 8 = eighth note, ...), already
    /// decoded from the stored power-of-two exponent.
    pub denominator: u8,
    pub midi_clocks_per_metronome_click: u8,
    pub thirty_seconds_notes_per_quarter_note: u8,
    /// Absolute tick at which the change takes effect.
    pub at_tick: u32,
}

/// One entry of the timeline: the musical position and elapsed time at
/// one absolute tick.  The timeline holds one entry per tick, in order.
///
/// `seconds_scaled` is the elapsed time at this tick, held exactly: the
/// elapsed seconds multiplied by `division * 1_000_000`, where `division`
/// is the file's ticks per quarter note.  Each tick advances it by the
/// microseconds-per-quarter value of the tempo in effect.
#[derive(Clone, Copy, Debug, PartialEq, Eq, Structural)]
pub struct TimeAxis {
    /// Absolute tick; equals this entry's index in the timeline.
    pub ticks_total: u32,
    /// Elapsed seconds multiplied by `division * 1_000_000`.
    pub seconds_scaled: u64,
    /// 0-based measure number.
    pub measure: u32,
    /// Ticks since the start of the current measure.
    pub ticks_reset_by_measure: u32,
    /// 1-based beat number within the measure.
    pub beat: u32,
    /// Ticks since the start of the current beat.
    pub ticks_reset_by_beat: u32,
    /// Length of the current measure in ticks.
    pub measure_length_ticks: u32,
    /// Length of the current beat in ticks.
    pub beat_length_ticks: u32,
    /// Tempo in effect, as microseconds per quarter note.
    pub tempo_us_per_quarter: u32,
    pub time_signature_numerator: u8,
    pub time_signature_denominator: u8,
    pub time_signature_midi_clocks_per_metronome_click: u8,
    pub time_signature_thirty_seconds_notes_per_quarter_note: u8,
}

impl Default for TimeAxis {
    /// The position before anything has played: tick 0 at 120 beats per
    /// minute in 4/4 time, with no measure or beat length resolved yet.
    fn default() -> (r: TimeAxis)
        ensures
            r == TimeAxis::default_spec(),
    {
        TimeAxis {
            ticks_total: 0,
            seconds_scaled: 0,
            measure: 0,
            ticks_reset_by_measure: 0,
            beat: 1,
            ticks_reset_by_beat: 0,
            measure_length_ticks: 0,
            beat_length_ticks: 0,
            tempo_us_per_quarter: DEFAULT_TEMPO_US_PER_QUARTER,
            time_signature_numerator: 4,
            time_signature_denominator: 4,
            time_signature_midi_clocks_per_metronome_click: 24,
            time_signature_thirty_seconds_notes_per_quarter_note: 8,
        }
    }
}

impl TimeAxis {
    /// The value `Default::default` returns.
    pub open spec fn default_spec() -> TimeAxis {
        TimeAxis {
            ticks_total: 0,
            seconds_scaled: 0,
            measure: 0,
            ticks_reset_by_measure: 0,
            beat: 1,
            ticks_reset_by_beat: 0,
            measure_length_ticks: 0,
            beat_length_ticks: 0,
            tempo_us_per_quarter: DEFAULT_TEMPO_US_PER_QUARTER,
            time_signature_numerator: 4,
            time_signature_denominator: 4,
            time_signature_midi_clocks_per_metronome_click: 24,
            time_signature_thirty_seconds_notes_per_quarter_note: 8,
        }
    }
}

/// A time-signature change the timeline can use with the given division:
/// at least one beat per measure, and a beat no shorter than one tick
/// (`division * 4 / denominator >= 1`, i.e. `denominator <= 4 * division`).
pub open spec fn valid_time_signature_event(e: TimeSignatureChangeEvent, division: u16) -> bool {
    &&& e.numerator >= 1
    &&& e.denominator >= 1
    &&& e.denominator <= 4 * division
}

/// Every recorded time-signature change is usable with the given division.
pub open spec fn valid_time_signature_events(
    sigs: Seq<TimeSignatureChangeEvent>,
    division: u16,
) -> bool {
    forall|j: int| 0 <= j < sigs.len() ==> valid_time_signature_event(#[trigger] sigs[j], division)
}

} // verus!
