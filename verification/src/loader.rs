//! The loader: bytes in, timeline and per-channel notes out, by way of
//! the container parser, the control-event collector, the timeline
//! builder, the note extractor and the measure-boundary splitter.

use vstd::prelude::*;

use crate::control::ControlEvents;
use crate::control::all_sig_events;
use crate::control::all_tempo_events;
use crate::control::collect_control_events;
use crate::control::lemma_collected_last_tick_in_range;
use crate::control::spec_last_tick;
use crate::control::tracks_view;
use crate::notes::MidiNote;
use crate::notes::channel_view;
use crate::notes::lemma_extracted_notes_wf;
use crate::notes::notes_view;
use crate::notes::extract_midi_notes;
use crate::notes::spec_extract_notes;
use crate::control::tracks_ticks_in_range;
use crate::smf::ParsedMidi;
use crate::smf::metrical_division_usable;
use crate::smf::parse_midi_bytes;
use crate::smf::smf_events_of;
use crate::smf::smf_header_of;
use crate::smf::smf_parse_ok;
use crate::split::ends_on_measure_boundary;
use crate::split::fragment_confined;
use crate::split::lemma_split_channel_confined;
use crate::split::spec_split_channel;
use crate::split::split_midi_notes;
use crate::timeline::build_time_axis;
use crate::timeline::lemma_built_timeline_wf;
use crate::timeline::spec_timeline;
use crate::timeline::timeline_wf;
use crate::types::MidiFormat;
use crate::types::MidiLoadError;
use crate::types::TimeAxis;

verus! {

/// Everything loading produces: the file's layout and division, the
/// tick-indexed timeline, and the split per-channel note lists.
#[derive(Debug)]
pub struct LoadMidiReturn {
    /// The file's track layout.
    pub format: MidiFormat,
    /// Ticks per quarter note, as the file's header declares it.
    pub ppm: u16,
    /// One entry per tick, from tick 0 to the last end-of-track tick.
    pub time_axis_vec: Vec<TimeAxis>,
    /// One list of notes per MIDI channel, measure-split.
    pub midi_notes_vec: Vec<Vec<MidiNote>>,
}

/// Run the pipeline over an already-decoded file: collect the control
/// events, build the timeline, extract the notes against it, and split
/// them at measure boundaries.  Every stage's result is pinned exactly.
pub fn build_from_tracks(parsed: &ParsedMidi) -> (r: LoadMidiReturn)
    requires
        parsed.wf(),
    ensures
        ({
            let tv = tracks_view(parsed.tracks@);
            let tempos = all_tempo_events(tv);
            let sigs = all_sig_events(tv, parsed.division);
            let tl = spec_timeline(tempos, sigs, parsed.division, spec_last_tick(tv) as u32);
            &&& r.format == parsed.format
            &&& r.ppm == parsed.division
            &&& r.time_axis_vec@ == tl
            &&& timeline_wf(tl)
            &&& r.midi_notes_vec@.len() == 16
            &&& forall|c: int|
                0 <= c < 16 ==> channel_view(#[trigger] r.midi_notes_vec@[c]@)
                    == spec_split_channel(spec_extract_notes(tv, tl)[c], tl)
        }),
{
    let ghost tv = tracks_view(parsed.tracks@);
    proof {
        lemma_collected_last_tick_in_range(tv, tv.len() as int);
    }
    let events: ControlEvents = collect_control_events(&parsed.tracks, parsed.division);
    let time_axis_vec = build_time_axis(
        &events.tempo_changes,
        &events.time_signature_changes,
        parsed.division,
        events.last_tick,
    );
    proof {
        assert(time_axis_vec@ =~= spec_timeline(
            all_tempo_events(tv),
            all_sig_events(tv, parsed.division),
            parsed.division,
            spec_last_tick(tv) as u32,
        ));
        lemma_built_timeline_wf(
            events.tempo_changes@,
            events.time_signature_changes@,
            parsed.division,
            time_axis_vec@,
        );
        lemma_extracted_notes_wf(tv, time_axis_vec@, tv.len() as int);
    }
    let notes = extract_midi_notes(&parsed.tracks, &time_axis_vec);
    let midi_notes_vec = split_midi_notes(notes, &time_axis_vec);
    LoadMidiReturn { format: parsed.format, ppm: parsed.division, time_axis_vec, midi_notes_vec }
}

/// Load a MIDI byte buffer: parse the container, then run the pipeline.
///
/// Loading succeeds on exactly the buffers the container parser accepts
/// whose division is metrical and non-zero and whose tick positions fit
/// the timeline's range.  A rejected buffer, or one whose ticks overflow
/// that range, yields `MalformedFile` and nothing else; SMPTE timing or
/// a zero division yields `UnsupportedTiming` and nothing else.  On
/// success every stage's output is pinned to what the bytes parse to:
/// the timeline is the built one over the collected control events, the
/// note lists are the extracted, measure-split ones, the timeline indexes
/// itself by tick with elapsed time never decreasing, and every note of
/// the 16 channel lists either stays within one measure or ends exactly
/// on the first tick of the measure after its own.
pub fn load_midi(bytes: &[u8]) -> (r: Result<LoadMidiReturn, MidiLoadError>)
    ensures
        r is Ok <==> smf_parse_ok(bytes@) && metrical_division_usable(bytes@)
            && tracks_ticks_in_range(smf_events_of(bytes@)),
        r == Err::<LoadMidiReturn, MidiLoadError>(MidiLoadError::UnsupportedTiming) <==> (
        smf_parse_ok(bytes@) && !metrical_division_usable(bytes@)),
        r == Err::<LoadMidiReturn, MidiLoadError>(MidiLoadError::MalformedFile) <==> (
        !smf_parse_ok(bytes@) || (smf_parse_ok(bytes@) && metrical_division_usable(bytes@)
            && !tracks_ticks_in_range(smf_events_of(bytes@)))),
        r matches Ok(out) ==> ({
            let tv = smf_events_of(bytes@);
            let division = smf_header_of(bytes@).1.unwrap();
            let tempos = all_tempo_events(tv);
            let sigs = all_sig_events(tv, division);
            let tl = spec_timeline(tempos, sigs, division, spec_last_tick(tv) as u32);
            &&& out.format == smf_header_of(bytes@).0
            &&& out.ppm == division
            &&& out.ppm >= 1
            &&& out.time_axis_vec@ == tl
            &&& out.time_axis_vec@.len() >= 1
            &&& timeline_wf(out.time_axis_vec@)
            &&& out.midi_notes_vec@.len() == 16
            &&& forall|c: int|
                0 <= c < 16 ==> channel_view(#[trigger] out.midi_notes_vec@[c]@)
                    == spec_split_channel(spec_extract_notes(tv, tl)[c], tl)
            &&& forall|c: int, k: int|
                0 <= c < 16 && 0 <= k < channel_view(#[trigger] out.midi_notes_vec@[c]@).len()
                    ==> fragment_confined(#[trigger] channel_view(out.midi_notes_vec@[c]@)[k])
                    || ends_on_measure_boundary(channel_view(out.midi_notes_vec@[c]@)[k])
        }),
{
    let parsed = match parse_midi_bytes(bytes) {
        Ok(p) => p,
        Err(e) => {
            return Err(e);
        },
    };
    let out = build_from_tracks(&parsed);
    proof {
        let tv = tracks_view(parsed.tracks@);
        let tl = out.time_axis_vec@;
        lemma_extracted_notes_wf(tv, tl, tv.len() as int);
        assert forall|c: int, k: int|
            0 <= c < 16 && 0 <= k < channel_view(#[trigger] out.midi_notes_vec@[c]@).len()
                implies fragment_confined(#[trigger] channel_view(out.midi_notes_vec@[c]@)[k])
                || ends_on_measure_boundary(channel_view(out.midi_notes_vec@[c]@)[k]) by {
            lemma_split_channel_confined(spec_extract_notes(tv, tl)[c], tl);
        }
    }
    Ok(out)
}

} // verus!
