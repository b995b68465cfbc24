//! The note extractor: pairs note-on and note-off events per channel and
//! key, snapshotting the timeline entry at each end of every note.

use vstd::prelude::*;
use vstd::string::StringExecFns;

use crate::control::abs_tick_after;
use crate::control::lemma_abs_tick_monotonic;
use crate::control::tracks_ticks_in_range;
use crate::control::tracks_view;
use crate::types::MidiEventKind;
use crate::types::TimeAxis;
use crate::types::TrackEvent;

verus! {

/// A note with its resolved timeline positions.  `note_off_time_axis`
/// stays `None` while the note is open; a note the file never closes
/// keeps it `None` and is dropped before measure splitting.
///
/// Each end of the note owns a snapshot of its timeline entry rather
/// than an index, because the measure splitter fabricates entries at
/// measure boundaries for the fragments it emits.
#[derive(Debug)]
pub struct MidiNote {
    /// Timeline entry at which the note starts.
    pub note_on_time_axis: TimeAxis,
    /// Timeline entry at which the note ends, once a matching note-off
    /// has been seen.
    pub note_off_time_axis: Option<TimeAxis>,
    /// Length in ticks, set together with `note_off_time_axis`.
    pub note_length_ticks: Option<u32>,
    /// MIDI key number, 0 to 127.
    pub key: u32,
    /// Pitch class name: one of C, C#, D, D#, E, F, F#, G, G#, A, A#, B.
    pub key_cdefgab: String,
    /// Octave in Yamaha convention: `key / 12 - 2`.
    pub key_octave_yamaha: i32,
    /// Octave in General MIDI convention: `key / 12 - 1`.
    pub key_octave_general_midi: i32,
    /// Pitch class and Yamaha octave joined, e.g. `C3` or `A#-1`.
    pub key_and_octave_yamaha: String,
    /// Note-on velocity, 1 to 127 (velocity 0 acts as a note-off).
    pub velocity: u32,
    /// MIDI channel, 0 to 15.
    pub channel: u32,
}

/// The mathematical image of a `MidiNote`: strings as character
/// sequences, octaves as unbounded integers.
pub struct MidiNoteView {
    pub note_on_time_axis: TimeAxis,
    pub note_off_time_axis: Option<TimeAxis>,
    pub note_length_ticks: Option<u32>,
    pub key: u32,
    pub key_cdefgab: Seq<char>,
    pub key_octave_yamaha: int,
    pub key_octave_general_midi: int,
    pub key_and_octave_yamaha: Seq<char>,
    pub velocity: u32,
    pub channel: u32,
}

impl View for MidiNote {
    type V = MidiNoteView;

    open spec fn view(&self) -> MidiNoteView {
        MidiNoteView {
            note_on_time_axis: self.note_on_time_axis,
            note_off_time_axis: self.note_off_time_axis,
            note_length_ticks: self.note_length_ticks,
            key: self.key,
            key_cdefgab: self.key_cdefgab@,
            key_octave_yamaha: self.key_octave_yamaha as int,
            key_octave_general_midi: self.key_octave_general_midi as int,
            key_and_octave_yamaha: self.key_and_octave_yamaha@,
            velocity: self.velocity,
            channel: self.channel,
        }
    }
}

impl Clone for MidiNote {
    /// A clone is indistinguishable from the original.
    fn clone(&self) -> (r: MidiNote)
        ensures
            r@ == self@,
    {
        MidiNote {
            note_on_time_axis: self.note_on_time_axis,
            note_off_time_axis: self.note_off_time_axis,
            note_length_ticks: self.note_length_ticks,
            key: self.key,
            key_cdefgab: self.key_cdefgab.clone(),
            key_octave_yamaha: self.key_octave_yamaha,
            key_octave_general_midi: self.key_octave_general_midi,
            key_and_octave_yamaha: self.key_and_octave_yamaha.clone(),
            velocity: self.velocity,
            channel: self.channel,
        }
    }
}

/// One channel's notes, viewed mathematically.
pub open spec fn channel_view(notes: Seq<MidiNote>) -> Seq<MidiNoteView> {
    notes.map_values(|n: MidiNote| n@)
}

/// All 16 channels' notes, viewed mathematically.
pub open spec fn notes_view(notes: Seq<Vec<MidiNote>>) -> Seq<Seq<MidiNoteView>> {
    notes.map_values(|c: Vec<MidiNote>| channel_view(c@))
}

/// The name of pitch class `pc` (key number modulo 12), starting at C.
pub open spec fn spec_pitch_name(pc: int) -> Seq<char> {
    if pc == 0 {
        "C"@
    } else if pc == 1 {
        "C#"@
    } else if pc == 2 {
        "D"@
    } else if pc == 3 {
        "D#"@
    } else if pc == 4 {
        "E"@
    } else if pc == 5 {
        "F"@
    } else if pc == 6 {
        "F#"@
    } else if pc == 7 {
        "G"@
    } else if pc == 8 {
        "G#"@
    } else if pc == 9 {
        "A"@
    } else if pc == 10 {
        "A#"@
    } else {
        "B"@
    }
}

/// The decimal label of a Yamaha octave, which for keys 0 to 127 lies
/// between -2 and 8.
pub open spec fn spec_octave_label(oct: int) -> Seq<char> {
    if oct == -2 {
        "-2"@
    } else if oct == -1 {
        "-1"@
    } else if oct == 0 {
        "0"@
    } else if oct == 1 {
        "1"@
    } else if oct == 2 {
        "2"@
    } else if oct == 3 {
        "3"@
    } else if oct == 4 {
        "4"@
    } else if oct == 5 {
        "5"@
    } else if oct == 6 {
        "6"@
    } else if oct == 7 {
        "7"@
    } else {
        "8"@
    }
}

/// The note a note-on event opens: off side unresolved, pitch metadata
/// derived from the key number.
pub open spec fn spec_new_note(key: u8, velocity: u8, channel: u8, axis: TimeAxis) -> MidiNoteView {
    MidiNoteView {
        note_on_time_axis: axis,
        note_off_time_axis: None,
        note_length_ticks: None,
        key: key as u32,
        key_cdefgab: spec_pitch_name(key as int % 12),
        key_octave_yamaha: key as int / 12 - 2,
        key_octave_general_midi: key as int / 12 - 1,
        key_and_octave_yamaha: spec_pitch_name(key as int % 12) + spec_octave_label(
            key as int / 12 - 2,
        ),
        velocity: velocity as u32,
        channel: channel as u32,
    }
}

/// The newest note of a channel that is still open with the given key:
/// the greatest index whose note matches, or `None`.
pub open spec fn newest_open_index(notes: Seq<MidiNoteView>, key: u32) -> Option<int>
    decreases notes.len(),
{
    if notes.len() == 0 {
        None
    } else if notes.last().key == key && notes.last().note_off_time_axis is None {
        Some(notes.len() - 1)
    } else {
        newest_open_index(notes.drop_last(), key)
    }
}

/// Length in ticks between a note's ends; 0 when the off-side entry sits
/// before the on-side one (possible when the closing event came from an
/// earlier position of another track).
pub open spec fn spec_duration_ticks(on_tick: u32, off_tick: u32) -> u32 {
    if off_tick >= on_tick {
        (off_tick - on_tick) as u32
    } else {
        0
    }
}

/// The note after its off side is resolved to `axis`.
pub open spec fn spec_closed_note(n: MidiNoteView, axis: TimeAxis) -> MidiNoteView {
    MidiNoteView {
        note_off_time_axis: Some(axis),
        note_length_ticks: Some(
            spec_duration_ticks(n.note_on_time_axis.ticks_total, axis.ticks_total),
        ),
        ..n
    }
}

/// Close the newest open note with the given key at `axis`; a channel
/// with no such note is left exactly as it was.
pub open spec fn spec_close_note(notes: Seq<MidiNoteView>, key: u32, axis: TimeAxis) -> Seq<
    MidiNoteView,
> {
    match newest_open_index(notes, key) {
        None => notes,
        Some(i) => notes.update(i, spec_closed_note(notes[i], axis)),
    }
}

/// One event's effect on the 16 channel lists.  A note-on with positive
/// velocity opens a note; a note-on with velocity 0, like a note-off,
/// closes the newest matching open note.  An event whose tick lies
/// beyond the timeline is ignored.
pub open spec fn spec_apply_event(
    state: Seq<Seq<MidiNoteView>>,
    timeline: Seq<TimeAxis>,
    tick: int,
    kind: MidiEventKind,
) -> Seq<Seq<MidiNoteView>> {
    if 0 <= tick < timeline.len() {
        match kind {
            MidiEventKind::NoteOn { channel, key, velocity } => {
                if velocity > 0 {
                    state.update(
                        channel as int,
                        state[channel as int].push(
                            spec_new_note(key, velocity, channel, timeline[tick]),
                        ),
                    )
                } else {
                    state.update(
                        channel as int,
                        spec_close_note(state[channel as int], key as u32, timeline[tick]),
                    )
                }
            },
            MidiEventKind::NoteOff { channel, key } => state.update(
                channel as int,
                spec_close_note(state[channel as int], key as u32, timeline[tick]),
            ),
            _ => state,
        }
    } else {
        state
    }
}

/// The channel lists after the first `n` events of one track.
pub open spec fn spec_scan_track(
    state: Seq<Seq<MidiNoteView>>,
    timeline: Seq<TimeAxis>,
    track: Seq<TrackEvent>,
    n: int,
) -> Seq<Seq<MidiNoteView>>
    decreases n,
{
    if n <= 0 {
        state
    } else {
        spec_apply_event(
            spec_scan_track(state, timeline, track, n - 1),
            timeline,
            abs_tick_after(track, n),
            track[n - 1].kind,
        )
    }
}

/// The channel lists after the first `k` tracks.
pub open spec fn spec_scan_tracks(
    state: Seq<Seq<MidiNoteView>>,
    timeline: Seq<TimeAxis>,
    tracks: Seq<Seq<TrackEvent>>,
    k: int,
) -> Seq<Seq<MidiNoteView>>
    decreases k,
{
    if k <= 0 {
        state
    } else {
        spec_scan_track(
            spec_scan_tracks(state, timeline, tracks, k - 1),
            timeline,
            tracks[k - 1],
            tracks[k - 1].len() as int,
        )
    }
}

/// 16 empty channels.
pub open spec fn spec_initial_notes() -> Seq<Seq<MidiNoteView>> {
    Seq::new(16, |i: int| Seq::<MidiNoteView>::empty())
}

/// The 16 channel lists extracted from a file's tracks against a built
/// timeline.
pub open spec fn spec_extract_notes(
    tracks: Seq<Seq<TrackEvent>>,
    timeline: Seq<TimeAxis>,
) -> Seq<Seq<MidiNoteView>> {
    spec_scan_tracks(spec_initial_notes(), timeline, tracks, tracks.len() as int)
}

/// A note-on or note-off event within MIDI's value ranges, as a parsed
/// container guarantees; other events are unconstrained.
pub open spec fn event_kind_wf(k: MidiEventKind) -> bool {
    match k {
        MidiEventKind::NoteOn { channel, key, velocity } => channel < 16 && key < 128 && velocity
            < 128,
        MidiEventKind::NoteOff { channel, key } => channel < 16 && key < 128,
        _ => true,
    }
}

/// Every event of every track is within MIDI's value ranges.
pub open spec fn tracks_events_wf(tracks: Seq<Seq<TrackEvent>>) -> bool {
    forall|k: int, i: int|
        0 <= k < tracks.len() && 0 <= i < tracks[k].len() ==> event_kind_wf(
            #[trigger] tracks[k][i].kind,
        )
}

/// An unmatched note-off changes nothing: with no open note of that key
/// on the channel, the closing pass returns the channel untouched.
pub proof fn lemma_unmatched_note_off_no_effect(
    notes: Seq<MidiNoteView>,
    key: u32,
    axis: TimeAxis,
)
    requires
        newest_open_index(notes, key) is None,
    ensures
        spec_close_note(notes, key, axis) == notes,
{
}

/// An unmatched note-off leaves all 16 channels exactly as they were.
pub proof fn lemma_unmatched_note_off_ignored(
    state: Seq<Seq<MidiNoteView>>,
    timeline: Seq<TimeAxis>,
    tick: int,
    channel: u8,
    key: u8,
)
    requires
        state.len() == 16,
        channel < 16,
        newest_open_index(state[channel as int], key as u32) is None,
    ensures
        spec_apply_event(state, timeline, tick, MidiEventKind::NoteOff { channel, key }) == state,
{
    if 0 <= tick < timeline.len() {
        assert(state.update(channel as int, state[channel as int]) =~= state);
    }
}

/// A note-on with velocity 0 acts exactly as a note-off: it closes the
/// newest matching open note instead of opening a new one.
pub proof fn lemma_velocity_zero_is_note_off(
    state: Seq<Seq<MidiNoteView>>,
    timeline: Seq<TimeAxis>,
    tick: int,
    channel: u8,
    key: u8,
)
    ensures
        spec_apply_event(
            state,
            timeline,
            tick,
            MidiEventKind::NoteOn { channel, key, velocity: 0 },
        ) == spec_apply_event(state, timeline, tick, MidiEventKind::NoteOff { channel, key }),
{
}


/// A note's timeline snapshots are genuine entries of the timeline, taken
/// at their own tick indices, and its length matches them: what the
/// extractor guarantees of every note it hands on.
pub open spec fn note_ends_in_timeline(n: MidiNoteView, timeline: Seq<TimeAxis>) -> bool {
    &&& n.note_on_time_axis.ticks_total < timeline.len()
    &&& timeline[n.note_on_time_axis.ticks_total as int] == n.note_on_time_axis
    &&& match n.note_off_time_axis {
        Some(off) => {
            &&& off.ticks_total < timeline.len()
            &&& timeline[off.ticks_total as int] == off
            &&& n.note_length_ticks == Some(
                spec_duration_ticks(n.note_on_time_axis.ticks_total, off.ticks_total),
            )
        },
        None => n.note_length_ticks is None,
    }
}

/// Every note of the channel is anchored in the timeline.
pub open spec fn channel_notes_wf(notes: Seq<MidiNoteView>, timeline: Seq<TimeAxis>) -> bool {
    forall|i: int| 0 <= i < notes.len() ==> note_ends_in_timeline(#[trigger] notes[i], timeline)
}

/// Every note of every channel is anchored in the timeline.
pub open spec fn state_notes_wf(state: Seq<Seq<MidiNoteView>>, timeline: Seq<TimeAxis>) -> bool {
    forall|c: int| 0 <= c < state.len() ==> channel_notes_wf(#[trigger] state[c], timeline)
}

/// The newest-open search returns an index into the channel whose note
/// matches the key and is still open.
pub proof fn lemma_newest_open_index_range(notes: Seq<MidiNoteView>, key: u32)
    ensures
        match newest_open_index(notes, key) {
            None => true,
            Some(i) => 0 <= i < notes.len() && notes[i].key == key
                && notes[i].note_off_time_axis is None,
        },
    decreases notes.len(),
{
    if notes.len() > 0 {
        if !(notes.last().key == key && notes.last().note_off_time_axis is None) {
            lemma_newest_open_index_range(notes.drop_last(), key);
            match newest_open_index(notes.drop_last(), key) {
                Some(i) => {
                    assert(notes.drop_last()[i] == notes[i]);
                },
                None => {},
            }
        }
    }
}

/// Closing a note keeps the channel anchored in the timeline.
proof fn lemma_close_note_preserves_wf(
    notes: Seq<MidiNoteView>,
    key: u32,
    timeline: Seq<TimeAxis>,
    tick: int,
)
    requires
        channel_notes_wf(notes, timeline),
        0 <= tick < timeline.len(),
        timeline[tick].ticks_total == tick,
    ensures
        channel_notes_wf(spec_close_note(notes, key, timeline[tick]), timeline),
{
    lemma_newest_open_index_range(notes, key);
    let after = spec_close_note(notes, key, timeline[tick]);
    match newest_open_index(notes, key) {
        None => {},
        Some(idx) => {
            assert forall|i: int| 0 <= i < after.len() implies note_ends_in_timeline(
                #[trigger] after[i],
                timeline,
            ) by {
                assert(note_ends_in_timeline(notes[i], timeline));
                if i == idx {
                    assert(after[i] == spec_closed_note(notes[idx], timeline[tick]));
                }
            }
        },
    }
}

/// Applying one event keeps every channel anchored in the timeline,
/// provided the timeline indexes itself by tick.
proof fn lemma_apply_event_preserves_wf(
    state: Seq<Seq<MidiNoteView>>,
    timeline: Seq<TimeAxis>,
    tick: int,
    kind: MidiEventKind,
)
    requires
        state.len() == 16,
        event_kind_wf(kind),
        state_notes_wf(state, timeline),
        forall|i: int| 0 <= i < timeline.len() ==> (#[trigger] timeline[i].ticks_total) == i,
    ensures
        spec_apply_event(state, timeline, tick, kind).len() == 16,
        state_notes_wf(spec_apply_event(state, timeline, tick, kind), timeline),
{
    let after = spec_apply_event(state, timeline, tick, kind);
    if 0 <= tick < timeline.len() {
        match kind {
            MidiEventKind::NoteOn { channel, key, velocity } => {
                if velocity > 0 {
                    let added = spec_new_note(key, velocity, channel, timeline[tick]);
                    assert(note_ends_in_timeline(added, timeline));
                    assert forall|c: int| 0 <= c < after.len() implies channel_notes_wf(
                        #[trigger] after[c],
                        timeline,
                    ) by {
                        assert(channel_notes_wf(state[c], timeline));
                        if c == channel as int {
                            assert forall|i: int| 0 <= i < after[c].len() implies
                                note_ends_in_timeline(#[trigger] after[c][i], timeline) by {
                                if i < state[c].len() {
                                    assert(note_ends_in_timeline(state[c][i], timeline));
                                }
                            }
                        }
                    }
                } else {
                    lemma_close_note_preserves_wf(state[channel as int], key as u32, timeline, tick);
                    assert forall|c: int| 0 <= c < after.len() implies channel_notes_wf(
                        #[trigger] after[c],
                        timeline,
                    ) by {
                        assert(channel_notes_wf(state[c], timeline));
                    }
                }
            },
            MidiEventKind::NoteOff { channel, key } => {
                lemma_close_note_preserves_wf(state[channel as int], key as u32, timeline, tick);
                assert forall|c: int| 0 <= c < after.len() implies channel_notes_wf(
                    #[trigger] after[c],
                    timeline,
                ) by {
                    assert(channel_notes_wf(state[c], timeline));
                }
            },
            _ => {},
        }
    }
}

/// Scanning one track keeps every channel anchored in the timeline.
proof fn lemma_scan_track_preserves_wf(
    state: Seq<Seq<MidiNoteView>>,
    timeline: Seq<TimeAxis>,
    track: Seq<TrackEvent>,
    n: int,
)
    requires
        state.len() == 16,
        state_notes_wf(state, timeline),
        n <= track.len(),
        forall|i: int| 0 <= i < track.len() ==> event_kind_wf(#[trigger] track[i].kind),
        forall|i: int| 0 <= i < timeline.len() ==> (#[trigger] timeline[i].ticks_total) == i,
    ensures
        spec_scan_track(state, timeline, track, n).len() == 16,
        state_notes_wf(spec_scan_track(state, timeline, track, n), timeline),
    decreases n,
{
    if n > 0 {
        lemma_scan_track_preserves_wf(state, timeline, track, n - 1);
        lemma_apply_event_preserves_wf(
            spec_scan_track(state, timeline, track, n - 1),
            timeline,
            abs_tick_after(track, n),
            track[n - 1].kind,
        );
    }
}

/// Every note the extractor produces is anchored in the timeline, with
/// both ends genuine entries and the length matching them.
pub proof fn lemma_extracted_notes_wf(
    tracks: Seq<Seq<TrackEvent>>,
    timeline: Seq<TimeAxis>,
    k: int,
)
    requires
        tracks_events_wf(tracks),
        forall|i: int| 0 <= i < timeline.len() ==> (#[trigger] timeline[i].ticks_total) == i,
        0 <= k <= tracks.len(),
    ensures
        spec_scan_tracks(spec_initial_notes(), timeline, tracks, k).len() == 16,
        state_notes_wf(spec_scan_tracks(spec_initial_notes(), timeline, tracks, k), timeline),
    decreases k,
{
    if k > 0 {
        lemma_extracted_notes_wf(tracks, timeline, k - 1);
        assert forall|i: int| 0 <= i < tracks[k - 1].len() implies event_kind_wf(
            #[trigger] tracks[k - 1][i].kind,
        ) by {
            assert(event_kind_wf(tracks[k - 1][i].kind));
        }
        lemma_scan_track_preserves_wf(
            spec_scan_tracks(spec_initial_notes(), timeline, tracks, k - 1),
            timeline,
            tracks[k - 1],
            tracks[k - 1].len() as int,
        );
    }
}

/// Exec counterpart of `spec_pitch_name`.
fn pitch_name_str(pc: u8) -> (r: &'static str)
    requires
        pc < 12,
    ensures
        r@ == spec_pitch_name(pc as int),
{
    match pc {
        0 => "C",
        1 => "C#",
        2 => "D",
        3 => "D#",
        4 => "E",
        5 => "F",
        6 => "F#",
        7 => "G",
        8 => "G#",
        9 => "A",
        10 => "A#",
        _ => "B",
    }
}

/// Exec counterpart of `spec_octave_label`.
fn octave_label_str(oct: i32) -> (r: &'static str)
    requires
        -2 <= oct <= 8,
    ensures
        r@ == spec_octave_label(oct as int),
{
    match oct {
        -2 => "-2",
        -1 => "-1",
        0 => "0",
        1 => "1",
        2 => "2",
        3 => "3",
        4 => "4",
        5 => "5",
        6 => "6",
        7 => "7",
        _ => "8",
    }
}

/// Find the newest open note of the channel with the given key, scanning
/// from the most recently added note backward.
fn find_newest_open(notes: &Vec<MidiNote>, key: u32) -> (r: Option<usize>)
    ensures
        match r {
            None => newest_open_index(channel_view(notes@), key) is None,
            Some(i) => i < notes@.len() && newest_open_index(channel_view(notes@), key) == Some(
                i as int,
            ),
        },
{
    let ghost full = channel_view(notes@);
    let mut i: usize = notes.len();
    proof {
        assert(full.take(i as int) =~= full);
    }
    while i > 0
        invariant
            0 <= i <= notes@.len(),
            full == channel_view(notes@),
            full.len() == notes@.len(),
            newest_open_index(full, key) == newest_open_index(full.take(i as int), key),
        decreases i,
    {
        let matched = notes[i - 1].key == key && notes[i - 1].note_off_time_axis.is_none();
        proof {
            assert(full.take(i as int).drop_last() =~= full.take(i - 1));
            assert(full.take(i as int).last() == full[i - 1]);
            assert(full[i - 1] == notes@[i - 1]@);
        }
        if matched {
            return Some(i - 1);
        }
        i = i - 1;
    }
    proof {
        assert(full.take(0) =~= Seq::<MidiNoteView>::empty());
    }
    None
}

/// Close the newest open note of the channel with the given key at
/// `axis`, if there is one; otherwise leave the channel untouched.
fn close_note_in_channel(notes: &mut Vec<MidiNote>, key: u32, axis: TimeAxis)
    ensures
        channel_view(final(notes)@) == spec_close_note(channel_view(old(notes)@), key, axis),
{
    let ghost before = channel_view(old(notes)@);
    match find_newest_open(notes, key) {
        None => {},
        Some(i) => {
            let duration: u32 = if axis.ticks_total >= notes[i].note_on_time_axis.ticks_total {
                axis.ticks_total - notes[i].note_on_time_axis.ticks_total
            } else {
                0
            };
            let n = &mut notes[i];
            n.note_off_time_axis = Some(axis);
            n.note_length_ticks = Some(duration);
            proof {
                assert(channel_view(notes@) =~= before.update(
                    i as int,
                    spec_closed_note(before[i as int], axis),
                ));
            }
        },
    }
}

/// Apply one event at its absolute tick to the 16 channel lists.
fn apply_event(
    notes: &mut Vec<Vec<MidiNote>>,
    timeline: &Vec<TimeAxis>,
    ticks: u32,
    kind: MidiEventKind,
)
    requires
        old(notes)@.len() == 16,
        event_kind_wf(kind),
    ensures
        final(notes)@.len() == 16,
        notes_view(final(notes)@) == spec_apply_event(
            notes_view(old(notes)@),
            timeline@,
            ticks as int,
            kind,
        ),
{
    let ghost before = notes_view(old(notes)@);
    match kind {
        MidiEventKind::NoteOn { channel, key, velocity } => {
            if (ticks as usize) < timeline.len() {
                let axis = timeline[ticks as usize];
                if velocity > 0 {
                    let pc: u8 = key % 12;
                    let name = pitch_name_str(pc);
                    let octave_yamaha: i32 = key as i32 / 12 - 2;
                    let label = octave_label_str(octave_yamaha);
                    let note = MidiNote {
                        note_on_time_axis: axis,
                        note_off_time_axis: None,
                        note_length_ticks: None,
                        key: key as u32,
                        key_cdefgab: <String as StringExecFns>::from_str(name),
                        key_octave_yamaha: octave_yamaha,
                        key_octave_general_midi: key as i32 / 12 - 1,
                        key_and_octave_yamaha: <String as StringExecFns>::from_str(name).concat(label),
                        velocity: velocity as u32,
                        channel: channel as u32,
                    };
                    assert(note@ == spec_new_note(key, velocity, channel, axis));
                    let ch = &mut notes[channel as usize];
                    let ghost ch0 = ch@;
                    ch.push(note);
                    proof {
                        assert(channel_view(ch@) =~= channel_view(ch0).push(
                            spec_new_note(key, velocity, channel, axis),
                        ));
                        assert(channel_view(ch0) == before[channel as int]);
                        assert(notes_view(notes@) =~= spec_apply_event(
                            before,
                            timeline@,
                            ticks as int,
                            kind,
                        ));
                    }
                } else {
                    let ch = &mut notes[channel as usize];
                    close_note_in_channel(ch, key as u32, axis);
                    proof {
                        assert(notes_view(notes@) =~= spec_apply_event(
                            before,
                            timeline@,
                            ticks as int,
                            kind,
                        ));
                    }
                }
            }
        },
        MidiEventKind::NoteOff { channel, key } => {
            if (ticks as usize) < timeline.len() {
                let axis = timeline[ticks as usize];
                let ch = &mut notes[channel as usize];
                close_note_in_channel(ch, key as u32, axis);
                proof {
                    assert(notes_view(notes@) =~= spec_apply_event(
                        before,
                        timeline@,
                        ticks as int,
                        kind,
                    ));
                }
            }
        },
        _ => {},
    }
}

/// Scan every track once against the finished timeline and build the 16
/// per-channel note lists: note-ons open notes, note-offs (and note-ons
/// of velocity 0) close the newest matching open note; events beyond the
/// timeline, and note-offs with nothing to close, are ignored.
pub fn extract_midi_notes(tracks: &Vec<Vec<TrackEvent>>, timeline: &Vec<TimeAxis>) -> (r: Vec<
    Vec<MidiNote>,
>)
    requires
        tracks_ticks_in_range(tracks_view(tracks@)),
        tracks_events_wf(tracks_view(tracks@)),
    ensures
        r@.len() == 16,
        notes_view(r@) == spec_extract_notes(tracks_view(tracks@), timeline@),
{
    let ghost tv = tracks_view(tracks@);
    let mut notes: Vec<Vec<MidiNote>> = Vec::new();
    while notes.len() < 16
        invariant
            0 <= notes@.len() <= 16,
            forall|c: int| 0 <= c < notes@.len() ==> (#[trigger] notes@[c])@.len() == 0,
        decreases 16 - notes@.len(),
    {
        notes.push(Vec::new());
    }
    proof {
        assert(notes_view(notes@) =~~= spec_initial_notes());
    }
    let mut k: usize = 0;
    while k < tracks.len()
        invariant
            tracks_ticks_in_range(tv),
            tracks_events_wf(tv),
            tv == tracks_view(tracks@),
            tv.len() == tracks@.len(),
            0 <= k <= tracks@.len(),
            notes@.len() == 16,
            notes_view(notes@) == spec_scan_tracks(spec_initial_notes(), timeline@, tv, k as int),
        decreases tracks@.len() - k,
    {
        let track: &Vec<TrackEvent> = &tracks[k];
        let ghost tr = tv[k as int];
        proof {
            assert(tr == track@);
        }
        let ghost entry_state = notes_view(notes@);
        let mut ticks: u32 = 0;
        let mut i: usize = 0;
        while i < track.len()
            invariant
                tracks_ticks_in_range(tv),
                tracks_events_wf(tv),
                tv == tracks_view(tracks@),
                0 <= k < tracks@.len(),
                track == &tracks[k as int],
                tr == track@,
                tr == tv[k as int],
                0 <= i <= tr.len(),
                ticks == abs_tick_after(tr, i as int),
                notes@.len() == 16,
                notes_view(notes@) == spec_scan_track(entry_state, timeline@, tr, i as int),
                entry_state == spec_scan_tracks(spec_initial_notes(), timeline@, tv, k as int),
            decreases tr.len() - i,
        {
            let e = track[i];
            proof {
                lemma_abs_tick_monotonic(tr, i + 1, tr.len() as int);
                assert(event_kind_wf(tr[i as int].kind));
            }
            ticks = ticks + e.delta;
            apply_event(&mut notes, timeline, ticks, e.kind);
            i = i + 1;
        }
        k = k + 1;
    }
    notes
}

} // verus!
