//! The control-event collector: one pass over every track, recording
//! tempo and time-signature changes at their absolute ticks and the
//! final tick of the piece.

use vstd::prelude::*;

use crate::types::MidiEventKind;
use crate::types::TempoChangeEvent;
use crate::types::TimeSignatureChangeEvent;
use crate::types::TrackEvent;
use crate::types::valid_time_signature_event;
use crate::types::valid_time_signature_events;

verus! {

/// The views of a vector of tracks, as a sequence of event sequences.
pub open spec fn tracks_view(tracks: Seq<Vec<TrackEvent>>) -> Seq<Seq<TrackEvent>> {
    tracks.map_values(|t: Vec<TrackEvent>| t@)
}

/// Absolute tick after the first `n` events of a track: the sum of their
/// delta times.
pub open spec fn abs_tick_after(track: Seq<TrackEvent>, n: int) -> int
    decreases n,
{
    if n <= 0 {
        0
    } else {
        abs_tick_after(track, n - 1) + track[n - 1].delta
    }
}

/// A track's absolute ticks never decrease as events are consumed.
pub proof fn lemma_abs_tick_monotonic(track: Seq<TrackEvent>, n1: int, n2: int)
    requires
        0 <= n1 <= n2,
    ensures
        abs_tick_after(track, n1) <= abs_tick_after(track, n2),
    decreases n2,
{
    if n1 < n2 {
        lemma_abs_tick_monotonic(track, n1, n2 - 1);
    }
}

/// Every event of a track sits at a tick that fits the timeline's range.
pub open spec fn track_ticks_in_range(track: Seq<TrackEvent>) -> bool {
    abs_tick_after(track, track.len() as int) <= u32::MAX
}

/// Every event of every track sits at a tick that fits the timeline's range.
pub open spec fn tracks_ticks_in_range(tracks: Seq<Seq<TrackEvent>>) -> bool {
    forall|k: int| 0 <= k < tracks.len() ==> track_ticks_in_range(#[trigger] tracks[k])
}

/// Two raised to a power-of-two exponent no larger than 7, as the time
/// signature's stored denominator exponent encodes it.
pub open spec fn spec_pow2_u8(exp: u8) -> u8 {
    if exp == 0 {
        1
    } else if exp == 1 {
        2
    } else if exp == 2 {
        4
    } else if exp == 3 {
        8
    } else if exp == 4 {
        16
    } else if exp == 5 {
        32
    } else if exp == 6 {
        64
    } else {
        128
    }
}

/// A time-signature event the collector keeps: at least one beat per
/// measure, an exponent its `u8` denominator can hold, and a decoded
/// denominator that leaves the beat at least one tick long under this
/// division.  Anything else cannot drive the timeline and is ignored.
pub open spec fn usable_time_signature(numerator: u8, exp: u8, division: u16) -> bool {
    &&& numerator >= 1
    &&& exp <= 7
    &&& spec_pow2_u8(exp) as int <= 4 * (division as int)
}

/// The tempo changes recorded from the first `n` events of one track,
/// in encounter order, each at its absolute tick.
pub open spec fn track_tempo_events(track: Seq<TrackEvent>, n: int) -> Seq<TempoChangeEvent>
    decreases n,
{
    if n <= 0 {
        Seq::empty()
    } else {
        let prefix = track_tempo_events(track, n - 1);
        match track[n - 1].kind {
            MidiEventKind::TempoChange { microseconds_per_quarter } => prefix.push(
                TempoChangeEvent {
                    microseconds_per_quarter,
                    at_tick: abs_tick_after(track, n) as u32,
                },
            ),
            _ => prefix,
        }
    }
}

/// The usable time-signature changes recorded from the first `n` events
/// of one track, with the denominator decoded from its exponent.
pub open spec fn track_sig_events(
    track: Seq<TrackEvent>,
    division: u16,
    n: int,
) -> Seq<TimeSignatureChangeEvent>
    decreases n,
{
    if n <= 0 {
        Seq::empty()
    } else {
        let prefix = track_sig_events(track, division, n - 1);
        match track[n - 1].kind {
            MidiEventKind::TimeSignatureChange {
                numerator,
                denominator_exponent,
                midi_clocks_per_metronome_click,
                thirty_seconds_notes_per_quarter_note,
            } => {
                if usable_time_signature(numerator, denominator_exponent, division) {
                    prefix.push(
                        TimeSignatureChangeEvent {
                            numerator,
                            denominator: spec_pow2_u8(denominator_exponent),
                            midi_clocks_per_metronome_click,
                            thirty_seconds_notes_per_quarter_note,
                            at_tick: abs_tick_after(track, n) as u32,
                        },
                    )
                } else {
                    prefix
                }
            },
            _ => prefix,
        }
    }
}

/// The greatest absolute tick of an end-of-track marker among the first
/// `n` events of one track, or 0 when there is none.
pub open spec fn track_end_tick(track: Seq<TrackEvent>, n: int) -> int
    decreases n,
{
    if n <= 0 {
        0
    } else {
        let prior = track_end_tick(track, n - 1);
        if track[n - 1].kind is EndOfTrack && abs_tick_after(track, n) > prior {
            abs_tick_after(track, n)
        } else {
            prior
        }
    }
}

/// The tempo changes of the first `k` tracks, track by track.
pub open spec fn collected_tempo_events(tracks: Seq<Seq<TrackEvent>>, k: int) -> Seq<
    TempoChangeEvent,
>
    decreases k,
{
    if k <= 0 {
        Seq::empty()
    } else {
        collected_tempo_events(tracks, k - 1) + track_tempo_events(
            tracks[k - 1],
            tracks[k - 1].len() as int,
        )
    }
}

/// The usable time-signature changes of the first `k` tracks.
pub open spec fn collected_sig_events(tracks: Seq<Seq<TrackEvent>>, division: u16, k: int) -> Seq<
    TimeSignatureChangeEvent,
>
    decreases k,
{
    if k <= 0 {
        Seq::empty()
    } else {
        collected_sig_events(tracks, division, k - 1) + track_sig_events(
            tracks[k - 1],
            division,
            tracks[k - 1].len() as int,
        )
    }
}

/// The greatest end-of-track tick across the first `k` tracks.
pub open spec fn collected_last_tick(tracks: Seq<Seq<TrackEvent>>, k: int) -> int
    decreases k,
{
    if k <= 0 {
        0
    } else {
        let prior = collected_last_tick(tracks, k - 1);
        let t = track_end_tick(tracks[k - 1], tracks[k - 1].len() as int);
        if t > prior {
            t
        } else {
            prior
        }
    }
}

/// All tempo changes of a file, in track order.
pub open spec fn all_tempo_events(tracks: Seq<Seq<TrackEvent>>) -> Seq<TempoChangeEvent> {
    collected_tempo_events(tracks, tracks.len() as int)
}

/// All usable time-signature changes of a file, in track order.
pub open spec fn all_sig_events(tracks: Seq<Seq<TrackEvent>>, division: u16) -> Seq<
    TimeSignatureChangeEvent,
> {
    collected_sig_events(tracks, division, tracks.len() as int)
}

/// The last tick of a file: the greatest end-of-track tick of any track.
pub open spec fn spec_last_tick(tracks: Seq<Seq<TrackEvent>>) -> int {
    collected_last_tick(tracks, tracks.len() as int)
}

/// Every recorded time-signature change of one track is usable with the
/// division it was collected under.
proof fn lemma_track_sig_events_valid(track: Seq<TrackEvent>, division: u16, n: int)
    ensures
        valid_time_signature_events(track_sig_events(track, division, n), division),
    decreases n,
{
    if n > 0 {
        lemma_track_sig_events_valid(track, division, n - 1);
        let prefix = track_sig_events(track, division, n - 1);
        let cur = track_sig_events(track, division, n);
        assert forall|j: int| 0 <= j < cur.len() implies valid_time_signature_event(
            #[trigger] cur[j],
            division,
        ) by {
            if j < prefix.len() {
                assert(valid_time_signature_event(prefix[j], division));
            }
        }
    }
}

/// Every collected time-signature change is usable with the division it
/// was collected under.
pub proof fn lemma_collected_sig_events_valid(tracks: Seq<Seq<TrackEvent>>, division: u16, k: int)
    ensures
        valid_time_signature_events(collected_sig_events(tracks, division, k), division),
    decreases k,
{
    if k > 0 {
        lemma_collected_sig_events_valid(tracks, division, k - 1);
        lemma_track_sig_events_valid(tracks[k - 1], division, tracks[k - 1].len() as int);
        let prefix = collected_sig_events(tracks, division, k - 1);
        let tail = track_sig_events(tracks[k - 1], division, tracks[k - 1].len() as int);
        let cur = collected_sig_events(tracks, division, k);
        assert forall|j: int| 0 <= j < cur.len() implies valid_time_signature_event(
            #[trigger] cur[j],
            division,
        ) by {
            if j < prefix.len() {
                assert(cur[j] == prefix[j]);
            } else {
                assert(cur[j] == tail[j - prefix.len()]);
            }
        }
    }
}

/// The last tick never exceeds the greatest absolute tick of any track.
pub proof fn lemma_track_end_tick_in_range(track: Seq<TrackEvent>, n: int)
    requires
        0 <= n <= track.len(),
    ensures
        0 <= track_end_tick(track, n) <= abs_tick_after(track, track.len() as int),
    decreases n,
{
    lemma_abs_tick_monotonic(track, 0, track.len() as int);
    if n > 0 {
        lemma_track_end_tick_in_range(track, n - 1);
        lemma_abs_tick_monotonic(track, n, track.len() as int);
    }
}

/// What the collector returns: the recorded changes and the last tick.
pub struct ControlEvents {
    /// Every tempo change of every track, in track order.
    pub tempo_changes: Vec<TempoChangeEvent>,
    /// Every usable time-signature change of every track, in track order.
    pub time_signature_changes: Vec<TimeSignatureChangeEvent>,
    /// The greatest end-of-track tick across all tracks.
    pub last_tick: u32,
}

/// Exec counterpart of `spec_pow2_u8`.
fn pow2_u8(exp: u8) -> (r: u8)
    requires
        exp <= 7,
    ensures
        r == spec_pow2_u8(exp),
{
    match exp {
        0 => 1,
        1 => 2,
        2 => 4,
        3 => 8,
        4 => 16,
        5 => 32,
        6 => 64,
        _ => 128,
    }
}

/// Scan every track once, accumulating each event's absolute tick, and
/// record every tempo change, every usable time-signature change (most
/// files put them all in one track, but no track is privileged), and the
/// greatest end-of-track tick.
pub fn collect_control_events(tracks: &Vec<Vec<TrackEvent>>, division: u16) -> (r: ControlEvents)
    requires
        tracks_ticks_in_range(tracks_view(tracks@)),
    ensures
        r.tempo_changes@ == all_tempo_events(tracks_view(tracks@)),
        r.time_signature_changes@ == all_sig_events(tracks_view(tracks@), division),
        r.last_tick == spec_last_tick(tracks_view(tracks@)),
        valid_time_signature_events(r.time_signature_changes@, division),
{
    let ghost tv = tracks_view(tracks@);
    let mut tempo_changes: Vec<TempoChangeEvent> = Vec::new();
    let mut time_signature_changes: Vec<TimeSignatureChangeEvent> = Vec::new();
    let mut last_tick: u32 = 0;
    let mut k: usize = 0;
    while k < tracks.len()
        invariant
            tracks_ticks_in_range(tv),
            tv == tracks_view(tracks@),
            tv.len() == tracks@.len(),
            0 <= k <= tracks@.len(),
            tempo_changes@ == collected_tempo_events(tv, k as int),
            time_signature_changes@ == collected_sig_events(tv, division, k as int),
            last_tick == collected_last_tick(tv, k as int),
        decreases tracks@.len() - k,
    {
        let track: &Vec<TrackEvent> = &tracks[k];
        let ghost tr = tv[k as int];
        proof {
            assert(tr == track@);
        }
        let mut ticks: u32 = 0;
        let mut i: usize = 0;
        while i < track.len()
            invariant
                tracks_ticks_in_range(tv),
                tv == tracks_view(tracks@),
                0 <= k < tracks@.len(),
                track == &tracks[k as int],
                tr == track@,
                tr == tv[k as int],
                0 <= i <= tr.len(),
                ticks == abs_tick_after(tr, i as int),
                tempo_changes@ == collected_tempo_events(tv, k as int) + track_tempo_events(
                    tr,
                    i as int,
                ),
                time_signature_changes@ == collected_sig_events(tv, division, k as int)
                    + track_sig_events(tr, division, i as int),
                ({
                    let prior = collected_last_tick(tv, k as int);
                    let t = track_end_tick(tr, i as int);
                    last_tick == if t > prior {
                        t
                    } else {
                        prior
                    }
                }),
            decreases tr.len() - i,
        {
            let e = track[i];
            proof {
                lemma_abs_tick_monotonic(tr, i + 1, tr.len() as int);
                lemma_track_end_tick_in_range(tr, i as int);
                lemma_collected_last_tick_in_range(tv, k as int);
            }
            ticks = ticks + e.delta;
            match e.kind {
                MidiEventKind::TempoChange { microseconds_per_quarter } => {
                    tempo_changes.push(
                        TempoChangeEvent { microseconds_per_quarter, at_tick: ticks },
                    );
                },
                MidiEventKind::TimeSignatureChange {
                    numerator,
                    denominator_exponent,
                    midi_clocks_per_metronome_click,
                    thirty_seconds_notes_per_quarter_note,
                } => {
                    if numerator >= 1 && denominator_exponent <= 7 {
                        let denominator = pow2_u8(denominator_exponent);
                        if denominator as u32 <= 4 * (division as u32) {
                            time_signature_changes.push(
                                TimeSignatureChangeEvent {
                                    numerator,
                                    denominator,
                                    midi_clocks_per_metronome_click,
                                    thirty_seconds_notes_per_quarter_note,
                                    at_tick: ticks,
                                },
                            );
                        }
                    }
                },
                MidiEventKind::EndOfTrack => {
                    if ticks > last_tick {
                        last_tick = ticks;
                    }
                },
                _ => {},
            }
            i = i + 1;
        }
        k = k + 1;
    }
    proof {
        lemma_collected_sig_events_valid(tv, division, tv.len() as int);
    }
    ControlEvents { tempo_changes, time_signature_changes, last_tick }
}

/// The greatest end-of-track tick of the first `k` tracks fits the
/// timeline's range.
pub proof fn lemma_collected_last_tick_in_range(tracks: Seq<Seq<TrackEvent>>, k: int)
    requires
        tracks_ticks_in_range(tracks),
        0 <= k <= tracks.len(),
    ensures
        0 <= collected_last_tick(tracks, k) <= u32::MAX,
    decreases k,
{
    if k > 0 {
        lemma_collected_last_tick_in_range(tracks, k - 1);
        lemma_track_end_tick_in_range(tracks[k - 1], tracks[k - 1].len() as int);
    }
}

} // verus!
