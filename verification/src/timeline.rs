//! The timeline builder: one entry per absolute tick, carrying elapsed
//! time and musical position under the tempo and time signature in
//! effect at that tick.

use vstd::prelude::*;

use crate::types::TimeAxis;
use crate::types::TempoChangeEvent;
use crate::types::TimeSignatureChangeEvent;
use crate::types::DEFAULT_TEMPO_US_PER_QUARTER;
use crate::types::valid_time_signature_event;
use crate::types::valid_time_signature_events;

verus! {

/// The tempo change governing `tick`: among the recorded changes whose
/// `at_tick` is not in the future, the one with the greatest `at_tick`;
/// when several share that tick, the one recorded last wins.  `None`
/// when no change has taken effect yet.
pub open spec fn tempo_change_in_effect(
    tempos: Seq<TempoChangeEvent>,
    tick: int,
) -> Option<TempoChangeEvent>
    decreases tempos.len(),
{
    if tempos.len() == 0 {
        None
    } else {
        let prior = tempo_change_in_effect(tempos.drop_last(), tick);
        let e = tempos.last();
        if e.at_tick <= tick && (prior is None || prior.unwrap().at_tick <= e.at_tick) {
            Some(e)
        } else {
            prior
        }
    }
}

/// Microseconds per quarter note in effect at `tick`: the governing tempo
/// change's value, or the 120-beats-per-minute default before the first one.
pub open spec fn tempo_us_in_effect(tempos: Seq<TempoChangeEvent>, tick: int) -> u32 {
    match tempo_change_in_effect(tempos, tick) {
        None => DEFAULT_TEMPO_US_PER_QUARTER,
        Some(e) => e.microseconds_per_quarter,
    }
}

/// The default 4/4 time signature assumed before the first change.
pub open spec fn default_time_signature() -> TimeSignatureChangeEvent {
    TimeSignatureChangeEvent {
        numerator: 4,
        denominator: 4,
        midi_clocks_per_metronome_click: 24,
        thirty_seconds_notes_per_quarter_note: 8,
        at_tick: 0,
    }
}

/// The time-signature change governing `tick`, under the same
/// most-recent-wins rule as `tempo_change_in_effect`.
pub open spec fn sig_change_in_effect(
    sigs: Seq<TimeSignatureChangeEvent>,
    tick: int,
) -> Option<TimeSignatureChangeEvent>
    decreases sigs.len(),
{
    if sigs.len() == 0 {
        None
    } else {
        let prior = sig_change_in_effect(sigs.drop_last(), tick);
        let e = sigs.last();
        if e.at_tick <= tick && (prior is None || prior.unwrap().at_tick <= e.at_tick) {
            Some(e)
        } else {
            prior
        }
    }
}

/// The time signature in effect at `tick`: the governing change, or 4/4
/// before the first one.
pub open spec fn sig_in_effect(
    sigs: Seq<TimeSignatureChangeEvent>,
    tick: int,
) -> TimeSignatureChangeEvent {
    match sig_change_in_effect(sigs, tick) {
        None => default_time_signature(),
        Some(e) => e,
    }
}

/// Length of a measure in ticks under a time signature: `numerator`
/// beats of `division * 4 / denominator` ticks each, rounded down as one
/// product.
pub open spec fn spec_measure_length_ticks(division: int, numerator: int, denominator: int) -> int {
    division * numerator * 4 / denominator
}

/// Length of a beat in ticks under a time signature.
pub open spec fn spec_beat_length_ticks(division: int, denominator: int) -> int {
    division * 4 / denominator
}

/// Elapsed time at `tick`, as seconds multiplied by
/// `division * 1_000_000`: every earlier tick contributes the
/// microseconds-per-quarter value of the tempo in effect at it.
pub open spec fn seconds_scaled_at(tempos: Seq<TempoChangeEvent>, tick: int) -> int
    decreases tick,
{
    if tick <= 0 {
        0
    } else {
        seconds_scaled_at(tempos, tick - 1) + tempo_us_in_effect(tempos, tick - 1)
    }
}

/// Measure number and ticks-into-measure at `tick`.  Starting from
/// measure 0, each tick either rolls over to the next measure (when the
/// previous tick sat on the last tick of its measure) or advances within
/// the current one.
pub open spec fn measure_state_at(
    sigs: Seq<TimeSignatureChangeEvent>,
    division: int,
    tick: int,
) -> (int, int)
    decreases tick,
{
    if tick <= 0 {
        (0, 0)
    } else {
        let prev = measure_state_at(sigs, division, tick - 1);
        let sig = sig_in_effect(sigs, tick - 1);
        let ml = spec_measure_length_ticks(division, sig.numerator as int, sig.denominator as int);
        if prev.1 == ml - 1 {
            (prev.0 + 1, 0)
        } else {
            (prev.0, prev.1 + 1)
        }
    }
}

/// The timeline entry at `tick`: the value `build_time_axis` places at
/// index `tick`.
pub open spec fn spec_time_axis_at(
    tempos: Seq<TempoChangeEvent>,
    sigs: Seq<TimeSignatureChangeEvent>,
    division: u16,
    tick: int,
) -> TimeAxis {
    let us = tempo_us_in_effect(tempos, tick);
    let sig = sig_in_effect(sigs, tick);
    let ml = spec_measure_length_ticks(division as int, sig.numerator as int, sig.denominator as int);
    let bl = spec_beat_length_ticks(division as int, sig.denominator as int);
    let st = measure_state_at(sigs, division as int, tick);
    TimeAxis {
        ticks_total: tick as u32,
        seconds_scaled: seconds_scaled_at(tempos, tick) as u64,
        measure: st.0 as u32,
        ticks_reset_by_measure: st.1 as u32,
        beat: (st.1 / bl % (sig.numerator as int) + 1) as u32,
        ticks_reset_by_beat: (st.1 % bl) as u32,
        measure_length_ticks: ml as u32,
        beat_length_ticks: bl as u32,
        tempo_us_per_quarter: us,
        time_signature_numerator: sig.numerator,
        time_signature_denominator: sig.denominator,
        time_signature_midi_clocks_per_metronome_click: sig.midi_clocks_per_metronome_click,
        time_signature_thirty_seconds_notes_per_quarter_note:
            sig.thirty_seconds_notes_per_quarter_note,
    }
}

/// The governing tempo change is one of the recorded ones.
proof fn lemma_tempo_change_in_effect_member(tempos: Seq<TempoChangeEvent>, tick: int)
    ensures
        tempo_change_in_effect(tempos, tick) matches Some(e) ==> tempos.contains(e),
    decreases tempos.len(),
{
    if tempos.len() > 0 {
        lemma_tempo_change_in_effect_member(tempos.drop_last(), tick);
        match tempo_change_in_effect(tempos.drop_last(), tick) {
            Some(p) => {
                if tempos.drop_last().contains(p) {
                    let j = choose|j: int|
                        0 <= j < tempos.drop_last().len() && tempos.drop_last()[j] == p;
                    assert(tempos[j] == p);
                }
            },
            None => {},
        }
        assert(tempos[tempos.len() - 1] == tempos.last());
    }
}

/// The governing time-signature change is one of the recorded ones.
pub proof fn lemma_sig_change_in_effect_member(sigs: Seq<TimeSignatureChangeEvent>, tick: int)
    ensures
        sig_change_in_effect(sigs, tick) matches Some(e) ==> sigs.contains(e),
    decreases sigs.len(),
{
    if sigs.len() > 0 {
        lemma_sig_change_in_effect_member(sigs.drop_last(), tick);
        match sig_change_in_effect(sigs.drop_last(), tick) {
            Some(p) => {
                if sigs.drop_last().contains(p) {
                    let j = choose|j: int|
                        0 <= j < sigs.drop_last().len() && sigs.drop_last()[j] == p;
                    assert(sigs[j] == p);
                }
            },
            None => {},
        }
        assert(sigs[sigs.len() - 1] == sigs.last());
    }
}

/// The time signature in effect is always usable: 4/4 by default, or a
/// recorded change, which the builder requires to be valid.
pub proof fn lemma_sig_in_effect_valid(
    sigs: Seq<TimeSignatureChangeEvent>,
    division: u16,
    tick: int,
)
    requires
        division >= 1,
        valid_time_signature_events(sigs, division),
    ensures
        valid_time_signature_event(sig_in_effect(sigs, tick), division),
{
    lemma_sig_change_in_effect_member(sigs, tick);
    match sig_change_in_effect(sigs, tick) {
        Some(e) => {
            let j = choose|j: int| 0 <= j < sigs.len() && sigs[j] == e;
            assert(valid_time_signature_event(sigs[j], division));
        },
        None => {},
    }
}

/// Elapsed scaled time never runs backward and grows by at most
/// `u32::MAX` per tick.
pub proof fn lemma_seconds_scaled_bounds(tempos: Seq<TempoChangeEvent>, tick: int)
    requires
        tick >= 0,
    ensures
        0 <= seconds_scaled_at(tempos, tick),
        seconds_scaled_at(tempos, tick) <= tick * 0xffff_ffff,
    decreases tick,
{
    if tick > 0 {
        lemma_seconds_scaled_bounds(tempos, tick - 1);
        assert((tick - 1) * 0xffff_ffff + 0xffff_ffff == tick * 0xffff_ffff) by (nonlinear_arith);
    }
}

/// The measure number and ticks-into-measure never exceed the tick itself.
pub proof fn lemma_measure_state_bounds(
    sigs: Seq<TimeSignatureChangeEvent>,
    division: int,
    tick: int,
)
    requires
        tick >= 0,
    ensures
        0 <= measure_state_at(sigs, division, tick).0 <= tick,
        0 <= measure_state_at(sigs, division, tick).1 <= tick,
    decreases tick,
{
    if tick > 0 {
        lemma_measure_state_bounds(sigs, division, tick - 1);
    }
}

/// The whole timeline as a sequence: entry `i` is the built entry at tick
/// `i`, for every tick up to and including `last_tick`.
pub open spec fn spec_timeline(
    tempos: Seq<TempoChangeEvent>,
    sigs: Seq<TimeSignatureChangeEvent>,
    division: u16,
    last_tick: u32,
) -> Seq<TimeAxis> {
    Seq::new((last_tick + 1) as nat, |i: int| spec_time_axis_at(tempos, sigs, division, i))
}

/// The measure and beat lengths in effect are always at least one tick.
pub proof fn lemma_lengths_at_least_one(
    sigs: Seq<TimeSignatureChangeEvent>,
    division: u16,
    tick: int,
)
    requires
        division >= 1,
        valid_time_signature_events(sigs, division),
    ensures
        ({
            let sig = sig_in_effect(sigs, tick);
            &&& spec_beat_length_ticks(division as int, sig.denominator as int) >= 1
            &&& spec_measure_length_ticks(
                division as int,
                sig.numerator as int,
                sig.denominator as int,
            ) >= 1
        }),
{
    lemma_sig_in_effect_valid(sigs, division, tick);
    let sig = sig_in_effect(sigs, tick);
    assert((division as int) * (sig.numerator as int) * 4 >= (division as int) * 4)
        by (nonlinear_arith)
        requires sig.numerator >= 1, division >= 1;
    assert((division as int) * 4 / (sig.denominator as int) >= 1) by (nonlinear_arith)
        requires (division as int) * 4 >= sig.denominator as int, sig.denominator >= 1;
    assert((division as int) * (sig.numerator as int) * 4 / (sig.denominator as int) >= 1)
        by (nonlinear_arith)
        requires
            (division as int) * (sig.numerator as int) * 4 >= sig.denominator as int,
            sig.denominator >= 1;
}

/// The time signature in effect only changes at the tick of a recorded
/// change: with no change recorded at `tick`, tick `tick` sees the same
/// signature as tick `tick - 1`.
pub proof fn lemma_sig_in_effect_step(sigs: Seq<TimeSignatureChangeEvent>, tick: int)
    requires
        forall|j: int| 0 <= j < sigs.len() ==> (#[trigger] sigs[j].at_tick) != tick,
    ensures
        sig_change_in_effect(sigs, tick) == sig_change_in_effect(sigs, tick - 1),
    decreases sigs.len(),
{
    if sigs.len() > 0 {
        assert(sigs[sigs.len() - 1] == sigs.last());
        assert(forall|j: int|
            0 <= j < sigs.drop_last().len() ==> (#[trigger] sigs.drop_last()[j].at_tick) != tick);
        lemma_sig_in_effect_step(sigs.drop_last(), tick);
    }
}

/// Every entry keeps `ticks_reset_by_beat` below the beat length and the
/// beat number within `[1, numerator]`, for any recorded changes.
pub proof fn lemma_beat_within_bounds(
    tempos: Seq<TempoChangeEvent>,
    sigs: Seq<TimeSignatureChangeEvent>,
    division: u16,
    tick: int,
)
    requires
        division >= 1,
        valid_time_signature_events(sigs, division),
        0 <= tick <= u32::MAX,
    ensures
        ({
            let e = spec_time_axis_at(tempos, sigs, division, tick);
            &&& e.ticks_reset_by_beat < e.beat_length_ticks
            &&& 1 <= e.beat <= e.time_signature_numerator
        }),
{
    lemma_lengths_at_least_one(sigs, division, tick);
    lemma_measure_state_bounds(sigs, division as int, tick);
    lemma_sig_in_effect_valid(sigs, division, tick);
    let sig = sig_in_effect(sigs, tick);
    let bl = spec_beat_length_ticks(division as int, sig.denominator as int);
    let tim = measure_state_at(sigs, division as int, tick).1;
    assert(0 <= tim % bl < bl) by (nonlinear_arith)
        requires bl >= 1, tim >= 0;
    assert(0 <= tim / bl % (sig.numerator as int) < sig.numerator as int) by (nonlinear_arith)
        requires bl >= 1, tim >= 0, sig.numerator >= 1;
}

/// When every recorded time-signature change takes effect exactly at the
/// start of a measure, `ticks_reset_by_measure` stays below the measure
/// length in effect at every tick.  (A change landing mid-measure makes
/// the running position overshoot a shrunken measure, so the bound is
/// stated under that boundary condition.)
pub proof fn lemma_ticks_into_measure_bounded(
    sigs: Seq<TimeSignatureChangeEvent>,
    division: u16,
    tick: int,
)
    requires
        division >= 1,
        valid_time_signature_events(sigs, division),
        tick >= 0,
        forall|j: int|
            0 <= j < sigs.len() ==> measure_state_at(
                sigs,
                division as int,
                (#[trigger] sigs[j].at_tick) as int,
            ).1 == 0,
    ensures
        ({
            let sig = sig_in_effect(sigs, tick);
            measure_state_at(sigs, division as int, tick).1 < spec_measure_length_ticks(
                division as int,
                sig.numerator as int,
                sig.denominator as int,
            )
        }),
    decreases tick,
{
    lemma_lengths_at_least_one(sigs, division, tick);
    if tick > 0 {
        lemma_ticks_into_measure_bounded(sigs, division, tick - 1);
        let changed = exists|j: int| 0 <= j < sigs.len() && (#[trigger] sigs[j].at_tick) == tick;
        if changed {
            let j = choose|j: int| 0 <= j < sigs.len() && (#[trigger] sigs[j].at_tick) == tick;
            assert(measure_state_at(sigs, division as int, tick).1 == 0);
        } else {
            lemma_sig_in_effect_step(sigs, tick);
        }
    }
}

/// Under the same boundary condition, every built entry keeps
/// `ticks_reset_by_measure` below its `measure_length_ticks`.
pub proof fn lemma_entry_ticks_into_measure_bounded(
    tempos: Seq<TempoChangeEvent>,
    sigs: Seq<TimeSignatureChangeEvent>,
    division: u16,
    tick: int,
)
    requires
        division >= 1,
        valid_time_signature_events(sigs, division),
        0 <= tick <= u32::MAX,
        forall|j: int|
            0 <= j < sigs.len() ==> measure_state_at(
                sigs,
                division as int,
                (#[trigger] sigs[j].at_tick) as int,
            ).1 == 0,
    ensures
        ({
            let e = spec_time_axis_at(tempos, sigs, division, tick);
            e.ticks_reset_by_measure < e.measure_length_ticks
        }),
{
    lemma_ticks_into_measure_bounded(sigs, division, tick);
    lemma_measure_state_bounds(sigs, division as int, tick);
    lemma_lengths_at_least_one(sigs, division, tick);
    lemma_sig_in_effect_valid(sigs, division, tick);
    let sig = sig_in_effect(sigs, tick);
    assert((division as int) * (sig.numerator as int) * 4 <= 0xffff * 0xff * 4) by (nonlinear_arith)
        requires division <= 0xffff, sig.numerator <= 0xff;
    assert((division as int) * (sig.numerator as int) * 4 / (sig.denominator as int) <= (
    division as int) * (sig.numerator as int) * 4) by (nonlinear_arith)
        requires
            sig.denominator >= 1,
            (division as int) * (sig.numerator as int) * 4 >= 0;
}

/// Every entry of a built timeline carries its own tick as index and
/// never decreases in elapsed time; `ticks_reset_by_beat`, `beat` and the
/// measure progression are within their bounds.
pub open spec fn timeline_wf(timeline: Seq<TimeAxis>) -> bool {
    &&& timeline.len() >= 1
    &&& timeline.len() <= 0x1_0000_0000
    &&& forall|i: int| 0 <= i < timeline.len() ==> (#[trigger] timeline[i].ticks_total) == i
    &&& timeline[0].measure == 0
    &&& timeline[0].ticks_reset_by_measure == 0
    &&& forall|i: int|
        1 <= i < timeline.len() ==> ((#[trigger] timeline[i].measure) == timeline[i - 1].measure
            || (timeline[i].measure == timeline[i - 1].measure + 1
                && timeline[i].ticks_reset_by_measure == 0))
    &&& forall|i: int|
        1 <= i < timeline.len() ==> timeline[i - 1].seconds_scaled
            <= (#[trigger] timeline[i].seconds_scaled)
}

/// A timeline whose entries are exactly the built ones is well formed:
/// entry `i` sits at tick `i`, elapsed time never runs backward, and
/// measures advance one at a time from measure 0.
pub proof fn lemma_built_timeline_wf(
    tempos: Seq<TempoChangeEvent>,
    sigs: Seq<TimeSignatureChangeEvent>,
    division: u16,
    timeline: Seq<TimeAxis>,
)
    requires
        division >= 1,
        valid_time_signature_events(sigs, division),
        1 <= timeline.len() <= 0x1_0000_0000,
        forall|i: int|
            0 <= i < timeline.len() ==> (#[trigger] timeline[i]) == spec_time_axis_at(
                tempos,
                sigs,
                division,
                i,
            ),
    ensures
        timeline_wf(timeline),
{
    assert forall|i: int| 0 <= i < timeline.len() implies (#[trigger] timeline[i].ticks_total)
        == i by {
        lemma_measure_state_bounds(sigs, division as int, i);
    }
    assert forall|i: int| 1 <= i < timeline.len() implies ((#[trigger] timeline[i].measure)
        == timeline[i - 1].measure || (timeline[i].measure == timeline[i - 1].measure + 1
        && timeline[i].ticks_reset_by_measure == 0)) by {
        lemma_measure_state_bounds(sigs, division as int, i);
        lemma_measure_state_bounds(sigs, division as int, i - 1);
    }
    assert forall|i: int| 1 <= i < timeline.len() implies timeline[i - 1].seconds_scaled <= (
    #[trigger] timeline[i].seconds_scaled) by {
        lemma_seconds_scaled_bounds(tempos, i);
        lemma_seconds_scaled_bounds(tempos, i - 1);
        assert((i - 1) * 0xffff_ffff + 0xffff_ffff == i * 0xffff_ffff) by (nonlinear_arith);
        assert(i * 0xffff_ffff <= 0x1_0000_0000 * 0xffff_ffff) by (nonlinear_arith)
            requires i <= 0x1_0000_0000;
    }
}

/// The recorded changes are ordered by the tick at which they take effect.
pub open spec fn tempos_sorted_by_tick(tempos: Seq<TempoChangeEvent>) -> bool {
    forall|a: int, b: int|
        0 <= a <= b < tempos.len() ==> (#[trigger] tempos[a].at_tick)
            <= (#[trigger] tempos[b].at_tick)
}

/// In an ordered change list, change `j` governs every tick from its own
/// `at_tick` up to (not including) the next change's tick: the switch to a
/// new tempo happens exactly at its recorded tick.
pub proof fn lemma_tempo_effect_window(tempos: Seq<TempoChangeEvent>, j: int, tick: int)
    requires
        tempos_sorted_by_tick(tempos),
        0 <= j < tempos.len(),
        tempos[j].at_tick <= tick,
        j == tempos.len() - 1 || tick < tempos[j + 1].at_tick,
    ensures
        tempo_change_in_effect(tempos, tick) == Some(tempos[j]),
        tempo_us_in_effect(tempos, tick) == tempos[j].microseconds_per_quarter,
    decreases tempos.len(),
{
    if j == tempos.len() - 1 {
        lemma_tempo_change_in_effect_member(tempos.drop_last(), tick);
        match tempo_change_in_effect(tempos.drop_last(), tick) {
            Some(p) => {
                let k = choose|k: int|
                    0 <= k < tempos.drop_last().len() && tempos.drop_last()[k] == p;
                assert(tempos[k] == p);
            },
            None => {},
        }
        assert(tempos[tempos.len() - 1] == tempos.last());
    } else {
        assert(tempos.last() == tempos[tempos.len() - 1]);
        assert(tempos[tempos.len() - 1].at_tick >= tempos[j + 1].at_tick);
        assert(forall|a: int, b: int|
            0 <= a <= b < tempos.drop_last().len() ==> (#[trigger] tempos.drop_last()[a].at_tick)
                <= (#[trigger] tempos.drop_last()[b].at_tick));
        lemma_tempo_effect_window(tempos.drop_last(), j, tick);
    }
}

/// Before the first recorded change takes effect, the default tempo of
/// 120 beats per minute governs.
pub proof fn lemma_tempo_before_first(tempos: Seq<TempoChangeEvent>, tick: int)
    requires
        forall|k: int| 0 <= k < tempos.len() ==> (#[trigger] tempos[k].at_tick) > tick,
    ensures
        tempo_change_in_effect(tempos, tick) is None,
        tempo_us_in_effect(tempos, tick) == DEFAULT_TEMPO_US_PER_QUARTER,
    decreases tempos.len(),
{
    if tempos.len() > 0 {
        assert(tempos[tempos.len() - 1] == tempos.last());
        assert(forall|k: int|
            0 <= k < tempos.drop_last().len() ==> (#[trigger] tempos.drop_last()[k].at_tick)
                > tick);
        lemma_tempo_before_first(tempos.drop_last(), tick);
    }
}

/// Under one tempo throughout, the elapsed scaled time at tick `i` is
/// exactly `i` times the microseconds-per-quarter value: each tick lasts
/// `microseconds_per_quarter / (division * 1_000_000)` seconds.
pub proof fn lemma_uniform_tempo_seconds(tempos: Seq<TempoChangeEvent>, us: u32, tick: int)
    requires
        tick >= 0,
        forall|t: int| 0 <= t ==> #[trigger] tempo_us_in_effect(tempos, t) == us,
    ensures
        seconds_scaled_at(tempos, tick) == tick * us,
    decreases tick,
{
    if tick > 0 {
        lemma_uniform_tempo_seconds(tempos, us, tick - 1);
        assert((tick - 1) * us + us == tick * us) by (nonlinear_arith);
    } else {
        assert(0int * us == 0) by (nonlinear_arith);
    }
}

/// With no tempo change recorded, the default 120 beats per minute
/// governs throughout: the elapsed scaled time at tick `i` is exactly
/// `i * 500_000`.
pub proof fn lemma_default_tempo_seconds(tempos: Seq<TempoChangeEvent>, tick: int)
    requires
        tempos.len() == 0,
        tick >= 0,
    ensures
        seconds_scaled_at(tempos, tick) == tick * DEFAULT_TEMPO_US_PER_QUARTER,
{
    lemma_uniform_tempo_seconds(tempos, DEFAULT_TEMPO_US_PER_QUARTER, tick);
}

/// With a single tempo change taking effect at tick 0, that tempo
/// governs throughout: the elapsed scaled time at tick `i` is exactly
/// `i` times its microseconds-per-quarter value, so each tick lasts
/// `microseconds_per_quarter / (division * 1_000_000)` seconds.
pub proof fn lemma_single_tempo_seconds(tempos: Seq<TempoChangeEvent>, tick: int)
    requires
        tempos.len() == 1,
        tempos[0].at_tick == 0,
        tick >= 0,
    ensures
        seconds_scaled_at(tempos, tick) == tick * tempos[0].microseconds_per_quarter,
{
    assert forall|t: int| 0 <= t implies #[trigger] tempo_us_in_effect(tempos, t)
        == tempos[0].microseconds_per_quarter by {
        lemma_tempo_effect_window(tempos, 0, t);
    }
    lemma_uniform_tempo_seconds(tempos, tempos[0].microseconds_per_quarter, tick);
}

/// Compute the tempo in effect at `tick` by scanning the recorded
/// changes once, keeping the best candidate seen so far.
fn tempo_change_at(tempos: &Vec<TempoChangeEvent>, tick: u32) -> (r: Option<TempoChangeEvent>)
    ensures
        r == tempo_change_in_effect(tempos@, tick as int),
{
    let mut best: Option<TempoChangeEvent> = None;
    let mut i: usize = 0;
    while i < tempos.len()
        invariant
            0 <= i <= tempos@.len(),
            best == tempo_change_in_effect(tempos@.take(i as int), tick as int),
        decreases tempos@.len() - i,
    {
        let e = tempos[i];
        let matched = match best {
            None => e.at_tick <= tick,
            Some(b) => e.at_tick <= tick && b.at_tick <= e.at_tick,
        };
        proof {
            assert(tempos@.take(i + 1).drop_last() =~= tempos@.take(i as int));
            assert(tempos@.take(i + 1).last() == tempos@[i as int]);
        }
        if matched {
            best = Some(e);
        }
        i = i + 1;
    }
    proof {
        assert(tempos@.take(tempos@.len() as int) =~= tempos@);
    }
    best
}

/// Compute the time signature change in effect at `tick` by scanning the
/// recorded changes once.
fn sig_change_at(sigs: &Vec<TimeSignatureChangeEvent>, tick: u32) -> (r: Option<
    TimeSignatureChangeEvent,
>)
    ensures
        r == sig_change_in_effect(sigs@, tick as int),
{
    let mut best: Option<TimeSignatureChangeEvent> = None;
    let mut i: usize = 0;
    while i < sigs.len()
        invariant
            0 <= i <= sigs@.len(),
            best == sig_change_in_effect(sigs@.take(i as int), tick as int),
        decreases sigs@.len() - i,
    {
        let e = sigs[i];
        let matched = match best {
            None => e.at_tick <= tick,
            Some(b) => e.at_tick <= tick && b.at_tick <= e.at_tick,
        };
        proof {
            assert(sigs@.take(i + 1).drop_last() =~= sigs@.take(i as int));
            assert(sigs@.take(i + 1).last() == sigs@[i as int]);
        }
        if matched {
            best = Some(e);
        }
        i = i + 1;
    }
    proof {
        assert(sigs@.take(sigs@.len() as int) =~= sigs@);
    }
    best
}

/// Build the timeline: one `TimeAxis` entry for every tick from 0 to
/// `last_tick` inclusive.  Entry `i` describes tick `i`: the tempo and
/// time signature most recently taking effect at or before `i`, the
/// exact elapsed scaled time, and the measure/beat position reached by
/// advancing tick by tick from measure 0.
pub fn build_time_axis(
    tempos: &Vec<TempoChangeEvent>,
    sigs: &Vec<TimeSignatureChangeEvent>,
    division: u16,
    last_tick: u32,
) -> (r: Vec<TimeAxis>)
    requires
        division >= 1,
        valid_time_signature_events(sigs@, division),
    ensures
        r@.len() == last_tick + 1,
        forall|i: int|
            0 <= i <= last_tick ==> r@[i] == spec_time_axis_at(tempos@, sigs@, division, i),
{
    let n: u64 = last_tick as u64 + 1;
    let mut r: Vec<TimeAxis> = Vec::new();
    let mut seconds_scaled: u64 = 0;
    let mut measure: u64 = 0;
    let mut ticks_reset_by_measure: u64 = 0;
    while (r.len() as u64) < n
        invariant
            division >= 1,
            valid_time_signature_events(sigs@, division),
            n == last_tick as int + 1,
            r@.len() <= n,
            forall|i: int|
                0 <= i < r@.len() ==> r@[i] == spec_time_axis_at(tempos@, sigs@, division, i),
            seconds_scaled == seconds_scaled_at(tempos@, r@.len() as int),
            measure == measure_state_at(sigs@, division as int, r@.len() as int).0,
            ticks_reset_by_measure == measure_state_at(sigs@, division as int, r@.len() as int).1,
        decreases n - r@.len(),
    {
        let ghost t: int = r@.len() as int;
        let tick: u32 = r.len() as u32;
        let sig = match sig_change_at(sigs, tick) {
            None => TimeSignatureChangeEvent {
                numerator: 4,
                denominator: 4,
                midi_clocks_per_metronome_click: 24,
                thirty_seconds_notes_per_quarter_note: 8,
                at_tick: 0,
            },
            Some(e) => e,
        };
        proof {
            lemma_sig_in_effect_valid(sigs@, division, t);
            lemma_measure_state_bounds(sigs@, division as int, t);
            lemma_seconds_scaled_bounds(tempos@, t);
            assert((division as int) * (sig.numerator as int) <= 0xffff * 0xff)
                by (nonlinear_arith)
                requires division <= 0xffff, sig.numerator <= 0xff;
            assert(t * 0xffff_ffff + 0xffff_ffff <= 0x1_0000_0000 * 0xffff_ffff)
                by (nonlinear_arith)
                requires t <= 0xffff_ffff;
            assert((division as int) * (sig.numerator as int) * 4 >= (division as int) * 4)
                by (nonlinear_arith)
                requires sig.numerator >= 1, division >= 1;
            assert((division as int) * 4 / (sig.denominator as int) >= 1) by (nonlinear_arith)
                requires
                    (division as int) * 4 >= sig.denominator as int,
                    sig.denominator >= 1;
            assert((division as int) * (sig.numerator as int) * 4 / (sig.denominator as int) >= 1)
                by (nonlinear_arith)
                requires
                    (division as int) * (sig.numerator as int) * 4 >= sig.denominator as int,
                    sig.denominator >= 1;
        }
        let us: u32 = match tempo_change_at(tempos, tick) {
            None => DEFAULT_TEMPO_US_PER_QUARTER,
            Some(e) => e.microseconds_per_quarter,
        };
        let measure_length_ticks: u32 =
            (division as u32) * (sig.numerator as u32) * 4 / (sig.denominator as u32);
        let beat_length_ticks: u32 = (division as u32) * 4 / (sig.denominator as u32);
        let ticks_into_measure: u32 = ticks_reset_by_measure as u32;
        let entry = TimeAxis {
            ticks_total: tick,
            seconds_scaled,
            measure: measure as u32,
            ticks_reset_by_measure: ticks_into_measure,
            beat: ticks_into_measure / beat_length_ticks % (sig.numerator as u32) + 1,
            ticks_reset_by_beat: ticks_into_measure % beat_length_ticks,
            measure_length_ticks,
            beat_length_ticks,
            tempo_us_per_quarter: us,
            time_signature_numerator: sig.numerator,
            time_signature_denominator: sig.denominator,
            time_signature_midi_clocks_per_metronome_click: sig.midi_clocks_per_metronome_click,
            time_signature_thirty_seconds_notes_per_quarter_note:
                sig.thirty_seconds_notes_per_quarter_note,
        };
        assert(entry == spec_time_axis_at(tempos@, sigs@, division, t));
        r.push(entry);
        seconds_scaled = seconds_scaled + us as u64;
        if ticks_reset_by_measure == measure_length_ticks as u64 - 1 {
            measure = measure + 1;
            ticks_reset_by_measure = 0;
        } else {
            ticks_reset_by_measure = ticks_reset_by_measure + 1;
        }
    }
    r
}

} // verus!
