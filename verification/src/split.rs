//! The measure-boundary splitter: a note whose ends lie in different
//! measures is replaced by per-measure fragments whose lengths sum to the
//! original note's length.

use vstd::prelude::*;

use crate::notes::MidiNote;
use crate::notes::MidiNoteView;
use crate::notes::channel_view;
use crate::notes::channel_notes_wf;
use crate::notes::note_ends_in_timeline;
use crate::notes::notes_view;
use crate::notes::spec_duration_ticks;
use crate::notes::state_notes_wf;
use crate::timeline::timeline_wf;
use crate::types::TimeAxis;

verus! {

/// A resolved note anchored in the timeline: closed, with both ends
/// genuine timeline entries and the length matching them.
pub open spec fn note_resolved_in(n: MidiNoteView, timeline: Seq<TimeAxis>) -> bool {
    &&& n.note_off_time_axis is Some
    &&& note_ends_in_timeline(n, timeline)
}

/// The fragment starts and ends in the same measure.
pub open spec fn fragment_confined(f: MidiNoteView) -> bool {
    &&& f.note_off_time_axis is Some
    &&& f.note_on_time_axis.measure == f.note_off_time_axis.unwrap().measure
}

/// The note ends exactly on the first tick of the measure after its
/// own: zero residual in the next measure, so it is kept whole rather
/// than split into a zero-length fragment.
pub open spec fn ends_on_measure_boundary(f: MidiNoteView) -> bool {
    &&& f.note_off_time_axis is Some
    &&& f.note_on_time_axis.measure + 1 == f.note_off_time_axis.unwrap().measure
    &&& f.note_off_time_axis.unwrap().beat == 1
    &&& f.note_off_time_axis.unwrap().ticks_reset_by_measure == 0
}

/// The total length in ticks of a list of fragments.
pub open spec fn sum_durations(frags: Seq<MidiNoteView>) -> int
    decreases frags.len(),
{
    if frags.len() == 0 {
        0
    } else {
        sum_durations(frags.drop_last()) + frags.last().note_length_ticks.unwrap()
    }
}

/// The greatest index at or below `i` whose entry lies in measure `m`,
/// or -1 when there is none.
pub open spec fn find_last_of_measure_from(timeline: Seq<TimeAxis>, m: u32, i: int) -> int
    decreases i + 1,
{
    if i < 0 || i >= timeline.len() {
        -1
    } else if timeline[i].measure == m {
        i
    } else {
        find_last_of_measure_from(timeline, m, i - 1)
    }
}

/// The index of the last timeline entry in measure `m`, or -1 when the
/// measure does not occur.
pub open spec fn spec_find_last_of_measure(timeline: Seq<TimeAxis>, m: u32) -> int {
    find_last_of_measure_from(timeline, m, timeline.len() - 1)
}

/// What the backward search guarantees: a hit is the last one, a miss
/// means the measure does not occur up to the start index.
proof fn lemma_find_last_from_correct(timeline: Seq<TimeAxis>, m: u32, i: int)
    requires
        i < timeline.len(),
    ensures
        ({
            let r = find_last_of_measure_from(timeline, m, i);
            &&& (r == -1 ==> forall|j: int| 0 <= j <= i ==> timeline[j].measure != m)
            &&& (r != -1 ==> 0 <= r <= i && timeline[r].measure == m && forall|j: int|
                r < j <= i ==> timeline[j].measure != m)
        }),
    decreases i + 1,
{
    if i >= 0 && timeline[i].measure != m {
        lemma_find_last_from_correct(timeline, m, i - 1);
    }
}

/// The backward search over the whole timeline finds the last entry of a
/// measure, when the measure occurs at all.
pub proof fn lemma_find_last_of_measure_correct(timeline: Seq<TimeAxis>, m: u32)
    ensures
        ({
            let r = spec_find_last_of_measure(timeline, m);
            &&& (r == -1 ==> forall|j: int| 0 <= j < timeline.len() ==> timeline[j].measure != m)
            &&& (r != -1 ==> 0 <= r < timeline.len() && timeline[r].measure == m && forall|j: int|
                r < j < timeline.len() ==> timeline[j].measure != m)
        }),
{
    lemma_find_last_from_correct(timeline, m, timeline.len() - 1);
}

/// In a well-formed timeline, measures never decrease along the ticks.
pub proof fn lemma_timeline_measure_monotonic(timeline: Seq<TimeAxis>, i: int, j: int)
    requires
        timeline_wf(timeline),
        0 <= i <= j < timeline.len(),
    ensures
        timeline[i].measure <= timeline[j].measure,
    decreases j - i,
{
    if i < j {
        lemma_timeline_measure_monotonic(timeline, i, j - 1);
    }
}

/// The fragments a measure-crossing note is split into, counting down
/// `fuel` measures from the note's on-measure to its off-measure: every
/// measure but the last contributes a fragment ending at that measure's
/// last entry, and the remainder continues from the next measure's first
/// entry; the last measure keeps the original off end.
pub open spec fn spec_split_rec(note: MidiNoteView, timeline: Seq<TimeAxis>, fuel: nat) -> Seq<
    MidiNoteView,
>
    decreases fuel,
{
    if fuel == 0 {
        seq![note]
    } else {
        let on = note.note_on_time_axis;
        let off = note.note_off_time_axis.unwrap();
        let last_i = spec_find_last_of_measure(timeline, on.measure);
        let last_ax = timeline[last_i];
        let frag = MidiNoteView {
            note_off_time_axis: Some(last_ax),
            note_length_ticks: Some(
                spec_boundary_fragment_len(on.ticks_total, last_ax.ticks_total),
            ),
            ..note
        };
        let first_ax = timeline[last_i + 1];
        let cont = MidiNoteView {
            note_on_time_axis: first_ax,
            note_length_ticks: Some(
                spec_duration_ticks(first_ax.ticks_total, off.ticks_total),
            ),
            ..note
        };
        seq![frag] + spec_split_rec(cont, timeline, (fuel - 1) as nat)
    }
}

/// Length of a fragment cut at a measure's last entry: the note sounds
/// through that entry, and the continuation picks up one tick later.
pub open spec fn spec_boundary_fragment_len(on_tick: u32, last_tick: u32) -> u32 {
    if last_tick >= on_tick {
        (last_tick - on_tick + 1) as u32
    } else {
        0
    }
}

/// What splitting makes of one closed note.  A note confined to one
/// measure, or ending exactly on the first tick of the following measure,
/// is kept whole; a note whose off end sits before its on end (possible
/// when another track closed it early) vanishes; anything else becomes
/// one fragment per measure crossed.
pub open spec fn spec_split_note(note: MidiNoteView, timeline: Seq<TimeAxis>) -> Seq<
    MidiNoteView,
> {
    let on = note.note_on_time_axis;
    let off = note.note_off_time_axis.unwrap();
    if on.measure == off.measure || (on.measure + 1 == off.measure && off.beat == 1
        && off.ticks_reset_by_measure == 0) {
        seq![note]
    } else if on.measure > off.measure {
        Seq::empty()
    } else {
        spec_split_rec(note, timeline, (off.measure - on.measure) as nat)
    }
}

/// What splitting makes of one channel: open notes are dropped, closed
/// ones replaced by their fragments, in order.
pub open spec fn spec_split_channel(notes: Seq<MidiNoteView>, timeline: Seq<TimeAxis>) -> Seq<
    MidiNoteView,
>
    decreases notes.len(),
{
    if notes.len() == 0 {
        Seq::empty()
    } else {
        spec_split_channel(notes.drop_last(), timeline) + (
        if notes.last().note_off_time_axis is Some {
            spec_split_note(notes.last(), timeline)
        } else {
            Seq::empty()
        })
    }
}

/// The facts one splitting step rests on: the last entry of the note's
/// on-measure exists, sits between the note's ends, and is directly
/// followed by the first entry of the next measure.
proof fn lemma_split_step(note: MidiNoteView, timeline: Seq<TimeAxis>)
    requires
        timeline_wf(timeline),
        note_resolved_in(note, timeline),
        note.note_on_time_axis.measure < note.note_off_time_axis.unwrap().measure,
    ensures
        ({
            let on = note.note_on_time_axis;
            let off = note.note_off_time_axis.unwrap();
            let last_i = spec_find_last_of_measure(timeline, on.measure);
            &&& on.ticks_total <= last_i < off.ticks_total
            &&& timeline[last_i].measure == on.measure
            &&& timeline[last_i].ticks_total == last_i
            &&& last_i + 1 < timeline.len()
            &&& timeline[last_i + 1].measure == on.measure + 1
            &&& timeline[last_i + 1].ticks_total == last_i + 1
            &&& timeline[last_i + 1].ticks_reset_by_measure == 0
        }),
{
    let on = note.note_on_time_axis;
    let off = note.note_off_time_axis.unwrap();
    let on_i = on.ticks_total as int;
    let off_i = off.ticks_total as int;
    let last_i = spec_find_last_of_measure(timeline, on.measure);
    lemma_find_last_of_measure_correct(timeline, on.measure);
    assert(timeline[on_i].measure == on.measure);
    assert(last_i != -1);
    if last_i < on_i {
        assert(timeline[on_i].measure != on.measure);
    }
    assert(on_i <= last_i);
    if off_i <= last_i {
        lemma_timeline_measure_monotonic(timeline, off_i, last_i);
        assert(off.measure <= on.measure);
    }
    assert(last_i < off_i);
    assert(timeline[last_i + 1].measure == on.measure || (timeline[last_i + 1].measure
        == on.measure + 1 && timeline[last_i + 1].ticks_reset_by_measure == 0));
    assert(timeline[last_i + 1].measure != on.measure);
}

/// Concatenating one fragment in front adds its length to the total.
proof fn lemma_sum_durations_cons(x: MidiNoteView, s: Seq<MidiNoteView>)
    ensures
        sum_durations(seq![x] + s) == x.note_length_ticks.unwrap() + sum_durations(s),
    decreases s.len(),
{
    if s.len() == 0 {
        assert(seq![x] + s =~= seq![x]);
        assert(sum_durations(seq![x]) == sum_durations(seq![x].drop_last()) + x.note_length_ticks.unwrap());
        assert(seq![x].drop_last() =~= Seq::<MidiNoteView>::empty());
    } else {
        lemma_sum_durations_cons(x, s.drop_last());
        assert((seq![x] + s).drop_last() =~= seq![x] + s.drop_last());
        assert((seq![x] + s).last() == s.last());
    }
}

/// Splitting a note across `fuel` measure boundaries yields fragments
/// whose lengths sum to the tick span between the note's ends, each
/// fragment confined to one measure.
proof fn lemma_split_rec_correct(note: MidiNoteView, timeline: Seq<TimeAxis>, fuel: nat)
    requires
        timeline_wf(timeline),
        note_resolved_in(note, timeline),
        note.note_on_time_axis.ticks_total <= note.note_off_time_axis.unwrap().ticks_total,
        note.note_on_time_axis.measure + fuel == note.note_off_time_axis.unwrap().measure,
    ensures
        ({
            let frags = spec_split_rec(note, timeline, fuel);
            let on = note.note_on_time_axis;
            let off = note.note_off_time_axis.unwrap();
            &&& sum_durations(frags) == off.ticks_total - on.ticks_total
            &&& forall|k: int| 0 <= k < frags.len() ==> fragment_confined(#[trigger] frags[k])
        }),
    decreases fuel,
{
    let on = note.note_on_time_axis;
    let off = note.note_off_time_axis.unwrap();
    let frags = spec_split_rec(note, timeline, fuel);
    if fuel == 0 {
        assert(frags =~= seq![note]);
        assert(frags.drop_last() =~= Seq::<MidiNoteView>::empty());
        assert(sum_durations(Seq::<MidiNoteView>::empty()) == 0);
        assert(note.note_length_ticks == Some(
            spec_duration_ticks(on.ticks_total, off.ticks_total),
        ));
    } else {
        lemma_split_step(note, timeline);
        let last_i = spec_find_last_of_measure(timeline, on.measure);
        let last_ax = timeline[last_i];
        let first_ax = timeline[last_i + 1];
        let frag = MidiNoteView {
            note_off_time_axis: Some(last_ax),
            note_length_ticks: Some(
                spec_boundary_fragment_len(on.ticks_total, last_ax.ticks_total),
            ),
            ..note
        };
        let cont = MidiNoteView {
            note_on_time_axis: first_ax,
            note_length_ticks: Some(
                spec_duration_ticks(first_ax.ticks_total, off.ticks_total),
            ),
            ..note
        };
        assert(note_resolved_in(cont, timeline));
        lemma_split_rec_correct(cont, timeline, (fuel - 1) as nat);
        lemma_sum_durations_cons(frag, spec_split_rec(cont, timeline, (fuel - 1) as nat));
        assert(frags == seq![frag] + spec_split_rec(cont, timeline, (fuel - 1) as nat));
        assert(frag.note_length_ticks.unwrap() == last_i - on.ticks_total + 1);
        assert(sum_durations(spec_split_rec(cont, timeline, (fuel - 1) as nat))
            == off.ticks_total - (last_i + 1));
        assert(sum_durations(frags) == off.ticks_total - on.ticks_total);
        assert(fragment_confined(frag));
        assert forall|k: int| 0 <= k < frags.len() implies fragment_confined(
            #[trigger] frags[k],
        ) by {
            if k > 0 {
                assert(frags[k] == spec_split_rec(cont, timeline, (fuel - 1) as nat)[k - 1]);
            }
        }
    }
}

/// The lengths of the fragments a note is split into sum exactly to the
/// note's own length, and every fragment starts and ends in one measure —
/// except a note kept whole because it ends exactly on the first tick of
/// the measure after its own.
#[verifier::rlimit(60)]
pub proof fn lemma_split_preserves_duration(note: MidiNoteView, timeline: Seq<TimeAxis>)
    requires
        timeline_wf(timeline),
        note_resolved_in(note, timeline),
    ensures
        ({
            let frags = spec_split_note(note, timeline);
            &&& sum_durations(frags) == note.note_length_ticks.unwrap()
            &&& forall|k: int|
                0 <= k < frags.len() ==> fragment_confined(#[trigger] frags[k])
                    || ends_on_measure_boundary(frags[k])
        }),
{
    let on = note.note_on_time_axis;
    let off = note.note_off_time_axis.unwrap();
    let frags = spec_split_note(note, timeline);
    if on.measure == off.measure || (on.measure + 1 == off.measure && off.beat == 1
        && off.ticks_reset_by_measure == 0) {
        assert(frags =~= seq![note]);
        assert(frags.drop_last() =~= Seq::<MidiNoteView>::empty());
        assert(sum_durations(Seq::<MidiNoteView>::empty()) == 0);
    } else if on.measure > off.measure {
        if off.ticks_total >= on.ticks_total {
            lemma_timeline_measure_monotonic(
                timeline,
                on.ticks_total as int,
                off.ticks_total as int,
            );
            assert(timeline[on.ticks_total as int] == on);
            assert(timeline[off.ticks_total as int] == off);
            assert(false);
        }
        assert(note.note_length_ticks.unwrap() == 0);
        assert(frags =~= Seq::<MidiNoteView>::empty());
    } else {
        if off.ticks_total < on.ticks_total {
            lemma_timeline_measure_monotonic(
                timeline,
                off.ticks_total as int,
                on.ticks_total as int,
            );
            assert(false);
        }
        lemma_split_rec_correct(note, timeline, (off.measure - on.measure) as nat);
    }
}

/// Every note a split channel holds starts and ends in one measure,
/// except a note kept whole because it ends exactly on the first tick of
/// the measure after its own.
pub proof fn lemma_split_channel_confined(notes: Seq<MidiNoteView>, timeline: Seq<TimeAxis>)
    requires
        timeline_wf(timeline),
        channel_notes_wf(notes, timeline),
    ensures
        forall|k: int|
            0 <= k < spec_split_channel(notes, timeline).len() ==> fragment_confined(
                #[trigger] spec_split_channel(notes, timeline)[k],
            ) || ends_on_measure_boundary(spec_split_channel(notes, timeline)[k]),
    decreases notes.len(),
{
    if notes.len() > 0 {
        assert forall|j: int| 0 <= j < notes.drop_last().len() implies note_ends_in_timeline(
            #[trigger] notes.drop_last()[j],
            timeline,
        ) by {
            assert(note_ends_in_timeline(notes[j], timeline));
        }
        lemma_split_channel_confined(notes.drop_last(), timeline);
        let prefix = spec_split_channel(notes.drop_last(), timeline);
        let whole = spec_split_channel(notes, timeline);
        if notes.last().note_off_time_axis is Some {
            assert(note_ends_in_timeline(notes[notes.len() - 1], timeline));
            lemma_split_preserves_duration(notes.last(), timeline);
        }
        assert forall|k: int| 0 <= k < whole.len() implies fragment_confined(
            #[trigger] whole[k],
        ) || ends_on_measure_boundary(whole[k]) by {
            if k < prefix.len() {
                assert(whole[k] == prefix[k]);
            } else {
                assert(whole[k] == spec_split_note(notes.last(), timeline)[k - prefix.len()]);
            }
        }
    }
}

/// Find the last timeline entry of measure `m`, scanning backward.
fn find_last_of_measure(timeline: &Vec<TimeAxis>, m: u32) -> (r: Option<usize>)
    ensures
        match r {
            None => spec_find_last_of_measure(timeline@, m) == -1,
            Some(i) => i < timeline@.len() && spec_find_last_of_measure(timeline@, m) == i as int,
        },
{
    let mut i: usize = timeline.len();
    while i > 0
        invariant
            0 <= i <= timeline@.len(),
            spec_find_last_of_measure(timeline@, m) == find_last_of_measure_from(
                timeline@,
                m,
                i - 1,
            ),
        decreases i,
    {
        if timeline[i - 1].measure == m {
            return Some(i - 1);
        }
        i = i - 1;
    }
    None
}

/// Append to `out` what one closed note splits into: the note itself
/// when it stays within one measure (or ends exactly on the next
/// measure's first tick), nothing when its ends are out of order, and
/// one fragment per crossed measure otherwise.
fn split_note_into(out: &mut Vec<MidiNote>, note: MidiNote, timeline: &Vec<TimeAxis>)
    requires
        timeline_wf(timeline@),
        note@.note_off_time_axis is Some,
        note_ends_in_timeline(note@, timeline@),
    ensures
        channel_view(final(out)@) == channel_view(old(out)@) + spec_split_note(note@, timeline@),
{
    let ghost base = channel_view(old(out)@);
    let ghost note0 = note@;
    let off: TimeAxis = match note.note_off_time_axis {
        Some(a) => a,
        None => {
            proof {
                assert(false);
            }
            TimeAxis::default()
        },
    };
    let on = note.note_on_time_axis;
    if on.measure == off.measure || (off.measure >= 1 && on.measure == off.measure - 1 && off.beat
        == 1 && off.ticks_reset_by_measure == 0) {
        out.push(note);
        proof {
            assert(spec_split_note(note0, timeline@) =~= seq![note0]);
            assert(channel_view(out@) =~= base + seq![note0]);
        }
        return;
    }
    if on.measure > off.measure {
        proof {
            assert(spec_split_note(note0, timeline@) =~= Seq::<MidiNoteView>::empty());
            assert(channel_view(out@) =~= base + Seq::<MidiNoteView>::empty());
        }
        return;
    }
    let ghost fuel0 = (off.measure - on.measure) as nat;
    proof {
        if off.ticks_total < on.ticks_total {
            lemma_timeline_measure_monotonic(
                timeline@,
                off.ticks_total as int,
                on.ticks_total as int,
            );
            assert(false);
        }
        assert(spec_split_note(note0, timeline@) == spec_split_rec(note0, timeline@, fuel0));
    }
    let mut cur = note;
    while cur.note_on_time_axis.measure < off.measure
        invariant
            timeline_wf(timeline@),
            note_resolved_in(cur@, timeline@),
            cur@.note_off_time_axis == Some(off),
            cur@.note_on_time_axis.ticks_total <= off.ticks_total,
            cur@.note_on_time_axis.measure <= off.measure,
            channel_view(out@) + spec_split_rec(
                cur@,
                timeline@,
                (off.measure - cur@.note_on_time_axis.measure) as nat,
            ) == base + spec_split_rec(note0, timeline@, fuel0),
        decreases off.measure - cur@.note_on_time_axis.measure,
    {
        let ghost cur0 = cur@;
        let ghost fuel = (off.measure - cur@.note_on_time_axis.measure) as nat;
        proof {
            lemma_split_step(cur@, timeline@);
        }
        let m = cur.note_on_time_axis.measure;
        let last_i: usize = match find_last_of_measure(timeline, m) {
            Some(i) => i,
            None => {
                proof {
                    assert(false);
                }
                0
            },
        };
        let last_ax = timeline[last_i];
        let mut frag = cur.clone();
        frag.note_off_time_axis = Some(last_ax);
        frag.note_length_ticks = Some(
            last_ax.ticks_total - cur.note_on_time_axis.ticks_total + 1,
        );
        let ghost out_before = channel_view(out@);
        out.push(frag);
        let first_ax = timeline[last_i + 1];
        cur.note_on_time_axis = first_ax;
        cur.note_length_ticks = Some(off.ticks_total - first_ax.ticks_total);
        proof {
            let fragv = MidiNoteView {
                note_off_time_axis: Some(last_ax),
                note_length_ticks: Some(
                    spec_boundary_fragment_len(
                        cur0.note_on_time_axis.ticks_total,
                        last_ax.ticks_total,
                    ),
                ),
                ..cur0
            };
            let contv = MidiNoteView {
                note_on_time_axis: first_ax,
                note_length_ticks: Some(
                    spec_duration_ticks(first_ax.ticks_total, off.ticks_total),
                ),
                ..cur0
            };
            assert(channel_view(out@) =~= out_before + seq![fragv]);
            assert(cur@ == contv);
            assert(spec_split_rec(cur0, timeline@, fuel) == seq![fragv] + spec_split_rec(
                contv,
                timeline@,
                (fuel - 1) as nat,
            ));
            assert((out_before + seq![fragv]) + spec_split_rec(
                contv,
                timeline@,
                (fuel - 1) as nat,
            ) =~= out_before + (seq![fragv] + spec_split_rec(contv, timeline@, (fuel - 1) as nat)));
        }
    }
    let ghost out_before = channel_view(out@);
    let ghost curv = cur@;
    proof {
        assert(spec_split_rec(curv, timeline@, 0) =~= seq![curv]);
    }
    out.push(cur);
    proof {
        assert(channel_view(out@) =~= out_before + seq![curv]);
    }
}

/// Split every closed note of every channel at its measure boundaries;
/// notes the file never closed are dropped.
pub fn split_midi_notes(notes: Vec<Vec<MidiNote>>, timeline: &Vec<TimeAxis>) -> (r: Vec<
    Vec<MidiNote>,
>)
    requires
        timeline_wf(timeline@),
        state_notes_wf(notes_view(notes@), timeline@),
    ensures
        r@.len() == notes@.len(),
        forall|c: int|
            0 <= c < notes@.len() ==> channel_view(#[trigger] r@[c]@) == spec_split_channel(
                notes_view(notes@)[c],
                timeline@,
            ),
{
    let mut r: Vec<Vec<MidiNote>> = Vec::new();
    let mut c: usize = 0;
    while c < notes.len()
        invariant
            timeline_wf(timeline@),
            state_notes_wf(notes_view(notes@), timeline@),
            0 <= c <= notes@.len(),
            r@.len() == c,
            forall|d: int|
                0 <= d < c ==> channel_view(#[trigger] r@[d]@) == spec_split_channel(
                    notes_view(notes@)[d],
                    timeline@,
                ),
        decreases notes@.len() - c,
    {
        let channel: &Vec<MidiNote> = &notes[c];
        let ghost chv = notes_view(notes@)[c as int];
        proof {
            assert(chv == channel_view(channel@));
        }
        let mut out: Vec<MidiNote> = Vec::new();
        let mut i: usize = 0;
        while i < channel.len()
            invariant
                timeline_wf(timeline@),
                channel == &notes[c as int],
                0 <= c < notes@.len(),
                chv == channel_view(channel@),
                chv == notes_view(notes@)[c as int],
                state_notes_wf(notes_view(notes@), timeline@),
                0 <= i <= chv.len(),
                chv.len() == channel@.len(),
                channel_view(out@) == spec_split_channel(chv.take(i as int), timeline@),
            decreases chv.len() - i,
        {
            proof {
                assert(note_ends_in_timeline(chv[i as int], timeline@));
                assert(chv.take(i + 1).drop_last() =~= chv.take(i as int));
                assert(chv.take(i + 1).last() == chv[i as int]);
            }
            let is_closed = channel[i].note_off_time_axis.is_some();
            if is_closed {
                let cloned = channel[i].clone();
                split_note_into(&mut out, cloned, timeline);
            } else {
                proof {
                    assert(channel_view(out@) + Seq::<MidiNoteView>::empty() =~= channel_view(
                        out@,
                    ));
                }
            }
            i = i + 1;
        }
        proof {
            assert(chv.take(chv.len() as int) =~= chv);
        }
        r.push(out);
        c = c + 1;
    }
    r
}

} // verus!
