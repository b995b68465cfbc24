//! The playback position resolver: which timeline entry is in effect
//! after a given elapsed time.  Pure and stateless; the host calls it on
//! every frame.

use vstd::prelude::*;

use crate::types::TimeAxis;

verus! {

/// Elapsed time never decreases along the timeline.
pub open spec fn seconds_monotone(timeline: Seq<TimeAxis>) -> bool {
    forall|i: int|
        1 <= i < timeline.len() ==> timeline[i - 1].seconds_scaled <= (#[trigger] timeline[
            i
        ].seconds_scaled)
}

/// The index the resolver returns: the greatest index whose entry's
/// elapsed time is at or before `elapsed`, or 0 when even the first entry
/// lies in the future (start clamp).  An `elapsed` beyond the last entry
/// lands on the last entry (end-of-piece clamp).
pub open spec fn spec_resolve_index(timeline: Seq<TimeAxis>, elapsed: u64) -> int
    decreases timeline.len(),
{
    if timeline.len() <= 1 {
        0
    } else if timeline.last().seconds_scaled <= elapsed {
        timeline.len() - 1
    } else {
        spec_resolve_index(timeline.drop_last(), elapsed)
    }
}

/// What the resolved index satisfies: it is in range, every later entry
/// lies in the future, and the entry itself does not — unless the whole
/// timeline does, in which case it is the first entry.
pub proof fn lemma_resolve_index_characterization(timeline: Seq<TimeAxis>, elapsed: u64)
    requires
        timeline.len() >= 1,
    ensures
        ({
            let i = spec_resolve_index(timeline, elapsed);
            &&& 0 <= i < timeline.len()
            &&& timeline[i].seconds_scaled <= elapsed || i == 0
            &&& forall|j: int| i < j < timeline.len() ==> timeline[j].seconds_scaled > elapsed
        }),
    decreases timeline.len(),
{
    if timeline.len() > 1 && timeline.last().seconds_scaled > elapsed {
        lemma_resolve_index_characterization(timeline.drop_last(), elapsed);
        let i = spec_resolve_index(timeline.drop_last(), elapsed);
        assert(forall|j: int|
            0 <= j < timeline.len() - 1 ==> timeline.drop_last()[j] == timeline[j]);
    }
}

/// The clamping laws of the resolver: an elapsed time at or beyond the
/// last entry resolves to the last entry; one before the first entry
/// resolves to the first; one matching an entry exactly resolves to that
/// entry (the latest such entry, when several share the time).
pub proof fn lemma_resolver_clamps(timeline: Seq<TimeAxis>, elapsed: u64)
    requires
        timeline.len() >= 1,
    ensures
        timeline[timeline.len() - 1].seconds_scaled <= elapsed ==> spec_resolve_index(
            timeline,
            elapsed,
        ) == timeline.len() - 1,
        (seconds_monotone(timeline) && elapsed < timeline[0].seconds_scaled)
            ==> spec_resolve_index(timeline, elapsed) == 0,
        seconds_monotone(timeline) ==> forall|k: int|
            0 <= k < timeline.len() && (#[trigger] timeline[k].seconds_scaled) == elapsed && (k
                == timeline.len() - 1 || timeline[k + 1].seconds_scaled > elapsed)
                ==> spec_resolve_index(timeline, elapsed) == k,
{
    lemma_resolve_index_characterization(timeline, elapsed);
    let i = spec_resolve_index(timeline, elapsed);
    if seconds_monotone(timeline) && elapsed < timeline[0].seconds_scaled {
        if i > 0 {
            lemma_seconds_monotone_prefix(timeline, 0, i);
        }
    }
    if seconds_monotone(timeline) {
        assert forall|k: int|
            0 <= k < timeline.len() && (#[trigger] timeline[k].seconds_scaled) == elapsed && (k
                == timeline.len() - 1 || timeline[k + 1].seconds_scaled > elapsed) implies
            spec_resolve_index(timeline, elapsed) == k by {
            if i < k {
                assert(timeline[k].seconds_scaled > elapsed);
            }
            if i > k {
                lemma_seconds_monotone_prefix(timeline, k + 1, i);
                assert(timeline[i].seconds_scaled > elapsed);
                assert(timeline[i].seconds_scaled <= elapsed || i == 0);
            }
        }
    }
}

/// Along a monotone timeline, the entry at `i` is no later than the one
/// at `j`.
pub proof fn lemma_seconds_monotone_prefix(timeline: Seq<TimeAxis>, i: int, j: int)
    requires
        seconds_monotone(timeline),
        0 <= i <= j < timeline.len(),
    ensures
        timeline[i].seconds_scaled <= timeline[j].seconds_scaled,
    decreases j - i,
{
    if i < j {
        lemma_seconds_monotone_prefix(timeline, i, j - 1);
    }
}

/// Resolve an elapsed time (in seconds multiplied by
/// `division * 1_000_000`, the unit `TimeAxis::seconds_scaled` uses) to
/// the index of the timeline entry in effect: the greatest entry not in
/// the future, the first entry when all lie in the future, the last when
/// the piece is over.
pub fn resolve_playback_index(timeline: &Vec<TimeAxis>, elapsed_scaled: u64) -> (i: usize)
    requires
        timeline@.len() >= 1,
    ensures
        i == spec_resolve_index(timeline@, elapsed_scaled),
        i < timeline@.len(),
        timeline@[i as int].seconds_scaled <= elapsed_scaled || i == 0,
        forall|j: int|
            i < j < timeline@.len() ==> timeline@[j].seconds_scaled > elapsed_scaled,
{
    proof {
        lemma_resolve_index_characterization(timeline@, elapsed_scaled);
        assert(timeline@.take(timeline@.len() as int) =~= timeline@);
    }
    let mut n: usize = timeline.len();
    while n > 1
        invariant
            1 <= n <= timeline@.len(),
            spec_resolve_index(timeline@, elapsed_scaled) == spec_resolve_index(
                timeline@.take(n as int),
                elapsed_scaled,
            ),
        decreases n,
    {
        proof {
            assert(timeline@.take(n as int).last() == timeline@[n - 1]);
            assert(timeline@.take(n as int).drop_last() =~= timeline@.take(n - 1));
        }
        if timeline[n - 1].seconds_scaled <= elapsed_scaled {
            proof {
                assert(spec_resolve_index(timeline@.take(n as int), elapsed_scaled) == n - 1);
                lemma_resolve_index_characterization(timeline@, elapsed_scaled);
            }
            return n - 1;
        }
        n = n - 1;
    }
    proof {
        assert(timeline@.take(1).len() == 1);
    }
    0
}

/// Resolve an elapsed time to a copy of the timeline entry in effect.
pub fn resolve_playback_position(timeline: &Vec<TimeAxis>, elapsed_scaled: u64) -> (e: TimeAxis)
    requires
        timeline@.len() >= 1,
    ensures
        e == timeline@[spec_resolve_index(timeline@, elapsed_scaled)],
{
    let i = resolve_playback_index(timeline, elapsed_scaled);
    timeline[i]
}

} // verus!
