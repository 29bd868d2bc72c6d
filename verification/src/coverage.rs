//! What the selected cached intervals and the gaps around them give together.

use vstd::prelude::*;

use crate::gaps::{apart, covered_at, gaps, law_gaps_complete_the_request, relevant};
use crate::interval::TimeInterval;
use crate::selection::{
    beaten, chosen, covered, law_selection_exists, preferred, selected_entries,
    selection, OccupiedIntervalCacheEntry,
};

verus! {

/// The entries that are selected cover what the greedy choice takes of the intervals.
pub proof fn law_selected_entries_cover_the_choice<E: OccupiedIntervalCacheEntry>(entries: Seq<E>)
    ensures
        covered(selected_entries(entries)) == chosen(covered(entries)),
{
    law_selection_exists(covered(entries));
    let picked = selection(covered(entries));
    assert forall|k: int| 0 <= k < picked.len() implies covered(selected_entries(entries))[k]
        == chosen(covered(entries))[k] by {
        assert(0 <= picked[k] < covered(entries).len());
    }
    assert(covered(selected_entries(entries)) =~= chosen(covered(entries)));
}

/// The greedy choice takes intervals that do not overlap, each of them a given one, and leaves
/// out only intervals that overlap one that it takes and that is at least as long.
pub proof fn law_choice_is_apart_and_maximal(intervals: Seq<TimeInterval>)
    ensures
        apart(chosen(intervals)),
        forall|k: int|
            0 <= k < chosen(intervals).len() ==> intervals.contains(#[trigger] chosen(intervals)[k]),
        forall|i: int|
            0 <= i < intervals.len() ==> taken(chosen(intervals), #[trigger] intervals[i])
                || outdone(chosen(intervals), intervals[i]),
{
    law_selection_exists(intervals);
    let picked = selection(intervals);
    let taken_ones = chosen(intervals);
    assert forall|a: int, b: int| 0 <= a < b < taken_ones.len() implies !(
    #[trigger] taken_ones[a]).meets(#[trigger] taken_ones[b]) by {
        assert(!intervals[picked[a]].meets(intervals[picked[b]]));
    }
    assert forall|k: int| 0 <= k < taken_ones.len() implies intervals.contains(
        #[trigger] taken_ones[k],
    ) by {
        assert(0 <= picked[k] < intervals.len());
        assert(intervals[picked[k]] == taken_ones[k]);
    }
    assert forall|i: int| 0 <= i < intervals.len() implies taken(
        taken_ones,
        #[trigger] intervals[i],
    ) || outdone(taken_ones, intervals[i]) by {
        if picked.contains(i) {
            let k = choose|k: int| 0 <= k < picked.len() && picked[k] == i;
            assert(taken_ones[k] == intervals[i]);
        } else {
            assert(beaten(intervals, picked, i));
            let k = choose|k: int|
                0 <= k < picked.len() && preferred(intervals, #[trigger] picked[k], i)
                    && intervals[picked[k]].meets(intervals[i]);
            assert(taken_ones[k] == intervals[picked[k]]);
        }
    }
}

/// The interval is one of those that were taken.
pub open spec fn taken(taken_ones: Seq<TimeInterval>, interval: TimeInterval) -> bool {
    taken_ones.contains(interval)
}

/// One of the intervals that were taken overlaps the interval and is at least as long.
pub open spec fn outdone(taken_ones: Seq<TimeInterval>, interval: TimeInterval) -> bool {
    exists|k: int|
        0 <= k < taken_ones.len() && (#[trigger] taken_ones[k]).meets(interval)
            && taken_ones[k].span() >= interval.span()
}

/// What a choice among cached intervals takes is relevant to a request if they all are.
pub(crate) proof fn lemma_choice_is_relevant(requested: TimeInterval, cached: Seq<TimeInterval>)
    requires
        relevant(requested, cached),
    ensures
        relevant(requested, chosen(cached)),
        apart(chosen(cached)),
{
    law_choice_is_apart_and_maximal(cached);
    let taken_ones = chosen(cached);
    assert forall|k: int| 0 <= k < taken_ones.len() implies (#[trigger] taken_ones[k]).proper()
        && taken_ones[k].meets(requested) by {
        assert(cached.contains(taken_ones[k]));
        let i = choose|i: int| 0 <= i < cached.len() && cached[i] == taken_ones[k];
        assert(cached[i].proper());
    }
}

/// Planning a request from what the cache has for it gives every requested instant to one
/// selected cached interval or to one gap, and to no two of these.
pub proof fn law_plan_covers_the_request(requested: TimeInterval, cached: Seq<TimeInterval>)
    requires
        requested.proper(),
        relevant(requested, cached),
    ensures
        forall|t: int|
            requested.holds(t) ==> (#[trigger] covered_at(gaps(requested, chosen(cached)), t)
                <==> !covered_at(chosen(cached), t)),
        apart(chosen(cached) + gaps(requested, chosen(cached))),
{
    lemma_choice_is_relevant(requested, cached);
    law_gaps_complete_the_request(requested, chosen(cached));
    let taken_ones = chosen(cached);
    let left = gaps(requested, taken_ones);
    let all = taken_ones + left;
    assert forall|a: int, b: int| 0 <= a < b < all.len() implies !(#[trigger] all[a]).meets(
        #[trigger] all[b],
    ) by {
        if b < taken_ones.len() {
            assert(!taken_ones[a].meets(taken_ones[b]));
        } else if a >= taken_ones.len() {
            assert(!left[a - taken_ones.len()].meets(left[b - taken_ones.len()]));
        } else {
            assert(!left[b - taken_ones.len()].meets(taken_ones[a]));
        }
    }
}

/// Where none of the selected cached intervals reaches outside the request, what is read and
/// computed for it is the request itself: each requested instant once, and no other instant.
pub proof fn law_plan_is_the_request(requested: TimeInterval, cached: Seq<TimeInterval>)
    requires
        requested.proper(),
        relevant(requested, cached),
        forall|k: int|
            0 <= k < chosen(cached).len() ==> (#[trigger] chosen(cached)[k]).within(requested),
    ensures
        forall|t: int| #[trigger]
            covered_at(chosen(cached) + gaps(requested, chosen(cached)), t) <==> requested.holds(t),
        apart(chosen(cached) + gaps(requested, chosen(cached))),
{
    law_plan_covers_the_request(requested, cached);
    lemma_choice_is_relevant(requested, cached);
    law_gaps_complete_the_request(requested, chosen(cached));
    let taken_ones = chosen(cached);
    let left = gaps(requested, taken_ones);
    let all = taken_ones + left;
    assert forall|t: int| #[trigger] covered_at(all, t) <==> requested.holds(t) by {
        if covered_at(all, t) {
            let a = choose|a: int| 0 <= a < all.len() && (#[trigger] all[a]).holds(t);
            if a < taken_ones.len() {
                assert(taken_ones[a].within(requested));
            } else {
                assert(left[a - taken_ones.len()].within(requested));
            }
        }
        if requested.holds(t) {
            assert(covered_at(left, t) <==> !covered_at(taken_ones, t));
            if covered_at(taken_ones, t) {
                let a = choose|a: int|
                    0 <= a < taken_ones.len() && (#[trigger] taken_ones[a]).holds(t);
                assert(all[a].holds(t));
            } else {
                let a = choose|a: int| 0 <= a < left.len() && (#[trigger] left[a]).holds(t);
                assert(all[taken_ones.len() + a].holds(t));
            }
        }
    }
}

/// `stored` lists the gaps that a request leaves, in any order.
pub open spec fn stores_the_gaps(
    requested: TimeInterval,
    cached: Seq<TimeInterval>,
    stored: Seq<TimeInterval>,
) -> bool {
    &&& stored.no_duplicates()
    &&& forall|x: TimeInterval| #[trigger]
        stored.contains(x) <==> gaps(requested, chosen(cached)).contains(x)
}

/// Whether the choice among `cached + stored` takes the `i`-th interval.
spec fn kept(cached: Seq<TimeInterval>, i: int) -> bool {
    i >= cached.len() || selection(cached).contains(i)
}

/// Intervals that the choice takes, and stored gaps, do not overlap.
proof fn lemma_kept_are_apart(
    requested: TimeInterval,
    cached: Seq<TimeInterval>,
    stored: Seq<TimeInterval>,
    i: int,
    j: int,
)
    requires
        requested.proper(),
        relevant(requested, cached),
        stores_the_gaps(requested, cached, stored),
        0 <= i < cached.len() + stored.len(),
        0 <= j < cached.len() + stored.len(),
        i != j,
        kept(cached, i),
        kept(cached, j),
    ensures
        !(cached + stored)[i].meets((cached + stored)[j]),
{
    lemma_choice_is_relevant(requested, cached);
    law_gaps_complete_the_request(requested, chosen(cached));
    law_selection_exists(cached);
    let picked = selection(cached);
    let taken_ones = chosen(cached);
    let left = gaps(requested, taken_ones);
    let n = cached.len() as int;
    if i < n && j < n {
        let a = choose|a: int| 0 <= a < picked.len() && picked[a] == i;
        let b = choose|b: int| 0 <= b < picked.len() && picked[b] == j;
        if a < b {
            assert(!taken_ones[a].meets(taken_ones[b]));
        } else {
            assert(!taken_ones[b].meets(taken_ones[a]));
        }
    } else if i >= n && j >= n {
        assert(stored[i - n] != stored[j - n]);
        assert(stored.contains(stored[i - n]) && stored.contains(stored[j - n]));
        let a = choose|a: int| 0 <= a < left.len() && left[a] == stored[i - n];
        let b = choose|b: int| 0 <= b < left.len() && left[b] == stored[j - n];
        if a < b {
            assert(!left[a].meets(left[b]));
        } else {
            assert(!left[b].meets(left[a]));
        }
    } else {
        let (c, g) = if i < n {
            (i, j)
        } else {
            (j, i)
        };
        assert(stored.contains(stored[g - n]));
        let a = choose|a: int| 0 <= a < picked.len() && picked[a] == c;
        let b = choose|b: int| 0 <= b < left.len() && left[b] == stored[g - n];
        assert(taken_ones[a] == cached[c]);
        assert(!left[b].meets(taken_ones[a]));
    }
}

/// With the gaps stored, the choice takes what it took before, and all the gaps.
proof fn lemma_choice_with_gaps(
    requested: TimeInterval,
    cached: Seq<TimeInterval>,
    stored: Seq<TimeInterval>,
    i: int,
)
    requires
        requested.proper(),
        relevant(requested, cached),
        stores_the_gaps(requested, cached, stored),
        0 <= i < cached.len() + stored.len(),
    ensures
        selection(cached + stored).contains(i) <==> kept(cached, i),
    decreases 0x1_0000_0000_0000_0000 - (cached + stored)[i].span(), i,
{
    let all = cached + stored;
    law_selection_exists(cached);
    law_selection_exists(all);
    let before = selection(cached);
    let after = selection(all);
    if kept(cached, i) && !after.contains(i) {
        assert(beaten(all, after, i));
        let b = choose|b: int|
            0 <= b < after.len() && preferred(all, #[trigger] after[b], i) && all[after[b]].meets(
                all[i],
            );
        assert(after.contains(after[b]));
        lemma_choice_with_gaps(requested, cached, stored, after[b]);
        lemma_kept_are_apart(requested, cached, stored, after[b], i);
    }
    if !kept(cached, i) && after.contains(i) {
        assert(beaten(cached, before, i));
        let a = choose|a: int|
            0 <= a < before.len() && preferred(cached, #[trigger] before[a], i)
                && cached[before[a]].meets(cached[i]);
        let j = before[a];
        assert(before.contains(j));
        assert(all[j] == cached[j] && all[i] == cached[i]);
        lemma_choice_with_gaps(requested, cached, stored, j);
        let c = choose|c: int| 0 <= c < after.len() && after[c] == j;
        let d = choose|d: int| 0 <= d < after.len() && after[d] == i;
        if c < d {
            assert(!all[after[c]].meets(all[after[d]]));
        } else {
            assert(!all[after[d]].meets(all[after[c]]));
        }
    }
}

/// Once the gaps of a request have been stored, the same request is answered from the cache
/// alone: nothing is left to compute.
pub proof fn law_repeated_request_computes_nothing(
    requested: TimeInterval,
    cached: Seq<TimeInterval>,
    stored: Seq<TimeInterval>,
)
    requires
        requested.proper(),
        relevant(requested, cached),
        stores_the_gaps(requested, cached, stored),
    ensures
        gaps(requested, chosen(cached + stored)) == Seq::<TimeInterval>::empty(),
{
    let all = cached + stored;
    let left = gaps(requested, chosen(cached));
    lemma_choice_is_relevant(requested, cached);
    law_gaps_complete_the_request(requested, chosen(cached));
    law_selection_exists(cached);
    law_selection_exists(all);
    assert forall|i: int| 0 <= i < all.len() implies (#[trigger] all[i]).proper() && all[i].meets(
        requested,
    ) by {
        if i >= cached.len() {
            let x = stored[i - cached.len()];
            assert(stored.contains(x));
            let k = choose|k: int| 0 <= k < left.len() && left[k] == x;
            assert(left[k].proper() && left[k].within(requested));
        }
    }
    lemma_choice_is_relevant(requested, all);
    law_gaps_complete_the_request(requested, chosen(all));
    let none = gaps(requested, chosen(all));
    if none.len() > 0 {
        assert(none[0].proper() && none[0].within(requested));
        let t: int = none[0].start_ns as int;
        assert(none[0].holds(t));
        assert(covered_at(none, t));
        assert(requested.holds(t));
        let i = if covered_at(chosen(cached), t) {
            let k = choose|k: int|
                0 <= k < chosen(cached).len() && (#[trigger] chosen(cached)[k]).holds(t);
            assert(selection(cached).contains(selection(cached)[k]));
            selection(cached)[k]
        } else {
            assert(covered_at(left, t));
            let k = choose|k: int| 0 <= k < left.len() && (#[trigger] left[k]).holds(t);
            assert(left.contains(left[k]));
            assert(stored.contains(left[k]));
            let j = choose|j: int| 0 <= j < stored.len() && stored[j] == left[k];
            cached.len() + j
        };
        assert(all[i].holds(t));
        lemma_choice_with_gaps(requested, cached, stored, i);
        let after = selection(all);
        let a = choose|a: int| 0 <= a < after.len() && after[a] == i;
        assert(chosen(all)[a].holds(t));
    }
    assert(none =~= Seq::<TimeInterval>::empty());
}

} // verus!
