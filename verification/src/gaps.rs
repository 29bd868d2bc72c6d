//! The parts of a requested interval that no selected cached interval covers.

use vstd::prelude::*;

use crate::interval::TimeInterval;
use crate::selection::{covered, OccupiedIntervalCacheEntry};

verus! {

/// `sorted` with `interval` put behind all that start no later.
pub open spec fn insert_by_start(
    sorted: Seq<TimeInterval>,
    interval: TimeInterval,
) -> Seq<TimeInterval>
    decreases sorted.len(),
{
    if sorted.len() == 0 || sorted.last().start_ns <= interval.start_ns {
        sorted.push(interval)
    } else {
        insert_by_start(sorted.drop_last(), interval).push(sorted.last())
    }
}

/// The intervals by start, those that start together in the given order.
pub open spec fn sort_by_start(intervals: Seq<TimeInterval>) -> Seq<TimeInterval>
    decreases intervals.len(),
{
    if intervals.len() == 0 {
        intervals
    } else {
        insert_by_start(sort_by_start(intervals.drop_last()), intervals.last())
    }
}

/// The interval from `start` to `end`, if it holds any instant.
pub open spec fn gap(start: i64, end: i64) -> Seq<TimeInterval> {
    if start < end {
        seq![TimeInterval { start_ns: start, end_ns: end }]
    } else {
        seq![]
    }
}

/// The gaps between neighbours among the intervals.
pub open spec fn gaps_between(sorted: Seq<TimeInterval>) -> Seq<TimeInterval>
    decreases sorted.len(),
{
    if sorted.len() <= 1 {
        seq![]
    } else {
        gaps_between(sorted.drop_last()) + gap(
            sorted[sorted.len() - 2].end_ns,
            sorted.last().start_ns,
        )
    }
}

/// What is left of `requested` next to intervals that are sorted by start: all of it where there
/// are none, else the gap before the first, those between neighbours, and the one after the last.
pub open spec fn gaps_around(requested: TimeInterval, sorted: Seq<TimeInterval>) -> Seq<
    TimeInterval,
> {
    if sorted.len() == 0 {
        seq![requested]
    } else {
        gap(requested.start_ns, sorted[0].start_ns) + gaps_between(sorted) + gap(
            sorted.last().end_ns,
            requested.end_ns,
        )
    }
}

/// What is left of `requested` next to the cached intervals.
pub open spec fn gaps(requested: TimeInterval, cached: Seq<TimeInterval>) -> Seq<TimeInterval> {
    gaps_around(requested, sort_by_start(cached))
}

/// Where `insert_by_start` puts the interval.
proof fn lemma_insert_by_start(sorted: Seq<TimeInterval>, interval: TimeInterval, at: int)
    requires
        0 <= at <= sorted.len(),
        at > 0 ==> sorted[at - 1].start_ns <= interval.start_ns,
        forall|b: int| at <= b < sorted.len() ==> #[trigger] sorted[b].start_ns > interval.start_ns,
    ensures
        insert_by_start(sorted, interval) == sorted.insert(at, interval),
    decreases sorted.len(),
{
    if at < sorted.len() {
        lemma_insert_by_start(sorted.drop_last(), interval, at);
    }
    assert(insert_by_start(sorted, interval) =~= sorted.insert(at, interval));
}

/// The intervals of the entries, by start.
fn sorted_intervals<E: OccupiedIntervalCacheEntry>(entries: &[&E]) -> (sorted: Vec<TimeInterval>)
    ensures
        sorted@ == sort_by_start(covered(entries@.unref())),
{
    let ghost intervals = covered(entries@.unref());
    let mut sorted: Vec<TimeInterval> = Vec::new();
    let mut n: usize = 0;
    assert(intervals.take(0) =~= seq![]);
    while n < entries.len()
        invariant
            n <= entries@.len(),
            intervals == covered(entries@.unref()),
            sorted@.len() == n,
            sorted@ == sort_by_start(intervals.take(n as int)),
        decreases entries@.len() - n,
    {
        let interval = entries[n].interval();
        let mut at: usize = n;
        while at > 0 && sorted[at - 1].start_ns > interval.start_ns
            invariant
                at <= n,
                sorted@.len() == n,
                forall|b: int| at <= b < n ==> #[trigger] sorted@[b].start_ns > interval.start_ns,
            decreases at,
        {
            at = at - 1;
        }
        proof {
            lemma_insert_by_start(sorted@, interval, at as int);
            let longer = intervals.take(n + 1);
            assert(longer.drop_last() =~= intervals.take(n as int));
            assert(longer.last() == interval);
        }
        sorted.insert(at, interval);
        n = n + 1;
    }
    assert(intervals.take(n as int) =~= intervals);
    sorted
}

/// Compute gaps between requested interval and selected cached intervals.
pub fn compute_gaps<E: OccupiedIntervalCacheEntry>(
    requested: &TimeInterval,
    selected_cached: &[&E],
) -> (uncovered: Vec<TimeInterval>)
    ensures
        uncovered@ == gaps(*requested, covered(selected_cached@.unref())),
{
    let cached_intervals = sorted_intervals(selected_cached);
    let mut uncovered: Vec<TimeInterval> = Vec::new();
    if cached_intervals.len() == 0 {
        uncovered.push(*requested);
        assert(uncovered@ =~= seq![*requested]);
        return uncovered;
    }
    // Gap before first cached interval
    if cached_intervals[0].start_ns > requested.start_ns {
        uncovered.push(TimeInterval::new(requested.start_ns, cached_intervals[0].start_ns));
    }
    let ghost sorted = cached_intervals@;
    let ghost before = gap(requested.start_ns, sorted[0].start_ns);
    assert(uncovered@ =~= before + gaps_between(sorted.take(1)));
    // Gaps between cached intervals
    let mut i: usize = 0;
    while i < cached_intervals.len() - 1
        invariant
            cached_intervals@.len() > 0,
            i < cached_intervals@.len(),
            sorted == cached_intervals@,
            uncovered@ == before + gaps_between(sorted.take(i + 1)),
        decreases cached_intervals@.len() - i,
    {
        let current_end = cached_intervals[i].end_ns;
        let next_start = cached_intervals[i + 1].start_ns;
        if current_end < next_start {
            uncovered.push(TimeInterval::new(current_end, next_start));
        }
        proof {
            let longer = sorted.take(i + 2);
            assert(longer.drop_last() =~= sorted.take(i + 1));
            assert(uncovered@ =~= before + gaps_between(longer));
        }
        i = i + 1;
    }
    assert(sorted.take(i + 1) =~= sorted);
    // Gap after last cached interval
    let last = cached_intervals[i];
    if last.end_ns < requested.end_ns {
        uncovered.push(TimeInterval::new(last.end_ns, requested.end_ns));
    }
    assert(uncovered@ =~= gaps_around(*requested, sorted));
    uncovered
}

/// One of the intervals holds the instant `t`.
pub open spec fn covered_at(intervals: Seq<TimeInterval>, t: int) -> bool {
    exists|i: int| 0 <= i < intervals.len() && (#[trigger] intervals[i]).holds(t)
}

/// No two of the intervals overlap.
pub open spec fn apart(intervals: Seq<TimeInterval>) -> bool {
    forall|i: int, j: int|
        0 <= i < j < intervals.len() ==> !(#[trigger] intervals[i]).meets(#[trigger] intervals[j])
}

/// The intervals all hold instants and all overlap the requested one.
pub open spec fn relevant(requested: TimeInterval, intervals: Seq<TimeInterval>) -> bool {
    forall|i: int|
        0 <= i < intervals.len() ==> (#[trigger] intervals[i]).proper() && intervals[i].meets(
            requested,
        )
}

/// The intervals are in the order of their starts.
spec fn by_start(intervals: Seq<TimeInterval>) -> bool {
    forall|i: int, j: int|
        0 <= i < j < intervals.len() ==> (#[trigger] intervals[i]).start_ns <= (
        #[trigger] intervals[j]).start_ns
}

/// The intervals hold instants, and each ends before the later ones start.
spec fn chained(intervals: Seq<TimeInterval>) -> bool {
    &&& forall|i: int| 0 <= i < intervals.len() ==> (#[trigger] intervals[i]).proper()
    &&& forall|i: int, j: int|
        0 <= i < j < intervals.len() ==> (#[trigger] intervals[i]).end_ns <= (
        #[trigger] intervals[j]).start_ns
}

/// `insert_by_start` keeps the order.
proof fn lemma_place(sorted: Seq<TimeInterval>, interval: TimeInterval) -> (at: int)
    requires
        by_start(sorted),
    ensures
        0 <= at <= sorted.len(),
        insert_by_start(sorted, interval) == sorted.insert(at, interval),
        by_start(sorted.insert(at, interval)),
    decreases sorted.len(),
{
    if sorted.len() == 0 || sorted.last().start_ns <= interval.start_ns {
        let at = sorted.len() as int;
        lemma_insert_by_start(sorted, interval, at);
        at
    } else {
        let shorter = sorted.drop_last();
        let at = lemma_place(shorter, interval);
        let inserted = sorted.insert(at, interval);
        assert(insert_by_start(sorted, interval) =~= inserted);
        assert forall|i: int, j: int| 0 <= i < j < inserted.len() implies (
        #[trigger] inserted[i]).start_ns <= (#[trigger] inserted[j]).start_ns by {
            if j < inserted.len() - 1 {
                assert(inserted[i] == shorter.insert(at, interval)[i]);
                assert(inserted[j] == shorter.insert(at, interval)[j]);
            }
        }
        at
    }
}

/// Sorting by start neither adds nor loses an interval.
proof fn lemma_sort_by_start(intervals: Seq<TimeInterval>)
    ensures
        by_start(sort_by_start(intervals)),
        sort_by_start(intervals).len() == intervals.len(),
        forall|x: TimeInterval| #[trigger]
            sort_by_start(intervals).contains(x) <==> intervals.contains(x),
        apart(intervals) ==> apart(sort_by_start(intervals)),
    decreases intervals.len(),
{
    if intervals.len() > 0 {
        let shorter = intervals.drop_last();
        let last = intervals.last();
        lemma_sort_by_start(shorter);
        let inner = sort_by_start(shorter);
        let at = lemma_place(inner, last);
        let sorted = sort_by_start(intervals);
        assert(sorted == inner.insert(at, last));
        assert forall|x: TimeInterval| #[trigger] sorted.contains(x) <==> intervals.contains(x) by {
            assert(sorted[at] == last);
            assert(intervals[intervals.len() - 1] == last);
            if intervals.contains(x) && x != last {
                let i = choose|i: int| 0 <= i < intervals.len() && intervals[i] == x;
                assert(shorter[i] == x);
                assert(inner.contains(x));
                let j = choose|j: int| 0 <= j < inner.len() && inner[j] == x;
                if j < at {
                    assert(sorted[j] == x);
                } else {
                    assert(sorted[j + 1] == x);
                }
            }
            if sorted.contains(x) && x != last {
                let i = choose|i: int| 0 <= i < sorted.len() && sorted[i] == x;
                if i < at {
                    assert(inner[i] == x);
                } else {
                    assert(inner[i - 1] == x);
                }
                assert(inner.contains(x));
                let j = choose|j: int| 0 <= j < shorter.len() && shorter[j] == x;
                assert(intervals[j] == x);
            }
        }
        if apart(intervals) {
            assert(apart(shorter)) by {
                assert forall|i: int, j: int| 0 <= i < j < shorter.len() implies !(
                #[trigger] shorter[i]).meets(#[trigger] shorter[j]) by {
                    assert(!intervals[i].meets(intervals[j]));
                }
            }
            assert forall|i: int| 0 <= i < inner.len() implies !(#[trigger] inner[i]).meets(last)
                by {
                assert(inner.contains(inner[i]));
                let j = choose|j: int| 0 <= j < shorter.len() && shorter[j] == inner[i];
                assert(!intervals[j].meets(intervals[intervals.len() - 1]));
            }
            assert forall|i: int, j: int| 0 <= i < j < sorted.len() implies !(
            #[trigger] sorted[i]).meets(#[trigger] sorted[j]) by {
                if i == at {
                    assert(!inner[j - 1].meets(last));
                } else if j == at {
                    assert(!inner[i].meets(last));
                } else {
                    let a = if i < at {
                        i
                    } else {
                        i - 1
                    };
                    let b = if j < at {
                        j
                    } else {
                        j - 1
                    };
                    assert(!inner[a].meets(inner[b]));
                }
            }
        }
    }
}

/// The gaps between chained intervals fill what lies between the first and the last.
proof fn lemma_gaps_between(sorted: Seq<TimeInterval>)
    requires
        chained(sorted),
        sorted.len() > 0,
    ensures
        chained(gaps_between(sorted)),
        forall|k: int|
            0 <= k < gaps_between(sorted).len() ==> {
                &&& sorted[0].end_ns <= (#[trigger] gaps_between(sorted)[k]).start_ns
                &&& gaps_between(sorted)[k].end_ns <= sorted.last().start_ns
            },
        forall|t: int|
            sorted[0].start_ns <= t < sorted.last().end_ns ==> (#[trigger] covered_at(
                gaps_between(sorted),
                t,
            ) <==> !covered_at(sorted, t)),
    decreases sorted.len(),
{
    let between = gaps_between(sorted);
    if sorted.len() == 1 {
        assert forall|t: int| sorted[0].start_ns <= t < sorted.last().end_ns implies (
        #[trigger] covered_at(between, t) <==> !covered_at(sorted, t)) by {
            assert(sorted[0].holds(t));
        }
    } else {
        let shorter = sorted.drop_last();
        lemma_gaps_between(shorter);
        let inner = gaps_between(shorter);
        let end = shorter.last().end_ns;
        let start = sorted.last().start_ns;
        let added = gap(end, start);
        assert(between == inner + added);
        assert(shorter[0] == sorted[0]);
        assert(sorted[0].end_ns <= end && end <= start);
        assert forall|t: int| sorted[0].start_ns <= t < sorted.last().end_ns implies (
        #[trigger] covered_at(between, t) <==> !covered_at(sorted, t)) by {
            if covered_at(inner, t) {
                let k = choose|k: int| 0 <= k < inner.len() && (#[trigger] inner[k]).holds(t);
                assert(between[k].holds(t));
            }
            if covered_at(shorter, t) {
                let i = choose|i: int| 0 <= i < shorter.len() && (#[trigger] shorter[i]).holds(t);
                assert(sorted[i].holds(t));
            }
            if t < end {
                assert(covered_at(inner, t) <==> !covered_at(shorter, t));
                if covered_at(between, t) {
                    let k = choose|k: int| 0 <= k < between.len() && (#[trigger] between[k]).holds(
                        t,
                    );
                    assert(k < inner.len());
                    assert(inner[k].holds(t));
                }
                if covered_at(sorted, t) {
                    let i = choose|i: int| 0 <= i < sorted.len() && (#[trigger] sorted[i]).holds(t);
                    assert(i < shorter.len());
                    assert(shorter[i].holds(t));
                }
            } else if t < start {
                assert(between[inner.len() as int].holds(t));
                if covered_at(sorted, t) {
                    let i = choose|i: int| 0 <= i < sorted.len() && (#[trigger] sorted[i]).holds(t);
                    assert(i < shorter.len());
                    if i < shorter.len() - 1 {
                        assert(sorted[i].end_ns <= sorted[shorter.len() - 1].start_ns);
                    }
                }
            } else {
                assert(sorted[sorted.len() - 1].holds(t));
                if covered_at(between, t) {
                    let k = choose|k: int| 0 <= k < between.len() && (#[trigger] between[k]).holds(
                        t,
                    );
                    if k < inner.len() {
                        assert(inner[k].end_ns <= shorter.last().start_ns);
                    }
                }
            }
        }
        assert forall|k: int| 0 <= k < between.len() implies {
            &&& sorted[0].end_ns <= (#[trigger] between[k]).start_ns
            &&& between[k].end_ns <= sorted.last().start_ns
            &&& between[k].proper()
        } by {
            if k < inner.len() {
                assert(between[k] == inner[k]);
                assert(inner[k].end_ns <= shorter.last().start_ns);
            }
        }
        assert forall|a: int, b: int| 0 <= a < b < between.len() implies (
        #[trigger] between[a]).end_ns <= (#[trigger] between[b]).start_ns by {
            if b < inner.len() {
                assert(inner[a].end_ns <= inner[b].start_ns);
            } else {
                assert(inner[a].end_ns <= shorter.last().start_ns);
            }
        }
    }
}

/// The selected cached intervals and the gaps together make up the request: every requested
/// instant is covered by a cached interval or by a gap and by no two of these, and the gaps ask
/// for nothing that was not requested.
pub proof fn law_gaps_complete_the_request(requested: TimeInterval, cached: Seq<TimeInterval>)
    requires
        requested.proper(),
        relevant(requested, cached),
        apart(cached),
    ensures
        forall|t: int|
            requested.holds(t) ==> (#[trigger] covered_at(gaps(requested, cached), t)
                <==> !covered_at(cached, t)),
        apart(gaps(requested, cached)),
        forall|k: int|
            0 <= k < gaps(requested, cached).len() ==> (#[trigger] gaps(
                requested,
                cached,
            )[k]).proper() && gaps(requested, cached)[k].within(requested),
        forall|k: int, i: int|
            0 <= k < gaps(requested, cached).len() && 0 <= i < cached.len() ==> !(#[trigger] gaps(
                requested,
                cached,
            )[k]).meets(#[trigger] cached[i]),
{
    lemma_sort_by_start(cached);
    let sorted = sort_by_start(cached);
    let left = gaps(requested, cached);
    assert forall|i: int| 0 <= i < sorted.len() implies (#[trigger] sorted[i]).proper()
        && sorted[i].meets(requested) by {
        assert(sorted.contains(sorted[i]));
        let j = choose|j: int| 0 <= j < cached.len() && cached[j] == sorted[i];
        assert(cached[j].proper());
    }
    assert forall|t: int| covered_at(sorted, t) == #[trigger] covered_at(cached, t) by {
        if covered_at(sorted, t) {
            let i = choose|i: int| 0 <= i < sorted.len() && (#[trigger] sorted[i]).holds(t);
            assert(sorted.contains(sorted[i]));
            let j = choose|j: int| 0 <= j < cached.len() && cached[j] == sorted[i];
            assert(cached[j].holds(t));
        }
        if covered_at(cached, t) {
            let i = choose|i: int| 0 <= i < cached.len() && (#[trigger] cached[i]).holds(t);
            assert(cached.contains(cached[i]));
            assert(sorted.contains(cached[i]));
            let j = choose|j: int| 0 <= j < sorted.len() && sorted[j] == cached[i];
            assert(sorted[j].holds(t));
        }
    }
    if sorted.len() == 0 {
        assert(left[0] == requested);
        assert forall|t: int| requested.holds(t) implies #[trigger] covered_at(left, t) by {
            assert(left[0].holds(t));
        }
    } else {
        assert(chained(sorted)) by {
            assert forall|i: int, j: int| 0 <= i < j < sorted.len() implies (
            #[trigger] sorted[i]).end_ns <= (#[trigger] sorted[j]).start_ns by {
                assert(!sorted[i].meets(sorted[j]));
            }
        }
        lemma_gaps_between(sorted);
        lemma_gaps_around(requested, sorted);
    }
    assert forall|k: int, i: int| 0 <= k < left.len() && 0 <= i < cached.len() implies !(
    #[trigger] left[k]).meets(#[trigger] cached[i]) by {
        if left[k].meets(cached[i]) {
            let t: int = if left[k].start_ns <= cached[i].start_ns {
                cached[i].start_ns as int
            } else {
                left[k].start_ns as int
            };
            assert(left[k].holds(t) && cached[i].holds(t));
            assert(covered_at(left, t) && covered_at(cached, t));
        }
    }
}

/// The gaps around chained intervals that all overlap the request.
proof fn lemma_gaps_around(requested: TimeInterval, sorted: Seq<TimeInterval>)
    requires
        requested.proper(),
        relevant(requested, sorted),
        chained(sorted),
        sorted.len() > 0,
    ensures
        chained(gaps_around(requested, sorted)),
        forall|k: int|
            0 <= k < gaps_around(requested, sorted).len() ==> (#[trigger] gaps_around(
                requested,
                sorted,
            )[k]).within(requested),
        forall|t: int|
            requested.holds(t) ==> (#[trigger] covered_at(gaps_around(requested, sorted), t)
                <==> !covered_at(sorted, t)),
{
    lemma_gaps_between(sorted);
    let first = sorted[0];
    let last = sorted[sorted.len() - 1];
    let before = gap(requested.start_ns, first.start_ns);
    let between = gaps_between(sorted);
    let after = gap(last.end_ns, requested.end_ns);
    let left = gaps_around(requested, sorted);
    assert(left == before + between + after);
    assert(first.end_ns <= last.end_ns && first.start_ns <= last.start_ns);
    assert forall|k: int| 0 <= k < left.len() implies (#[trigger] left[k]).within(requested)
        && left[k].proper() by {
        if before.len() <= k < before.len() + between.len() {
            assert(left[k] == between[k - before.len()]);
        }
    }
    assert forall|a: int, b: int| 0 <= a < b < left.len() implies (#[trigger] left[a]).end_ns <= (
    #[trigger] left[b]).start_ns by {
        if before.len() <= a < before.len() + between.len() {
            assert(left[a] == between[a - before.len()]);
        }
        if before.len() <= b < before.len() + between.len() {
            assert(left[b] == between[b - before.len()]);
        }
    }
    assert forall|t: int| requested.holds(t) implies (#[trigger] covered_at(left, t)
        <==> !covered_at(sorted, t)) by {
        if t < first.start_ns {
            assert(left[0].holds(t));
            if covered_at(sorted, t) {
                let i = choose|i: int| 0 <= i < sorted.len() && (#[trigger] sorted[i]).holds(t);
                if i > 0 {
                    assert(sorted[0].end_ns <= sorted[i].start_ns);
                }
            }
        } else if t < last.end_ns {
            assert(covered_at(between, t) <==> !covered_at(sorted, t));
            if covered_at(between, t) {
                let k = choose|k: int| 0 <= k < between.len() && (#[trigger] between[k]).holds(t);
                assert(left[before.len() + k].holds(t));
            }
            if covered_at(left, t) {
                let k = choose|k: int| 0 <= k < left.len() && (#[trigger] left[k]).holds(t);
                assert(before.len() <= k < before.len() + between.len());
                assert(between[k - before.len()].holds(t));
            }
        } else {
            assert(left[left.len() - 1].holds(t));
            if covered_at(sorted, t) {
                let i = choose|i: int| 0 <= i < sorted.len() && (#[trigger] sorted[i]).holds(t);
                if i < sorted.len() - 1 {
                    assert(sorted[i].end_ns <= sorted[sorted.len() - 1].start_ns);
                }
            }
        }
    }
}

/// Sorting puts each interval behind those that start no later and before those that start later.
pub proof fn law_intervals_are_sorted_by_start(
    intervals: Seq<TimeInterval>,
    interval: TimeInterval,
)
    ensures
        sort_by_start(Seq::<TimeInterval>::empty()) == Seq::<TimeInterval>::empty(),
        exists|at: int|
            {
                &&& 0 <= at <= sort_by_start(intervals).len()
                &&& sort_by_start(intervals.push(interval)) == #[trigger] sort_by_start(
                    intervals,
                ).insert(at, interval)
                &&& forall|k: int|
                    0 <= k < at ==> (#[trigger] sort_by_start(intervals)[k]).start_ns
                        <= interval.start_ns
                &&& forall|k: int|
                    at <= k < sort_by_start(intervals).len() ==> interval.start_ns < (
                    #[trigger] sort_by_start(intervals)[k]).start_ns
            },
        forall|i: int, j: int|
            0 <= i < j < sort_by_start(intervals).len() ==> (#[trigger] sort_by_start(
                intervals,
            )[i]).start_ns <= (#[trigger] sort_by_start(intervals)[j]).start_ns,
{
    lemma_sort_by_start(intervals);
    let sorted = sort_by_start(intervals);
    assert(intervals.push(interval).drop_last() =~= intervals);
    let at = lemma_exact_place(sorted, interval);
    assert(sort_by_start(intervals.push(interval)) == sorted.insert(at, interval));
}

proof fn lemma_exact_place(sorted: Seq<TimeInterval>, interval: TimeInterval) -> (at: int)
    requires
        by_start(sorted),
    ensures
        0 <= at <= sorted.len(),
        insert_by_start(sorted, interval) == sorted.insert(at, interval),
        forall|k: int| 0 <= k < at ==> (#[trigger] sorted[k]).start_ns <= interval.start_ns,
        forall|k: int|
            at <= k < sorted.len() ==> interval.start_ns < (#[trigger] sorted[k]).start_ns,
    decreases sorted.len(),
{
    if sorted.len() == 0 || sorted.last().start_ns <= interval.start_ns {
        let at = sorted.len() as int;
        assert(sorted.insert(at, interval) =~= sorted.push(interval));
        assert forall|k: int| 0 <= k < at implies (#[trigger] sorted[k]).start_ns
            <= interval.start_ns by {
            if k < at - 1 {
                assert(sorted[k].start_ns <= sorted[at - 1].start_ns);
            }
        }
        at
    } else {
        let shorter = sorted.drop_last();
        assert(by_start(shorter)) by {
            assert forall|i: int, j: int| 0 <= i < j < shorter.len() implies (
            #[trigger] shorter[i]).start_ns <= (#[trigger] shorter[j]).start_ns by {
                assert(sorted[i].start_ns <= sorted[j].start_ns);
            }
        }
        let at = lemma_exact_place(shorter, interval);
        assert(sorted.insert(at, interval) =~= shorter.insert(at, interval).push(sorted.last()));
        assert forall|k: int| 0 <= k < at implies (#[trigger] sorted[k]).start_ns
            <= interval.start_ns by {
            assert(shorter[k] == sorted[k]);
        }
        assert forall|k: int| at <= k < sorted.len() implies interval.start_ns < (
        #[trigger] sorted[k]).start_ns by {
            if k < shorter.len() {
                assert(shorter[k] == sorted[k]);
            }
        }
        at
    }
}

/// Without a cached interval all of the request is a gap. Next to others, in the order of their
/// starts, the gaps are what lies between the start of the request and the first, between
/// neighbours, and between the last and the end of the request, as far as that is anything, in
/// this order and nothing else.
pub proof fn law_gaps_lie_between_the_cached_intervals(
    requested: TimeInterval,
    cached: Seq<TimeInterval>,
)
    ensures
        cached.len() == 0 ==> gaps(requested, cached) == seq![requested],
        cached.len() > 0 ==> {
            let sorted = sort_by_start(cached);
            let borders = seq![requested.start_ns] + Seq::new(
                sorted.len(),
                |k: int| sorted[k].end_ns,
            );
            let starts = Seq::new(sorted.len(), |k: int| sorted[k].start_ns) + seq![
                requested.end_ns,
            ];
            &&& sorted.len() == cached.len()
            &&& gaps(requested, cached) == nonempty(borders, starts)
        },
{
    lemma_sort_by_start(cached);
    let sorted = sort_by_start(cached);
    if sorted.len() > 0 {
        let ends = Seq::new(sorted.len(), |k: int| sorted[k].end_ns);
        let begins = Seq::new(sorted.len(), |k: int| sorted[k].start_ns);
        let borders = seq![requested.start_ns] + ends;
        let starts = begins + seq![requested.end_ns];
        lemma_gaps_between_are_nonempty(requested.start_ns, sorted);
        assert(borders.drop_last() =~= seq![requested.start_ns] + ends.drop_last());
        assert(starts.drop_last() =~= begins);
        assert(ends.drop_last() =~= Seq::new(
            (sorted.len() - 1) as nat,
            |k: int| sorted[k].end_ns,
        ));
        assert(gaps(requested, cached) =~= nonempty(borders, starts));
    }
}

/// The intervals from each of the first numbers to the second at the same place that hold an
/// instant, in their order.
pub open spec fn nonempty(starts: Seq<i64>, ends: Seq<i64>) -> Seq<TimeInterval>
    decreases starts.len(),
{
    if starts.len() == 0 {
        seq![]
    } else {
        let before = nonempty(starts.drop_last(), ends.drop_last());
        if starts.last() < ends.last() {
            before.push(TimeInterval { start_ns: starts.last(), end_ns: ends.last() })
        } else {
            before
        }
    }
}

proof fn lemma_gaps_between_are_nonempty(start: i64, sorted: Seq<TimeInterval>)
    requires
        sorted.len() > 0,
    ensures
        nonempty(
            seq![start] + Seq::new((sorted.len() - 1) as nat, |k: int| sorted[k].end_ns),
            Seq::new(sorted.len(), |k: int| sorted[k].start_ns),
        ) == gap(start, sorted[0].start_ns) + gaps_between(sorted),
    decreases sorted.len(),
{
    let first = seq![start] + Seq::new((sorted.len() - 1) as nat, |k: int| sorted[k].end_ns);
    let second = Seq::new(sorted.len(), |k: int| sorted[k].start_ns);
    let all = nonempty(first, second);
    if sorted.len() == 1 {
        assert(nonempty(first.drop_last(), second.drop_last()) =~= seq![]);
        assert(first.last() == start && second.last() == sorted[0].start_ns);
        assert(all =~= gap(start, sorted[0].start_ns) + gaps_between(sorted));
    } else {
        let shorter = sorted.drop_last();
        lemma_gaps_between_are_nonempty(start, shorter);
        assert(first.drop_last() =~= seq![start] + Seq::new(
            (shorter.len() - 1) as nat,
            |k: int| shorter[k].end_ns,
        ));
        assert(second.drop_last() =~= Seq::new(shorter.len(), |k: int| shorter[k].start_ns));
        assert(first.last() == sorted[sorted.len() - 2].end_ns);
        assert(second.last() == sorted.last().start_ns);
        assert(all == nonempty(first.drop_last(), second.drop_last()) + gap(
            first.last(),
            second.last(),
        ));
        assert(shorter[0] == sorted[0]);
        assert(all =~= gap(start, sorted[0].start_ns) + gaps_between(sorted));
    }
}

} // verus!
