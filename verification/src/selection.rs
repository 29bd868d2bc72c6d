//! Which of the cached intervals answer a request.

use vstd::prelude::*;

use crate::interval::TimeInterval;

verus! {

/// What a cache hands out for an interval that it has stored.
pub trait OccupiedIntervalCacheEntry {
    /// The time interval that the entry covers, the same at every call of `interval`.
    spec fn covers(&self) -> TimeInterval;

    /// The time interval this cache entry covers.
    fn interval(&self) -> (interval: TimeInterval)
        ensures
            interval == self.covers(),
    ;
}

/// The intervals that the entries cover, in their order.
pub open spec fn covered<E: OccupiedIntervalCacheEntry>(entries: Seq<E>) -> Seq<TimeInterval> {
    Seq::new(entries.len(), |i: int| entries[i].covers())
}

/// The `i`-th interval is preferred to the `j`-th: it is longer, or as long and comes first.
pub open spec fn preferred(intervals: Seq<TimeInterval>, i: int, j: int) -> bool {
    ||| intervals[i].span() > intervals[j].span()
    ||| intervals[i].span() == intervals[j].span() && i < j
}

/// `picked` names the intervals that a longest-first greedy choice takes, in the order of
/// choice: preferred ones first, none overlapping another, and each interval that is left out
/// overlaps one that was taken and is preferred to it.
pub open spec fn is_selection(intervals: Seq<TimeInterval>, picked: Seq<int>) -> bool {
    &&& forall|a: int| 0 <= a < picked.len() ==> 0 <= #[trigger] picked[a] < intervals.len()
    &&& forall|a: int, b: int|
        0 <= a < b < picked.len() ==> {
            &&& preferred(intervals, #[trigger] picked[a], #[trigger] picked[b])
            &&& !intervals[picked[a]].meets(intervals[picked[b]])
        }
    &&& forall|i: int|
        0 <= i < intervals.len() && !(#[trigger] picked.contains(i)) ==> beaten(intervals, picked, i)
}

/// Some picked interval is preferred to the `i`-th and overlaps it.
pub open spec fn beaten(intervals: Seq<TimeInterval>, picked: Seq<int>, i: int) -> bool {
    exists|a: int|
        0 <= a < picked.len() && preferred(intervals, #[trigger] picked[a], i)
            && intervals[picked[a]].meets(intervals[i])
}

/// The indices that the longest-first greedy choice takes.
pub open spec fn selection(intervals: Seq<TimeInterval>) -> Seq<int> {
    choose|picked: Seq<int>| is_selection(intervals, picked)
}

/// The intervals that the longest-first greedy choice takes, in the order of choice.
pub open spec fn chosen(intervals: Seq<TimeInterval>) -> Seq<TimeInterval> {
    let picked = selection(intervals);
    Seq::new(picked.len(), |k: int| intervals[picked[k]])
}

/// The entries that the longest-first greedy choice takes, in the order of choice.
pub open spec fn selected_entries<E: OccupiedIntervalCacheEntry>(entries: Seq<E>) -> Seq<E> {
    let picked = selection(covered(entries));
    Seq::new(picked.len(), |k: int| entries[picked[k]])
}

/// `order` lists the first `n` indices, preferred intervals first.
spec fn is_ranking(intervals: Seq<TimeInterval>, order: Seq<usize>, n: int) -> bool {
    &&& forall|a: int| 0 <= a < order.len() ==> 0 <= #[trigger] order[a] < n
    &&& forall|a: int, b: int|
        0 <= a < b < order.len() ==> preferred(
            intervals,
            #[trigger] order[a] as int,
            #[trigger] order[b] as int,
        )
    &&& forall|i: int| 0 <= i < n ==> #[trigger] listed(order, i)
}

spec fn listed(order: Seq<usize>, i: int) -> bool {
    exists|a: int| 0 <= a < order.len() && #[trigger] order[a] == i
}

/// The indices of all intervals, preferred ones first.
fn rank(intervals: &Vec<TimeInterval>) -> (order: Vec<usize>)
    ensures
        is_ranking(intervals@, order@, intervals@.len() as int),
{
    let mut order: Vec<usize> = Vec::new();
    let mut n: usize = 0;
    while n < intervals.len()
        invariant
            n <= intervals@.len(),
            order@.len() == n,
            is_ranking(intervals@, order@, n as int),
        decreases intervals@.len() - n,
    {
        let span: i128 = intervals[n].end_ns as i128 - intervals[n].start_ns as i128;
        let mut at: usize = n;
        while at > 0 && (intervals[order[at - 1]].end_ns as i128
            - intervals[order[at - 1]].start_ns as i128) < span
            invariant
                n < intervals@.len(),
                at <= n,
                order@.len() == n,
                is_ranking(intervals@, order@, n as int),
                span == intervals@[n as int].span(),
                forall|b: int|
                    at <= b < n ==> preferred(intervals@, n as int, #[trigger] order@[b] as int),
            decreases at,
        {
            at = at - 1;
        }
        let ghost before = order@;
        order.insert(at, n);
        proof {
            assert forall|a: int, b: int| 0 <= a < b < order@.len() implies preferred(
                intervals@,
                #[trigger] order@[a] as int,
                #[trigger] order@[b] as int,
            ) by {
                if at > 0 {
                    assert(preferred(intervals@, before[at - 1] as int, n as int));
                    if a < at - 1 {
                        assert(preferred(intervals@, before[a] as int, before[at - 1] as int));
                    }
                }
            }
            assert forall|i: int| 0 <= i < n + 1 implies #[trigger] listed(order@, i) by {
                if i == n {
                    assert(order@[at as int] == i);
                } else {
                    assert(listed(before, i));
                    let a = choose|a: int| 0 <= a < before.len() && #[trigger] before[a] == i;
                    if a < at {
                        assert(order@[a] == i);
                    } else {
                        assert(order@[a + 1] == i);
                    }
                }
            }
        }
        n = n + 1;
    }
    order
}

/// The index at place `c` of the order is picked (`places` holds the places of the picked
/// indices), or it overlaps one that was picked before it.
spec fn settled(
    intervals: Seq<TimeInterval>,
    order: Seq<usize>,
    picked: Seq<usize>,
    places: Seq<int>,
    c: int,
) -> bool {
    places.contains(c) || exists|a: int|
        0 <= a < places.len() && places[a] < c && intervals[#[trigger] picked[a] as int].meets(
            intervals[order[c] as int],
        )
}

/// One of the picked intervals overlaps the `i`-th.
fn overlaps_any(intervals: &Vec<TimeInterval>, picked: &Vec<usize>, i: usize) -> (found: bool)
    requires
        i < intervals@.len(),
        forall|b: int| 0 <= b < picked@.len() ==> #[trigger] picked@[b] < intervals@.len(),
    ensures
        found == exists|b: int|
            0 <= b < picked@.len() && intervals@[#[trigger] picked@[b] as int].meets(
                intervals@[i as int],
            ),
{
    let mut a: usize = 0;
    while a < picked.len()
        invariant
            a <= picked@.len(),
            i < intervals@.len(),
            forall|b: int| 0 <= b < picked@.len() ==> #[trigger] picked@[b] < intervals@.len(),
            forall|b: int|
                0 <= b < a ==> !intervals@[#[trigger] picked@[b] as int].meets(
                    intervals@[i as int],
                ),
        decreases picked@.len() - a,
    {
        if intervals[picked[a]].overlaps(&intervals[i]) {
            return true;
        }
        a = a + 1;
    }
    false
}

/// The indices that the longest-first greedy choice takes, in the order of choice.
fn pick(intervals: &Vec<TimeInterval>) -> (picked: Vec<usize>)
    ensures
        picked@.map_values(|i: usize| i as int) == selection(intervals@),
        forall|a: int| 0 <= a < picked@.len() ==> #[trigger] picked@[a] < intervals@.len(),
{
    let order = rank(intervals);
    let mut picked: Vec<usize> = Vec::new();
    // The places in `order` that the picked indices have.
    let ghost mut places: Seq<int> = seq![];
    let mut k: usize = 0;
    while k < order.len()
        invariant
            k <= order@.len(),
            is_ranking(intervals@, order@, intervals@.len() as int),
            places.len() == picked@.len(),
            forall|a: int| 0 <= a < places.len() ==> 0 <= #[trigger] places[a] < k,
            forall|a: int| 0 <= a < places.len() ==> order@[places[a]] == #[trigger] picked@[a],
            forall|a: int, b: int|
                0 <= a < b < places.len() ==> #[trigger] places[a] < #[trigger] places[b],
            forall|a: int, b: int|
                0 <= a < b < picked@.len() ==> !intervals@[#[trigger] picked@[a] as int].meets(
                    intervals@[#[trigger] picked@[b] as int],
                ),
            forall|c: int|
                0 <= c < k ==> #[trigger] settled(intervals@, order@, picked@, places, c),
        decreases order@.len() - k,
    {
        let i = order[k];
        let free = !overlaps_any(intervals, &picked, i);
        let ghost places_before = places;
        let ghost picked_before = picked@;
        if free {
            picked.push(i);
            proof {
                places = places.push(k as int);
            }
        }
        proof {
            assert forall|c: int| 0 <= c < k + 1 implies #[trigger] settled(
                intervals@,
                order@,
                picked@,
                places,
                c,
            ) by {
                assert(c < k ==> settled(intervals@, order@, picked_before, places_before, c));
                if c == k {
                    if free {
                        assert(places[places.len() - 1] == c);
                    } else {
                        let b = choose|b: int|
                            0 <= b < picked@.len() && intervals@[#[trigger] picked@[b] as int].meets(
                                intervals@[i as int],
                            );
                        assert(places[b] < c);
                    }
                } else if places_before.contains(c) {
                    let b = choose|b: int| 0 <= b < places_before.len() && places_before[b] == c;
                    assert(places[b] == c);
                } else {
                    let b = choose|b: int|
                        0 <= b < places_before.len() && places_before[b] < c
                            && intervals@[#[trigger] picked_before[b] as int].meets(
                            intervals@[order@[c] as int],
                        );
                    assert(picked@[b] == picked_before[b] && places[b] == places_before[b]);
                }
            }
        }
        k = k + 1;
    }
    proof {
        let chosen = picked@.map_values(|i: usize| i as int);
        assert forall|i: int| 0 <= i < intervals@.len() && !(#[trigger] chosen.contains(i)) implies
            beaten(intervals@, chosen, i) by {
            assert(listed(order@, i));
            let c = choose|c: int| 0 <= c < order@.len() && #[trigger] order@[c] == i;
            assert(settled(intervals@, order@, picked@, places, c));
            if places.contains(c) {
                let a = choose|a: int| 0 <= a < places.len() && places[a] == c;
                assert(chosen[a] == i);
            } else {
                let a = choose|a: int|
                    0 <= a < places.len() && places[a] < c
                        && intervals@[#[trigger] picked@[a] as int].meets(
                        intervals@[order@[c] as int],
                    );
                assert(preferred(intervals@, chosen[a], i));
            }
        }
        assert(is_selection(intervals@, chosen));
        law_selection_is_unique(intervals@, chosen, selection(intervals@));
    }
    picked
}

/// No greedy choice takes an index that another leaves out.
proof fn lemma_taken_by_both(intervals: Seq<TimeInterval>, p: Seq<int>, q: Seq<int>, i: int)
    requires
        is_selection(intervals, p),
        is_selection(intervals, q),
        0 <= i < intervals.len(),
        p.contains(i),
    ensures
        q.contains(i),
    decreases 0x1_0000_0000_0000_0000 - intervals[i].span(), i,
{
    if !q.contains(i) {
        assert(beaten(intervals, q, i));
        let b = choose|b: int|
            0 <= b < q.len() && preferred(intervals, #[trigger] q[b], i)
                && intervals[q[b]].meets(intervals[i]);
        assert(q.contains(q[b]));
        lemma_taken_by_both(intervals, q, p, q[b]);
        let c = choose|c: int| 0 <= c < p.len() && p[c] == q[b];
        let d = choose|d: int| 0 <= d < p.len() && p[d] == i;
        if c < d {
            assert(!intervals[p[c]].meets(intervals[p[d]]));
        } else {
            assert(!intervals[p[d]].meets(intervals[p[c]]));
        }
    }
}

/// Greedy choices agree on their first `n` indices.
proof fn lemma_same_prefix(intervals: Seq<TimeInterval>, p: Seq<int>, q: Seq<int>, n: int)
    requires
        is_selection(intervals, p),
        is_selection(intervals, q),
        0 <= n <= p.len(),
    ensures
        n <= q.len(),
        forall|a: int| 0 <= a < n ==> p[a] == q[a],
    decreases n,
{
    if n > 0 {
        lemma_same_prefix(intervals, p, q, n - 1);
        let i = p[n - 1];
        assert(p.contains(i));
        lemma_taken_by_both(intervals, p, q, i);
        let b = choose|b: int| 0 <= b < q.len() && q[b] == i;
        if b < n - 1 {
            assert(preferred(intervals, p[b], p[n - 1]));
        } else if b > n - 1 {
            let j = q[n - 1];
            assert(q.contains(j));
            lemma_taken_by_both(intervals, q, p, j);
            let c = choose|c: int| 0 <= c < p.len() && p[c] == j;
            assert(preferred(intervals, q[n - 1], q[b]));
            if c < n - 1 {
                assert(preferred(intervals, q[c], q[n - 1]));
            } else if c > n - 1 {
                assert(preferred(intervals, p[n - 1], p[c]));
            }
        }
    }
}

/// `order` lists indices, preferred intervals first.
spec fn ranked(intervals: Seq<TimeInterval>, order: Seq<int>) -> bool {
    forall|a: int, b: int|
        0 <= a < b < order.len() ==> preferred(
            intervals,
            #[trigger] order[a],
            #[trigger] order[b],
        )
}

/// A further index has its place in a ranked list.
proof fn lemma_insert_ranked(intervals: Seq<TimeInterval>, order: Seq<int>, i: int) -> (r: Seq<int>)
    requires
        ranked(intervals, order),
        !order.contains(i),
    ensures
        ranked(intervals, r),
        forall|j: int| #[trigger] r.contains(j) <==> order.contains(j) || j == i,
    decreases order.len(),
{
    if order.len() == 0 || preferred(intervals, order.last(), i) {
        let r = order.push(i);
        assert forall|a: int, b: int| 0 <= a < b < r.len() implies preferred(
            intervals,
            #[trigger] r[a],
            #[trigger] r[b],
        ) by {
            if b == order.len() && a < order.len() - 1 {
                assert(preferred(intervals, order[a], order[order.len() - 1]));
            }
        }
        assert forall|j: int| #[trigger] r.contains(j) <==> order.contains(j) || j == i by {
            assert(r[order.len() as int] == i);
            if order.contains(j) {
                let a = choose|a: int| 0 <= a < order.len() && order[a] == j;
                assert(r[a] == j);
            }
        }
        r
    } else {
        let rest = order.drop_last();
        assert(order[order.len() - 1] == order.last());
        assert(order.contains(order.last()));
        assert(!rest.contains(i)) by {
            if rest.contains(i) {
                let a = choose|a: int| 0 <= a < rest.len() && rest[a] == i;
                assert(order[a] == i);
            }
        }
        let inner = lemma_insert_ranked(intervals, rest, i);
        let r = inner.push(order.last());
        assert forall|a: int, b: int| 0 <= a < b < r.len() implies preferred(
            intervals,
            #[trigger] r[a],
            #[trigger] r[b],
        ) by {
            if b == inner.len() {
                assert(inner.contains(inner[a]));
                if inner[a] != i {
                    let c = choose|c: int| 0 <= c < rest.len() && rest[c] == inner[a];
                    assert(preferred(intervals, order[c], order[order.len() - 1]));
                }
            }
        }
        assert forall|j: int| #[trigger] r.contains(j) <==> order.contains(j) || j == i by {
            assert(r[inner.len() as int] == order.last());
            if inner.contains(j) {
                let a = choose|a: int| 0 <= a < inner.len() && inner[a] == j;
                assert(r[a] == j);
            }
            if rest.contains(j) {
                let a = choose|a: int| 0 <= a < rest.len() && rest[a] == j;
                assert(order[a] == j);
            }
            if order.contains(j) && j != order.last() {
                let a = choose|a: int| 0 <= a < order.len() && order[a] == j;
                assert(rest[a] == j);
            }
            if r.contains(j) && j != order.last() {
                let a = choose|a: int| 0 <= a < r.len() && r[a] == j;
                assert(inner[a] == j);
            }
        }
        r
    }
}

/// The first `n` indices can be ranked.
proof fn lemma_rank(intervals: Seq<TimeInterval>, n: int) -> (order: Seq<int>)
    requires
        0 <= n <= intervals.len(),
    ensures
        ranked(intervals, order),
        forall|i: int| #[trigger] order.contains(i) <==> 0 <= i < n,
    decreases n,
{
    if n == 0 {
        seq![]
    } else {
        let order = lemma_rank(intervals, n - 1);
        lemma_insert_ranked(intervals, order, n - 1)
    }
}

/// The greedy choice among the first `k` indices of a ranked list.
proof fn lemma_choose(intervals: Seq<TimeInterval>, order: Seq<int>, k: int) -> (picked: Seq<int>)
    requires
        ranked(intervals, order),
        0 <= k <= order.len(),
    ensures
        ranked(intervals, picked),
        forall|a: int| 0 <= a < picked.len() ==> order.take(k).contains(#[trigger] picked[a]),
        forall|a: int, b: int|
            0 <= a < b < picked.len() ==> !intervals[#[trigger] picked[a]].meets(
                intervals[#[trigger] picked[b]],
            ),
        forall|c: int|
            0 <= c < k ==> picked.contains(#[trigger] order[c]) || beaten(
                intervals,
                picked,
                order[c],
            ),
    decreases k,
{
    if k == 0 {
        seq![]
    } else {
        let before = lemma_choose(intervals, order, k - 1);
        let i = order[k - 1];
        assert forall|a: int| 0 <= a < before.len() implies preferred(
            intervals,
            #[trigger] before[a],
            i,
        ) && order.take(k).contains(before[a]) by {
            assert(order.take(k - 1).contains(before[a]));
            let earlier = order.take(k - 1);
            let c = choose|c: int| 0 <= c < earlier.len() && earlier[c] == before[a];
            assert(preferred(intervals, order[c], order[k - 1]));
            assert(order.take(k)[c] == before[a]);
        }
        if exists|a: int| 0 <= a < before.len() && intervals[#[trigger] before[a]].meets(intervals[i]) {
            let a = choose|a: int|
                0 <= a < before.len() && intervals[#[trigger] before[a]].meets(intervals[i]);
            assert(preferred(intervals, before[a], i));
            assert(beaten(intervals, before, i));
            before
        } else {
            let picked = before.push(i);
            assert(order.take(k)[k - 1] == i);
            assert forall|c: int| 0 <= c < k implies picked.contains(#[trigger] order[c]) || beaten(
                intervals,
                picked,
                order[c],
            ) by {
                if c == k - 1 {
                    assert(picked[before.len() as int] == i);
                } else if before.contains(order[c]) {
                    let a = choose|a: int| 0 <= a < before.len() && before[a] == order[c];
                    assert(picked[a] == order[c]);
                } else {
                    let a = choose|a: int|
                        0 <= a < before.len() && preferred(intervals, #[trigger] before[a], order[c])
                            && intervals[before[a]].meets(intervals[order[c]]);
                    assert(picked[a] == before[a]);
                }
            }
            picked
        }
    }
}

/// There is a greedy choice: whatever the intervals are, `selection` is one.
pub proof fn law_selection_exists(intervals: Seq<TimeInterval>)
    ensures
        is_selection(intervals, selection(intervals)),
{
    let order = lemma_rank(intervals, intervals.len() as int);
    let picked = lemma_choose(intervals, order, order.len() as int);
    assert(order.take(order.len() as int) =~= order);
    assert forall|i: int| 0 <= i < intervals.len() && !(#[trigger] picked.contains(i)) implies
        beaten(intervals, picked, i) by {
        assert(order.contains(i));
        let c = choose|c: int| 0 <= c < order.len() && order[c] == i;
        assert(picked.contains(order[c]) || beaten(intervals, picked, order[c]));
    }
    assert(is_selection(intervals, picked));
}

/// There is only one greedy choice.
pub proof fn law_selection_is_unique(intervals: Seq<TimeInterval>, p: Seq<int>, q: Seq<int>)
    requires
        is_selection(intervals, p),
        is_selection(intervals, q),
    ensures
        p == q,
{
    lemma_same_prefix(intervals, p, q, p.len() as int);
    lemma_same_prefix(intervals, q, p, q.len() as int);
}

/// Select maximal non-overlapping cached intervals using a greedy algorithm: the longest first,
/// the one that comes first among those of equal length.
pub fn select_maximal_cached_intervals<'a, E: OccupiedIntervalCacheEntry>(
    cached_entries: &'a [E],
    _requested: &TimeInterval,
) -> (selected: Vec<&'a E>)
    ensures
        selected@.unref() == selected_entries(cached_entries@),
        is_selection(covered(cached_entries@), selection(covered(cached_entries@))),
{
    let mut intervals: Vec<TimeInterval> = Vec::new();
    let mut i: usize = 0;
    while i < cached_entries.len()
        invariant
            i <= cached_entries@.len(),
            intervals@.len() == i,
            forall|j: int| 0 <= j < i ==> #[trigger] intervals@[j] == cached_entries@[j].covers(),
        decreases cached_entries@.len() - i,
    {
        intervals.push(cached_entries[i].interval());
        i = i + 1;
    }
    assert(intervals@ =~= covered(cached_entries@));
    proof {
        law_selection_exists(intervals@);
    }
    let picked = pick(&intervals);
    let mut selected: Vec<&'a E> = Vec::new();
    let mut k: usize = 0;
    while k < picked.len()
        invariant
            k <= picked@.len(),
            selected@.len() == k,
            forall|a: int| 0 <= a < picked@.len() ==> #[trigger] picked@[a] < cached_entries@.len(),
            forall|a: int| 0 <= a < k ==> *#[trigger] selected@[a] == cached_entries@[picked@[a] as int],
        decreases picked@.len() - k,
    {
        selected.push(&cached_entries[picked[k]]);
        k = k + 1;
    }
    proof {
        let indices = picked@.map_values(|i: usize| i as int);
        assert forall|a: int| 0 <= a < picked@.len() implies indices[a] == #[trigger] picked@[a] by {
        }
        assert(selected@.unref() =~= selected_entries(cached_entries@));
    }
    selected
}

/// The choice among intervals is longest first. Of two that are taken the earlier is longer, or as
/// long and listed first, and the two do not overlap. Whatever is left out overlaps one that is
/// taken and is longer, or as long and listed first.
pub proof fn law_longest_intervals_are_taken_first(intervals: Seq<TimeInterval>)
    ensures
        ({
            let picked = selection(intervals);
            let length = |i: int| intervals[i].end_ns - intervals[i].start_ns;
            let first = |i: int, j: int|
                length(i) > length(j) || (length(i) == length(j) && i < j);
            let overlap = |i: int, j: int|
                intervals[i].start_ns < intervals[j].end_ns && intervals[j].start_ns
                    < intervals[i].end_ns;
            &&& forall|a: int| 0 <= a < picked.len() ==> 0 <= #[trigger] picked[a] < intervals.len()
            &&& forall|a: int, b: int|
                0 <= a < b < picked.len() ==> first(#[trigger] picked[a], #[trigger] picked[b])
                    && !overlap(picked[a], picked[b])
            &&& forall|i: int|
                0 <= i < intervals.len() && !(#[trigger] picked.contains(i)) ==> exists|a: int|
                    0 <= a < picked.len() && first(#[trigger] picked[a], i) && overlap(
                        picked[a],
                        i,
                    )
        }),
{
    law_selection_exists(intervals);
    let picked = selection(intervals);
    let length = |i: int| intervals[i].end_ns - intervals[i].start_ns;
    let first = |i: int, j: int| length(i) > length(j) || (length(i) == length(j) && i < j);
    let overlap = |i: int, j: int|
        intervals[i].start_ns < intervals[j].end_ns && intervals[j].start_ns < intervals[i].end_ns;
    assert forall|i: int| 0 <= i < intervals.len() && !(#[trigger] picked.contains(i)) implies exists|
        a: int,
    |
        0 <= a < picked.len() && first(#[trigger] picked[a], i) && overlap(picked[a], i) by {
        assert(beaten(intervals, picked, i));
        let a = choose|a: int|
            0 <= a < picked.len() && preferred(intervals, #[trigger] picked[a], i)
                && intervals[picked[a]].meets(intervals[i]);
        assert(first(picked[a], i) && overlap(picked[a], i));
    }
}

/// The entries that are selected are those at the places that the choice among their intervals
/// takes, in its order.
pub proof fn law_selected_entries_are_those_chosen<E: OccupiedIntervalCacheEntry>(entries: Seq<E>)
    ensures
        covered(entries).len() == entries.len(),
        forall|i: int| 0 <= i < entries.len() ==> #[trigger] covered(entries)[i] == entries[i].covers(),
        selected_entries(entries).len() == selection(covered(entries)).len(),
        forall|k: int|
            0 <= k < selected_entries(entries).len() ==> #[trigger] selected_entries(entries)[k]
                == entries[selection(covered(entries))[k]],
        chosen(covered(entries)).len() == selection(covered(entries)).len(),
        forall|k: int|
            0 <= k < chosen(covered(entries)).len() ==> #[trigger] chosen(covered(entries))[k]
                == covered(entries)[selection(covered(entries))[k]],
{
}

} // verus!
