use datafusion_query_cache::gaps::compute_gaps;
use datafusion_query_cache::selection::select_maximal_cached_intervals;
use datafusion_query_cache::{MemoryQueryCache, OccupiedIntervalCacheEntry, TimeInterval};

/// A cache entry that only knows its interval.
#[derive(Debug)]
struct Entry(TimeInterval);

impl OccupiedIntervalCacheEntry for Entry {
    fn covers(&self) -> TimeInterval {
        self.0
    }

    fn interval(&self) -> TimeInterval {
        self.0
    }
}

fn entries(intervals: &[(i64, i64)]) -> Vec<Entry> {
    intervals.iter().map(|(start, end)| Entry(TimeInterval::new(*start, *end))).collect()
}

/// The selected intervals and the gaps for a request.
fn plan(
    requested: (i64, i64),
    cached: &[(i64, i64)],
) -> (Vec<(i64, i64)>, Vec<(i64, i64)>) {
    let requested = TimeInterval::new(requested.0, requested.1);
    let cached = entries(cached);
    let selected = select_maximal_cached_intervals(&cached, &requested);
    let gaps = compute_gaps(&requested, &selected);
    (
        selected.iter().map(|e| (e.0.start_ns, e.0.end_ns)).collect(),
        gaps.iter().map(|g| (g.start_ns, g.end_ns)).collect(),
    )
}

#[test]
fn nothing_cached_all_computed() {
    assert_eq!(plan((3, 10), &[]), (vec![], vec![(3, 10)]));
}

#[test]
fn gaps_before_between_and_after() {
    assert_eq!(
        plan((3, 10), &[(4, 6), (7, 9)]),
        (vec![(4, 6), (7, 9)], vec![(3, 4), (6, 7), (9, 10)])
    );
}

#[test]
fn gaps_come_in_the_order_of_time() {
    assert_eq!(
        plan((0, 20), &[(15, 16), (2, 9)]),
        (vec![(2, 9), (15, 16)], vec![(0, 2), (9, 15), (16, 20)])
    );
}

#[test]
fn adjacent_intervals_leave_no_gap() {
    assert_eq!(plan((1, 5), &[(1, 3), (3, 5)]), (vec![(1, 3), (3, 5)], vec![]));
}

#[test]
fn the_longest_wins() {
    // [2, 8) overlaps both others and is longer than either
    assert_eq!(
        plan((0, 10), &[(0, 5), (2, 8), (7, 10)]),
        (vec![(2, 8)], vec![(0, 2), (8, 10)])
    );
}

#[test]
fn of_equal_lengths_the_first_wins() {
    assert_eq!(plan((0, 10), &[(3, 6), (5, 8), (0, 3)]).0, vec![(3, 6), (0, 3)]);
    assert_eq!(plan((0, 10), &[(5, 8), (3, 6), (0, 3)]).0, vec![(5, 8), (0, 3)]);
}

#[test]
fn an_interval_around_the_request_leaves_no_gap() {
    assert_eq!(plan((2, 5), &[(1, 7)]), (vec![(1, 7)], vec![]));
    assert_eq!(plan((2, 5), &[(1, 3)]), (vec![(1, 3)], vec![(3, 5)]));
}

#[test]
fn all_time_is_the_longest() {
    assert_eq!(
        plan((i64::MIN, i64::MAX), &[(0, 10), (i64::MIN, i64::MAX)]),
        (vec![(i64::MIN, i64::MAX)], vec![])
    );
}

#[test]
fn pieces_hold_each_requested_instant_once() {
    let requested = (0, 30);
    let cached = [(3, 9), (8, 12), (1, 4), (20, 21), (11, 19), (28, 30)];
    let (selected, gaps) = plan(requested, &cached);
    for t in requested.0..requested.1 {
        let holders = selected
            .iter()
            .chain(gaps.iter())
            .filter(|(start, end)| *start <= t && t < *end)
            .count();
        assert_eq!(holders, 1, "instant {}", t);
    }
}

/// Plan a request from a cache and store its gaps.
fn request(cache: &mut MemoryQueryCache, start: i64, end: i64) -> (Vec<TimeInterval>, Vec<TimeInterval>) {
    let requested = TimeInterval::new(start, end);
    let entries = cache.lookup("key", &requested);
    let selected = select_maximal_cached_intervals(&entries, &requested);
    let gaps = compute_gaps(&requested, &selected);
    let read: Vec<TimeInterval> = selected.iter().map(|e| e.interval()).collect();
    for gap in gaps.iter().rev() {
        cache.put("key", *gap, &[]);
    }
    (read, gaps)
}

#[test]
fn a_repeated_request_computes_nothing() {
    let mut cache = MemoryQueryCache::new();
    assert_eq!(request(&mut cache, 4, 6), (vec![], vec![TimeInterval::new(4, 6)]));
    assert_eq!(request(&mut cache, 7, 9), (vec![], vec![TimeInterval::new(7, 9)]));
    let (read, computed) = request(&mut cache, 3, 10);
    assert_eq!(read, vec![TimeInterval::new(4, 6), TimeInterval::new(7, 9)]);
    assert_eq!(
        computed,
        vec![TimeInterval::new(3, 4), TimeInterval::new(6, 7), TimeInterval::new(9, 10)]
    );
    let (read, computed) = request(&mut cache, 3, 10);
    assert_eq!(read.len(), 5);
    assert_eq!(computed, vec![]);
    // The earlier request still finds its own interval
    assert_eq!(request(&mut cache, 4, 6), (vec![TimeInterval::new(4, 6)], vec![]));
}

#[test]
fn a_wider_request_reuses_a_narrow_interval() {
    let mut cache = MemoryQueryCache::new();
    // Minutes of 2024-01-01: cache [2, 3), ask for [1, 4)
    request(&mut cache, 1704067320000000000, 1704067380000000000);
    let (read, computed) = request(&mut cache, 1704067260000000000, 1704067440000000000);
    assert_eq!(read, vec![TimeInterval::new(1704067320000000000, 1704067380000000000)]);
    assert_eq!(
        computed,
        vec![
            TimeInterval::new(1704067260000000000, 1704067320000000000),
            TimeInterval::new(1704067380000000000, 1704067440000000000),
        ]
    );
}

#[test]
fn a_nested_request_reads_the_interval_around_it() {
    let mut cache = MemoryQueryCache::new();
    request(&mut cache, 1, 7);
    let (read, computed) = request(&mut cache, 2, 5);
    assert_eq!(read, vec![TimeInterval::new(1, 7)]);
    assert_eq!(computed, vec![]);
    assert_eq!(request(&mut cache, 1, 7), (vec![TimeInterval::new(1, 7)], vec![]));
}

#[test]
fn a_close_interval_is_not_used() {
    let mut cache = MemoryQueryCache::new();
    request(&mut cache, 1, 2);
    assert_eq!(request(&mut cache, 3, 4), (vec![], vec![TimeInterval::new(3, 4)]));
}

#[test]
fn containment_and_length() {
    let interval = TimeInterval::new(10, 20);
    assert!(interval.is_contained_in(&TimeInterval::new(10, 20)));
    assert!(interval.is_contained_in(&TimeInterval::new(0, 30)));
    assert!(!interval.is_contained_in(&TimeInterval::new(11, 30)));
    assert!(!interval.is_contained_in(&TimeInterval::new(0, 19)));
    assert_eq!(interval.length(), 10);
    assert_eq!(TimeInterval::new(20, 10).length(), -10);
}

#[test]
fn overlap_needs_a_shared_instant() {
    let interval = TimeInterval::new(10, 20);
    assert!(interval.overlaps(&TimeInterval::new(19, 30)));
    assert!(interval.overlaps(&TimeInterval::new(0, 11)));
    assert!(interval.overlaps(&TimeInterval::new(12, 13)));
    assert!(!interval.overlaps(&TimeInterval::new(20, 30)));
    assert!(!interval.overlaps(&TimeInterval::new(0, 10)));
}
