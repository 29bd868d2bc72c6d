use std::sync::Arc;

use datafusion::arrow::array::{Int64Array, RecordBatch, StringArray};
use datafusion::arrow::datatypes::{DataType, Field, Schema};
use datafusion_query_cache::batch::{total_rows, Batch};
use datafusion_query_cache::cache::EntrySummary;
use datafusion_query_cache::{MemoryQueryCache, OccupiedIntervalCacheEntry, TimeInterval};

fn create_batch(ids: Vec<i64>) -> Batch {
    let schema = Arc::new(Schema::new(vec![
        Field::new("id", DataType::Int64, false),
        Field::new("value", DataType::Utf8, false),
    ]));
    let texts: Vec<&str> = ids.iter().map(|_| "test").collect();
    let inner = RecordBatch::try_new(
        schema,
        vec![Arc::new(Int64Array::from(ids)), Arc::new(StringArray::from(texts))],
    )
    .unwrap();
    Batch { inner }
}

/// A simple dummy batch
fn create_dummy_batch() -> Batch {
    create_batch(vec![1])
}

#[test]
fn test_single_interval_lookup() {
    let mut cache = MemoryQueryCache::default();
    let fingerprint = "test_query";

    // Put an interval [10, 20) into cache
    let interval = TimeInterval::new(10, 20);
    cache.put(fingerprint, interval, &[create_dummy_batch()]);

    // Lookup the exact same interval - should find it
    let entries = cache.lookup(fingerprint, &interval);
    assert_eq!(entries.len(), 1);
    assert_eq!(entries[0].interval(), interval);

    // Verify the data
    let data = entries[0].get();
    assert_eq!(data.len(), 1);
    assert_eq!(data[0].inner.num_rows(), 1);
}

#[test]
fn test_nested_intervals_contained() {
    let mut cache = MemoryQueryCache::default();
    let fingerprint = "test_query";

    // Put a large interval [10, 50) into cache
    cache.put(fingerprint, TimeInterval::new(10, 50), &[create_dummy_batch()]);

    // Lookup a nested interval [20, 30) that is completely contained within [10, 50)
    let entries = cache.lookup(fingerprint, &TimeInterval::new(20, 30));

    // Should find the large interval that contains the nested one
    assert_eq!(entries.len(), 1);
    assert_eq!(entries[0].interval(), TimeInterval::new(10, 50));
}

#[test]
fn test_nested_intervals_container() {
    let mut cache = MemoryQueryCache::default();
    let fingerprint = "test_query";

    // Put a small interval [20, 30) into cache
    cache.put(fingerprint, TimeInterval::new(20, 30), &[create_dummy_batch()]);

    // Lookup a large interval [10, 50) that completely contains the cached [20, 30)
    let entries = cache.lookup(fingerprint, &TimeInterval::new(10, 50));

    // Should find the small interval that overlaps with the large one
    assert_eq!(entries.len(), 1);
    assert_eq!(entries[0].interval(), TimeInterval::new(20, 30));
}

#[test]
fn test_overlapping_intervals_partial() {
    let mut cache = MemoryQueryCache::default();
    let fingerprint = "test_query";

    // Put two overlapping intervals: [10, 30) and [20, 40)
    let interval1 = TimeInterval::new(10, 30);
    let interval2 = TimeInterval::new(20, 40);
    cache.put(fingerprint, interval1, &[create_dummy_batch()]);
    cache.put(fingerprint, interval2, &[create_dummy_batch()]);

    // Lookup interval [15, 35) that overlaps with both cached intervals
    let entries = cache.lookup(fingerprint, &TimeInterval::new(15, 35));

    // Should find both overlapping intervals
    assert_eq!(entries.len(), 2);
    let found: std::collections::HashSet<TimeInterval> =
        entries.iter().map(|e| e.interval()).collect();
    let expected: std::collections::HashSet<TimeInterval> =
        [interval1, interval2].into_iter().collect();
    assert_eq!(found, expected);
}

#[test]
fn test_non_overlapping_intervals() {
    let mut cache = MemoryQueryCache::default();
    let fingerprint = "test_query";

    // Put interval [10, 20) into cache
    cache.put(fingerprint, TimeInterval::new(10, 20), &[create_dummy_batch()]);

    // Lookup a completely separate interval [30, 40) that doesn't overlap
    let entries = cache.lookup(fingerprint, &TimeInterval::new(30, 40));

    // Should find no overlapping intervals
    assert_eq!(entries.len(), 0);
}

#[test]
fn test_adjacent_intervals_touching() {
    let mut cache = MemoryQueryCache::default();
    let fingerprint = "test_query";

    // Put adjacent intervals with a gap: [10, 20) and [25, 35)
    cache.put(fingerprint, TimeInterval::new(10, 20), &[create_dummy_batch()]);
    cache.put(fingerprint, TimeInterval::new(25, 35), &[create_dummy_batch()]);

    // Lookup interval [12, 18) that overlaps with first but not second
    let entries = cache.lookup(fingerprint, &TimeInterval::new(12, 18));

    // Should find only the first interval
    assert_eq!(entries.len(), 1);
    assert_eq!(entries[0].interval(), TimeInterval::new(10, 20));
}

#[test]
fn test_multiple_fingerprints() {
    let mut cache = MemoryQueryCache::default();

    // Put intervals for different fingerprints
    cache.put("query1", TimeInterval::new(10, 20), &[create_dummy_batch()]);
    cache.put("query2", TimeInterval::new(10, 20), &[create_dummy_batch()]);

    // Lookup should only return intervals for the specific fingerprint
    let entries1 = cache.lookup("query1", &TimeInterval::new(10, 20));
    let entries2 = cache.lookup("query2", &TimeInterval::new(10, 20));
    assert_eq!(entries1.len(), 1);
    assert_eq!(entries2.len(), 1);
    assert_eq!(entries1[0].interval(), TimeInterval::new(10, 20));
    assert_eq!(entries2[0].interval(), TimeInterval::new(10, 20));

    // Lookup for non-existent fingerprint should return empty
    let entries_empty = cache.lookup("query3", &TimeInterval::new(10, 20));
    assert_eq!(entries_empty.len(), 0);
}

#[test]
fn test_empty_cache_lookup() {
    let cache = MemoryQueryCache::default();

    // Lookup on empty cache should return empty
    let entries = cache.lookup("any_fingerprint", &TimeInterval::new(10, 20));
    assert_eq!(entries.len(), 0);
}

#[test]
fn test_multiple_batches_per_interval() {
    let mut cache = MemoryQueryCache::default();
    let fingerprint = "test_query";

    // Put multiple batches for the same interval
    let interval = TimeInterval::new(10, 20);
    cache.put(fingerprint, interval, &[create_dummy_batch(), create_dummy_batch()]);

    // Lookup should return the interval with both batches
    let entries = cache.lookup(fingerprint, &interval);
    assert_eq!(entries.len(), 1);
    assert_eq!(entries[0].interval(), interval);
    let data = entries[0].get();
    assert_eq!(data.len(), 2);
    assert_eq!(data[0].inner.num_rows(), 1);
    assert_eq!(data[1].inner.num_rows(), 1);
}

#[test]
fn entries_come_in_the_order_in_which_they_were_put() {
    let mut cache = MemoryQueryCache::new();
    cache.put("a", TimeInterval::new(30, 40), &[create_batch(vec![3])]);
    cache.put("b", TimeInterval::new(0, 100), &[create_batch(vec![9])]);
    cache.put("a", TimeInterval::new(0, 10), &[create_batch(vec![1])]);
    cache.put("a", TimeInterval::new(10, 20), &[create_batch(vec![2, 5])]);

    let entries = cache.lookup("a", &TimeInterval::new(5, 35));
    let found: Vec<TimeInterval> = entries.iter().map(|e| e.interval()).collect();
    assert_eq!(
        found,
        vec![TimeInterval::new(30, 40), TimeInterval::new(0, 10), TimeInterval::new(10, 20)]
    );
    assert_eq!(entries[0].get()[0].inner, create_batch(vec![3]).inner);
    assert_eq!(entries[2].get()[0].inner, create_batch(vec![2, 5]).inner);
    assert_eq!(entries[1].fingerprint(), "a");
}

#[test]
fn touching_intervals_do_not_overlap() {
    let mut cache = MemoryQueryCache::new();
    cache.put("q", TimeInterval::new(10, 20), &[]);
    assert_eq!(cache.lookup("q", &TimeInterval::new(20, 30)).len(), 0);
    assert_eq!(cache.lookup("q", &TimeInterval::new(0, 10)).len(), 0);
    assert_eq!(cache.lookup("q", &TimeInterval::new(19, 20)).len(), 1);
    assert_eq!(cache.lookup("q", &TimeInterval::new(i64::MIN, i64::MAX)).len(), 1);
}

#[test]
fn an_entry_outlives_later_puts() {
    let mut cache = MemoryQueryCache::new();
    cache.put("q", TimeInterval::new(10, 20), &[create_batch(vec![7])]);
    let entries = cache.lookup("q", &TimeInterval::new(10, 20));
    cache.put("q", TimeInterval::new(10, 20), &[create_batch(vec![8])]);
    assert_eq!(entries.len(), 1);
    assert_eq!(entries[0].get()[0].inner, create_batch(vec![7]).inner);
    assert_eq!(cache.lookup("q", &TimeInterval::new(10, 20)).len(), 2);
}

#[test]
fn the_cache_prints_tables() {
    let mut cache = MemoryQueryCache::new();
    assert_eq!(cache.display(), "## MemoryQueryCache:\n");
    cache.put("fp", TimeInterval::new(-10, 20), &[create_batch(vec![1, 2])]);
    let expected = "## MemoryQueryCache:\n\
        Fingerprint (cache key): fp\n\
        interval: [-10, 20) data:\n\
        +----+-------+\n\
        | id | value |\n\
        +----+-------+\n\
        | 1  | test  |\n\
        | 2  | test  |\n\
        +----+-------+\n";
    assert_eq!(cache.display(), expected);
    assert_eq!(cache.try_display(), Some(expected.to_string()));
}

#[test]
fn the_cache_prints_each_interval_under_its_fingerprint() {
    let mut cache = MemoryQueryCache::new();
    cache.put("one", TimeInterval::new(0, 1), &[]);
    cache.put("two", TimeInterval::new(5, 6), &[]);
    cache.put("one", TimeInterval::new(2, 3), &[]);
    let text = cache.display();
    let keys: Vec<&str> =
        text.lines().filter(|line| line.starts_with("Fingerprint")).collect();
    assert_eq!(
        keys,
        vec![
            "Fingerprint (cache key): one",
            "Fingerprint (cache key): one",
            "Fingerprint (cache key): two",
        ]
    );
    assert!(text.contains("interval: [2, 3) data:\n"));
}

#[test]
fn summaries_count_rows() {
    let mut cache = MemoryQueryCache::new();
    cache.put("one", TimeInterval::new(0, 1), &[create_batch(vec![1, 2]), create_batch(vec![3])]);
    cache.put("two", TimeInterval::new(5, 6), &[]);
    let summaries = cache.summaries().unwrap();
    assert_eq!(
        summaries,
        vec![
            EntrySummary {
                fingerprint: "one".to_string(),
                interval: TimeInterval::new(0, 1),
                num_rows: 3,
            },
            EntrySummary {
                fingerprint: "two".to_string(),
                interval: TimeInterval::new(5, 6),
                num_rows: 0,
            },
        ]
    );
    assert_eq!(total_rows(&[create_batch(vec![1, 2, 3]), create_batch(vec![4])]), Some(4));
}
