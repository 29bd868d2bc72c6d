use datafusion_query_cache::fingerprint::{key_of_print, normalize_schemas};
use datafusion_query_cache::normalize_fingerprint_for_caching;

#[test]
fn schemas_of_table_scans_are_blanked() {
    assert_eq!(
        normalize_fingerprint_for_caching("TableScan: events [timestamp:Timestamp(us), id:Int64]"),
        "TableScan: events [normalized_schema]"
    );
    // A scan that lists its columns keeps them
    assert_eq!(
        normalize_fingerprint_for_caching("TableScan: events projection=[id] [id:Int64]"),
        "TableScan: events projection=[id] [id:Int64]"
    );
}

#[test]
fn every_table_scan_keeps_the_name_of_its_table() {
    assert_eq!(
        normalize_fingerprint_for_caching(
            "Union\n  TableScan: events [id:Int64]\n  TableScan: metrics_1 [id:Int64, ts:Date32]"
        ),
        "Union\n  TableScan: events [normalized_schema]\n  TableScan: metrics_1 [normalized_schema]"
    );
    assert_ne!(
        normalize_fingerprint_for_caching("TableScan: events [id:Int64]"),
        normalize_fingerprint_for_caching("TableScan: metrics [id:Int64]")
    );
}

#[test]
fn timestamp_literals_are_blanked() {
    assert_eq!(
        normalize_fingerprint_for_caching(
            r#"a >= TimestampMicrosecond(1704067200000000, Some("UTC")) AND b < TimestampNanosecond(5, None) AND v > Int64(1)"#
        ),
        "a >= TimestampMicrosecond(?, None) AND b < TimestampNanosecond(?, None) AND v > Int64(1)"
    );
    assert_eq!(
        normalize_fingerprint_for_caching("ts > TimestampMicrosecond(5,  Some(\"+00:00\"))"),
        "ts > TimestampMicrosecond(?, None)"
    );
}

#[test]
fn other_literals_stay() {
    let text = "TimestampMillisecond(5, None) TimestampSecond(5, None) \
        TimestampNanosecond(-5, None) service = Utf8(\"a\")";
    assert_eq!(normalize_fingerprint_for_caching(text), text);
}

#[test]
fn keys_of_prints_with_other_timestamps_are_equal() {
    let first = "Aggregate\n  Filter: ts >= TimestampNanosecond(1, None)\n    TableScan: t [ts:Timestamp]";
    let second = "Aggregate\n  Filter: ts >= TimestampNanosecond(2, None)\n    TableScan: t [ts:Timestamp]";
    assert_eq!(
        normalize_fingerprint_for_caching(first),
        normalize_fingerprint_for_caching(second)
    );
}

#[test]
fn a_print_with_a_timestamp_is_keyed_with_it() {
    let print = "ts > TimestampNanosecond(5, None)\n  TableScan: t [ts:Timestamp]";
    assert_eq!(
        key_of_print(print),
        "ts > TimestampNanosecond(5, None)\n  TableScan: t [normalized_schema]"
    );
    assert_eq!(key_of_print("TimestampMicrosecond(7, None)"), "TimestampMicrosecond(7, None)");
    assert_eq!(key_of_print("TableScan: t [ts:Timestamp]"), "TableScan: t [normalized_schema]");
    assert_eq!(normalize_schemas(print), key_of_print(print));
}

#[test]
fn keys_do_not_depend_on_the_schema() {
    let first = "Aggregate: groupBy=[[]]\n  TableScan: t [ts:Timestamp]";
    let second = "Aggregate: groupBy=[[]]\n  TableScan: t [ts:Timestamp, id:Int64]";
    assert_eq!(
        normalize_fingerprint_for_caching(first),
        normalize_fingerprint_for_caching(second)
    );
}

#[test]
fn plain_text_stays() {
    assert_eq!(normalize_fingerprint_for_caching(""), "");
    assert_eq!(normalize_fingerprint_for_caching("count(*)"), "count(*)");
}
