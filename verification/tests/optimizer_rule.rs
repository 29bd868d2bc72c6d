use std::sync::Arc;

use datafusion_query_cache::column::{Column, TableReference};
use datafusion_query_cache::expr::{
    Between, BinaryExpr, Cast, Expr, Operator, ScalarFunction,
};
use datafusion_query_cache::optimizer::{QCAggregateOptimizerRule, Rewrite, Skip};
use datafusion_query_cache::plan::{
    Aggregate, Filter, LogicalPlan, Projection, QCAggregatePlanNode, TableScan,
};
use datafusion_query_cache::planner::requested_interval;
use datafusion_query_cache::scalar::ScalarValue;
use datafusion_query_cache::scan::{extend_scan, plan_is_sound};
use datafusion_query_cache::{QueryCacheConfig, TimeInterval};

fn column(name: &str) -> Column {
    Column::new(Some(TableReference::Bare { table: "events".to_string() }), name.to_string())
}

fn col(name: &str) -> Expr {
    Expr::Column(column(name))
}

fn nanos(value: i64) -> Expr {
    Expr::Literal(ScalarValue::TimestampNanosecond(Some(value), None), None)
}

fn binary(left: Expr, op: Operator, right: Expr) -> Expr {
    Expr::BinaryExpr(BinaryExpr { left: Box::new(left), op, right: Box::new(right) })
}

fn range(start: i64, end: i64) -> Expr {
    binary(
        binary(col("timestamp"), Operator::GtEq, nanos(start)),
        Operator::And,
        binary(col("timestamp"), Operator::Lt, nanos(end)),
    )
}

fn texts(names: &[&str]) -> Vec<String> {
    names.iter().map(|name| name.to_string()).collect()
}

/// A scan of the table (timestamp, service, value).
fn scan(projection: Option<Vec<usize>>) -> LogicalPlan {
    let source = texts(&["timestamp", "service", "value"]);
    let projected = match &projection {
        Some(indices) => indices.iter().map(|i| source[*i].clone()).collect(),
        None => source.clone(),
    };
    LogicalPlan::TableScan(TableScan {
        node: 5,
        source_fields: source,
        projected_fields: projected,
        projection,
        filters: vec![],
    })
}

/// The scan with filters of its own.
fn scan_where(filters: Vec<Expr>) -> LogicalPlan {
    match scan(None) {
        LogicalPlan::TableScan(scan) => LogicalPlan::TableScan(TableScan { filters, ..scan }),
        other => other,
    }
}

fn filter(predicate: Expr, input: LogicalPlan) -> LogicalPlan {
    LogicalPlan::Filter(Filter { predicate, input: Box::new(input) })
}

fn aggregate(input: LogicalPlan, group_expr: Vec<Expr>) -> LogicalPlan {
    LogicalPlan::Aggregate(Aggregate {
        input: Box::new(input),
        group_expr,
        aggr_expr: vec![Expr::Other(1)],
    })
}

fn date_trunc(name: &str) -> Expr {
    Expr::ScalarFunction(ScalarFunction {
        name: "date_trunc".to_string(),
        func: 2,
        immutable: true,
        args: vec![Expr::Other(9), col(name)],
    })
}

fn function(name: &str, immutable: bool) -> Expr {
    Expr::ScalarFunction(ScalarFunction {
        name: name.to_string(),
        func: 0,
        immutable,
        args: vec![nanos(3)],
    })
}

/// The plan as text, with timestamp literals as a plan prints them.
fn printed(plan: &LogicalPlan) -> String {
    format!("{:?}", plan)
        .replace("TimestampNanosecond(Some(", "TimestampNanosecond(")
        .replace("), None)", ", None)")
}

fn rule() -> QCAggregateOptimizerRule<(), ()> {
    let config = QueryCacheConfig::new(column("timestamp"), ()).with_group_by_function("date_trunc");
    QCAggregateOptimizerRule::new((), Arc::new(config))
}

fn rewrite(plan: &LogicalPlan) -> Rewrite {
    assert!(plan_is_sound(plan));
    rule().rewrite(plan, &|plan: &LogicalPlan| format!("{:?}", plan))
}

fn transformed(plan: &LogicalPlan) -> QCAggregatePlanNode {
    match rewrite(plan) {
        Rewrite::Transformed(node) => node,
        other => panic!("expected a cached aggregation, got {:?}", other),
    }
}

fn skipped(plan: &LogicalPlan) -> Skip {
    match rewrite(plan) {
        Rewrite::Unchanged(skip) => skip,
        other => panic!("expected an unchanged plan, got {:?}", other),
    }
}

#[test]
fn a_filtered_count_is_cached() {
    let plan = aggregate(filter(range(10, 20), scan(Some(vec![0]))), vec![]);
    let node = transformed(&plan);
    assert_eq!(node.input, plan);
    assert_eq!(node.temporal_column, column("timestamp"));
    assert_eq!(node.interval, Some(TimeInterval::new(10, 20)));
    // The key is the print of the plan without the bounds
    let text = Expr::Literal(ScalarValue::Utf8(Some("?".to_string())), None);
    let blank = binary(
        binary(col("timestamp"), Operator::GtEq, text.clone()),
        Operator::And,
        binary(col("timestamp"), Operator::Lt, text),
    );
    let keyed = aggregate(filter(blank, scan(Some(vec![0]))), vec![]);
    assert_eq!(node.fingerprint, format!("{:?}", keyed));
}

#[test]
fn queries_with_other_bounds_share_a_key() {
    let first = transformed(&aggregate(filter(range(10, 20), scan(None)), vec![]));
    let second = transformed(&aggregate(filter(range(30, 50), scan(None)), vec![]));
    assert_eq!(first.fingerprint, second.fingerprint);
    assert_eq!(second.interval, Some(TimeInterval::new(30, 50)));
    let grouped = transformed(&aggregate(
        filter(range(10, 20), scan(None)),
        vec![date_trunc("timestamp")],
    ));
    assert_ne!(first.fingerprint, grouped.fingerprint);
}

#[test]
fn an_unfiltered_aggregation_is_cached_for_all_time() {
    let plan = aggregate(scan(Some(vec![0, 2])), vec![col("value")]);
    let node = transformed(&plan);
    assert_eq!(node.interval, None);
    assert_eq!(node.input, plan);
}

#[test]
fn only_aggregations_are_cached() {
    assert_eq!(skipped(&scan(None)), Skip::NotAggregate);
    assert_eq!(skipped(&LogicalPlan::Other(1)), Skip::NotAggregate);
}

#[test]
fn several_temporal_group_bys_are_not_cached() {
    let plan = aggregate(scan(None), vec![date_trunc("timestamp"), date_trunc("timestamp")]);
    assert_eq!(skipped(&plan), Skip::SeveralTemporalGroupBys);
    // Group bys of other columns or functions do not count
    let plan = aggregate(scan(None), vec![date_trunc("timestamp"), date_trunc("value")]);
    assert_eq!(transformed(&plan).temporal_column, column("timestamp"));
}

#[test]
fn unstable_filters_are_not_cached() {
    let service = binary(col("service"), Operator::Eq, nanos(1));
    let plan = aggregate(filter(service.clone(), scan(None)), vec![]);
    assert_eq!(skipped(&plan), Skip::UnstableExpression);
    let mixed = binary(range(1, 2), Operator::And, service);
    let plan = aggregate(filter(mixed, scan(None)), vec![]);
    assert_eq!(skipped(&plan), Skip::UnstableExpression);
}

#[test]
fn bounds_out_of_range_are_told() {
    let predicate = binary(col("timestamp"), Operator::Gt, nanos(i64::MAX));
    let plan = aggregate(filter(predicate, scan(None)), vec![]);
    assert!(matches!(rewrite(&plan), Rewrite::BoundsOutOfRange));
}

#[test]
fn other_inputs_than_scans_are_not_cached() {
    assert_eq!(skipped(&aggregate(LogicalPlan::Other(1), vec![])), Skip::NotATableScan);
    let inner = aggregate(scan(None), vec![]);
    assert_eq!(skipped(&aggregate(inner, vec![])), Skip::NotATableScan);
    // With a temporal group by the input does not matter
    let plan = aggregate(LogicalPlan::Other(1), vec![date_trunc("timestamp")]);
    assert_eq!(transformed(&plan).input, plan);
}

#[test]
fn a_table_without_the_column_is_not_cached() {
    let other = LogicalPlan::TableScan(TableScan {
        node: 6,
        source_fields: texts(&["id"]),
        projected_fields: texts(&["id"]),
        projection: None,
        filters: vec![],
    });
    assert_eq!(skipped(&aggregate(other, vec![])), Skip::ColumnNotInTable);
}

#[test]
fn the_temporal_column_is_added_to_the_scan() {
    let plan = aggregate(scan(Some(vec![2])), vec![]);
    let node = transformed(&plan);
    assert_eq!(node.input, aggregate(scan(Some(vec![0, 2])), vec![]));

    let plan = aggregate(
        filter(range(1, 2), projection(scan(Some(vec![1, 2])))),
        vec![],
    );
    let node = transformed(&plan);
    // All that stands between the aggregation and the scan is kept
    let expected = aggregate(
        filter(range(1, 2), projection(scan(Some(vec![0, 1, 2])))),
        vec![],
    );
    assert_eq!(node.input, expected);
    assert_eq!(node.interval, Some(TimeInterval::new(1, 2)));
}

fn projection(input: LogicalPlan) -> LogicalPlan {
    LogicalPlan::Projection(Projection { node: 3, input: Box::new(input) })
}

fn text(value: &str) -> Expr {
    Expr::Literal(ScalarValue::Utf8(Some(value.to_string())), None)
}

fn service(name: &str) -> Expr {
    binary(col("service"), Operator::Eq, text(name))
}

/// A count over a filter under a projection.
fn count_under(predicate: Expr, columns: Vec<usize>) -> LogicalPlan {
    aggregate(projection(filter(predicate, scan(Some(columns)))), vec![])
}

#[test]
fn scans_are_found_through_projections_and_filters() {
    let plan = aggregate(projection(filter(range(1, 2), scan(None))), vec![]);
    assert_eq!(transformed(&plan).input, plan);
    let plan = aggregate(projection(projection(scan(None))), vec![]);
    assert_eq!(transformed(&plan).input, plan);
}

#[test]
fn filters_without_a_temporal_bound_are_not_cached_under_projections() {
    let plan = count_under(service("service_a"), vec![1]);
    assert_eq!(skipped(&plan), Skip::UnstableExpression);
    let plan = count_under(binary(col("value"), Operator::Gt, nanos(1)), vec![2]);
    assert_eq!(skipped(&plan), Skip::NoTemporalBound);
}

#[test]
fn dynamic_bounds_are_not_cached() {
    let now = function("now", false);
    let dynamic = binary(col("timestamp"), Operator::GtEq, now.clone());
    assert_eq!(skipped(&count_under(dynamic.clone(), vec![0])), Skip::UnstableExpression);
    let mixed = binary(range(1, 2), Operator::And, dynamic.clone());
    assert_eq!(skipped(&count_under(mixed.clone(), vec![0])), Skip::UnstableExpression);
    assert_eq!(
        skipped(&aggregate(filter(mixed, scan(None)), vec![])),
        Skip::UnstableExpression
    );
    // Nor where a further filter holds one
    let stacked = filter(range(1, 2), projection(filter(dynamic, scan(None))));
    assert_eq!(skipped(&aggregate(stacked, vec![])), Skip::UnstableExpression);
    // Nor between the bounds of another column
    let other = Expr::Between(Between {
        expr: Box::new(col("value")),
        negated: false,
        low: Box::new(now),
        high: Box::new(nanos(5)),
    });
    let mixed = binary(range(1, 2), Operator::And, other);
    assert_eq!(
        skipped(&aggregate(filter(mixed, scan(None)), vec![])),
        Skip::UnstableExpression
    );
}

#[test]
fn filters_with_immutable_functions_are_cached() {
    let other = |immutable: bool| {
        let least = Expr::Between(Between {
            expr: Box::new(col("value")),
            negated: false,
            low: Box::new(function("abs", immutable)),
            high: Box::new(Expr::Other(4)),
        });
        aggregate(filter(binary(range(1, 2), Operator::And, least), scan(None)), vec![])
    };
    assert_eq!(transformed(&other(true)).interval, Some(TimeInterval::new(1, 2)));
    assert_eq!(skipped(&other(false)), Skip::UnstableExpression);
    let dynamic = binary(range(1, 2), Operator::And, Expr::Dynamic(4));
    assert_eq!(skipped(&count_under(dynamic, vec![0])), Skip::UnstableExpression);
    let fixed = binary(range(1, 2), Operator::And, Expr::Other(4));
    assert_eq!(transformed(&count_under(fixed, vec![0])).interval, None);
}

#[test]
fn bounds_in_the_filters_of_a_scan_do_not_show_in_the_key() {
    let bound = |op: Operator, ns: i64| binary(col("timestamp"), op, nanos(ns));
    let query = |start: i64, end: i64| {
        let filters = vec![
            bound(Operator::GtEq, start),
            binary(col("value"), Operator::Gt, Expr::Other(4)),
            bound(Operator::Lt, end),
        ];
        aggregate(filter(range(start, end), scan_where(filters)), vec![])
    };
    let first = transformed(&query(10, 20));
    let second = transformed(&query(30, 50));
    assert_eq!(first.fingerprint, second.fingerprint);
    assert_eq!(first.interval, Some(TimeInterval::new(10, 20)));
    assert_eq!(second.interval, Some(TimeInterval::new(30, 50)));
    assert_eq!(first.input, query(10, 20));
    // Under a projection too
    let under = |start: i64, end: i64| {
        let filters = vec![range(start, end)];
        aggregate(projection(filter(range(start, end), scan_where(filters))), vec![])
    };
    assert_eq!(
        transformed(&under(10, 20)).fingerprint,
        transformed(&under(30, 50)).fingerprint
    );
    // A scan without the filters has another key
    let plain = aggregate(filter(range(10, 20), scan(None)), vec![]);
    assert_ne!(first.fingerprint, transformed(&plain).fingerprint);
}

#[test]
fn bounds_of_a_scan_narrow_the_interval() {
    let bound = |op: Operator, ns: i64| binary(col("timestamp"), op, nanos(ns));
    let query = |filters: Vec<Expr>| {
        aggregate(filter(range(10, 20), scan_where(filters)), vec![])
    };
    let interval = |filters: Vec<Expr>| transformed(&query(filters)).interval;
    assert_eq!(interval(vec![bound(Operator::Gt, 5)]), Some(TimeInterval::new(10, 20)));
    assert_eq!(interval(vec![bound(Operator::Gt, 12)]), Some(TimeInterval::new(13, 20)));
    assert_eq!(interval(vec![bound(Operator::LtEq, 12)]), Some(TimeInterval::new(10, 13)));
    assert_eq!(
        interval(vec![bound(Operator::GtEq, 12), bound(Operator::Lt, 15)]),
        Some(TimeInterval::new(12, 15))
    );
    assert_eq!(skipped(&query(vec![bound(Operator::Gt, 30)])), Skip::EmptyInterval);
    assert_eq!(skipped(&query(vec![bound(Operator::Gt, i64::MAX)])), Skip::EmptyInterval);
    // The interval carries the bound of the scan
    assert_eq!(
        transformed(&query(vec![bound(Operator::Gt, 12)])).fingerprint,
        transformed(&query(vec![bound(Operator::Gt, 15)])).fingerprint
    );
    let between = |low: i64, high: i64, negated: bool| {
        transformed(&query(vec![Expr::Between(Between {
            expr: Box::new(col("timestamp")),
            negated,
            low: Box::new(nanos(low)),
            high: Box::new(nanos(high)),
        })]))
    };
    assert_eq!(between(12, 14, false).interval, Some(TimeInterval::new(12, 15)));
    // What NOT BETWEEN keeps is no interval, so it stays in the key
    assert_eq!(between(12, 14, true).interval, Some(TimeInterval::new(10, 20)));
    assert_ne!(between(12, 14, true).fingerprint, between(12, 15, true).fingerprint);
}

#[test]
fn a_scan_alone_can_fix_the_interval() {
    let bounds = |start: i64| scan_where(vec![range(start, 20)]);
    let interval = Some(TimeInterval::new(10, 20));
    let plain = |start: i64| transformed(&aggregate(bounds(start), vec![]));
    assert_eq!(plain(10).interval, interval);
    assert_eq!(plain(10).fingerprint, plain(12).fingerprint);
    let value = binary(col("value"), Operator::Gt, nanos(1));
    let filtered = aggregate(filter(value.clone(), bounds(10)), vec![]);
    assert_eq!(transformed(&filtered).interval, interval);
    let under = aggregate(projection(filter(value, bounds(10))), vec![]);
    assert_eq!(transformed(&under).interval, interval);
}

#[test]
fn filters_of_a_scan_depend_on_the_row_alone() {
    let dynamic = scan_where(vec![binary(col("timestamp"), Operator::Gt, function("now", false))]);
    assert_eq!(skipped(&aggregate(dynamic, vec![])), Skip::UnstableExpression);
    let fixed = scan_where(vec![binary(col("value"), Operator::Gt, nanos(1))]);
    let plan = aggregate(fixed, vec![]);
    let node = transformed(&plan);
    assert_eq!(node.interval, None);
    assert_eq!(node.fingerprint, format!("{:?}", plan));
}

#[test]
fn timestamps_that_no_interval_carries_stay_in_the_key() {
    let key = |plan: &LogicalPlan| match rule().rewrite(plan, &printed) {
        Rewrite::Transformed(node) => node.fingerprint,
        other => panic!("{:?}", other),
    };
    // Compared with another column
    let query = |least: i64, start: i64| {
        let other = binary(col("value"), Operator::Gt, nanos(least));
        aggregate(filter(binary(range(start, 20), Operator::And, other), scan(None)), vec![])
    };
    assert!(key(&query(1, 5)).contains("TimestampNanosecond(1, None)"));
    assert_eq!(key(&query(1, 5)), key(&query(1, 6)));
    assert_ne!(key(&query(1, 5)), key(&query(2, 5)));
    // In a mixed filter under a projection
    let mixed = |start: i64| {
        count_under(binary(range(start, 20), Operator::And, service("a")), vec![0, 1])
    };
    assert_ne!(key(&mixed(5)), key(&mixed(6)));
}

#[test]
fn mixed_filters_under_projections_are_cached_as_they_stand() {
    let mixed = |start: i64, name: &str| {
        count_under(binary(range(start, 20), Operator::And, service(name)), vec![0, 1])
    };
    let node = transformed(&mixed(10, "service_a"));
    assert_eq!(node.input, mixed(10, "service_a"));
    assert_eq!(node.interval, None);
    assert_eq!(requested_interval(&node), Some(TimeInterval::new(i64::MIN, i64::MAX)));
    assert_eq!(node.fingerprint, format!("{:?}", mixed(10, "service_a")));
    // Another service or day has another key
    assert_ne!(node.fingerprint, transformed(&mixed(10, "service_b")).fingerprint);
    assert_ne!(node.fingerprint, transformed(&mixed(11, "service_a")).fingerprint);
}

#[test]
fn bounds_under_projections_fix_the_interval() {
    let node = transformed(&count_under(range(1, 2), vec![0]));
    assert_eq!(node.input, count_under(range(1, 2), vec![0]));
    assert_eq!(node.interval, Some(TimeInterval::new(1, 2)));
    assert_eq!(requested_interval(&node), Some(TimeInterval::new(1, 2)));
    let other = transformed(&count_under(range(5, 8), vec![0]));
    assert_eq!(node.fingerprint, other.fingerprint);
    assert_eq!(other.interval, Some(TimeInterval::new(5, 8)));
}

#[test]
fn only_the_bounds_of_the_interval_are_left_out_of_the_key() {
    let cast = |value: &str| {
        Expr::Cast(Cast { expr: Box::new(text(value)), data_type: 7 })
    };
    let query = |bound: Expr, least: &str| {
        let predicate = binary(
            binary(col("timestamp"), Operator::GtEq, bound),
            Operator::And,
            binary(col("service"), Operator::Gt, text(least)),
        );
        transformed(&aggregate(filter(predicate, scan(None)), vec![]))
    };
    let first = query(cast("1970-01-01T00:00:00.000000001Z"), "a");
    assert_eq!(first.interval, Some(TimeInterval::new(1, i64::MAX)));
    // A cast text carries a bound as a literal does
    let second = query(cast("1970-01-01T00:00:00.000000002Z"), "a");
    assert_eq!(second.interval, Some(TimeInterval::new(2, i64::MAX)));
    assert_eq!(first.fingerprint, second.fingerprint);
    assert_eq!(first.fingerprint, query(nanos(7), "a").fingerprint);
    assert_ne!(first.fingerprint, query(nanos(7), "b").fingerprint);
    // BETWEEN carries two
    let between = |low: i64, high: i64| {
        let predicate = Expr::Between(Between {
            expr: Box::new(col("timestamp")),
            negated: false,
            low: Box::new(nanos(low)),
            high: Box::new(nanos(high)),
        });
        transformed(&aggregate(filter(predicate, scan(None)), vec![]))
    };
    assert_eq!(between(1, 2).fingerprint, between(3, 9).fingerprint);
    assert_eq!(between(3, 9).interval, Some(TimeInterval::new(3, 10)));
}

#[test]
fn filters_without_a_bound_are_keyed_as_they_stand() {
    let query = |least: i64| {
        let predicate = binary(col("value"), Operator::Gt, nanos(least));
        aggregate(filter(predicate, scan(None)), vec![])
    };
    let node = transformed(&query(1));
    assert_eq!(node.interval, None);
    assert_eq!(node.fingerprint, format!("{:?}", query(1)));
    assert_ne!(node.fingerprint, transformed(&query(2)).fingerprint);
}

#[test]
fn a_query_has_one_temporal_column() {
    let config = QueryCacheConfig::new(column("timestamp"), ())
        .with_temporal_column(column("received"))
        .with_group_by_function("date_trunc");
    let rule = QCAggregateOptimizerRule::new((), Arc::new(config));
    let display = |plan: &LogicalPlan| format!("{:?}", plan);
    let other = binary(col("received"), Operator::Lt, nanos(7));
    let mixed = binary(range(1, 2), Operator::And, other.clone());
    for plan in [
        aggregate(filter(other.clone(), scan(None)), vec![]),
        aggregate(filter(mixed.clone(), scan(None)), vec![]),
        aggregate(projection(filter(mixed, scan(None))), vec![]),
        aggregate(filter(other, scan(None)), vec![date_trunc("timestamp")]),
        aggregate(filter(range(1, 2), scan(None)), vec![date_trunc("received")]),
        aggregate(
            filter(
                range(1, 2),
                scan_where(vec![binary(col("received"), Operator::Gt, nanos(7))]),
            ),
            vec![],
        ),
    ] {
        assert!(matches!(
            rule.rewrite(&plan, &display),
            Rewrite::Unchanged(Skip::OtherTemporalColumn)
        ));
    }
    // A comparison of the two columns bounds neither by a constant
    let order = binary(col("received"), Operator::GtEq, col("timestamp"));
    let predicate = binary(range(1, 2), Operator::And, order);
    let plan = aggregate(filter(predicate, scan(None)), vec![]);
    match rule.rewrite(&plan, &display) {
        Rewrite::Transformed(node) => {
            assert_eq!(node.temporal_column, column("timestamp"));
            assert_eq!(node.interval, Some(TimeInterval::new(1, 2)));
        }
        other => panic!("{:?}", other),
    }
}

#[test]
fn empty_intervals_are_not_cached() {
    let predicate = Expr::Between(Between {
        expr: Box::new(col("timestamp")),
        negated: false,
        low: Box::new(nanos(20)),
        high: Box::new(nanos(10)),
    });
    assert_eq!(
        skipped(&aggregate(filter(predicate, scan(None)), vec![])),
        Skip::EmptyInterval
    );
    let predicate = binary(col("timestamp"), Operator::GtEq, nanos(i64::MAX));
    assert_eq!(
        skipped(&aggregate(filter(predicate, scan(None)), vec![])),
        Skip::EmptyInterval
    );
    // Bounds that contradict each other
    assert_eq!(
        skipped(&aggregate(filter(range(20, 10), scan(None)), vec![])),
        Skip::UnstableExpression
    );
}

#[test]
fn extended_scans_are_sorted() {
    let extended = match scan(Some(vec![2, 0])) {
        LogicalPlan::TableScan(scan) => extend_scan(&scan, 1),
        _ => panic!("expected a scan"),
    };
    assert_eq!(extended.projection, Some(vec![0, 1, 2]));
    assert_eq!(extended.projected_fields, texts(&["timestamp", "service", "value"]));
}

#[test]
fn unsound_scans_are_told() {
    let short = LogicalPlan::TableScan(TableScan {
        node: 6,
        source_fields: texts(&["id"]),
        projected_fields: vec![],
        projection: None,
        filters: vec![],
    });
    assert!(!plan_is_sound(&aggregate(short, vec![])));
    let outside = LogicalPlan::TableScan(TableScan {
        node: 6,
        source_fields: texts(&["id"]),
        projected_fields: texts(&["id"]),
        projection: Some(vec![1]),
        filters: vec![],
    });
    assert!(!plan_is_sound(&outside));
}

#[test]
fn group_bys_need_an_allowed_function_and_column() {
    let rule = rule();
    assert_eq!(rule.find_temporal_group_by(&date_trunc("timestamp")), Some(column("timestamp")));
    assert_eq!(rule.find_temporal_group_by(&date_trunc("value")), None);
    assert_eq!(rule.find_temporal_group_by(&col("timestamp")), None);
    let other = Expr::ScalarFunction(ScalarFunction {
        name: "date_bin".to_string(),
        func: 2,
        immutable: true,
        args: vec![Expr::Other(9), col("timestamp")],
    });
    assert_eq!(rule.find_temporal_group_by(&other), None);
    let short = Expr::ScalarFunction(ScalarFunction {
        name: "date_trunc".to_string(),
        func: 2,
        immutable: true,
        args: vec![col("timestamp")],
    });
    assert_eq!(rule.find_temporal_group_by(&short), None);
    assert_eq!(rule.name(), "query-cache-agg-group-by");
}

#[test]
fn a_group_by_column_is_the_temporal_column() {
    let config = QueryCacheConfig::new(column("timestamp"), ())
        .with_temporal_column(column("received"))
        .with_group_by_function("date_trunc");
    let rule = QCAggregateOptimizerRule::new((), Arc::new(config));
    let predicate = binary(col("received"), Operator::Lt, nanos(7));
    let plan = aggregate(filter(predicate, LogicalPlan::Other(1)), vec![date_trunc("received")]);
    match rule.rewrite(&plan, &|plan: &LogicalPlan| format!("{:?}", plan)) {
        Rewrite::Transformed(node) => {
            assert_eq!(node.temporal_column, column("received"));
            assert_eq!(node.interval, Some(TimeInterval::new(i64::MIN, 7)));
        }
        other => panic!("{:?}", other),
    }
}

#[test]
fn settings_are_kept() {
    let config = QueryCacheConfig::new(column("timestamp"), "cache");
    assert!(config.allow_temporal_column(&column("timestamp")));
    assert!(!config.allow_temporal_column(&column("received")));
    assert!(!config.allow_group_by_function("date_trunc"));
    assert_eq!(config.override_now(), None);
    assert_eq!(config.now(Some(3)), 3);
    let config = config
        .with_temporal_column(column("received"))
        .with_group_by_function("date_trunc")
        .with_override_now(Some(5));
    assert!(config.allow_temporal_column(&column("timestamp")));
    assert!(config.allow_temporal_column(&column("received")));
    assert!(config.allow_group_by_function("date_trunc"));
    assert_eq!(config.default_temporal_column(), &column("timestamp"));
    assert_eq!(config.now(Some(3)), 5);
    assert_eq!(config.now(None), 5);
    assert_eq!(*config.cache(), "cache");
}
