use std::sync::Arc;

use datafusion_query_cache::bounds::with_interval_bounds;
use datafusion_query_cache::column::Column;
use datafusion_query_cache::error::PlanError;
use datafusion_query_cache::exec::{
    CacheUpdateAggregateExec, CachedAggregateExec, DisplayFormat, ExecutionPlan, PhysicalExpr,
};
use datafusion_query_cache::expr::{BinaryExpr, Expr, Operator};
use datafusion_query_cache::physical::{
    find_existing_inner_exec, find_timestamp_column_in_plan, names_are_true, AggregateMode, Field,
    PhysicalPlan, TimestampColumn,
};
use datafusion_query_cache::plan::{Aggregate, Filter, LogicalPlan, QCAggregatePlanNode};
use datafusion_query_cache::planner::{requested_interval, QCAggregateExecPlanner, Step};
use datafusion_query_cache::report::cache_state;
use datafusion_query_cache::scalar::{ScalarValue, TimeUnit};
use datafusion_query_cache::{OccupiedIntervalCacheEntry, QueryCacheConfig, TimeInterval};

/// A cache entry that only knows its interval.
#[derive(Debug, PartialEq)]
struct Entry(TimeInterval);

impl OccupiedIntervalCacheEntry for Entry {
    fn covers(&self) -> TimeInterval {
        self.0
    }

    fn interval(&self) -> TimeInterval {
        self.0
    }
}

fn column() -> Column {
    Column::new(None, "timestamp".to_string())
}

fn fields(unit: TimeUnit) -> Vec<Field> {
    vec![
        Field { name: "value".to_string(), timestamp: None },
        Field { name: "timestamp".to_string(), timestamp: Some((unit, None)) },
    ]
}

fn source(unit: TimeUnit) -> PhysicalPlan {
    PhysicalPlan::Other {
        node: 1,
        name: "DataSourceExec".to_string(),
        fields: fields(unit),
        children: vec![],
    }
}

fn filter(input: PhysicalPlan) -> PhysicalPlan {
    PhysicalPlan::Filter {
        node: 2,
        fields: fields(TimeUnit::Nanosecond),
        projection: Some(vec![0, 1]),
        input: Box::new(input),
    }
}

fn projection(exprs: usize, input: PhysicalPlan) -> PhysicalPlan {
    PhysicalPlan::Projection { node: 3, fields: vec![], exprs, input: Box::new(input) }
}

fn aggregate(node: u64, mode: AggregateMode, input: PhysicalPlan) -> PhysicalPlan {
    PhysicalPlan::Aggregate { node, fields: vec![], mode, input: Box::new(input) }
}

/// A final aggregation over a partial one over a source.
fn final_aggregate() -> PhysicalPlan {
    aggregate(
        9,
        AggregateMode::Final,
        aggregate(8, AggregateMode::Partial, source(TimeUnit::Nanosecond)),
    )
}

fn bound(value: ScalarValue, op: Operator) -> PhysicalExpr {
    PhysicalExpr::Binary {
        left: Box::new(PhysicalExpr::Column { name: "timestamp".to_string(), index: 1 }),
        op,
        right: Box::new(PhysicalExpr::Literal(value)),
    }
}

fn and(left: PhysicalExpr, right: PhysicalExpr) -> PhysicalExpr {
    PhysicalExpr::Binary { left: Box::new(left), op: Operator::And, right: Box::new(right) }
}

fn nano_range(start: i64, end: i64) -> PhysicalExpr {
    and(
        bound(ScalarValue::TimestampNanosecond(Some(start), None), Operator::GtEq),
        bound(ScalarValue::TimestampNanosecond(Some(end), None), Operator::Lt),
    )
}

fn shown<E: std::fmt::Debug>(plan: &ExecutionPlan<'_, E>) -> String {
    format!("{:?}", plan)
}

fn given<'a>(node: u64, name: &str) -> Box<ExecutionPlan<'a, Entry>> {
    Box::new(ExecutionPlan::Given { node, name: name.to_string() })
}

fn bounded<'a>(plan: &PhysicalPlan, start: i64, end: i64) -> Result<ExecutionPlan<'a, Entry>, PlanError> {
    with_interval_bounds(plan, &column(), &TimeInterval::new(start, end))
}

#[test]
fn bounds_go_under_the_aggregation() {
    let plan = aggregate(8, AggregateMode::Partial, source(TimeUnit::Nanosecond));
    let expected: ExecutionPlan<Entry> = ExecutionPlan::Aggregate {
        like: 8,
        mode: AggregateMode::Partial,
        input: Box::new(ExecutionPlan::Filter {
            predicate: nano_range(10, 20),
            input: given(1, "DataSourceExec"),
            projection: None,
        }),
    };
    assert_eq!(shown(&bounded(&plan, 10, 20).unwrap()), shown(&expected));
}

#[test]
fn bounds_join_a_filter() {
    let plan = aggregate(8, AggregateMode::Single, filter(source(TimeUnit::Nanosecond)));
    let expected: ExecutionPlan<Entry> = ExecutionPlan::Aggregate {
        like: 8,
        mode: AggregateMode::Single,
        input: Box::new(ExecutionPlan::Filter {
            predicate: and(PhysicalExpr::PredicateOf(2), nano_range(10, 20)),
            input: given(1, "DataSourceExec"),
            projection: Some(vec![0, 1]),
        }),
    };
    assert_eq!(shown(&bounded(&plan, 10, 20).unwrap()), shown(&expected));
}

#[test]
fn bounds_go_under_a_projection() {
    let plan =
        aggregate(8, AggregateMode::Partial, projection(2, source(TimeUnit::Nanosecond)));
    let rows: ExecutionPlan<Entry> = ExecutionPlan::Filter {
        predicate: nano_range(10, 20),
        input: given(1, "DataSourceExec"),
        projection: None,
    };
    let expected: ExecutionPlan<Entry> = ExecutionPlan::Aggregate {
        like: 8,
        mode: AggregateMode::Partial,
        input: Box::new(ExecutionPlan::Projection { like: 3, input: Box::new(rows) }),
    };
    assert_eq!(shown(&bounded(&plan, 10, 20).unwrap()), shown(&expected));
    // A projection that computes nothing is left out
    let plan =
        aggregate(8, AggregateMode::Partial, projection(0, source(TimeUnit::Nanosecond)));
    let direct = aggregate(8, AggregateMode::Partial, source(TimeUnit::Nanosecond));
    assert_eq!(
        shown(&bounded(&plan, 10, 20).unwrap()),
        shown(&bounded(&direct, 10, 20).unwrap())
    );
}

#[test]
fn bounds_on_other_plans_are_a_filter() {
    let expected: ExecutionPlan<Entry> = ExecutionPlan::Filter {
        predicate: nano_range(10, 20),
        input: given(1, "DataSourceExec"),
        projection: None,
    };
    assert_eq!(
        shown(&bounded(&source(TimeUnit::Nanosecond), 10, 20).unwrap()),
        shown(&expected)
    );
}

#[test]
fn bounds_take_the_unit_of_the_column() {
    let predicate = |unit: TimeUnit, start: i64, end: i64| -> PhysicalExpr {
        match bounded(&source(unit), start, end).unwrap() {
            ExecutionPlan::Filter { predicate, .. } => predicate,
            _ => panic!("expected a filter"),
        }
    };
    assert_eq!(
        predicate(TimeUnit::Microsecond, 1704067200000000000, 1704153600000000000),
        and(
            bound(ScalarValue::TimestampMicrosecond(Some(1704067200000000), None), Operator::GtEq),
            bound(ScalarValue::TimestampMicrosecond(Some(1704153600000000), None), Operator::Lt),
        )
    );
    assert_eq!(
        predicate(TimeUnit::Microsecond, 0, 1001),
        and(
            bound(ScalarValue::TimestampMicrosecond(Some(0), None), Operator::GtEq),
            bound(ScalarValue::TimestampMicrosecond(Some(2), None), Operator::Lt),
        )
    );
    assert_eq!(
        predicate(TimeUnit::Millisecond, 1_000_001, -1_999_999),
        and(
            bound(ScalarValue::TimestampMillisecond(Some(2), None), Operator::GtEq),
            bound(ScalarValue::TimestampMillisecond(Some(-1), None), Operator::Lt),
        )
    );
    assert_eq!(
        predicate(TimeUnit::Millisecond, -1_000_000, 1_000_000),
        and(
            bound(ScalarValue::TimestampMillisecond(Some(-1), None), Operator::GtEq),
            bound(ScalarValue::TimestampMillisecond(Some(1), None), Operator::Lt),
        )
    );
    assert_eq!(
        predicate(TimeUnit::Second, i64::MIN, i64::MAX),
        and(
            bound(ScalarValue::TimestampSecond(Some(-9223372036), None), Operator::GtEq),
            bound(ScalarValue::TimestampSecond(Some(9223372037), None), Operator::Lt),
        )
    );
}

/// A filter that keeps the column at place 1 alone.
fn narrow_filter(fields: Vec<Field>, input: PhysicalPlan) -> PhysicalPlan {
    PhysicalPlan::Filter { node: 2, fields, projection: Some(vec![1]), input: Box::new(input) }
}

#[test]
fn bounds_read_the_column_in_the_input_of_a_filter() {
    let kept = vec![Field {
        name: "timestamp".to_string(),
        timestamp: Some((TimeUnit::Nanosecond, None)),
    }];
    // In what the filter gives the column has place 0
    let plan = narrow_filter(kept, source(TimeUnit::Nanosecond));
    let expected: ExecutionPlan<Entry> = ExecutionPlan::Filter {
        predicate: and(PhysicalExpr::PredicateOf(2), nano_range(10, 20)),
        input: given(1, "DataSourceExec"),
        projection: Some(vec![1]),
    };
    assert_eq!(shown(&bounded(&plan, 10, 20).unwrap()), shown(&expected));
    // The filter need not give the column at all
    let plan = narrow_filter(vec![], source(TimeUnit::Nanosecond));
    assert_eq!(shown(&bounded(&plan, 10, 20).unwrap()), shown(&expected));
}

#[test]
fn bounds_go_down_to_the_column() {
    let plan = aggregate(
        8,
        AggregateMode::Partial,
        PhysicalPlan::CoalescePartitions {
            node: 7,
            fields: vec![],
            input: Box::new(narrow_filter(vec![], projection(2, source(TimeUnit::Nanosecond)))),
        },
    );
    let rows: ExecutionPlan<Entry> = ExecutionPlan::Projection {
        like: 3,
        input: Box::new(ExecutionPlan::Filter {
            predicate: nano_range(10, 20),
            input: given(1, "DataSourceExec"),
            projection: None,
        }),
    };
    let expected: ExecutionPlan<Entry> = ExecutionPlan::Aggregate {
        like: 8,
        mode: AggregateMode::Partial,
        input: Box::new(ExecutionPlan::CoalescePartitions(Box::new(ExecutionPlan::Filter {
            predicate: PhysicalExpr::PredicateOf(2),
            input: Box::new(rows),
            projection: Some(vec![1]),
        }))),
    };
    assert_eq!(shown(&bounded(&plan, 10, 20).unwrap()), shown(&expected));
    // Not through nodes that the cache cannot rebuild
    let sorted = PhysicalPlan::Other {
        node: 6,
        name: "SortExec".to_string(),
        fields: vec![],
        children: vec![source(TimeUnit::Nanosecond)],
    };
    assert!(matches!(bounded(&sorted, 10, 20), Err(PlanError::TimestampColumnNotFound)));
}

#[test]
fn bounds_need_a_timestamp_column() {
    let plan = PhysicalPlan::Other {
        node: 1,
        name: "DataSourceExec".to_string(),
        fields: vec![Field { name: "timestamp".to_string(), timestamp: None }],
        children: vec![],
    };
    assert!(matches!(bounded(&plan, 1, 2), Err(PlanError::TimestampColumnNotFound)));
}

#[test]
fn columns_are_found_under_other_plans() {
    let zoned = PhysicalPlan::Other {
        node: 4,
        name: "UnionExec".to_string(),
        fields: vec![],
        children: vec![
            projection(1, aggregate(5, AggregateMode::Partial, PhysicalPlan::Other {
                node: 6,
                name: "EmptyExec".to_string(),
                fields: vec![],
                children: vec![],
            })),
            PhysicalPlan::CoalescePartitions {
                node: 7,
                fields: vec![
                    Field { name: "timestamp".to_string(), timestamp: None },
                    Field {
                        name: "timestamp".to_string(),
                        timestamp: Some((TimeUnit::Millisecond, Some("UTC".to_string()))),
                    },
                ],
                input: Box::new(source(TimeUnit::Nanosecond)),
            },
            source(TimeUnit::Second),
        ],
    };
    assert_eq!(
        find_timestamp_column_in_plan(&zoned, &column()),
        Some(TimestampColumn {
            place: 1,
            unit: TimeUnit::Millisecond,
            zone: Some("UTC".to_string()),
        })
    );
    let other = Column::new(None, "value".to_string());
    assert_eq!(find_timestamp_column_in_plan(&zoned, &other), None);
}

fn named(name: &str) -> PhysicalPlan {
    PhysicalPlan::Other { node: 1, name: name.to_string(), fields: vec![], children: vec![] }
}

fn union(children: Vec<PhysicalPlan>) -> PhysicalPlan {
    PhysicalPlan::Other { node: 4, name: "UnionExec".to_string(), fields: vec![], children }
}

#[test]
fn existing_cached_aggregations_are_found() {
    let inner = named("QueryCacheAggregateExec");
    let plan = aggregate(
        2,
        AggregateMode::Final,
        PhysicalPlan::CoalescePartitions { node: 3, fields: vec![], input: Box::new(inner) },
    );
    assert!(names_are_true(&plan));
    assert!(find_existing_inner_exec(&plan));
    assert!(!find_existing_inner_exec(&final_aggregate()));
    assert!(!find_existing_inner_exec(&projection(1, named("QueryCacheAggregateExec"))));
    // What the planner itself puts
    for name in ["CacheUpdateAggregateExec", "CachedAggregateExec"] {
        let plan = aggregate(2, AggregateMode::Final, named(name));
        assert!(names_are_true(&plan));
        assert!(find_existing_inner_exec(&plan));
        let plan = aggregate(
            2,
            AggregateMode::Final,
            PhysicalPlan::CoalescePartitions {
                node: 3,
                fields: vec![],
                input: Box::new(union(vec![named("DataSourceExec"), named(name)])),
            },
        );
        assert!(names_are_true(&plan));
        assert!(find_existing_inner_exec(&plan));
    }
    assert!(!find_existing_inner_exec(&union(vec![named("DataSourceExec")])));
    assert!(!find_existing_inner_exec(&PhysicalPlan::Other {
        node: 4,
        name: "SortExec".to_string(),
        fields: vec![],
        children: vec![named("CachedAggregateExec")],
    }));
    // What a union stands on may have any name
    let plan = union(vec![named("AggregateExec"), named("CachedAggregateExec")]);
    assert!(names_are_true(&plan));
    assert!(find_existing_inner_exec(&plan));
    assert!(!names_are_true(&named("AggregateExec")));
    assert!(!names_are_true(&named("CoalescePartitionsExec")));
}

fn planner() -> QCAggregateExecPlanner<(), &'static str> {
    QCAggregateExecPlanner::new((), Arc::new(QueryCacheConfig::new(column(), "cache")))
}

fn node(interval: Option<TimeInterval>, predicate: Expr) -> QCAggregatePlanNode {
    QCAggregatePlanNode {
        input: LogicalPlan::Aggregate(Aggregate {
            input: Box::new(LogicalPlan::Filter(Filter {
                predicate,
                input: Box::new(LogicalPlan::Other(1)),
            })),
            group_expr: vec![],
            aggr_expr: vec![],
        }),
        fingerprint: "key".to_string(),
        temporal_column: column(),
        interval,
    }
}

fn before(ns: i64) -> Expr {
    Expr::BinaryExpr(BinaryExpr {
        left: Box::new(Expr::Column(column())),
        op: Operator::LtEq,
        right: Box::new(Expr::Literal(ScalarValue::TimestampNanosecond(Some(ns), None), None)),
    })
}

#[test]
fn the_first_step() {
    let planner = planner();
    let node = node(Some(TimeInterval::new(1, 2)), Expr::Other(1));
    assert_eq!(planner.begin(None, &[]), Ok(Step::NotOurs));
    assert_eq!(planner.begin(Some(&node), &[]), Err(PlanError::ExpectedOnePhysicalInput));
    assert_eq!(
        planner.begin(Some(&node), &[final_aggregate(), final_aggregate()]),
        Err(PlanError::ExpectedOnePhysicalInput)
    );
    assert_eq!(planner.begin(Some(&node), &[named("QueryCacheAggregateExec")]), Ok(Step::Reuse));
    assert_eq!(planner.begin(Some(&node), &[named("DataSourceExec")]), Ok(Step::Reuse));
    assert_eq!(
        planner.begin(
            Some(&node),
            &[aggregate(1, AggregateMode::Final, named("QueryCacheAggregateExec"))]
        ),
        Ok(Step::Reuse)
    );
    assert_eq!(
        planner.begin(
            Some(&node),
            &[aggregate(1, AggregateMode::Final, named("CacheUpdateAggregateExec"))]
        ),
        Ok(Step::Reuse)
    );
    assert_eq!(
        planner.begin(Some(&node), &[final_aggregate()]),
        Ok(Step::Lookup(TimeInterval::new(1, 2)))
    );
    // No instant is asked for
    let mut empty = node;
    empty.interval = Some(TimeInterval::new(2, 2));
    assert_eq!(planner.begin(Some(&empty), &[final_aggregate()]), Ok(Step::Reuse));
}

#[test]
fn the_requested_interval() {
    // From the plan where the node has none
    assert_eq!(
        requested_interval(&node(None, before(5))),
        Some(TimeInterval::new(i64::MIN, 6))
    );
    // All time where the plan fixes none
    assert_eq!(
        requested_interval(&node(None, Expr::Other(1))),
        Some(TimeInterval::new(i64::MIN, i64::MAX))
    );
    assert_eq!(requested_interval(&node(None, before(i64::MAX))), None);
    assert_eq!(
        requested_interval(&node(Some(TimeInterval::new(3, 4)), before(i64::MAX))),
        Some(TimeInterval::new(3, 4))
    );
    assert_eq!(
        planner().begin(Some(&node(None, before(i64::MAX))), &[final_aggregate()]),
        Ok(Step::BoundsOutOfRange)
    );
}

fn update(start: i64, end: i64) -> ExecutionPlan<'static, Entry> {
    let partial = aggregate(8, AggregateMode::Partial, source(TimeUnit::Nanosecond));
    CacheUpdateAggregateExec::new_exec_plan(
        "key",
        &TimeInterval::new(start, end),
        bounded(&partial, start, end).unwrap(),
        77,
    )
}

#[test]
fn a_miss_computes_and_stores() {
    let node = node(None, Expr::Other(1));
    let entries: Vec<Entry> = vec![];
    let plan = planner()
        .plan_extension(&node, &final_aggregate(), &TimeInterval::new(10, 20), &entries, 77)
        .unwrap();
    let expected = ExecutionPlan::Aggregate {
        like: 9,
        mode: AggregateMode::Final,
        input: Box::new(update(10, 20)),
    };
    assert_eq!(shown(&plan), shown(&expected));
}

#[test]
fn a_hit_only_reads() {
    let node = node(None, Expr::Other(1));
    let entries = vec![Entry(TimeInterval::new(10, 20))];
    let plan = planner()
        .plan_extension(&node, &final_aggregate(), &TimeInterval::new(10, 20), &entries, 77)
        .unwrap();
    let expected = ExecutionPlan::Aggregate {
        like: 9,
        mode: AggregateMode::Final,
        input: Box::new(CachedAggregateExec::new_exec_plan(&entries[0], 8)),
    };
    assert_eq!(shown(&plan), shown(&expected));
}

#[test]
fn a_partial_hit_joins_what_is_read_and_computed() {
    let node = node(None, Expr::Other(1));
    let entries = vec![Entry(TimeInterval::new(12, 14)), Entry(TimeInterval::new(13, 18))];
    let plan = planner()
        .plan_extension(&node, &final_aggregate(), &TimeInterval::new(10, 20), &entries, 77)
        .unwrap();
    let expected = ExecutionPlan::Aggregate {
        like: 9,
        mode: AggregateMode::Final,
        input: Box::new(ExecutionPlan::CoalescePartitions(Box::new(ExecutionPlan::Union(vec![
            CachedAggregateExec::new_exec_plan(&entries[1], 8),
            update(10, 13),
            update(18, 20),
        ])))),
    };
    assert_eq!(shown(&plan), shown(&expected));
}

#[test]
fn gaps_need_a_timestamp_column() {
    let node = node(None, Expr::Other(1));
    let exec = aggregate(9, AggregateMode::Final, named("DataSourceExec"));
    let entries = vec![Entry(TimeInterval::new(10, 20))];
    let plan = planner().plan_extension(&node, &exec, &TimeInterval::new(10, 30), &entries, 77);
    assert!(matches!(plan, Err(PlanError::TimestampColumnNotFound)));
    // Without a gap none is needed
    let plan = planner().plan_extension(&node, &exec, &TimeInterval::new(10, 20), &entries, 77);
    assert!(plan.is_ok());
}

#[test]
fn updates_take_one_partition() {
    let coalesced: ExecutionPlan<Entry> =
        ExecutionPlan::CoalescePartitions(given(1, "DataSourceExec"));
    let inner_name = |plan: ExecutionPlan<'static, Entry>| match plan {
        ExecutionPlan::CacheUpdate(update) => match update.input {
            ExecutionPlan::CoalescePartitions(inner) => inner.name(),
            _ => panic!("expected coalesced partitions"),
        },
        _ => panic!("expected an update"),
    };
    let interval = TimeInterval::new(1, 2);
    assert_eq!(
        inner_name(CacheUpdateAggregateExec::new_exec_plan("key", &interval, coalesced, 0)),
        "DataSourceExec"
    );
    let plain = *given(1, "DataSourceExec");
    assert_eq!(
        inner_name(CacheUpdateAggregateExec::new_exec_plan("key", &interval, plain, 0)),
        "DataSourceExec"
    );
}

#[test]
fn updates_print_and_take_children() {
    let update = match update(10, -20) {
        ExecutionPlan::CacheUpdate(update) => update,
        _ => panic!("expected an update"),
    };
    assert_eq!(update.interval(), TimeInterval::new(10, -20));
    assert_eq!(update.name(), "CacheUpdateAggregateExec");
    assert_eq!(
        update.fmt_as(DisplayFormat::Brief),
        "CacheUpdateAggregateExec(CoalescePartitionsExec)"
    );
    assert_eq!(
        update.fmt_as(DisplayFormat::Verbose),
        "CacheUpdateAggregateExec { interval: TimeInterval { start_ns: 10, end_ns: -20 }, input: CoalescePartitionsExec }"
    );
    assert_eq!(update.children().len(), 1);
    assert!(matches!(update.with_new_children(vec![]), Err(PlanError::ExpectedOneChild)));
    let child = *given(5, "FilterExec");
    match update.with_new_children(vec![child]) {
        Ok(ExecutionPlan::CacheUpdate(again)) => {
            assert_eq!(again.interval(), update.interval());
            assert_eq!(again.fingerprint, "key");
            assert_eq!(again.now, 77);
            assert_eq!(again.input.name(), "CoalescePartitionsExec");
        }
        other => panic!("{:?}", other),
    }
}

#[test]
fn cached_results_print_and_take_no_children() {
    let entry = Entry(TimeInterval::new(i64::MIN, 0));
    let cached = match CachedAggregateExec::new_exec_plan(&entry, 8) {
        ExecutionPlan::Cached(cached) => cached,
        _ => panic!("expected a cached result"),
    };
    assert_eq!(cached.interval(), TimeInterval::new(i64::MIN, 0));
    assert_eq!(cached.name(), "CachedAggregateExec");
    assert_eq!(cached.fmt_as(DisplayFormat::Brief), "CachedAggregateExec");
    assert_eq!(
        cached.fmt_as(DisplayFormat::Verbose),
        "CachedAggregateExec { interval: TimeInterval { start_ns: -9223372036854775808, end_ns: 0 } }"
    );
    let cached = cached.with_new_children(vec![]).unwrap();
    assert_eq!(cached.like, 8);
    assert!(matches!(
        cached.with_new_children(vec![*given(1, "FilterExec")]),
        Err(PlanError::ChildrenCannotBeReplaced)
    ));
}

#[test]
fn the_planner_knows_cache_and_time() {
    let planner = planner();
    assert_eq!(*planner.cache(), "cache");
    assert_eq!(planner.override_now(), None);
    assert_eq!(planner.now(Some(4)), 4);
    let config = QueryCacheConfig::new(column(), "cache").with_override_now(Some(6));
    let planner = QCAggregateExecPlanner::new((), Arc::new(config));
    assert_eq!(planner.now(Some(4)), 6);
    assert_eq!(planner.now(None), 6);
}

#[test]
fn the_state_is_reported_in_lines() {
    let none: Vec<Entry> = vec![];
    assert_eq!(cache_state("fp", &none, &[]), vec!["Cache[fp] = <empty>"]);
    let entries =
        vec![Entry(TimeInterval::new(i64::MIN, i64::MAX)), Entry(TimeInterval::new(-7, 10))];
    let batches = vec![vec![], vec!["first".to_string(), "second".to_string()]];
    assert_eq!(
        cache_state("fp", &entries, &batches),
        vec![
            "Cache[fp] = 2 intervals",
            "  interval[0]: [-9223372036854775808, 9223372036854775807) batches=0",
            "  interval[1]: [-7, 10) batches=2",
            "    batch[0]: first",
            "    batch[1]: second",
        ]
    );
}
