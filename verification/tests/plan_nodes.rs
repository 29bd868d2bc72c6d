use datafusion_query_cache::column::Column;
use datafusion_query_cache::error::PlanError;
use datafusion_query_cache::expr::Expr;
use datafusion_query_cache::plan::{Aggregate, Extension, LogicalPlan, QCAggregatePlanNode};
use datafusion_query_cache::scalar::ScalarValue;
use datafusion_query_cache::TimeInterval;

fn column() -> Column {
    Column::new(None, "timestamp".to_string())
}

fn int64(value: i64) -> Expr {
    Expr::Literal(ScalarValue::Int64(Some(value)), None)
}

fn aggregation(handle: u64) -> LogicalPlan {
    LogicalPlan::Aggregate(Aggregate {
        input: Box::new(LogicalPlan::Other(handle)),
        group_expr: vec![],
        aggr_expr: vec![],
    })
}

fn display(plan: &LogicalPlan) -> String {
    format!("<{:?}>", plan)
}

fn node(interval: Option<TimeInterval>) -> QCAggregatePlanNode {
    QCAggregatePlanNode::new(aggregation(1), column(), interval, Some("key".to_string()), &display)
        .unwrap()
}

#[test]
fn aggregations_are_wrapped() {
    let node = node(Some(TimeInterval::new(1, 2)));
    assert_eq!(node.input, aggregation(1));
    assert_eq!(node.fingerprint, "key");
    assert_eq!(node.temporal_column, column());
    assert_eq!(node.interval, Some(TimeInterval::new(1, 2)));
    assert_eq!(node.name(), "QueryCacheAggregate");
    assert_eq!(node.fmt_for_explain("Aggregate: x"), "QueryCacheAggregate: Aggregate: x");
}

#[test]
fn without_a_fingerprint_the_plan_is_printed() {
    let node = QCAggregatePlanNode::new(aggregation(1), column(), None, None, &display).unwrap();
    assert_eq!(node.fingerprint, display(&aggregation(1)));
}

#[test]
fn a_cached_aggregation_stays() {
    let inner = node(Some(TimeInterval::new(1, 2)));
    let plan = LogicalPlan::Extension(Extension::QueryCache(Box::new(inner.clone())));
    let other = Column::new(None, "other".to_string());
    let outer =
        QCAggregatePlanNode::new(plan, other, None, Some("x".to_string()), &display).unwrap();
    assert_eq!(outer, inner);
}

#[test]
fn other_inputs_are_refused() {
    let extension = LogicalPlan::Extension(Extension::Other(3));
    assert_eq!(
        QCAggregatePlanNode::new(extension, column(), None, None, &display),
        Err(PlanError::UnexpectedExtension)
    );
    assert_eq!(
        QCAggregatePlanNode::new(LogicalPlan::Other(3), column(), None, None, &display),
        Err(PlanError::UnexpectedInput)
    );
}

#[test]
fn expressions_round_trip() {
    for interval in [None, Some(TimeInterval::new(-4, 9))] {
        let node = node(interval);
        let again = node
            .with_exprs_and_inputs(node.expressions(), vec![aggregation(2)], &display)
            .unwrap();
        assert_eq!(again.temporal_column, column());
        assert_eq!(again.interval, interval);
        assert_eq!(again.input, aggregation(2));
        assert_eq!(again.fingerprint, display(&aggregation(2)));
    }
    assert_eq!(
        node(Some(TimeInterval::new(-4, 9))).expressions(),
        vec![Expr::Column(column()), int64(-4), int64(9)]
    );
    assert_eq!(node(None).expressions(), vec![Expr::Column(column())]);
}

#[test]
fn wrong_expressions_are_refused() {
    let node = node(None);
    let with = |exprs: Vec<Expr>| {
        node.with_exprs_and_inputs(exprs, vec![aggregation(1)], &display).map(|n| n.interval)
    };
    assert_eq!(with(vec![]), Err(PlanError::ExpectedTemporalColumn));
    assert_eq!(with(vec![int64(1)]), Err(PlanError::ExpectedTemporalColumn));
    assert_eq!(
        with(vec![Expr::Column(column()), int64(1), int64(2), int64(3)]),
        Err(PlanError::TooManyExpressions)
    );
    assert_eq!(
        with(vec![Expr::Column(column()), Expr::Other(1), int64(2), int64(3)]),
        Err(PlanError::ExpectedColumnAndLiterals)
    );
    // Expressions that give no interval count for nothing
    assert_eq!(with(vec![Expr::Column(column()), int64(1)]), Ok(None));
    assert_eq!(with(vec![Expr::Column(column()), int64(1), Expr::Other(1)]), Ok(None));
    let null = Expr::Literal(ScalarValue::Int64(None), None);
    assert_eq!(with(vec![Expr::Column(column()), int64(1), null]), Ok(None));
    let noted = Expr::Literal(ScalarValue::Int64(Some(2)), Some(3));
    assert_eq!(
        with(vec![Expr::Column(column()), int64(1), noted]),
        Ok(Some(TimeInterval::new(1, 2)))
    );
}

#[test]
fn wrong_inputs_are_refused() {
    let node = node(None);
    let with = |inputs: Vec<LogicalPlan>| {
        node.with_exprs_and_inputs(node.expressions(), inputs, &display).map(|n| n.input)
    };
    assert_eq!(with(vec![]), Err(PlanError::ExpectedOneInput));
    assert_eq!(with(vec![aggregation(1), aggregation(2)]), Err(PlanError::ExpectedOneInput));
    assert_eq!(with(vec![LogicalPlan::Other(1)]), Err(PlanError::UnexpectedInput));
    assert_eq!(with(vec![aggregation(2)]), Ok(aggregation(2)));
    // The expressions are looked at first
    assert_eq!(
        node.with_exprs_and_inputs(vec![], vec![], &display),
        Err(PlanError::ExpectedTemporalColumn)
    );
}

#[test]
fn errors_have_messages() {
    let message = |error: PlanError| error.message("subject");
    assert_eq!(
        message(PlanError::ExpectedTemporalColumn),
        "UserDefinedLogicalNodeCore  expected temporal column as first expressoin"
    );
    assert_eq!(
        message(PlanError::TooManyExpressions),
        "UserDefinedLogicalNodeCore expected one, two, or three expressions"
    );
    assert_eq!(
        message(PlanError::ExpectedColumnAndLiterals),
        "UserDefinedLogicalNodeCore expected either one column or column + two int64 literals"
    );
    assert_eq!(
        message(PlanError::ExpectedOneInput),
        "UserDefinedLogicalNodeCore expected one inputs"
    );
    assert_eq!(
        message(PlanError::UnexpectedExtension),
        "unexpected extension node, expected QCAggregatePlanNode"
    );
    assert_eq!(
        message(PlanError::UnexpectedInput),
        "unexpected input to QCAggregatePlanNode, mut be Aggregate or Extension(QCAggregatePlanNode), got subject"
    );
    assert_eq!(
        message(PlanError::ExpectedOnePhysicalInput),
        "QueryCacheGroupByExec expected one input"
    );
    assert_eq!(
        message(PlanError::TimestampColumnNotFound),
        "Timestamp column 'subject' not found in plan"
    );
    assert_eq!(
        message(PlanError::ExpectedOneChild),
        "CacheUpdateAggregateExec expected one child"
    );
    assert_eq!(
        message(PlanError::ChildrenCannotBeReplaced),
        "Children cannot be replaced in CachedAggregateExec"
    );
}
