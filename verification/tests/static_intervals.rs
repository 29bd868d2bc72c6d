use datafusion_query_cache::column::{Column, ColumnSet, TableReference};
use datafusion_query_cache::expr::{Between, BinaryExpr, Cast, Expr, Operator, ScalarFunction};
use datafusion_query_cache::scalar::ScalarValue;
use datafusion_query_cache::static_interval::{comparison_interval, StaticInterval};
use datafusion_query_cache::TimeInterval;

fn column(name: &str) -> Column {
    Column::new(Some(TableReference::Bare { table: "t".to_string() }), name.to_string())
}

fn ts() -> Expr {
    Expr::Column(column("timestamp"))
}

fn temporal() -> ColumnSet {
    ColumnSet::of(column("timestamp"))
}

fn nanos(value: i64) -> Expr {
    Expr::Literal(ScalarValue::TimestampNanosecond(Some(value), None), None)
}

fn cast(text: &str) -> Expr {
    Expr::Cast(Cast {
        expr: Box::new(Expr::Literal(ScalarValue::Utf8(Some(text.to_string())), None)),
        data_type: 0,
    })
}

fn binary(left: Expr, op: Operator, right: Expr) -> Expr {
    Expr::BinaryExpr(BinaryExpr { left: Box::new(left), op, right: Box::new(right) })
}

fn between(low: Expr, high: Expr, negated: bool) -> Expr {
    Expr::Between(Between {
        expr: Box::new(ts()),
        negated,
        low: Box::new(low),
        high: Box::new(high),
    })
}

fn found(start_ns: i64, end_ns: i64) -> StaticInterval {
    StaticInterval::Found(TimeInterval::new(start_ns, end_ns))
}

fn find(expr: &Expr) -> StaticInterval {
    assert!(StaticInterval::bounds_fit(expr, &temporal()));
    StaticInterval::find(expr, &temporal())
}

#[test]
fn single_bounds() {
    assert_eq!(find(&binary(ts(), Operator::GtEq, nanos(10))), found(10, i64::MAX));
    assert_eq!(find(&binary(ts(), Operator::Gt, nanos(10))), found(11, i64::MAX));
    assert_eq!(find(&binary(ts(), Operator::Lt, nanos(10))), found(i64::MIN, 10));
    assert_eq!(find(&binary(ts(), Operator::LtEq, nanos(10))), found(i64::MIN, 11));
    assert_eq!(comparison_interval(Operator::Gt, -1), TimeInterval::new(0, i64::MAX));
}

#[test]
fn units_become_nanoseconds() {
    let literal = |value: ScalarValue| Expr::Literal(value, Some(7));
    assert_eq!(
        StaticInterval::extract_timestamp_ns(&literal(ScalarValue::TimestampSecond(
            Some(-3),
            Some("+01:00".to_string())
        ))),
        Some(-3_000_000_000)
    );
    assert_eq!(
        StaticInterval::extract_timestamp_ns(&literal(ScalarValue::TimestampMillisecond(
            Some(3),
            None
        ))),
        Some(3_000_000)
    );
    assert_eq!(
        StaticInterval::extract_timestamp_ns(&literal(ScalarValue::TimestampMicrosecond(
            Some(1704067200000000),
            None
        ))),
        Some(1704067200000000000)
    );
    assert_eq!(
        StaticInterval::extract_timestamp_ns(&literal(ScalarValue::TimestampNanosecond(
            Some(3),
            None
        ))),
        Some(3)
    );
    assert_eq!(
        StaticInterval::extract_timestamp_ns(&literal(ScalarValue::TimestampNanosecond(None, None))),
        None
    );
    assert_eq!(StaticInterval::extract_timestamp_ns(&literal(ScalarValue::Int64(Some(3)))), None);
}

#[test]
fn casts_of_text_are_read() {
    assert_eq!(
        StaticInterval::extract_timestamp_ns(&cast("2024-01-01T00:00:00Z")),
        Some(1704067200000000000)
    );
    assert_eq!(
        StaticInterval::extract_timestamp_ns(&cast("2024-01-01T01:00:00+01:00")),
        Some(1704067200000000000)
    );
    assert_eq!(
        StaticInterval::extract_timestamp_ns(&cast("1970-01-01T00:00:00.000000001Z")),
        Some(1)
    );
    assert_eq!(StaticInterval::extract_timestamp_ns(&cast("yesterday")), None);
    assert_eq!(StaticInterval::extract_timestamp_ns(&cast("2024-01-01")), None);
    // The nanoseconds do not fit
    assert_eq!(StaticInterval::extract_timestamp_ns(&cast("3024-01-01T00:00:00Z")), None);
    // Only casts of text
    let cast_number = Expr::Cast(Cast { expr: Box::new(nanos(3)), data_type: 0 });
    assert_eq!(StaticInterval::extract_timestamp_ns(&cast_number), None);
    // Text without a cast
    let text = Expr::Literal(ScalarValue::Utf8(Some("2024-01-01T00:00:00Z".to_string())), None);
    assert_eq!(StaticInterval::extract_timestamp_ns(&text), None);
}

#[test]
fn conjunctions_intersect() {
    let lower = binary(ts(), Operator::GtEq, cast("2024-01-01T00:00:00Z"));
    let upper = binary(ts(), Operator::Lt, cast("2024-01-02T00:00:00Z"));
    let both = binary(lower.clone(), Operator::And, upper.clone());
    assert_eq!(find(&both), found(1704067200000000000, 1704153600000000000));
    // In either order
    assert_eq!(find(&binary(upper, Operator::And, lower)), find(&both));
    // Three bounds
    let three = binary(both, Operator::And, binary(ts(), Operator::Gt, nanos(1704067200000000005)));
    assert_eq!(find(&three), found(1704067200000000006, 1704153600000000000));
}

#[test]
fn the_interval_holds_what_the_bounds_keep() {
    let filter = binary(
        binary(ts(), Operator::Gt, nanos(10)),
        Operator::And,
        binary(between(nanos(5), nanos(19), false), Operator::And, binary(ts(), Operator::Lt, nanos(18))),
    );
    let interval = match find(&filter) {
        StaticInterval::Found(interval) => interval,
        other => panic!("{:?}", other),
    };
    for t in 0..30 {
        let kept = t > 10 && (5..=19).contains(&t) && t < 18;
        assert_eq!(kept, interval.overlaps(&TimeInterval::new(t, t + 1)), "instant {}", t);
    }
}

#[test]
fn contradicting_bounds_are_given_up() {
    let empty = binary(
        binary(ts(), Operator::GtEq, nanos(20)),
        Operator::And,
        binary(ts(), Operator::Lt, nanos(20)),
    );
    assert_eq!(find(&empty), StaticInterval::Abandon);
}

#[test]
fn between_is_inclusive() {
    assert_eq!(find(&between(nanos(10), nanos(20), false)), found(10, 21));
    let two_bounds = binary(
        binary(ts(), Operator::GtEq, nanos(10)),
        Operator::And,
        binary(ts(), Operator::LtEq, nanos(20)),
    );
    assert_eq!(find(&two_bounds), found(10, 21));
    // The bounds the wrong way round
    assert_eq!(find(&between(nanos(20), nanos(10), false)), found(20, 11));
    // What NOT BETWEEN keeps is no interval
    assert_eq!(find(&between(nanos(10), nanos(20), true)), StaticInterval::Abandon);
    // A bound that is no constant
    assert_eq!(find(&between(nanos(10), Expr::Other(1), false)), StaticInterval::Abandon);
    assert_eq!(find(&between(Expr::Other(1), nanos(10), false)), StaticInterval::Abandon);
}

#[test]
fn between_of_other_expressions() {
    let other = Expr::Between(Between {
        expr: Box::new(Expr::Column(column("value"))),
        negated: false,
        low: Box::new(nanos(1)),
        high: Box::new(nanos(2)),
    });
    assert_eq!(find(&other), StaticInterval::Stable);
    let computed = Expr::Between(Between {
        expr: Box::new(Expr::Other(1)),
        negated: false,
        low: Box::new(nanos(1)),
        high: Box::new(nanos(2)),
    });
    assert_eq!(find(&computed), StaticInterval::Abandon);
}

#[test]
fn stable_expressions_do_not_narrow() {
    let value = binary(Expr::Column(column("value")), Operator::Gt, nanos(1));
    assert_eq!(find(&value), StaticInterval::Stable);
    assert_eq!(find(&ts()), StaticInterval::Stable);
    assert_eq!(find(&nanos(1)), StaticInterval::Stable);
    let bound = binary(ts(), Operator::GtEq, nanos(10));
    assert_eq!(find(&binary(value.clone(), Operator::And, bound.clone())), found(10, i64::MAX));
    assert_eq!(find(&binary(bound, Operator::And, value.clone())), found(10, i64::MAX));
    assert_eq!(find(&binary(value.clone(), Operator::And, value)), StaticInterval::Stable);
}

#[test]
fn unsupported_expressions_are_given_up() {
    let bound = binary(ts(), Operator::GtEq, nanos(10));
    let service = binary(Expr::Column(column("service")), Operator::Eq, nanos(1));
    assert_eq!(find(&service), StaticInterval::Abandon);
    assert_eq!(find(&binary(bound.clone(), Operator::And, service)), StaticInterval::Abandon);
    assert_eq!(
        find(&binary(bound.clone(), Operator::Or, bound.clone())),
        StaticInterval::Abandon
    );
    assert_eq!(
        find(&binary(bound.clone(), Operator::Other(3), bound.clone())),
        StaticInterval::Abandon
    );
    let now = Expr::ScalarFunction(ScalarFunction {
        name: "now".to_string(),
        func: 0,
        immutable: false,
        args: vec![],
    });
    assert_eq!(find(&now), StaticInterval::Abandon);
    assert_eq!(find(&binary(ts(), Operator::GtEq, now)), StaticInterval::Abandon);
    assert_eq!(find(&Expr::Other(3)), StaticInterval::Abandon);
    assert_eq!(find(&Expr::Dynamic(3)), StaticInterval::Abandon);
    assert_eq!(find(&cast("2024-01-01T00:00:00Z")), StaticInterval::Abandon);
    assert_eq!(find(&Expr::Not(Box::new(bound.clone()))), StaticInterval::Abandon);
    assert_eq!(find(&Expr::Not(Box::new(ts()))), StaticInterval::Stable);
    assert_eq!(find(&Expr::Negative(Box::new(ts()))), StaticInterval::Stable);
    // A bound inside a comparison is no bound
    assert_eq!(find(&binary(bound.clone(), Operator::Gt, ts())), StaticInterval::Abandon);
    let truth = Expr::Other(4);
    assert_eq!(find(&binary(bound, Operator::Lt, truth)), StaticInterval::Abandon);
}

#[test]
fn either_takes_the_more_important() {
    let a = found(1, 2);
    let b = found(3, 4);
    assert_eq!(a.either(b), a);
    assert_eq!(b.either(a), b);
    assert_eq!(a.either(StaticInterval::Stable), a);
    assert_eq!(StaticInterval::Stable.either(b), b);
    assert_eq!(StaticInterval::Stable.either(StaticInterval::Stable), StaticInterval::Stable);
    assert_eq!(StaticInterval::Abandon.either(a), StaticInterval::Abandon);
    assert_eq!(a.either(StaticInterval::Abandon), StaticInterval::Abandon);
}

#[test]
fn combine_intersects() {
    assert_eq!(found(1, 5).combine(found(3, 9)), found(3, 5));
    assert_eq!(found(1, 3).combine(found(3, 9)), StaticInterval::Abandon);
    assert_eq!(found(1, 3).combine(StaticInterval::Stable), found(1, 3));
    assert_eq!(StaticInterval::Stable.combine(found(1, 3)), found(1, 3));
    assert_eq!(StaticInterval::Stable.combine(StaticInterval::Stable), StaticInterval::Stable);
    assert_eq!(StaticInterval::Stable.combine(StaticInterval::Abandon), StaticInterval::Abandon);
}

#[test]
fn bounds_that_do_not_fit_are_told() {
    let seconds = |value: i64| {
        Expr::Literal(ScalarValue::TimestampSecond(Some(value), None), None)
    };
    let too_large = binary(ts(), Operator::Lt, seconds(i64::MAX));
    assert_eq!(StaticInterval::try_find(&too_large, &temporal()), None);
    let last = binary(ts(), Operator::Gt, nanos(i64::MAX));
    assert_eq!(StaticInterval::try_find(&last, &temporal()), None);
    let at_last = binary(ts(), Operator::GtEq, nanos(i64::MAX));
    assert_eq!(
        StaticInterval::try_find(&at_last, &temporal()),
        Some(found(i64::MAX, i64::MAX))
    );
    assert_eq!(
        StaticInterval::try_find(&between(nanos(1), nanos(i64::MAX), false), &temporal()),
        None
    );
    // A bound that is not read does not matter
    let value = binary(Expr::Column(column("value")), Operator::Lt, seconds(i64::MAX));
    assert_eq!(StaticInterval::try_find(&value, &temporal()), Some(StaticInterval::Stable));
}
