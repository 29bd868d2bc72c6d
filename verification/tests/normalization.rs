use datafusion_query_cache::column::{Column, ColumnSet, TableReference};
use datafusion_query_cache::expr::{Between, BinaryExpr, Cast, Expr, Operator, ScalarFunction};
use datafusion_query_cache::normalize_temporal_bounds_in_expr;
use datafusion_query_cache::normalize_temporal_bounds_in_plan;
use datafusion_query_cache::plan::{Aggregate, Filter, LogicalPlan, Projection};
use datafusion_query_cache::scalar::ScalarValue;

fn column(name: &str) -> Column {
    Column::new(Some(TableReference::Bare { table: "test".to_string() }), name.to_string())
}

fn col(name: &str) -> Expr {
    Expr::Column(column(name))
}

fn micros(value: i64) -> Expr {
    Expr::Literal(ScalarValue::TimestampMicrosecond(Some(value), None), None)
}

fn binary(left: Expr, op: Operator, right: Expr) -> Expr {
    Expr::BinaryExpr(BinaryExpr { left: Box::new(left), op, right: Box::new(right) })
}

fn question_mark() -> ScalarValue {
    ScalarValue::Utf8(Some("?".to_string()))
}

fn blank() -> Expr {
    Expr::Literal(question_mark(), None)
}

fn temporal() -> ColumnSet {
    ColumnSet::of(column("timestamp"))
}

#[test]
fn test_param_fingerprint_normalization_simple_bounds() {
    let temporal_columns = temporal();

    // Different literal values but same query shape should produce identical expressions
    let expr1 = binary(col("timestamp"), Operator::GtEq, micros(1704067200000000));
    let expr2 = binary(col("timestamp"), Operator::GtEq, micros(1704067800000000));

    let normalized1 = normalize_temporal_bounds_in_expr(&expr1, &temporal_columns);
    let normalized2 = normalize_temporal_bounds_in_expr(&expr2, &temporal_columns);

    // Both should have "?" as the literal value
    assert_eq!(normalized1, normalized2);

    // Verify the structure is preserved
    if let Expr::BinaryExpr(bin) = normalized1 {
        assert_eq!(bin.op, Operator::GtEq);
        if let Expr::Literal(lit, _) = bin.right.as_ref() {
            assert_eq!(lit, &question_mark());
        } else {
            panic!("Expected literal in normalized expression");
        }
    } else {
        panic!("Expected binary expression");
    }
}

#[test]
fn test_param_fingerprint_between_normalization() {
    let temporal_columns = temporal();

    let between_expr = Expr::Between(Between {
        expr: Box::new(col("timestamp")),
        negated: false,
        low: Box::new(micros(1704067200000000)),
        high: Box::new(micros(1704070800000000)),
    });

    // Equivalent >= AND <= expression
    let range_expr = binary(
        binary(col("timestamp"), Operator::GtEq, micros(1704067200000000)),
        Operator::And,
        binary(col("timestamp"), Operator::LtEq, micros(1704070800000000)),
    );

    let normalized_between = normalize_temporal_bounds_in_expr(&between_expr, &temporal_columns);
    let normalized_range = normalize_temporal_bounds_in_expr(&range_expr, &temporal_columns);

    if let Expr::Between(between) = normalized_between {
        if let Expr::Literal(low_lit, _) = between.low.as_ref() {
            assert_eq!(low_lit, &question_mark());
        } else {
            panic!("Expected literal");
        }
        if let Expr::Literal(high_lit, _) = between.high.as_ref() {
            assert_eq!(high_lit, &question_mark());
        } else {
            panic!("Expected literal");
        }
    } else {
        panic!("Expected BETWEEN expression");
    }

    assert_eq!(
        normalized_range,
        binary(
            binary(col("timestamp"), Operator::GtEq, blank()),
            Operator::And,
            binary(col("timestamp"), Operator::LtEq, blank()),
        )
    );
}

#[test]
fn other_columns_keep_their_literals() {
    let expr = binary(
        binary(col("value"), Operator::Gt, micros(5)),
        Operator::And,
        binary(col("service"), Operator::Eq, blank()),
    );
    assert_eq!(normalize_temporal_bounds_in_expr(&expr, &temporal()), expr);
    // The same column of another table is another column
    let other = Expr::Column(Column::new(None, "timestamp".to_string()));
    let expr = binary(other, Operator::Gt, micros(5));
    assert_eq!(normalize_temporal_bounds_in_expr(&expr, &temporal()), expr);
}

#[test]
fn equality_is_no_bound() {
    let expr = binary(col("timestamp"), Operator::Eq, micros(5));
    assert_eq!(normalize_temporal_bounds_in_expr(&expr, &temporal()), expr);
}

#[test]
fn bounds_are_found_inside_other_expressions() {
    let bound = binary(col("timestamp"), Operator::Lt, micros(5));
    let normal = binary(col("timestamp"), Operator::Lt, blank());
    let function = Expr::ScalarFunction(ScalarFunction {
        name: "coalesce".to_string(),
        func: 3,
        immutable: true,
        args: vec![Expr::Not(Box::new(bound.clone())), col("value")],
    });
    let expected = Expr::ScalarFunction(ScalarFunction {
        name: "coalesce".to_string(),
        func: 3,
        immutable: true,
        args: vec![Expr::Not(Box::new(normal.clone())), col("value")],
    });
    assert_eq!(normalize_temporal_bounds_in_expr(&function, &temporal()), expected);
    let negative = Expr::Negative(Box::new(bound.clone()));
    assert_eq!(
        normalize_temporal_bounds_in_expr(&negative, &temporal()),
        Expr::Negative(Box::new(normal))
    );
    // Casts are left alone
    let cast = Expr::Cast(Cast { expr: Box::new(bound), data_type: 1 });
    assert_eq!(normalize_temporal_bounds_in_expr(&cast, &temporal()), cast);
}

#[test]
fn a_bound_that_is_no_literal_stays() {
    let cast = Expr::Cast(Cast { expr: Box::new(micros(5)), data_type: 1 });
    let expr = binary(col("timestamp"), Operator::Lt, cast);
    assert_eq!(normalize_temporal_bounds_in_expr(&expr, &temporal()), expr);
}

#[test]
fn normalizing_twice_changes_nothing() {
    let expr = Expr::Between(Between {
        expr: Box::new(col("timestamp")),
        negated: true,
        low: Box::new(micros(1)),
        high: Box::new(Expr::Other(4)),
    });
    let once = normalize_temporal_bounds_in_expr(&expr, &temporal());
    assert_eq!(
        once,
        Expr::Between(Between {
            expr: Box::new(col("timestamp")),
            negated: true,
            low: Box::new(blank()),
            high: Box::new(Expr::Other(4)),
        })
    );
    assert_eq!(normalize_temporal_bounds_in_expr(&once, &temporal()), once);
}

#[test]
fn no_columns_no_change() {
    let expr = binary(col("timestamp"), Operator::Lt, micros(5));
    assert_eq!(normalize_temporal_bounds_in_expr(&expr, &ColumnSet::new()), expr);
}

fn filtered(bound: i64) -> LogicalPlan {
    LogicalPlan::Aggregate(Aggregate {
        input: Box::new(LogicalPlan::Filter(Filter {
            predicate: binary(col("timestamp"), Operator::GtEq, micros(bound)),
            input: Box::new(LogicalPlan::Other(8)),
        })),
        group_expr: vec![binary(col("timestamp"), Operator::Lt, micros(bound))],
        aggr_expr: vec![Expr::Other(1)],
    })
}

#[test]
fn plans_that_differ_in_bounds_normalize_alike() {
    let first = normalize_temporal_bounds_in_plan(&filtered(1), &temporal());
    let second = normalize_temporal_bounds_in_plan(&filtered(2), &temporal());
    assert_eq!(first, second);
    assert_eq!(
        first,
        LogicalPlan::Aggregate(Aggregate {
            input: Box::new(LogicalPlan::Filter(Filter {
                predicate: binary(col("timestamp"), Operator::GtEq, blank()),
                input: Box::new(LogicalPlan::Other(8)),
            })),
            group_expr: vec![binary(col("timestamp"), Operator::Lt, blank())],
            aggr_expr: vec![Expr::Other(1)],
        })
    );
    assert_eq!(normalize_temporal_bounds_in_plan(&first, &temporal()), first);
}

#[test]
fn plans_below_a_projection_stay() {
    let plan = LogicalPlan::Projection(Projection { node: 1, input: Box::new(filtered(1)) });
    assert_eq!(normalize_temporal_bounds_in_plan(&plan, &temporal()), plan);
}
