//! Aggregations over a part of the time.

use vstd::prelude::*;

use crate::column::{Column, ColumnView};
use crate::error::PlanError;
use crate::exec::{exec_view, ExecView, ExecutionPlan, PhysicalExpr, PhysicalExprView};
use crate::expr::Operator;
use crate::interval::TimeInterval;
use crate::physical::{
    find_column_in_schema, find_timestamp_column_in_plan, indices_view, physical_view,
    timestamp_in_plan, timestamp_in_schema, AggregateMode, FieldView, PhysicalPlan, PhysicalView,
    TimestampColumn, TimestampColumnView,
};
use crate::plan::copy_indices;
use crate::scalar::{copy_text, ScalarValue, ScalarView, TimeUnit};
use crate::semantics::compares;

verus! {

/// The first instant of the unit that is not before `ns`, in whole units.
pub open spec fn in_units(unit: TimeUnit, ns: int) -> int {
    match unit {
        TimeUnit::Nanosecond => ns,
        TimeUnit::Microsecond => -((-ns) / 1_000),
        TimeUnit::Millisecond => -((-ns) / 1_000_000),
        TimeUnit::Second => -((-ns) / 1_000_000_000),
    }
}

/// An instant as a timestamp of the column's unit and time zone.
pub open spec fn instant_literal(column: TimestampColumnView, ns: int) -> PhysicalExprView {
    PhysicalExprView::Literal(
        ScalarView::Timestamp(column.unit, Some(in_units(column.unit, ns) as i64), column.zone),
    )
}

/// `left op right`
pub open spec fn physical_binary(
    left: PhysicalExprView,
    op: Operator,
    right: PhysicalExprView,
) -> PhysicalExprView {
    PhysicalExprView::Binary { left: Box::new(left), op, right: Box::new(right) }
}

/// `name >= start AND name < end`
pub open spec fn interval_predicate(
    name: Seq<char>,
    column: TimestampColumnView,
    interval: TimeInterval,
) -> PhysicalExprView {
    let place = PhysicalExprView::Column { name, index: column.place };
    physical_binary(
        physical_binary(
            place,
            Operator::GtEq,
            instant_literal(column, interval.start_ns as int),
        ),
        Operator::And,
        physical_binary(place, Operator::Lt, instant_literal(column, interval.end_ns as int)),
    )
}

/// The plan whose rows are filtered: what an aggregation stands on, under its projection where it
/// has one; any other plan itself.
pub open spec fn plan_to_filter(plan: PhysicalView) -> PhysicalView {
    match plan {
        PhysicalView::Aggregate { input, .. } => match *input {
            PhysicalView::Projection { input: inner, .. } => *inner,
            _ => *input,
        },
        _ => plan,
    }
}

/// The plan as it was given.
pub open spec fn given<E>(plan: PhysicalView) -> ExecView<E> {
    ExecView::Given { node: plan.node(), name: plan.name() }
}

/// The plan whose rows the condition on the time is put to, as far as filters, projections and
/// coalesced partitions have to be passed to get to the column: the input of a filter or any other
/// plan itself, where its schema has the column.
pub open spec fn bounded_rows(plan: PhysicalView, name: Seq<char>) -> Option<PhysicalView>
    decreases plan,
{
    match plan {
        PhysicalView::Filter { input, .. } => if timestamp_in_schema(
            (*input).fields(),
            name,
        ) is Some {
            Some(*input)
        } else if timestamp_in_schema(plan.fields(), name) is Some {
            Some(plan)
        } else {
            bounded_rows(*input, name)
        },
        _ => if timestamp_in_schema(plan.fields(), name) is Some {
            Some(plan)
        } else {
            match plan {
                PhysicalView::Projection { input, .. } => bounded_rows(*input, name),
                PhysicalView::CoalescePartitions { input, .. } => bounded_rows(*input, name),
                _ => None,
            }
        },
    }
}

/// The plan with the condition that the rows of an interval meet. It is put to the rows of
/// `bounded_rows`: a filter directly on them gets it in its own predicate, and the filters,
/// projections and coalesced partitions above them stay. `None` where there are no such rows.
pub open spec fn filtered<E>(
    plan: PhysicalView,
    name: Seq<char>,
    interval: TimeInterval,
) -> Option<ExecView<E>>
    decreases plan,
{
    match plan {
        PhysicalView::Filter { node, projection, input, .. } => match timestamp_in_schema(
            (*input).fields(),
            name,
        ) {
            Some(column) => Some(
                ExecView::Filter {
                    predicate: physical_binary(
                        PhysicalExprView::PredicateOf(node),
                        Operator::And,
                        interval_predicate(name, column, interval),
                    ),
                    input: Box::new(given(*input)),
                    projection,
                },
            ),
            None => match timestamp_in_schema(plan.fields(), name) {
                Some(column) => Some(
                    conditioned(plan, interval_predicate(name, column, interval)),
                ),
                None => match filtered::<E>(*input, name, interval) {
                    Some(rows) => Some(
                        ExecView::Filter {
                            predicate: PhysicalExprView::PredicateOf(node),
                            input: Box::new(rows),
                            projection,
                        },
                    ),
                    None => None,
                },
            },
        },
        _ => match timestamp_in_schema(plan.fields(), name) {
            Some(column) => Some(conditioned(plan, interval_predicate(name, column, interval))),
            None => match plan {
                PhysicalView::Projection { node, input, .. } => match filtered::<E>(
                    *input,
                    name,
                    interval,
                ) {
                    Some(rows) => Some(
                        ExecView::Projection { like: node, input: Box::new(rows) },
                    ),
                    None => None,
                },
                PhysicalView::CoalescePartitions { input, .. } => match filtered::<E>(
                    *input,
                    name,
                    interval,
                ) {
                    Some(rows) => Some(ExecView::CoalescePartitions(Box::new(rows))),
                    None => None,
                },
                _ => None,
            },
        },
    }
}

/// The plan as it was given, under a filter.
pub open spec fn conditioned<E>(plan: PhysicalView, condition: PhysicalExprView) -> ExecView<E> {
    ExecView::Filter { predicate: condition, input: Box::new(given(plan)), projection: None }
}

/// The aggregation on other rows, under its projection where that computes anything. Any other
/// plan becomes the rows.
pub open spec fn rebuilt<E>(plan: PhysicalView, rows: ExecView<E>) -> ExecView<E> {
    match plan {
        PhysicalView::Aggregate { node, mode, input, .. } => ExecView::Aggregate {
            like: node,
            mode,
            input: Box::new(
                match *input {
                    PhysicalView::Projection { node: projection, exprs, .. } => if exprs > 0 {
                        ExecView::Projection { like: projection, input: Box::new(rows) }
                    } else {
                        rows
                    },
                    _ => rows,
                },
            ),
        },
        _ => rows,
    }
}

/// The plan over the rows of an interval alone.
pub open spec fn bounded<E>(
    plan: PhysicalView,
    bound_column: ColumnView,
    interval: TimeInterval,
) -> Result<ExecView<E>, PlanError> {
    match filtered::<E>(plan_to_filter(plan), bound_column.name, interval) {
        None => Err(PlanError::TimestampColumnNotFound),
        Some(rows) => Ok(rebuilt(plan, rows)),
    }
}

/// Nanoseconds in units of `k` nanoseconds, rounded up.
fn round_up(ns: i64, k: i64) -> (units: i64)
    requires
        k > 1,
    ensures
        units == -((-ns) / (k as int)),
{
    if ns > 0 {
        proof {
            assert(-((-ns) / (k as int)) == (ns - 1) / (k as int) + 1) by (nonlinear_arith)
                requires
                    ns > 0,
                    k > 1,
            ;
            assert(0 <= (ns - 1) / (k as int) <= ns - 1) by (nonlinear_arith)
                requires
                    ns > 0,
                    k > 1,
            ;
        }
        (ns - 1) / k + 1
    } else {
        ns / k
    }
}

/// A bound in the unit and time zone of the column.
fn bound_literal(column: &TimestampColumn, ns: i64) -> (literal: PhysicalExpr)
    ensures
        literal@ == instant_literal(column@, ns as int),
{
    let zone = copy_text(&column.zone);
    let value = match column.unit {
        TimeUnit::Nanosecond => ScalarValue::TimestampNanosecond(Some(ns), zone),
        TimeUnit::Microsecond => ScalarValue::TimestampMicrosecond(
            Some(round_up(ns, 1_000)),
            zone,
        ),
        TimeUnit::Millisecond => ScalarValue::TimestampMillisecond(
            Some(round_up(ns, 1_000_000)),
            zone,
        ),
        TimeUnit::Second => ScalarValue::TimestampSecond(
            Some(round_up(ns, 1_000_000_000)),
            zone,
        ),
    };
    PhysicalExpr::Literal(value)
}

/// `name op bound`
fn bound_predicate(name: &String, column: &TimestampColumn, op: Operator, ns: i64) -> (predicate:
    PhysicalExpr)
    ensures
        predicate@ == physical_binary(
            PhysicalExprView::Column { name: name@, index: column@.place },
            op,
            instant_literal(column@, ns as int),
        ),
{
    proof {
        reveal_with_fuel(crate::exec::physical_expr_view, 2);
    }
    PhysicalExpr::Binary {
        left: Box::new(PhysicalExpr::Column { name: name.clone(), index: column.place }),
        op,
        right: Box::new(bound_literal(column, ns)),
    }
}

/// The plan as it was given.
fn given_plan<'a, E>(plan: &PhysicalPlan) -> (same: ExecutionPlan<'a, E>)
    ensures
        same@ == given::<E>(plan@),
{
    ExecutionPlan::Given { node: plan.node(), name: plan.name() }
}

/// The condition that the rows of an interval meet.
fn interval_condition(
    name: &String,
    column: &TimestampColumn,
    interval: &TimeInterval,
) -> (condition: PhysicalExpr)
    ensures
        condition@ == interval_predicate(name@, column@, *interval),
{
    proof {
        reveal_with_fuel(crate::exec::physical_expr_view, 2);
    }
    let lower = bound_predicate(name, column, Operator::GtEq, interval.start_ns);
    let upper = bound_predicate(name, column, Operator::Lt, interval.end_ns);
    PhysicalExpr::Binary { left: Box::new(lower), op: Operator::And, right: Box::new(upper) }
}

/// The plan as it was given, under a filter.
fn condition_plan<'a, E>(plan: &PhysicalPlan, condition: PhysicalExpr) -> (rows: ExecutionPlan<
    'a,
    E,
>)
    ensures
        rows@ == conditioned::<E>(plan@, condition@),
{
    proof {
        reveal_with_fuel(exec_view, 2);
    }
    ExecutionPlan::Filter {
        predicate: condition,
        input: Box::new(given_plan(plan)),
        projection: None,
    }
}

/// The plan with the condition that the rows of an interval meet, put where the column is.
fn filter_plan<'a, E>(plan: &PhysicalPlan, column: &Column, interval: &TimeInterval) -> (rows:
    Option<ExecutionPlan<'a, E>>)
    ensures
        match rows {
            Some(rows) => filtered::<E>(plan@, column@.name, *interval) == Some(rows@),
            None => filtered::<E>(plan@, column@.name, *interval) is None,
        },
    decreases plan,
{
    proof {
        reveal_with_fuel(physical_view, 2);
        reveal_with_fuel(exec_view, 2);
        reveal_with_fuel(crate::exec::physical_expr_view, 2);
    }
    if let PhysicalPlan::Filter { node, projection, input, .. } = plan {
        // The predicate is put to the rows of the input
        if let Some(found) = find_column_in_schema(input.schema(), column) {
            let predicate = PhysicalExpr::Binary {
                left: Box::new(PhysicalExpr::PredicateOf(*node)),
                op: Operator::And,
                right: Box::new(interval_condition(&column.name, &found, interval)),
            };
            return Some(
                ExecutionPlan::Filter {
                    predicate,
                    input: Box::new(given_plan(input)),
                    projection: copy_projection(projection),
                },
            );
        }
    }
    if let Some(found) = find_column_in_schema(plan.schema(), column) {
        return Some(condition_plan(plan, interval_condition(&column.name, &found, interval)));
    }
    match plan {
        PhysicalPlan::Filter { node, projection, input, .. } => match filter_plan(
            input,
            column,
            interval,
        ) {
            Some(rows) => Some(
                ExecutionPlan::Filter {
                    predicate: PhysicalExpr::PredicateOf(*node),
                    input: Box::new(rows),
                    projection: copy_projection(projection),
                },
            ),
            None => None,
        },
        PhysicalPlan::Projection { node, input, .. } => match filter_plan(input, column, interval) {
            Some(rows) => Some(ExecutionPlan::Projection { like: *node, input: Box::new(rows) }),
            None => None,
        },
        PhysicalPlan::CoalescePartitions { input, .. } => match filter_plan(
            input,
            column,
            interval,
        ) {
            Some(rows) => Some(ExecutionPlan::CoalescePartitions(Box::new(rows))),
            None => None,
        },
        _ => None,
    }
}

/// A copy of the columns that a filter keeps.
fn copy_projection(projection: &Option<Vec<usize>>) -> (same: Option<Vec<usize>>)
    ensures
        indices_view(same) == indices_view(*projection),
{
    match projection {
        Some(projection) => Some(copy_indices(projection)),
        None => None,
    }
}

/// Rows that can be bounded have the column somewhere in their plan.
proof fn lemma_bounded_rows_have_the_column<E>(
    plan: PhysicalView,
    name: Seq<char>,
    interval: TimeInterval,
)
    requires
        filtered::<E>(plan, name, interval) is Some,
    ensures
        timestamp_in_plan(plan, name) is Some,
    decreases plan,
{
    reveal_with_fuel(timestamp_in_plan, 2);
    if timestamp_in_schema(plan.fields(), name) is None {
        match plan {
            PhysicalView::Filter { input, .. } => if timestamp_in_schema(
                (*input).fields(),
                name,
            ) is None {
                lemma_bounded_rows_have_the_column::<E>(*input, name, interval);
            },
            PhysicalView::Projection { input, .. } => {
                lemma_bounded_rows_have_the_column::<E>(*input, name, interval);
            },
            PhysicalView::CoalescePartitions { input, .. } => {
                lemma_bounded_rows_have_the_column::<E>(*input, name, interval);
            },
            _ => {},
        }
    }
}

/// Apply interval bounds to an aggregation. They are put on the data under its projection, if it
/// has one, and an empty projection is left out.
pub fn with_interval_bounds<'a, E>(
    partial_agg_exec: &PhysicalPlan,
    bound_column: &Column,
    interval: &TimeInterval,
) -> (plan: Result<ExecutionPlan<'a, E>, PlanError>)
    ensures
        match bounded::<E>(partial_agg_exec@, bound_column@, *interval) {
            Ok(view) => plan matches Ok(plan) && plan@ == view,
            Err(error) => plan == Err::<ExecutionPlan<'a, E>, PlanError>(error),
        },
{
    proof {
        reveal_with_fuel(physical_view, 3);
        reveal_with_fuel(exec_view, 3);
    }
    let target = match partial_agg_exec {
        PhysicalPlan::Aggregate { input, .. } => match &**input {
            PhysicalPlan::Projection { input: inner, .. } => &**inner,
            _ => &**input,
        },
        _ => partial_agg_exec,
    };
    if find_timestamp_column_in_plan(target, bound_column).is_none() {
        proof {
            if filtered::<E>(target@, bound_column@.name, *interval) is Some {
                lemma_bounded_rows_have_the_column::<E>(target@, bound_column@.name, *interval);
            }
        }
        return Err(PlanError::TimestampColumnNotFound);
    }
    let rows = match filter_plan(target, bound_column, interval) {
        Some(rows) => rows,
        None => {
            return Err(PlanError::TimestampColumnNotFound);
        },
    };
    // Rebuild the plan on the filtered rows
    match partial_agg_exec {
        PhysicalPlan::Aggregate { node, mode, input, .. } => {
            let new_input = match &**input {
                PhysicalPlan::Projection { node: projection, exprs, .. } => {
                    if *exprs > 0 {
                        ExecutionPlan::Projection { like: *projection, input: Box::new(rows) }
                    } else {
                        rows
                    }
                },
                _ => rows,
            };
            Ok(ExecutionPlan::Aggregate { like: *node, mode: *mode, input: Box::new(new_input) })
        },
        _ => Ok(rows),
    }
}

/// A row: the values of its columns by their places. A column without a value is NULL.
pub type Row = spec_fn(int) -> Option<int>;

/// What the nodes that were given do to a row, by their handles.
pub struct Nodes {
    /// The predicate of a filter.
    pub keeps: spec_fn(u64, Row) -> bool,
    /// The row that a projection makes of a row.
    pub project: spec_fn(u64, Row) -> Row,
}

/// The condition holds of a row.
pub open spec fn is_met(condition: PhysicalExprView, row: Row, nodes: Nodes) -> bool
    decreases condition,
{
    match condition {
        PhysicalExprView::PredicateOf(node) => (nodes.keeps)(node, row),
        PhysicalExprView::Binary { left, op: Operator::And, right } => is_met(*left, row, nodes)
            && is_met(*right, row, nodes),
        PhysicalExprView::Binary { left, op, right } => match (*left, *right) {
            (
                PhysicalExprView::Column { index, .. },
                PhysicalExprView::Literal(ScalarView::Timestamp(_, Some(bound), _)),
            ) => match row(index) {
                Some(value) => op.orders() && compares(value, op, bound as int),
                None => false,
            },
            _ => false,
        },
        _ => false,
    }
}

/// The row with the columns that a filter keeps.
pub open spec fn picked(row: Row, projection: Option<Seq<usize>>) -> Row {
    match projection {
        Some(places) => |i: int|
            if 0 <= i < places.len() {
                row(places[i] as int)
            } else {
                None
            },
        None => row,
    }
}

/// What a filter makes of a row that reaches it.
pub open spec fn sieved(
    row: Option<Row>,
    keeps: spec_fn(Row) -> bool,
    projection: Option<Seq<usize>>,
) -> Option<Row> {
    match row {
        Some(row) => if keeps(row) {
            Some(picked(row, projection))
        } else {
            None
        },
        None => None,
    }
}

/// What a plan makes of a row of `bounded_rows`, as it was given.
pub open spec fn passed(plan: PhysicalView, name: Seq<char>, row: Row, nodes: Nodes) -> Option<Row>
    decreases plan,
{
    match plan {
        PhysicalView::Filter { node, projection, input, .. } => if timestamp_in_schema(
            (*input).fields(),
            name,
        ) is Some {
            sieved(Some(row), |r: Row| (nodes.keeps)(node, r), projection)
        } else if timestamp_in_schema(plan.fields(), name) is Some {
            Some(row)
        } else {
            sieved(
                passed(*input, name, row, nodes),
                |r: Row| (nodes.keeps)(node, r),
                projection,
            )
        },
        _ => if timestamp_in_schema(plan.fields(), name) is Some {
            Some(row)
        } else {
            match plan {
                PhysicalView::Projection { node, input, .. } => match passed(
                    *input,
                    name,
                    row,
                    nodes,
                ) {
                    Some(row) => Some((nodes.project)(node, row)),
                    None => None,
                },
                PhysicalView::CoalescePartitions { input, .. } => passed(*input, name, row, nodes),
                _ => None,
            }
        },
    }
}

/// What a plan that the cache builds makes of a row of the plan that was given to it.
pub open spec fn passed_on<E>(plan: ExecView<E>, row: Row, nodes: Nodes) -> Option<Row>
    decreases plan,
{
    match plan {
        ExecView::Given { .. } => Some(row),
        ExecView::Filter { predicate, input, projection } => sieved(
            passed_on(*input, row, nodes),
            |r: Row| is_met(predicate, r, nodes),
            projection,
        ),
        ExecView::Projection { like, input } => match passed_on(*input, row, nodes) {
            Some(row) => Some((nodes.project)(like, row)),
            None => None,
        },
        ExecView::CoalescePartitions(input) => passed_on(*input, row, nodes),
        _ => None,
    }
}

/// The column of the row has a value, and the instant of it lies in the interval.
pub open spec fn lies_in(row: Row, column: TimestampColumnView, interval: TimeInterval) -> bool {
    row(column.place) matches Some(units) && interval.holds(column.unit.nanoseconds(units))
}

/// The places of the columns that the condition reads.
pub open spec fn places_read(condition: PhysicalExprView) -> Set<int>
    decreases condition,
{
    match condition {
        PhysicalExprView::Column { index, .. } => set![index],
        PhysicalExprView::Binary { left, right, .. } => places_read(*left) + places_read(*right),
        _ => set![],
    }
}

/// The predicate is that of a filter that was given, and the condition.
pub open spec fn is_conjoined(predicate: PhysicalExprView, condition: PhysicalExprView) -> bool {
    &&& predicate matches PhysicalExprView::Binary { left, op: Operator::And, right }
    &&& *left is PredicateOf
    &&& *right == condition
}

/// The plan puts the condition to the rows of `data`, alone or beside the predicate of a filter
/// that was given.
pub open spec fn puts_condition<E>(
    plan: ExecView<E>,
    data: PhysicalView,
    condition: PhysicalExprView,
) -> bool
    decreases plan,
{
    match plan {
        ExecView::Filter { predicate, input, .. } => {
            ||| *input == given::<E>(data) && (predicate == condition || is_conjoined(
                predicate,
                condition,
            ))
            ||| puts_condition(*input, data, condition)
        },
        ExecView::Projection { input, .. } => puts_condition(*input, data, condition),
        ExecView::CoalescePartitions(input) => puts_condition(*input, data, condition),
        ExecView::Aggregate { input, .. } => puts_condition(*input, data, condition),
        _ => false,
    }
}

/// The condition that an interval puts on a row keeps it if and only if the column has a value and
/// the instant of it lies in the interval. It reads no other column.
pub proof fn law_bounds_keep_the_interval(
    name: Seq<char>,
    column: TimestampColumnView,
    interval: TimeInterval,
    row: Row,
    nodes: Nodes,
)
    ensures
        is_met(interval_predicate(name, column, interval), row, nodes) <==> lies_in(
            row,
            column,
            interval,
        ),
        places_read(interval_predicate(name, column, interval)) == set![column.place],
{
    reveal_with_fuel(is_met, 3);
    reveal_with_fuel(places_read, 3);
    assert(places_read(interval_predicate(name, column, interval)) =~= set![column.place]);
    assert(in_units(column.unit, interval.start_ns as int) as i64 == in_units(
        column.unit,
        interval.start_ns as int,
    ));
    assert(in_units(column.unit, interval.end_ns as int) as i64 == in_units(
        column.unit,
        interval.end_ns as int,
    ));
}

/// The place that is found in a schema is that of a timestamp column of the name, with its unit
/// and time zone, and no field before it is one.
pub proof fn law_place_is_that_of_the_column(fields: Seq<FieldView>, name: Seq<char>)
    ensures
        match timestamp_in_schema(fields, name) {
            Some(column) => {
                &&& 0 <= column.place < fields.len()
                &&& fields[column.place].name == name
                &&& fields[column.place].timestamp == Some((column.unit, column.zone))
                &&& forall|i: int|
                    0 <= i < column.place ==> (#[trigger] fields[i]).name != name
                        || fields[i].timestamp is None
            },
            None => forall|i: int|
                0 <= i < fields.len() ==> (#[trigger] fields[i]).name != name
                    || fields[i].timestamp is None,
        },
    decreases fields.len(),
{
    if fields.len() > 0 {
        let before = fields.drop_last();
        law_place_is_that_of_the_column(before, name);
        assert forall|i: int| 0 <= i < before.len() implies before[i] == #[trigger] fields[i] by {}
    }
}

/// Bounds are put on the time of the rows and on nothing else: where a plan can be bounded, the
/// condition is put to rows whose schema has the column, and reads the place that the column has
/// there.
pub proof fn law_condition_reads_the_column<E>(
    plan: PhysicalView,
    bound_column: ColumnView,
    interval: TimeInterval,
)
    ensures
        bounded::<E>(plan, bound_column, interval) is Ok <==> bounded_rows(
            plan_to_filter(plan),
            bound_column.name,
        ) is Some,
        bounded_rows(plan_to_filter(plan), bound_column.name) matches Some(data) ==> (
        timestamp_in_schema(data.fields(), bound_column.name) matches Some(column)
            && puts_condition(
            bounded::<E>(plan, bound_column, interval)->Ok_0,
            data,
            interval_predicate(bound_column.name, column, interval),
        )),
{
    lemma_condition_is_put::<E>(plan_to_filter(plan), bound_column.name, interval);
    reveal_with_fuel(puts_condition, 3);
}

/// The bounds of an interval take just the rows away whose time does not lie in it: of every other
/// row the bounded plan makes what the plan made as it was given, its filters and projections
/// still applying.
pub proof fn law_bounded_plan_keeps_the_rows_of_the_interval<E>(
    plan: PhysicalView,
    name: Seq<char>,
    interval: TimeInterval,
    row: Row,
    nodes: Nodes,
)
    requires
        bounded_rows(plan, name) is Some,
    ensures
        timestamp_in_schema(bounded_rows(plan, name)->0.fields(), name) matches Some(column)
            && filtered::<E>(plan, name, interval) matches Some(rows) && passed_on(rows, row, nodes)
            == if lies_in(row, column, interval) {
            passed(plan, name, row, nodes)
        } else {
            None
        },
    decreases plan,
{
    reveal_with_fuel(passed_on, 3);
    reveal_with_fuel(is_met, 2);
    let column = timestamp_in_schema(bounded_rows(plan, name)->0.fields(), name);
    if column is Some {
        law_bounds_keep_the_interval(name, column->0, interval, row, nodes);
    }
    match plan {
        PhysicalView::Filter { input, .. } => if timestamp_in_schema(
            (*input).fields(),
            name,
        ) is None && timestamp_in_schema(plan.fields(), name) is None {
            law_bounded_plan_keeps_the_rows_of_the_interval::<E>(
                *input,
                name,
                interval,
                row,
                nodes,
            );
        },
        _ => if timestamp_in_schema(plan.fields(), name) is None {
            match plan {
                PhysicalView::Projection { input, .. } => {
                    law_bounded_plan_keeps_the_rows_of_the_interval::<E>(
                        *input,
                        name,
                        interval,
                        row,
                        nodes,
                    );
                },
                PhysicalView::CoalescePartitions { input, .. } => {
                    law_bounded_plan_keeps_the_rows_of_the_interval::<E>(
                        *input,
                        name,
                        interval,
                        row,
                        nodes,
                    );
                },
                _ => {},
            }
        },
    }
}

proof fn lemma_condition_is_put<E>(plan: PhysicalView, name: Seq<char>, interval: TimeInterval)
    ensures
        filtered::<E>(plan, name, interval) is Some <==> bounded_rows(plan, name) is Some,
        bounded_rows(plan, name) matches Some(data) ==> (timestamp_in_schema(
            data.fields(),
            name,
        ) matches Some(column) && puts_condition(
            filtered::<E>(plan, name, interval)->0,
            data,
            interval_predicate(name, column, interval),
        )),
    decreases plan,
{
    match plan {
        PhysicalView::Filter { input, .. } => {
            lemma_condition_is_put::<E>(*input, name, interval);
        },
        PhysicalView::Projection { input, .. } => {
            lemma_condition_is_put::<E>(*input, name, interval);
        },
        PhysicalView::CoalescePartitions { input, .. } => {
            lemma_condition_is_put::<E>(*input, name, interval);
        },
        _ => {},
    }
}

/// The unit has this many nanoseconds.
pub open spec fn is_unit_of(unit: TimeUnit, nanoseconds: int) -> bool {
    match unit {
        TimeUnit::Second => nanoseconds == 1_000_000_000,
        TimeUnit::Millisecond => nanoseconds == 1_000_000,
        TimeUnit::Microsecond => nanoseconds == 1_000,
        TimeUnit::Nanosecond => nanoseconds == 1,
    }
}

/// The condition that an interval puts on rows compares the column, by its name and place, with two
/// timestamps of its own unit and time zone: the first of that unit that is not before the start,
/// and the first that is not before the end.
pub proof fn law_condition_is_in_the_terms_of_the_column(
    name: Seq<char>,
    column: TimestampColumnView,
    interval: TimeInterval,
    k: int,
)
    requires
        is_unit_of(column.unit, k),
    ensures
        exists|from: i64, until: i64|
            {
                &&& (from - 1) * k < interval.start_ns <= from * k
                &&& (until - 1) * k < interval.end_ns <= until * k
                &&& interval_predicate(name, column, interval) == #[trigger] written_bounds(
                    name,
                    column,
                    from,
                    until,
                )
            },
{
    let from = in_units(column.unit, interval.start_ns as int) as i64;
    let until = in_units(column.unit, interval.end_ns as int) as i64;
    assert(from == in_units(column.unit, interval.start_ns as int));
    assert(until == in_units(column.unit, interval.end_ns as int));
    assert(interval_predicate(name, column, interval) == written_bounds(name, column, from, until));
}

/// `name >= from AND name < until`, where the name stands at the place of the column, and the
/// bounds are timestamps of its unit and time zone.
pub open spec fn written_bounds(
    name: Seq<char>,
    column: TimestampColumnView,
    from: i64,
    until: i64,
) -> PhysicalExprView {
    PhysicalExprView::Binary {
        left: Box::new(
            PhysicalExprView::Binary {
                left: Box::new(PhysicalExprView::Column { name, index: column.place }),
                op: Operator::GtEq,
                right: Box::new(
                    PhysicalExprView::Literal(
                        ScalarView::Timestamp(column.unit, Some(from), column.zone),
                    ),
                ),
            },
        ),
        op: Operator::And,
        right: Box::new(
            PhysicalExprView::Binary {
                left: Box::new(PhysicalExprView::Column { name, index: column.place }),
                op: Operator::Lt,
                right: Box::new(
                    PhysicalExprView::Literal(
                        ScalarView::Timestamp(column.unit, Some(until), column.zone),
                    ),
                ),
            },
        ),
    }
}

/// What reaches an aggregation that was given, of a row of the plan that is bounded under it.
pub open spec fn reaches(
    plan: PhysicalView,
    name: Seq<char>,
    row: Row,
    nodes: Nodes,
) -> Option<Row> {
    match plan {
        PhysicalView::Aggregate { input, .. } => match *input {
            PhysicalView::Projection { node, input: inner, .. } => match passed(
                *inner,
                name,
                row,
                nodes,
            ) {
                Some(row) => Some((nodes.project)(node, row)),
                None => None,
            },
            _ => passed(*input, name, row, nodes),
        },
        _ => None,
    }
}

/// The plan that the rows of a built plan come from.
pub open spec fn source_of<E>(plan: ExecView<E>) -> ExecView<E>
    decreases plan,
{
    match plan {
        ExecView::Filter { input, .. } => source_of(*input),
        ExecView::Projection { input, .. } => source_of(*input),
        ExecView::CoalescePartitions(input) => source_of(*input),
        ExecView::Aggregate { input, .. } => source_of(*input),
        _ => plan,
    }
}

/// A bounded aggregation is the aggregation that was given, in its mode, and sees of each row what
/// that one saw, where the time of the row lies in the interval; other rows do not reach it. The
/// rows come from the plan that has the column. Where the aggregation stands on a projection that
/// computes nothing, so that it reads no column, only that the same rows reach it is said.
pub proof fn law_bounded_aggregation_sees_the_rows_of_the_interval<E>(
    node: u64,
    fields: Seq<FieldView>,
    mode: AggregateMode,
    input: PhysicalView,
    bound_column: ColumnView,
    interval: TimeInterval,
    row: Row,
    nodes: Nodes,
)
    ensures
        ({
            let plan = PhysicalView::Aggregate { node, fields, mode, input: Box::new(input) };
            let target = match input {
                PhysicalView::Projection { input: inner, .. } => *inner,
                _ => input,
            };
            match bounded_rows(target, bound_column.name) {
                None => bounded::<E>(plan, bound_column, interval) == Err::<
                    ExecView<E>,
                    PlanError,
                >(PlanError::TimestampColumnNotFound),
                Some(data) => {
                    &&& timestamp_in_schema(data.fields(), bound_column.name) matches Some(column)
                    &&& bounded::<E>(plan, bound_column, interval) matches Ok(built)
                    &&& built matches ExecView::Aggregate { like, mode: mode2, input: rows }
                    &&& like == node
                    &&& mode2 == mode
                    &&& source_of(built) == (ExecView::<E>::Given {
                        node: data.node(),
                        name: data.name(),
                    })
                    &&& !lies_in(row, column, interval) ==> passed_on(*rows, row, nodes) is None
                    &&& lies_in(row, column, interval) ==> {
                        &&& passed_on(*rows, row, nodes) is Some <==> reaches(
                            plan,
                            bound_column.name,
                            row,
                            nodes,
                        ) is Some
                        &&& !(input matches PhysicalView::Projection { exprs, .. } && exprs == 0)
                            ==> passed_on(*rows, row, nodes) == reaches(
                            plan,
                            bound_column.name,
                            row,
                            nodes,
                        )
                    }
                },
            }
        }),
{
    let name = bound_column.name;
    let plan = PhysicalView::Aggregate { node, fields, mode, input: Box::new(input) };
    let target = match input {
        PhysicalView::Projection { input: inner, .. } => *inner,
        _ => input,
    };
    assert(plan_to_filter(plan) == target);
    lemma_condition_is_put::<E>(target, name, interval);
    if bounded_rows(target, name) is Some {
        law_bounded_plan_keeps_the_rows_of_the_interval::<E>(target, name, interval, row, nodes);
        lemma_rows_come_from_the_data::<E>(target, name, interval);
        reveal_with_fuel(passed_on, 2);
        reveal_with_fuel(source_of, 3);
    }
}

/// A projection that computes something stays between the aggregation and the bounded rows.
pub proof fn law_projections_stay_under_the_aggregation<E>(
    node: u64,
    fields: Seq<FieldView>,
    mode: AggregateMode,
    projection: u64,
    exprs: usize,
    inner: PhysicalView,
    bound_column: ColumnView,
    interval: TimeInterval,
)
    requires
        exprs > 0,
        bounded_rows(inner, bound_column.name) is Some,
    ensures
        bounded::<E>(
            (PhysicalView::Aggregate {
                node,
                fields,
                mode,
                input: Box::new(
                    PhysicalView::Projection {
                        node: projection,
                        fields,
                        exprs,
                        input: Box::new(inner),
                    },
                ),
            }),
            bound_column,
            interval,
        ) matches Ok(ExecView::Aggregate { input, .. }) && *input matches ExecView::Projection {
            like,
            input: rows,
        } && like == projection && Some(*rows) == filtered::<E>(
            inner,
            bound_column.name,
            interval,
        ),
{
    lemma_condition_is_put::<E>(inner, bound_column.name, interval);
}

proof fn lemma_rows_come_from_the_data<E>(
    plan: PhysicalView,
    name: Seq<char>,
    interval: TimeInterval,
)
    requires
        bounded_rows(plan, name) is Some,
    ensures
        filtered::<E>(plan, name, interval) matches Some(rows) && source_of(rows) == (ExecView::<
            E,
        >::Given {
            node: bounded_rows(plan, name)->0.node(),
            name: bounded_rows(plan, name)->0.name(),
        }),
    decreases plan,
{
    lemma_condition_is_put::<E>(plan, name, interval);
    reveal_with_fuel(source_of, 2);
    match plan {
        PhysicalView::Filter { input, .. } => if timestamp_in_schema(
            (*input).fields(),
            name,
        ) is None && timestamp_in_schema(plan.fields(), name) is None {
            lemma_rows_come_from_the_data::<E>(*input, name, interval);
        },
        _ => if timestamp_in_schema(plan.fields(), name) is None {
            match plan {
                PhysicalView::Projection { input, .. } => {
                    lemma_rows_come_from_the_data::<E>(*input, name, interval);
                },
                PhysicalView::CoalescePartitions { input, .. } => {
                    lemma_rows_come_from_the_data::<E>(*input, name, interval);
                },
                _ => {},
            }
        },
    }
}

/// Rows are bounded where the column is: in the input of a filter, in the plan itself, or under
/// filters, projections and coalesced partitions, and nowhere else.
pub proof fn law_rows_are_bounded_where_the_column_is(plan: PhysicalView, name: Seq<char>)
    ensures
        ({
            let own = timestamp_in_schema(plan.fields(), name) is Some;
            match plan {
                PhysicalView::Filter { input, .. } => {
                    let below = timestamp_in_schema((*input).fields(), name) is Some;
                    &&& below ==> bounded_rows(plan, name) == Some(*input)
                    &&& !below && own ==> bounded_rows(plan, name) == Some(plan)
                    &&& !below && !own ==> bounded_rows(plan, name) == bounded_rows(*input, name)
                },
                PhysicalView::Projection { input, .. } => {
                    &&& own ==> bounded_rows(plan, name) == Some(plan)
                    &&& !own ==> bounded_rows(plan, name) == bounded_rows(*input, name)
                },
                PhysicalView::CoalescePartitions { input, .. } => {
                    &&& own ==> bounded_rows(plan, name) == Some(plan)
                    &&& !own ==> bounded_rows(plan, name) == bounded_rows(*input, name)
                },
                _ => bounded_rows(plan, name) == if own {
                    Some(plan)
                } else {
                    None
                },
            }
        }),
{
}

/// Every node above the rows that are bounded stays what it was: a filter with its predicate and
/// the columns that it keeps, a projection, coalesced partitions. A filter directly on these rows
/// gets the condition beside its predicate; other rows get a filter of their own.
pub proof fn law_nodes_above_the_bounded_rows_stay<E>(
    plan: PhysicalView,
    name: Seq<char>,
    interval: TimeInterval,
)
    requires
        bounded_rows(plan, name) is Some,
    ensures
        ({
            let own = timestamp_in_schema(plan.fields(), name);
            let rows = filtered::<E>(plan, name, interval);
            match plan {
                PhysicalView::Filter { node, projection, input, .. } => {
                    match timestamp_in_schema((*input).fields(), name) {
                        Some(column) => rows == Some(
                            ExecView::<E>::Filter {
                                predicate: PhysicalExprView::Binary {
                                    left: Box::new(PhysicalExprView::PredicateOf(node)),
                                    op: Operator::And,
                                    right: Box::new(interval_predicate(name, column, interval)),
                                },
                                input: Box::new(
                                    ExecView::Given {
                                        node: (*input).node(),
                                        name: (*input).name(),
                                    },
                                ),
                                projection,
                            },
                        ),
                        None => own is None ==> rows == Some(
                            ExecView::<E>::Filter {
                                predicate: PhysicalExprView::PredicateOf(node),
                                input: Box::new(filtered::<E>(*input, name, interval)->0),
                                projection,
                            },
                        ),
                    }
                },
                PhysicalView::Projection { node, input, .. } => own is None ==> rows == Some(
                    ExecView::<E>::Projection {
                        like: node,
                        input: Box::new(filtered::<E>(*input, name, interval)->0),
                    },
                ),
                PhysicalView::CoalescePartitions { input, .. } => own is None ==> rows == Some(
                    ExecView::<E>::CoalescePartitions(
                        Box::new(filtered::<E>(*input, name, interval)->0),
                    ),
                ),
                _ => true,
            }
        }),
        ({
            let own = timestamp_in_schema(plan.fields(), name);
            let in_the_input = plan matches PhysicalView::Filter { input, .. }
                && timestamp_in_schema((*input).fields(), name) is Some;
            own is Some && !in_the_input ==> filtered::<E>(plan, name, interval) == Some(
                ExecView::<E>::Filter {
                    predicate: interval_predicate(name, own->0, interval),
                    input: Box::new(ExecView::Given { node: plan.node(), name: plan.name() }),
                    projection: None,
                },
            )
        }),
{
    lemma_condition_is_put::<E>(plan, name, interval);
    match plan {
        PhysicalView::Filter { input, .. } => {
            lemma_condition_is_put::<E>(*input, name, interval);
        },
        PhysicalView::Projection { input, .. } => {
            lemma_condition_is_put::<E>(*input, name, interval);
        },
        PhysicalView::CoalescePartitions { input, .. } => {
            lemma_condition_is_put::<E>(*input, name, interval);
        },
        _ => {},
    }
}

/// A plan that is no aggregation is bounded as it stands.
pub proof fn law_other_plans_are_bounded_as_they_stand<E>(
    plan: PhysicalView,
    bound_column: ColumnView,
    interval: TimeInterval,
)
    requires
        plan !is Aggregate,
    ensures
        match bounded_rows(plan, bound_column.name) {
            Some(_) => bounded::<E>(plan, bound_column, interval) matches Ok(rows) && Some(rows)
                == filtered::<E>(plan, bound_column.name, interval),
            None => bounded::<E>(plan, bound_column, interval) == Err::<ExecView<E>, PlanError>(
                PlanError::TimestampColumnNotFound,
            ),
        },
{
    lemma_condition_is_put::<E>(plan, bound_column.name, interval);
}

/// Nothing stands between the aggregation and the bounded rows where it stood on no projection, or
/// on one that computes nothing.
pub proof fn law_bounded_rows_stand_directly_under_the_aggregation<E>(
    node: u64,
    fields: Seq<FieldView>,
    mode: AggregateMode,
    input: PhysicalView,
    bound_column: ColumnView,
    interval: TimeInterval,
)
    ensures
        ({
            let plan = PhysicalView::Aggregate { node, fields, mode, input: Box::new(input) };
            let target = match input {
                PhysicalView::Projection { exprs, input: inner, .. } => if exprs == 0 {
                    Some(*inner)
                } else {
                    None
                },
                _ => Some(input),
            };
            target is Some && bounded_rows(target->0, bound_column.name) is Some ==> (
            bounded::<E>(plan, bound_column, interval) matches Ok(ExecView::Aggregate {
                input: rows,
                ..
            }) && Some(*rows) == filtered::<E>(target->0, bound_column.name, interval))
        }),
{
    let target = match input {
        PhysicalView::Projection { input: inner, .. } => *inner,
        _ => input,
    };
    lemma_condition_is_put::<E>(target, bound_column.name, interval);
}

} // verus!
