//! Which rows a filter keeps, and how the interval read from it relates to them.

use vstd::prelude::*;

use crate::column::ColumnView;
use crate::expr::{ExprView, Operator};
use crate::interval::TimeInterval;
use crate::static_interval::{
    both, bound_interval, bounds_fit, is_bound, literal_ns, static_interval, StaticInterval,
};

verus! {

/// `t op ns`
pub open spec fn compares(t: int, op: Operator, ns: int) -> bool {
    match op {
        Operator::Gt => t > ns,
        Operator::GtEq => t >= ns,
        Operator::Lt => t < ns,
        _ => t <= ns,
    }
}

/// The filter keeps a row in which the columns hold the instant `t`. What the filter demands
/// apart from comparisons of the columns with constants is true where `rest` says so.
pub open spec fn keeps(
    e: ExprView,
    columns: Set<ColumnView>,
    t: int,
    rest: spec_fn(ExprView) -> bool,
) -> bool
    decreases e,
{
    match e {
        ExprView::Binary { left, op, right } => {
            if op is And {
                keeps(*left, columns, t, rest) && keeps(*right, columns, t, rest)
            } else if is_bound(e, columns) {
                compares(t, op, literal_ns(*right)->0)
            } else {
                rest(e)
            }
        },
        ExprView::Between { negated, low, high, .. } => {
            if is_bound(e, columns) {
                (literal_ns(*low)->0 <= t <= literal_ns(*high)->0) != negated
            } else {
                rest(e)
            }
        },
        _ => rest(e),
    }
}

/// The expression is a conjunction of comparisons of the columns with constants, and of nothing
/// else.
pub open spec fn only_bounds(e: ExprView, columns: Set<ColumnView>) -> bool
    decreases e,
{
    match e {
        ExprView::Binary { left, op: Operator::And, right } => only_bounds(*left, columns)
            && only_bounds(*right, columns),
        _ => is_bound(e, columns),
    }
}

/// The interval read from a filter loses no row: every row that the filter keeps lies in it.
/// This leaves out the last instant that an `i64` holds, which no half-open interval reaches.
pub proof fn law_interval_holds_what_the_filter_keeps(
    e: ExprView,
    columns: Set<ColumnView>,
    interval: TimeInterval,
    t: int,
    rest: spec_fn(ExprView) -> bool,
)
    requires
        bounds_fit(e, columns),
        static_interval(e, columns) == StaticInterval::Found(interval),
        i64::MIN <= t < i64::MAX,
        keeps(e, columns, t, rest),
    ensures
        interval.holds(t),
    decreases e,
{
    match e {
        ExprView::Binary { left, op, right } => {
            if op is And {
                let first = static_interval(*left, columns);
                let second = static_interval(*right, columns);
                if first is Found {
                    law_interval_holds_what_the_filter_keeps(*left, columns, first->0, t, rest);
                }
                if second is Found {
                    law_interval_holds_what_the_filter_keeps(*right, columns, second->0, t, rest);
                }
            }
        },
        _ => {},
    }
}

/// Where a filter is made of bounds alone, the interval read from it is exact: the filter keeps a
/// row if and only if its instant lies in the interval.
pub proof fn law_interval_is_what_the_bounds_keep(
    e: ExprView,
    columns: Set<ColumnView>,
    interval: TimeInterval,
    t: int,
    rest: spec_fn(ExprView) -> bool,
)
    requires
        bounds_fit(e, columns),
        only_bounds(e, columns),
        static_interval(e, columns) == StaticInterval::Found(interval),
        i64::MIN <= t < i64::MAX,
    ensures
        keeps(e, columns, t, rest) <==> interval.holds(t),
    decreases e,
{
    match e {
        ExprView::Binary { left, op, right } => {
            if op is And {
                let first = static_interval(*left, columns);
                let second = static_interval(*right, columns);
                lemma_bounds_are_found(*left, columns);
                lemma_bounds_are_found(*right, columns);
                law_interval_is_what_the_bounds_keep(*left, columns, first->0, t, rest);
                law_interval_is_what_the_bounds_keep(*right, columns, second->0, t, rest);
            }
        },
        _ => {},
    }
}

/// Bounds either fix an interval or contradict each other.
proof fn lemma_bounds_are_found(e: ExprView, columns: Set<ColumnView>)
    requires
        only_bounds(e, columns),
    ensures
        static_interval(e, columns) is Found || static_interval(e, columns) is Abandon,
    decreases e,
{
    match e {
        ExprView::Binary { left, op, right } => {
            if op is And {
                lemma_bounds_are_found(*left, columns);
                lemma_bounds_are_found(*right, columns);
            }
        },
        _ => {},
    }
}

/// `column BETWEEN low AND high`
pub open spec fn between(column: ColumnView, low: ExprView, high: ExprView) -> ExprView {
    ExprView::Between {
        expr: Box::new(ExprView::Column(column)),
        negated: false,
        low: Box::new(low),
        high: Box::new(high),
    }
}

/// `left op right`
pub open spec fn binary(left: ExprView, op: Operator, right: ExprView) -> ExprView {
    ExprView::Binary { left: Box::new(left), op, right: Box::new(right) }
}

/// BETWEEN is the same as `>=` and `<=` together, where the lower bound is not above the upper.
pub proof fn law_between_is_two_bounds(
    column: ColumnView,
    columns: Set<ColumnView>,
    low: ExprView,
    high: ExprView,
)
    requires
        columns.contains(column),
        literal_ns(low) matches Some(lower) && literal_ns(high) matches Some(upper) && lower
            <= upper,
        bounds_fit(between(column, low, high), columns),
    ensures
        static_interval(between(column, low, high), columns) == static_interval(
            binary(
                binary(ExprView::Column(column), Operator::GtEq, low),
                Operator::And,
                binary(ExprView::Column(column), Operator::LtEq, high),
            ),
            columns,
        ),
{
    let lower = binary(ExprView::Column(column), Operator::GtEq, low);
    let upper = binary(ExprView::Column(column), Operator::LtEq, high);
    assert(static_interval(lower, columns) == StaticInterval::Found(
        bound_interval(Operator::GtEq, literal_ns(low)->0),
    ));
    assert(static_interval(upper, columns) == StaticInterval::Found(
        bound_interval(Operator::LtEq, literal_ns(high)->0),
    ));
}

/// The order of the sides of a conjunction does not matter.
pub proof fn law_conjunction_commutes(left: ExprView, right: ExprView, columns: Set<ColumnView>)
    ensures
        static_interval(binary(left, Operator::And, right), columns) == static_interval(
            binary(right, Operator::And, left),
            columns,
        ),
{
    assert(both(static_interval(left, columns), static_interval(right, columns)) == both(
        static_interval(right, columns),
        static_interval(left, columns),
    ));
}

/// A filter keeps a row whose instant meets its comparisons with constants, taken as numbers, and
/// whose other conditions are true.
pub proof fn law_what_a_filter_keeps(
    column: ColumnView,
    columns: Set<ColumnView>,
    low: ExprView,
    high: ExprView,
    lower: int,
    upper: int,
    left: ExprView,
    right: ExprView,
    t: int,
    rest: spec_fn(ExprView) -> bool,
)
    requires
        columns.contains(column),
        literal_ns(low) == Some(lower),
        literal_ns(high) == Some(upper),
    ensures
        keeps(binary(ExprView::Column(column), Operator::Gt, low), columns, t, rest) <==> t > lower,
        keeps(binary(ExprView::Column(column), Operator::GtEq, low), columns, t, rest) <==> t
            >= lower,
        keeps(binary(ExprView::Column(column), Operator::Lt, low), columns, t, rest) <==> t < lower,
        keeps(binary(ExprView::Column(column), Operator::LtEq, low), columns, t, rest) <==> t
            <= lower,
        keeps(between(column, low, high), columns, t, rest) <==> lower <= t <= upper,
        keeps(binary(left, Operator::And, right), columns, t, rest) <==> keeps(
            left,
            columns,
            t,
            rest,
        ) && keeps(right, columns, t, rest),
        keeps(binary(left, Operator::Or, right), columns, t, rest) <==> rest(
            binary(left, Operator::Or, right),
        ),
        keeps(binary(left, Operator::Eq, right), columns, t, rest) <==> rest(
            binary(left, Operator::Eq, right),
        ),
{
}

} // verus!
