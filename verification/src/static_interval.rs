//! Time intervals that a filter fixes by constants.

use vstd::prelude::*;

use crate::column::{ColumnSet, ColumnView};
use crate::expr::{expr_view, Between, BinaryExpr, Expr, ExprView, Operator, ScalarFunction};
use crate::interval::TimeInterval;
use crate::scalar::{ScalarValue, ScalarView, TimeUnit};

verus! {

/// What chrono reads from a text: `DateTime::parse_from_rfc3339`, then `timestamp_nanos_opt` of
/// the instant. `None` where the text is no RFC 3339 timestamp, or where the nanoseconds since the
/// epoch do not fit in an `i64`.
pub uninterp spec fn rfc3339_nanos(text: Seq<char>) -> Option<i64>;

/// Calls `chrono::DateTime::parse_from_rfc3339` and, where that succeeds, `timestamp_nanos_opt`
/// on the instant. Both are functions of the text alone, which is all that is claimed: the result
/// has a name.
#[verifier::external_body]
fn parse_rfc3339(text: &str) -> (ns: Option<i64>)
    ensures
        ns == rfc3339_nanos(text@),
{
    match chrono::DateTime::parse_from_rfc3339(text) {
        Ok(instant) => instant.timestamp_nanos_opt(),
        Err(_) => None,
    }
}

/// The number fits in an `i64`.
pub open spec fn fits(n: int) -> bool {
    i64::MIN <= n <= i64::MAX
}

/// The instant, in nanoseconds since the epoch, that an expression gives as a constant: a
/// timestamp literal, or the cast of a text that holds an RFC 3339 timestamp.
pub open spec fn literal_ns(e: ExprView) -> Option<int> {
    match e {
        ExprView::Literal(ScalarView::Timestamp(unit, Some(value), _), _) => Some(
            unit.nanoseconds(value as int),
        ),
        ExprView::Cast { expr, .. } => match *expr {
            ExprView::Literal(ScalarView::Utf8(Some(text)), _) => match rfc3339_nanos(text) {
                Some(ns) => Some(ns as int),
                None => None,
            },
            _ => None,
        },
        _ => None,
    }
}

/// The expression is one of the columns.
pub open spec fn is_column_of(e: ExprView, columns: Set<ColumnView>) -> bool {
    e matches ExprView::Column(column) && columns.contains(column)
}

/// The expression compares one of the columns with constants.
pub open spec fn is_bound(e: ExprView, columns: Set<ColumnView>) -> bool {
    match e {
        ExprView::Binary { left, op, right } => op.orders() && is_column_of(*left, columns)
            && literal_ns(*right) is Some,
        ExprView::Between { expr, low, high, .. } => is_column_of(*expr, columns) && literal_ns(
            *low,
        ) is Some && literal_ns(*high) is Some,
        _ => false,
    }
}

/// The instants that `column op ns` admits, as a half-open interval.
pub open spec fn bound_interval(op: Operator, ns: int) -> TimeInterval {
    match op {
        Operator::Gt => TimeInterval { start_ns: (ns + 1) as i64, end_ns: i64::MAX },
        Operator::GtEq => TimeInterval { start_ns: ns as i64, end_ns: i64::MAX },
        Operator::Lt => TimeInterval { start_ns: i64::MIN, end_ns: ns as i64 },
        _ => TimeInterval { start_ns: i64::MIN, end_ns: (ns + 1) as i64 },
    }
}

/// The interval of `column op ns` can be written down.
pub open spec fn bound_fits(op: Operator, ns: int) -> bool {
    fits(ns) && (op is Gt || op is LtEq ==> fits(ns + 1))
}

/// The bounds that `static_interval` reads in the expression can all be written down.
pub open spec fn bounds_fit(e: ExprView, columns: Set<ColumnView>) -> bool
    decreases e,
{
    match e {
        ExprView::Binary { left, op, right } => {
            if op.orders() && is_column_of(*left, columns) && literal_ns(*right) is Some {
                bound_fits(op, literal_ns(*right)->0)
            } else if op.orders() || op is And {
                bounds_fit(*left, columns) && bounds_fit(*right, columns)
            } else {
                true
            }
        },
        ExprView::Between { expr, negated, low, high } => {
            is_column_of(*expr, columns) && !negated ==> match (literal_ns(*low), literal_ns(*high)) {
                (Some(lower), Some(upper)) => fits(lower) && fits(upper) && fits(upper + 1),
                (Some(lower), None) => fits(lower),
                (None, _) => true,
            }
        },
        ExprView::Not(inner) => bounds_fit(*inner, columns),
        ExprView::Negative(inner) => bounds_fit(*inner, columns),
        _ => true,
    }
}

/// Static time intervals in expressions (such as BETWEEN, >=, <=).
#[derive(Debug, Clone, Copy, PartialEq, Eq, Structural)]
pub enum StaticInterval {
    /// A complete static interval.
    Found(TimeInterval),
    /// The expression is stable but does not define a complete interval.
    Stable,
    /// The expression contains dynamic elements or is unsupported.
    Abandon,
}

/// What both sides of a conjunction allow.
pub open spec fn both(left: StaticInterval, right: StaticInterval) -> StaticInterval {
    match (left, right) {
        (StaticInterval::Found(a), StaticInterval::Found(b)) => {
            let start_ns = if a.start_ns >= b.start_ns {
                a.start_ns
            } else {
                b.start_ns
            };
            let end_ns = if a.end_ns <= b.end_ns {
                a.end_ns
            } else {
                b.end_ns
            };
            if start_ns < end_ns {
                StaticInterval::Found(TimeInterval { start_ns, end_ns })
            } else {
                StaticInterval::Abandon
            }
        },
        (StaticInterval::Found(a), StaticInterval::Stable) => StaticInterval::Found(a),
        (StaticInterval::Stable, StaticInterval::Found(b)) => StaticInterval::Found(b),
        (StaticInterval::Stable, StaticInterval::Stable) => StaticInterval::Stable,
        _ => StaticInterval::Abandon,
    }
}

/// The more important of two: `Abandon` over an interval, an interval over `Stable`, and of two
/// intervals the first.
pub open spec fn more_important(first: StaticInterval, second: StaticInterval) -> StaticInterval {
    if first is Abandon || second is Abandon {
        StaticInterval::Abandon
    } else if first is Found {
        first
    } else {
        second
    }
}

/// The interval that a filter fixes for the columns by constants.
pub open spec fn static_interval(e: ExprView, columns: Set<ColumnView>) -> StaticInterval
    decreases e,
{
    match e {
        ExprView::Column(_) => StaticInterval::Stable,
        ExprView::Literal(_, _) => StaticInterval::Stable,
        ExprView::Binary { left, op, right } => {
            if op.orders() && is_column_of(*left, columns) && literal_ns(*right) is Some {
                StaticInterval::Found(bound_interval(op, literal_ns(*right)->0))
            } else if op.orders() {
                only_stable(
                    more_important(
                        static_interval(*left, columns),
                        static_interval(*right, columns),
                    ),
                )
            } else if op is And {
                both(static_interval(*left, columns), static_interval(*right, columns))
            } else {
                StaticInterval::Abandon
            }
        },
        ExprView::Between { expr, negated, low, high } => {
            if *expr !is Column {
                StaticInterval::Abandon
            } else if !is_column_of(*expr, columns) {
                StaticInterval::Stable
            } else if negated {
                StaticInterval::Abandon
            } else {
                match (literal_ns(*low), literal_ns(*high)) {
                    (Some(lower), Some(upper)) => StaticInterval::Found(
                        TimeInterval { start_ns: lower as i64, end_ns: (upper + 1) as i64 },
                    ),
                    _ => StaticInterval::Abandon,
                }
            }
        },
        ExprView::Not(inner) => only_stable(static_interval(*inner, columns)),
        ExprView::Negative(inner) => only_stable(static_interval(*inner, columns)),
        _ => StaticInterval::Abandon,
    }
}

/// `Stable` stays, all else is given up.
pub open spec fn only_stable(inner: StaticInterval) -> StaticInterval {
    if inner is Stable {
        StaticInterval::Stable
    } else {
        StaticInterval::Abandon
    }
}

impl StaticInterval {
    /// The interval that the expression fixes for the columns by constants.
    pub fn find(expr: &Expr, columns: &ColumnSet) -> (found: Self)
        requires
            bounds_fit(expr@, columns@),
        ensures
            found == static_interval(expr@, columns@),
        decreases expr,
    {
        match expr {
            Expr::BinaryExpr(bin_expr) => Self::find_bin_expr(bin_expr, columns),
            Expr::Between(between) => Self::find_between(between, columns),
            Expr::Literal(_, _) | Expr::Column(_) => StaticInterval::Stable,
            Expr::Not(e) | Expr::Negative(e) => match Self::find(e, columns) {
                StaticInterval::Stable => StaticInterval::Stable,
                _ => StaticInterval::Abandon,
            },
            Expr::ScalarFunction(scalar) => Self::find_scalar_function(scalar),
            _ => StaticInterval::Abandon,
        }
    }

    /// The same, where the bounds fit in an `i64`.
    pub fn try_find(expr: &Expr, columns: &ColumnSet) -> (found: Option<Self>)
        ensures
            match found {
                Some(found) => bounds_fit(expr@, columns@) && found == static_interval(
                    expr@,
                    columns@,
                ),
                None => !bounds_fit(expr@, columns@),
            },
    {
        if Self::bounds_fit(expr, columns) {
            Some(Self::find(expr, columns))
        } else {
            None
        }
    }

    fn find_bin_expr(bin_expr: &BinaryExpr, columns: &ColumnSet) -> (found: Self)
        requires
            bounds_fit(Expr::BinaryExpr(*bin_expr)@, columns@),
        ensures
            found == static_interval(Expr::BinaryExpr(*bin_expr)@, columns@),
        decreases bin_expr,
    {
        proof {
            reveal_with_fuel(expr_view, 3);
        }
        let left = &bin_expr.left;
        let op = bin_expr.op;
        let right = &bin_expr.right;
        match op {
            Operator::Gt | Operator::GtEq | Operator::Lt | Operator::LtEq => {
                if let Expr::Column(column) = &**left {
                    if columns.contains(column) {
                        if let Some(ns) = Self::extract_timestamp_ns(right) {
                            return StaticInterval::Found(comparison_interval(op, ns));
                        }
                    }
                }
                // Otherwise both sides have to be stable: a bound inside a comparison is none
                let left_result = Self::find(left, columns);
                let right_result = Self::find(right, columns);
                match left_result.either(right_result) {
                    StaticInterval::Stable => StaticInterval::Stable,
                    _ => StaticInterval::Abandon,
                }
            },
            Operator::And => {
                // Combine bounds from both sides
                let left_result = Self::find(left, columns);
                let right_result = Self::find(right, columns);
                left_result.combine(right_result)
            },
            _ => StaticInterval::Abandon,
        }
    }

    fn find_between(between: &Between, columns: &ColumnSet) -> (found: Self)
        requires
            bounds_fit(Expr::Between(*between)@, columns@),
        ensures
            found == static_interval(Expr::Between(*between)@, columns@),
    {
        proof {
            reveal_with_fuel(expr_view, 3);
        }
        match &*between.expr {
            Expr::Column(column) => {
                if !columns.contains(column) {
                    return StaticInterval::Stable;
                }
            },
            _ => {
                return StaticInterval::Abandon;
            },
        }
        // What NOT BETWEEN keeps is no interval
        if between.negated {
            return StaticInterval::Abandon;
        }
        let lower_ns = match Self::extract_timestamp_ns(&between.low) {
            Some(lower_ns) => lower_ns,
            None => {
                return StaticInterval::Abandon;
            },
        };
        let upper_ns = match Self::extract_timestamp_ns(&between.high) {
            Some(upper_ns) => upper_ns,
            None => {
                return StaticInterval::Abandon;
            },
        };
        // BETWEEN is inclusive, so convert to half-open [lower, upper+1)
        StaticInterval::Found(TimeInterval::new(lower_ns, upper_ns + 1))
    }

    /// Static functions are not supported for interval caching.
    fn find_scalar_function(_scalar: &ScalarFunction) -> (found: Self)
        ensures
            found == StaticInterval::Abandon,
    {
        StaticInterval::Abandon
    }

    /// The instant that the expression gives as a constant, in nanoseconds since the epoch.
    pub fn extract_timestamp_ns(expr: &Expr) -> (ns: Option<i64>)
        requires
            literal_ns(expr@) matches Some(ns) ==> fits(ns),
        ensures
            match ns {
                Some(ns) => literal_ns(expr@) == Some(ns as int),
                None => literal_ns(expr@) is None,
            },
    {
        proof {
            reveal_with_fuel(expr_view, 2);
        }
        match expr {
            Expr::Literal(ScalarValue::TimestampNanosecond(Some(ns), _), _) => Some(*ns),
            Expr::Literal(ScalarValue::TimestampMicrosecond(Some(us), _), _) => Some(*us * 1_000),
            Expr::Literal(ScalarValue::TimestampMillisecond(Some(ms), _), _) => Some(
                *ms * 1_000_000,
            ),
            Expr::Literal(ScalarValue::TimestampSecond(Some(s), _), _) => Some(*s * 1_000_000_000),
            // CAST(string_literal AS TIMESTAMP)
            Expr::Cast(cast) => match &*cast.expr {
                Expr::Literal(ScalarValue::Utf8(Some(text)), _) => parse_rfc3339(text.as_str()),
                _ => None,
            },
            _ => None,
        }
    }

    /// Find the value which is more important.
    pub fn either(self, other: Self) -> (found: Self)
        ensures
            found == more_important(self, other),
    {
        match (self, other) {
            (StaticInterval::Abandon, _) | (_, StaticInterval::Abandon) => StaticInterval::Abandon,
            (StaticInterval::Found(interval), _) => StaticInterval::Found(interval),
            (_, StaticInterval::Found(interval)) => StaticInterval::Found(interval),
            (StaticInterval::Stable, StaticInterval::Stable) => StaticInterval::Stable,
        }
    }

    /// What both sides of a conjunction allow; an empty interval is given up.
    pub fn combine(self, other: Self) -> (found: Self)
        ensures
            found == both(self, other),
    {
        match (self, other) {
            (StaticInterval::Found(left), StaticInterval::Found(right)) => {
                let start_ns = if left.start_ns >= right.start_ns {
                    left.start_ns
                } else {
                    right.start_ns
                };
                let end_ns = if left.end_ns <= right.end_ns {
                    left.end_ns
                } else {
                    right.end_ns
                };
                if start_ns < end_ns {
                    StaticInterval::Found(TimeInterval::new(start_ns, end_ns))
                } else {
                    // Invalid interval
                    StaticInterval::Abandon
                }
            },
            (StaticInterval::Found(interval), StaticInterval::Stable) => StaticInterval::Found(
                interval,
            ),
            (StaticInterval::Stable, StaticInterval::Found(interval)) => StaticInterval::Found(
                interval,
            ),
            (StaticInterval::Stable, StaticInterval::Stable) => StaticInterval::Stable,
            _ => StaticInterval::Abandon,
        }
    }

    /// Whether the bounds that `find` reads in the expression all fit in an `i64`.
    pub fn bounds_fit(expr: &Expr, columns: &ColumnSet) -> (fit: bool)
        ensures
            fit == bounds_fit(expr@, columns@),
        decreases expr,
    {
        proof {
            reveal_with_fuel(expr_view, 3);
        }
        match expr {
            Expr::BinaryExpr(bin_expr) => {
                let op = bin_expr.op;
                match op {
                    Operator::Gt | Operator::GtEq | Operator::Lt | Operator::LtEq => {
                        if let Expr::Column(column) = &*bin_expr.left {
                            if columns.contains(column) {
                                if let Some(ns) = exact_timestamp_ns(&bin_expr.right) {
                                    return in_i64(ns) && (!(op == Operator::Gt || op
                                        == Operator::LtEq) || in_i64(ns + 1));
                                }
                            }
                        }
                        Self::bounds_fit(&bin_expr.left, columns) && Self::bounds_fit(
                            &bin_expr.right,
                            columns,
                        )
                    },
                    Operator::And => {
                        Self::bounds_fit(&bin_expr.left, columns) && Self::bounds_fit(
                            &bin_expr.right,
                            columns,
                        )
                    },
                    _ => true,
                }
            },
            Expr::Between(between) => {
                if let Expr::Column(column) = &*between.expr {
                    if columns.contains(column) && !between.negated {
                        if let Some(lower) = exact_timestamp_ns(&between.low) {
                            if !in_i64(lower) {
                                return false;
                            }
                            if let Some(upper) = exact_timestamp_ns(&between.high) {
                                return in_i64(upper) && in_i64(upper + 1);
                            }
                        }
                    }
                }
                true
            },
            Expr::Not(e) | Expr::Negative(e) => Self::bounds_fit(e, columns),
            _ => true,
        }
    }
}

/// The instants that `column op ns` admits, as a half-open interval.
pub fn comparison_interval(op: Operator, ns: i64) -> (interval: TimeInterval)
    requires
        op.orders(),
        bound_fits(op, ns as int),
    ensures
        interval == bound_interval(op, ns as int),
{
    match op {
        Operator::Gt => TimeInterval::new(ns + 1, i64::MAX),
        Operator::GtEq => TimeInterval::new(ns, i64::MAX),
        Operator::Lt => TimeInterval::new(i64::MIN, ns),
        _ => TimeInterval::new(i64::MIN, ns + 1),
    }
}

fn in_i64(n: i128) -> (within: bool)
    ensures
        within == fits(n as int),
{
    i64::MIN as i128 <= n && n <= i64::MAX as i128
}

/// The instant that the expression gives as a constant, whatever its size.
pub(crate) fn exact_timestamp_ns(expr: &Expr) -> (ns: Option<i128>)
    ensures
        match ns {
            Some(ns) => literal_ns(expr@) == Some(ns as int) && ns < i128::MAX,
            None => literal_ns(expr@) is None,
        },
{
    proof {
        reveal_with_fuel(expr_view, 2);
    }
    match expr {
        Expr::Literal(ScalarValue::TimestampNanosecond(Some(ns), _), _) => Some(*ns as i128),
        Expr::Literal(ScalarValue::TimestampMicrosecond(Some(us), _), _) => Some(
            *us as i128 * 1_000,
        ),
        Expr::Literal(ScalarValue::TimestampMillisecond(Some(ms), _), _) => Some(
            *ms as i128 * 1_000_000,
        ),
        Expr::Literal(ScalarValue::TimestampSecond(Some(s), _), _) => Some(
            *s as i128 * 1_000_000_000,
        ),
        Expr::Cast(cast) => match &*cast.expr {
            Expr::Literal(ScalarValue::Utf8(Some(text)), _) => match parse_rfc3339(text.as_str()) {
                Some(ns) => Some(ns as i128),
                None => None,
            },
            _ => None,
        },
        _ => None,
    }
}

/// The instant of a timestamp literal is its number of units in nanoseconds, whatever the time zone.
/// A literal without a value has none.
pub proof fn law_instant_of_a_timestamp(
    value: i64,
    zone: Option<Seq<char>>,
    metadata: Option<u64>,
    unit: TimeUnit,
)
    ensures
        literal_ns(
            ExprView::Literal(
                ScalarView::Timestamp(TimeUnit::Second, Some(value), zone),
                metadata,
            ),
        ) == Some(value * 1_000_000_000),
        literal_ns(
            ExprView::Literal(
                ScalarView::Timestamp(TimeUnit::Millisecond, Some(value), zone),
                metadata,
            ),
        ) == Some(value * 1_000_000),
        literal_ns(
            ExprView::Literal(
                ScalarView::Timestamp(TimeUnit::Microsecond, Some(value), zone),
                metadata,
            ),
        ) == Some(value * 1_000),
        literal_ns(
            ExprView::Literal(
                ScalarView::Timestamp(TimeUnit::Nanosecond, Some(value), zone),
                metadata,
            ),
        ) == Some(value as int),
        literal_ns(ExprView::Literal(ScalarView::Timestamp(unit, None, zone), metadata)) is None,
{
}

/// The instant of the cast of a text is the one that the text names as an RFC 3339 timestamp,
/// whatever it is cast to.
pub proof fn law_instant_of_a_cast_text(
    text: Seq<char>,
    metadata: Option<u64>,
    data_type: u64,
)
    ensures
        ({
            let cast = ExprView::Cast {
                expr: Box::new(ExprView::Literal(ScalarView::Utf8(Some(text)), metadata)),
                data_type,
            };
            match rfc3339_nanos(text) {
                Some(ns) => literal_ns(cast) == Some(ns as int),
                None => literal_ns(cast) is None,
            }
        }),
{
}

/// Nothing but timestamp literals and casts of text literals gives an instant.
pub proof fn law_other_expressions_give_no_instant(e: ExprView)
    requires
        !(e matches ExprView::Literal(ScalarView::Timestamp(_, Some(_), _), _)),
        !(e matches ExprView::Cast { expr, .. } && *expr matches ExprView::Literal(
            ScalarView::Utf8(Some(_)),
            _,
        )),
    ensures
        literal_ns(e) is None,
{
}

/// A comparison of a temporal column with a constant fixes the interval of just those instants
/// that meet the comparison. This leaves out the last instant of an `i64`, which no half-open
/// interval reaches.
pub proof fn law_comparisons_admit_what_meets_them(
    column: ColumnView,
    columns: Set<ColumnView>,
    constant: ExprView,
    ns: int,
)
    requires
        columns.contains(column),
        literal_ns(constant) == Some(ns),
        i64::MIN <= ns <= i64::MAX,
    ensures
        ({
            let e = ExprView::Binary {
                left: Box::new(ExprView::Column(column)),
                op: Operator::GtEq,
                right: Box::new(constant),
            };
            &&& bounds_fit(e, columns)
            &&& static_interval(e, columns) matches StaticInterval::Found(i)
            &&& forall|t: int|
                i64::MIN <= t < i64::MAX ==> (#[trigger] i.holds(t) <==> t >= ns)
        }),
        ({
            let e = ExprView::Binary {
                left: Box::new(ExprView::Column(column)),
                op: Operator::Lt,
                right: Box::new(constant),
            };
            &&& bounds_fit(e, columns)
            &&& static_interval(e, columns) matches StaticInterval::Found(i)
            &&& forall|t: int|
                i64::MIN <= t < i64::MAX ==> (#[trigger] i.holds(t) <==> t < ns)
        }),
        ({
            let e = ExprView::Binary {
                left: Box::new(ExprView::Column(column)),
                op: Operator::Gt,
                right: Box::new(constant),
            };
            &&& bounds_fit(e, columns) <==> ns < i64::MAX
            &&& ns < i64::MAX ==> (static_interval(e, columns) matches StaticInterval::Found(i)
                && forall|t: int|
                i64::MIN <= t < i64::MAX ==> (#[trigger] i.holds(t) <==> t > ns))
        }),
        ({
            let e = ExprView::Binary {
                left: Box::new(ExprView::Column(column)),
                op: Operator::LtEq,
                right: Box::new(constant),
            };
            &&& bounds_fit(e, columns) <==> ns < i64::MAX
            &&& ns < i64::MAX ==> (static_interval(e, columns) matches StaticInterval::Found(i)
                && forall|t: int|
                i64::MIN <= t < i64::MAX ==> (#[trigger] i.holds(t) <==> t <= ns))
        }),
{
}

/// A lower bound reaches to the end of time, an upper bound from its start.
pub proof fn law_comparisons_leave_the_other_end_open(
    column: ColumnView,
    columns: Set<ColumnView>,
    op: Operator,
    constant: ExprView,
)
    requires
        columns.contains(column),
        literal_ns(constant) is Some,
        op.orders(),
    ensures
        static_interval(
            (ExprView::Binary {
                left: Box::new(ExprView::Column(column)),
                op,
                right: Box::new(constant),
            }),
            columns,
        ) matches StaticInterval::Found(i) && (op == Operator::Gt || op == Operator::GtEq
            ==> i.end_ns == i64::MAX) && (op == Operator::Lt || op == Operator::LtEq ==> i.start_ns
            == i64::MIN),
{
}

/// A constant that does not fit in 64 bits of nanoseconds is no bound that can be written down.
pub proof fn law_bounds_out_of_range_are_told(
    column: ColumnView,
    columns: Set<ColumnView>,
    op: Operator,
    constant: ExprView,
    ns: int,
)
    requires
        columns.contains(column),
        op.orders(),
        literal_ns(constant) == Some(ns),
        ns < i64::MIN || i64::MAX < ns,
    ensures
        !bounds_fit(
            (ExprView::Binary {
                left: Box::new(ExprView::Column(column)),
                op,
                right: Box::new(constant),
            }),
            columns,
        ),
{
}

/// BETWEEN on a temporal column fixes the interval of the instants from the lower bound to the
/// upper one, both included. NOT BETWEEN, and a bound that is no constant, fix none.
pub proof fn law_between_admits_what_lies_between(
    column: ColumnView,
    columns: Set<ColumnView>,
    low: ExprView,
    high: ExprView,
)
    requires
        columns.contains(column),
    ensures
        ({
            let between = ExprView::Between {
                expr: Box::new(ExprView::Column(column)),
                negated: false,
                low: Box::new(low),
                high: Box::new(high),
            };
            match (literal_ns(low), literal_ns(high)) {
                (Some(lower), Some(upper)) => {
                    let fit = i64::MIN <= lower <= i64::MAX && i64::MIN <= upper < i64::MAX;
                    &&& bounds_fit(between, columns) <==> fit
                    &&& fit ==> (static_interval(between, columns) matches StaticInterval::Found(i)
                        && i.start_ns == lower && i.end_ns == upper + 1 && forall|t: int| #[trigger]
                        i.holds(t) <==> lower <= t <= upper)
                },
                _ => static_interval(between, columns) is Abandon,
            }
        }),
        static_interval(
            (ExprView::Between {
                expr: Box::new(ExprView::Column(column)),
                negated: true,
                low: Box::new(low),
                high: Box::new(high),
            }),
            columns,
        ) is Abandon,
        bounds_fit(
            (ExprView::Between {
                expr: Box::new(ExprView::Column(column)),
                negated: true,
                low: Box::new(low),
                high: Box::new(high),
            }),
            columns,
        ),
{
}

/// A conjunction fixes the interval of the instants that both sides admit, and is given up where
/// they share none. A side that fixes none changes nothing, a side that is given up gives all up.
pub proof fn law_conjunctions_admit_what_both_sides_do(
    left: ExprView,
    right: ExprView,
    columns: Set<ColumnView>,
)
    ensures
        ({
            let e = ExprView::Binary {
                left: Box::new(left),
                op: Operator::And,
                right: Box::new(right),
            };
            let conjunction = static_interval(e, columns);
            &&& bounds_fit(e, columns) <==> bounds_fit(left, columns) && bounds_fit(right, columns)
            &&& match (static_interval(left, columns), static_interval(right, columns)) {
                (StaticInterval::Found(a), StaticInterval::Found(b)) => {
                    &&& (exists|t: int| #[trigger] a.holds(t) && b.holds(t)) ==> conjunction is Found
                    &&& conjunction is Found || conjunction is Abandon
                    &&& conjunction matches StaticInterval::Found(i) ==> i.start_ns < i.end_ns
                        && forall|t: int| #[trigger] i.holds(t) <==> a.holds(t) && b.holds(t)
                },
                (StaticInterval::Found(a), StaticInterval::Stable) => conjunction
                    == StaticInterval::Found(a),
                (StaticInterval::Stable, StaticInterval::Found(b)) => conjunction
                    == StaticInterval::Found(b),
                (StaticInterval::Stable, StaticInterval::Stable) => conjunction is Stable,
                (StaticInterval::Abandon, _) => conjunction is Abandon,
                (_, StaticInterval::Abandon) => conjunction is Abandon,
            }
        }),
{
    let first = static_interval(left, columns);
    let second = static_interval(right, columns);
    if let (StaticInterval::Found(a), StaticInterval::Found(b)) = (first, second) {
        if exists|t: int| #[trigger] a.holds(t) && b.holds(t) {
            let t = choose|t: int| #[trigger] a.holds(t) && b.holds(t);
            assert(a.holds(t) && b.holds(t));
        }
    }
}

/// Columns and literals, and comparisons, negations and BETWEENs of stable parts that bound no
/// temporal column, are stable. Everything else that bounds none is given up: a bound under another
/// operator, a function, a cast, and every other kind of expression.
pub proof fn law_what_is_stable_and_what_is_given_up(
    column: ColumnView,
    columns: Set<ColumnView>,
    value: ScalarView,
    metadata: Option<u64>,
    left: ExprView,
    op: Operator,
    right: ExprView,
    negated: bool,
    name: Seq<char>,
    func: u64,
    immutable: bool,
    args: Seq<ExprView>,
    node: u64,
)
    ensures
        static_interval(ExprView::Column(column), columns) is Stable,
        static_interval(ExprView::Literal(value, metadata), columns) is Stable,
        ({
            let e = ExprView::Binary { left: Box::new(left), op, right: Box::new(right) };
            let bound = (left matches ExprView::Column(c) && columns.contains(c)) && literal_ns(
                right,
            ) is Some;
            let ordered = op == Operator::Lt || op == Operator::LtEq || op == Operator::Gt || op
                == Operator::GtEq;
            &&& ordered && !bound ==> {
                &&& static_interval(e, columns) == if static_interval(left, columns) is Stable
                    && static_interval(right, columns) is Stable {
                    StaticInterval::Stable
                } else {
                    StaticInterval::Abandon
                }
                &&& bounds_fit(e, columns) <==> bounds_fit(left, columns) && bounds_fit(
                    right,
                    columns,
                )
            }
            &&& !ordered && op != Operator::And ==> static_interval(e, columns) is Abandon
                && bounds_fit(e, columns)
        }),
        ({
            let e = ExprView::Between {
                expr: Box::new(left),
                negated,
                low: Box::new(right),
                high: Box::new(right),
            };
            &&& left !is Column ==> static_interval(e, columns) is Abandon
            &&& (left matches ExprView::Column(c) && !columns.contains(c)) ==> static_interval(
                e,
                columns,
            ) is Stable && bounds_fit(e, columns)
        }),
        static_interval(ExprView::Not(Box::new(left)), columns) == if static_interval(
            left,
            columns,
        ) is Stable {
            StaticInterval::Stable
        } else {
            StaticInterval::Abandon
        },
        static_interval(ExprView::Negative(Box::new(left)), columns) == if static_interval(
            left,
            columns,
        ) is Stable {
            StaticInterval::Stable
        } else {
            StaticInterval::Abandon
        },
        bounds_fit(ExprView::Not(Box::new(left)), columns) == bounds_fit(left, columns),
        bounds_fit(ExprView::Negative(Box::new(left)), columns) == bounds_fit(left, columns),
        static_interval(
            (ExprView::Cast { expr: Box::new(left), data_type: node }),
            columns,
        ) is Abandon,
        static_interval((ExprView::Function { name, func, immutable, args }), columns) is Abandon,
        static_interval(ExprView::Other(node), columns) is Abandon,
        static_interval(ExprView::Dynamic(node), columns) is Abandon,
        bounds_fit(ExprView::Column(column), columns),
        bounds_fit(ExprView::Literal(value, metadata), columns),
        bounds_fit((ExprView::Cast { expr: Box::new(left), data_type: node }), columns),
        bounds_fit((ExprView::Function { name, func, immutable, args }), columns),
        bounds_fit(ExprView::Other(node), columns),
        bounds_fit(ExprView::Dynamic(node), columns),
{
}

/// BETWEEN on any other column, whatever its bounds, fixes nothing; on what is no column it is
/// given up.
pub proof fn law_between_elsewhere_fixes_nothing(
    e: ExprView,
    columns: Set<ColumnView>,
    negated: bool,
    low: ExprView,
    high: ExprView,
)
    requires
        !(e matches ExprView::Column(c) && columns.contains(c)),
    ensures
        ({
            let between = ExprView::Between {
                expr: Box::new(e),
                negated,
                low: Box::new(low),
                high: Box::new(high),
            };
            &&& static_interval(between, columns) == if e is Column {
                StaticInterval::Stable
            } else {
                StaticInterval::Abandon
            }
            &&& bounds_fit(between, columns)
        }),
{
}

/// Of two results, one that is given up outweighs an interval, and an interval one that fixes none.
pub proof fn law_the_more_important_result(first: StaticInterval, second: StaticInterval)
    ensures
        first is Abandon || second is Abandon ==> more_important(first, second) is Abandon,
        first is Found && second !is Abandon ==> more_important(first, second) == first,
        first is Stable && second !is Abandon ==> more_important(first, second) == second,
{
}

/// What both results allow is the intersection of the intervals, where it holds an instant.
pub proof fn law_combined_intervals_intersect(a: TimeInterval, b: TimeInterval)
    ensures
        match both(StaticInterval::Found(a), StaticInterval::Found(b)) {
            StaticInterval::Found(i) => {
                &&& i.start_ns < i.end_ns
                &&& i.start_ns == a.start_ns || i.start_ns == b.start_ns
                &&& i.end_ns == a.end_ns || i.end_ns == b.end_ns
                &&& a.start_ns <= i.start_ns && b.start_ns <= i.start_ns
                &&& i.end_ns <= a.end_ns && i.end_ns <= b.end_ns
            },
            StaticInterval::Abandon => a.end_ns <= a.start_ns || b.end_ns <= b.start_ns
                || a.end_ns <= b.start_ns || b.end_ns <= a.start_ns,
            StaticInterval::Stable => false,
        },
        both(StaticInterval::Found(a), StaticInterval::Stable) == StaticInterval::Found(a),
        both(StaticInterval::Stable, StaticInterval::Found(a)) == StaticInterval::Found(a),
        both(StaticInterval::Stable, StaticInterval::Stable) is Stable,
        both(StaticInterval::Abandon, StaticInterval::Found(a)) is Abandon,
        both(StaticInterval::Found(a), StaticInterval::Abandon) is Abandon,
        both(StaticInterval::Abandon, StaticInterval::Stable) is Abandon,
        both(StaticInterval::Stable, StaticInterval::Abandon) is Abandon,
        both(StaticInterval::Abandon, StaticInterval::Abandon) is Abandon,
{
}

/// Of the bounds of BETWEEN on a temporal column, a lower one that is out of range is told whatever
/// the upper one is. NOT BETWEEN, and a lower bound that is no constant, leave nothing to tell.
pub proof fn law_bounds_of_between_out_of_range_are_told(
    column: ColumnView,
    columns: Set<ColumnView>,
    negated: bool,
    low: ExprView,
    high: ExprView,
)
    requires
        columns.contains(column),
    ensures
        ({
            let between = ExprView::Between {
                expr: Box::new(ExprView::Column(column)),
                negated,
                low: Box::new(low),
                high: Box::new(high),
            };
            &&& negated || literal_ns(low) is None ==> bounds_fit(between, columns)
            &&& !negated && literal_ns(low) is Some && (literal_ns(low)->0 < i64::MIN || i64::MAX
                < literal_ns(low)->0) ==> !bounds_fit(between, columns)
            &&& !negated && literal_ns(low) is Some && literal_ns(high) is None && i64::MIN
                <= literal_ns(low)->0 <= i64::MAX ==> bounds_fit(between, columns)
        }),
{
}

} // verus!
