//! Plans without the bounds that their interval carries, by which results are keyed.

use vstd::prelude::*;

use crate::column::{ColumnSet, ColumnView};
use crate::expr::{
    copy_exprs, expr_view, exprs_view, Between, BinaryExpr, Expr, ExprView, Operator,
};
use crate::interval::TimeInterval;
use crate::normalize::{
    normalize_temporal_bounds_in_expr, placeholder, placeholder_expr, with_bounds,
};
use crate::plan::{Aggregate, Filter, LogicalPlan, PlanView, Projection, ScanView};
use crate::scalar::ScalarView;
use crate::scan::scan_below;
use crate::semantics::{compares, keeps};
use crate::static_interval::{
    bounds_fit, exact_timestamp_ns, is_bound, is_column_of, literal_ns, static_interval,
    StaticInterval,
};

verus! {

/// The expression is a bound: it compares one of the columns with constants, and the instants that
/// it admits make an interval.
pub open spec fn is_range(e: ExprView, columns: Set<ColumnView>) -> bool {
    is_bound(e, columns) && (e matches ExprView::Between { negated, .. } ==> !negated)
}

/// The filter without the constants that it bounds the columns by: those that an interval carries.
/// Every other part of it stays.
pub open spec fn blanked(e: ExprView, columns: Set<ColumnView>) -> ExprView
    decreases e,
{
    match e {
        ExprView::Binary { left, op, right } => {
            if op is And {
                ExprView::Binary {
                    left: Box::new(blanked(*left, columns)),
                    op,
                    right: Box::new(blanked(*right, columns)),
                }
            } else if is_range(e, columns) {
                ExprView::Binary { left, op, right: Box::new(placeholder()) }
            } else {
                e
            }
        },
        ExprView::Between { expr, negated, .. } => {
            if is_range(e, columns) {
                ExprView::Between {
                    expr,
                    negated,
                    low: Box::new(placeholder()),
                    high: Box::new(placeholder()),
                }
            } else {
                e
            }
        },
        _ => e,
    }
}

/// The aggregation without the constants that the interval of its filter carries. The filter may
/// stand under projections.
pub open spec fn blanked_plan(plan: PlanView, columns: Set<ColumnView>) -> PlanView {
    match plan {
        PlanView::Aggregate { input, group_expr, aggr_expr } => PlanView::Aggregate {
            input: Box::new(blanked_below(*input, columns)),
            group_expr,
            aggr_expr,
        },
        _ => plan,
    }
}

/// The input of an aggregation without the constants that the interval of its filter carries.
pub open spec fn blanked_below(plan: PlanView, columns: Set<ColumnView>) -> PlanView
    decreases plan,
{
    match plan {
        PlanView::Projection { node, input } => PlanView::Projection {
            node,
            input: Box::new(blanked_below(*input, columns)),
        },
        PlanView::Filter { predicate, input } => PlanView::Filter {
            predicate: blanked(predicate, columns),
            input: Box::new(blanked_scan_below(*input, columns)),
        },
        _ => blanked_scan_below(plan, columns),
    }
}

/// The plan with the filters of the scan under filters and projections, which stay, without the
/// constants that the interval carries.
pub open spec fn blanked_scan_below(plan: PlanView, columns: Set<ColumnView>) -> PlanView
    decreases plan,
{
    match plan {
        PlanView::TableScan(scan) => PlanView::TableScan(
            ScanView { filters: all_blanked(scan.filters, columns), ..scan },
        ),
        PlanView::Filter { predicate, input } => PlanView::Filter {
            predicate,
            input: Box::new(blanked_scan_below(*input, columns)),
        },
        PlanView::Projection { node, input } => PlanView::Projection {
            node,
            input: Box::new(blanked_scan_below(*input, columns)),
        },
        _ => plan,
    }
}

/// Each of the filters without the constants that the interval carries.
pub open spec fn all_blanked(filters: Seq<ExprView>, columns: Set<ColumnView>) -> Seq<ExprView> {
    Seq::new(filters.len(), |i: int| blanked(filters[i], columns))
}

/// The first filter under projections.
pub open spec fn filter_below(plan: PlanView) -> Option<ExprView>
    decreases plan,
{
    match plan {
        PlanView::Projection { input, .. } => filter_below(*input),
        PlanView::Filter { predicate, .. } => Some(predicate),
        _ => None,
    }
}

/// The filters of the scan under filters and projections.
pub open spec fn scan_filters(plan: PlanView) -> Seq<ExprView> {
    match scan_below(plan) {
        Some(scan) => scan.filters,
        None => seq![],
    }
}

/// The conjunction holds a bound of the columns.
pub open spec fn has_bound(e: ExprView, columns: Set<ColumnView>) -> bool
    decreases e,
{
    match e {
        ExprView::Binary { left, op, right } => if op is And {
            has_bound(*left, columns) || has_bound(*right, columns)
        } else {
            is_range(e, columns)
        },
        _ => is_range(e, columns),
    }
}

/// One of the filters holds a bound of the columns.
pub open spec fn any_has_bound(filters: Seq<ExprView>, columns: Set<ColumnView>) -> bool {
    exists|i: int| 0 <= i < filters.len() && has_bound(#[trigger] filters[i], columns)
}

/// The interval without the instants before `ns`.
pub open spec fn cut_start(interval: TimeInterval, ns: int) -> TimeInterval {
    TimeInterval {
        start_ns: if ns <= interval.start_ns {
            interval.start_ns
        } else if ns < interval.end_ns {
            ns as i64
        } else {
            interval.end_ns
        },
        end_ns: interval.end_ns,
    }
}

/// The interval without the instants from `ns` on.
pub open spec fn cut_end(interval: TimeInterval, ns: int) -> TimeInterval {
    TimeInterval {
        start_ns: interval.start_ns,
        end_ns: if ns >= interval.end_ns {
            interval.end_ns
        } else if ns > interval.start_ns {
            ns as i64
        } else {
            interval.start_ns
        },
    }
}

/// The instants of the interval that meet the bounds in the conjunction.
pub open spec fn narrowed(
    interval: TimeInterval,
    e: ExprView,
    columns: Set<ColumnView>,
) -> TimeInterval
    decreases e,
{
    match e {
        ExprView::Binary { left, op, right } => if op is And {
            narrowed(narrowed(interval, *left, columns), *right, columns)
        } else if is_range(e, columns) {
            match op {
                Operator::Gt => cut_start(interval, literal_ns(*right)->0 + 1),
                Operator::GtEq => cut_start(interval, literal_ns(*right)->0),
                Operator::Lt => cut_end(interval, literal_ns(*right)->0),
                _ => cut_end(interval, literal_ns(*right)->0 + 1),
            }
        } else {
            interval
        },
        ExprView::Between { low, high, .. } => if is_range(e, columns) {
            cut_end(cut_start(interval, literal_ns(*low)->0), literal_ns(*high)->0 + 1)
        } else {
            interval
        },
        _ => interval,
    }
}

/// The instants of the interval that meet the bounds in each of the filters.
pub open spec fn all_narrowed(
    interval: TimeInterval,
    filters: Seq<ExprView>,
    columns: Set<ColumnView>,
) -> TimeInterval
    decreases filters.len(),
{
    if filters.len() == 0 {
        interval
    } else {
        narrowed(all_narrowed(interval, filters.drop_last(), columns), filters.last(), columns)
    }
}

/// The instant meets the bounds in the conjunction.
pub open spec fn meets_bounds(e: ExprView, columns: Set<ColumnView>, t: int) -> bool
    decreases e,
{
    match e {
        ExprView::Binary { left, op, right } => if op is And {
            meets_bounds(*left, columns, t) && meets_bounds(*right, columns, t)
        } else {
            is_range(e, columns) ==> compares(t, op, literal_ns(*right)->0)
        },
        ExprView::Between { low, high, .. } => is_range(e, columns) ==> literal_ns(*low)->0 <= t
            <= literal_ns(*high)->0,
        _ => true,
    }
}

/// The value of the expression depends on the row and on nothing else, such as the time: it is made
/// of no dynamic part and of no function that is not immutable.
pub open spec fn is_fixed(e: ExprView) -> bool
    decreases e,
{
    match e {
        ExprView::Column(_) => true,
        ExprView::Literal(_, _) => true,
        ExprView::Binary { left, right, .. } => is_fixed(*left) && is_fixed(*right),
        ExprView::Between { expr, low, high, .. } => is_fixed(*expr) && is_fixed(*low) && is_fixed(
            *high,
        ),
        ExprView::Not(inner) => is_fixed(*inner),
        ExprView::Negative(inner) => is_fixed(*inner),
        ExprView::Cast { expr, .. } => is_fixed(*expr),
        ExprView::Function { immutable, args, .. } => immutable && all_fixed(args),
        ExprView::Other(_) => true,
        ExprView::Dynamic(_) => false,
    }
}

/// Each of the expressions is fixed.
pub open spec fn all_fixed(exprs: Seq<ExprView>) -> bool
    decreases exprs,
{
    exprs.len() > 0 ==> all_fixed(exprs.drop_last()) && is_fixed(exprs[exprs.len() - 1])
}

/// Every filter down to the first node that is neither filter nor projection is fixed, and so are
/// the filters of that node where it is a scan.
pub open spec fn filters_are_fixed(plan: PlanView) -> bool
    decreases plan,
{
    match plan {
        PlanView::Projection { input, .. } => filters_are_fixed(*input),
        PlanView::Filter { predicate, input } => is_fixed(predicate) && filters_are_fixed(*input),
        PlanView::TableScan(scan) => all_fixed(scan.filters),
        _ => true,
    }
}

/// Whether the expression is a bound of one of the columns.
fn bounds_columns(expr: &Expr, columns: &ColumnSet) -> (bound: bool)
    ensures
        bound == is_range(expr@, columns@),
{
    proof {
        reveal_with_fuel(expr_view, 2);
    }
    match expr {
        Expr::BinaryExpr(bin_expr) => {
            let orders = match bin_expr.op {
                Operator::Gt | Operator::GtEq | Operator::Lt | Operator::LtEq => true,
                _ => false,
            };
            let temporal = match &*bin_expr.left {
                Expr::Column(column) => columns.contains(column),
                _ => false,
            };
            orders && temporal && exact_timestamp_ns(&bin_expr.right).is_some()
        },
        Expr::Between(between) => {
            let temporal = match &*between.expr {
                Expr::Column(column) => columns.contains(column),
                _ => false,
            };
            !between.negated && temporal && exact_timestamp_ns(&between.low).is_some()
                && exact_timestamp_ns(&between.high).is_some()
        },
        _ => false,
    }
}

/// Whether the conjunction holds a bound of the columns.
pub fn find_bound(expr: &Expr, columns: &ColumnSet) -> (found: bool)
    ensures
        found == has_bound(expr@, columns@),
    decreases expr,
{
    match expr {
        Expr::BinaryExpr(bin_expr) => match bin_expr.op {
            Operator::And => find_bound(&bin_expr.left, columns) || find_bound(
                &bin_expr.right,
                columns,
            ),
            _ => bounds_columns(expr, columns),
        },
        _ => bounds_columns(expr, columns),
    }
}

/// Whether one of the filters holds a bound of the columns.
pub fn find_bound_in_any(filters: &Vec<Expr>, columns: &ColumnSet) -> (found: bool)
    ensures
        found == any_has_bound(exprs_view(filters@), columns@),
{
    let ghost views = exprs_view(filters@);
    let mut i: usize = 0;
    while i < filters.len()
        invariant
            i <= filters@.len(),
            views == exprs_view(filters@),
            forall|j: int| 0 <= j < i ==> !has_bound(#[trigger] views[j], columns@),
        decreases filters@.len() - i,
    {
        if find_bound(&filters[i], columns) {
            assert(has_bound(views[i as int], columns@));
            return true;
        }
        i = i + 1;
    }
    false
}

/// The interval without the instants before `ns`.
fn cut_start_at(interval: &TimeInterval, ns: i128) -> (cut: TimeInterval)
    ensures
        cut == cut_start(*interval, ns as int),
{
    let start_ns = if ns <= interval.start_ns as i128 {
        interval.start_ns
    } else if ns < interval.end_ns as i128 {
        ns as i64
    } else {
        interval.end_ns
    };
    TimeInterval::new(start_ns, interval.end_ns)
}

/// The interval without the instants from `ns` on.
fn cut_end_at(interval: &TimeInterval, ns: i128) -> (cut: TimeInterval)
    ensures
        cut == cut_end(*interval, ns as int),
{
    let end_ns = if ns >= interval.end_ns as i128 {
        interval.end_ns
    } else if ns > interval.start_ns as i128 {
        ns as i64
    } else {
        interval.start_ns
    };
    TimeInterval::new(interval.start_ns, end_ns)
}

/// The instants of the interval that meet the bounds in the conjunction.
pub fn narrow(interval: &TimeInterval, expr: &Expr, columns: &ColumnSet) -> (narrow: TimeInterval)
    ensures
        narrow == narrowed(*interval, expr@, columns@),
    decreases expr,
{
    match expr {
        Expr::BinaryExpr(bin_expr) => match bin_expr.op {
            Operator::And => {
                let first = self::narrow(interval, &bin_expr.left, columns);
                self::narrow(&first, &bin_expr.right, columns)
            },
            op => {
                if !bounds_columns(expr, columns) {
                    return *interval;
                }
                match exact_timestamp_ns(&bin_expr.right) {
                    Some(ns) => match op {
                        Operator::Gt => cut_start_at(interval, ns + 1),
                        Operator::GtEq => cut_start_at(interval, ns),
                        Operator::Lt => cut_end_at(interval, ns),
                        _ => cut_end_at(interval, ns + 1),
                    },
                    None => *interval,
                }
            },
        },
        Expr::Between(between) => {
            if !bounds_columns(expr, columns) {
                return *interval;
            }
            match (exact_timestamp_ns(&between.low), exact_timestamp_ns(&between.high)) {
                (Some(low), Some(high)) => cut_end_at(&cut_start_at(interval, low), high + 1),
                _ => *interval,
            }
        },
        _ => *interval,
    }
}

/// The instants of the interval that meet the bounds in each of the filters.
pub fn narrow_by_all(interval: &TimeInterval, filters: &Vec<Expr>, columns: &ColumnSet) -> (narrow:
    TimeInterval)
    ensures
        narrow == all_narrowed(*interval, exprs_view(filters@), columns@),
{
    let ghost views = exprs_view(filters@);
    let mut narrow = *interval;
    let mut i: usize = 0;
    assert(views.take(0) =~= seq![]);
    while i < filters.len()
        invariant
            i <= filters@.len(),
            views == exprs_view(filters@),
            narrow == all_narrowed(*interval, views.take(i as int), columns@),
        decreases filters@.len() - i,
    {
        proof {
            let longer = views.take(i + 1);
            assert(longer.drop_last() =~= views.take(i as int));
            assert(longer.last() == filters@[i as int]@);
        }
        narrow = self::narrow(&narrow, &filters[i], columns);
        i = i + 1;
    }
    assert(views.take(i as int) =~= views);
    narrow
}

/// Where all the expressions are fixed, the first are.
proof fn lemma_first_are_fixed(exprs: Seq<ExprView>, n: int)
    requires
        0 <= n <= exprs.len(),
        all_fixed(exprs),
    ensures
        all_fixed(exprs.take(n)),
    decreases exprs.len() - n,
{
    if n < exprs.len() {
        lemma_first_are_fixed(exprs, n + 1);
        assert(exprs.take(n + 1).drop_last() =~= exprs.take(n));
    } else {
        assert(exprs.take(n) =~= exprs);
    }
}

/// Whether the value of the expression depends on the row alone.
pub fn expr_is_fixed(expr: &Expr) -> (fixed: bool)
    ensures
        fixed == is_fixed(expr@),
    decreases expr,
{
    match expr {
        Expr::Column(_) => true,
        Expr::Literal(_, _) => true,
        Expr::BinaryExpr(bin_expr) => expr_is_fixed(&bin_expr.left) && expr_is_fixed(
            &bin_expr.right,
        ),
        Expr::Between(between) => expr_is_fixed(&between.expr) && expr_is_fixed(&between.low)
            && expr_is_fixed(&between.high),
        Expr::Not(inner) | Expr::Negative(inner) => expr_is_fixed(inner),
        Expr::Cast(cast) => expr_is_fixed(&cast.expr),
        Expr::ScalarFunction(function) => {
            assert(exprs_view(function.args@) =~= expr@->args);
            function.immutable && exprs_are_fixed(&function.args)
        },
        Expr::Other(_) => true,
        Expr::Dynamic(_) => false,
    }
}

/// Whether the values of the expressions depend on the row alone.
pub fn exprs_are_fixed(exprs: &Vec<Expr>) -> (fixed: bool)
    ensures
        fixed == all_fixed(exprs_view(exprs@)),
    decreases exprs,
{
    let ghost views = exprs_view(exprs@);
    let mut i: usize = 0;
    assert(views.take(0) =~= seq![]);
    while i < exprs.len()
        invariant
            i <= exprs@.len(),
            views == exprs_view(exprs@),
            all_fixed(views.take(i as int)),
        decreases exprs@.len() - i,
    {
        assert(decreases_to!(exprs => exprs@));
        assert(decreases_to!(exprs@ => exprs@[i as int]));
        proof {
            let longer = views.take(i + 1);
            assert(longer.drop_last() =~= views.take(i as int));
            assert(longer[longer.len() - 1] == exprs@[i as int]@);
        }
        if !expr_is_fixed(&exprs[i]) {
            proof {
                if all_fixed(views) {
                    lemma_first_are_fixed(views, i + 1);
                }
            }
            return false;
        }
        i = i + 1;
    }
    assert(views.take(i as int) =~= views);
    true
}

/// Whether every filter down to the first node that is neither filter nor projection is fixed, and
/// so are the filters of that node where it is a scan.
pub fn plan_filters_are_fixed(plan: &LogicalPlan) -> (fixed: bool)
    ensures
        fixed == filters_are_fixed(plan@),
    decreases plan,
{
    match plan {
        LogicalPlan::Projection(projection) => plan_filters_are_fixed(&projection.input),
        LogicalPlan::Filter(filter) => expr_is_fixed(&filter.predicate) && plan_filters_are_fixed(
            &filter.input,
        ),
        LogicalPlan::TableScan(scan) => exprs_are_fixed(&scan.filters),
        _ => true,
    }
}

/// The first filter under projections.
pub fn find_filter(plan: &LogicalPlan) -> (predicate: Option<&Expr>)
    ensures
        match predicate {
            Some(predicate) => filter_below(plan@) == Some(predicate@),
            None => filter_below(plan@) is None,
        },
    decreases plan,
{
    match plan {
        LogicalPlan::Projection(projection) => find_filter(&projection.input),
        LogicalPlan::Filter(filter) => Some(&filter.predicate),
        _ => None,
    }
}

/// The filter without the constants that its interval carries.
pub fn blank_bounds(expr: &Expr, columns: &ColumnSet) -> (blank: Expr)
    ensures
        blank@ == blanked(expr@, columns@),
    decreases expr,
{
    proof {
        reveal_with_fuel(expr_view, 2);
    }
    match expr {
        Expr::BinaryExpr(bin_expr) => match bin_expr.op {
            Operator::And => Expr::BinaryExpr(
                BinaryExpr {
                    left: Box::new(blank_bounds(&bin_expr.left, columns)),
                    op: bin_expr.op,
                    right: Box::new(blank_bounds(&bin_expr.right, columns)),
                },
            ),
            _ => if !bounds_columns(expr, columns) {
                expr.clone()
            } else if let Expr::Literal(_, _) = &*bin_expr.right {
                proof {
                    reveal_with_fuel(with_bounds, 2);
                }
                normalize_temporal_bounds_in_expr(expr, columns)
            } else {
                // The cast of a text
                Expr::BinaryExpr(
                    BinaryExpr {
                        left: Box::new((&*bin_expr.left).clone()),
                        op: bin_expr.op,
                        right: Box::new(placeholder_expr()),
                    },
                )
            },
        },
        Expr::Between(between) => if bounds_columns(expr, columns) {
            Expr::Between(
                Between {
                    expr: Box::new((&*between.expr).clone()),
                    negated: between.negated,
                    low: Box::new(placeholder_expr()),
                    high: Box::new(placeholder_expr()),
                },
            )
        } else {
            expr.clone()
        },
        _ => expr.clone(),
    }
}

/// Each of the filters without the constants that the interval carries.
fn blank_all(filters: &Vec<Expr>, columns: &ColumnSet) -> (blank: Vec<Expr>)
    ensures
        exprs_view(blank@) == all_blanked(exprs_view(filters@), columns@),
{
    let mut blank: Vec<Expr> = Vec::new();
    let mut i: usize = 0;
    while i < filters.len()
        invariant
            i <= filters@.len(),
            blank@.len() == i,
            forall|j: int|
                0 <= j < i ==> (#[trigger] blank@[j])@ == blanked(filters@[j]@, columns@),
        decreases filters@.len() - i,
    {
        blank.push(blank_bounds(&filters[i], columns));
        i = i + 1;
    }
    assert(exprs_view(blank@) =~= all_blanked(exprs_view(filters@), columns@));
    blank
}

/// The plan with the filters of its scan without the constants that the interval carries.
fn blank_scan(plan: &LogicalPlan, columns: &ColumnSet) -> (blank: LogicalPlan)
    ensures
        blank@ == blanked_scan_below(plan@, columns@),
    decreases plan,
{
    match plan {
        LogicalPlan::TableScan(scan) => {
            let mut blank = scan.clone();
            blank.filters = blank_all(&scan.filters, columns);
            LogicalPlan::TableScan(blank)
        },
        LogicalPlan::Filter(filter) => LogicalPlan::Filter(
            Filter {
                predicate: filter.predicate.clone(),
                input: Box::new(blank_scan(&filter.input, columns)),
            },
        ),
        LogicalPlan::Projection(projection) => LogicalPlan::Projection(
            Projection {
                node: projection.node,
                input: Box::new(blank_scan(&projection.input, columns)),
            },
        ),
        _ => plan.clone(),
    }
}

/// The input of an aggregation without the constants that the interval of its filter carries.
fn blank_input(plan: &LogicalPlan, columns: &ColumnSet) -> (blank: LogicalPlan)
    ensures
        blank@ == blanked_below(plan@, columns@),
    decreases plan,
{
    match plan {
        LogicalPlan::Projection(projection) => LogicalPlan::Projection(
            Projection {
                node: projection.node,
                input: Box::new(blank_input(&projection.input, columns)),
            },
        ),
        LogicalPlan::Filter(filter) => LogicalPlan::Filter(
            Filter {
                predicate: blank_bounds(&filter.predicate, columns),
                input: Box::new(blank_scan(&filter.input, columns)),
            },
        ),
        _ => blank_scan(plan, columns),
    }
}

/// The aggregation without the constants that the interval of its filter carries.
pub fn blank_plan(plan: &LogicalPlan, columns: &ColumnSet) -> (blank: LogicalPlan)
    ensures
        blank@ == blanked_plan(plan@, columns@),
{
    match plan {
        LogicalPlan::Aggregate(agg) => LogicalPlan::Aggregate(
            Aggregate {
                input: Box::new(blank_input(&agg.input, columns)),
                group_expr: copy_exprs(&agg.group_expr),
                aggr_expr: copy_exprs(&agg.aggr_expr),
            },
        ),
        _ => plan.clone(),
    }
}

/// The filters are the same but for the constants that they bound the columns by.
pub open spec fn same_but_bounds(
    first: ExprView,
    second: ExprView,
    columns: Set<ColumnView>,
) -> bool
    decreases first,
{
    match (first, second) {
        (
            ExprView::Binary { left, op, right },
            ExprView::Binary { left: left2, op: op2, right: right2 },
        ) => if op is And && op2 is And {
            same_but_bounds(*left, *left2, columns) && same_but_bounds(*right, *right2, columns)
        } else if is_range(first, columns) && is_range(second, columns) {
            left == left2 && op == op2
        } else {
            first == second
        },
        (
            ExprView::Between { expr, negated, .. },
            ExprView::Between { expr: expr2, negated: negated2, .. },
        ) => if is_range(first, columns) && is_range(second, columns) {
            expr == expr2 && negated == negated2
        } else {
            first == second
        },
        _ => first == second,
    }
}

/// The lists hold filters that are the same but for the constants that they bound the columns by.
pub open spec fn all_same_but_bounds(
    first: Seq<ExprView>,
    second: Seq<ExprView>,
    columns: Set<ColumnView>,
) -> bool {
    &&& first.len() == second.len()
    &&& forall|i: int|
        0 <= i < first.len() ==> same_but_bounds(#[trigger] first[i], second[i], columns)
}

/// The plans are the same but for the constants that the filters of the scan under filters and
/// projections bound the columns by.
pub open spec fn same_scan_but_bounds(
    first: PlanView,
    second: PlanView,
    columns: Set<ColumnView>,
) -> bool
    decreases first,
{
    match (first, second) {
        (PlanView::TableScan(scan), PlanView::TableScan(scan2)) => {
            &&& scan.node == scan2.node
            &&& scan.source_fields == scan2.source_fields
            &&& scan.projected_fields == scan2.projected_fields
            &&& scan.projection == scan2.projection
            &&& all_same_but_bounds(scan.filters, scan2.filters, columns)
        },
        (
            PlanView::Filter { predicate, input },
            PlanView::Filter { predicate: predicate2, input: input2 },
        ) => predicate == predicate2 && same_scan_but_bounds(*input, *input2, columns),
        (
            PlanView::Projection { node, input },
            PlanView::Projection { node: node2, input: input2 },
        ) => node == node2 && same_scan_but_bounds(*input, *input2, columns),
        _ => first == second,
    }
}

/// The plans are the same but for the constants that the filter, which may stand under
/// projections, and the filters of the scan under it bound the columns by.
pub open spec fn same_below_but_bounds(
    first: PlanView,
    second: PlanView,
    columns: Set<ColumnView>,
) -> bool
    decreases first,
{
    match (first, second) {
        (
            PlanView::Projection { node, input },
            PlanView::Projection { node: node2, input: input2 },
        ) => node == node2 && same_below_but_bounds(*input, *input2, columns),
        (
            PlanView::Filter { predicate, input },
            PlanView::Filter { predicate: predicate2, input: input2 },
        ) => same_but_bounds(predicate, predicate2, columns) && same_scan_but_bounds(
            *input,
            *input2,
            columns,
        ),
        _ => same_scan_but_bounds(first, second, columns),
    }
}

/// Filters that differ only in bounds are the same without them.
pub proof fn law_carried_bounds_do_not_show(
    first: ExprView,
    second: ExprView,
    columns: Set<ColumnView>,
)
    requires
        same_but_bounds(first, second, columns),
    ensures
        blanked(first, columns) == blanked(second, columns),
    decreases first,
{
    match (first, second) {
        (
            ExprView::Binary { left, op, right },
            ExprView::Binary { left: left2, op: op2, right: right2 },
        ) => {
            if op is And && op2 is And {
                law_carried_bounds_do_not_show(*left, *left2, columns);
                law_carried_bounds_do_not_show(*right, *right2, columns);
            }
        },
        _ => {},
    }
}

/// Filters that differ only in the bounds of the columns differ only in those of one column, where
/// they hold no bounds of the others.
pub proof fn lemma_only_one_column_is_bounded(
    first: ExprView,
    second: ExprView,
    columns: Set<ColumnView>,
    column: ColumnView,
)
    requires
        same_but_bounds(first, second, columns),
        !has_bound(first, columns.remove(column)),
        !has_bound(second, columns.remove(column)),
    ensures
        same_but_bounds(first, second, set![column]),
    decreases first,
{
    match (first, second) {
        (
            ExprView::Binary { left, op, right },
            ExprView::Binary { left: left2, op: op2, right: right2 },
        ) => {
            if op is And && op2 is And {
                lemma_only_one_column_is_bounded(*left, *left2, columns, column);
                lemma_only_one_column_is_bounded(*right, *right2, columns, column);
            }
        },
        _ => {},
    }
}

/// The first filter, which may stand under projections, or a filter of the scan holds a bound of the
/// columns.
pub open spec fn holds_bound(plan: PlanView, columns: Set<ColumnView>) -> bool {
    ||| filter_below(plan) matches Some(e) && has_bound(e, columns)
    ||| any_has_bound(scan_filters(plan), columns)
}

/// The same of the inputs of aggregations.
pub proof fn lemma_only_one_column_is_bounded_below(
    first: PlanView,
    second: PlanView,
    columns: Set<ColumnView>,
    column: ColumnView,
)
    requires
        same_below_but_bounds(first, second, columns),
        !holds_bound(first, columns.remove(column)),
        !holds_bound(second, columns.remove(column)),
    ensures
        same_below_but_bounds(first, second, set![column]),
    decreases first,
{
    match (first, second) {
        (
            PlanView::Projection { node, input },
            PlanView::Projection { node: node2, input: input2 },
        ) => {
            lemma_only_one_column_is_bounded_below(*input, *input2, columns, column);
        },
        (
            PlanView::Filter { predicate, input },
            PlanView::Filter { predicate: predicate2, input: input2 },
        ) => {
            lemma_only_one_column_is_bounded(predicate, predicate2, columns, column);
            lemma_only_one_column_is_bounded_in_scans(*input, *input2, columns, column);
        },
        _ => {
            lemma_only_one_column_is_bounded_in_scans(first, second, columns, column);
        },
    }
}

proof fn lemma_only_one_column_is_bounded_in_scans(
    first: PlanView,
    second: PlanView,
    columns: Set<ColumnView>,
    column: ColumnView,
)
    requires
        same_scan_but_bounds(first, second, columns),
        !any_has_bound(scan_filters(first), columns.remove(column)),
        !any_has_bound(scan_filters(second), columns.remove(column)),
    ensures
        same_scan_but_bounds(first, second, set![column]),
    decreases first,
{
    match (first, second) {
        (PlanView::TableScan(scan), PlanView::TableScan(scan2)) => {
            assert forall|i: int| 0 <= i < scan.filters.len() implies same_but_bounds(
                #[trigger] scan.filters[i],
                scan2.filters[i],
                set![column],
            ) by {
                assert(!has_bound(scan.filters[i], columns.remove(column)));
                assert(!has_bound(scan2.filters[i], columns.remove(column)));
                lemma_only_one_column_is_bounded(
                    scan.filters[i],
                    scan2.filters[i],
                    columns,
                    column,
                );
            }
        },
        (
            PlanView::Filter { predicate, input },
            PlanView::Filter { predicate: predicate2, input: input2 },
        ) => {
            lemma_only_one_column_is_bounded_in_scans(*input, *input2, columns, column);
        },
        (
            PlanView::Projection { node, input },
            PlanView::Projection { node: node2, input: input2 },
        ) => {
            lemma_only_one_column_is_bounded_in_scans(*input, *input2, columns, column);
        },
        _ => {},
    }
}

/// Filters that differ only in bounds both hold bounds or are equal.
proof fn lemma_bounds_are_shared(first: ExprView, second: ExprView, columns: Set<ColumnView>)
    requires
        same_but_bounds(first, second, columns),
    ensures
        has_bound(first, columns) == has_bound(second, columns),
        has_bound(first, columns) || first == second,
    decreases first,
{
    match (first, second) {
        (
            ExprView::Binary { left, op, right },
            ExprView::Binary { left: left2, op: op2, right: right2 },
        ) => {
            if op is And && op2 is And {
                lemma_bounds_are_shared(*left, *left2, columns);
                lemma_bounds_are_shared(*right, *right2, columns);
            }
        },
        _ => {},
    }
}

/// Inputs that differ only in bounds both hold bounds or are equal.
pub proof fn lemma_bounds_are_shared_below(
    first: PlanView,
    second: PlanView,
    columns: Set<ColumnView>,
)
    requires
        same_below_but_bounds(first, second, columns),
    ensures
        holds_bound(first, columns) == holds_bound(second, columns),
        holds_bound(first, columns) || first == second,
    decreases first,
{
    match (first, second) {
        (
            PlanView::Projection { node, input },
            PlanView::Projection { node: node2, input: input2 },
        ) => {
            lemma_bounds_are_shared_below(*input, *input2, columns);
        },
        (
            PlanView::Filter { predicate, input },
            PlanView::Filter { predicate: predicate2, input: input2 },
        ) => {
            lemma_bounds_are_shared(predicate, predicate2, columns);
            lemma_bounds_are_shared_in_scans(*input, *input2, columns);
        },
        _ => {
            lemma_bounds_are_shared_in_scans(first, second, columns);
        },
    }
}

proof fn lemma_bounds_are_shared_in_scans(
    first: PlanView,
    second: PlanView,
    columns: Set<ColumnView>,
)
    requires
        same_scan_but_bounds(first, second, columns),
    ensures
        any_has_bound(scan_filters(first), columns) == any_has_bound(scan_filters(second), columns),
        any_has_bound(scan_filters(first), columns) || first == second,
    decreases first,
{
    match (first, second) {
        (PlanView::TableScan(scan), PlanView::TableScan(scan2)) => {
            assert forall|i: int| 0 <= i < scan.filters.len() implies has_bound(
                #[trigger] scan.filters[i],
                columns,
            ) == has_bound(scan2.filters[i], columns) && (has_bound(scan.filters[i], columns)
                || scan.filters[i] == scan2.filters[i]) by {
                lemma_bounds_are_shared(scan.filters[i], scan2.filters[i], columns);
            }
            if any_has_bound(scan2.filters, columns) {
                let i = choose|i: int|
                    0 <= i < scan2.filters.len() && has_bound(
                        #[trigger] scan2.filters[i],
                        columns,
                    );
                assert(has_bound(scan.filters[i], columns));
            }
            if any_has_bound(scan.filters, columns) {
                let i = choose|i: int|
                    0 <= i < scan.filters.len() && has_bound(#[trigger] scan.filters[i], columns);
                assert(has_bound(scan2.filters[i], columns));
            } else {
                assert(scan.filters =~= scan2.filters);
            }
        },
        (
            PlanView::Filter { predicate, input },
            PlanView::Filter { predicate: predicate2, input: input2 },
        ) => {
            lemma_bounds_are_shared_in_scans(*input, *input2, columns);
        },
        (
            PlanView::Projection { node, input },
            PlanView::Projection { node: node2, input: input2 },
        ) => {
            lemma_bounds_are_shared_in_scans(*input, *input2, columns);
        },
        _ => {},
    }
}

/// A filter that fixes an interval for a column holds a bound of it.
pub proof fn lemma_interval_needs_a_bound(
    e: ExprView,
    column: ColumnView,
    columns: Set<ColumnView>,
)
    requires
        static_interval(e, set![column]) is Found,
        columns.contains(column),
    ensures
        has_bound(e, columns),
    decreases e,
{
    match e {
        ExprView::Binary { left, op, right } => {
            if op is And {
                if static_interval(*left, set![column]) is Found {
                    lemma_interval_needs_a_bound(*left, column, columns);
                } else {
                    lemma_interval_needs_a_bound(*right, column, columns);
                }
            }
        },
        _ => {},
    }
}

/// A filter that holds a bound of a column holds one of more columns.
pub proof fn lemma_more_columns_have_bounds(
    e: ExprView,
    column: ColumnView,
    columns: Set<ColumnView>,
)
    requires
        has_bound(e, set![column]),
        columns.contains(column),
    ensures
        has_bound(e, columns),
    decreases e,
{
    match e {
        ExprView::Binary { left, op, right } => {
            if op is And {
                if has_bound(*left, set![column]) {
                    lemma_more_columns_have_bounds(*left, column, columns);
                } else {
                    lemma_more_columns_have_bounds(*right, column, columns);
                }
            }
        },
        _ => {},
    }
}

/// A filter that holds no bound of a column, nor of the others, holds none.
pub proof fn lemma_no_column_is_bounded(
    e: ExprView,
    column: ColumnView,
    columns: Set<ColumnView>,
)
    requires
        !has_bound(e, set![column]),
        !has_bound(e, columns.remove(column)),
    ensures
        !has_bound(e, columns),
    decreases e,
{
    match e {
        ExprView::Binary { left, op, right } => {
            if op is And {
                lemma_no_column_is_bounded(*left, column, columns);
                lemma_no_column_is_bounded(*right, column, columns);
            }
        },
        _ => {},
    }
}

/// A filter that is stable and fixes no interval holds no bound.
pub proof fn lemma_stable_filters_hold_no_bound(e: ExprView, column: ColumnView)
    requires
        static_interval(e, set![column]) is Stable,
    ensures
        !has_bound(e, set![column]),
    decreases e,
{
    match e {
        ExprView::Binary { left, op, right } => {
            if op is And {
                lemma_stable_filters_hold_no_bound(*left, column);
                lemma_stable_filters_hold_no_bound(*right, column);
            }
        },
        _ => {},
    }
}

/// Inputs that differ only in the bounds of their filters are the same without them.
pub proof fn law_carried_bounds_do_not_show_below(
    first: PlanView,
    second: PlanView,
    columns: Set<ColumnView>,
)
    requires
        same_below_but_bounds(first, second, columns),
    ensures
        blanked_below(first, columns) == blanked_below(second, columns),
    decreases first,
{
    match (first, second) {
        (
            PlanView::Projection { node, input },
            PlanView::Projection { node: node2, input: input2 },
        ) => {
            law_carried_bounds_do_not_show_below(*input, *input2, columns);
        },
        (
            PlanView::Filter { predicate, input },
            PlanView::Filter { predicate: predicate2, input: input2 },
        ) => {
            law_carried_bounds_do_not_show(predicate, predicate2, columns);
            lemma_carried_bounds_do_not_show_in_scans(*input, *input2, columns);
        },
        _ => {
            lemma_carried_bounds_do_not_show_in_scans(first, second, columns);
        },
    }
}

proof fn lemma_carried_bounds_do_not_show_in_scans(
    first: PlanView,
    second: PlanView,
    columns: Set<ColumnView>,
)
    requires
        same_scan_but_bounds(first, second, columns),
    ensures
        blanked_scan_below(first, columns) == blanked_scan_below(second, columns),
    decreases first,
{
    match (first, second) {
        (PlanView::TableScan(scan), PlanView::TableScan(scan2)) => {
            assert forall|i: int| 0 <= i < scan.filters.len() implies blanked(
                #[trigger] scan.filters[i],
                columns,
            ) == blanked(scan2.filters[i], columns) by {
                law_carried_bounds_do_not_show(scan.filters[i], scan2.filters[i], columns);
            }
            assert(all_blanked(scan.filters, columns) =~= all_blanked(scan2.filters, columns));
        },
        (
            PlanView::Filter { predicate, input },
            PlanView::Filter { predicate: predicate2, input: input2 },
        ) => {
            lemma_carried_bounds_do_not_show_in_scans(*input, *input2, columns);
        },
        (
            PlanView::Projection { node, input },
            PlanView::Projection { node: node2, input: input2 },
        ) => {
            lemma_carried_bounds_do_not_show_in_scans(*input, *input2, columns);
        },
        _ => {},
    }
}

/// A comparison in the conjunction has the placeholder where a bound would stand.
pub open spec fn compares_with_placeholder(e: ExprView, columns: Set<ColumnView>) -> bool
    decreases e,
{
    match e {
        ExprView::Binary { left, op, right } => if op is And {
            compares_with_placeholder(*left, columns) || compares_with_placeholder(*right, columns)
        } else {
            op.orders() && is_column_of(*left, columns) && *right == placeholder()
        },
        ExprView::Between { expr, low, high, .. } => is_column_of(*expr, columns) && *low
            == placeholder() && *high == placeholder(),
        _ => false,
    }
}

/// Filters that are the same without their bounds differ in bounds alone. This leaves out filters
/// that compare a column with the placeholder.
pub proof fn law_key_keeps_all_but_bounds_in_filters(
    first: ExprView,
    second: ExprView,
    columns: Set<ColumnView>,
)
    requires
        blanked(first, columns) == blanked(second, columns),
        !compares_with_placeholder(first, columns),
        !compares_with_placeholder(second, columns),
    ensures
        same_but_bounds(first, second, columns),
    decreases first,
{
    match (first, second) {
        (
            ExprView::Binary { left, op, right },
            ExprView::Binary { left: left2, op: op2, right: right2 },
        ) => {
            if op is And && op2 is And {
                law_key_keeps_all_but_bounds_in_filters(*left, *left2, columns);
                law_key_keeps_all_but_bounds_in_filters(*right, *right2, columns);
            }
        },
        _ => {},
    }
}

/// No filter of the list compares a column with the placeholder.
pub open spec fn none_compares_with_placeholder(
    filters: Seq<ExprView>,
    columns: Set<ColumnView>,
) -> bool {
    forall|i: int|
        0 <= i < filters.len() ==> !compares_with_placeholder(#[trigger] filters[i], columns)
}

/// Neither the first filter, which may stand under projections, nor a filter of the scan compares a
/// column with the placeholder.
pub open spec fn is_free_of_placeholders(plan: PlanView, columns: Set<ColumnView>) -> bool {
    &&& filter_below(plan) matches Some(e) ==> !compares_with_placeholder(e, columns)
    &&& none_compares_with_placeholder(scan_filters(plan), columns)
}

/// Inputs that are the same without the bounds of their filters differ in these bounds alone. This
/// leaves out filters that compare a column with the placeholder.
pub proof fn law_key_keeps_all_but_bounds_below(
    first: PlanView,
    second: PlanView,
    columns: Set<ColumnView>,
)
    requires
        blanked_below(first, columns) == blanked_below(second, columns),
        is_free_of_placeholders(first, columns),
        is_free_of_placeholders(second, columns),
    ensures
        same_below_but_bounds(first, second, columns),
    decreases first,
{
    match (first, second) {
        (
            PlanView::Projection { node, input },
            PlanView::Projection { node: node2, input: input2 },
        ) => {
            law_key_keeps_all_but_bounds_below(*input, *input2, columns);
        },
        (
            PlanView::Filter { predicate, input },
            PlanView::Filter { predicate: predicate2, input: input2 },
        ) => {
            law_key_keeps_all_but_bounds_in_filters(predicate, predicate2, columns);
            lemma_key_keeps_all_but_bounds_in_scans(*input, *input2, columns);
        },
        _ => {
            lemma_key_keeps_all_but_bounds_in_scans(first, second, columns);
        },
    }
}

proof fn lemma_key_keeps_all_but_bounds_in_scans(
    first: PlanView,
    second: PlanView,
    columns: Set<ColumnView>,
)
    requires
        blanked_scan_below(first, columns) == blanked_scan_below(second, columns),
        none_compares_with_placeholder(scan_filters(first), columns),
        none_compares_with_placeholder(scan_filters(second), columns),
    ensures
        same_scan_but_bounds(first, second, columns),
    decreases first,
{
    match (first, second) {
        (PlanView::TableScan(scan), PlanView::TableScan(scan2)) => {
            let blank = all_blanked(scan.filters, columns);
            let blank2 = all_blanked(scan2.filters, columns);
            assert(blank == blank2);
            assert(blank.len() == blank2.len());
            assert forall|i: int| 0 <= i < scan.filters.len() implies same_but_bounds(
                #[trigger] scan.filters[i],
                scan2.filters[i],
                columns,
            ) by {
                assert(blank[i] == blank2[i]);
                assert(!compares_with_placeholder(scan2.filters[i], columns));
                law_key_keeps_all_but_bounds_in_filters(
                    scan.filters[i],
                    scan2.filters[i],
                    columns,
                );
            }
        },
        (
            PlanView::Filter { predicate, input },
            PlanView::Filter { predicate: predicate2, input: input2 },
        ) => {
            lemma_key_keeps_all_but_bounds_in_scans(*input, *input2, columns);
        },
        (
            PlanView::Projection { node, input },
            PlanView::Projection { node: node2, input: input2 },
        ) => {
            lemma_key_keeps_all_but_bounds_in_scans(*input, *input2, columns);
        },
        _ => {},
    }
}

/// A filter that holds no bound of the columns stays in the key as it is.
pub proof fn law_other_conditions_stay_in_the_key(e: ExprView, columns: Set<ColumnView>)
    requires
        !has_bound(e, columns),
    ensures
        blanked(e, columns) == e,
    decreases e,
{
    match e {
        ExprView::Binary { left, op, right } => {
            if op is And {
                law_other_conditions_stay_in_the_key(*left, columns);
                law_other_conditions_stay_in_the_key(*right, columns);
            }
        },
        _ => {},
    }
}

/// Filters that differ only in bounds keep the same rows of the instants that lie in the intervals
/// of both. So what was stored for one query answers another one under the same key.
pub proof fn law_shared_instants_keep_the_same_rows(
    first: ExprView,
    second: ExprView,
    columns: Set<ColumnView>,
    t: int,
    rest: spec_fn(ExprView) -> bool,
)
    requires
        same_but_bounds(first, second, columns),
        bounds_fit(first, columns),
        bounds_fit(second, columns),
        static_interval(first, columns) !is Abandon,
        static_interval(second, columns) !is Abandon,
        static_interval(first, columns) matches StaticInterval::Found(i) ==> i.holds(t),
        static_interval(second, columns) matches StaticInterval::Found(i) ==> i.holds(t),
    ensures
        keeps(first, columns, t, rest) <==> keeps(second, columns, t, rest),
    decreases first,
{
    match (first, second) {
        (
            ExprView::Binary { left, op, right },
            ExprView::Binary { left: left2, op: op2, right: right2 },
        ) => {
            if op is And && op2 is And {
                law_shared_instants_keep_the_same_rows(*left, *left2, columns, t, rest);
                law_shared_instants_keep_the_same_rows(*right, *right2, columns, t, rest);
            }
        },
        _ => {},
    }
}

/// Narrowing an interval by a filter keeps just the instants that meet its bounds.
pub proof fn law_narrowing_is_exact(
    interval: TimeInterval,
    e: ExprView,
    columns: Set<ColumnView>,
    t: int,
)
    ensures
        narrowed(interval, e, columns).holds(t) <==> interval.holds(t) && meets_bounds(
            e,
            columns,
            t,
        ),
    decreases e,
{
    match e {
        ExprView::Binary { left, op, right } => {
            if op is And {
                law_narrowing_is_exact(interval, *left, columns, t);
                law_narrowing_is_exact(
                    narrowed(interval, *left, columns),
                    *right,
                    columns,
                    t,
                );
            }
        },
        _ => {},
    }
}

/// The same of narrowing by several filters.
pub proof fn law_narrowing_by_all_is_exact(
    interval: TimeInterval,
    filters: Seq<ExprView>,
    columns: Set<ColumnView>,
    t: int,
)
    ensures
        all_narrowed(interval, filters, columns).holds(t) <==> interval.holds(t) && forall|i: int|
            0 <= i < filters.len() ==> meets_bounds(#[trigger] filters[i], columns, t),
    decreases filters.len(),
{
    if filters.len() > 0 {
        let before = filters.drop_last();
        law_narrowing_by_all_is_exact(interval, before, columns, t);
        law_narrowing_is_exact(
            all_narrowed(interval, before, columns),
            filters.last(),
            columns,
            t,
        );
        assert forall|i: int| 0 <= i < before.len() implies before[i] == #[trigger] filters[i] by {}
        if all_narrowed(interval, filters, columns).holds(t) {
            assert forall|i: int| 0 <= i < filters.len() implies meets_bounds(
                #[trigger] filters[i],
                columns,
                t,
            ) by {
                if i < before.len() {
                    assert(meets_bounds(before[i], columns, t));
                }
            }
        } else if interval.holds(t) {
            if forall|i: int|
                0 <= i < filters.len() ==> meets_bounds(#[trigger] filters[i], columns, t) {
                assert forall|i: int| 0 <= i < before.len() implies meets_bounds(
                    #[trigger] before[i],
                    columns,
                    t,
                ) by {
                    assert(meets_bounds(filters[i], columns, t));
                }
                assert(meets_bounds(filters[filters.len() - 1], columns, t));
            }
        }
    }
}

/// A filter that keeps a row has bounds that the instant of the row meets.
pub proof fn lemma_kept_rows_meet_the_bounds(
    e: ExprView,
    columns: Set<ColumnView>,
    t: int,
    rest: spec_fn(ExprView) -> bool,
)
    requires
        keeps(e, columns, t, rest),
    ensures
        meets_bounds(e, columns, t),
    decreases e,
{
    match e {
        ExprView::Binary { left, op, right } => {
            if op is And {
                lemma_kept_rows_meet_the_bounds(*left, columns, t, rest);
                lemma_kept_rows_meet_the_bounds(*right, columns, t, rest);
            }
        },
        _ => {},
    }
}

/// Filters that differ only in bounds keep the same rows of the instants that meet the bounds of
/// both, as those of a scan do for every instant that lies in the intervals of both queries.
pub proof fn law_met_bounds_keep_the_same_rows(
    first: ExprView,
    second: ExprView,
    columns: Set<ColumnView>,
    t: int,
    rest: spec_fn(ExprView) -> bool,
)
    requires
        same_but_bounds(first, second, columns),
        meets_bounds(first, columns, t),
        meets_bounds(second, columns, t),
    ensures
        keeps(first, columns, t, rest) <==> keeps(second, columns, t, rest),
    decreases first,
{
    match (first, second) {
        (
            ExprView::Binary { left, op, right },
            ExprView::Binary { left: left2, op: op2, right: right2 },
        ) => {
            if op is And && op2 is And {
                law_met_bounds_keep_the_same_rows(*left, *left2, columns, t, rest);
                law_met_bounds_keep_the_same_rows(*right, *right2, columns, t, rest);
            }
        },
        _ => {},
    }
}

/// A bound compares one of the columns by order with a constant instant, or says that it lies
/// between two. A conjunction holds the bounds of its sides, and nothing else holds one.
pub proof fn law_what_holds_a_bound(
    left: ExprView,
    op: Operator,
    right: ExprView,
    high: ExprView,
    negated: bool,
    e: ExprView,
    columns: Set<ColumnView>,
)
    ensures
        ({
            let compared = ExprView::Binary { left: Box::new(left), op, right: Box::new(right) };
            let bound = (op == Operator::Lt || op == Operator::LtEq || op == Operator::Gt || op
                == Operator::GtEq) && (left matches ExprView::Column(c) && columns.contains(c))
                && literal_ns(right) is Some;
            &&& is_range(compared, columns) == bound
            &&& op != Operator::And ==> has_bound(compared, columns) == bound
            &&& op == Operator::And ==> has_bound(compared, columns) == (has_bound(left, columns)
                || has_bound(right, columns))
        }),
        ({
            let between = ExprView::Between {
                expr: Box::new(left),
                negated,
                low: Box::new(right),
                high: Box::new(high),
            };
            let bound = !negated && (left matches ExprView::Column(c) && columns.contains(c))
                && literal_ns(right) is Some && literal_ns(high) is Some;
            &&& is_range(between, columns) == bound
            &&& has_bound(between, columns) == bound
        }),
        e !is Binary && e !is Between ==> !is_range(e, columns) && !has_bound(e, columns),
{
}

/// In the key the placeholder stands where a bound has its constants, and all else stays: the
/// column, the operator and whatever is no bound.
pub proof fn law_bounds_become_the_placeholder(
    column: ColumnView,
    columns: Set<ColumnView>,
    op: Operator,
    left: ExprView,
    right: ExprView,
    low: ExprView,
    high: ExprView,
)
    requires
        columns.contains(column),
    ensures
        blanked(
            (ExprView::Binary {
                left: Box::new(left),
                op: Operator::And,
                right: Box::new(right),
            }),
            columns,
        ) == (ExprView::Binary {
            left: Box::new(blanked(left, columns)),
            op: Operator::And,
            right: Box::new(blanked(right, columns)),
        }),
        (op == Operator::Lt || op == Operator::LtEq || op == Operator::Gt || op == Operator::GtEq)
            && literal_ns(right) is Some ==> blanked(
            (ExprView::Binary {
                left: Box::new(ExprView::Column(column)),
                op,
                right: Box::new(right),
            }),
            columns,
        ) == (ExprView::Binary {
            left: Box::new(ExprView::Column(column)),
            op,
            right: Box::new(ExprView::Literal(ScalarView::Utf8(Some("?"@)), None)),
        }),
        literal_ns(low) is Some && literal_ns(high) is Some ==> blanked(
            (ExprView::Between {
                expr: Box::new(ExprView::Column(column)),
                negated: false,
                low: Box::new(low),
                high: Box::new(high),
            }),
            columns,
        ) == (ExprView::Between {
            expr: Box::new(ExprView::Column(column)),
            negated: false,
            low: Box::new(ExprView::Literal(ScalarView::Utf8(Some("?"@)), None)),
            high: Box::new(ExprView::Literal(ScalarView::Utf8(Some("?"@)), None)),
        }),
{
}

/// The key of an aggregation is the aggregation with its groups, its aggregates and every node of
/// its input. Only the first filter under projections and the filters of the scan lose their
/// bounds.
pub proof fn law_keys_keep_the_nodes(
    columns: Set<ColumnView>,
    node: u64,
    predicate: ExprView,
    input: PlanView,
    scan: ScanView,
    group_expr: Seq<ExprView>,
    aggr_expr: Seq<ExprView>,
)
    ensures
        blanked_plan(
            (PlanView::Aggregate { input: Box::new(input), group_expr, aggr_expr }),
            columns,
        ) == (PlanView::Aggregate {
            input: Box::new(blanked_below(input, columns)),
            group_expr,
            aggr_expr,
        }),
        input !is Aggregate ==> blanked_plan(input, columns) == input,
        blanked_below((PlanView::Projection { node, input: Box::new(input) }), columns) == (
        PlanView::Projection { node, input: Box::new(blanked_below(input, columns)) }),
        blanked_below((PlanView::Filter { predicate, input: Box::new(input) }), columns) == (
        PlanView::Filter {
            predicate: blanked(predicate, columns),
            input: Box::new(blanked_scan_below(input, columns)),
        }),
        blanked_below(PlanView::TableScan(scan), columns) == blanked_scan_below(
            PlanView::TableScan(scan),
            columns,
        ),
        blanked_scan_below((PlanView::Projection { node, input: Box::new(input) }), columns) == (
        PlanView::Projection { node, input: Box::new(blanked_scan_below(input, columns)) }),
        blanked_scan_below((PlanView::Filter { predicate, input: Box::new(input) }), columns) == (
        PlanView::Filter { predicate, input: Box::new(blanked_scan_below(input, columns)) }),
        blanked_scan_below(PlanView::TableScan(scan), columns) == PlanView::TableScan(
            (ScanView {
                node: scan.node,
                source_fields: scan.source_fields,
                projected_fields: scan.projected_fields,
                projection: scan.projection,
                filters: scan.filters.map_values(|e: ExprView| blanked(e, columns)),
            }),
        ),
        input is Aggregate || input is QueryCache || input is Extension || input is Other
            ==> blanked_below(input, columns) == input && blanked_scan_below(input, columns)
            == input,
{
    assert(all_blanked(scan.filters, columns) =~= scan.filters.map_values(
        |e: ExprView| blanked(e, columns),
    ));
}

/// The filter of an input is its first one, as long as only projections stand above it. The filters
/// of its scan are those of the scan under filters and projections.
pub proof fn law_filters_are_found_from_the_top(
    columns: Set<ColumnView>,
    node: u64,
    predicate: ExprView,
    input: PlanView,
    scan: ScanView,
)
    ensures
        ({
            let above = PlanView::Projection { node, input: Box::new(input) };
            &&& filter_below(above) == filter_below(input)
            &&& scan_filters(above) == scan_filters(input)
            &&& holds_bound(above, columns) == holds_bound(input, columns)
            &&& filters_are_fixed(above) == filters_are_fixed(input)
        }),
        ({
            let above = PlanView::Filter { predicate, input: Box::new(input) };
            &&& filter_below(above) == Some(predicate)
            &&& scan_filters(above) == scan_filters(input)
            &&& holds_bound(above, columns) <==> has_bound(predicate, columns) || exists|i: int|
                0 <= i < scan_filters(input).len() && has_bound(
                    #[trigger] scan_filters(input)[i],
                    columns,
                )
            &&& filters_are_fixed(above) <==> is_fixed(predicate) && filters_are_fixed(input)
        }),
        ({
            let plan = PlanView::TableScan(scan);
            &&& filter_below(plan) == None::<ExprView>
            &&& scan_filters(plan) == scan.filters
            &&& holds_bound(plan, columns) <==> exists|i: int|
                0 <= i < scan.filters.len() && has_bound(#[trigger] scan.filters[i], columns)
            &&& filters_are_fixed(plan) <==> forall|i: int|
                0 <= i < scan.filters.len() ==> is_fixed(#[trigger] scan.filters[i])
        }),
        input is Aggregate || input is QueryCache || input is Extension || input is Other ==> {
            &&& filter_below(input) == None::<ExprView>
            &&& scan_filters(input) == Seq::<ExprView>::empty()
            &&& !holds_bound(input, columns)
            &&& filters_are_fixed(input)
        },
{
    reveal_with_fuel(scan_below, 2);
    lemma_each_is_fixed(scan.filters);
}

proof fn lemma_each_is_fixed(exprs: Seq<ExprView>)
    ensures
        all_fixed(exprs) <==> forall|i: int| 0 <= i < exprs.len() ==> is_fixed(#[trigger] exprs[i]),
    decreases exprs.len(),
{
    if exprs.len() > 0 {
        let before = exprs.drop_last();
        lemma_each_is_fixed(before);
        assert forall|i: int| 0 <= i < before.len() implies before[i] == #[trigger] exprs[i] by {}
        if all_fixed(exprs) {
            assert forall|i: int| 0 <= i < exprs.len() implies is_fixed(#[trigger] exprs[i]) by {
                if i < before.len() {
                    assert(is_fixed(before[i]));
                }
            }
        }
        if forall|i: int| 0 <= i < exprs.len() ==> is_fixed(#[trigger] exprs[i]) {
            assert forall|i: int| 0 <= i < before.len() implies is_fixed(#[trigger] before[i]) by {
                assert(is_fixed(exprs[i]));
            }
            assert(is_fixed(exprs[exprs.len() - 1]));
        }
    }
}

/// Columns and constants depend on nothing but the row, dynamic parts on more. All else depends on
/// what its parts depend on, and a function that is not immutable on more.
pub proof fn law_what_depends_on_the_row_alone(
    column: ColumnView,
    value: ScalarView,
    metadata: Option<u64>,
    left: ExprView,
    op: Operator,
    right: ExprView,
    high: ExprView,
    negated: bool,
    data_type: u64,
    name: Seq<char>,
    func: u64,
    immutable: bool,
    args: Seq<ExprView>,
    node: u64,
)
    ensures
        is_fixed(ExprView::Column(column)),
        is_fixed(ExprView::Literal(value, metadata)),
        is_fixed((ExprView::Binary { left: Box::new(left), op, right: Box::new(right) })) <==> (
        is_fixed(left) && is_fixed(right)),
        is_fixed(
            (ExprView::Between {
                expr: Box::new(left),
                negated,
                low: Box::new(right),
                high: Box::new(high),
            }),
        ) <==> is_fixed(left) && is_fixed(right) && is_fixed(high),
        is_fixed(ExprView::Not(Box::new(left))) == is_fixed(left),
        is_fixed(ExprView::Negative(Box::new(left))) == is_fixed(left),
        is_fixed((ExprView::Cast { expr: Box::new(left), data_type })) == is_fixed(left),
        is_fixed((ExprView::Function { name, func, immutable, args })) <==> (immutable && forall|
            i: int,
        |
            0 <= i < args.len() ==> is_fixed(#[trigger] args[i])),
        is_fixed(ExprView::Other(node)),
        !is_fixed(ExprView::Dynamic(node)),
{
    lemma_each_is_fixed(args);
}

/// An interval that is narrowed by a bound holds those of its instants that compare with the
/// constant as the bound says. Narrowing by a conjunction is narrowing by both sides, and what is
/// no bound narrows nothing.
pub proof fn law_bounds_narrow_as_they_compare(
    interval: TimeInterval,
    column: ColumnView,
    columns: Set<ColumnView>,
    op: Operator,
    left: ExprView,
    right: ExprView,
    high: ExprView,
    t: int,
)
    requires
        columns.contains(column),
    ensures
        ({
            let e = ExprView::Binary {
                left: Box::new(ExprView::Column(column)),
                op,
                right: Box::new(right),
            };
            let narrow = narrowed(interval, e, columns);
            let before = interval.start_ns <= t < interval.end_ns;
            let after = narrow.start_ns <= t < narrow.end_ns;
            literal_ns(right) matches Some(ns) ==> {
                &&& op == Operator::Gt ==> (after <==> before && t > ns)
                &&& op == Operator::GtEq ==> (after <==> before && t >= ns)
                &&& op == Operator::Lt ==> (after <==> before && t < ns)
                &&& op == Operator::LtEq ==> (after <==> before && t <= ns)
            }
        }),
        ({
            let e = ExprView::Between {
                expr: Box::new(ExprView::Column(column)),
                negated: false,
                low: Box::new(right),
                high: Box::new(high),
            };
            let narrow = narrowed(interval, e, columns);
            let before = interval.start_ns <= t < interval.end_ns;
            let after = narrow.start_ns <= t < narrow.end_ns;
            literal_ns(right) is Some && literal_ns(high) is Some ==> (after <==> before
                && literal_ns(right)->0 <= t && t <= literal_ns(high)->0)
        }),
        narrowed(
            interval,
            (ExprView::Binary {
                left: Box::new(left),
                op: Operator::And,
                right: Box::new(right),
            }),
            columns,
        ) == narrowed(narrowed(interval, left, columns), right, columns),
        !has_bound(left, columns) ==> narrowed(interval, left, columns) == interval,
{
    if !has_bound(left, columns) {
        lemma_no_bound_narrows_nothing(interval, left, columns);
    }
}

proof fn lemma_no_bound_narrows_nothing(
    interval: TimeInterval,
    e: ExprView,
    columns: Set<ColumnView>,
)
    requires
        !has_bound(e, columns),
    ensures
        narrowed(interval, e, columns) == interval,
    decreases e,
{
    match e {
        ExprView::Binary { left, op, right } => {
            if op is And {
                lemma_no_bound_narrows_nothing(interval, *left, columns);
                lemma_no_bound_narrows_nothing(interval, *right, columns);
            }
        },
        _ => {},
    }
}

/// Narrowing by a list of filters is narrowing by one after another.
pub proof fn law_filters_narrow_one_after_another(
    interval: TimeInterval,
    filters: Seq<ExprView>,
    filter: ExprView,
    columns: Set<ColumnView>,
)
    ensures
        all_narrowed(interval, Seq::<ExprView>::empty(), columns) == interval,
        all_narrowed(interval, filters.push(filter), columns) == narrowed(
            all_narrowed(interval, filters, columns),
            filter,
            columns,
        ),
{
    assert(filters.push(filter).drop_last() =~= filters);
}

/// An instant meets a bound where it compares with the constant as the bound says, a conjunction
/// where it meets both sides, and all else anyway.
pub proof fn law_what_meets_bounds(
    column: ColumnView,
    columns: Set<ColumnView>,
    op: Operator,
    left: ExprView,
    right: ExprView,
    high: ExprView,
    t: int,
)
    requires
        columns.contains(column),
    ensures
        ({
            let e = ExprView::Binary {
                left: Box::new(ExprView::Column(column)),
                op,
                right: Box::new(right),
            };
            literal_ns(right) matches Some(ns) ==> {
                &&& op == Operator::Gt ==> (meets_bounds(e, columns, t) <==> t > ns)
                &&& op == Operator::GtEq ==> (meets_bounds(e, columns, t) <==> t >= ns)
                &&& op == Operator::Lt ==> (meets_bounds(e, columns, t) <==> t < ns)
                &&& op == Operator::LtEq ==> (meets_bounds(e, columns, t) <==> t <= ns)
            }
        }),
        literal_ns(right) is Some && literal_ns(high) is Some ==> (meets_bounds(
            (ExprView::Between {
                expr: Box::new(ExprView::Column(column)),
                negated: false,
                low: Box::new(right),
                high: Box::new(high),
            }),
            columns,
            t,
        ) <==> literal_ns(right)->0 <= t && t <= literal_ns(high)->0),
        meets_bounds(
            (ExprView::Binary {
                left: Box::new(left),
                op: Operator::And,
                right: Box::new(right),
            }),
            columns,
            t,
        ) <==> meets_bounds(left, columns, t) && meets_bounds(right, columns, t),
        !has_bound(left, columns) ==> meets_bounds(left, columns, t),
{
    if !has_bound(left, columns) {
        lemma_no_bound_is_met(left, columns, t);
    }
}

proof fn lemma_no_bound_is_met(e: ExprView, columns: Set<ColumnView>, t: int)
    requires
        !has_bound(e, columns),
    ensures
        meets_bounds(e, columns, t),
    decreases e,
{
    match e {
        ExprView::Binary { left, op, right } => {
            if op is And {
                lemma_no_bound_is_met(*left, columns, t);
                lemma_no_bound_is_met(*right, columns, t);
            }
        },
        _ => {},
    }
}

} // verus!
