//! Which aggregations are cached, and under which key.

use std::sync::Arc;

use vstd::prelude::*;

use crate::column::{Column, ColumnSet, ColumnView};
use crate::config::{ConfigView, QueryCacheConfig};
use crate::expr::{exprs_view, Expr, ExprView};
use crate::fingerprint::{key_of_print, printed_key};
use crate::interval::TimeInterval;
use crate::key::{
    all_narrowed, any_has_bound, blank_plan, blanked_below, blanked_plan, filter_below,
    filters_are_fixed, find_bound, find_bound_in_any, find_filter, has_bound, holds_bound,
    is_free_of_placeholders, law_carried_bounds_do_not_show_below,
    law_key_keeps_all_but_bounds_below, law_narrowing_by_all_is_exact,
    lemma_bounds_are_shared_below, lemma_interval_needs_a_bound, lemma_kept_rows_meet_the_bounds,
    lemma_more_columns_have_bounds, lemma_no_column_is_bounded,
    lemma_only_one_column_is_bounded_below, lemma_stable_filters_hold_no_bound, meets_bounds,
    narrow_by_all, plan_filters_are_fixed, same_below_but_bounds, scan_filters,
};
use crate::node::{prints_all, prints_as};
use crate::plan::{Aggregate, LogicalPlan, PlanView, QCAggregatePlanNode, ScanView};
use crate::scan::{
    extend_scan, extended_scan, find_field, find_scan, has_field, is_sound_plan, is_sound_scan,
    law_extended_scan_gives_more, lemma_scan_below_is_sound, lemma_scan_is_replaced, replace_scan,
    scan_below, with_scan,
};
use crate::semantics::{keeps, law_interval_holds_what_the_filter_keeps};
use crate::static_interval::{bounds_fit, static_interval, StaticInterval};

verus! {

/// The name of the rule.
pub const RULE_NAME: &'static str = "query-cache-agg-group-by";

/// Why a plan is left as it is.
#[derive(Debug, Clone, Copy, PartialEq, Eq, Structural)]
pub enum Skip {
    /// The plan is not an aggregation.
    NotAggregate,
    /// Several group bys use temporal columns.
    SeveralTemporalGroupBys,
    /// The filter holds an expression that is not stable.
    UnstableExpression,
    /// The filter stands under a projection and does not bound the temporal column.
    NoTemporalBound,
    /// The filter bounds a temporal column that the query is not cached by.
    OtherTemporalColumn,
    /// The filter admits no instant.
    EmptyInterval,
    /// The input is not a table scan (through filters and projections).
    NotATableScan,
    /// The default temporal column is not in the table.
    ColumnNotInTable,
}

/// What the rule makes of a plan.
#[derive(Debug)]
pub enum Rewrite {
    /// The plan stays as it is.
    Unchanged(Skip),
    /// A bound in the filter does not fit in 64 bits of nanoseconds.
    BoundsOutOfRange,
    /// The plan becomes a cached aggregation.
    Transformed(QCAggregatePlanNode),
}

/// What the rule decides on a plan.
pub enum Decision {
    Unchanged(Skip),
    BoundsOutOfRange,
    Cache(CachedView),
}

/// A cached aggregation, and the plan whose print makes its key.
pub struct CachedView {
    pub input: PlanView,
    pub keyed: PlanView,
    pub temporal_column: ColumnView,
    pub interval: Option<TimeInterval>,
}

/// The temporal column that a group by expression uses: the second argument of an allowed
/// function, where that is an allowed column.
pub open spec fn temporal_group_by(config: ConfigView, e: ExprView) -> Option<ColumnView> {
    match e {
        ExprView::Function { name, args, .. } => {
            if config.group_by_functions.contains(name) && args.len() >= 2 {
                match args[1] {
                    ExprView::Column(column) => if config.temporal_columns.contains(column) {
                        Some(column)
                    } else {
                        None
                    },
                    _ => None,
                }
            } else {
                None
            }
        },
        _ => None,
    }
}

/// The temporal columns that the group by expressions use, in their order.
pub open spec fn temporal_group_bys(config: ConfigView, exprs: Seq<ExprView>) -> Seq<ColumnView>
    decreases exprs.len(),
{
    if exprs.len() == 0 {
        seq![]
    } else {
        let before = temporal_group_bys(config, exprs.drop_last());
        match temporal_group_by(config, exprs.last()) {
            Some(column) => before.push(column),
            None => before,
        }
    }
}

/// The temporal column that a query is cached by: the one that it groups by, else the default one.
pub open spec fn temporal_column_of(config: ConfigView, group_bys: Seq<ColumnView>) -> ColumnView {
    if group_bys.len() > 0 {
        group_bys[0]
    } else {
        config.default_temporal_column
    }
}

/// What the filter of an aggregation says about caching it.
#[derive(Debug, Clone, Copy, PartialEq, Eq, Structural)]
pub enum Judgement {
    /// The aggregation is not cached.
    No(Skip),
    /// A bound does not fit in 64 bits of nanoseconds.
    OutOfRange,
    /// It is cached by the time. The filter fixes the interval.
    Within(TimeInterval),
    /// It is cached as it stands, bounds and all.
    Whole,
}

/// What the first filter in the input of an aggregation, which may stand under projections, and the
/// filters of the scan say about caching it by a temporal column. No filter in the input may depend
/// on more than the row, and a query has one temporal column: no bound may be of another.
pub open spec fn judged(
    input: PlanView,
    column: ColumnView,
    temporal_columns: Set<ColumnView>,
) -> Judgement {
    let columns = set![column];
    let filter = filter_below(input);
    if filter matches Some(predicate) && !bounds_fit(predicate, columns) {
        Judgement::OutOfRange
    } else if !filters_are_fixed(input) {
        Judgement::No(Skip::UnstableExpression)
    } else if holds_bound(input, temporal_columns.remove(column)) {
        Judgement::No(Skip::OtherTemporalColumn)
    } else {
        match filter_interval(input, columns) {
            StaticInterval::Found(interval) => judged_within(interval, input, columns),
            StaticInterval::Stable => if any_has_bound(scan_filters(input), columns) {
                judged_within(all_time(), input, columns)
            } else if filter is None || input is Filter {
                Judgement::Whole
            } else {
                Judgement::No(Skip::NoTemporalBound)
            },
            StaticInterval::Abandon => if input !is Filter && has_bound(filter->0, columns) {
                Judgement::Whole
            } else {
                Judgement::No(Skip::UnstableExpression)
            },
        }
    }
}

/// The interval that the first filter fixes. No filter fixes none.
pub open spec fn filter_interval(input: PlanView, columns: Set<ColumnView>) -> StaticInterval {
    match filter_below(input) {
        Some(predicate) => static_interval(predicate, columns),
        None => StaticInterval::Stable,
    }
}

/// From the first instant to the last.
pub open spec fn all_time() -> TimeInterval {
    TimeInterval { start_ns: i64::MIN, end_ns: i64::MAX }
}

/// An aggregation is cached within the interval, as far as the filters of the scan admit it.
pub open spec fn judged_within(
    interval: TimeInterval,
    input: PlanView,
    columns: Set<ColumnView>,
) -> Judgement {
    let narrow = all_narrowed(interval, scan_filters(input), columns);
    if narrow.proper() {
        Judgement::Within(narrow)
    } else {
        Judgement::No(Skip::EmptyInterval)
    }
}

/// The aggregation that is cached. Without a temporal group by, the default temporal column has
/// to be scanned, and is added to the scan where it is not.
pub open spec fn cached_input(
    config: ConfigView,
    plan: PlanView,
    group_bys: Seq<ColumnView>,
) -> Result<PlanView, Skip> {
    let name = config.default_temporal_column.name;
    if group_bys.len() > 0 {
        Ok(plan)
    } else {
        match aggregated_scan(plan) {
            None => Err(Skip::NotATableScan),
            Some(scan) => if scan.projected_fields.contains(name) {
                Ok(plan)
            } else {
                match scan.source_fields.index_of_first(name) {
                    None => Err(Skip::ColumnNotInTable),
                    Some(place) => Ok(with_scan(plan, extended_scan(scan, place as usize))),
                }
            },
        }
    }
}

/// The scan under the input of an aggregation.
pub open spec fn aggregated_scan(plan: PlanView) -> Option<ScanView> {
    match plan {
        PlanView::Aggregate { input, .. } => scan_below(*input),
        _ => None,
    }
}

/// The decision on an aggregation, from the interval that was found and the plan that makes the
/// key.
pub open spec fn decide_aggregate(
    config: ConfigView,
    plan: PlanView,
    group_bys: Seq<ColumnView>,
    interval: Option<TimeInterval>,
    keyed: PlanView,
) -> Decision {
    match cached_input(config, plan, group_bys) {
        Err(skip) => Decision::Unchanged(skip),
        Ok(input) => Decision::Cache(
            CachedView {
                input,
                keyed,
                temporal_column: temporal_column_of(config, group_bys),
                interval,
            },
        ),
    }
}

/// What the rule decides on a plan. The key leaves out just the bounds that the interval carries.
pub open spec fn decide(config: ConfigView, plan: PlanView) -> Decision {
    match plan {
        PlanView::Aggregate { input, group_expr, .. } => {
            let group_bys = temporal_group_bys(config, group_expr);
            let column = temporal_column_of(config, group_bys);
            if group_bys.len() > 1 {
                Decision::Unchanged(Skip::SeveralTemporalGroupBys)
            } else {
                match judged(*input, column, config.temporal_columns) {
                    Judgement::No(skip) => Decision::Unchanged(skip),
                    Judgement::OutOfRange => Decision::BoundsOutOfRange,
                    Judgement::Within(interval) => decide_aggregate(
                        config,
                        plan,
                        group_bys,
                        Some(interval),
                        blanked_plan(plan, set![column]),
                    ),
                    Judgement::Whole => decide_aggregate(config, plan, group_bys, None, plan),
                }
            }
        },
        _ => Decision::Unchanged(Skip::NotAggregate),
    }
}

/// `rewrite` carries out the decision. The fingerprint of a cached aggregation is the key of the
/// keyed plan as `display` prints it.
pub open spec fn carries_out<D: Fn(&LogicalPlan) -> String>(
    rewrite: Rewrite,
    decision: Decision,
    display: D,
) -> bool {
    match decision {
        Decision::Unchanged(skip) => rewrite == Rewrite::Unchanged(skip),
        Decision::BoundsOutOfRange => rewrite is BoundsOutOfRange,
        Decision::Cache(cached) => {
            &&& rewrite matches Rewrite::Transformed(node)
            &&& node@.input == cached.input
            &&& node@.temporal_column == cached.temporal_column
            &&& node@.interval == cached.interval
            &&& is_key_of(node@.fingerprint, cached.keyed, display)
        },
    }
}

/// `key` is the key of a plan as `display` prints it.
pub open spec fn is_key_of<D: Fn(&LogicalPlan) -> String>(
    key: Seq<char>,
    keyed: PlanView,
    display: D,
) -> bool {
    exists|plan: LogicalPlan, text: Seq<char>|
        plan@ == keyed && #[trigger] prints_as(display, plan, text) && key == printed_key(text)
}

/// The two print equal plans alike.
pub open spec fn print_alike<D: Fn(&LogicalPlan) -> String, D2: Fn(&LogicalPlan) -> String>(
    display: D,
    display2: D2,
) -> bool {
    forall|first: LogicalPlan, second: LogicalPlan, text: Seq<char>, text2: Seq<char>|
        first@ == second@ && #[trigger] prints_as(display, first, text) && #[trigger] prints_as(
            display2,
            second,
            text2,
        ) ==> text == text2
}

/// An aggregation is cached within the interval, as far as the filters of the scan admit it.
fn judge_within(interval: &TimeInterval, input: &LogicalPlan, columns: &ColumnSet) -> (judgement:
    Judgement)
    ensures
        judgement == judged_within(*interval, input@, columns@),
{
    let narrow = match find_scan(input) {
        Some(scan) => narrow_by_all(interval, &scan.filters, columns),
        None => *interval,
    };
    if narrow.start_ns < narrow.end_ns {
        Judgement::Within(narrow)
    } else {
        Judgement::No(Skip::EmptyInterval)
    }
}

/// Whether a filter of the scan holds a bound of the columns.
fn scan_has_bound(input: &LogicalPlan, columns: &ColumnSet) -> (found: bool)
    ensures
        found == any_has_bound(scan_filters(input@), columns@),
{
    match find_scan(input) {
        Some(scan) => find_bound_in_any(&scan.filters, columns),
        None => false,
    }
}

/// What the filters in the input of an aggregation say about caching it by a temporal column.
pub fn judge(input: &LogicalPlan, column: &Column, temporal_columns: &ColumnSet) -> (judgement:
    Judgement)
    ensures
        judgement == judged(input@, column@, temporal_columns@),
{
    let filter = find_filter(input);
    let direct = match input {
        LogicalPlan::Filter(_) => true,
        _ => false,
    };
    let columns = &ColumnSet::of(column.clone());
    let found = match filter {
        Some(predicate) => match StaticInterval::try_find(predicate, columns) {
            Some(found) => found,
            None => {
                return Judgement::OutOfRange;
            },
        },
        None => StaticInterval::Stable,
    };
    if !plan_filters_are_fixed(input) {
        return Judgement::No(Skip::UnstableExpression);
    }
    let others = temporal_columns.without(column);
    let bounds_other = match filter {
        Some(predicate) => find_bound(predicate, &others),
        None => false,
    };
    if bounds_other || scan_has_bound(input, &others) {
        return Judgement::No(Skip::OtherTemporalColumn);
    }
    match found {
        StaticInterval::Found(interval) => judge_within(&interval, input, columns),
        StaticInterval::Stable => if scan_has_bound(input, columns) {
            judge_within(&TimeInterval::new(i64::MIN, i64::MAX), input, columns)
        } else if direct || filter.is_none() {
            Judgement::Whole
        } else {
            Judgement::No(Skip::NoTemporalBound)
        },
        StaticInterval::Abandon => match filter {
            Some(predicate) => if !direct && find_bound(predicate, columns) {
                Judgement::Whole
            } else {
                Judgement::No(Skip::UnstableExpression)
            },
            None => Judgement::No(Skip::UnstableExpression),
        },
    }
}

/// The rule that finds aggregations to cache.
#[derive(Debug)]
pub struct QCAggregateOptimizerRule<Log, C> {
    log: Log,
    config: Arc<QueryCacheConfig<C>>,
}

impl<Log, C> QCAggregateOptimizerRule<Log, C> {
    /// The settings that the rule goes by.
    pub closed spec fn settings(&self) -> ConfigView {
        (*self.config)@
    }

    /// Where the rule logs to.
    pub closed spec fn logs_to(&self) -> Log {
        self.log
    }

    pub fn new(log: Log, config: Arc<QueryCacheConfig<C>>) -> (rule: Self)
        ensures
            rule.settings() == (*config)@,
            rule.logs_to() == log,
    {
        Self { log, config }
    }

    /// The name of the rule.
    pub fn name(&self) -> (name: &'static str)
        ensures
            name@ == RULE_NAME@,
    {
        RULE_NAME
    }

    /// Where the rule logs to.
    pub fn log(&self) -> (log: &Log)
        ensures
            *log == self.logs_to(),
    {
        &self.log
    }

    /// Find a column used in a group by expression that matches one of our temporal columns.
    pub fn find_temporal_group_by(&self, expr: &Expr) -> (column: Option<Column>)
        ensures
            match column {
                Some(column) => temporal_group_by(self.settings(), expr@) == Some(column@),
                None => temporal_group_by(self.settings(), expr@) is None,
            },
    {
        match expr {
            Expr::ScalarFunction(function) => {
                if !self.config.allow_group_by_function(function.name.as_str()) {
                    return None;
                }
                if function.args.len() < 2 {
                    return None;
                }
                assert(expr@->args[1] == function.args@[1]@);
                match &function.args[1] {
                    Expr::Column(column) => {
                        if self.config.allow_temporal_column(column) {
                            Some(column.clone())
                        } else {
                            None
                        }
                    },
                    _ => None,
                }
            },
            _ => None,
        }
    }

    /// The temporal columns that the group by expressions use.
    fn find_temporal_group_bys(&self, exprs: &Vec<Expr>) -> (columns: Vec<Column>)
        ensures
            column_views(columns@) == temporal_group_bys(self.settings(), exprs_view(exprs@)),
    {
        let ghost views = exprs_view(exprs@);
        let mut columns: Vec<Column> = Vec::new();
        let mut i: usize = 0;
        assert(views.take(0) =~= seq![]);
        assert(column_views(columns@) =~= temporal_group_bys(self.settings(), views.take(0)));
        while i < exprs.len()
            invariant
                i <= exprs@.len(),
                views == exprs_view(exprs@),
                column_views(columns@) == temporal_group_bys(
                    self.settings(),
                    views.take(i as int),
                ),
            decreases exprs@.len() - i,
        {
            let ghost before = columns@;
            proof {
                let longer = views.take(i + 1);
                assert(longer.drop_last() =~= views.take(i as int));
                assert(longer.last() == exprs@[i as int]@);
            }
            if let Some(column) = self.find_temporal_group_by(&exprs[i]) {
                columns.push(column);
                assert(column_views(columns@) =~= column_views(before).push(column@));
            }
            i = i + 1;
        }
        assert(views.take(i as int) =~= views);
        columns
    }

    /// The aggregation that is cached, with the default temporal column among those scanned where
    /// the query does not group by a temporal column.
    fn cached_aggregate(
        &self,
        plan: &LogicalPlan,
        agg: &Aggregate,
        grouped: bool,
        Ghost(group_bys): Ghost<Seq<ColumnView>>,
    ) -> (cached: Result<LogicalPlan, Skip>)
        requires
            *plan == LogicalPlan::Aggregate(*agg),
            is_sound_plan(plan@),
            grouped == (group_bys.len() > 0),
        ensures
            match cached {
                Ok(cached) => cached_input(self.settings(), plan@, group_bys) == Ok::<
                    PlanView,
                    Skip,
                >(cached@),
                Err(skip) => cached_input(self.settings(), plan@, group_bys) == Err::<
                    PlanView,
                    Skip,
                >(skip),
            },
    {
        if grouped {
            return Ok(plan.clone());
        }
        let scan = match find_scan(&agg.input) {
            Some(scan) => scan,
            None => {
                return Err(Skip::NotATableScan);
            },
        };
        let field_name = &self.config.default_temporal_column().name;
        if has_field(&scan.projected_fields, field_name) {
            return Ok(plan.clone());
        }
        proof {
            reveal_with_fuel(is_sound_plan, 2);
            lemma_scan_below_is_sound(agg.input@);
            scan@.source_fields.index_of_first_ensures(field_name@);
        }
        match find_field(&scan.source_fields, field_name) {
            Some(new_col_id) => Ok(replace_scan(plan, extend_scan(scan, new_col_id))),
            None => Err(Skip::ColumnNotInTable),
        }
    }

    /// Rewrite an aggregation that can be cached into a cached aggregation. `display` prints a
    /// plan with its schema.
    pub fn rewrite<D: Fn(&LogicalPlan) -> String>(
        &self,
        plan: &LogicalPlan,
        display: &D,
    ) -> (rewrite: Rewrite)
        requires
            is_sound_plan(plan@),
            prints_all(*display),
        ensures
            carries_out(rewrite, decide(self.settings(), plan@), *display),
    {
        let agg = match plan {
            LogicalPlan::Aggregate(agg) => agg,
            // Not an aggregation, continue rewrite
            _ => {
                return Rewrite::Unchanged(Skip::NotAggregate);
            },
        };
        let group_bys = self.find_temporal_group_bys(&agg.group_expr);
        let ghost columns_found = column_views(group_bys@);
        if group_bys.len() > 1 {
            return Rewrite::Unchanged(Skip::SeveralTemporalGroupBys);
        }
        let grouped = group_bys.len() > 0;
        let temporal_column = if grouped {
            group_bys[0].clone()
        } else {
            self.config.default_temporal_column().clone()
        };
        assert(temporal_column@ == temporal_column_of(self.settings(), columns_found));
        // Only the bounds that the interval carries are left out of the key
        let judgement = judge(&agg.input, &temporal_column, self.config.temporal_columns());
        let (interval, keyed) = match judgement {
            Judgement::No(skip) => {
                return Rewrite::Unchanged(skip);
            },
            Judgement::OutOfRange => {
                return Rewrite::BoundsOutOfRange;
            },
            Judgement::Within(interval) => {
                let needle_columns = ColumnSet::of(temporal_column.clone());
                (Some(interval), blank_plan(plan, &needle_columns))
            },
            Judgement::Whole => (None, plan.clone()),
        };
        let input = match self.cached_aggregate(plan, agg, grouped, Ghost(columns_found)) {
            Ok(input) => input,
            Err(skip) => {
                return Rewrite::Unchanged(skip);
            },
        };
        let text = display(&keyed);
        let fingerprint = key_of_print(text.as_str());
        assert(prints_as(*display, keyed, text@));
        Rewrite::Transformed(
            QCAggregatePlanNode { input, fingerprint, temporal_column, interval },
        )
    }
}

/// An aggregation that is cached without a temporal group by scans the default temporal column,
/// by which its gaps are filtered.
pub proof fn law_cached_aggregation_scans_its_column(config: ConfigView, plan: PlanView)
    requires
        is_sound_plan(plan),
        decide(config, plan) is Cache,
        plan matches PlanView::Aggregate { group_expr, .. } && temporal_group_bys(
            config,
            group_expr,
        ).len() == 0,
    ensures
        aggregated_scan(decide(config, plan)->Cache_0.input) matches Some(scan)
            && scan.projected_fields.contains(config.default_temporal_column.name)
            && is_sound_scan(scan),
{
    reveal_with_fuel(is_sound_plan, 2);
    let input = *plan->Aggregate_input;
    lemma_scan_below_is_sound(input);
    let scan = scan_below(input)->0;
    let name = config.default_temporal_column.name;
    scan.source_fields.index_of_first_ensures(name);
    if !scan.projected_fields.contains(name) {
        let place = scan.source_fields.index_of_first(name)->0;
        law_extended_scan_gives_more(scan, place as usize);
        lemma_scan_is_replaced(input, extended_scan(scan, place as usize));
        reveal_with_fuel(with_scan, 2);
    }
}

/// The plans are the same, but for the columns that they scan.
pub open spec fn same_but_scanned_columns(first: PlanView, second: PlanView) -> bool
    decreases first,
{
    match (first, second) {
        (
            PlanView::Aggregate { input, group_expr, aggr_expr },
            PlanView::Aggregate { input: input2, group_expr: group_expr2, aggr_expr: aggr_expr2 },
        ) => {
            &&& group_expr == group_expr2
            &&& aggr_expr == aggr_expr2
            &&& same_but_scanned_columns(*input, *input2)
        },
        (
            PlanView::Filter { predicate, input },
            PlanView::Filter { predicate: predicate2, input: input2 },
        ) => predicate == predicate2 && same_but_scanned_columns(*input, *input2),
        (
            PlanView::Projection { node, input },
            PlanView::Projection { node: node2, input: input2 },
        ) => node == node2 && same_but_scanned_columns(*input, *input2),
        (PlanView::TableScan(scan), PlanView::TableScan(scan2)) => scan.node == scan2.node
            && scan.source_fields == scan2.source_fields && scan.filters == scan2.filters,
        _ => first == second,
    }
}

/// Caching an aggregation changes nothing but the columns that are scanned: it keeps the groups,
/// the aggregates, and every filter and projection, the filters of the scan among them.
pub proof fn law_caching_keeps_the_query(config: ConfigView, plan: PlanView)
    requires
        decide(config, plan) is Cache,
    ensures
        same_but_scanned_columns(plan, decide(config, plan)->Cache_0.input),
{
    lemma_same_as_itself(plan);
    if let Some(scan) = aggregated_scan(plan) {
        if let Some(place) = scan.source_fields.index_of_first(
            config.default_temporal_column.name,
        ) {
            lemma_same_but_for_the_scan(
                *plan->Aggregate_input,
                extended_scan(scan, place as usize),
            );
            reveal_with_fuel(with_scan, 2);
        }
    }
}

proof fn lemma_same_as_itself(plan: PlanView)
    ensures
        same_but_scanned_columns(plan, plan),
    decreases plan,
{
    match plan {
        PlanView::Aggregate { input, .. } => lemma_same_as_itself(*input),
        PlanView::Filter { input, .. } => lemma_same_as_itself(*input),
        PlanView::Projection { input, .. } => lemma_same_as_itself(*input),
        _ => {},
    }
}

/// A plan is the same with another scan of the same table.
proof fn lemma_same_but_for_the_scan(plan: PlanView, scan: ScanView)
    requires
        scan_below(plan) matches Some(before) && before.node == scan.node && before.source_fields
            == scan.source_fields && before.filters == scan.filters,
    ensures
        same_but_scanned_columns(plan, with_scan(plan, scan)),
    decreases plan,
{
    match plan {
        PlanView::Filter { input, .. } => lemma_same_but_for_the_scan(*input, scan),
        PlanView::Projection { input, .. } => lemma_same_but_for_the_scan(*input, scan),
        _ => {},
    }
}

/// No filter in the input of a cached aggregation depends on more than the row, and the interval of
/// a cached aggregation is never empty.
pub proof fn law_cached_filters_are_fixed(config: ConfigView, plan: PlanView)
    requires
        decide(config, plan) is Cache,
    ensures
        filters_are_fixed(*plan->Aggregate_input),
        decide(config, plan)->Cache_0.interval matches Some(interval) ==> interval.proper(),
{
}

/// The temporal column that a query is cached by.
pub open spec fn query_column(config: ConfigView, plan: PlanView) -> ColumnView {
    temporal_column_of(config, temporal_group_bys(config, plan->group_expr))
}

/// The interval of a cached query, where it has one, is that of the bounds in its filter, as far as
/// the filters of its scan admit it.
pub open spec fn has_interval_of_its_bounds(
    interval: Option<TimeInterval>,
    config: ConfigView,
    plan: PlanView,
) -> bool {
    let input = *plan->Aggregate_input;
    let columns = set![query_column(config, plan)];
    interval matches Some(interval) ==> interval == all_narrowed(
        match filter_interval(input, columns) {
            StaticInterval::Found(found) => found,
            _ => all_time(),
        },
        scan_filters(input),
        columns,
    )
}

/// The temporal columns, with the one that a query is cached by.
pub open spec fn temporal_columns_of(config: ConfigView, plan: PlanView) -> Set<ColumnView> {
    config.temporal_columns.insert(query_column(config, plan))
}

/// The queries are the same but for the constants that their filters, those of the scans among
/// them, bound temporal columns by.
pub open spec fn same_query_but_bounds(
    config: ConfigView,
    first: PlanView,
    second: PlanView,
) -> bool {
    match (first, second) {
        (
            PlanView::Aggregate { input, group_expr, aggr_expr },
            PlanView::Aggregate { input: input2, group_expr: group_expr2, aggr_expr: aggr_expr2 },
        ) => {
            &&& group_expr == group_expr2
            &&& aggr_expr == aggr_expr2
            &&& same_below_but_bounds(*input, *input2, temporal_columns_of(config, first))
        },
        _ => false,
    }
}

/// The query is cached with an interval, which carries its bounds, or has no bounds.
pub open spec fn bounds_are_carried(config: ConfigView, plan: PlanView) -> bool {
    ||| decide(config, plan)->Cache_0.interval is Some
    ||| !holds_bound(*plan->Aggregate_input, temporal_columns_of(config, plan))
}

/// Bounds do not show in the key: queries that differ only in the constants that bound temporal
/// columns are cached by the same column and keyed by the same plan, while the interval of each is
/// that of its own bounds. This leaves out filters under projections that mix bounds with conditions
/// for which no interval is found: no interval carries their bounds.
pub proof fn law_key_ignores_bounds(config: ConfigView, first: PlanView, second: PlanView)
    requires
        same_query_but_bounds(config, first, second),
        decide(config, first) is Cache,
        decide(config, second) is Cache,
        *first->Aggregate_input is Filter || bounds_are_carried(config, first),
        *second->Aggregate_input is Filter || bounds_are_carried(config, second),
    ensures
        decide(config, first)->Cache_0.keyed == decide(config, second)->Cache_0.keyed,
        decide(config, first)->Cache_0.temporal_column == decide(
            config,
            second,
        )->Cache_0.temporal_column,
        has_interval_of_its_bounds(decide(config, first)->Cache_0.interval, config, first),
        has_interval_of_its_bounds(decide(config, second)->Cache_0.interval, config, second),
{
    let column = query_column(config, first);
    let columns = temporal_columns_of(config, first);
    let input = *first->Aggregate_input;
    let input2 = *second->Aggregate_input;
    if input is Filter {
        law_bounds_of_direct_filters_are_carried(config, first);
    }
    if input2 is Filter {
        law_bounds_of_direct_filters_are_carried(config, second);
    }
    lemma_bounds_are_shared_below(input, input2, columns);
    if decide(config, first)->Cache_0.interval is Some {
        lemma_intervals_need_bounds(input, column, columns);
    }
    if decide(config, second)->Cache_0.interval is Some {
        lemma_intervals_need_bounds(input2, column, columns);
    }
    if holds_bound(input, columns) {
        assert(columns.remove(column) =~= config.temporal_columns.remove(column));
        lemma_only_one_column_is_bounded_below(input, input2, columns, column);
        law_carried_bounds_do_not_show_below(input, input2, set![column]);
    }
}

/// A query that is cached with an interval holds a bound of its temporal column.
proof fn lemma_intervals_need_bounds(
    input: PlanView,
    column: ColumnView,
    columns: Set<ColumnView>,
)
    requires
        filter_interval(input, set![column]) is Found || any_has_bound(
            scan_filters(input),
            set![column],
        ),
        columns.contains(column),
    ensures
        holds_bound(input, columns),
{
    if filter_interval(input, set![column]) is Found {
        lemma_interval_needs_a_bound(filter_below(input)->0, column, columns);
    } else {
        let filters = scan_filters(input);
        let i = choose|i: int|
            0 <= i < filters.len() && has_bound(#[trigger] filters[i], set![column]);
        lemma_more_columns_have_bounds(filters[i], column, columns);
    }
}

/// Where the filter of a cached query stands directly under the aggregation, or there is none, the
/// interval of the query carries all its bounds.
pub proof fn law_bounds_of_direct_filters_are_carried(config: ConfigView, plan: PlanView)
    requires
        decide(config, plan) is Cache,
        *plan->Aggregate_input is Filter || filter_below(*plan->Aggregate_input) is None,
    ensures
        bounds_are_carried(config, plan),
{
    let input = *plan->Aggregate_input;
    let column = query_column(config, plan);
    let columns = temporal_columns_of(config, plan);
    if decide(config, plan)->Cache_0.interval is None {
        assert(columns.remove(column) =~= config.temporal_columns.remove(column));
        if let Some(e) = filter_below(input) {
            lemma_stable_filters_hold_no_bound(e, column);
            lemma_no_column_is_bounded(e, column, columns);
        }
        let filters = scan_filters(input);
        assert forall|i: int| 0 <= i < filters.len() implies !has_bound(
            #[trigger] filters[i],
            columns,
        ) by {
            lemma_no_column_is_bounded(filters[i], column, columns);
        }
    }
}

/// Nothing but bounds is left out of the key: queries with an interval that are keyed by the same
/// plan differ only in the constants that bound their temporal column. This leaves out filters that
/// compare the column with the text that stands in for a bound.
pub proof fn law_key_keeps_all_but_bounds(config: ConfigView, first: PlanView, second: PlanView)
    requires
        decide(config, first) is Cache,
        decide(config, second) is Cache,
        decide(config, first)->Cache_0.interval is Some,
        decide(config, second)->Cache_0.interval is Some,
        decide(config, first)->Cache_0.keyed == decide(config, second)->Cache_0.keyed,
        is_free_of_placeholders(*first->Aggregate_input, set![query_column(config, first)]),
        is_free_of_placeholders(*second->Aggregate_input, set![query_column(config, second)]),
    ensures
        first->group_expr == second->group_expr,
        first->aggr_expr == second->aggr_expr,
        same_below_but_bounds(
            *first->Aggregate_input,
            *second->Aggregate_input,
            set![query_column(config, first)],
        ),
{
    law_key_keeps_all_but_bounds_below(
        *first->Aggregate_input,
        *second->Aggregate_input,
        set![query_column(config, first)],
    );
}

/// With printers that print equal plans alike, one plan has one key.
pub proof fn law_one_plan_has_one_key<
    D: Fn(&LogicalPlan) -> String,
    D2: Fn(&LogicalPlan) -> String,
>(keyed: PlanView, display: D, display2: D2, key: Seq<char>, key2: Seq<char>)
    requires
        print_alike(display, display2),
        is_key_of(key, keyed, display),
        is_key_of(key2, keyed, display2),
    ensures
        key == key2,
{
}

/// Queries that differ only in the constants that bound temporal columns share one cache key, while
/// the interval of each is that of its own bounds. Each query may have a printer of its own, as
/// long as the two print equal plans alike. This leaves out the same filters under projections.
pub proof fn law_queries_with_other_bounds_share_a_key<
    D: Fn(&LogicalPlan) -> String,
    D2: Fn(&LogicalPlan) -> String,
>(
    config: ConfigView,
    first: PlanView,
    second: PlanView,
    display: D,
    display2: D2,
    rewrite: Rewrite,
    rewrite2: Rewrite,
)
    requires
        print_alike(display, display2),
        same_query_but_bounds(config, first, second),
        decide(config, first) is Cache,
        decide(config, second) is Cache,
        *first->Aggregate_input is Filter || bounds_are_carried(config, first),
        *second->Aggregate_input is Filter || bounds_are_carried(config, second),
        carries_out(rewrite, decide(config, first), display),
        carries_out(rewrite2, decide(config, second), display2),
    ensures
        rewrite->Transformed_0@.fingerprint == rewrite2->Transformed_0@.fingerprint,
        rewrite->Transformed_0@.temporal_column == rewrite2->Transformed_0@.temporal_column,
        has_interval_of_its_bounds(rewrite->Transformed_0@.interval, config, first),
        has_interval_of_its_bounds(rewrite2->Transformed_0@.interval, config, second),
{
    law_key_ignores_bounds(config, first, second);
    law_one_plan_has_one_key(
        decide(config, first)->Cache_0.keyed,
        display,
        display2,
        rewrite->Transformed_0@.fingerprint,
        rewrite2->Transformed_0@.fingerprint,
    );
}

/// What each of the columns is named.
pub open spec fn column_views(columns: Seq<Column>) -> Seq<ColumnView> {
    Seq::new(columns.len(), |i: int| columns[i]@)
}

/// A group by expression uses a temporal column where it is an allowed function whose second
/// argument is an allowed column, and that column is the one.
pub proof fn law_which_group_bys_are_temporal(
    config: ConfigView,
    name: Seq<char>,
    func: u64,
    immutable: bool,
    args: Seq<ExprView>,
    e: ExprView,
    column: ColumnView,
)
    ensures
        temporal_group_by(config, (ExprView::Function { name, func, immutable, args })) == Some(
            column,
        ) <==> config.group_by_functions.contains(name) && args.len() >= 2 && args[1]
            == ExprView::Column(column) && config.temporal_columns.contains(column),
        e !is Function ==> temporal_group_by(config, e) is None,
        RULE_NAME@ == "query-cache-agg-group-by"@,
{
}

/// The temporal columns of group by expressions are listed once for each expression that uses one,
/// in the order of the expressions. The first of them, or else the default one, is the column that
/// the query is cached by.
pub proof fn law_temporal_columns_of_group_bys(
    config: ConfigView,
    exprs: Seq<ExprView>,
    e: ExprView,
    columns: Seq<ColumnView>,
)
    ensures
        temporal_group_bys(config, Seq::<ExprView>::empty()) == Seq::<ColumnView>::empty(),
        temporal_group_by(config, e) is None ==> temporal_group_bys(config, exprs.push(e))
            == temporal_group_bys(config, exprs),
        temporal_group_by(config, e) matches Some(column) ==> temporal_group_bys(
            config,
            exprs.push(e),
        ) == temporal_group_bys(config, exprs).push(column),
        columns.len() == 0 ==> temporal_column_of(config, columns)
            == config.default_temporal_column,
        columns.len() > 0 ==> temporal_column_of(config, columns) == columns[0],
{
    assert(exprs.push(e).drop_last() =~= exprs);
}

/// Which filters let an aggregation be cached. All bounds have to fit, no filter may depend on more
/// than the row, and none may bound another temporal column. The aggregation is then cached within
/// the interval of its filter, or within all time where only the scan bounds the column, as far as
/// the filters of the scan admit it and anything is left. Where nothing bounds the column, or no
/// interval is found under a projection, it is cached as it stands or not at all.
pub proof fn law_which_filters_allow_caching(
    input: PlanView,
    column: ColumnView,
    temporal_columns: Set<ColumnView>,
)
    ensures
        ({
            let judgement = judged(input, column, temporal_columns);
            let own = Set::<ColumnView>::empty().insert(column);
            let filter = filter_below(input);
            let fits = filter is Some ==> bounds_fit(filter->0, own);
            let fixed = filters_are_fixed(input);
            let other = holds_bound(input, temporal_columns.remove(column));
            let found = if filter is Some {
                static_interval(filter->0, own)
            } else {
                StaticInterval::Stable
            };
            let scanned = exists|i: int|
                0 <= i < scan_filters(input).len() && has_bound(
                    #[trigger] scan_filters(input)[i],
                    own,
                );
            let asked = if found is Found {
                found->0
            } else {
                TimeInterval { start_ns: i64::MIN, end_ns: i64::MAX }
            };
            let narrow = all_narrowed(asked, scan_filters(input), own);
            let open = fits && fixed && !other;
            &&& judgement is OutOfRange <==> !fits
            &&& fits && !fixed ==> judgement == Judgement::No(Skip::UnstableExpression)
            &&& judgement == Judgement::No(Skip::OtherTemporalColumn) <==> fits && fixed && other
            &&& judgement is Within || judgement == Judgement::No(Skip::EmptyInterval) <==> open
                && (found is Found || (found is Stable && scanned))
            &&& judgement is Within <==> open && (found is Found || (found is Stable && scanned))
                && narrow.start_ns < narrow.end_ns
            &&& judgement matches Judgement::Within(interval) ==> interval == narrow
            &&& judgement is Whole <==> open && ((found is Stable && !scanned && (filter is None
                || input is Filter)) || (found is Abandon && input !is Filter && has_bound(
                filter->0,
                own,
            )))
            &&& judgement == Judgement::No(Skip::NoTemporalBound) <==> open && found is Stable
                && !scanned && filter is Some && input !is Filter
            &&& open && found is Abandon && (input is Filter || !has_bound(filter->0, own))
                ==> judgement == Judgement::No(Skip::UnstableExpression)
        }),
{
    assert(set![column] =~= Set::<ColumnView>::empty().insert(column));
}

/// Every row that the filters of a query keep has an instant in the interval that the query is
/// cached within. `t` is that instant, `rest` says which other conditions the row meets.
pub proof fn law_kept_rows_lie_in_the_interval(
    input: PlanView,
    column: ColumnView,
    temporal_columns: Set<ColumnView>,
    interval: TimeInterval,
    t: int,
    rest: spec_fn(ExprView) -> bool,
)
    requires
        judged(input, column, temporal_columns) == Judgement::Within(interval),
        i64::MIN <= t < i64::MAX,
        filter_below(input) matches Some(filter) ==> keeps(filter, set![column], t, rest),
        forall|i: int|
            0 <= i < scan_filters(input).len() ==> keeps(
                #[trigger] scan_filters(input)[i],
                set![column],
                t,
                rest,
            ),
    ensures
        interval.start_ns <= t < interval.end_ns,
{
    let columns = set![column];
    let filters = scan_filters(input);
    assert forall|i: int| 0 <= i < filters.len() implies meets_bounds(
        #[trigger] filters[i],
        columns,
        t,
    ) by {
        lemma_kept_rows_meet_the_bounds(filters[i], columns, t, rest);
    }
    match filter_interval(input, columns) {
        StaticInterval::Found(found) => {
            law_interval_holds_what_the_filter_keeps(
                filter_below(input)->0,
                columns,
                found,
                t,
                rest,
            );
            law_narrowing_by_all_is_exact(found, filters, columns, t);
        },
        _ => {
            law_narrowing_by_all_is_exact(all_time(), filters, columns, t);
        },
    }
}

/// What is decided on a plan, from what its filters say. Only aggregations are cached, with at most
/// one temporal group by. One without scans the default temporal column: as it is where it does so
/// already, and else with the first field of that name in the table added to its scan.
pub proof fn law_which_aggregations_are_cached(
    config: ConfigView,
    input: PlanView,
    group_expr: Seq<ExprView>,
    aggr_expr: Seq<ExprView>,
    other: PlanView,
)
    ensures
        other !is Aggregate ==> decide(config, other) == Decision::Unchanged(Skip::NotAggregate),
        ({
            let plan = PlanView::Aggregate { input: Box::new(input), group_expr, aggr_expr };
            let decision = decide(config, plan);
            let used = temporal_group_bys(config, group_expr);
            let column = if used.len() > 0 {
                used[0]
            } else {
                config.default_temporal_column
            };
            let judgement = judged(input, column, config.temporal_columns);
            let name = config.default_temporal_column.name;
            let scan = scan_below(input)->0;
            let kept = judgement is Within || judgement is Whole;
            let lacks = used.len() == 0 && scan_below(input) is Some
                && !scan.projected_fields.contains(name);
            &&& used.len() > 1 ==> decision == Decision::Unchanged(Skip::SeveralTemporalGroupBys)
            &&& used.len() <= 1 ==> {
                &&& judgement matches Judgement::No(skip) ==> decision == Decision::Unchanged(skip)
                &&& judgement is OutOfRange ==> decision is BoundsOutOfRange
                &&& kept && used.len() == 0 && scan_below(input) is None ==> decision
                    == Decision::Unchanged(Skip::NotATableScan)
                &&& kept && lacks && !scan.source_fields.contains(name) ==> decision
                    == Decision::Unchanged(Skip::ColumnNotInTable)
                &&& decision is Cache <==> kept && (used.len() == 1 || (scan_below(input) is Some
                    && (scan.projected_fields.contains(name) || scan.source_fields.contains(
                    name,
                ))))
                &&& decision is Cache && !lacks ==> decision->Cache_0.input == plan
                &&& decision is Cache && lacks ==> exists|place: int|
                    {
                        &&& 0 <= place < scan.source_fields.len()
                        &&& scan.source_fields[place] == name
                        &&& forall|i: int|
                            0 <= i < place ==> #[trigger] scan.source_fields[i] != name
                        &&& decision->Cache_0.input == with_scan(
                            plan,
                            #[trigger] extended_scan(scan, place as usize),
                        )
                    }
                &&& decision is Cache ==> decision->Cache_0.temporal_column == column
                &&& decision is Cache ==> decision->Cache_0.interval == if judgement is Within {
                    Some(judgement->Within_0)
                } else {
                    None
                }
            }
        }),
{
    let scan = scan_below(input)->0;
    let name = config.default_temporal_column.name;
    scan.source_fields.index_of_first_ensures(name);
    if let Some(place) = scan.source_fields.index_of_first(name) {
        assert(scan.source_fields[place] == name);
        assert(extended_scan(scan, place as usize) == extended_scan(scan, place as usize));
    }
}

/// A query that is cached as it stands is keyed as it stands: with its groups, its aggregates and
/// every filter. So two of them that are keyed alike are the same query.
pub proof fn law_whole_queries_are_keyed_as_they_stand(
    config: ConfigView,
    first: PlanView,
    second: PlanView,
)
    requires
        decide(config, first) is Cache,
        decide(config, second) is Cache,
        decide(config, first)->Cache_0.interval is None,
        decide(config, second)->Cache_0.interval is None,
    ensures
        decide(config, first)->Cache_0.keyed == first,
        decide(config, first)->Cache_0.keyed == decide(config, second)->Cache_0.keyed <==> first
            == second,
{
}

/// Queries that are keyed alike have the same groups and the same aggregates, with an interval or
/// without.
pub proof fn law_keys_tell_groups_and_aggregates_apart(
    config: ConfigView,
    first: PlanView,
    second: PlanView,
)
    requires
        decide(config, first) is Cache,
        decide(config, second) is Cache,
        decide(config, first)->Cache_0.keyed == decide(config, second)->Cache_0.keyed,
    ensures
        first->group_expr == second->group_expr,
        first->aggr_expr == second->aggr_expr,
        decide(config, first)->Cache_0.temporal_column == decide(
            config,
            second,
        )->Cache_0.temporal_column,
{
}

/// A query that is cached within an interval is keyed with the same groups and aggregates over its
/// input without the bounds of the column that it is cached by.
pub proof fn law_queries_in_intervals_are_keyed_without_bounds(config: ConfigView, plan: PlanView)
    requires
        decide(config, plan) is Cache,
        decide(config, plan)->Cache_0.interval is Some,
    ensures
        decide(config, plan)->Cache_0.keyed == (PlanView::Aggregate {
            input: Box::new(
                blanked_below(
                    *plan->Aggregate_input,
                    Set::<ColumnView>::empty().insert(
                        decide(config, plan)->Cache_0.temporal_column,
                    ),
                ),
            ),
            group_expr: plan->group_expr,
            aggr_expr: plan->aggr_expr,
        }),
{
    let column = decide(config, plan)->Cache_0.temporal_column;
    assert(set![column] =~= Set::<ColumnView>::empty().insert(column));
}

/// A rewrite does what was decided: it leaves the plan, reports the bounds, or wraps the decided
/// input with the decided column and interval, under the key of the text that the printer gives for
/// the keyed plan.
pub proof fn law_rewrites_do_what_was_decided<D: Fn(&LogicalPlan) -> String>(
    rewrite: Rewrite,
    decision: Decision,
    display: D,
)
    requires
        carries_out(rewrite, decision, display),
    ensures
        decision matches Decision::Unchanged(skip) ==> rewrite == Rewrite::Unchanged(skip),
        decision is BoundsOutOfRange <==> rewrite is BoundsOutOfRange,
        decision is Cache <==> rewrite is Transformed,
        decision matches Decision::Cache(cached) ==> {
            let node = rewrite->Transformed_0@;
            &&& node.input == cached.input
            &&& node.temporal_column == cached.temporal_column
            &&& node.interval == cached.interval
            &&& exists|plan: LogicalPlan, printed: String|
                plan@ == cached.keyed && #[trigger] call_ensures(display, (&plan,), printed)
                    && node.fingerprint == printed_key(printed@)
        },
{
    if let Decision::Cache(cached) = decision {
        let node = rewrite->Transformed_0@;
        let (plan, text) = choose|plan: LogicalPlan, text: Seq<char>|
            plan@ == cached.keyed && #[trigger] prints_as(display, plan, text) && node.fingerprint
                == printed_key(text);
        let printed = choose|printed: String| #[trigger]
            call_ensures(display, (&plan,), printed) && printed@ == text;
        assert(call_ensures(display, (&plan,), printed));
    }
}

/// Columns are listed as they are named.
pub proof fn law_columns_are_listed_in_order(columns: Seq<Column>)
    ensures
        column_views(columns).len() == columns.len(),
        forall|i: int| 0 <= i < columns.len() ==> #[trigger] column_views(columns)[i] == columns[i]@,
{
}

} // verus!
