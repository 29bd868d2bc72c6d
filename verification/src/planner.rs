//! From the cached aggregation of a logical plan to a physical plan.

use std::sync::Arc;

use vstd::prelude::*;

use crate::bounds::{
    bounded, bounded_rows, law_condition_reads_the_column, plan_to_filter, with_interval_bounds,
};
use crate::column::{Column, ColumnSet, ColumnView};
use crate::config::{ConfigView, QueryCacheConfig};
use crate::coverage::{
    law_plan_covers_the_request, law_repeated_request_computes_nothing,
    law_selected_entries_cover_the_choice, stores_the_gaps,
};
use crate::error::PlanError;
use crate::exec::{
    coalesced, exec_view, execs_view, CacheUpdateAggregateExec, CachedAggregateExec, ExecView,
    ExecutionPlan,
};
use crate::gaps::{apart, compute_gaps, covered_at, gaps, relevant};
use crate::interval::TimeInterval;
use crate::physical::{
    find_existing_inner_exec, has_inner_exec, is_named_truly, lemma_one_has_inner_exec,
    AggregateMode, FieldView, PhysicalPlan, PhysicalView,
};
use crate::plan::{LogicalPlan, NodeView, PlanView, QCAggregatePlanNode};
use crate::selection::{
    chosen, covered, law_selection_exists, select_maximal_cached_intervals, selected_entries,
    selection, OccupiedIntervalCacheEntry,
};
use crate::static_interval::{bounds_fit, static_interval, StaticInterval};

verus! {

/// The bounds of the first filter under aggregations and projections fit in an `i64`.
pub open spec fn plan_bounds_fit(plan: PlanView, temporal_column: ColumnView) -> bool
    decreases plan,
{
    match plan {
        PlanView::Aggregate { input, .. } => plan_bounds_fit(*input, temporal_column),
        PlanView::Projection { input, .. } => plan_bounds_fit(*input, temporal_column),
        PlanView::Filter { predicate, .. } => bounds_fit(predicate, set![temporal_column]),
        _ => true,
    }
}

/// The interval that the first filter under aggregations and projections fixes.
pub open spec fn interval_in_plan(plan: PlanView, temporal_column: ColumnView) -> Option<
    TimeInterval,
>
    decreases plan,
{
    match plan {
        PlanView::Aggregate { input, .. } => interval_in_plan(*input, temporal_column),
        PlanView::Projection { input, .. } => interval_in_plan(*input, temporal_column),
        PlanView::Filter { predicate, .. } => match static_interval(
            predicate,
            set![temporal_column],
        ) {
            StaticInterval::Found(interval) => Some(interval),
            _ => None,
        },
        _ => None,
    }
}

/// The interval that a cached aggregation asks for: its own, else the one that its plan fixes,
/// else all time.
pub open spec fn asked_interval(node: NodeView) -> TimeInterval {
    match node.interval {
        Some(interval) => interval,
        None => match interval_in_plan(node.input, node.temporal_column) {
            Some(interval) => interval,
            None => TimeInterval { start_ns: i64::MIN, end_ns: i64::MAX },
        },
    }
}

/// The interval that a cached aggregation asks for can be written down.
pub open spec fn asked_interval_fits(node: NodeView) -> bool {
    node.interval is Some || plan_bounds_fit(node.input, node.temporal_column)
}

/// Extract interval from a logical plan's filter predicate if available.
pub fn extract_interval_from_logical_plan(
    plan: &LogicalPlan,
    temporal_column: &Column,
) -> (interval: Option<TimeInterval>)
    requires
        plan_bounds_fit(plan@, temporal_column@),
    ensures
        interval == interval_in_plan(plan@, temporal_column@),
    decreases plan,
{
    match plan {
        LogicalPlan::Aggregate(agg) => extract_interval_from_logical_plan(
            &agg.input,
            temporal_column,
        ),
        LogicalPlan::Filter(filter) => {
            let temporal_columns = ColumnSet::of(temporal_column.clone());
            match StaticInterval::find(&filter.predicate, &temporal_columns) {
                StaticInterval::Found(interval) => Some(interval),
                _ => None,
            }
        },
        LogicalPlan::Projection(projection) => extract_interval_from_logical_plan(
            &projection.input,
            temporal_column,
        ),
        _ => None,
    }
}

/// Whether the bounds that `extract_interval_from_logical_plan` reads fit in an `i64`.
pub fn bounds_in_plan_fit(plan: &LogicalPlan, temporal_column: &Column) -> (fit: bool)
    ensures
        fit == plan_bounds_fit(plan@, temporal_column@),
    decreases plan,
{
    match plan {
        LogicalPlan::Aggregate(agg) => bounds_in_plan_fit(&agg.input, temporal_column),
        LogicalPlan::Filter(filter) => {
            let temporal_columns = ColumnSet::of(temporal_column.clone());
            StaticInterval::bounds_fit(&filter.predicate, &temporal_columns)
        },
        LogicalPlan::Projection(projection) => bounds_in_plan_fit(
            &projection.input,
            temporal_column,
        ),
        _ => true,
    }
}

/// The interval that a cached aggregation asks for, where its bounds fit in an `i64`.
pub fn requested_interval(node: &QCAggregatePlanNode) -> (interval: Option<TimeInterval>)
    ensures
        match interval {
            Some(interval) => asked_interval_fits(node@) && interval == asked_interval(node@),
            None => !asked_interval_fits(node@),
        },
{
    if let Some(interval) = node.interval {
        return Some(interval);
    }
    if !bounds_in_plan_fit(&node.input, &node.temporal_column) {
        return None;
    }
    match extract_interval_from_logical_plan(&node.input, &node.temporal_column) {
        Some(interval) => Some(interval),
        None => Some(TimeInterval::new(i64::MIN, i64::MAX)),
    }
}

/// What is to be done for an extension node.
#[derive(Debug, Clone, Copy, PartialEq, Eq, Structural)]
pub enum Step {
    /// Nothing: the node is not a cached aggregation.
    NotOurs,
    /// Take the physical input as it is.
    Reuse,
    /// A bound of the filter does not fit in 64 bits of nanoseconds.
    BoundsOutOfRange,
    /// Look up what the cache has for the interval, which holds at least one instant.
    Lookup(TimeInterval),
}

/// What is to be done for an extension node and its physical inputs.
pub open spec fn first_step(
    node: Option<NodeView>,
    physical_inputs: Seq<PhysicalView>,
) -> Result<Step, PlanError> {
    match node {
        None => Ok(Step::NotOurs),
        Some(node) => if physical_inputs.len() != 1 {
            Err(PlanError::ExpectedOnePhysicalInput)
        } else if has_inner_exec(physical_inputs[0]) || physical_inputs[0] !is Aggregate {
            Ok(Step::Reuse)
        } else if !asked_interval_fits(node) {
            Ok(Step::BoundsOutOfRange)
        } else if !asked_interval(node).proper() {
            Ok(Step::Reuse)
        } else {
            Ok(Step::Lookup(asked_interval(node)))
        },
    }
}

/// What each of the plans is.
pub open spec fn physicals_view(plans: Seq<PhysicalPlan>) -> Seq<PhysicalView> {
    Seq::new(plans.len(), |i: int| plans[i]@)
}

/// What an optional node says.
pub open spec fn node_view(node: Option<&QCAggregatePlanNode>) -> Option<NodeView> {
    match node {
        Some(node) => Some(node@),
        None => None,
    }
}

/// The plans that read the selected cache entries in the place of `partial`.
pub open spec fn readers<E: OccupiedIntervalCacheEntry>(
    selected: Seq<E>,
    partial: PhysicalView,
) -> Seq<ExecView<E>> {
    Seq::new(
        selected.len(),
        |i: int| ExecView::Cached { cache_entry: selected[i], like: partial.node() },
    )
}

/// The plan that computes `partial` over a gap and stores the result.
pub open spec fn gap_update<E>(
    node: NodeView,
    partial: PhysicalView,
    gap: TimeInterval,
    now: i64,
) -> ExecView<E> {
    ExecView::CacheUpdate {
        fingerprint: node.fingerprint,
        interval: gap,
        input: Box::new(coalesced(bounded::<E>(partial, node.temporal_column, gap)->Ok_0)),
        now,
    }
}

/// The plans that compute `partial` over the gaps and store the results.
pub open spec fn gap_updates<E>(
    node: NodeView,
    partial: PhysicalView,
    uncovered: Seq<TimeInterval>,
    now: i64,
) -> Seq<ExecView<E>> {
    Seq::new(uncovered.len(), |i: int| gap_update::<E>(node, partial, uncovered[i], now))
}

/// One plan that gives the rows of all the pieces.
pub open spec fn joined<E>(pieces: Seq<ExecView<E>>) -> ExecView<E> {
    if pieces.len() == 1 {
        pieces[0]
    } else {
        ExecView::CoalescePartitions(Box::new(ExecView::Union(pieces)))
    }
}

/// The pieces that the aggregation `exec` is made of: what the cache has, longest first, then the
/// gaps in the order of time.
pub open spec fn plan_pieces<E: OccupiedIntervalCacheEntry>(
    node: NodeView,
    exec: PhysicalView,
    requested: TimeInterval,
    entries: Seq<E>,
    now: i64,
) -> Seq<ExecView<E>> {
    let partial = *exec->Aggregate_input;
    let selected = selected_entries(entries);
    readers(selected, partial) + gap_updates::<E>(
        node,
        partial,
        gaps(requested, covered(selected)),
        now,
    )
}

/// The final aggregation over the pieces. The gaps need a timestamp column to be bounded by.
pub open spec fn planned<E: OccupiedIntervalCacheEntry>(
    node: NodeView,
    exec: PhysicalView,
    requested: TimeInterval,
    entries: Seq<E>,
    now: i64,
) -> Result<ExecView<E>, PlanError> {
    let partial = *exec->Aggregate_input;
    if gaps(requested, covered(selected_entries(entries))).len() > 0 && bounded_rows(
        plan_to_filter(partial),
        node.temporal_column.name,
    ) is None {
        Err(PlanError::TimestampColumnNotFound)
    } else {
        Ok(
            ExecView::Aggregate {
                like: exec.node(),
                mode: AggregateMode::Final,
                input: Box::new(joined(plan_pieces(node, exec, requested, entries, now))),
            },
        )
    }
}

/// A physical planner that knows how to convert a cached aggregation into a physical plan.
#[derive(Debug)]
pub struct QCAggregateExecPlanner<Log, C> {
    log: Log,
    config: Arc<QueryCacheConfig<C>>,
}

impl<Log, C> QCAggregateExecPlanner<Log, C> {
    /// The settings that the planner goes by.
    pub closed spec fn settings(&self) -> ConfigView {
        (*self.config)@
    }

    /// The cache that results are read from and stored in.
    pub closed spec fn the_cache(&self) -> C {
        self.config.the_cache()
    }

    /// Where the planner logs to.
    pub closed spec fn logs_to(&self) -> Log {
        self.log
    }

    pub fn new(log: Log, config: Arc<QueryCacheConfig<C>>) -> (planner: Self)
        ensures
            planner.settings() == (*config)@,
            planner.the_cache() == config.the_cache(),
            planner.logs_to() == log,
    {
        Self { log, config }
    }

    /// Where the planner logs to.
    pub fn log(&self) -> (log: &Log)
        ensures
            *log == self.logs_to(),
    {
        &self.log
    }

    /// The cache that results are read from and stored in.
    pub fn cache(&self) -> (cache: &C)
        ensures
            *cache == self.the_cache(),
    {
        self.config.cache()
    }

    /// What was set for the current time.
    pub fn override_now(&self) -> (now: Option<i64>)
        ensures
            now == self.settings().override_now,
    {
        self.config.override_now()
    }

    /// The current time for a query that started at `query_start`, in nanoseconds since the epoch:
    /// the one that was set, where one was.
    pub fn now(&self, query_start: Option<i64>) -> (now: i64)
        requires
            self.settings().override_now is Some || query_start is Some,
        ensures
            now == match self.settings().override_now {
                Some(now) => now,
                None => query_start->0,
            },
    {
        self.config.now(query_start)
    }

    /// What is to be done for an extension node: `node` is the cached aggregation that it is, if
    /// it is one.
    pub fn begin(
        &self,
        node: Option<&QCAggregatePlanNode>,
        physical_inputs: &[PhysicalPlan],
    ) -> (step: Result<Step, PlanError>)
        requires
            node is Some && physical_inputs@.len() == 1 ==> is_named_truly(physical_inputs@[0]@),
        ensures
            step == first_step(node_view(node), physicals_view(physical_inputs@)),
    {
        let agg_node = match node {
            Some(agg_node) => agg_node,
            None => {
                return Ok(Step::NotOurs);
            },
        };
        if physical_inputs.len() != 1 {
            return Err(PlanError::ExpectedOnePhysicalInput);
        }
        let exec = &physical_inputs[0];
        assert(physicals_view(physical_inputs@)[0] == exec@);
        if find_existing_inner_exec(exec) {
            // Already a cached aggregation, or contains one
            return Ok(Step::Reuse);
        }
        match exec {
            PhysicalPlan::Aggregate { .. } => {},
            _ => {
                return Ok(Step::Reuse);
            },
        }
        match requested_interval(agg_node) {
            Some(interval) => if interval.start_ns < interval.end_ns {
                Ok(Step::Lookup(interval))
            } else {
                // No instant is asked for, there is nothing to look up
                Ok(Step::Reuse)
            },
            None => Ok(Step::BoundsOutOfRange),
        }
    }

    /// The physical plan of a cached aggregation: what the cache has for the requested interval
    /// is read, the gaps are computed and stored, and the results are aggregated.
    pub fn plan_extension<'a, E: OccupiedIntervalCacheEntry>(
        &self,
        agg_node: &QCAggregatePlanNode,
        exec: &PhysicalPlan,
        requested: &TimeInterval,
        cached_intervals: &'a [E],
        now: i64,
    ) -> (plan: Result<ExecutionPlan<'a, E>, PlanError>)
        requires
            exec@ is Aggregate,
        ensures
            match planned(agg_node@, exec@, *requested, cached_intervals@, now) {
                Ok(view) => plan matches Ok(plan) && plan@ == view,
                Err(error) => plan == Err::<ExecutionPlan<'a, E>, PlanError>(error),
            },
    {
        let ghost partial = *exec@->Aggregate_input;
        let partial_agg_exec = match exec {
            PhysicalPlan::Aggregate { input, .. } => &**input,
            _ => exec,
        };
        assert(partial_agg_exec@ == partial);
        // Select maximal non-overlapping cached intervals by greedy algorithm
        let selected_cached = select_maximal_cached_intervals(cached_intervals, requested);
        let ghost selected = selected_entries(cached_intervals@);
        // Compute uncovered gaps
        let uncovered = compute_gaps(requested, selected_cached.as_slice());
        assert(uncovered@ == gaps(*requested, covered(selected)));
        let mut input_plans: Vec<ExecutionPlan<'a, E>> = Vec::new();
        // Add cached data readers
        let mut i: usize = 0;
        while i < selected_cached.len()
            invariant
                i <= selected_cached@.len(),
                partial_agg_exec@ == partial,
                selected == selected_cached@.unref(),
                input_plans@.len() == i,
                forall|j: int|
                    0 <= j < i ==> (#[trigger] input_plans@[j])@ == readers(selected, partial)[j],
            decreases selected_cached@.len() - i,
        {
            input_plans.push(
                CachedAggregateExec::new_exec_plan(selected_cached[i], partial_agg_exec.node()),
            );
            i = i + 1;
        }
        assert(execs_view(input_plans@) =~= readers(selected, partial));
        // Add gap computation plans, which update the cache
        let ghost read = execs_view(input_plans@);
        let ghost updates = gap_updates::<E>(agg_node@, partial, uncovered@, now);
        let mut k: usize = 0;
        assert(read + updates.take(0) =~= read);
        while k < uncovered.len()
            invariant
                k <= uncovered@.len(),
                partial_agg_exec@ == partial,
                updates == gap_updates::<E>(agg_node@, partial, uncovered@, now),
                execs_view(input_plans@) == read + updates.take(k as int),
                k > 0 ==> bounded_rows(
                    plan_to_filter(partial),
                    agg_node@.temporal_column.name,
                ) is Some,
                planned(agg_node@, exec@, *requested, cached_intervals@, now) == if uncovered@.len()
                    > 0 && bounded_rows(
                    plan_to_filter(partial),
                    agg_node@.temporal_column.name,
                ) is None {
                    Err(PlanError::TimestampColumnNotFound)
                } else {
                    Ok(
                        ExecView::Aggregate {
                            like: exec@.node(),
                            mode: AggregateMode::Final,
                            input: Box::new(joined(read + updates)),
                        },
                    )
                },
            decreases uncovered@.len() - k,
        {
            let gap = &uncovered[k];
            proof {
                law_condition_reads_the_column::<E>(partial, agg_node@.temporal_column, *gap);
            }
            let gap_exec = match with_interval_bounds(
                partial_agg_exec,
                &agg_node.temporal_column,
                gap,
            ) {
                Ok(gap_exec) => gap_exec,
                Err(error) => {
                    return Err(error);
                },
            };
            let ghost before = execs_view(input_plans@);
            let update = CacheUpdateAggregateExec::new_exec_plan(
                agg_node.fingerprint.as_str(),
                gap,
                gap_exec,
                now,
            );
            input_plans.push(update);
            proof {
                assert(update@ == updates[k as int]);
                assert(execs_view(input_plans@) =~= before.push(update@));
                assert(read + updates.take(k + 1) =~= (read + updates.take(k as int)).push(
                    updates[k as int],
                ));
            }
            k = k + 1;
        }
        assert(updates.take(k as int) =~= updates);
        let ghost pieces = execs_view(input_plans@);
        proof {
            reveal_with_fuel(exec_view, 4);
        }
        let input_exec = if input_plans.len() == 1 {
            let mut input_plans = input_plans;
            assert(pieces[0] == input_plans@[0]@);
            input_plans.remove(0)
        } else {
            let union = ExecutionPlan::Union(input_plans);
            assert(union@->Union_0 =~= pieces);
            ExecutionPlan::CoalescePartitions(Box::new(union))
        };
        assert(input_exec@ == joined(pieces));
        Ok(
            ExecutionPlan::Aggregate {
                like: exec.node(),
                mode: AggregateMode::Final,
                input: Box::new(input_exec),
            },
        )
    }
}

/// The physical plan has the shape of a plan that the cache builds: down to unions, whose inputs
/// it has the names of.
pub open spec fn is_built_as<E>(plan: PhysicalView, built: ExecView<E>) -> bool
    decreases built,
{
    match built {
        ExecView::Aggregate { input, .. } => match plan {
            PhysicalView::Aggregate { input: below, .. } => is_built_as(*below, *input),
            _ => false,
        },
        ExecView::CoalescePartitions(input) => match plan {
            PhysicalView::CoalescePartitions { input: below, .. } => is_built_as(*below, *input),
            _ => false,
        },
        ExecView::Union(inputs) => match plan {
            PhysicalView::Other { name, children, .. } => {
                &&& name == built.name()
                &&& children.len() == inputs.len()
                &&& forall|i: int|
                    0 <= i < inputs.len() ==> (#[trigger] children[i]) is Other && children[i].name()
                        == inputs[i].name()
            },
            _ => false,
        },
        _ => plan is Other && plan.name() == built.name(),
    }
}

/// What the planner puts for a cached aggregation is recognised as one, so that planning it again
/// takes it as it is.
pub proof fn law_planned_aggregation_is_recognised<E: OccupiedIntervalCacheEntry>(
    node: NodeView,
    exec: PhysicalView,
    requested: TimeInterval,
    entries: Seq<E>,
    now: i64,
    plan: PhysicalView,
)
    requires
        planned(node, exec, requested, entries, now) is Ok,
        is_built_as(plan, planned(node, exec, requested, entries, now)->Ok_0),
    ensures
        has_inner_exec(plan),
        forall|later: NodeView| #[trigger]
            first_step(Some(later), seq![plan]) == Ok::<Step, PlanError>(Step::Reuse),
{
    reveal_with_fuel(is_built_as, 4);
    reveal_with_fuel(has_inner_exec, 4);
    let pieces = plan_pieces(node, exec, requested, entries, now);
    law_plan_is_never_empty(node, exec, requested, entries, now);
    assert(pieces[0] is Cached || pieces[0] is CacheUpdate);
    if pieces.len() > 1 {
        let union = *(*plan->Aggregate_input)->CoalescePartitions_input;
        assert(union->children[0].name() == pieces[0].name());
        lemma_one_has_inner_exec(union->children, 0);
    }
}

/// The interval that a piece of a plan covers.
pub open spec fn piece_interval<E: OccupiedIntervalCacheEntry>(piece: ExecView<E>) -> TimeInterval {
    match piece {
        ExecView::Cached { cache_entry, .. } => cache_entry.covers(),
        ExecView::CacheUpdate { interval, .. } => interval,
        _ => arbitrary(),
    }
}

/// The intervals that the pieces of a plan cover.
pub open spec fn piece_intervals<E: OccupiedIntervalCacheEntry>(pieces: Seq<ExecView<E>>) -> Seq<
    TimeInterval,
> {
    Seq::new(pieces.len(), |i: int| piece_interval(pieces[i]))
}

/// A plan is made of at least one piece, so that there is a plan to aggregate over.
pub proof fn law_plan_is_never_empty<E: OccupiedIntervalCacheEntry>(
    node: NodeView,
    exec: PhysicalView,
    requested: TimeInterval,
    entries: Seq<E>,
    now: i64,
)
    ensures
        plan_pieces(node, exec, requested, entries, now).len() > 0,
{
    let selected = selected_entries(entries);
    if selected.len() == 0 {
        assert(covered(selected) =~= Seq::<TimeInterval>::empty());
        assert(gaps(requested, covered(selected)).len() == 1);
    }
}

/// The pieces of a plan are the intervals that were chosen from the cache and the gaps that these
/// leave: no two of them overlap, and every requested instant lies in one of them.
pub proof fn law_pieces_cover_the_request<E: OccupiedIntervalCacheEntry>(
    node: NodeView,
    exec: PhysicalView,
    requested: TimeInterval,
    entries: Seq<E>,
    now: i64,
)
    requires
        requested.proper(),
        relevant(requested, covered(entries)),
    ensures
        piece_intervals(plan_pieces(node, exec, requested, entries, now)) == chosen(
            covered(entries),
        ) + gaps(requested, chosen(covered(entries))),
        apart(piece_intervals(plan_pieces(node, exec, requested, entries, now))),
        forall|t: int|
            requested.holds(t) ==> #[trigger] covered_at(
                piece_intervals(plan_pieces(node, exec, requested, entries, now)),
                t,
            ),
{
    law_selected_entries_cover_the_choice(entries);
    law_plan_covers_the_request(requested, covered(entries));
    let taken = chosen(covered(entries));
    let left = gaps(requested, taken);
    let intervals = piece_intervals(plan_pieces(node, exec, requested, entries, now));
    assert forall|i: int| 0 <= i < taken.len() implies taken[i] == selected_entries(
        entries,
    )[i].covers() by {
        assert(covered(selected_entries(entries))[i] == taken[i]);
    }
    assert(intervals =~= taken + left);
    assert forall|t: int| requested.holds(t) implies #[trigger] covered_at(intervals, t) by {
        assert(covered_at(left, t) <==> !covered_at(taken, t));
        if covered_at(taken, t) {
            let i = choose|i: int| 0 <= i < taken.len() && (#[trigger] taken[i]).holds(t);
            assert(intervals[i].holds(t));
        } else {
            let i = choose|i: int| 0 <= i < left.len() && (#[trigger] left[i]).holds(t);
            assert(intervals[taken.len() + i].holds(t));
        }
    }
}

/// Once the gaps of a request are in the cache, the plan of the same request only reads.
pub proof fn law_repeated_plan_only_reads<E: OccupiedIntervalCacheEntry>(
    node: NodeView,
    exec: PhysicalView,
    requested: TimeInterval,
    entries: Seq<E>,
    stored: Seq<TimeInterval>,
    later_entries: Seq<E>,
    now: i64,
)
    requires
        requested.proper(),
        relevant(requested, covered(entries)),
        stores_the_gaps(requested, covered(entries), stored),
        covered(later_entries) == covered(entries) + stored,
    ensures
        planned(node, exec, requested, later_entries, now) is Ok,
        forall|i: int|
            0 <= i < plan_pieces(node, exec, requested, later_entries, now).len()
                ==> #[trigger] plan_pieces(
                node,
                exec,
                requested,
                later_entries,
                now,
            )[i] is Cached,
{
    law_repeated_request_computes_nothing(requested, covered(entries), stored);
    law_selected_entries_cover_the_choice(later_entries);
}

/// The plans that a plan takes its rows from, in their order: those that coalesced partitions and
/// unions put together.
pub open spec fn leaves<E>(plan: ExecView<E>) -> Seq<ExecView<E>>
    decreases plan,
{
    match plan {
        ExecView::CoalescePartitions(input) => leaves(*input),
        ExecView::Union(inputs) => all_leaves(inputs),
        _ => seq![plan],
    }
}

/// The plans that each of the plans takes its rows from, in their order.
pub open spec fn all_leaves<E>(plans: Seq<ExecView<E>>) -> Seq<ExecView<E>>
    decreases plans,
{
    if plans.len() == 0 {
        seq![]
    } else {
        all_leaves(plans.drop_last()) + leaves(plans[plans.len() - 1])
    }
}

proof fn lemma_leaves_of_pieces<E>(pieces: Seq<ExecView<E>>)
    requires
        forall|i: int|
            0 <= i < pieces.len() ==> (#[trigger] pieces[i]) is Cached || pieces[i] is CacheUpdate,
    ensures
        all_leaves(pieces) == pieces,
    decreases pieces.len(),
{
    if pieces.len() == 0 {
        assert(all_leaves(pieces) =~= pieces);
    } else {
        let before = pieces.drop_last();
        assert forall|i: int| 0 <= i < before.len() implies (#[trigger] before[i]) is Cached
            || before[i] is CacheUpdate by {
            assert(pieces[i] is Cached || pieces[i] is CacheUpdate);
        }
        lemma_leaves_of_pieces(before);
        let last = pieces[pieces.len() - 1];
        assert(last is Cached || last is CacheUpdate);
        assert(leaves(last) == seq![last]);
        assert(all_leaves(pieces) =~= pieces);
    }
}

/// The plan of a cached aggregation is its final aggregation over one reader for each entry that
/// was selected and one computation for each gap, all of them and each once. A reader stands in the
/// place of the partial aggregation. A computation is the partial aggregation bounded to its gap,
/// as one partition, and stores its result for the gap under the fingerprint of the query.
pub proof fn law_plan_reads_every_entry_and_computes_every_gap<E: OccupiedIntervalCacheEntry>(
    node: NodeView,
    handle: u64,
    fields: Seq<FieldView>,
    mode: AggregateMode,
    partial: PhysicalView,
    requested: TimeInterval,
    entries: Seq<E>,
    now: i64,
)
    ensures
        ({
            let exec = PhysicalView::Aggregate {
                node: handle,
                fields,
                mode,
                input: Box::new(partial),
            };
            let picked = selection(covered(entries));
            let taken = Seq::new(picked.len(), |k: int| entries[picked[k]].covers());
            let left = gaps(requested, taken);
            planned(node, exec, requested, entries, now) matches Ok(plan) ==> {
                &&& plan matches ExecView::Aggregate { like, mode: stage, input }
                &&& like == handle
                &&& stage == AggregateMode::Final
                &&& leaves(*input).len() == picked.len() + left.len()
                &&& forall|k: int|
                    0 <= k < picked.len() ==> #[trigger] leaves(*input)[k] == (ExecView::Cached {
                        cache_entry: entries[picked[k]],
                        like: partial.node(),
                    })
                &&& forall|k: int|
                    picked.len() <= k < picked.len() + left.len() ==> computes_the_gap(
                        #[trigger] leaves(*input)[k],
                        node,
                        partial,
                        left[k - picked.len()],
                        now,
                    )
            }
        }),
{
    let exec = PhysicalView::Aggregate { node: handle, fields, mode, input: Box::new(partial) };
    if planned(node, exec, requested, entries, now) is Ok {
        law_selection_exists(covered(entries));
        let pieces = plan_pieces(node, exec, requested, entries, now);
        let picked = selection(covered(entries));
        let taken = Seq::new(picked.len(), |k: int| entries[picked[k]].covers());
        assert(covered(selected_entries(entries)) =~= taken);
        let left = gaps(requested, taken);
        law_plan_is_never_empty(node, exec, requested, entries, now);
        lemma_leaves_of_pieces(pieces);
        let input = *planned(node, exec, requested, entries, now)->Ok_0->Aggregate_input;
        reveal_with_fuel(leaves, 3);
        assert(leaves(input) =~= pieces);
        assert forall|k: int| picked.len() <= k < picked.len() + left.len() implies computes_the_gap(
            #[trigger] leaves(input)[k],
            node,
            partial,
            left[k - picked.len()],
            now,
        ) by {
            let gap = left[k - picked.len()];
            law_condition_reads_the_column::<E>(partial, node.temporal_column, gap);
            assert(pieces[k] == gap_update::<E>(node, partial, gap, now));
        }
    }
}

/// The plan computes the partial aggregation over the gap and stores the result.
pub open spec fn computes_the_gap<E>(
    plan: ExecView<E>,
    node: NodeView,
    partial: PhysicalView,
    gap: TimeInterval,
    now: i64,
) -> bool {
    &&& plan matches ExecView::CacheUpdate { fingerprint, interval, input, now: started }
    &&& fingerprint == node.fingerprint
    &&& interval == gap
    &&& started == now
    &&& bounded::<E>(partial, node.temporal_column, gap) matches Ok(rows)
    &&& *input == if rows.name() == "CoalescePartitionsExec"@ {
        rows
    } else {
        ExecView::CoalescePartitions(Box::new(rows))
    }
}

/// Every requested instant lies in exactly one of the plans that the plan of a cached aggregation
/// takes its rows from: in the interval of an entry that is read, or in the gap of a computation.
pub proof fn law_every_requested_instant_is_in_one_leaf<E: OccupiedIntervalCacheEntry>(
    node: NodeView,
    exec: PhysicalView,
    requested: TimeInterval,
    entries: Seq<E>,
    now: i64,
    t: int,
)
    requires
        exec is Aggregate,
        requested.start_ns < requested.end_ns,
        forall|i: int|
            0 <= i < entries.len() ==> (#[trigger] entries[i]).covers().start_ns
                < entries[i].covers().end_ns && entries[i].covers().start_ns < requested.end_ns
                && requested.start_ns < entries[i].covers().end_ns,
        planned(node, exec, requested, entries, now) is Ok,
        requested.start_ns <= t < requested.end_ns,
    ensures
        planned(node, exec, requested, entries, now) matches Ok(ExecView::Aggregate { input, .. })
            && exists|k: int|
            {
                &&& 0 <= k < leaves(*input).len()
                &&& #[trigger] leaf_holds(leaves(*input)[k], t)
                &&& forall|j: int|
                    0 <= j < leaves(*input).len() && #[trigger] leaf_holds(leaves(*input)[j], t)
                        ==> j == k
            },
{
    let pieces = plan_pieces(node, exec, requested, entries, now);
    assert forall|i: int| 0 <= i < pieces.len() implies (#[trigger] pieces[i]) is Cached
        || pieces[i] is CacheUpdate by {}
    law_plan_is_never_empty(node, exec, requested, entries, now);
    lemma_leaves_of_pieces(pieces);
    let input = *planned(node, exec, requested, entries, now)->Ok_0->Aggregate_input;
    reveal_with_fuel(leaves, 3);
    assert(leaves(input) =~= pieces);
    assert(relevant(requested, covered(entries))) by {
        assert forall|i: int| 0 <= i < covered(entries).len() implies (
        #[trigger] covered(entries)[i]).proper() && covered(entries)[i].meets(requested) by {
            assert(covered(entries)[i] == entries[i].covers());
        }
    }
    law_pieces_cover_the_request(node, exec, requested, entries, now);
    let intervals = piece_intervals(pieces);
    assert(covered_at(intervals, t));
    let k = choose|k: int| 0 <= k < intervals.len() && (#[trigger] intervals[k]).holds(t);
    assert forall|i: int| 0 <= i < pieces.len() implies #[trigger] leaf_holds(pieces[i], t)
        == intervals[i].holds(t) by {}
    assert(leaf_holds(leaves(input)[k], t));
    assert forall|j: int| 0 <= j < leaves(input).len() && #[trigger] leaf_holds(
        leaves(input)[j],
        t,
    ) implies j == k by {
        assert(leaf_holds(pieces[j], t));
        if j < k {
            assert(!intervals[j].meets(intervals[k]));
        } else if k < j {
            assert(!intervals[k].meets(intervals[j]));
        }
    }
}

/// The instant lies in the interval that the plan reads, or computes and stores.
pub open spec fn leaf_holds<E: OccupiedIntervalCacheEntry>(plan: ExecView<E>, t: int) -> bool {
    match plan {
        ExecView::Cached { cache_entry, .. } => cache_entry.covers().start_ns <= t
            < cache_entry.covers().end_ns,
        ExecView::CacheUpdate { interval, .. } => interval.start_ns <= t < interval.end_ns,
        _ => false,
    }
}

/// A plan is refused only where a gap is to be computed over rows that have no timestamp column of
/// the name.
pub proof fn law_plans_are_refused_for_want_of_the_column<E: OccupiedIntervalCacheEntry>(
    node: NodeView,
    exec: PhysicalView,
    requested: TimeInterval,
    entries: Seq<E>,
    now: i64,
)
    requires
        exec is Aggregate,
    ensures
        ({
            let partial = *exec->Aggregate_input;
            let target = match partial {
                PhysicalView::Aggregate { input, .. } => match *input {
                    PhysicalView::Projection { input: inner, .. } => *inner,
                    _ => *input,
                },
                _ => partial,
            };
            let picked = selection(covered(entries));
            let taken = Seq::new(picked.len(), |k: int| entries[picked[k]].covers());
            let refused = gaps(requested, taken).len() > 0 && bounded_rows(
                target,
                node.temporal_column.name,
            ) is None;
            &&& refused ==> planned(node, exec, requested, entries, now) == Err::<
                ExecView<E>,
                PlanError,
            >(PlanError::TimestampColumnNotFound)
            &&& !refused ==> planned(node, exec, requested, entries, now) is Ok
        }),
{
    law_selection_exists(covered(entries));
    let picked = selection(covered(entries));
    let taken = Seq::new(picked.len(), |k: int| entries[picked[k]].covers());
    assert(covered(selected_entries(entries)) =~= taken);
}

/// Several plans are put together by a union whose partitions are coalesced; one stands alone.
pub proof fn law_pieces_are_joined_by_a_union<E: OccupiedIntervalCacheEntry>(
    node: NodeView,
    exec: PhysicalView,
    requested: TimeInterval,
    entries: Seq<E>,
    now: i64,
)
    requires
        planned(node, exec, requested, entries, now) is Ok,
    ensures
        planned(node, exec, requested, entries, now) matches Ok(ExecView::Aggregate { input, .. })
            && match *input {
            ExecView::CoalescePartitions(union) => *union matches ExecView::Union(inputs)
                && inputs.len() > 1 && inputs == leaves(*input),
            _ => leaves(*input) == seq![*input],
        },
{
    let pieces = plan_pieces(node, exec, requested, entries, now);
    assert forall|i: int| 0 <= i < pieces.len() implies (#[trigger] pieces[i]) is Cached
        || pieces[i] is CacheUpdate by {}
    law_plan_is_never_empty(node, exec, requested, entries, now);
    lemma_leaves_of_pieces(pieces);
    reveal_with_fuel(leaves, 3);
    assert(pieces[0] is Cached || pieces[0] is CacheUpdate);
}

/// What the planner does first with an extension node. One that is no cached aggregation is not its
/// own; one with another number of inputs than one is refused; one whose input is no aggregation, or
/// is planned already, is taken as it is. For others the cache is asked for the interval of the
/// node, else for the one that the filter of its plan fixes, else for all time; an interval without
/// an instant is not asked for, and one that cannot be written down is told.
pub proof fn law_first_step(node: NodeView, plan: PhysicalView, others: Seq<PhysicalView>)
    ensures
        first_step(None, others) == Ok::<Step, PlanError>(Step::NotOurs),
        others.len() != 1 ==> first_step(Some(node), others) == Err::<Step, PlanError>(
            PlanError::ExpectedOnePhysicalInput,
        ),
        ({
            let step = first_step(Some(node), seq![plan]);
            let lookup = |i: TimeInterval|
                if i.start_ns < i.end_ns {
                    Ok::<Step, PlanError>(Step::Lookup(i))
                } else {
                    Ok::<Step, PlanError>(Step::Reuse)
                };
            if has_inner_exec(plan) || plan !is Aggregate {
                step == Ok::<Step, PlanError>(Step::Reuse)
            } else {
                match node.interval {
                    Some(interval) => step == lookup(interval),
                    None => if !plan_bounds_fit(node.input, node.temporal_column) {
                        step == Ok::<Step, PlanError>(Step::BoundsOutOfRange)
                    } else {
                        match interval_in_plan(node.input, node.temporal_column) {
                            Some(interval) => step == lookup(interval),
                            None => step == Ok::<Step, PlanError>(
                                Step::Lookup(
                                    TimeInterval { start_ns: i64::MIN, end_ns: i64::MAX },
                                ),
                            ),
                        }
                    },
                }
            }
        }),
{
}

/// A cached aggregation asks for its own interval, else for the one that its plan fixes, else for
/// all time.
pub proof fn law_asked_interval(node: NodeView)
    ensures
        node.interval matches Some(interval) ==> asked_interval(node) == interval
            && asked_interval_fits(node),
        node.interval is None ==> asked_interval_fits(node) == plan_bounds_fit(
            node.input,
            node.temporal_column,
        ),
        node.interval is None ==> asked_interval(node) == match interval_in_plan(
            node.input,
            node.temporal_column,
        ) {
            Some(interval) => interval,
            None => TimeInterval { start_ns: i64::MIN, end_ns: i64::MAX },
        },
{
}

/// The interval of a plan is the one that its first filter fixes for the column, under aggregations
/// and projections.
pub proof fn law_interval_of_a_plan_is_that_of_its_first_filter(plan: PlanView, column: ColumnView)
    ensures
        match plan {
            PlanView::Aggregate { input, .. } => interval_in_plan(plan, column)
                == interval_in_plan(*input, column) && plan_bounds_fit(plan, column)
                == plan_bounds_fit(*input, column),
            PlanView::Projection { input, .. } => interval_in_plan(plan, column)
                == interval_in_plan(*input, column) && plan_bounds_fit(plan, column)
                == plan_bounds_fit(*input, column),
            PlanView::Filter { predicate, .. } => {
                &&& static_interval(predicate, set![column]) matches StaticInterval::Found(i)
                    ==> interval_in_plan(plan, column) == Some(i)
                &&& static_interval(predicate, set![column]) !is Found ==> interval_in_plan(
                    plan,
                    column,
                ) is None
                &&& plan_bounds_fit(plan, column) == bounds_fit(predicate, set![column])
            },
            _ => interval_in_plan(plan, column) is None && plan_bounds_fit(plan, column),
        },
{
}

/// What the planner is given keeps its plans, in their order, and its node.
pub proof fn law_inputs_of_the_planner_are_kept(
    plans: Seq<PhysicalPlan>,
    node: &QCAggregatePlanNode,
)
    ensures
        physicals_view(plans).len() == plans.len(),
        forall|i: int| 0 <= i < plans.len() ==> #[trigger] physicals_view(plans)[i] == plans[i]@,
        node_view(Some(node)) == Some(node@),
        node_view(None) is None,
{
}

} // verus!
