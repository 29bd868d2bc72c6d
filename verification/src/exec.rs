//! Physical plans that the cache builds.

use vstd::prelude::*;
use vstd::string::*;

use crate::error::PlanError;
use crate::expr::Operator;
use crate::interval::TimeInterval;
use crate::physical::{
    indices_view, AggregateMode, AGGREGATE_NAME, COALESCE_NAME, FILTER_NAME, PROJECTION_NAME,
};
use crate::scalar::{ScalarValue, ScalarView};
use crate::selection::OccupiedIntervalCacheEntry;
use crate::text::{decimal, push_decimal};

verus! {

/// An expression over the rows of a physical plan.
#[derive(Debug, PartialEq, Eq)]
pub enum PhysicalExpr {
    Column { name: String, index: usize },
    Literal(ScalarValue),
    Binary { left: Box<PhysicalExpr>, op: Operator, right: Box<PhysicalExpr> },
    /// The predicate of the filter with this handle.
    PredicateOf(u64),
}

/// What an expression over the rows of a physical plan says.
pub enum PhysicalExprView {
    Column { name: Seq<char>, index: int },
    Literal(ScalarView),
    Binary { left: Box<PhysicalExprView>, op: Operator, right: Box<PhysicalExprView> },
    PredicateOf(u64),
}

/// What an expression over the rows of a physical plan says.
pub open spec fn physical_expr_view(e: PhysicalExpr) -> PhysicalExprView
    decreases e,
{
    match e {
        PhysicalExpr::Column { name, index } => PhysicalExprView::Column {
            name: name@,
            index: index as int,
        },
        PhysicalExpr::Literal(value) => PhysicalExprView::Literal(value@),
        PhysicalExpr::Binary { left, op, right } => PhysicalExprView::Binary {
            left: Box::new(physical_expr_view(*left)),
            op,
            right: Box::new(physical_expr_view(*right)),
        },
        PhysicalExpr::PredicateOf(node) => PhysicalExprView::PredicateOf(node),
    }
}

impl View for PhysicalExpr {
    type V = PhysicalExprView;

    open spec fn view(&self) -> PhysicalExprView {
        physical_expr_view(*self)
    }
}

/// A physical plan that the cache builds, on plans that were given and on cache entries.
#[derive(Debug)]
pub enum ExecutionPlan<'a, E> {
    /// The plan with this handle and name.
    Given { node: u64, name: String },
    Filter {
        predicate: PhysicalExpr,
        input: Box<ExecutionPlan<'a, E>>,
        projection: Option<Vec<usize>>,
    },
    /// The expressions of the projection with the handle `like`.
    Projection { like: u64, input: Box<ExecutionPlan<'a, E>> },
    /// The group by, aggregates and filters of the aggregation with the handle `like`.
    Aggregate { like: u64, mode: AggregateMode, input: Box<ExecutionPlan<'a, E>> },
    CoalescePartitions(Box<ExecutionPlan<'a, E>>),
    Union(Vec<ExecutionPlan<'a, E>>),
    CacheUpdate(Box<CacheUpdateAggregateExec<'a, E>>),
    Cached(CachedAggregateExec<'a, E>),
}

/// A wrapper for an aggregation that caches the result of the aggregation.
#[derive(Debug)]
pub struct CacheUpdateAggregateExec<'a, E> {
    pub fingerprint: String,
    pub interval: TimeInterval,
    pub input: ExecutionPlan<'a, E>,
    /// When the query started, in nanoseconds since the epoch.
    pub now: i64,
}

/// The cached result of an aggregation. It has the properties of the plan with the handle `like`,
/// in whose place it stands.
#[derive(Debug)]
pub struct CachedAggregateExec<'a, E> {
    pub cache_entry: &'a E,
    pub like: u64,
}

/// What a physical plan that the cache builds is.
pub enum ExecView<E> {
    Given { node: u64, name: Seq<char> },
    Filter {
        predicate: PhysicalExprView,
        input: Box<ExecView<E>>,
        projection: Option<Seq<usize>>,
    },
    Projection { like: u64, input: Box<ExecView<E>> },
    Aggregate { like: u64, mode: AggregateMode, input: Box<ExecView<E>> },
    CoalescePartitions(Box<ExecView<E>>),
    Union(Seq<ExecView<E>>),
    CacheUpdate { fingerprint: Seq<char>, interval: TimeInterval, input: Box<ExecView<E>>, now: i64 },
    Cached { cache_entry: E, like: u64 },
}

/// What a physical plan that the cache builds is.
pub open spec fn exec_view<'a, E>(plan: ExecutionPlan<'a, E>) -> ExecView<E>
    decreases plan,
{
    match plan {
        ExecutionPlan::Given { node, name } => ExecView::Given { node, name: name@ },
        ExecutionPlan::Filter { predicate, input, projection } => ExecView::Filter {
            predicate: predicate@,
            input: Box::new(exec_view(*input)),
            projection: indices_view(projection),
        },
        ExecutionPlan::Projection { like, input } => ExecView::Projection {
            like,
            input: Box::new(exec_view(*input)),
        },
        ExecutionPlan::Aggregate { like, mode, input } => ExecView::Aggregate {
            like,
            mode,
            input: Box::new(exec_view(*input)),
        },
        ExecutionPlan::CoalescePartitions(input) => ExecView::CoalescePartitions(
            Box::new(exec_view(*input)),
        ),
        ExecutionPlan::Union(inputs) => ExecView::Union(
            Seq::new(
                inputs@.len(),
                |i: int|
                    if 0 <= i < inputs@.len() {
                        exec_view(inputs@[i])
                    } else {
                        arbitrary()
                    },
            ),
        ),
        ExecutionPlan::CacheUpdate(update) => ExecView::CacheUpdate {
            fingerprint: update.fingerprint@,
            interval: update.interval,
            input: Box::new(exec_view(update.input)),
            now: update.now,
        },
        ExecutionPlan::Cached(cached) => ExecView::Cached {
            cache_entry: *cached.cache_entry,
            like: cached.like,
        },
    }
}

impl<'a, E> View for ExecutionPlan<'a, E> {
    type V = ExecView<E>;

    open spec fn view(&self) -> ExecView<E> {
        exec_view(*self)
    }
}

/// What each of the plans is.
pub open spec fn execs_view<'a, E>(plans: Seq<ExecutionPlan<'a, E>>) -> Seq<ExecView<E>> {
    Seq::new(plans.len(), |i: int| plans[i]@)
}

pub const UNION_NAME: &'static str = "UnionExec";

pub const CACHE_UPDATE_NAME: &'static str = "CacheUpdateAggregateExec";

pub const CACHED_NAME: &'static str = "CachedAggregateExec";

impl<E> ExecView<E> {
    /// The name of the kind of node.
    pub open spec fn name(self) -> Seq<char> {
        match self {
            ExecView::Given { name, .. } => name,
            ExecView::Filter { .. } => FILTER_NAME@,
            ExecView::Projection { .. } => PROJECTION_NAME@,
            ExecView::Aggregate { .. } => AGGREGATE_NAME@,
            ExecView::CoalescePartitions(_) => COALESCE_NAME@,
            ExecView::Union(_) => UNION_NAME@,
            ExecView::CacheUpdate { .. } => CACHE_UPDATE_NAME@,
            ExecView::Cached { .. } => CACHED_NAME@,
        }
    }
}

impl<'a, E> ExecutionPlan<'a, E> {
    /// The name of the kind of node.
    pub fn name(&self) -> (name: String)
        ensures
            name@ == self@.name(),
    {
        match self {
            ExecutionPlan::Given { name, .. } => name.clone(),
            ExecutionPlan::Filter { .. } => FILTER_NAME.to_string(),
            ExecutionPlan::Projection { .. } => PROJECTION_NAME.to_string(),
            ExecutionPlan::Aggregate { .. } => AGGREGATE_NAME.to_string(),
            ExecutionPlan::CoalescePartitions(_) => COALESCE_NAME.to_string(),
            ExecutionPlan::Union(_) => UNION_NAME.to_string(),
            ExecutionPlan::CacheUpdate(_) => CACHE_UPDATE_NAME.to_string(),
            ExecutionPlan::Cached(_) => CACHED_NAME.to_string(),
        }
    }
}

/// How much of a node is printed.
#[derive(Debug, Clone, Copy, PartialEq, Eq, Structural)]
pub enum DisplayFormat {
    Brief,
    Verbose,
}

/// An interval as it prints.
pub open spec fn interval_text(interval: TimeInterval) -> Seq<char> {
    "TimeInterval { start_ns: "@ + decimal(interval.start_ns as int) + ", end_ns: "@ + decimal(
        interval.end_ns as int,
    ) + " }"@
}

/// Write an interval behind the text.
fn push_interval(text: &mut String, interval: &TimeInterval)
    ensures
        final(text)@ == old(text)@ + interval_text(*interval),
{
    text.append("TimeInterval { start_ns: ");
    push_decimal(text, interval.start_ns);
    text.append(", end_ns: ");
    push_decimal(text, interval.end_ns);
    text.append(" }");
    assert(text@ =~= old(text)@ + interval_text(*interval));
}

/// One partition of the plan, so that one result can be stored.
pub open spec fn coalesced<E>(plan: ExecView<E>) -> ExecView<E> {
    if plan.name() == COALESCE_NAME@ {
        plan
    } else {
        ExecView::CoalescePartitions(Box::new(plan))
    }
}

impl<'a, E> CacheUpdateAggregateExec<'a, E> {
    /// The plan that computes `input` as one partition and stores the result.
    pub fn new_exec_plan(
        fingerprint: &str,
        interval: &TimeInterval,
        input: ExecutionPlan<'a, E>,
        now: i64,
    ) -> (plan: ExecutionPlan<'a, E>)
        ensures
            plan@ == (ExecView::CacheUpdate {
                fingerprint: fingerprint@,
                interval: *interval,
                input: Box::new(coalesced(input@)),
                now,
            }),
    {
        proof {
            reveal_with_fuel(exec_view, 3);
        }
        // One partition is needed to store one result in the cache, so partitions are coalesced
        // unless they are already
        let input = if input.name() == COALESCE_NAME.to_string() {
            input
        } else {
            ExecutionPlan::CoalescePartitions(Box::new(input))
        };
        ExecutionPlan::CacheUpdate(
            Box::new(
                CacheUpdateAggregateExec {
                    fingerprint: fingerprint.to_string(),
                    interval: *interval,
                    input,
                    now,
                },
            ),
        )
    }

    /// Returns the time interval this cache update execution covers.
    pub fn interval(&self) -> (interval: TimeInterval)
        ensures
            interval == self.interval,
    {
        self.interval
    }

    /// The name of the kind of node.
    pub fn name(&self) -> (name: &'static str)
        ensures
            name@ == CACHE_UPDATE_NAME@,
    {
        CACHE_UPDATE_NAME
    }

    /// The plans that the node stands on.
    pub fn children(&self) -> (children: Vec<&ExecutionPlan<'a, E>>)
        ensures
            children@ == seq![&self.input],
    {
        let mut children: Vec<&ExecutionPlan<'a, E>> = Vec::new();
        children.push(&self.input);
        assert(children@ =~= seq![&self.input]);
        children
    }

    /// The same node on another plan.
    pub fn with_new_children(&self, children: Vec<ExecutionPlan<'a, E>>) -> (plan: Result<
        ExecutionPlan<'a, E>,
        PlanError,
    >)
        ensures
            if children@.len() == 1 {
                plan matches Ok(plan) && plan@ == (ExecView::CacheUpdate {
                    fingerprint: self.fingerprint@,
                    interval: self.interval,
                    input: Box::new(coalesced(children@[0]@)),
                    now: self.now,
                })
            } else {
                plan == Err::<ExecutionPlan<'a, E>, PlanError>(PlanError::ExpectedOneChild)
            },
    {
        let mut children = children;
        if children.len() == 1 {
            let child = children.remove(0);
            Ok(
                Self::new_exec_plan(self.fingerprint.as_str(), &self.interval, child, self.now),
            )
        } else {
            Err(PlanError::ExpectedOneChild)
        }
    }

    /// The node as it prints.
    pub fn fmt_as(&self, format: DisplayFormat) -> (text: String)
        ensures
            text@ == match format {
                DisplayFormat::Brief => CACHE_UPDATE_NAME@ + "("@ + self.input@.name() + ")"@,
                DisplayFormat::Verbose => CACHE_UPDATE_NAME@ + " { interval: "@ + interval_text(
                    self.interval,
                ) + ", input: "@ + self.input@.name() + " }"@,
            },
    {
        let mut text = CACHE_UPDATE_NAME.to_string();
        match format {
            DisplayFormat::Brief => {
                text.append("(");
                text.append(self.input.name().as_str());
                text.append(")");
            },
            DisplayFormat::Verbose => {
                text.append(" { interval: ");
                push_interval(&mut text, &self.interval);
                text.append(", input: ");
                text.append(self.input.name().as_str());
                text.append(" }");
            },
        }
        text
    }
}

impl<'a, E: OccupiedIntervalCacheEntry> CachedAggregateExec<'a, E> {
    /// The plan that reads a cache entry, in the place of the plan with the handle `like`.
    pub fn new_exec_plan(cache_entry: &'a E, like: u64) -> (plan: ExecutionPlan<'a, E>)
        ensures
            plan@ == (ExecView::Cached { cache_entry: *cache_entry, like }),
    {
        ExecutionPlan::Cached(CachedAggregateExec { cache_entry, like })
    }

    /// Returns the time interval this cached execution covers.
    pub fn interval(&self) -> (interval: TimeInterval)
        ensures
            interval == self.cache_entry.covers(),
    {
        self.cache_entry.interval()
    }

    /// The name of the kind of node.
    pub fn name(&self) -> (name: &'static str)
        ensures
            name@ == CACHED_NAME@,
    {
        CACHED_NAME
    }

    /// The same node, which stands on no plan.
    pub fn with_new_children(self, children: Vec<ExecutionPlan<'a, E>>) -> (node: Result<
        Self,
        PlanError,
    >)
        ensures
            node == if children@.len() == 0 {
                Ok::<Self, PlanError>(self)
            } else {
                Err::<Self, PlanError>(PlanError::ChildrenCannotBeReplaced)
            },
    {
        if children.len() == 0 {
            Ok(self)
        } else {
            Err(PlanError::ChildrenCannotBeReplaced)
        }
    }

    /// The node as it prints.
    pub fn fmt_as(&self, format: DisplayFormat) -> (text: String)
        ensures
            text@ == match format {
                DisplayFormat::Brief => CACHED_NAME@,
                DisplayFormat::Verbose => CACHED_NAME@ + " { interval: "@ + interval_text(
                    self.cache_entry.covers(),
                ) + " }"@,
            },
    {
        let mut text = CACHED_NAME.to_string();
        match format {
            DisplayFormat::Brief => {},
            DisplayFormat::Verbose => {
                text.append(" { interval: ");
                push_interval(&mut text, &self.interval());
                text.append(" }");
            },
        }
        text
    }
}

/// What a built plan is keeps every part of it.
pub proof fn law_built_plans_keep_their_parts<'a, E>(
    node: u64,
    name: String,
    predicate: PhysicalExpr,
    projection: Option<Vec<usize>>,
    mode: AggregateMode,
    input: Box<ExecutionPlan<'a, E>>,
    inputs: Vec<ExecutionPlan<'a, E>>,
    update: Box<CacheUpdateAggregateExec<'a, E>>,
    cached: CachedAggregateExec<'a, E>,
)
    ensures
        exec_view::<E>((ExecutionPlan::Given { node, name })) == (ExecView::<E>::Given {
            node,
            name: name@,
        }),
        (ExecutionPlan::Filter { predicate, input, projection })@ == (ExecView::Filter {
            predicate: predicate@,
            input: Box::new((*input)@),
            projection: match projection {
                Some(places) => Some(places@),
                None => None,
            },
        }),
        (ExecutionPlan::Projection { like: node, input })@ == (ExecView::Projection {
            like: node,
            input: Box::new((*input)@),
        }),
        (ExecutionPlan::Aggregate { like: node, mode, input })@ == (ExecView::Aggregate {
            like: node,
            mode,
            input: Box::new((*input)@),
        }),
        ExecutionPlan::CoalescePartitions(input)@ == ExecView::CoalescePartitions(
            Box::new((*input)@),
        ),
        ExecutionPlan::Union(inputs)@ matches ExecView::Union(views) && views.len()
            == inputs@.len() && forall|i: int|
            0 <= i < views.len() ==> #[trigger] views[i] == inputs@[i]@,
        ExecutionPlan::CacheUpdate(update)@ == (ExecView::CacheUpdate {
            fingerprint: update.fingerprint@,
            interval: update.interval,
            input: Box::new(update.input@),
            now: update.now,
        }),
        ExecutionPlan::Cached(cached)@ == (ExecView::Cached {
            cache_entry: *cached.cache_entry,
            like: cached.like,
        }),
{
}

/// What a list of built plans is, is what each of them is, in their order.
pub proof fn law_lists_keep_their_plans<'a, E>(plans: Seq<ExecutionPlan<'a, E>>)
    ensures
        execs_view(plans).len() == plans.len(),
        forall|i: int| 0 <= i < plans.len() ==> #[trigger] execs_view(plans)[i] == plans[i]@,
{
}

/// What an expression over rows says keeps every part of it.
pub proof fn law_conditions_keep_their_parts(
    name: String,
    index: usize,
    value: ScalarValue,
    left: Box<PhysicalExpr>,
    op: Operator,
    right: Box<PhysicalExpr>,
    node: u64,
)
    ensures
        (PhysicalExpr::Column { name, index })@ == (PhysicalExprView::Column {
            name: name@,
            index: index as int,
        }),
        PhysicalExpr::Literal(value)@ == PhysicalExprView::Literal(value@),
        (PhysicalExpr::Binary { left, op, right })@ == (PhysicalExprView::Binary {
            left: Box::new((*left)@),
            op,
            right: Box::new((*right)@),
        }),
        PhysicalExpr::PredicateOf(node)@ == PhysicalExprView::PredicateOf(node),
{
}

/// A node that the cache builds has the name of its kind, and a given one the name that it was
/// given.
pub proof fn law_built_nodes_have_the_names_of_their_kinds<E>(plan: ExecView<E>)
    ensures
        plan.name() == match plan {
            ExecView::Given { name, .. } => name,
            ExecView::Filter { .. } => "FilterExec"@,
            ExecView::Projection { .. } => "ProjectionExec"@,
            ExecView::Aggregate { .. } => "AggregateExec"@,
            ExecView::CoalescePartitions(_) => "CoalescePartitionsExec"@,
            ExecView::Union(_) => "UnionExec"@,
            ExecView::CacheUpdate { .. } => "CacheUpdateAggregateExec"@,
            ExecView::Cached { .. } => "CachedAggregateExec"@,
        },
        CACHE_UPDATE_NAME@ == "CacheUpdateAggregateExec"@,
        CACHED_NAME@ == "CachedAggregateExec"@,
{
}

/// A plan is stored as one partition: coalesced where it is not, and not twice where it is.
pub proof fn law_results_are_one_partition<E>(plan: ExecView<E>)
    ensures
        plan.name() == "CoalescePartitionsExec"@ ==> coalesced(plan) == plan,
        plan.name() != "CoalescePartitionsExec"@ ==> coalesced(plan)
            == ExecView::CoalescePartitions(Box::new(plan)),
        coalesced(plan).name() == "CoalescePartitionsExec"@,
        coalesced(coalesced(plan)) == coalesced(plan),
{
}

/// An interval prints with both its ends.
pub proof fn law_intervals_print_with_their_ends(interval: TimeInterval)
    ensures
        interval_text(interval) == "TimeInterval { start_ns: "@ + decimal(interval.start_ns as int)
            + ", end_ns: "@ + decimal(interval.end_ns as int) + " }"@,
{
}

} // verus!
