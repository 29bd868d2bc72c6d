//! Logical plans, as far as the cache looks into them.

use vstd::prelude::*;

use crate::column::{Column, ColumnSet, ColumnView};
use crate::expr::{copy_exprs, exprs_view, Expr, ExprView};
use crate::interval::TimeInterval;
use crate::normalize::{normalize_temporal_bounds_in_expr, normalized, with_bounds};

verus! {

/// A logical plan. Whatever the cache hands on without reading it is known by a handle: what a
/// projection computes, the table and limit of a scan, and any other kind of plan.
#[derive(Debug, PartialEq, Eq)]
pub enum LogicalPlan {
    Projection(Projection),
    Filter(Filter),
    Aggregate(Aggregate),
    TableScan(TableScan),
    Extension(Extension),
    Other(u64),
}

/// A node that passes the rows of its input on with columns or names of its own: a projection, or
/// the alias of a table.
#[derive(Debug, PartialEq, Eq)]
pub struct Projection {
    pub node: u64,
    pub input: Box<LogicalPlan>,
}

#[derive(Debug, PartialEq, Eq)]
pub struct Filter {
    pub predicate: Expr,
    pub input: Box<LogicalPlan>,
}

#[derive(Debug, PartialEq, Eq)]
pub struct Aggregate {
    pub input: Box<LogicalPlan>,
    pub group_expr: Vec<Expr>,
    pub aggr_expr: Vec<Expr>,
}

/// A scan of the columns of a table that the projection lists, or of all columns. Rows that do not
/// meet its filters are left out, by the scan or by a filter over it.
#[derive(Debug, PartialEq, Eq)]
pub struct TableScan {
    pub node: u64,
    pub source_fields: Vec<String>,
    pub projected_fields: Vec<String>,
    pub projection: Option<Vec<usize>>,
    pub filters: Vec<Expr>,
}

/// A plan node from outside the query engine.
#[derive(Debug, PartialEq, Eq)]
pub enum Extension {
    QueryCache(Box<QCAggregatePlanNode>),
    Other(u64),
}

/// Placeholder for the cached aggregation in the logical plan.
#[derive(Debug, PartialEq, Eq)]
pub struct QCAggregatePlanNode {
    pub input: LogicalPlan,
    pub fingerprint: String,
    pub temporal_column: Column,
    pub interval: Option<TimeInterval>,
}

/// What a logical plan says.
pub enum PlanView {
    Projection { node: u64, input: Box<PlanView> },
    Filter { predicate: ExprView, input: Box<PlanView> },
    Aggregate { input: Box<PlanView>, group_expr: Seq<ExprView>, aggr_expr: Seq<ExprView> },
    TableScan(ScanView),
    QueryCache(Box<NodeView>),
    Extension(u64),
    Other(u64),
}

/// What a scan says.
pub struct ScanView {
    pub node: u64,
    pub source_fields: Seq<Seq<char>>,
    pub projected_fields: Seq<Seq<char>>,
    pub projection: Option<Seq<usize>>,
    pub filters: Seq<ExprView>,
}

/// What a cached aggregation says.
pub struct NodeView {
    pub input: PlanView,
    pub fingerprint: Seq<char>,
    pub temporal_column: ColumnView,
    pub interval: Option<TimeInterval>,
}

/// What each of the texts holds.
pub open spec fn texts_view(texts: Seq<String>) -> Seq<Seq<char>> {
    Seq::new(texts.len(), |i: int| texts[i]@)
}

impl View for TableScan {
    type V = ScanView;

    open spec fn view(&self) -> ScanView {
        ScanView {
            node: self.node,
            source_fields: texts_view(self.source_fields@),
            projected_fields: texts_view(self.projected_fields@),
            projection: match self.projection {
                Some(projection) => Some(projection@),
                None => None,
            },
            filters: exprs_view(self.filters@),
        }
    }
}

/// What a logical plan says.
pub open spec fn plan_view(plan: LogicalPlan) -> PlanView
    decreases plan,
{
    match plan {
        LogicalPlan::Projection(p) => PlanView::Projection {
            node: p.node,
            input: Box::new(plan_view(*p.input)),
        },
        LogicalPlan::Filter(f) => PlanView::Filter {
            predicate: f.predicate@,
            input: Box::new(plan_view(*f.input)),
        },
        LogicalPlan::Aggregate(a) => PlanView::Aggregate {
            input: Box::new(plan_view(*a.input)),
            group_expr: exprs_view(a.group_expr@),
            aggr_expr: exprs_view(a.aggr_expr@),
        },
        LogicalPlan::TableScan(scan) => PlanView::TableScan(scan@),
        LogicalPlan::Extension(Extension::QueryCache(node)) => PlanView::QueryCache(
            Box::new(
                NodeView {
                    input: plan_view(node.input),
                    fingerprint: node.fingerprint@,
                    temporal_column: node.temporal_column@,
                    interval: node.interval,
                },
            ),
        ),
        LogicalPlan::Extension(Extension::Other(handle)) => PlanView::Extension(handle),
        LogicalPlan::Other(handle) => PlanView::Other(handle),
    }
}

impl View for LogicalPlan {
    type V = PlanView;

    open spec fn view(&self) -> PlanView {
        plan_view(*self)
    }
}

impl View for QCAggregatePlanNode {
    type V = NodeView;

    open spec fn view(&self) -> NodeView {
        NodeView {
            input: self.input@,
            fingerprint: self.fingerprint@,
            temporal_column: self.temporal_column@,
            interval: self.interval,
        }
    }
}

/// Copy a list of texts.
pub fn copy_texts(texts: &Vec<String>) -> (copies: Vec<String>)
    ensures
        texts_view(copies@) == texts_view(texts@),
{
    let mut copies: Vec<String> = Vec::new();
    let mut i: usize = 0;
    while i < texts.len()
        invariant
            i <= texts@.len(),
            copies@.len() == i,
            forall|j: int| 0 <= j < i ==> (#[trigger] copies@[j])@ == texts@[j]@,
        decreases texts@.len() - i,
    {
        copies.push(texts[i].clone());
        i = i + 1;
    }
    assert(texts_view(copies@) =~= texts_view(texts@));
    copies
}

/// Copy a list of column indices.
pub fn copy_indices(indices: &Vec<usize>) -> (copies: Vec<usize>)
    ensures
        copies@ == indices@,
{
    let mut copies: Vec<usize> = Vec::new();
    let mut i: usize = 0;
    while i < indices.len()
        invariant
            i <= indices@.len(),
            copies@ == indices@.take(i as int),
        decreases indices@.len() - i,
    {
        copies.push(indices[i]);
        i = i + 1;
        assert(copies@ =~= indices@.take(i as int));
    }
    assert(indices@.take(i as int) =~= indices@);
    copies
}

impl Clone for TableScan {
    fn clone(&self) -> (copy: Self)
        ensures
            copy@ == self@,
    {
        let projection = match &self.projection {
            Some(projection) => Some(copy_indices(projection)),
            None => None,
        };
        TableScan {
            node: self.node,
            source_fields: copy_texts(&self.source_fields),
            projected_fields: copy_texts(&self.projected_fields),
            projection,
            filters: copy_exprs(&self.filters),
        }
    }
}

impl Clone for LogicalPlan {
    fn clone(&self) -> (copy: Self)
        ensures
            copy@ == self@,
        decreases self,
    {
        match self {
            LogicalPlan::Projection(p) => LogicalPlan::Projection(
                Projection { node: p.node, input: Box::new((&*p.input).clone()) },
            ),
            LogicalPlan::Filter(f) => LogicalPlan::Filter(
                Filter { predicate: f.predicate.clone(), input: Box::new((&*f.input).clone()) },
            ),
            LogicalPlan::Aggregate(a) => LogicalPlan::Aggregate(
                Aggregate {
                    input: Box::new((&*a.input).clone()),
                    group_expr: copy_exprs(&a.group_expr),
                    aggr_expr: copy_exprs(&a.aggr_expr),
                },
            ),
            LogicalPlan::TableScan(scan) => LogicalPlan::TableScan(scan.clone()),
            LogicalPlan::Extension(Extension::QueryCache(node)) => LogicalPlan::Extension(
                Extension::QueryCache(
                    Box::new(
                        QCAggregatePlanNode {
                            input: (&node.input).clone(),
                            fingerprint: node.fingerprint.clone(),
                            temporal_column: node.temporal_column.clone(),
                            interval: node.interval,
                        },
                    ),
                ),
            ),
            LogicalPlan::Extension(Extension::Other(handle)) => LogicalPlan::Extension(
                Extension::Other(*handle),
            ),
            LogicalPlan::Other(handle) => LogicalPlan::Other(*handle),
        }
    }
}

/// The plan with `bound` applied to each literal that bounds a column of the set, in the filters
/// and aggregations from the top down to the first node of another kind.
pub open spec fn plan_with_bounds(
    plan: PlanView,
    columns: Set<ColumnView>,
    bound: spec_fn(ExprView) -> ExprView,
) -> PlanView
    decreases plan,
{
    match plan {
        PlanView::Filter { predicate, input } => PlanView::Filter {
            predicate: with_bounds(predicate, columns, bound),
            input: Box::new(plan_with_bounds(*input, columns, bound)),
        },
        PlanView::Aggregate { input, group_expr, aggr_expr } => PlanView::Aggregate {
            input: Box::new(plan_with_bounds(*input, columns, bound)),
            group_expr: all_with_bounds(group_expr, columns, bound),
            aggr_expr: all_with_bounds(aggr_expr, columns, bound),
        },
        _ => plan,
    }
}

/// The expressions with `bound` applied to each literal that bounds a column of the set.
pub open spec fn all_with_bounds(
    exprs: Seq<ExprView>,
    columns: Set<ColumnView>,
    bound: spec_fn(ExprView) -> ExprView,
) -> Seq<ExprView> {
    Seq::new(exprs.len(), |i: int| with_bounds(exprs[i], columns, bound))
}

/// The plan with the placeholder in place of the literals that bound the columns.
pub open spec fn normalized_plan(plan: PlanView, columns: Set<ColumnView>) -> PlanView {
    plan_with_bounds(plan, columns, crate::normalize::blank())
}

fn normalize_all(exprs: &Vec<Expr>, temporal_columns: &ColumnSet) -> (normal: Vec<Expr>)
    ensures
        exprs_view(normal@) == all_with_bounds(
            exprs_view(exprs@),
            temporal_columns@,
            crate::normalize::blank(),
        ),
{
    let mut normal: Vec<Expr> = Vec::new();
    let mut i: usize = 0;
    while i < exprs.len()
        invariant
            i <= exprs@.len(),
            normal@.len() == i,
            forall|j: int|
                0 <= j < i ==> (#[trigger] normal@[j])@ == normalized(
                    exprs@[j]@,
                    temporal_columns@,
                ),
        decreases exprs@.len() - i,
    {
        normal.push(normalize_temporal_bounds_in_expr(&exprs[i], temporal_columns));
        i = i + 1;
    }
    assert(exprs_view(normal@) =~= all_with_bounds(
        exprs_view(exprs@),
        temporal_columns@,
        crate::normalize::blank(),
    ));
    normal
}

/// Normalize temporal bounds in a logical plan for fingerprinting.
pub fn normalize_temporal_bounds_in_plan(
    plan: &LogicalPlan,
    temporal_columns: &ColumnSet,
) -> (normal: LogicalPlan)
    ensures
        normal@ == normalized_plan(plan@, temporal_columns@),
    decreases plan,
{
    match plan {
        LogicalPlan::Filter(filter) => LogicalPlan::Filter(
            Filter {
                predicate: normalize_temporal_bounds_in_expr(&filter.predicate, temporal_columns),
                input: Box::new(
                    normalize_temporal_bounds_in_plan(&filter.input, temporal_columns),
                ),
            },
        ),
        LogicalPlan::Aggregate(agg) => LogicalPlan::Aggregate(
            Aggregate {
                input: Box::new(normalize_temporal_bounds_in_plan(&agg.input, temporal_columns)),
                group_expr: normalize_all(&agg.group_expr, temporal_columns),
                aggr_expr: normalize_all(&agg.aggr_expr, temporal_columns),
            },
        ),
        // Only the expressions of aggregations with filters are normalized
        _ => plan.clone(),
    }
}

/// Plans that differ only in the literals that bound the columns share one normal form.
pub proof fn law_bounds_do_not_show_in_plans(
    plan: PlanView,
    columns: Set<ColumnView>,
    bound: spec_fn(ExprView) -> ExprView,
)
    requires
        forall|literal: ExprView| literal is Literal ==> #[trigger] bound(literal) is Literal,
    ensures
        normalized_plan(plan_with_bounds(plan, columns, bound), columns) == normalized_plan(
            plan,
            columns,
        ),
    decreases plan,
{
    match plan {
        PlanView::Filter { predicate, input } => {
            crate::normalize::law_bounds_do_not_show(predicate, columns, bound);
            law_bounds_do_not_show_in_plans(*input, columns, bound);
        },
        PlanView::Aggregate { input, group_expr, aggr_expr } => {
            law_bounds_do_not_show_in_plans(*input, columns, bound);
            lemma_bounds_do_not_show_in_lists(group_expr, columns, bound);
            lemma_bounds_do_not_show_in_lists(aggr_expr, columns, bound);
        },
        _ => {},
    }
}

proof fn lemma_bounds_do_not_show_in_lists(
    exprs: Seq<ExprView>,
    columns: Set<ColumnView>,
    bound: spec_fn(ExprView) -> ExprView,
)
    requires
        forall|literal: ExprView| literal is Literal ==> #[trigger] bound(literal) is Literal,
    ensures
        all_with_bounds(
            all_with_bounds(exprs, columns, bound),
            columns,
            crate::normalize::blank(),
        ) == all_with_bounds(exprs, columns, crate::normalize::blank()),
{
    assert forall|i: int| 0 <= i < exprs.len() implies normalized(
        with_bounds(#[trigger] exprs[i], columns, bound),
        columns,
    ) == normalized(exprs[i], columns) by {
        crate::normalize::law_bounds_do_not_show(exprs[i], columns, bound);
    }
    assert(all_with_bounds(
        all_with_bounds(exprs, columns, bound),
        columns,
        crate::normalize::blank(),
    ) =~= all_with_bounds(exprs, columns, crate::normalize::blank()));
}

/// Normalizing a plan twice is the same as normalizing it once.
pub proof fn law_normalizing_plans_is_idempotent(plan: PlanView, columns: Set<ColumnView>)
    ensures
        normalized_plan(normalized_plan(plan, columns), columns) == normalized_plan(plan, columns),
{
    law_bounds_do_not_show_in_plans(plan, columns, crate::normalize::blank());
}

/// What a plan says keeps every part of it.
pub proof fn law_plans_keep_their_parts(
    projection: Projection,
    filter: Filter,
    aggregate: Aggregate,
    scan: TableScan,
    node: QCAggregatePlanNode,
    handle: u64,
)
    ensures
        LogicalPlan::Projection(projection)@ == (PlanView::Projection {
            node: projection.node,
            input: Box::new((*projection.input)@),
        }),
        LogicalPlan::Filter(filter)@ == (PlanView::Filter {
            predicate: filter.predicate@,
            input: Box::new((*filter.input)@),
        }),
        LogicalPlan::Aggregate(aggregate)@ == (PlanView::Aggregate {
            input: Box::new((*aggregate.input)@),
            group_expr: exprs_view(aggregate.group_expr@),
            aggr_expr: exprs_view(aggregate.aggr_expr@),
        }),
        LogicalPlan::TableScan(scan)@ == PlanView::TableScan(scan@),
        LogicalPlan::Extension(Extension::QueryCache(Box::new(node)))@ == PlanView::QueryCache(
            Box::new(node@),
        ),
        LogicalPlan::Extension(Extension::Other(handle))@ == PlanView::Extension(handle),
        LogicalPlan::Other(handle)@ == PlanView::Other(handle),
{
}

/// What a scan and a cached aggregation say keeps every part of them.
pub proof fn law_nodes_keep_their_parts(scan: TableScan, node: QCAggregatePlanNode)
    ensures
        scan@.node == scan.node,
        scan@.source_fields.len() == scan.source_fields@.len(),
        forall|i: int|
            0 <= i < scan.source_fields@.len() ==> #[trigger] scan@.source_fields[i]
                == scan.source_fields@[i]@,
        scan@.projected_fields.len() == scan.projected_fields@.len(),
        forall|i: int|
            0 <= i < scan.projected_fields@.len() ==> #[trigger] scan@.projected_fields[i]
                == scan.projected_fields@[i]@,
        scan@.projection == match scan.projection {
            Some(projection) => Some(projection@),
            None => None,
        },
        scan@.filters == exprs_view(scan.filters@),
        node@.input == node.input@,
        node@.fingerprint == node.fingerprint@,
        node@.temporal_column == node.temporal_column@,
        node@.interval == node.interval,
{
}

/// Normalizing a plan goes from the top through filters and aggregations, normalizes every
/// expression of theirs in its place, and leaves the first node of another kind as it is.
pub proof fn law_normalizing_plans_goes_through_filters_and_aggregations(
    plan: PlanView,
    columns: Set<ColumnView>,
)
    ensures
        match plan {
            PlanView::Filter { predicate, input } => normalized_plan(plan, columns) == (
            PlanView::Filter {
                predicate: normalized(predicate, columns),
                input: Box::new(normalized_plan(*input, columns)),
            }),
            PlanView::Aggregate { input, group_expr, aggr_expr } => {
                &&& normalized_plan(plan, columns) matches PlanView::Aggregate {
                    input: input2,
                    group_expr: group_expr2,
                    aggr_expr: aggr_expr2,
                }
                &&& *input2 == normalized_plan(*input, columns)
                &&& group_expr2.len() == group_expr.len()
                &&& forall|i: int|
                    0 <= i < group_expr.len() ==> #[trigger] group_expr2[i] == normalized(
                        group_expr[i],
                        columns,
                    )
                &&& aggr_expr2.len() == aggr_expr.len()
                &&& forall|i: int|
                    0 <= i < aggr_expr.len() ==> #[trigger] aggr_expr2[i] == normalized(
                        aggr_expr[i],
                        columns,
                    )
            },
            _ => normalized_plan(plan, columns) == plan,
        },
{
}

/// Texts are listed as they are.
pub proof fn law_lists_keep_their_texts(texts: Seq<String>)
    ensures
        texts_view(texts).len() == texts.len(),
        forall|i: int| 0 <= i < texts.len() ==> #[trigger] texts_view(texts)[i] == texts[i]@,
{
}

} // verus!
