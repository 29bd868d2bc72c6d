//! Physical plans, as far as the cache looks into them.

use vstd::prelude::*;
use vstd::string::*;

use crate::column::Column;
use crate::exec::{CACHED_NAME, CACHE_UPDATE_NAME, UNION_NAME};
use crate::scalar::{copy_text, text_view, TimeUnit};

verus! {

/// In which stage of an aggregation a plan node takes part.
#[derive(Debug, Clone, Copy, PartialEq, Eq, Structural)]
pub enum AggregateMode {
    Partial,
    Final,
    FinalPartitioned,
    Single,
    SinglePartitioned,
}

/// A field of a schema. A timestamp has a unit and may have a time zone; fields of other types
/// are known by their name alone.
#[derive(Debug, PartialEq, Eq)]
pub struct Field {
    pub name: String,
    pub timestamp: Option<(TimeUnit, Option<String>)>,
}

/// What a field is.
pub struct FieldView {
    pub name: Seq<char>,
    pub timestamp: Option<(TimeUnit, Option<Seq<char>>)>,
}

impl View for Field {
    type V = FieldView;

    open spec fn view(&self) -> FieldView {
        FieldView {
            name: self.name@,
            timestamp: match self.timestamp {
                Some((unit, zone)) => Some((unit, text_view(zone))),
                None => None,
            },
        }
    }
}

/// A physical plan. `node` is the handle of a node and stands for all that the cache does not
/// read of it, `fields` is its schema.
#[derive(Debug, PartialEq, Eq)]
pub enum PhysicalPlan {
    Aggregate { node: u64, fields: Vec<Field>, mode: AggregateMode, input: Box<PhysicalPlan> },
    /// `exprs` counts the expressions.
    Projection { node: u64, fields: Vec<Field>, exprs: usize, input: Box<PhysicalPlan> },
    Filter {
        node: u64,
        fields: Vec<Field>,
        projection: Option<Vec<usize>>,
        input: Box<PhysicalPlan>,
    },
    CoalescePartitions { node: u64, fields: Vec<Field>, input: Box<PhysicalPlan> },
    Other { node: u64, name: String, fields: Vec<Field>, children: Vec<PhysicalPlan> },
}

/// What a physical plan is.
pub enum PhysicalView {
    Aggregate { node: u64, fields: Seq<FieldView>, mode: AggregateMode, input: Box<PhysicalView> },
    Projection { node: u64, fields: Seq<FieldView>, exprs: usize, input: Box<PhysicalView> },
    Filter {
        node: u64,
        fields: Seq<FieldView>,
        projection: Option<Seq<usize>>,
        input: Box<PhysicalView>,
    },
    CoalescePartitions { node: u64, fields: Seq<FieldView>, input: Box<PhysicalView> },
    Other { node: u64, name: Seq<char>, fields: Seq<FieldView>, children: Seq<PhysicalView> },
}

/// What each of the fields is.
pub open spec fn fields_view(fields: Seq<Field>) -> Seq<FieldView> {
    Seq::new(fields.len(), |i: int| fields[i]@)
}

/// What an optional list of column indices holds.
pub open spec fn indices_view(indices: Option<Vec<usize>>) -> Option<Seq<usize>> {
    match indices {
        Some(indices) => Some(indices@),
        None => None,
    }
}

/// What a physical plan is.
pub open spec fn physical_view(plan: PhysicalPlan) -> PhysicalView
    decreases plan,
{
    match plan {
        PhysicalPlan::Aggregate { node, fields, mode, input } => PhysicalView::Aggregate {
            node,
            fields: fields_view(fields@),
            mode,
            input: Box::new(physical_view(*input)),
        },
        PhysicalPlan::Projection { node, fields, exprs, input } => PhysicalView::Projection {
            node,
            fields: fields_view(fields@),
            exprs,
            input: Box::new(physical_view(*input)),
        },
        PhysicalPlan::Filter { node, fields, projection, input } => PhysicalView::Filter {
            node,
            fields: fields_view(fields@),
            projection: indices_view(projection),
            input: Box::new(physical_view(*input)),
        },
        PhysicalPlan::CoalescePartitions { node, fields, input } => {
            PhysicalView::CoalescePartitions {
                node,
                fields: fields_view(fields@),
                input: Box::new(physical_view(*input)),
            }
        },
        PhysicalPlan::Other { node, name, fields, children } => PhysicalView::Other {
            node,
            name: name@,
            fields: fields_view(fields@),
            children: Seq::new(
                children@.len(),
                |i: int|
                    if 0 <= i < children@.len() {
                        physical_view(children@[i])
                    } else {
                        arbitrary()
                    },
            ),
        },
    }
}

impl View for PhysicalPlan {
    type V = PhysicalView;

    open spec fn view(&self) -> PhysicalView {
        physical_view(*self)
    }
}

impl PhysicalView {
    /// The handle of the node.
    pub open spec fn node(self) -> u64 {
        match self {
            PhysicalView::Aggregate { node, .. } => node,
            PhysicalView::Projection { node, .. } => node,
            PhysicalView::Filter { node, .. } => node,
            PhysicalView::CoalescePartitions { node, .. } => node,
            PhysicalView::Other { node, .. } => node,
        }
    }

    /// The schema.
    pub open spec fn fields(self) -> Seq<FieldView> {
        match self {
            PhysicalView::Aggregate { fields, .. } => fields,
            PhysicalView::Projection { fields, .. } => fields,
            PhysicalView::Filter { fields, .. } => fields,
            PhysicalView::CoalescePartitions { fields, .. } => fields,
            PhysicalView::Other { fields, .. } => fields,
        }
    }

    /// The name of the kind of node.
    pub open spec fn name(self) -> Seq<char> {
        match self {
            PhysicalView::Aggregate { .. } => AGGREGATE_NAME@,
            PhysicalView::Projection { .. } => PROJECTION_NAME@,
            PhysicalView::Filter { .. } => FILTER_NAME@,
            PhysicalView::CoalescePartitions { .. } => COALESCE_NAME@,
            PhysicalView::Other { name, .. } => name,
        }
    }
}

pub const AGGREGATE_NAME: &'static str = "AggregateExec";

pub const PROJECTION_NAME: &'static str = "ProjectionExec";

pub const FILTER_NAME: &'static str = "FilterExec";

pub const COALESCE_NAME: &'static str = "CoalescePartitionsExec";

/// A node that stands for a whole cached aggregation.
pub const INNER_NAME: &'static str = "QueryCacheAggregateExec";

impl PhysicalPlan {
    /// The handle of the node.
    pub fn node(&self) -> (node: u64)
        ensures
            node == self@.node(),
    {
        match self {
            PhysicalPlan::Aggregate { node, .. } => *node,
            PhysicalPlan::Projection { node, .. } => *node,
            PhysicalPlan::Filter { node, .. } => *node,
            PhysicalPlan::CoalescePartitions { node, .. } => *node,
            PhysicalPlan::Other { node, .. } => *node,
        }
    }

    /// The schema.
    pub fn schema(&self) -> (fields: &Vec<Field>)
        ensures
            fields_view(fields@) == self@.fields(),
    {
        match self {
            PhysicalPlan::Aggregate { fields, .. } => fields,
            PhysicalPlan::Projection { fields, .. } => fields,
            PhysicalPlan::Filter { fields, .. } => fields,
            PhysicalPlan::CoalescePartitions { fields, .. } => fields,
            PhysicalPlan::Other { fields, .. } => fields,
        }
    }

    /// The name of the kind of node.
    pub fn name(&self) -> (name: String)
        ensures
            name@ == self@.name(),
    {
        match self {
            PhysicalPlan::Aggregate { .. } => AGGREGATE_NAME.to_string(),
            PhysicalPlan::Projection { .. } => PROJECTION_NAME.to_string(),
            PhysicalPlan::Filter { .. } => FILTER_NAME.to_string(),
            PhysicalPlan::CoalescePartitions { .. } => COALESCE_NAME.to_string(),
            PhysicalPlan::Other { name, .. } => name.clone(),
        }
    }
}

/// A timestamp column of a schema: its place, unit and time zone.
#[derive(Debug, PartialEq, Eq)]
pub struct TimestampColumn {
    pub place: usize,
    pub unit: TimeUnit,
    pub zone: Option<String>,
}

/// What a timestamp column of a schema is.
pub struct TimestampColumnView {
    pub place: int,
    pub unit: TimeUnit,
    pub zone: Option<Seq<char>>,
}

impl View for TimestampColumn {
    type V = TimestampColumnView;

    open spec fn view(&self) -> TimestampColumnView {
        TimestampColumnView {
            place: self.place as int,
            unit: self.unit,
            zone: text_view(self.zone),
        }
    }
}

/// What an optional timestamp column is.
pub open spec fn timestamp_view(column: Option<TimestampColumn>) -> Option<TimestampColumnView> {
    match column {
        Some(column) => Some(column@),
        None => None,
    }
}

/// The first field of the name that is a timestamp.
pub open spec fn timestamp_in_schema(fields: Seq<FieldView>, name: Seq<char>) -> Option<
    TimestampColumnView,
>
    decreases fields.len(),
{
    if fields.len() == 0 {
        None
    } else {
        match timestamp_in_schema(fields.drop_last(), name) {
            Some(found) => Some(found),
            None => match fields.last().timestamp {
                Some((unit, zone)) => if fields.last().name == name {
                    Some(TimestampColumnView { place: fields.len() - 1, unit, zone })
                } else {
                    None
                },
                None => None,
            },
        }
    }
}

/// The first timestamp column of the name in the schema of the plan or, where that has none, in
/// those of the plans under it, taken in turn.
pub open spec fn timestamp_in_plan(plan: PhysicalView, name: Seq<char>) -> Option<
    TimestampColumnView,
>
    decreases plan,
{
    match timestamp_in_schema(plan.fields(), name) {
        Some(found) => Some(found),
        None => match plan {
            PhysicalView::Aggregate { input, .. } => timestamp_in_plan(*input, name),
            PhysicalView::Projection { input, .. } => timestamp_in_plan(*input, name),
            PhysicalView::Filter { input, .. } => timestamp_in_plan(*input, name),
            PhysicalView::CoalescePartitions { input, .. } => timestamp_in_plan(*input, name),
            PhysicalView::Other { children, .. } => timestamp_in_plans(children, name),
        },
    }
}

/// The first that `timestamp_in_plan` finds in one of the plans.
pub open spec fn timestamp_in_plans(plans: Seq<PhysicalView>, name: Seq<char>) -> Option<
    TimestampColumnView,
>
    decreases plans,
{
    if plans.len() == 0 {
        None
    } else {
        match timestamp_in_plans(plans.drop_last(), name) {
            Some(found) => Some(found),
            None => timestamp_in_plan(plans[plans.len() - 1], name),
        }
    }
}

/// Find the timestamp column in a schema.
pub fn find_column_in_schema(fields: &Vec<Field>, column: &Column) -> (found: Option<
    TimestampColumn,
>)
    ensures
        timestamp_view(found) == timestamp_in_schema(fields_view(fields@), column@.name),
{
    let ghost views = fields_view(fields@);
    let mut i: usize = 0;
    assert(views.take(0) =~= seq![]);
    while i < fields.len()
        invariant
            i <= fields@.len(),
            views == fields_view(fields@),
            timestamp_in_schema(views.take(i as int), column@.name) is None,
        decreases fields@.len() - i,
    {
        let field = &fields[i];
        proof {
            let longer = views.take(i + 1);
            assert(longer.drop_last() =~= views.take(i as int));
            assert(longer.last() == field@);
        }
        if field.name == column.name {
            if let Some((unit, zone)) = &field.timestamp {
                let found = TimestampColumn { place: i, unit: *unit, zone: copy_text(zone) };
                proof {
                    assert(timestamp_in_schema(views.take(i + 1), column@.name) == Some(found@));
                    lemma_first_timestamp_stays(views, column@.name, i + 1);
                }
                return Some(found);
            }
        }
        i = i + 1;
    }
    assert(views.take(i as int) =~= views);
    None
}

/// What is found in the first fields of a schema is found in all of it.
proof fn lemma_first_timestamp_stays(fields: Seq<FieldView>, name: Seq<char>, n: int)
    requires
        0 <= n <= fields.len(),
        timestamp_in_schema(fields.take(n), name) is Some,
    ensures
        timestamp_in_schema(fields, name) == timestamp_in_schema(fields.take(n), name),
    decreases fields.len() - n,
{
    if n < fields.len() {
        assert(fields.take(n + 1).drop_last() =~= fields.take(n));
        lemma_first_timestamp_stays(fields, name, n + 1);
    } else {
        assert(fields.take(n) =~= fields);
    }
}

/// What is found in the first plans is found in all of them.
proof fn lemma_first_plan_stays(plans: Seq<PhysicalView>, name: Seq<char>, n: int)
    requires
        0 <= n <= plans.len(),
        timestamp_in_plans(plans.take(n), name) is Some,
    ensures
        timestamp_in_plans(plans, name) == timestamp_in_plans(plans.take(n), name),
    decreases plans.len() - n,
{
    if n < plans.len() {
        assert(plans.take(n + 1).drop_last() =~= plans.take(n));
        lemma_first_plan_stays(plans, name, n + 1);
    } else {
        assert(plans.take(n) =~= plans);
    }
}

/// Find the timestamp column in the execution plan by traversing through the plans under it.
pub fn find_timestamp_column_in_plan(plan: &PhysicalPlan, column: &Column) -> (found: Option<
    TimestampColumn,
>)
    ensures
        timestamp_view(found) == timestamp_in_plan(plan@, column@.name),
    decreases plan,
{
    if let Some(found) = find_column_in_schema(plan.schema(), column) {
        return Some(found);
    }
    match plan {
        PhysicalPlan::Aggregate { input, .. } => find_timestamp_column_in_plan(input, column),
        PhysicalPlan::Projection { input, .. } => find_timestamp_column_in_plan(input, column),
        PhysicalPlan::Filter { input, .. } => find_timestamp_column_in_plan(input, column),
        PhysicalPlan::CoalescePartitions { input, .. } => find_timestamp_column_in_plan(
            input,
            column,
        ),
        PhysicalPlan::Other { children, .. } => {
            let ghost views = plan@->children;
            let mut i: usize = 0;
            assert(views.take(0) =~= seq![]);
            while i < children.len()
                invariant
                    i <= children@.len(),
                    decreases_to!(plan => children),
                    views.len() == children@.len(),
                    forall|j: int| 0 <= j < views.len() ==> #[trigger] views[j] == children@[j]@,
                    timestamp_in_plans(views.take(i as int), column@.name) is None,
                    timestamp_in_plan(plan@, column@.name) == timestamp_in_plans(
                        views,
                        column@.name,
                    ),
                decreases children@.len() - i,
            {
                assert(decreases_to!(children => children@));
                assert(decreases_to!(children@ => children@[i as int]));
                proof {
                    let longer = views.take(i + 1);
                    assert(longer.drop_last() =~= views.take(i as int));
                    assert(longer[longer.len() - 1] == children@[i as int]@);
                }
                if let Some(found) = find_timestamp_column_in_plan(&children[i], column) {
                    proof {
                        assert(timestamp_in_plans(views.take(i + 1), column@.name) == Some(found@));
                        lemma_first_plan_stays(views, column@.name, i + 1);
                    }
                    return Some(found);
                }
                i = i + 1;
            }
            assert(views.take(i as int) =~= views);
            None
        },
    }
}

/// The name is that of a node that the planner puts for a cached aggregation.
pub open spec fn is_cache_name(name: Seq<char>) -> bool {
    name == INNER_NAME@ || name == CACHE_UPDATE_NAME@ || name == CACHED_NAME@
}

/// A cached aggregation stands at the top of the plan, under aggregations, coalesced partitions
/// and unions at most.
pub open spec fn has_inner_exec(plan: PhysicalView) -> bool
    decreases plan,
{
    match plan {
        PhysicalView::Aggregate { input, .. } => has_inner_exec(*input),
        PhysicalView::CoalescePartitions { input, .. } => has_inner_exec(*input),
        PhysicalView::Other { name, children, .. } => is_cache_name(name) || (name == UNION_NAME@
            && any_has_inner_exec(children)),
        _ => false,
    }
}

/// A cached aggregation stands at the top of one of the plans.
pub open spec fn any_has_inner_exec(plans: Seq<PhysicalView>) -> bool
    decreases plans,
{
    plans.len() > 0 && (any_has_inner_exec(plans.drop_last()) || has_inner_exec(
        plans[plans.len() - 1],
    ))
}

/// Down to the node that decides on `has_inner_exec`, no node of another kind goes by the name of
/// an aggregation or of coalesced partitions.
pub open spec fn is_named_truly(plan: PhysicalView) -> bool
    decreases plan,
{
    match plan {
        PhysicalView::Aggregate { input, .. } => is_named_truly(*input),
        PhysicalView::CoalescePartitions { input, .. } => is_named_truly(*input),
        PhysicalView::Other { name, .. } => name != AGGREGATE_NAME@ && name != COALESCE_NAME@,
        _ => true,
    }
}

/// A plan that has a cached aggregation is one among those that have.
pub proof fn lemma_one_has_inner_exec(plans: Seq<PhysicalView>, i: int)
    requires
        0 <= i < plans.len(),
        has_inner_exec(plans[i]),
    ensures
        any_has_inner_exec(plans),
    decreases plans.len(),
{
    if i < plans.len() - 1 {
        lemma_one_has_inner_exec(plans.drop_last(), i);
    }
}

/// Whether the nodes down to the one that decides on `find_existing_inner_exec` have the names of
/// their kinds.
pub fn names_are_true(plan: &PhysicalPlan) -> (named: bool)
    ensures
        named == is_named_truly(plan@),
    decreases plan,
{
    match plan {
        PhysicalPlan::Aggregate { input, .. } => names_are_true(input),
        PhysicalPlan::CoalescePartitions { input, .. } => names_are_true(input),
        PhysicalPlan::Other { name, .. } => *name != AGGREGATE_NAME.to_string() && *name
            != COALESCE_NAME.to_string(),
        _ => true,
    }
}

/// Check for an existing cached aggregation in the plan. A node that goes by the name of an
/// aggregation or of coalesced partitions has to be one.
pub fn find_existing_inner_exec(plan: &PhysicalPlan) -> (found: bool)
    requires
        is_named_truly(plan@),
    ensures
        found == has_inner_exec(plan@),
{
    holds_inner_exec(plan)
}

/// Whether a cached aggregation stands at the top of the plan.
fn holds_inner_exec(plan: &PhysicalPlan) -> (found: bool)
    ensures
        found == has_inner_exec(plan@),
    decreases plan,
{
    match plan {
        PhysicalPlan::Aggregate { input, .. } => holds_inner_exec(input),
        PhysicalPlan::CoalescePartitions { input, .. } => holds_inner_exec(input),
        PhysicalPlan::Other { name, children, .. } => {
            if *name == INNER_NAME.to_string() || *name == CACHE_UPDATE_NAME.to_string() || *name
                == CACHED_NAME.to_string() {
                return true;
            }
            if *name != UNION_NAME.to_string() {
                return false;
            }
            let ghost views = plan@->children;
            let mut i: usize = 0;
            assert(views.take(0) =~= seq![]);
            while i < children.len()
                invariant
                    i <= children@.len(),
                    decreases_to!(plan => children),
                    views.len() == children@.len(),
                    forall|j: int| 0 <= j < views.len() ==> #[trigger] views[j] == children@[j]@,
                    !any_has_inner_exec(views.take(i as int)),
                    has_inner_exec(plan@) == any_has_inner_exec(views),
                decreases children@.len() - i,
            {
                assert(decreases_to!(children => children@));
                assert(decreases_to!(children@ => children@[i as int]));
                proof {
                    let longer = views.take(i + 1);
                    assert(longer.drop_last() =~= views.take(i as int));
                    assert(longer[longer.len() - 1] == children@[i as int]@);
                }
                if holds_inner_exec(&children[i]) {
                    proof {
                        lemma_one_has_inner_exec(views, i as int);
                    }
                    return true;
                }
                i = i + 1;
            }
            assert(views.take(i as int) =~= views);
            false
        },
        _ => false,
    }
}

/// What a physical plan is keeps every part of it.
pub proof fn law_physical_plans_keep_their_parts(
    node: u64,
    name: String,
    fields: Vec<Field>,
    mode: AggregateMode,
    exprs: usize,
    projection: Option<Vec<usize>>,
    input: Box<PhysicalPlan>,
    children: Vec<PhysicalPlan>,
)
    ensures
        ({
            let schema = fields_view(fields@);
            let below = Box::new((*input)@);
            &&& PhysicalPlan::Aggregate { node, fields, mode, input }@ == (
            PhysicalView::Aggregate { node, fields: schema, mode, input: below })
            &&& PhysicalPlan::Projection { node, fields, exprs, input }@ == (
            PhysicalView::Projection { node, fields: schema, exprs, input: below })
            &&& PhysicalPlan::Filter { node, fields, projection, input }@ == (
            PhysicalView::Filter {
                node,
                fields: schema,
                projection: match projection {
                    Some(places) => Some(places@),
                    None => None,
                },
                input: below,
            })
            &&& PhysicalPlan::CoalescePartitions { node, fields, input }@ == (
            PhysicalView::CoalescePartitions { node, fields: schema, input: below })
        }),
        ({
            let plan = PhysicalPlan::Other { node, name, fields, children };
            &&& plan@ is Other
            &&& plan@.node() == node
            &&& plan@.name() == name@
            &&& plan@.fields() == fields_view(fields@)
            &&& plan@->children.len() == children@.len()
            &&& forall|i: int|
                0 <= i < children@.len() ==> #[trigger] plan@->children[i] == children@[i]@
        }),
{
}

/// What a schema is keeps the names of its fields and, of those that are timestamps, their units
/// and time zones.
pub proof fn law_schemas_keep_their_fields(fields: Seq<Field>, i: int)
    requires
        0 <= i < fields.len(),
    ensures
        fields_view(fields).len() == fields.len(),
        fields_view(fields)[i].name == fields[i].name@,
        fields_view(fields)[i].timestamp == match fields[i].timestamp {
            Some((unit, Some(zone))) => Some((unit, Some(zone@))),
            Some((unit, None)) => Some((unit, None)),
            None => None,
        },
{
}

/// A node has the handle, the schema and the name that it was given, and one of a known kind the
/// name of its kind.
pub proof fn law_nodes_have_the_names_of_their_kinds(
    node: u64,
    fields: Seq<FieldView>,
    mode: AggregateMode,
    exprs: usize,
    projection: Option<Seq<usize>>,
    name: Seq<char>,
    input: Box<PhysicalView>,
    children: Seq<PhysicalView>,
)
    ensures
        ({
            let plan = PhysicalView::Aggregate { node, fields, mode, input };
            plan.node() == node && plan.fields() == fields && plan.name() == "AggregateExec"@
        }),
        ({
            let plan = PhysicalView::Projection { node, fields, exprs, input };
            plan.node() == node && plan.fields() == fields && plan.name() == "ProjectionExec"@
        }),
        ({
            let plan = PhysicalView::Filter { node, fields, projection, input };
            plan.node() == node && plan.fields() == fields && plan.name() == "FilterExec"@
        }),
        ({
            let plan = PhysicalView::CoalescePartitions { node, fields, input };
            plan.node() == node && plan.fields() == fields && plan.name()
                == "CoalescePartitionsExec"@
        }),
        ({
            let plan = PhysicalView::Other { node, name, fields, children };
            plan.node() == node && plan.fields() == fields && plan.name() == name
        }),
{
}

/// The column is looked for in the schema of a plan first, then in the plan under it, and of
/// several plans in the first that has it.
pub proof fn law_timestamps_are_found_from_the_top(
    plan: PhysicalView,
    plans: Seq<PhysicalView>,
    name: Seq<char>,
)
    ensures
        timestamp_in_schema(plan.fields(), name) is Some ==> timestamp_in_plan(plan, name)
            == timestamp_in_schema(plan.fields(), name),
        timestamp_in_schema(plan.fields(), name) is None ==> timestamp_in_plan(plan, name)
            == match plan {
            PhysicalView::Aggregate { input, .. } => timestamp_in_plan(*input, name),
            PhysicalView::Projection { input, .. } => timestamp_in_plan(*input, name),
            PhysicalView::Filter { input, .. } => timestamp_in_plan(*input, name),
            PhysicalView::CoalescePartitions { input, .. } => timestamp_in_plan(*input, name),
            PhysicalView::Other { children, .. } => timestamp_in_plans(children, name),
        },
        match timestamp_in_plans(plans, name) {
            Some(column) => exists|i: int|
                {
                    &&& 0 <= i < plans.len()
                    &&& #[trigger] timestamp_in_plan(plans[i], name) == Some(column)
                    &&& forall|j: int|
                        0 <= j < i ==> #[trigger] timestamp_in_plan(plans[j], name) is None
                },
            None => forall|i: int|
                0 <= i < plans.len() ==> #[trigger] timestamp_in_plan(plans[i], name) is None,
        },
    decreases plans.len(),
{
    if plans.len() > 0 {
        let before = plans.drop_last();
        law_timestamps_are_found_from_the_top(plan, before, name);
        assert forall|i: int| 0 <= i < before.len() implies before[i] == #[trigger] plans[i] by {}
        if timestamp_in_plans(before, name) is Some {
            let i = choose|i: int|
                {
                    &&& 0 <= i < before.len()
                    &&& #[trigger] timestamp_in_plan(before[i], name) == timestamp_in_plans(
                        before,
                        name,
                    )
                    &&& forall|j: int|
                        0 <= j < i ==> #[trigger] timestamp_in_plan(before[j], name) is None
                };
            assert forall|j: int| 0 <= j < i implies #[trigger] timestamp_in_plan(
                plans[j],
                name,
            ) is None by {
                assert(timestamp_in_plan(before[j], name) is None);
            }
            assert(timestamp_in_plan(plans[i], name) == timestamp_in_plans(plans, name));
        } else {
            assert forall|j: int| 0 <= j < before.len() implies #[trigger] timestamp_in_plan(
                plans[j],
                name,
            ) is None by {
                assert(timestamp_in_plan(before[j], name) is None);
            }
            assert(timestamp_in_plan(plans[plans.len() - 1], name) == timestamp_in_plans(
                plans,
                name,
            ));
        }
    }
}

/// A cached aggregation is recognised by its name, under aggregations, coalesced partitions and
/// unions, and under nothing else.
pub proof fn law_cached_aggregations_are_recognised(plan: PhysicalView, plans: Seq<PhysicalView>)
    ensures
        has_inner_exec(plan) == match plan {
            PhysicalView::Aggregate { input, .. } => has_inner_exec(*input),
            PhysicalView::CoalescePartitions { input, .. } => has_inner_exec(*input),
            PhysicalView::Projection { .. } => false,
            PhysicalView::Filter { .. } => false,
            PhysicalView::Other { name, children, .. } => {
                ||| name == "QueryCacheAggregateExec"@
                ||| name == "CacheUpdateAggregateExec"@
                ||| name == "CachedAggregateExec"@
                ||| name == "UnionExec"@ && any_has_inner_exec(children)
            },
        },
        any_has_inner_exec(plans) <==> exists|i: int|
            0 <= i < plans.len() && has_inner_exec(#[trigger] plans[i]),
    decreases plans.len(),
{
    if plans.len() > 0 {
        let before = plans.drop_last();
        law_cached_aggregations_are_recognised(plan, before);
        if exists|i: int| 0 <= i < plans.len() && has_inner_exec(#[trigger] plans[i]) {
            let i = choose|i: int| 0 <= i < plans.len() && has_inner_exec(#[trigger] plans[i]);
            lemma_one_has_inner_exec(plans, i);
        }
        if any_has_inner_exec(before) {
            let i = choose|i: int| 0 <= i < before.len() && has_inner_exec(#[trigger] before[i]);
            assert(has_inner_exec(plans[i]));
        } else if has_inner_exec(plans[plans.len() - 1]) {
            assert(has_inner_exec(plans[plans.len() - 1]));
        }
    }
}

/// The name of a node is believed unless a node of another kind has that of an aggregation or of
/// coalesced partitions.
pub proof fn law_names_are_believed(plan: PhysicalView)
    ensures
        is_named_truly(plan) == match plan {
            PhysicalView::Aggregate { input, .. } => is_named_truly(*input),
            PhysicalView::CoalescePartitions { input, .. } => is_named_truly(*input),
            PhysicalView::Projection { .. } => true,
            PhysicalView::Filter { .. } => true,
            PhysicalView::Other { name, .. } => name != "AggregateExec"@ && name
                != "CoalescePartitionsExec"@,
        },
{
}

/// What is known of a timestamp column keeps its place, its unit and its time zone.
pub proof fn law_timestamp_columns_keep_their_parts(column: TimestampColumn)
    ensures
        timestamp_view(Some(column)) == Some(column@),
        timestamp_view(None) is None,
        column@.place == column.place,
        column@.unit == column.unit,
        column@.zone == match column.zone {
            Some(zone) => Some(zone@),
            None => None,
        },
{
}

/// A projection keeps its places, and so does the lack of one.
pub proof fn law_projections_keep_their_places(places: Vec<usize>)
    ensures
        indices_view(Some(places)) == Some(places@),
        indices_view(None) == None::<Seq<usize>>,
{
}

/// The timestamp column of a name is the first field of that name that is a timestamp: a field
/// counts where no field before it does, with its place, its unit and its zone.
pub proof fn law_first_timestamp_of_a_schema(
    fields: Seq<FieldView>,
    field: FieldView,
    name: Seq<char>,
    unit: TimeUnit,
    zone: Option<Seq<char>>,
)
    ensures
        timestamp_in_schema(Seq::<FieldView>::empty(), name) == None::<TimestampColumnView>,
        timestamp_in_schema(fields, name) is Some ==> timestamp_in_schema(fields.push(field), name)
            == timestamp_in_schema(fields, name),
        timestamp_in_schema(fields, name) is None && field.name == name && field.timestamp == Some(
            (unit, zone),
        ) ==> timestamp_in_schema(fields.push(field), name) == Some(
            (TimestampColumnView { place: fields.len() as int, unit, zone }),
        ),
        timestamp_in_schema(fields, name) is None && (field.name != name || field.timestamp is None)
            ==> timestamp_in_schema(fields.push(field), name) is None,
{
    assert(fields.push(field).drop_last() =~= fields);
}

} // verus!
