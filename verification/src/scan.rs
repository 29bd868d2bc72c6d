//! The columns that a table scan reads.

use vstd::prelude::*;

use crate::expr::{copy_exprs, ExprView};
use crate::plan::{
    copy_texts, texts_view, Aggregate, Filter, LogicalPlan, PlanView, Projection, ScanView,
    TableScan,
};

verus! {

/// The fields at the places that a projection lists.
pub open spec fn picked_fields(source: Seq<Seq<char>>, projection: Seq<usize>) -> Seq<Seq<char>> {
    Seq::new(projection.len(), |i: int| source[projection[i] as int])
}

/// The scan gives the fields that its projection lists, or all of them where it has none. The
/// fields of the table can be counted.
pub open spec fn is_sound_scan(scan: ScanView) -> bool {
    &&& scan.source_fields.len() <= usize::MAX
    &&& match scan.projection {
        None => scan.projected_fields == scan.source_fields,
        Some(projection) => {
            &&& forall|i: int|
                0 <= i < projection.len() ==> #[trigger] projection[i] < scan.source_fields.len()
            &&& scan.projected_fields == picked_fields(scan.source_fields, projection)
        },
    }
}

/// The scan that filters, projections and aggregations stand on, if there is one, is sound.
pub open spec fn is_sound_plan(plan: PlanView) -> bool
    decreases plan,
{
    match plan {
        PlanView::TableScan(scan) => is_sound_scan(scan),
        PlanView::Filter { input, .. } => is_sound_plan(*input),
        PlanView::Projection { input, .. } => is_sound_plan(*input),
        PlanView::Aggregate { input, .. } => is_sound_plan(*input),
        _ => true,
    }
}

/// The scan under filters and projections.
pub open spec fn scan_below(plan: PlanView) -> Option<ScanView>
    decreases plan,
{
    match plan {
        PlanView::TableScan(scan) => Some(scan),
        PlanView::Filter { input, .. } => scan_below(*input),
        PlanView::Projection { input, .. } => scan_below(*input),
        _ => None,
    }
}

/// The plan with another scan under its aggregation, filters and projections, which stay.
pub open spec fn with_scan(plan: PlanView, scan: ScanView) -> PlanView
    decreases plan,
{
    match plan {
        PlanView::TableScan(_) => PlanView::TableScan(scan),
        PlanView::Filter { predicate, input } => PlanView::Filter {
            predicate,
            input: Box::new(with_scan(*input, scan)),
        },
        PlanView::Projection { node, input } => PlanView::Projection {
            node,
            input: Box::new(with_scan(*input, scan)),
        },
        PlanView::Aggregate { input, group_expr, aggr_expr } => PlanView::Aggregate {
            input: Box::new(with_scan(*input, scan)),
            group_expr,
            aggr_expr,
        },
        _ => plan,
    }
}

/// The order of column indices.
pub open spec fn ascending() -> spec_fn(usize, usize) -> bool {
    |a: usize, b: usize| a <= b
}

/// The projection with a further column, in the order of the table.
pub open spec fn extended_projection(projection: Seq<usize>, column: usize) -> Seq<usize> {
    projection.push(column).sort_by(ascending())
}

/// The scan with a further column.
pub open spec fn extended_scan(scan: ScanView, column: usize) -> ScanView
    recommends
        scan.projection is Some,
{
    let projection = extended_projection(scan.projection->0, column);
    ScanView {
        projected_fields: picked_fields(scan.source_fields, projection),
        projection: Some(projection),
        ..scan
    }
}

/// Sort column indices.
fn sort_indices(indices: Vec<usize>) -> (sorted: Vec<usize>)
    ensures
        sorted@ == indices@.sort_by(ascending()),
{
    let mut sorted: Vec<usize> = Vec::new();
    let mut n: usize = 0;
    proof {
        indices@.take(0).to_multiset_ensures();
        assert(indices@.take(0) =~= sorted@);
    }
    while n < indices.len()
        invariant
            n <= indices@.len(),
            sorted@.len() == n,
            vstd::relations::sorted_by(sorted@, ascending()),
            sorted@.to_multiset() == indices@.take(n as int).to_multiset(),
        decreases indices@.len() - n,
    {
        let index = indices[n];
        let mut at: usize = n;
        while at > 0 && sorted[at - 1] > index
            invariant
                at <= n,
                sorted@.len() == n,
                forall|b: int| at <= b < n ==> #[trigger] sorted@[b] > index,
            decreases at,
        {
            at = at - 1;
        }
        let ghost before = sorted@;
        sorted.insert(at, index);
        proof {
            assert forall|a: int, b: int| 0 <= a < b < sorted@.len() implies #[trigger] ascending()(
                sorted@[a],
                sorted@[b],
            ) by {
                if at > 0 && a < at - 1 {
                    assert(ascending()(before[a], before[at - 1]));
                }
                if a < at && b < at {
                    assert(ascending()(before[a], before[b]));
                }
                if a > at {
                    assert(ascending()(before[a - 1], before[b - 1]));
                }
            }
            before.to_multiset_ensures();
            before.insert_ensures(at as int, index);
            vstd::seq_lib::to_multiset_insert(before, at as int, index);
            let longer = indices@.take(n + 1);
            assert(longer =~= indices@.take(n as int).push(index));
            indices@.take(n as int).to_multiset_ensures();
        }
        n = n + 1;
    }
    proof {
        assert(indices@.take(n as int) =~= indices@);
        indices@.lemma_sort_by_ensures(ascending());
        vstd::seq_lib::lemma_sorted_unique(
            sorted@,
            indices@.sort_by(ascending()),
            ascending(),
        );
    }
    sorted
}

/// Whether a field of the name is listed.
pub fn has_field(fields: &Vec<String>, name: &String) -> (found: bool)
    ensures
        found == texts_view(fields@).contains(name@),
{
    match find_field(fields, name) {
        Some(_) => {
            proof {
                texts_view(fields@).index_of_first_ensures(name@);
            }
            true
        },
        None => {
            proof {
                texts_view(fields@).index_of_first_ensures(name@);
            }
            false
        },
    }
}

/// The place of the first field of the name.
pub fn find_field(fields: &Vec<String>, name: &String) -> (place: Option<usize>)
    ensures
        match place {
            Some(place) => texts_view(fields@).index_of_first(name@) == Some(place as int),
            None => texts_view(fields@).index_of_first(name@) is None,
        },
{
    let ghost texts = texts_view(fields@);
    let mut i: usize = 0;
    while i < fields.len()
        invariant
            i <= fields@.len(),
            texts == texts_view(fields@),
            forall|j: int| 0 <= j < i ==> #[trigger] texts[j] != name@,
        decreases fields@.len() - i,
    {
        assert(texts[i as int] == fields@[i as int]@);
        if fields[i] == *name {
            proof {
                texts.index_of_first_ensures(name@);
                assert(texts.contains(name@));
                let first = texts.index_of_first(name@)->0;
                assert(texts[first] == name@);
                if first > i {
                    assert(texts[i as int] != name@);
                }
            }
            return Some(i);
        }
        i = i + 1;
    }
    proof {
        texts.index_of_first_ensures(name@);
    }
    None
}

/// The scan under filters and projections.
pub fn find_scan(plan: &LogicalPlan) -> (scan: Option<&TableScan>)
    ensures
        match scan {
            Some(scan) => scan_below(plan@) == Some(scan@),
            None => scan_below(plan@) is None,
        },
    decreases plan,
{
    match plan {
        LogicalPlan::TableScan(scan) => Some(scan),
        LogicalPlan::Filter(filter) => find_scan(&filter.input),
        LogicalPlan::Projection(projection) => find_scan(&projection.input),
        _ => None,
    }
}

/// The plan with another scan under its aggregation, filters and projections.
pub fn replace_scan(plan: &LogicalPlan, scan: TableScan) -> (replaced: LogicalPlan)
    ensures
        replaced@ == with_scan(plan@, scan@),
    decreases plan,
{
    match plan {
        LogicalPlan::TableScan(_) => LogicalPlan::TableScan(scan),
        LogicalPlan::Filter(filter) => LogicalPlan::Filter(
            Filter {
                predicate: filter.predicate.clone(),
                input: Box::new(replace_scan(&filter.input, scan)),
            },
        ),
        LogicalPlan::Projection(projection) => LogicalPlan::Projection(
            Projection {
                node: projection.node,
                input: Box::new(replace_scan(&projection.input, scan)),
            },
        ),
        LogicalPlan::Aggregate(agg) => LogicalPlan::Aggregate(
            Aggregate {
                input: Box::new(replace_scan(&agg.input, scan)),
                group_expr: copy_exprs(&agg.group_expr),
                aggr_expr: copy_exprs(&agg.aggr_expr),
            },
        ),
        _ => plan.clone(),
    }
}

/// The scan with a further column.
pub fn extend_scan(scan: &TableScan, column: usize) -> (extended: TableScan)
    requires
        is_sound_scan(scan@),
        scan@.projection is Some,
        column < scan@.source_fields.len(),
    ensures
        extended@ == extended_scan(scan@, column),
        is_sound_scan(extended@),
{
    let mut indices: Vec<usize> = match &scan.projection {
        Some(projection) => crate::plan::copy_indices(projection),
        None => Vec::new(),
    };
    indices.push(column);
    let ghost listed = indices@;
    let projection = sort_indices(indices);
    let source_fields = copy_texts(&scan.source_fields);
    let ghost source = scan@.source_fields;
    proof {
        listed.lemma_sort_by_ensures(ascending());
        assert forall|i: int| 0 <= i < projection@.len() implies #[trigger] projection@[i]
            < source.len() by {
            assert(projection@.contains(projection@[i]));
            assert(listed.contains(projection@[i]));
        }
    }
    let mut projected_fields: Vec<String> = Vec::new();
    let mut i: usize = 0;
    while i < projection.len()
        invariant
            i <= projection@.len(),
            source == texts_view(source_fields@),
            forall|j: int| 0 <= j < projection@.len() ==> #[trigger] projection@[j] < source.len(),
            projected_fields@.len() == i,
            forall|j: int|
                0 <= j < i ==> (#[trigger] projected_fields@[j])@ == source[projection@[j] as int],
        decreases projection@.len() - i,
    {
        projected_fields.push(source_fields[projection[i]].clone());
        i = i + 1;
    }
    assert(texts_view(projected_fields@) =~= picked_fields(source, projection@));
    TableScan {
        node: scan.node,
        source_fields,
        projected_fields,
        projection: Some(projection),
        filters: copy_exprs(&scan.filters),
    }
}

/// Whether the scan gives the fields that its projection lists, or all of them.
pub fn scan_is_sound(scan: &TableScan) -> (sound: bool)
    ensures
        sound == is_sound_scan(scan@),
{
    let ghost source = scan@.source_fields;
    let ghost projected = scan@.projected_fields;
    let count = scan.projected_fields.len();
    let width = scan.source_fields.len();
    assert(width == source.len());
    match &scan.projection {
        None => {
            if count != width {
                return false;
            }
            let mut i: usize = 0;
            while i < count
                invariant
                    i <= count,
                    count == scan.projected_fields@.len(),
                    count == width,
                    width == source.len(),
                    width == scan.source_fields@.len(),
                    scan.projection is None,
                    source == scan@.source_fields,
                    projected == scan@.projected_fields,
                    forall|j: int| 0 <= j < i ==> #[trigger] projected[j] == source[j],
                decreases count - i,
            {
                if scan.projected_fields[i] != scan.source_fields[i] {
                    assert(projected[i as int] != source[i as int]);
                    return false;
                }
                i = i + 1;
            }
            assert(projected =~= source);
            true
        },
        Some(projection) => {
            if count != projection.len() {
                assert(projected.len() != picked_fields(source, projection@).len());
                return false;
            }
            let mut i: usize = 0;
            while i < count
                invariant
                    i <= count,
                    count == scan.projected_fields@.len(),
                    count == projection@.len(),
                    width == source.len(),
                    width == scan.source_fields@.len(),
                    scan@.projection == Some(projection@),
                    source == scan@.source_fields,
                    projected == scan@.projected_fields,
                    forall|j: int| 0 <= j < i ==> #[trigger] projection@[j] < source.len(),
                    forall|j: int|
                        0 <= j < i ==> #[trigger] projected[j] == source[projection@[j] as int],
                decreases count - i,
            {
                let place = projection[i];
                if place >= width {
                    return false;
                }
                if scan.projected_fields[i] != scan.source_fields[place] {
                    assert(projected[i as int] != picked_fields(source, projection@)[i as int]);
                    return false;
                }
                i = i + 1;
            }
            assert(projected =~= picked_fields(source, projection@));
            true
        },
    }
}

/// Whether the scan that the plan stands on, if there is one, is sound.
pub fn plan_is_sound(plan: &LogicalPlan) -> (sound: bool)
    ensures
        sound == is_sound_plan(plan@),
    decreases plan,
{
    match plan {
        LogicalPlan::TableScan(scan) => scan_is_sound(scan),
        LogicalPlan::Filter(filter) => plan_is_sound(&filter.input),
        LogicalPlan::Projection(projection) => plan_is_sound(&projection.input),
        LogicalPlan::Aggregate(agg) => plan_is_sound(&agg.input),
        _ => true,
    }
}

/// A scan under a sound plan is sound.
pub(crate) proof fn lemma_scan_below_is_sound(plan: PlanView)
    requires
        is_sound_plan(plan),
    ensures
        scan_below(plan) matches Some(scan) ==> is_sound_scan(scan),
    decreases plan,
{
    match plan {
        PlanView::Filter { input, .. } => lemma_scan_below_is_sound(*input),
        PlanView::Projection { input, .. } => lemma_scan_below_is_sound(*input),
        _ => {},
    }
}

/// A plan stands on the scan that it was given.
pub(crate) proof fn lemma_scan_is_replaced(plan: PlanView, scan: ScanView)
    requires
        scan_below(plan) is Some,
    ensures
        scan_below(with_scan(plan, scan)) == Some(scan),
    decreases plan,
{
    match plan {
        PlanView::Filter { input, .. } => lemma_scan_is_replaced(*input, scan),
        PlanView::Projection { input, .. } => lemma_scan_is_replaced(*input, scan),
        _ => {},
    }
}

/// A scan with a further column gives that column and all that it gave before, in the order of
/// the table.
pub proof fn law_extended_scan_gives_more(scan: ScanView, column: usize)
    requires
        is_sound_scan(scan),
        scan.projection is Some,
        column < scan.source_fields.len(),
    ensures
        is_sound_scan(extended_scan(scan, column)),
        extended_scan(scan, column).projected_fields.contains(scan.source_fields[column as int]),
        forall|field: Seq<char>|
            scan.projected_fields.contains(field) ==> #[trigger] extended_scan(
                scan,
                column,
            ).projected_fields.contains(field),
        forall|i: int, j: int|
            0 <= i < j < extended_projection(scan.projection->0, column).len()
                ==> #[trigger] extended_projection(scan.projection->0, column)[i]
                <= #[trigger] extended_projection(scan.projection->0, column)[j],
{
    let listed = scan.projection->0.push(column);
    let sorted = extended_projection(scan.projection->0, column);
    let fields = extended_scan(scan, column).projected_fields;
    listed.lemma_sort_by_ensures(ascending());
    assert forall|i: int| 0 <= i < sorted.len() implies #[trigger] sorted[i]
        < scan.source_fields.len() by {
        assert(sorted.contains(sorted[i]));
        assert(listed.contains(sorted[i]));
    }
    assert forall|index: usize| listed.contains(index) implies #[trigger] sorted.contains(index) by {
        listed.to_multiset_ensures();
        sorted.to_multiset_ensures();
        assert(listed.to_multiset().count(index) > 0);
    }
    assert forall|index: usize| listed.contains(index) implies fields.contains(
        #[trigger] scan.source_fields[index as int],
    ) by {
        assert(sorted.contains(index));
        let i = choose|i: int| 0 <= i < sorted.len() && sorted[i] == index;
        assert(fields[i] == scan.source_fields[index as int]);
    }
    assert(listed[listed.len() - 1] == column);
    assert(listed.contains(column));
    assert forall|field: Seq<char>| scan.projected_fields.contains(field) implies
        #[trigger] fields.contains(field) by {
        let i = choose|i: int|
            0 <= i < scan.projected_fields.len() && scan.projected_fields[i] == field;
        let index = scan.projection->0[i];
        assert(listed[i] == index);
        assert(listed.contains(index));
        assert(scan.source_fields[index as int] == field);
    }
    assert forall|i: int, j: int| 0 <= i < j < sorted.len() implies #[trigger] sorted[i]
        <= #[trigger] sorted[j] by {
        assert(ascending()(sorted[i], sorted[j]));
    }
}

/// A plan stands on the scan under its filters and projections. With another scan in its place all
/// nodes above it stay as they are.
pub proof fn law_plans_stand_on_their_scan(
    scan: ScanView,
    other: ScanView,
    node: u64,
    predicate: ExprView,
    input: PlanView,
    group_expr: Seq<ExprView>,
    aggr_expr: Seq<ExprView>,
)
    ensures
        scan_below(PlanView::TableScan(scan)) == Some(scan),
        with_scan(PlanView::TableScan(scan), other) == PlanView::TableScan(other),
        ({
            let above = PlanView::Filter { predicate, input: Box::new(input) };
            &&& scan_below(above) == scan_below(input)
            &&& with_scan(above, other) == (PlanView::Filter {
                predicate,
                input: Box::new(with_scan(input, other)),
            })
        }),
        ({
            let above = PlanView::Projection { node, input: Box::new(input) };
            &&& scan_below(above) == scan_below(input)
            &&& with_scan(above, other) == (PlanView::Projection {
                node,
                input: Box::new(with_scan(input, other)),
            })
        }),
        ({
            let above = PlanView::Aggregate { input: Box::new(input), group_expr, aggr_expr };
            &&& scan_below(above) == None::<ScanView>
            &&& with_scan(above, other) == (PlanView::Aggregate {
                input: Box::new(with_scan(input, other)),
                group_expr,
                aggr_expr,
            })
        }),
        input is QueryCache || input is Extension || input is Other ==> scan_below(input) == None::<
            ScanView,
        > && with_scan(input, other) == input,
{
}

/// A scan with a further column reads the same table with the same filters. It lists each column as
/// often as it did and the further one once more, from the first of the table to the last, and
/// gives the field of each.
pub proof fn law_one_column_is_added_to_a_scan(scan: ScanView, column: usize)
    requires
        scan.projection is Some,
    ensures
        extended_scan(scan, column).node == scan.node,
        extended_scan(scan, column).source_fields == scan.source_fields,
        extended_scan(scan, column).filters == scan.filters,
        extended_scan(scan, column).projection matches Some(listed) && {
            &&& listed.to_multiset() == scan.projection->0.to_multiset().insert(column)
            &&& forall|i: int, j: int|
                0 <= i < j < listed.len() ==> #[trigger] listed[i] <= #[trigger] listed[j]
            &&& extended_scan(scan, column).projected_fields.len() == listed.len()
            &&& listed.len() == scan.projection->0.len() + 1
            &&& forall|i: int|
                0 <= i < listed.len() ==> #[trigger] extended_scan(
                    scan,
                    column,
                ).projected_fields[i] == scan.source_fields[listed[i] as int]
        },
{
    let before = scan.projection->0;
    let listed = before.push(column).sort_by(ascending());
    before.push(column).lemma_sort_by_ensures(ascending());
    before.to_multiset_ensures();
    before.push(column).to_multiset_ensures();
    listed.to_multiset_ensures();
    assert forall|i: int, j: int| 0 <= i < j < listed.len() implies #[trigger] listed[i]
        <= #[trigger] listed[j] by {
        assert(ascending()(listed[i], listed[j]));
    }
}

/// A scan is sound where it gives the fields that it lists, each of them a field of the table, or
/// all fields where it lists none, and a plan where the scan that it stands on is.
pub proof fn law_what_is_sound(
    scan: ScanView,
    listed: Seq<usize>,
    node: u64,
    predicate: ExprView,
    input: PlanView,
    group_expr: Seq<ExprView>,
    aggr_expr: Seq<ExprView>,
)
    requires
        scan.source_fields.len() <= usize::MAX,
    ensures
        scan.projection is None ==> (is_sound_scan(scan) <==> scan.projected_fields
            == scan.source_fields),
        scan.projection == Some(listed) ==> (is_sound_scan(scan) <==> {
            &&& scan.projected_fields.len() == listed.len()
            &&& forall|i: int|
                0 <= i < listed.len() ==> #[trigger] listed[i] < scan.source_fields.len()
                    && scan.projected_fields[i] == scan.source_fields[listed[i] as int]
        }),
        is_sound_plan(PlanView::TableScan(scan)) == is_sound_scan(scan),
        is_sound_plan((PlanView::Filter { predicate, input: Box::new(input) })) == is_sound_plan(
            input,
        ),
        is_sound_plan((PlanView::Projection { node, input: Box::new(input) })) == is_sound_plan(
            input,
        ),
        is_sound_plan((PlanView::Aggregate { input: Box::new(input), group_expr, aggr_expr }))
            == is_sound_plan(input),
        input is QueryCache || input is Extension || input is Other ==> is_sound_plan(input),
{
    let fields = picked_fields(scan.source_fields, listed);
    if scan.projection == Some(listed) {
        if is_sound_scan(scan) {
            assert forall|i: int| 0 <= i < listed.len() implies #[trigger] listed[i]
                < scan.source_fields.len() && scan.projected_fields[i]
                == scan.source_fields[listed[i] as int] by {
                assert(scan.projected_fields[i] == fields[i]);
            }
        }
        if scan.projected_fields.len() == listed.len() && forall|i: int|
            0 <= i < listed.len() ==> #[trigger] listed[i] < scan.source_fields.len()
                && scan.projected_fields[i] == scan.source_fields[listed[i] as int] {
            assert(scan.projected_fields =~= fields);
        }
    }
}

} // verus!
