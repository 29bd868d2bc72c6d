//! Every row that a query asks for enters its answer once.

use vstd::prelude::*;

use crate::column::ColumnView;
use crate::coverage::law_plan_covers_the_request;
use crate::expr::ExprView;
use crate::gaps::{apart, covered_at, gaps, relevant};
use crate::interval::TimeInterval;
use crate::key::{
    all_narrowed, law_narrowing_by_all_is_exact, lemma_kept_rows_meet_the_bounds, meets_bounds,
};
use crate::selection::chosen;
use crate::semantics::{keeps, law_interval_holds_what_the_filter_keeps};
use crate::static_interval::{bounds_fit, static_interval, StaticInterval};

verus! {

/// The `i`-th piece, and no other, holds the instant.
pub open spec fn only_piece(pieces: Seq<TimeInterval>, t: int, i: int) -> bool {
    &&& 0 <= i < pieces.len()
    &&& pieces[i].holds(t)
    &&& forall|j: int| 0 <= j < pieces.len() && (#[trigger] pieces[j]).holds(t) ==> j == i
}

/// Pieces that do not overlap hold an instant at most once.
proof fn lemma_only_piece(pieces: Seq<TimeInterval>, t: int) -> (i: int)
    requires
        apart(pieces),
        covered_at(pieces, t),
    ensures
        only_piece(pieces, t, i),
{
    let i = choose|i: int| 0 <= i < pieces.len() && (#[trigger] pieces[i]).holds(t);
    assert forall|j: int| 0 <= j < pieces.len() && (#[trigger] pieces[j]).holds(t) implies j
        == i by {
        if j < i {
            assert(!pieces[j].meets(pieces[i]));
        } else if i < j {
            assert(!pieces[i].meets(pieces[j]));
        }
    }
    i
}

/// A row that the filter of a query and the filters of its scan keep falls into exactly one of the
/// pieces that the query is answered from: an interval that was chosen from the cache, or a gap.
/// What is requested is the interval of the filter, as far as the filters of the scan admit it. `t`
/// is the instant in the temporal columns of the row, `rest` says which other conditions it meets.
pub proof fn law_each_row_is_answered_once(
    filter: ExprView,
    scan_filters: Seq<ExprView>,
    columns: Set<ColumnView>,
    found: TimeInterval,
    cached: Seq<TimeInterval>,
    t: int,
    rest: spec_fn(ExprView) -> bool,
)
    requires
        bounds_fit(filter, columns),
        static_interval(filter, columns) == StaticInterval::Found(found),
        relevant(all_narrowed(found, scan_filters, columns), cached),
        i64::MIN <= t < i64::MAX,
        keeps(filter, columns, t, rest),
        forall|i: int|
            0 <= i < scan_filters.len() ==> keeps(
                #[trigger] scan_filters[i],
                columns,
                t,
                rest,
            ),
    ensures
        exists|i: int| #[trigger]
            only_piece(
                chosen(cached) + gaps(
                    all_narrowed(found, scan_filters, columns),
                    chosen(cached),
                ),
                t,
                i,
            ),
{
    let requested = all_narrowed(found, scan_filters, columns);
    law_interval_holds_what_the_filter_keeps(filter, columns, found, t, rest);
    assert forall|i: int| 0 <= i < scan_filters.len() implies meets_bounds(
        #[trigger] scan_filters[i],
        columns,
        t,
    ) by {
        lemma_kept_rows_meet_the_bounds(scan_filters[i], columns, t, rest);
    }
    law_narrowing_by_all_is_exact(found, scan_filters, columns, t);
    law_plan_covers_the_request(requested, cached);
    let taken = chosen(cached);
    let left = gaps(requested, taken);
    let pieces = taken + left;
    assert(covered_at(left, t) <==> !covered_at(taken, t));
    if covered_at(taken, t) {
        let i = choose|i: int| 0 <= i < taken.len() && (#[trigger] taken[i]).holds(t);
        assert(pieces[i].holds(t));
    } else {
        let i = choose|i: int| 0 <= i < left.len() && (#[trigger] left[i]).holds(t);
        assert(pieces[taken.len() + i].holds(t));
    }
    let i = lemma_only_piece(pieces, t);
    assert(only_piece(pieces, t, i));
}

} // verus!
