//! What earlier requests leave in the cache for later ones.

use vstd::prelude::*;

use crate::cache::{overlapping, StoredView};
use crate::coverage::{law_repeated_request_computes_nothing, stores_the_gaps};
use crate::gaps::{gaps, law_gaps_complete_the_request, relevant};
use crate::interval::TimeInterval;
use crate::selection::{chosen, law_selection_exists, selection};

verus! {

/// The intervals of what is stored.
pub open spec fn intervals_of(stored: Seq<StoredView>) -> Seq<TimeInterval> {
    Seq::new(stored.len(), |i: int| stored[i].interval)
}

/// Every stored interval holds an instant.
pub open spec fn are_proper(stored: Seq<StoredView>) -> bool {
    forall|i: int| 0 <= i < stored.len() ==> (#[trigger] stored[i]).interval.proper()
}

/// What was put last is found last by a request that it overlaps, and not at all by another;
/// either way all that was found before is still found.
pub proof fn law_what_is_put_is_found(
    stored: Seq<StoredView>,
    item: StoredView,
    req: TimeInterval,
)
    ensures
        item.interval.meets(req) ==> overlapping(stored.push(item), req) == overlapping(
            stored,
            req,
        ).push(item),
        !item.interval.meets(req) ==> overlapping(stored.push(item), req) == overlapping(
            stored,
            req,
        ),
        item.interval.proper() ==> item.interval.meets(item.interval),
{
    assert(stored.push(item).drop_last() =~= stored);
}

/// A lookup finds what is stored and overlaps the request, and nothing else.
pub proof fn law_lookup_finds_what_overlaps(stored: Seq<StoredView>, req: TimeInterval)
    ensures
        forall|item: StoredView| #[trigger]
            overlapping(stored, req).contains(item) <==> stored.contains(item)
                && item.interval.meets(req),
    decreases stored.len(),
{
    if stored.len() > 0 {
        let shorter = stored.drop_last();
        let last = stored.last();
        law_lookup_finds_what_overlaps(shorter, req);
        let before = overlapping(shorter, req);
        let found = overlapping(stored, req);
        assert forall|item: StoredView| #[trigger] found.contains(item) <==> stored.contains(item)
            && item.interval.meets(req) by {
            assert(before.contains(item) <==> shorter.contains(item) && item.interval.meets(req));
            assert(stored[stored.len() - 1] == last);
            if shorter.contains(item) {
                let i = choose|i: int| 0 <= i < shorter.len() && shorter[i] == item;
                assert(stored[i] == item);
            }
            if stored.contains(item) && item != last {
                let i = choose|i: int| 0 <= i < stored.len() && stored[i] == item;
                assert(shorter[i] == item);
            }
            if before.contains(item) {
                let i = choose|i: int| 0 <= i < before.len() && before[i] == item;
                assert(found[i] == item);
            }
            if last.interval.meets(req) {
                assert(found[before.len() as int] == last);
                if found.contains(item) && item != last {
                    let i = choose|i: int| 0 <= i < found.len() && found[i] == item;
                    assert(before[i] == item);
                }
            }
        }
    }
}

/// What a lookup finds can be planned with: it overlaps the request and holds instants, if all
/// that is stored does.
pub proof fn law_lookup_is_relevant(stored: Seq<StoredView>, req: TimeInterval)
    requires
        are_proper(stored),
    ensures
        relevant(req, intervals_of(overlapping(stored, req))),
{
    law_lookup_finds_what_overlaps(stored, req);
    let found = overlapping(stored, req);
    assert forall|i: int| 0 <= i < found.len() implies (#[trigger] intervals_of(found)[i]).proper()
        && intervals_of(found)[i].meets(req) by {
        assert(found.contains(found[i]));
        let j = choose|j: int| 0 <= j < stored.len() && stored[j] == found[i];
        assert(stored[j].interval.proper());
    }
}

/// Where nothing that is stored overlaps the request, all of it is computed.
pub proof fn law_nothing_found_all_computed(stored: Seq<StoredView>, req: TimeInterval)
    requires
        forall|i: int| 0 <= i < stored.len() ==> !(#[trigger] stored[i]).interval.meets(req),
    ensures
        gaps(req, chosen(intervals_of(overlapping(stored, req)))) == seq![req],
{
    law_lookup_finds_what_overlaps(stored, req);
    let found = overlapping(stored, req);
    if found.len() > 0 {
        assert(found.contains(found[0]));
        let j = choose|j: int| 0 <= j < stored.len() && stored[j] == found[0];
        assert(!stored[j].interval.meets(req));
    }
    assert(intervals_of(found) =~= Seq::<TimeInterval>::empty());
    let none = Seq::<TimeInterval>::empty();
    law_selection_exists(none);
    if selection(none).len() > 0 {
        let first = selection(none)[0];
        assert(0 <= first < none.len());
    }
    assert(chosen(none) =~= none);
}

/// Items that all overlap the request are all found, behind what was found before.
proof fn lemma_all_found(stored: Seq<StoredView>, items: Seq<StoredView>, req: TimeInterval)
    requires
        forall|i: int| 0 <= i < items.len() ==> (#[trigger] items[i]).interval.meets(req),
    ensures
        overlapping(stored + items, req) == overlapping(stored, req) + items,
    decreases items.len(),
{
    if items.len() == 0 {
        assert(stored + items =~= stored);
        assert(overlapping(stored, req) + items =~= overlapping(stored, req));
    } else {
        let fewer = items.drop_last();
        assert forall|i: int| 0 <= i < fewer.len() implies (#[trigger] fewer[i]).interval.meets(
            req,
        ) by {
            assert(items[i].interval.meets(req));
        }
        lemma_all_found(stored, fewer, req);
        assert((stored + items).drop_last() =~= stored + fewer);
        assert(items[items.len() - 1].interval.meets(req));
        assert(overlapping(stored + items, req) =~= overlapping(stored, req) + items);
    }
}

/// A request that is made again, after the gaps that it left were computed and put into the cache
/// in any order, is answered from the cache alone.
pub proof fn law_repeated_lookup_leaves_no_gap(
    stored: Seq<StoredView>,
    items: Seq<StoredView>,
    req: TimeInterval,
)
    requires
        req.proper(),
        are_proper(stored),
        stores_the_gaps(req, intervals_of(overlapping(stored, req)), intervals_of(items)),
    ensures
        gaps(req, chosen(intervals_of(overlapping(stored + items, req)))) == Seq::<
            TimeInterval,
        >::empty(),
{
    let cached = intervals_of(overlapping(stored, req));
    law_lookup_is_relevant(stored, req);
    crate::coverage::law_choice_is_apart_and_maximal(cached);
    crate::coverage::lemma_choice_is_relevant(req, cached);
    law_gaps_complete_the_request(req, chosen(cached));
    let left = gaps(req, chosen(cached));
    assert forall|i: int| 0 <= i < items.len() implies (#[trigger] items[i]).interval.meets(req) by {
        assert(intervals_of(items)[i] == items[i].interval);
        assert(intervals_of(items).contains(items[i].interval));
        let k = choose|k: int| 0 <= k < left.len() && left[k] == items[i].interval;
        assert(left[k].proper() && left[k].within(req));
    }
    lemma_all_found(stored, items, req);
    assert(intervals_of(overlapping(stored + items, req)) =~= cached + intervals_of(items));
    law_repeated_request_computes_nothing(req, cached, intervals_of(items));
}

} // verus!
