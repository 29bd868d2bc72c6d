//! A cache in memory.

use std::sync::Arc;

use vstd::prelude::*;
use vstd::string::*;

use crate::batch::{batches_table, copy_batches, format_batches, rows_of, total_rows, Batch};
use crate::interval::TimeInterval;
use crate::selection::OccupiedIntervalCacheEntry;
use crate::text::{decimal, push_decimal};

verus! {

/// A stored interval: the interval, and the batches that were stored for it.
pub struct StoredView {
    pub interval: TimeInterval,
    pub batches: Seq<Batch>,
}

/// What is stored under one fingerprint, in the order in which it was put.
pub struct GroupView {
    pub fingerprint: Seq<char>,
    pub stored: Seq<StoredView>,
}

/// A stored interval.
#[derive(Debug)]
struct Stored {
    interval: TimeInterval,
    record_batch: Arc<Vec<Batch>>,
}

impl View for Stored {
    type V = StoredView;

    closed spec fn view(&self) -> StoredView {
        StoredView { interval: self.interval, batches: self.record_batch@ }
    }
}

/// What is stored under one fingerprint.
#[derive(Debug)]
struct Group {
    fingerprint: String,
    stored: Vec<Stored>,
}

impl View for Group {
    type V = GroupView;

    closed spec fn view(&self) -> GroupView {
        GroupView {
            fingerprint: self.fingerprint@,
            stored: Seq::new(self.stored@.len(), |i: int| self.stored@[i]@),
        }
    }
}

/// Query results in memory, by fingerprint and interval.
#[derive(Debug)]
pub struct MemoryQueryCache {
    groups: Vec<Group>,
}

impl View for MemoryQueryCache {
    type V = Seq<GroupView>;

    closed spec fn view(&self) -> Seq<GroupView> {
        Seq::new(self.groups@.len(), |i: int| self.groups@[i]@)
    }
}

/// No fingerprint has two groups.
pub open spec fn are_distinct(groups: Seq<GroupView>) -> bool {
    forall|i: int, j: int|
        0 <= i < j < groups.len() ==> (#[trigger] groups[i]).fingerprint != (
        #[trigger] groups[j]).fingerprint
}

/// The fingerprint has a group.
pub open spec fn has_group(groups: Seq<GroupView>, fingerprint: Seq<char>) -> bool {
    exists|i: int| 0 <= i < groups.len() && (#[trigger] groups[i]).fingerprint == fingerprint
}

/// What is stored under a fingerprint, in the order in which it was put.
pub open spec fn stored_under(groups: Seq<GroupView>, fingerprint: Seq<char>) -> Seq<StoredView>
    decreases groups.len(),
{
    if groups.len() == 0 {
        seq![]
    } else if groups.last().fingerprint == fingerprint {
        groups.last().stored
    } else {
        stored_under(groups.drop_last(), fingerprint)
    }
}

/// The fingerprints that have a group, in the order in which they were first put.
pub open spec fn fingerprints(groups: Seq<GroupView>) -> Seq<Seq<char>> {
    Seq::new(groups.len(), |i: int| groups[i].fingerprint)
}

/// Those of the stored intervals that overlap the request, in their order.
pub open spec fn overlapping(stored: Seq<StoredView>, req: TimeInterval) -> Seq<StoredView>
    decreases stored.len(),
{
    if stored.len() == 0 {
        seq![]
    } else {
        let before = overlapping(stored.drop_last(), req);
        if stored.last().interval.meets(req) {
            before.push(stored.last())
        } else {
            before
        }
    }
}

/// What the cache hands out for an interval that it has stored.
#[derive(Debug)]
pub struct OccupiedMemoryIntervalCacheEntry {
    fingerprint: String,
    interval: TimeInterval,
    record_batch: Arc<Vec<Batch>>,
}

/// What is known of an entry.
pub struct EntryView {
    pub fingerprint: Seq<char>,
    pub stored: StoredView,
}

impl View for OccupiedMemoryIntervalCacheEntry {
    type V = EntryView;

    closed spec fn view(&self) -> EntryView {
        EntryView {
            fingerprint: self.fingerprint@,
            stored: StoredView { interval: self.interval, batches: self.record_batch@ },
        }
    }
}

impl OccupiedIntervalCacheEntry for OccupiedMemoryIntervalCacheEntry {
    open spec fn covers(&self) -> TimeInterval {
        self@.stored.interval
    }

    fn interval(&self) -> (interval: TimeInterval) {
        self.interval
    }
}

impl OccupiedMemoryIntervalCacheEntry {
    /// The batches stored in this cache entry.
    pub fn get(&self) -> (batches: &[Batch])
        ensures
            batches@ == self@.stored.batches,
    {
        self.record_batch.as_slice()
    }

    /// The fingerprint that the entry is stored under.
    pub fn fingerprint(&self) -> (fingerprint: &str)
        ensures
            fingerprint@ == self@.fingerprint,
    {
        self.fingerprint.as_str()
    }
}

/// The entries for the stored intervals.
pub open spec fn entries_for(fingerprint: Seq<char>, stored: Seq<StoredView>) -> Seq<EntryView> {
    Seq::new(stored.len(), |i: int| EntryView { fingerprint, stored: stored[i] })
}

/// What is known of each of the entries.
pub open spec fn entry_views(entries: Seq<OccupiedMemoryIntervalCacheEntry>) -> Seq<EntryView> {
    Seq::new(entries.len(), |i: int| entries[i]@)
}

/// What a group holds is stored under its fingerprint.
proof fn lemma_stored_at(groups: Seq<GroupView>, i: int)
    requires
        are_distinct(groups),
        0 <= i < groups.len(),
    ensures
        stored_under(groups, groups[i].fingerprint) == groups[i].stored,
    decreases groups.len(),
{
    if i < groups.len() - 1 {
        assert(groups[i].fingerprint != groups[groups.len() - 1].fingerprint);
        lemma_stored_at(groups.drop_last(), i);
    }
}

/// Without a group nothing is stored.
proof fn lemma_nothing_stored(groups: Seq<GroupView>, fingerprint: Seq<char>)
    requires
        !has_group(groups, fingerprint),
    ensures
        stored_under(groups, fingerprint) == Seq::<StoredView>::empty(),
    decreases groups.len(),
{
    if groups.len() > 0 {
        let shorter = groups.drop_last();
        assert(groups[groups.len() - 1].fingerprint != fingerprint);
        assert(!has_group(shorter, fingerprint)) by {
            if has_group(shorter, fingerprint) {
                let i = choose|i: int|
                    0 <= i < shorter.len() && (#[trigger] shorter[i]).fingerprint == fingerprint;
                assert(groups[i].fingerprint == fingerprint);
            }
        }
        lemma_nothing_stored(shorter, fingerprint);
    }
}

/// A change to one group does not touch what is stored under other fingerprints.
proof fn lemma_stored_elsewhere(
    groups: Seq<GroupView>,
    place: int,
    group: GroupView,
    other: Seq<char>,
)
    requires
        0 <= place < groups.len(),
        group.fingerprint == groups[place].fingerprint,
        other != group.fingerprint,
    ensures
        stored_under(groups.update(place, group), other) == stored_under(groups, other),
    decreases groups.len(),
{
    let changed = groups.update(place, group);
    let shorter = groups.drop_last();
    if place < groups.len() - 1 {
        assert(changed.drop_last() =~= shorter.update(place, group));
        lemma_stored_elsewhere(shorter, place, group, other);
    } else {
        assert(changed.drop_last() =~= shorter);
    }
}

/// Calls `Arc::clone`, which gives another pointer to the same batches.
#[verifier::external_body]
fn share(batches: &Arc<Vec<Batch>>) -> (shared: Arc<Vec<Batch>>)
    ensures
        *shared == **batches,
{
    batches.clone()
}

impl MemoryQueryCache {
    /// No fingerprint has two groups.
    #[verifier::type_invariant]
    spec fn is_sound(self) -> bool {
        are_distinct(self@)
    }

    /// A cache that holds nothing.
    pub fn new() -> (cache: Self)
        ensures
            cache@ == Seq::<GroupView>::empty(),
    {
        let cache = MemoryQueryCache { groups: Vec::new() };
        assert(cache@ =~= Seq::<GroupView>::empty());
        cache
    }

    /// The place of the group of the fingerprint.
    fn find_group(&self, fingerprint: &str) -> (place: Option<usize>)
        ensures
            match place {
                Some(place) => place < self@.len() && self@[place as int].fingerprint
                    == fingerprint@,
                None => !has_group(self@, fingerprint@),
            },
    {
        let wanted = fingerprint.to_string();
        let mut i: usize = 0;
        while i < self.groups.len()
            invariant
                i <= self.groups@.len(),
                wanted@ == fingerprint@,
                forall|j: int| 0 <= j < i ==> (#[trigger] self@[j]).fingerprint != fingerprint@,
            decreases self.groups@.len() - i,
        {
            assert(self@[i as int] == self.groups@[i as int]@);
            if self.groups[i].fingerprint == wanted {
                return Some(i);
            }
            i = i + 1;
        }
        None
    }

    /// Store batches for an interval, behind what is stored under the fingerprint.
    pub fn put(&mut self, fingerprint: &str, interval: TimeInterval, record_batch: &[Batch])
        ensures
            stored_under(final(self)@, fingerprint@) == stored_under(
                old(self)@,
                fingerprint@,
            ).push(StoredView { interval, batches: record_batch@ }),
            forall|other: Seq<char>|
                other != fingerprint@ ==> #[trigger] stored_under(final(self)@, other)
                    == stored_under(old(self)@, other),
            fingerprints(final(self)@) == if has_group(old(self)@, fingerprint@) {
                fingerprints(old(self)@)
            } else {
                fingerprints(old(self)@).push(fingerprint@)
            },
            are_distinct(final(self)@),
    {
        proof {
            use_type_invariant(&*self);
        }
        let ghost before = self@;
        let item = Stored { interval, record_batch: Arc::new(copy_batches(record_batch)) };
        let place = self.find_group(fingerprint);
        let mut groups: Vec<Group> = Vec::new();
        std::mem::swap(&mut groups, &mut self.groups);
        assert(forall|i: int| 0 <= i < groups@.len() ==> (#[trigger] groups@[i])@ == before[i]);
        match place {
            Some(place) => {
                let ghost group_before = groups@[place as int]@;
                let mut group = groups.remove(place);
                group.stored.push(item);
                assert(group@.stored =~= group_before.stored.push(item@));
                groups.insert(place, group);
                self.groups = groups;
                proof {
                    let after = self@;
                    assert(after =~= before.update(place as int, group@));
                    lemma_stored_at(before, place as int);
                    lemma_stored_at(after, place as int);
                    assert forall|other: Seq<char>| other != fingerprint@ implies
                        #[trigger] stored_under(after, other) == stored_under(before, other) by {
                        lemma_stored_elsewhere(before, place as int, group@, other);
                    }
                    assert(fingerprints(after) =~= fingerprints(before));
                    assert(has_group(before, fingerprint@));
                }
            },
            None => {
                let mut stored: Vec<Stored> = Vec::new();
                stored.push(item);
                let group = Group { fingerprint: fingerprint.to_string(), stored };
                assert(group@.stored =~= seq![item@]);
                groups.push(group);
                self.groups = groups;
                proof {
                    let after = self@;
                    assert(after =~= before.push(group@));
                    assert(after.drop_last() =~= before);
                    lemma_nothing_stored(before, fingerprint@);
                    assert(fingerprints(after) =~= fingerprints(before).push(fingerprint@));
                }
            },
        }
    }
}

impl MemoryQueryCache {
    /// Find all intervals stored under the fingerprint that overlap with the requested interval.
    pub fn lookup(&self, query_fingerprint: &str, req: &TimeInterval) -> (entries: Vec<
        OccupiedMemoryIntervalCacheEntry,
    >)
        ensures
            entry_views(entries@) == entries_for(
                query_fingerprint@,
                overlapping(stored_under(self@, query_fingerprint@), *req),
            ),
    {
        proof {
            use_type_invariant(self);
        }
        let mut entries: Vec<OccupiedMemoryIntervalCacheEntry> = Vec::new();
        let place = match self.find_group(query_fingerprint) {
            Some(place) => place,
            None => {
                proof {
                    lemma_nothing_stored(self@, query_fingerprint@);
                    assert(entry_views(entries@) =~= entries_for(
                        query_fingerprint@,
                        Seq::<StoredView>::empty(),
                    ));
                }
                return entries;
            },
        };
        let group = &self.groups[place];
        let ghost stored = group@.stored;
        proof {
            lemma_stored_at(self@, place as int);
            assert(self@[place as int] == group@);
            assert(stored.take(0) =~= Seq::<StoredView>::empty());
            assert(entry_views(entries@) =~= entries_for(
                query_fingerprint@,
                overlapping(stored.take(0), *req),
            ));
        }
        let mut i: usize = 0;
        while i < group.stored.len()
            invariant
                i <= group.stored@.len(),
                stored == group@.stored,
                entry_views(entries@) == entries_for(
                    query_fingerprint@,
                    overlapping(stored.take(i as int), *req),
                ),
            decreases group.stored@.len() - i,
        {
            let item = &group.stored[i];
            let ghost before = entries@;
            proof {
                let longer = stored.take(i + 1);
                assert(longer.drop_last() =~= stored.take(i as int));
                assert(longer.last() == item@);
            }
            if item.interval.overlaps(req) {
                let entry = OccupiedMemoryIntervalCacheEntry {
                    fingerprint: query_fingerprint.to_string(),
                    interval: item.interval,
                    record_batch: share(&item.record_batch),
                };
                entries.push(entry);
                proof {
                    assert(entry_views(entries@) =~= entry_views(before).push(entry@));
                    assert(entries_for(
                        query_fingerprint@,
                        overlapping(stored.take(i + 1), *req),
                    ) =~= entry_views(before).push(entry@));
                }
            }
            i = i + 1;
        }
        assert(stored.take(i as int) =~= stored);
        entries
    }

    /// The cache as text, where all that is stored can be printed.
    pub fn try_display(&self) -> (text: Option<String>)
        ensures
            match text {
                Some(text) => can_print(self@) && text@ == cache_text(self@),
                None => !can_print(self@),
            },
    {
        let mut text = HEADING.to_string();
        let ghost groups = self@;
        let mut i: usize = 0;
        assert(groups.take(0) =~= seq![]);
        assert(text@ =~= HEADING@ + groups_text(groups.take(0)));
        while i < self.groups.len()
            invariant
                i <= self.groups@.len(),
                groups == self@,
                text@ == HEADING@ + groups_text(groups.take(i as int)),
                can_print(groups.take(i as int)),
            decreases self.groups@.len() - i,
        {
            let group = &self.groups[i];
            assert(groups[i as int] == group@);
            let ghost text_before = text@;
            let printed = group.push_text(&mut text);
            proof {
                let longer = groups.take(i + 1);
                assert(longer.drop_last() =~= groups.take(i as int));
                assert(longer.last() == group@);
                if printed {
                    assert(text@ =~= HEADING@ + groups_text(longer));
                    assert forall|k: int| 0 <= k < longer.len() implies stored_can_print(
                        (#[trigger] longer[k]).stored,
                    ) by {
                        if k < i {
                            assert(longer[k] == groups.take(i as int)[k]);
                        }
                    }
                }
            }
            if !printed {
                assert(!stored_can_print(groups[i as int].stored));
                return None;
            }
            i = i + 1;
        }
        assert(groups.take(i as int) =~= groups);
        Some(text)
    }

    /// The cache as text: for each stored interval its fingerprint, its ends and its batches as a
    /// table.
    pub fn display(&self) -> (text: String)
        requires
            can_print(self@),
        ensures
            text@ == cache_text(self@),
    {
        self.try_display().unwrap()
    }

    /// Each stored interval with its fingerprint and its number of rows, where each number fits in
    /// a `usize`.
    pub fn summaries(&self) -> (summaries: Option<Vec<EntrySummary>>)
        ensures
            match summaries {
                Some(summaries) => can_count(self@) && summary_views(summaries@) == groups_summaries(
                    self@,
                ),
                None => !can_count(self@),
            },
    {
        let mut summaries: Vec<EntrySummary> = Vec::new();
        let ghost groups = self@;
        let mut i: usize = 0;
        assert(groups.take(0) =~= seq![]);
        assert(summary_views(summaries@) =~= groups_summaries(groups.take(0)));
        while i < self.groups.len()
            invariant
                i <= self.groups@.len(),
                groups == self@,
                summary_views(summaries@) == groups_summaries(groups.take(i as int)),
                can_count(groups.take(i as int)),
            decreases self.groups@.len() - i,
        {
            let group = &self.groups[i];
            assert(groups[i as int] == group@);
            let counted = group.push_summaries(&mut summaries);
            proof {
                let longer = groups.take(i + 1);
                assert(longer.drop_last() =~= groups.take(i as int));
                assert(longer.last() == group@);
                if counted {
                    assert forall|k: int| 0 <= k < longer.len() implies stored_can_count(
                        (#[trigger] longer[k]).stored,
                    ) by {
                        if k < i {
                            assert(longer[k] == groups.take(i as int)[k]);
                        }
                    }
                }
            }
            if !counted {
                assert(!stored_can_count(groups[i as int].stored));
                return None;
            }
            i = i + 1;
        }
        assert(groups.take(i as int) =~= groups);
        Some(summaries)
    }
}

/// The first line of the cache as text.
pub const HEADING: &'static str = "## MemoryQueryCache:\n";

/// A stored interval as text.
pub open spec fn stored_text(fingerprint: Seq<char>, item: StoredView) -> Seq<char> {
    "Fingerprint (cache key): "@ + fingerprint + "\ninterval: ["@ + decimal(
        item.interval.start_ns as int,
    ) + ", "@ + decimal(item.interval.end_ns as int) + ") data:\n"@ + batches_table(
        item.batches,
    )->0 + "\n"@
}

/// Stored intervals as text.
pub open spec fn all_stored_text(fingerprint: Seq<char>, stored: Seq<StoredView>) -> Seq<char>
    decreases stored.len(),
{
    if stored.len() == 0 {
        seq![]
    } else {
        all_stored_text(fingerprint, stored.drop_last()) + stored_text(fingerprint, stored.last())
    }
}

/// Groups as text.
pub open spec fn groups_text(groups: Seq<GroupView>) -> Seq<char>
    decreases groups.len(),
{
    if groups.len() == 0 {
        seq![]
    } else {
        groups_text(groups.drop_last()) + all_stored_text(
            groups.last().fingerprint,
            groups.last().stored,
        )
    }
}

/// The cache as text.
pub open spec fn cache_text(groups: Seq<GroupView>) -> Seq<char> {
    HEADING@ + groups_text(groups)
}

/// The batches of each of the stored intervals can be printed as a table.
pub open spec fn stored_can_print(stored: Seq<StoredView>) -> bool {
    forall|k: int| 0 <= k < stored.len() ==> batches_table((#[trigger] stored[k]).batches) is Some
}

/// All batches in the cache can be printed as tables.
pub open spec fn can_print(groups: Seq<GroupView>) -> bool {
    forall|i: int| 0 <= i < groups.len() ==> stored_can_print((#[trigger] groups[i]).stored)
}

/// A stored interval with its fingerprint and its number of rows.
#[derive(Debug, PartialEq, Eq)]
pub struct EntrySummary {
    pub fingerprint: String,
    pub interval: TimeInterval,
    pub num_rows: usize,
}

/// What a summary says.
pub struct SummaryView {
    pub fingerprint: Seq<char>,
    pub interval: TimeInterval,
    pub num_rows: nat,
}

impl View for EntrySummary {
    type V = SummaryView;

    open spec fn view(&self) -> SummaryView {
        SummaryView {
            fingerprint: self.fingerprint@,
            interval: self.interval,
            num_rows: self.num_rows as nat,
        }
    }
}

/// What each of the summaries says.
pub open spec fn summary_views(summaries: Seq<EntrySummary>) -> Seq<SummaryView> {
    Seq::new(summaries.len(), |i: int| summaries[i]@)
}

/// The summaries of stored intervals.
pub open spec fn stored_summaries(fingerprint: Seq<char>, stored: Seq<StoredView>) -> Seq<
    SummaryView,
> {
    Seq::new(
        stored.len(),
        |i: int|
            SummaryView {
                fingerprint,
                interval: stored[i].interval,
                num_rows: rows_of(stored[i].batches),
            },
    )
}

/// The summaries of all that groups hold.
pub open spec fn groups_summaries(groups: Seq<GroupView>) -> Seq<SummaryView>
    decreases groups.len(),
{
    if groups.len() == 0 {
        seq![]
    } else {
        groups_summaries(groups.drop_last()) + stored_summaries(
            groups.last().fingerprint,
            groups.last().stored,
        )
    }
}

/// The number of rows of each of the stored intervals fits in a `usize`.
pub open spec fn stored_can_count(stored: Seq<StoredView>) -> bool {
    forall|k: int| 0 <= k < stored.len() ==> rows_of((#[trigger] stored[k]).batches) <= usize::MAX
}

/// The number of rows of each interval in the cache fits in a `usize`.
pub open spec fn can_count(groups: Seq<GroupView>) -> bool {
    forall|i: int| 0 <= i < groups.len() ==> stored_can_count((#[trigger] groups[i]).stored)
}

impl Group {
    /// Write the group behind the text, as far as it can be printed, and say whether all of it
    /// could.
    fn push_text(&self, text: &mut String) -> (printed: bool)
        ensures
            printed == stored_can_print(self@.stored),
            printed ==> final(text)@ == old(text)@ + all_stored_text(
                self@.fingerprint,
                self@.stored,
            ),
    {
        let ghost stored = self@.stored;
        let ghost start = text@;
        let mut k: usize = 0;
        assert(stored.take(0) =~= seq![]);
        assert(text@ =~= start + all_stored_text(self@.fingerprint, stored.take(0)));
        while k < self.stored.len()
            invariant
                k <= self.stored@.len(),
                stored == self@.stored,
                text@ == start + all_stored_text(self@.fingerprint, stored.take(k as int)),
                stored_can_print(stored.take(k as int)),
            decreases self.stored@.len() - k,
        {
            let item = &self.stored[k];
            assert(stored[k as int] == item@);
            let table = match format_batches(&item.record_batch) {
                Some(table) => table,
                None => {
                    assert(batches_table(stored[k as int].batches) is None);
                    return false;
                },
            };
            let ghost before = text@;
            text.append("Fingerprint (cache key): ");
            text.append(self.fingerprint.as_str());
            text.append("\ninterval: [");
            push_decimal(text, item.interval.start_ns);
            text.append(", ");
            push_decimal(text, item.interval.end_ns);
            text.append(") data:\n");
            text.append(table.as_str());
            text.append("\n");
            proof {
                assert(text@ =~= before + stored_text(self@.fingerprint, item@));
                let longer = stored.take(k + 1);
                assert(longer.drop_last() =~= stored.take(k as int));
                assert(longer.last() == item@);
                assert(text@ =~= start + all_stored_text(self@.fingerprint, longer));
                assert forall|j: int| 0 <= j < longer.len() implies batches_table(
                    (#[trigger] longer[j]).batches,
                ) is Some by {
                    if j < k {
                        assert(longer[j] == stored.take(k as int)[j]);
                    }
                }
            }
            k = k + 1;
        }
        assert(stored.take(k as int) =~= stored);
        true
    }

    /// Put the summaries of the group behind the others, as far as its rows can be counted, and
    /// say whether all of them could.
    fn push_summaries(&self, summaries: &mut Vec<EntrySummary>) -> (counted: bool)
        ensures
            counted == stored_can_count(self@.stored),
            counted ==> summary_views(final(summaries)@) == summary_views(old(summaries)@)
                + stored_summaries(self@.fingerprint, self@.stored),
    {
        let ghost stored = self@.stored;
        let ghost start = summary_views(summaries@);
        let ghost all = stored_summaries(self@.fingerprint, stored);
        let mut k: usize = 0;
        assert(summary_views(summaries@) =~= start + all.take(0));
        while k < self.stored.len()
            invariant
                k <= self.stored@.len(),
                stored == self@.stored,
                all == stored_summaries(self@.fingerprint, stored),
                summary_views(summaries@) == start + all.take(k as int),
                forall|j: int|
                    0 <= j < k ==> rows_of((#[trigger] stored[j]).batches) <= usize::MAX,
            decreases self.stored@.len() - k,
        {
            let item = &self.stored[k];
            assert(stored[k as int] == item@);
            let num_rows = match total_rows(item.record_batch.as_slice()) {
                Some(num_rows) => num_rows,
                None => {
                    assert(rows_of(stored[k as int].batches) > usize::MAX);
                    return false;
                },
            };
            let summary = EntrySummary {
                fingerprint: self.fingerprint.clone(),
                interval: item.interval,
                num_rows,
            };
            let ghost before = summaries@;
            summaries.push(summary);
            proof {
                assert(summary_views(summaries@) =~= summary_views(before).push(summary@));
                assert(summary@ == all[k as int]);
                assert(start + all.take(k + 1) =~= (start + all.take(k as int)).push(
                    all[k as int],
                ));
            }
            k = k + 1;
        }
        assert(all.take(k as int) =~= all);
        true
    }
}

impl Default for MemoryQueryCache {
    fn default() -> (cache: Self)
        ensures
            cache@ == Seq::<GroupView>::empty(),
    {
        MemoryQueryCache::new()
    }
}

/// Stored intervals, groups and caches are known by all that they hold.
proof fn law_caches_keep_what_they_hold(
    cache: MemoryQueryCache,
    entry: OccupiedMemoryIntervalCacheEntry,
    summary: EntrySummary,
)
    ensures
        cache@.len() == cache.groups@.len(),
        forall|i: int|
            0 <= i < cache@.len() ==> (#[trigger] cache@[i]).fingerprint
                == cache.groups@[i].fingerprint@ && cache@[i].stored.len()
                == cache.groups@[i].stored@.len(),
        forall|i: int, k: int|
            0 <= i < cache@.len() && 0 <= k < cache@[i].stored.len()
                ==> #[trigger] cache@[i].stored[k] == (StoredView {
                interval: cache.groups@[i].stored@[k].interval,
                batches: cache.groups@[i].stored@[k].record_batch@,
            }),
        entry@.fingerprint == entry.fingerprint@,
        entry@.stored.interval == entry.interval,
        entry@.stored.batches == entry.record_batch@,
        entry.covers() == entry.interval,
        summary@.fingerprint == summary.fingerprint@,
        summary@.interval == summary.interval,
        summary@.num_rows == summary.num_rows,
{
}

/// What is stored under a fingerprint is what its group holds, and nothing where it has none.
pub proof fn law_stored_is_what_the_group_holds(groups: Seq<GroupView>, fingerprint: Seq<char>)
    requires
        forall|i: int, j: int|
            0 <= i < j < groups.len() ==> (#[trigger] groups[i]).fingerprint != (
            #[trigger] groups[j]).fingerprint,
    ensures
        forall|i: int|
            0 <= i < groups.len() && (#[trigger] groups[i]).fingerprint == fingerprint
                ==> stored_under(groups, fingerprint) == groups[i].stored,
        (forall|i: int| 0 <= i < groups.len() ==> (#[trigger] groups[i]).fingerprint != fingerprint)
            ==> stored_under(groups, fingerprint) == Seq::<StoredView>::empty(),
        fingerprints(groups).len() == groups.len(),
        forall|i: int|
            0 <= i < groups.len() ==> #[trigger] fingerprints(groups)[i] == groups[i].fingerprint,
        has_group(groups, fingerprint) == fingerprints(groups).contains(fingerprint),
{
    assert forall|i: int|
        0 <= i < groups.len() && (
        #[trigger] groups[i]).fingerprint == fingerprint implies stored_under(groups, fingerprint)
        == groups[i].stored by {
        lemma_stored_at(groups, i);
    }
    if forall|i: int| 0 <= i < groups.len() ==> (#[trigger] groups[i]).fingerprint != fingerprint {
        lemma_nothing_stored(groups, fingerprint);
    }
    if has_group(groups, fingerprint) {
        let i = choose|i: int|
            0 <= i < groups.len() && (#[trigger] groups[i]).fingerprint == fingerprint;
        assert(fingerprints(groups)[i] == fingerprint);
    }
    if fingerprints(groups).contains(fingerprint) {
        let i = choose|i: int| 0 <= i < groups.len() && fingerprints(groups)[i] == fingerprint;
        assert(groups[i].fingerprint == fingerprint);
    }
}

/// What overlaps a request is what starts before it ends and ends after it starts.
pub proof fn law_what_overlaps_is_kept_in_order(
    stored: Seq<StoredView>,
    item: StoredView,
    req: TimeInterval,
)
    ensures
        overlapping(Seq::<StoredView>::empty(), req) == Seq::<StoredView>::empty(),
        item.interval.start_ns < req.end_ns && req.start_ns < item.interval.end_ns ==> overlapping(
            stored.push(item),
            req,
        ) == overlapping(stored, req).push(item),
        item.interval.start_ns >= req.end_ns || req.start_ns >= item.interval.end_ns
            ==> overlapping(stored.push(item), req) == overlapping(stored, req),
{
    assert(stored.push(item).drop_last() =~= stored);
}

/// A lookup hands out one entry for each stored interval that overlaps the request, in the order in
/// which they were put, under the fingerprint that was asked for, with the interval as it was put
/// and with all of its batches.
pub proof fn law_lookup_hands_out_all_that_is_stored(
    entries: Seq<OccupiedMemoryIntervalCacheEntry>,
    groups: Seq<GroupView>,
    fingerprint: Seq<char>,
    req: TimeInterval,
)
    requires
        entry_views(entries) == entries_for(
            fingerprint,
            overlapping(stored_under(groups, fingerprint), req),
        ),
    ensures
        ({
            let wanted = stored_under(groups, fingerprint).filter(
                |item: StoredView|
                    item.interval.start_ns < req.end_ns && req.start_ns < item.interval.end_ns,
            );
            &&& entries.len() == wanted.len()
            &&& forall|i: int|
                0 <= i < entries.len() ==> (#[trigger] entries[i])@.fingerprint == fingerprint
                    && entries[i]@.stored == wanted[i]
        }),
{
    let stored = stored_under(groups, fingerprint);
    let wanted = stored.filter(
        |item: StoredView|
            item.interval.start_ns < req.end_ns && req.start_ns < item.interval.end_ns,
    );
    lemma_overlapping_is_a_filter(stored, req);
    assert(entries.len() == entry_views(entries).len());
    assert forall|i: int| 0 <= i < entries.len() implies (
    #[trigger] entries[i])@.fingerprint == fingerprint && entries[i]@.stored == wanted[i] by {
        assert(entry_views(entries)[i] == entries[i]@);
    }
}

proof fn lemma_overlapping_is_a_filter(stored: Seq<StoredView>, req: TimeInterval)
    ensures
        overlapping(stored, req) == stored.filter(
            |item: StoredView|
                item.interval.start_ns < req.end_ns && req.start_ns < item.interval.end_ns,
        ),
    decreases stored.len(),
{
    let keep = |item: StoredView|
        item.interval.start_ns < req.end_ns && req.start_ns < item.interval.end_ns;
    reveal(Seq::filter);
    if stored.len() > 0 {
        lemma_overlapping_is_a_filter(stored.drop_last(), req);
        assert(stored.drop_last().push(stored.last()) =~= stored);
    }
}

/// What was put last under a fingerprint is handed out last by a lookup of an interval that it
/// overlaps: with the batches that were put, all of them, and its interval. Nothing else changes.
pub proof fn law_lookup_ends_with_what_was_put(
    before: Seq<GroupView>,
    after: Seq<GroupView>,
    entries_before: Seq<OccupiedMemoryIntervalCacheEntry>,
    entries_after: Seq<OccupiedMemoryIntervalCacheEntry>,
    fingerprint: Seq<char>,
    interval: TimeInterval,
    batches: Seq<Batch>,
    req: TimeInterval,
)
    requires
        stored_under(after, fingerprint) == stored_under(before, fingerprint).push(
            (StoredView { interval, batches }),
        ),
        entry_views(entries_before) == entries_for(
            fingerprint,
            overlapping(stored_under(before, fingerprint), req),
        ),
        entry_views(entries_after) == entries_for(
            fingerprint,
            overlapping(stored_under(after, fingerprint), req),
        ),
    ensures
        ({
            let n = entries_before.len() as int;
            let overlap = interval.start_ns < req.end_ns && req.start_ns < interval.end_ns;
            &&& entries_after.len() == if overlap {
                n + 1
            } else {
                n
            }
            &&& forall|i: int| 0 <= i < n ==> (#[trigger] entries_after[i])@ == entries_before[i]@
            &&& overlap ==> entries_after[n]@.fingerprint == fingerprint
                && entries_after[n]@.stored.interval == interval
                && entries_after[n]@.stored.batches == batches && entries_after[n].covers()
                == interval
        }),
{
    let item = StoredView { interval, batches };
    let n = entries_before.len() as int;
    law_what_overlaps_is_kept_in_order(stored_under(before, fingerprint), item, req);
    assert(entries_before.len() == entry_views(entries_before).len());
    assert(entries_after.len() == entry_views(entries_after).len());
    assert forall|i: int| 0 <= i < n implies (
    #[trigger] entries_after[i])@ == entries_before[i]@ by {
        assert(entry_views(entries_after)[i] == entries_after[i]@);
        assert(entry_views(entries_before)[i] == entries_before[i]@);
    }
    if interval.start_ns < req.end_ns && req.start_ns < interval.end_ns {
        assert(entry_views(entries_after)[n] == entries_after[n]@);
    }
}

/// A cache prints as a heading and then, group by group and in the order in which they were put,
/// what is stored: its fingerprint, its ends and its batches as a table.
pub proof fn law_caches_are_printed_interval_by_interval(
    groups: Seq<GroupView>,
    fingerprint: Seq<char>,
    stored: Seq<StoredView>,
    interval: TimeInterval,
    batches: Seq<Batch>,
)
    ensures
        cache_text(Seq::<GroupView>::empty()) == "## MemoryQueryCache:\n"@,
        cache_text(
            groups.push((GroupView { fingerprint, stored: Seq::<StoredView>::empty() })),
        ) == cache_text(groups),
        cache_text(
            groups.push(
                (GroupView {
                    fingerprint,
                    stored: stored.push((StoredView { interval, batches })),
                }),
            ),
        ) == cache_text(groups.push((GroupView { fingerprint, stored })))
            + "Fingerprint (cache key): "@ + fingerprint + "\ninterval: ["@ + decimal(
            interval.start_ns as int,
        ) + ", "@ + decimal(interval.end_ns as int) + ") data:\n"@ + batches_table(batches)->0
            + "\n"@,
        can_print(groups) == (forall|i: int, k: int|
            0 <= i < groups.len() && 0 <= k < groups[i].stored.len() ==> batches_table(
                #[trigger] groups[i].stored[k].batches,
            ) is Some),
{
    let item = StoredView { interval, batches };
    let shorter = GroupView { fingerprint, stored };
    let longer = GroupView { fingerprint, stored: stored.push(item) };
    let empty = GroupView { fingerprint, stored: Seq::<StoredView>::empty() };
    assert(stored.push(item).drop_last() =~= stored);
    assert(groups.push(empty).drop_last() =~= groups);
    assert(groups.push(shorter).drop_last() =~= groups);
    assert(groups.push(longer).drop_last() =~= groups);
    assert(cache_text(Seq::<GroupView>::empty()) =~= "## MemoryQueryCache:\n"@);
    assert(cache_text(groups.push(empty)) =~= cache_text(groups));
    assert(all_stored_text(fingerprint, stored.push(item)) == all_stored_text(fingerprint, stored)
        + stored_text(fingerprint, item));
    assert(cache_text(groups.push(longer)) =~= cache_text(groups.push(shorter)) + stored_text(
        fingerprint,
        item,
    ));
    assert(cache_text(groups.push(shorter)) + stored_text(fingerprint, item) =~= cache_text(
        groups.push(shorter),
    ) + "Fingerprint (cache key): "@ + fingerprint + "\ninterval: ["@ + decimal(
        interval.start_ns as int,
    ) + ", "@ + decimal(interval.end_ns as int) + ") data:\n"@ + batches_table(batches)->0 + "\n"@);
    if can_print(groups) {
        assert forall|i: int, k: int|
            0 <= i < groups.len() && 0 <= k < groups[i].stored.len() implies batches_table(
            #[trigger] groups[i].stored[k].batches,
        ) is Some by {
            assert(stored_can_print(groups[i].stored));
        }
    }
}

/// A cache has one summary for each stored interval, group by group and in the order in which they
/// were put: with its fingerprint, its ends and the rows of all of its batches.
pub proof fn law_summaries_are_of_every_interval(
    summaries: Seq<EntrySummary>,
    groups: Seq<GroupView>,
    fingerprint: Seq<char>,
    stored: Seq<StoredView>,
    interval: TimeInterval,
    batches: Seq<Batch>,
)
    ensures
        groups_summaries(Seq::<GroupView>::empty()) == Seq::<SummaryView>::empty(),
        groups_summaries(
            groups.push((GroupView { fingerprint, stored: Seq::<StoredView>::empty() })),
        ) == groups_summaries(groups),
        groups_summaries(
            groups.push(
                (GroupView {
                    fingerprint,
                    stored: stored.push((StoredView { interval, batches })),
                }),
            ),
        ) == groups_summaries(groups.push((GroupView { fingerprint, stored }))).push(
            (SummaryView { fingerprint, interval, num_rows: rows_of(batches) }),
        ),
        can_count(groups) == (forall|i: int, k: int|
            0 <= i < groups.len() && 0 <= k < groups[i].stored.len() ==> rows_of(
                #[trigger] groups[i].stored[k].batches,
            ) <= usize::MAX),
        summary_views(summaries).len() == summaries.len(),
        forall|i: int|
            0 <= i < summaries.len() ==> #[trigger] summary_views(summaries)[i] == (SummaryView {
                fingerprint: summaries[i].fingerprint@,
                interval: summaries[i].interval,
                num_rows: summaries[i].num_rows as nat,
            }),
{
    let item = StoredView { interval, batches };
    let shorter = GroupView { fingerprint, stored };
    let longer = GroupView { fingerprint, stored: stored.push(item) };
    let empty = GroupView { fingerprint, stored: Seq::<StoredView>::empty() };
    assert(groups.push(empty).drop_last() =~= groups);
    assert(groups.push(shorter).drop_last() =~= groups);
    assert(groups.push(longer).drop_last() =~= groups);
    assert(groups_summaries(groups.push(empty)) =~= groups_summaries(groups));
    assert(groups_summaries(groups.push(longer)) =~= groups_summaries(groups.push(shorter)).push(
        SummaryView { fingerprint, interval, num_rows: rows_of(batches) },
    ));
    if can_count(groups) {
        assert forall|i: int, k: int|
            0 <= i < groups.len() && 0 <= k < groups[i].stored.len() implies rows_of(
            #[trigger] groups[i].stored[k].batches,
        ) <= usize::MAX by {
            assert(stored_can_count(groups[i].stored));
        }
    }
}

} // verus!
