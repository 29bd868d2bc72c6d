//! The state of the cache in lines of text.

use vstd::prelude::*;
use vstd::string::*;

use crate::interval::TimeInterval;
use crate::plan::texts_view;
use crate::selection::OccupiedIntervalCacheEntry;
use crate::text::{decimal, push_count, push_decimal};

verus! {

/// The line on how many intervals are stored under a fingerprint.
pub open spec fn state_text(fingerprint: Seq<char>, intervals: nat) -> Seq<char> {
    if intervals == 0 {
        "Cache["@ + fingerprint + "] = <empty>"@
    } else {
        "Cache["@ + fingerprint + "] = "@ + decimal(intervals as int) + " intervals"@
    }
}

/// The line on the interval at a place.
pub open spec fn stored_interval_text(place: int, interval: TimeInterval, batches: nat) -> Seq<char> {
    "  interval["@ + decimal(place) + "]: ["@ + decimal(interval.start_ns as int) + ", "@ + decimal(
        interval.end_ns as int,
    ) + ") batches="@ + decimal(batches as int)
}

/// The line on the batch at a place.
pub open spec fn batch_text(place: int, batch: Seq<char>) -> Seq<char> {
    "    batch["@ + decimal(place) + "]: "@ + batch
}

/// The lines on an interval and its batches, from the batches as they print.
pub open spec fn entry_lines(place: int, interval: TimeInterval, batches: Seq<Seq<char>>) -> Seq<
    Seq<char>,
> {
    seq![stored_interval_text(place, interval, batches.len())] + Seq::new(
        batches.len(),
        |j: int| batch_text(j, batches[j]),
    )
}

/// The lines on the first `n` intervals.
pub open spec fn entries_lines<E: OccupiedIntervalCacheEntry>(
    entries: Seq<E>,
    batches: Seq<Vec<String>>,
    n: int,
) -> Seq<Seq<char>>
    decreases n,
{
    if n <= 0 {
        seq![]
    } else {
        entries_lines(entries, batches, n - 1) + entry_lines(
            n - 1,
            entries[n - 1].covers(),
            texts_view(batches[n - 1]@),
        )
    }
}

/// The state of the cache for a fingerprint in lines: how many intervals there are, then each
/// interval with its batches.
pub open spec fn state_texts<E: OccupiedIntervalCacheEntry>(
    fingerprint: Seq<char>,
    entries: Seq<E>,
    batches: Seq<Vec<String>>,
) -> Seq<Seq<char>> {
    seq![state_text(fingerprint, entries.len())] + entries_lines(
        entries,
        batches,
        entries.len() as int,
    )
}

/// The line on how many intervals are stored under a fingerprint.
fn state_line(fingerprint: &str, intervals: usize) -> (line: String)
    ensures
        line@ == state_text(fingerprint@, intervals as nat),
{
    let mut line = "Cache[".to_string();
    line.append(fingerprint);
    if intervals == 0 {
        line.append("] = <empty>");
    } else {
        line.append("] = ");
        push_count(&mut line, intervals);
        line.append(" intervals");
    }
    line
}

/// The line on the interval at a place.
fn interval_line(place: usize, interval: &TimeInterval, batches: usize) -> (line: String)
    ensures
        line@ == stored_interval_text(place as int, *interval, batches as nat),
{
    let mut line = "  interval[".to_string();
    push_count(&mut line, place);
    line.append("]: [");
    push_decimal(&mut line, interval.start_ns);
    line.append(", ");
    push_decimal(&mut line, interval.end_ns);
    line.append(") batches=");
    push_count(&mut line, batches);
    line
}

/// The line on the batch at a place, from the batch as it prints.
fn batch_line(place: usize, batch: &str) -> (line: String)
    ensures
        line@ == batch_text(place as int, batch@),
{
    let mut line = "    batch[".to_string();
    push_count(&mut line, place);
    line.append("]: ");
    line.append(batch);
    line
}

/// The state of the cache for a fingerprint in lines, from the entries that it has and, for each
/// of them, its batches as they print.
pub fn cache_state<E: OccupiedIntervalCacheEntry>(
    fingerprint: &str,
    entries: &[E],
    batches: &[Vec<String>],
) -> (lines: Vec<String>)
    requires
        batches@.len() == entries@.len(),
    ensures
        texts_view(lines@) == state_texts(fingerprint@, entries@, batches@),
{
    let mut lines: Vec<String> = Vec::new();
    lines.push(state_line(fingerprint, entries.len()));
    let ghost first = seq![state_text(fingerprint@, entries@.len())];
    let mut i: usize = 0;
    assert(texts_view(lines@) =~= first + entries_lines(entries@, batches@, 0));
    while i < entries.len()
        invariant
            i <= entries@.len(),
            batches@.len() == entries@.len(),
            texts_view(lines@) == first + entries_lines(entries@, batches@, i as int),
        decreases entries@.len() - i,
    {
        let shown = &batches[i];
        let interval = entries[i].interval();
        let ghost start = texts_view(lines@);
        let ghost added = entry_lines(i as int, interval, texts_view(shown@));
        let line = interval_line(i, &interval, shown.len());
        let ghost before = lines@;
        lines.push(line);
        assert(texts_view(lines@) =~= texts_view(before).push(line@));
        let mut j: usize = 0;
        assert(texts_view(lines@) =~= start + added.take(1));
        while j < shown.len()
            invariant
                j <= shown@.len(),
                added == entry_lines(i as int, interval, texts_view(shown@)),
                texts_view(lines@) == start + added.take(j + 1),
            decreases shown@.len() - j,
        {
            let line = batch_line(j, shown[j].as_str());
            let ghost before = lines@;
            lines.push(line);
            proof {
                assert(texts_view(lines@) =~= texts_view(before).push(line@));
                assert(added[j + 1] == line@);
                assert(added.take(j + 2) =~= added.take(j + 1).push(added[j + 1]));
                assert(texts_view(lines@) =~= start + added.take(j + 2));
            }
            j = j + 1;
        }
        proof {
            assert(added.take(j + 1) =~= added);
            assert(texts_view(lines@) =~= first + entries_lines(entries@, batches@, i + 1));
        }
        i = i + 1;
    }
    lines
}

/// The state of a cache is told in one line on how many intervals it has, then for each of them one
/// line with its place, its ends and how many batches it has, followed by one line for each batch.
pub proof fn law_state_is_told_line_by_line<E: OccupiedIntervalCacheEntry>(
    fingerprint: Seq<char>,
    entries: Seq<E>,
    batches: Seq<Vec<String>>,
    entry: E,
    batch: Vec<String>,
)
    requires
        batches.len() == entries.len(),
    ensures
        state_texts(fingerprint, Seq::<E>::empty(), Seq::<Vec<String>>::empty()) == seq![
            "Cache["@ + fingerprint + "] = <empty>"@,
        ],
        ({
            let n = entries.len() as int;
            let before = state_texts(fingerprint, entries, batches);
            let after = state_texts(fingerprint, entries.push(entry), batches.push(batch));
            &&& before.len() > 0
            &&& after.len() == before.len() + 1 + batch@.len()
            &&& after[0] == "Cache["@ + fingerprint + "] = "@ + decimal(n + 1) + " intervals"@
            &&& forall|k: int| 0 < k < before.len() ==> #[trigger] after[k] == before[k]
            &&& after[before.len() as int] == "  interval["@ + decimal(n) + "]: ["@ + decimal(
                entry.covers().start_ns as int,
            ) + ", "@ + decimal(entry.covers().end_ns as int) + ") batches="@ + decimal(
                batch@.len() as int,
            )
            &&& forall|j: int|
                0 <= j < batch@.len() ==> #[trigger] after[before.len() + 1 + j] == "    batch["@
                    + decimal(j) + "]: "@ + batch@[j]@
        }),
{
    let n = entries.len() as int;
    assert(state_texts(fingerprint, Seq::<E>::empty(), Seq::<Vec<String>>::empty()) =~= seq![
        "Cache["@ + fingerprint + "] = <empty>"@,
    ]);
    lemma_first_lines_stay(entries, batches, entry, batch, n);
    let before = state_texts(fingerprint, entries, batches);
    let after = state_texts(fingerprint, entries.push(entry), batches.push(batch));
    let lines = entries_lines(entries, batches, n);
    let added = entry_lines(n, entry.covers(), texts_view(batch@));
    assert(entries.push(entry)[n] == entry);
    assert(batches.push(batch)[n] == batch);
    assert(entries_lines(entries.push(entry), batches.push(batch), n + 1) == lines + added);
    assert(after.skip(1) =~= lines + added);
    assert(before.skip(1) =~= lines);
    assert forall|k: int| 0 < k < before.len() implies #[trigger] after[k] == before[k] by {
        assert(after[k] == after.skip(1)[k - 1]);
        assert(before[k] == before.skip(1)[k - 1]);
    }
    assert(after[before.len() as int] == after.skip(1)[lines.len() as int]);
    assert(added[0] == after[before.len() as int]);
    assert forall|j: int| 0 <= j < batch@.len() implies #[trigger] after[before.len() + 1 + j]
        == "    batch["@ + decimal(j) + "]: "@ + batch@[j]@ by {
        assert(after[before.len() + 1 + j] == after.skip(1)[lines.len() + 1 + j]);
        assert(added[1 + j] == batch_text(j, texts_view(batch@)[j]));
    }
}

proof fn lemma_first_lines_stay<E: OccupiedIntervalCacheEntry>(
    entries: Seq<E>,
    batches: Seq<Vec<String>>,
    entry: E,
    batch: Vec<String>,
    n: int,
)
    requires
        batches.len() == entries.len(),
        0 <= n <= entries.len(),
    ensures
        entries_lines(entries.push(entry), batches.push(batch), n) == entries_lines(
            entries,
            batches,
            n,
        ),
    decreases n,
{
    if n > 0 {
        lemma_first_lines_stay(entries, batches, entry, batch, n - 1);
        assert(entries.push(entry)[n - 1] == entries[n - 1]);
        assert(batches.push(batch)[n - 1] == batches[n - 1]);
    }
}

} // verus!
