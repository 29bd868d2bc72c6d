//! Batches of rows.

use vstd::prelude::*;

verus! {

/// A batch of rows, as Arrow holds it. Proofs do not look inside.
#[verifier::external_body]
#[derive(Debug)]
pub struct Batch {
    pub inner: datafusion::arrow::array::RecordBatch,
}

/// How many rows `RecordBatch::num_rows` counts in a batch.
pub uninterp spec fn batch_rows(batch: Batch) -> nat;

/// What `arrow::util::pretty::pretty_format_batches` prints for batches, or `None` where it fails.
pub uninterp spec fn batches_table(batches: Seq<Batch>) -> Option<Seq<char>>;

/// Calls `RecordBatch::num_rows`, whose result is a function of the batch.
#[verifier::external_body]
fn num_rows(batch: &Batch) -> (rows: usize)
    ensures
        rows == batch_rows(*batch),
{
    batch.inner.num_rows()
}

/// Calls `RecordBatch::clone`, which gives an equal batch.
#[verifier::external_body]
fn copy_batch(batch: &Batch) -> (copy: Batch)
    ensures
        copy == *batch,
{
    Batch { inner: batch.inner.clone() }
}

/// Calls `pretty_format_batches` of Arrow and prints the table that it gives. Whether it succeeds,
/// and what the table looks like, is a function of the batches.
#[verifier::external_body]
pub(crate) fn format_batches(batches: &Vec<Batch>) -> (table: Option<String>)
    ensures
        crate::scalar::text_view(table) == batches_table(batches@),
{
    let inner: Vec<_> = batches.iter().map(|batch| batch.inner.clone()).collect();
    match datafusion::arrow::util::pretty::pretty_format_batches(&inner) {
        Ok(table) => Some(table.to_string()),
        Err(_) => None,
    }
}

/// How many rows the batches have together.
pub open spec fn rows_of(batches: Seq<Batch>) -> nat
    decreases batches.len(),
{
    if batches.len() == 0 {
        0
    } else {
        rows_of(batches.drop_last()) + batch_rows(batches.last())
    }
}

/// How many rows the batches have together, where a `usize` can hold that.
pub fn total_rows(batches: &[Batch]) -> (total: Option<usize>)
    ensures
        match total {
            Some(total) => total == rows_of(batches@),
            None => rows_of(batches@) > usize::MAX,
        },
{
    let mut total: usize = 0;
    let mut i: usize = 0;
    assert(batches@.take(0) =~= seq![]);
    while i < batches.len()
        invariant
            i <= batches@.len(),
            total == rows_of(batches@.take(i as int)),
        decreases batches@.len() - i,
    {
        let rows = num_rows(&batches[i]);
        proof {
            let longer = batches@.take(i + 1);
            assert(longer.drop_last() =~= batches@.take(i as int));
            assert(longer.last() == batches@[i as int]);
        }
        match total.checked_add(rows) {
            Some(sum) => {
                total = sum;
            },
            None => {
                proof {
                    lemma_rows_grow(batches@, i + 1);
                }
                return None;
            },
        }
        i = i + 1;
    }
    assert(batches@.take(i as int) =~= batches@);
    Some(total)
}

/// More batches have no fewer rows.
proof fn lemma_rows_grow(batches: Seq<Batch>, n: int)
    requires
        0 <= n <= batches.len(),
    ensures
        rows_of(batches.take(n)) <= rows_of(batches),
    decreases batches.len() - n,
{
    if n < batches.len() {
        assert(batches.take(n + 1).drop_last() =~= batches.take(n));
        lemma_rows_grow(batches, n + 1);
    } else {
        assert(batches.take(n) =~= batches);
    }
}

/// Copy batches.
pub(crate) fn copy_batches(batches: &[Batch]) -> (copies: Vec<Batch>)
    ensures
        copies@ == batches@,
{
    let mut copies: Vec<Batch> = Vec::new();
    let mut i: usize = 0;
    while i < batches.len()
        invariant
            i <= batches@.len(),
            copies@ == batches@.take(i as int),
        decreases batches@.len() - i,
    {
        copies.push(copy_batch(&batches[i]));
        i = i + 1;
        assert(copies@ =~= batches@.take(i as int));
    }
    assert(batches@.take(i as int) =~= batches@);
    copies
}

/// Batches have together the rows that each of them has.
pub proof fn law_rows_are_counted_in_every_batch(batches: Seq<Batch>, batch: Batch)
    ensures
        rows_of(Seq::<Batch>::empty()) == 0,
        rows_of(batches.push(batch)) == rows_of(batches) + batch_rows(batch),
{
    assert(batches.push(batch).drop_last() =~= batches);
}

} // verus!
