//! The denominator lists of the series with its leading one set aside:
//! `pi / 4 = 1 - (1/3 + 1/7 + ...) + (1/5 + 1/9 + ...)`.

use crate::error::EngineError;
use crate::range::{lemma_partition_coverage, partition, window_size, TermRange};
use crate::term::{term_denominator, term_is_negative};
use vstd::prelude::*;

verus! {

/// The numbers `first, first + 4, first + 8, ...`, `count` of them.
pub open spec fn stepped(first: nat, count: nat) -> Seq<u64> {
    Seq::new(count, |j: int| (first + 4 * j) as u64)
}

/// The denominators `3, 7, 11, ...` below `3 + 2 * factors`: those of the
/// terms with odd index, which the series subtracts.
pub open spec fn odd_term_denominators(factors: nat) -> Seq<u64> {
    stepped(3, (factors + 1) / 2)
}

/// The denominators `5, 9, 13, ...` below `3 + 2 * factors`: those of the
/// terms with even index from two on, which the series adds.
pub open spec fn even_term_denominators(factors: nat) -> Seq<u64> {
    stepped(5, factors / 2)
}

/// The two lists hold the denominators of the terms `1, 2, ..., factors`,
/// each once: entry `j` of the first is that of term `2j + 1`, entry `j` of
/// the second that of term `2j + 2`, and no entry reaches `3 + 2 * factors`.
pub proof fn lemma_lists_are_series_terms(factors: nat, j: nat)
    requires
        2 * factors + 3 <= u64::MAX,
    ensures
        odd_term_denominators(factors).len() + even_term_denominators(factors).len() == factors,
        j < odd_term_denominators(factors).len() ==> {
            &&& odd_term_denominators(factors)[j as int] == term_denominator(2 * j + 1)
            &&& term_is_negative(2 * j + 1)
            &&& 1 <= 2 * j + 1 <= factors
        },
        j < even_term_denominators(factors).len() ==> {
            &&& even_term_denominators(factors)[j as int] == term_denominator(2 * j + 2)
            &&& !term_is_negative(2 * j + 2)
            &&& 2 <= 2 * j + 2 <= factors
        },
{
}

/// Builds the denominators of the terms `1` to `factors`, split by sign.
///
/// The first list holds `3, 7, 11, ...`, the second `5, 9, 13, ...`; both
/// stop below `3 + 2 * factors`, which has to fit in 64 bits.
pub fn create_factor_vectors(factors: u64) -> (lists: (Vec<u64>, Vec<u64>))
    requires
        2 * factors + 3 <= u64::MAX,
    ensures
        lists.0@ == odd_term_denominators(factors as nat),
        lists.1@ == even_term_denominators(factors as nat),
{
    let odd_count: u64 = factors / 2 + factors % 2;
    let even_count: u64 = factors / 2;
    let pos: Vec<u64> = stepped_list(3, odd_count);
    let neg: Vec<u64> = stepped_list(5, even_count);
    (pos, neg)
}

/// The list `first, first + 4, ...` of `count` numbers.
fn stepped_list(first: u64, count: u64) -> (list: Vec<u64>)
    requires
        count > 0 ==> first + 4 * (count - 1) <= u64::MAX,
    ensures
        list@ == stepped(first as nat, count as nat),
{
    let mut list: Vec<u64> = Vec::new();
    let mut j: u64 = 0;
    while j < count
        invariant
            j <= count,
            count > 0 ==> first + 4 * (count - 1) <= u64::MAX,
            list@ == stepped(first as nat, j as nat),
        decreases count - j,
    {
        list.push(first + 4 * j);
        j += 1;
        assert(list@ =~= stepped(first as nat, j as nat));
    }
    list
}

/// Copies the entries of `denominators` whose positions lie in `range`, for
/// the worker that owns that window.
///
/// Returns nothing when the window reaches past the end of the list.
pub fn denominator_window(denominators: &Vec<u64>, range: TermRange) -> (window: Option<Vec<u64>>)
    ensures
        window is Some <==> range.end() <= denominators@.len(),
        window matches Some(entries) ==> entries@ == denominators@.subrange(
            range.start() as int,
            range.end() as int,
        ),
{
    let start: u64 = range.start();
    let end: u64 = range.end();
    if end > denominators.len() as u64 {
        return None;
    }
    let mut entries: Vec<u64> = Vec::new();
    let mut i: usize = start as usize;
    let stop: usize = end as usize;
    while i < stop
        invariant
            start <= i <= stop,
            stop == end,
            end <= denominators@.len(),
            entries@ == denominators@.subrange(start as int, i as int),
        decreases stop - i,
    {
        entries.push(denominators[i]);
        i += 1;
        assert(entries@ =~= denominators@.subrange(start as int, i as int));
    }
    Some(entries)
}

/// `slices` shares the two lists for `factors` out among `worker_count`
/// workers: worker `i` holds the entries at the positions `[i * w, (i + 1) * w)`
/// of either list, where `w` is the length of the shorter list divided by the
/// number of workers.
pub open spec fn is_sliced(slices: Seq<(Vec<u64>, Vec<u64>)>, factors: nat, worker_count: nat)
    -> bool {
    let w = window_size(factors / 2, worker_count);
    &&& slices.len() == worker_count
    &&& forall|i: int|
        0 <= i < slices.len() ==> {
            &&& (#[trigger] slices[i]).0@ == odd_term_denominators(factors).subrange(
                i * w,
                (i + 1) * w,
            )
            &&& slices[i].1@ == even_term_denominators(factors).subrange(i * w, (i + 1) * w)
        }
}

/// Builds the two denominator lists for `factors` and hands each of
/// `worker_count` workers its slice of either list.
///
/// Both lists are cut at the same positions, which divide the shorter list
/// evenly; up to `worker_count` entries at the end of a list belong to no
/// slice. Fails with `InvalidPartition` without a worker.
pub fn create_factor_slices(factors: u64, worker_count: usize) -> (r: Result<
    Vec<(Vec<u64>, Vec<u64>)>,
    EngineError,
>)
    requires
        2 * factors + 3 <= u64::MAX,
    ensures
        r is Err <==> worker_count == 0,
        r matches Err(e) ==> e == EngineError::InvalidPartition,
        r matches Ok(slices) ==> is_sliced(slices@, factors as nat, worker_count as nat),
{
    let ranges: Vec<TermRange> = match partition(factors / 2, worker_count) {
        Ok(ranges) => ranges,
        Err(e) => {
            return Err(e);
        },
    };
    let (pos, neg) = create_factor_vectors(factors);
    let ghost w = window_size((factors / 2) as nat, worker_count as nat);
    proof {
        lemma_partition_coverage(ranges@, (factors / 2) as nat, worker_count as nat);
    }
    let mut slices: Vec<(Vec<u64>, Vec<u64>)> = Vec::new();
    let mut i: usize = 0;
    while i < ranges.len()
        invariant
            i <= ranges@.len(),
            ranges@.len() == worker_count,
            pos@ == odd_term_denominators(factors as nat),
            neg@ == even_term_denominators(factors as nat),
            w == window_size((factors / 2) as nat, worker_count as nat),
            forall|j: int|
                0 <= j < ranges@.len() ==> {
                    &&& (#[trigger] ranges@[j]).start() == j * w
                    &&& ranges@[j].end() == (j + 1) * w
                    &&& ranges@[j].end() <= factors / 2
                },
            slices@.len() == i,
            forall|j: int|
                0 <= j < i ==> {
                    &&& (#[trigger] slices@[j]).0@ == pos@.subrange(j * w, (j + 1) * w)
                    &&& slices@[j].1@ == neg@.subrange(j * w, (j + 1) * w)
                },
        decreases ranges@.len() - i,
    {
        let range: TermRange = ranges[i];
        let pos_slice: Option<Vec<u64>> = denominator_window(&pos, range);
        let neg_slice: Option<Vec<u64>> = denominator_window(&neg, range);
        slices.push((pos_slice.unwrap(), neg_slice.unwrap()));
        i += 1;
    }
    Ok(slices)
}

} // verus!
