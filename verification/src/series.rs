//! The series in exact arithmetic: what the workers and the reduction compute
//! when no rounding takes place.

use crate::denominators::{even_term_denominators, is_sliced, odd_term_denominators};
use crate::range::{
    contiguous, covered_terms, is_partition, lemma_partition_coverage, window_size, TermRange,
};
use crate::term::{term_denominator, term_is_negative, Term};
use vstd::prelude::*;

verus! {

/// The exact value `(-1)^k / (2k + 1)` of the term with index `k`.
pub open spec fn term_value(k: nat) -> real {
    if term_is_negative(k) {
        -(1real / (term_denominator(k) as real))
    } else {
        1real / (term_denominator(k) as real)
    }
}

/// The exact value that a sign and a denominator stand for.
pub open spec fn value_of(term: Term) -> real {
    if term.negative {
        -(1real / (term.denominator as real))
    } else {
        1real / (term.denominator as real)
    }
}

/// The exact sum of the terms with indices in `[start, end)`; zero when the
/// window is empty.
pub open spec fn window_sum(start: nat, end: nat) -> real
    decreases end,
{
    if end <= start {
        0real
    } else {
        window_sum(start, (end - 1) as nat) + term_value((end - 1) as nat)
    }
}

/// The exact sum of `parts`, added up from the first to the last.
pub open spec fn sum_of(parts: Seq<real>) -> real
    decreases parts.len(),
{
    if parts.len() == 0 {
        0real
    } else {
        sum_of(parts.drop_last()) + parts.last()
    }
}

/// The exact partial result of each window, in the order of the windows.
pub open spec fn partial_sums(ranges: Seq<TermRange>) -> Seq<real> {
    Seq::new(ranges.len(), |i: int| window_sum(ranges[i].start() as nat, ranges[i].end() as nat))
}

/// The estimate of π that the windows give without rounding: four times the
/// sum of their partial results.
pub open spec fn exact_estimate(ranges: Seq<TermRange>) -> real {
    4real * sum_of(partial_sums(ranges))
}

/// The first terms have the values `1`, `-1/3` and `1/5`.
pub proof fn lemma_first_term_values()
    ensures
        term_value(0) == 1real,
        term_value(1) == -(1real / 3real),
        term_value(2) == 1real / 5real,
{
    assert(1real / 1real == 1real);
}

/// The term that stands for index `k` has the exact value of that index.
pub proof fn lemma_value_of_term(term: Term, k: nat)
    requires
        term.is_term(k),
    ensures
        value_of(term) == term_value(k),
{
}

/// A window can be summed in two pieces.
pub proof fn lemma_window_sum_split(start: nat, middle: nat, end: nat)
    requires
        start <= middle <= end,
    ensures
        window_sum(start, end) == window_sum(start, middle) + window_sum(middle, end),
    decreases end,
{
    if middle < end {
        lemma_window_sum_split(start, middle, (end - 1) as nat);
    }
}

/// Taking the first term off a window leaves the sum of the rest.
pub proof fn lemma_window_sum_first(start: nat, end: nat)
    requires
        start < end,
    ensures
        window_sum(start, end) == term_value(start) + window_sum(start + 1, end),
{
    lemma_window_sum_split(start, start + 1, end);
    assert(window_sum(start, start + 1) == term_value(start)) by {
        reveal_with_fuel(window_sum, 2);
    }
}

/// Each term is smaller in magnitude than the one before it and has the
/// opposite sign.
pub proof fn lemma_terms_shrink(k: nat)
    ensures
        term_is_negative(k) ==> term_value(k) < 0real && 0real < term_value(k + 1)
            && term_value(k + 1) < -term_value(k),
        !term_is_negative(k) ==> 0real < term_value(k) && term_value(k + 1) < 0real
            && -term_value(k + 1) < term_value(k),
{
    let d = term_denominator(k) as real;
    let e = term_denominator(k + 1) as real;
    assert(0real < 1real / e && 1real / e < 1real / d) by (nonlinear_arith)
        requires
            d >= 1real,
            e == d + 2real,
    ;
}

/// The sums of the first `n`, `n + 1` and `n + 2` terms nest: the third lies
/// strictly between the first two, so every further term narrows the
/// interval in which all later sums lie.
pub proof fn lemma_partial_sums_nest(n: nat)
    ensures
        term_is_negative(n) ==> window_sum(0, n + 1) < window_sum(0, n + 2) && window_sum(0, n + 2)
            < window_sum(0, n),
        !term_is_negative(n) ==> window_sum(0, n) < window_sum(0, n + 2) && window_sum(0, n + 2)
            < window_sum(0, n + 1),
{
    lemma_terms_shrink(n);
    reveal_with_fuel(window_sum, 3);
}

/// Putting a part in front adds it to the sum.
proof fn lemma_sum_of_prepend(first: real, rest: Seq<real>)
    ensures
        sum_of(seq![first] + rest) == first + sum_of(rest),
    decreases rest.len(),
{
    let whole = seq![first] + rest;
    if rest.len() == 0 {
        assert(whole.drop_last() =~= Seq::<real>::empty());
        assert(sum_of(whole.drop_last()) == 0real);
    } else {
        assert(whole.drop_last() =~= seq![first] + rest.drop_last());
        lemma_sum_of_prepend(first, rest.drop_last());
    }
}

/// In exact arithmetic the reduction does not depend on the direction: the
/// partial results added up from the last to the first give the same sum as
/// from the first to the last.
pub proof fn lemma_sum_of_reversed(parts: Seq<real>)
    ensures
        sum_of(parts.reverse()) == sum_of(parts),
    decreases parts.len(),
{
    if parts.len() > 0 {
        assert(parts.reverse() =~= seq![parts.last()] + parts.drop_last().reverse());
        lemma_sum_of_prepend(parts.last(), parts.drop_last().reverse());
        lemma_sum_of_reversed(parts.drop_last());
    }
}

/// Windows that follow one another from zero add up to the sum of all the
/// terms below the end of the last window.
pub proof fn lemma_contiguous_windows_sum(ranges: Seq<TermRange>)
    requires
        ranges.len() > 0,
        contiguous(ranges),
        forall|i: int| 0 <= i < ranges.len() ==> (#[trigger] ranges[i]).wf(),
    ensures
        sum_of(partial_sums(ranges)) == window_sum(0, ranges.last().end() as nat),
    decreases ranges.len(),
{
    let last = ranges.last();
    let front = ranges.drop_last();
    assert(partial_sums(ranges).drop_last() =~= partial_sums(front));
    if ranges.len() == 1 {
        assert(sum_of(partial_sums(front)) == 0real);
    } else {
        assert(front[0] == ranges[0]);
        assert forall|i: int, j: int| 0 <= i && j == i + 1 && j < front.len() implies (
        #[trigger] front[i]).end() == (#[trigger] front[j]).start() by {
            assert(front[i] == ranges[i] && front[j] == ranges[j]);
        }
        assert forall|i: int| 0 <= i < front.len() implies (#[trigger] front[i]).wf() by {
            assert(front[i] == ranges[i]);
        }
        lemma_contiguous_windows_sum(front);
        assert(front.last() == ranges[ranges.len() - 2]);
        lemma_window_sum_split(0, last.start() as nat, last.end() as nat);
    }
}

/// What the engine computes without rounding: the partial results of the
/// windows of a partition add up to the sum of the first `covered_terms`
/// terms of the series, whatever the number of workers.
pub proof fn lemma_partition_sum(ranges: Seq<TermRange>, total_terms: nat, worker_count: nat)
    requires
        worker_count > 0,
        is_partition(ranges, total_terms, worker_count),
    ensures
        sum_of(partial_sums(ranges)) == window_sum(0, covered_terms(total_terms, worker_count)),
        exact_estimate(ranges) == 4real * window_sum(0, covered_terms(total_terms, worker_count)),
{
    lemma_partition_coverage(ranges, total_terms, worker_count);
    lemma_contiguous_windows_sum(ranges);
    let w = window_size(total_terms, worker_count) as int;
    let last = ranges.len() - 1;
    assert((last + 1) * w == worker_count * w);
}

/// The exact sum of the reciprocals of the first `count` entries of `list`.
pub open spec fn reciprocal_sum(list: Seq<u64>, count: nat) -> real
    decreases count,
{
    if count == 0 {
        0real
    } else {
        reciprocal_sum(list, (count - 1) as nat) + 1real / (list[count - 1] as real)
    }
}

/// The two formulations of the series agree in exact arithmetic: one less
/// the reciprocals of `3, 7, 11, ...` plus the reciprocals of `5, 9, 13, ...`,
/// `count` of each, is the sum of the first `2 * count + 1` terms.
pub proof fn lemma_denominator_lists_sum(factors: nat, count: nat)
    requires
        2 * factors + 3 <= u64::MAX,
        count <= even_term_denominators(factors).len(),
    ensures
        count <= odd_term_denominators(factors).len(),
        1real - (reciprocal_sum(odd_term_denominators(factors), count) - reciprocal_sum(
            even_term_denominators(factors),
            count,
        )) == window_sum(0, 2 * count + 1),
    decreases count,
{
    if count == 0 {
        lemma_first_term_values();
        reveal_with_fuel(window_sum, 2);
    } else {
        let j = (count - 1) as nat;
        lemma_denominator_lists_sum(factors, j);
        assert(odd_term_denominators(factors)[j as int] == term_denominator(2 * j + 1));
        assert(even_term_denominators(factors)[j as int] == term_denominator(2 * j + 2));
        assert(window_sum(0, 2 * count + 1) == window_sum(0, 2 * j + 1) + term_value(2 * j + 1)
            + term_value(2 * j + 2)) by {
            reveal_with_fuel(window_sum, 3);
        }
    }
}

/// The sum over a stretch of a list is the difference of two sums from the
/// front of the list.
proof fn lemma_reciprocal_sum_stretch(list: Seq<u64>, from: nat, to: nat)
    requires
        from <= to <= list.len(),
    ensures
        reciprocal_sum(list.subrange(from as int, to as int), (to - from) as nat)
            == reciprocal_sum(list, to) - reciprocal_sum(list, from),
    decreases to,
{
    if from < to {
        let shorter = list.subrange(from as int, to - 1);
        let longer = list.subrange(from as int, to as int);
        lemma_reciprocal_sum_stretch(list, from, (to - 1) as nat);
        lemma_reciprocal_sum_agrees(shorter, longer, (to - 1 - from) as nat);
    }
}

/// The sum of the first `count` entries depends on those entries alone.
proof fn lemma_reciprocal_sum_agrees(a: Seq<u64>, b: Seq<u64>, count: nat)
    requires
        count <= a.len(),
        count <= b.len(),
        forall|i: int| 0 <= i < count ==> a[i] == b[i],
    ensures
        reciprocal_sum(a, count) == reciprocal_sum(b, count),
    decreases count,
{
    if count > 0 {
        lemma_reciprocal_sum_agrees(a, b, (count - 1) as nat);
    }
}

/// The exact partial result of each worker of the second formulation: the
/// reciprocals of its slice of the first list, less those of its slice of
/// the second.
pub open spec fn slice_sums(slices: Seq<(Vec<u64>, Vec<u64>)>) -> Seq<real> {
    Seq::new(
        slices.len(),
        |i: int|
            reciprocal_sum(slices[i].0@, slices[i].0@.len()) - reciprocal_sum(
                slices[i].1@,
                slices[i].1@.len(),
            ),
    )
}

/// The partial results of the first `n` workers add up to the sums over the
/// fronts of the two lists that their slices cover.
proof fn lemma_slice_sums_front(
    slices: Seq<(Vec<u64>, Vec<u64>)>,
    factors: nat,
    worker_count: nat,
    n: nat,
)
    requires
        2 * factors + 3 <= u64::MAX,
        worker_count > 0,
        is_sliced(slices, factors, worker_count),
        n <= worker_count,
    ensures
        n * window_size(factors / 2, worker_count) <= even_term_denominators(factors).len(),
        sum_of(slice_sums(slices).take(n as int)) == reciprocal_sum(
            odd_term_denominators(factors),
            n * window_size(factors / 2, worker_count),
        ) - reciprocal_sum(
            even_term_denominators(factors),
            n * window_size(factors / 2, worker_count),
        ),
    decreases n,
{
    let w = window_size(factors / 2, worker_count);
    let odd = odd_term_denominators(factors);
    let even = even_term_denominators(factors);
    let parts = slice_sums(slices);
    crate::range::lemma_dropped_below_worker_count(factors / 2, worker_count);
    assert(n * w <= worker_count * w) by (nonlinear_arith)
        requires
            n <= worker_count,
            0 <= w,
    ;
    if n == 0 {
        assert(parts.take(0) =~= Seq::<real>::empty());
        assert(n * w == 0) by (nonlinear_arith)
            requires
                n == 0,
        ;
    } else {
        let m = (n - 1) as nat;
        lemma_slice_sums_front(slices, factors, worker_count, m);
        assert(parts.take(n as int).drop_last() =~= parts.take(m as int));
        assert(m * w + w == n * w && (m + 1) * w == n * w && 0 <= m * w <= n * w)
            by (nonlinear_arith)
            requires
                m + 1 == n,
                0 <= m,
                0 <= w,
        ;
        assert(slices[m as int].0@ == odd.subrange((m * w) as int, (n * w) as int));
        assert(slices[m as int].1@ == even.subrange((m * w) as int, (n * w) as int));
        lemma_reciprocal_sum_stretch(odd, m * w, n * w);
        lemma_reciprocal_sum_stretch(even, m * w, n * w);
    }
}

/// What the second formulation computes without rounding: one less the
/// partial results of all workers is the sum of the first
/// `2 * worker_count * w + 1` terms of the series, where `w` is the number of
/// entries in each slice.
pub proof fn lemma_sliced_lists_sum(
    slices: Seq<(Vec<u64>, Vec<u64>)>,
    factors: nat,
    worker_count: nat,
)
    requires
        2 * factors + 3 <= u64::MAX,
        worker_count > 0,
        is_sliced(slices, factors, worker_count),
    ensures
        1real - sum_of(slice_sums(slices)) == window_sum(
            0,
            2 * (worker_count * window_size(factors / 2, worker_count)) + 1,
        ),
{
    lemma_slice_sums_front(slices, factors, worker_count, worker_count);
    assert(slice_sums(slices).take(worker_count as int) =~= slice_sums(slices));
    lemma_denominator_lists_sum(
        factors,
        worker_count * window_size(factors / 2, worker_count),
    );
}

} // verus!
