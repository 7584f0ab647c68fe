//! Half-open windows of term indices and the division of `[0, total)` among workers.

use crate::error::EngineError;
use vstd::prelude::*;

verus! {

/// A half-open window `[start, end)` of term indices.
#[derive(Clone, Copy, Debug, PartialEq, Eq, Structural)]
pub struct TermRange {
    start: u64,
    end: u64,
}

impl TermRange {
    /// A window never ends before it starts.
    #[verifier::type_invariant]
    pub open spec fn wf(self) -> bool {
        self.start() <= self.end()
    }

    /// The first index of the window.
    pub closed spec fn spec_start(&self) -> u64 {
        self.start
    }

    /// The index one past the last index of the window.
    pub closed spec fn spec_end(&self) -> u64 {
        self.end
    }

    /// The number of indices in the window.
    pub open spec fn spec_len(&self) -> u64 {
        if self.end() >= self.start() {
            (self.end() - self.start()) as u64
        } else {
            0
        }
    }

    /// Whether index `k` lies in the window.
    pub open spec fn spec_contains(&self, k: u64) -> bool {
        self.start() <= k && k < self.end()
    }

    /// The indices of the window in rising order.
    pub open spec fn indices(&self) -> Seq<nat> {
        Seq::new(self.len() as nat, |i: int| (self.start() + i) as nat)
    }

    /// Two windows with the same bounds are the same window.
    pub proof fn lemma_bounds_determine(self, other: TermRange)
        requires
            self.start() == other.start(),
            self.end() == other.end(),
        ensures
            self == other,
    {
    }

    /// The window `[start, end)`, or nothing when `end` lies before `start`.
    pub fn new(start: u64, end: u64) -> (r: Option<TermRange>)
        ensures
            r is Some <==> start <= end,
            r matches Some(range) ==> range.wf() && range.start() == start && range.end() == end,
    {
        if start <= end {
            Some(TermRange { start, end })
        } else {
            None
        }
    }

    #[verifier::when_used_as_spec(spec_start)]
    pub fn start(&self) -> (s: u64)
        ensures
            s == self.start(),
            self.wf(),
    {
        proof {
            use_type_invariant(self);
        }
        self.start
    }

    #[verifier::when_used_as_spec(spec_end)]
    pub fn end(&self) -> (e: u64)
        ensures
            e == self.end(),
            self.wf(),
    {
        proof {
            use_type_invariant(self);
        }
        self.end
    }

    #[verifier::when_used_as_spec(spec_len)]
    pub fn len(&self) -> (n: u64)
        ensures
            n == self.len(),
            n == self.end() - self.start(),
    {
        proof {
            use_type_invariant(self);
        }
        self.end - self.start
    }

    /// Whether the window holds no index at all.
    pub fn is_empty(&self) -> (b: bool)
        ensures
            b <==> self.start() == self.end(),
            b <==> self.len() == 0,
    {
        proof {
            use_type_invariant(self);
        }
        self.start == self.end
    }

    #[verifier::when_used_as_spec(spec_contains)]
    pub fn contains(&self, k: u64) -> (b: bool)
        ensures
            b == self.contains(k),
    {
        self.start <= k && k < self.end
    }
}

/// The number of term indices that each worker receives.
pub open spec fn window_size(total_terms: nat, worker_count: nat) -> nat
    recommends
        worker_count > 0,
{
    total_terms / worker_count
}

/// The number of term indices that the windows of all workers hold together.
pub open spec fn covered_terms(total_terms: nat, worker_count: nat) -> nat
    recommends
        worker_count > 0,
{
    worker_count * window_size(total_terms, worker_count)
}

/// The number of trailing term indices that no window holds.
pub open spec fn dropped_terms(total_terms: nat, worker_count: nat) -> nat
    recommends
        worker_count > 0,
{
    (total_terms - covered_terms(total_terms, worker_count)) as nat
}

/// `ranges` is the division of `[0, total_terms)` among `worker_count` workers:
/// window `i` is `[i * w, (i + 1) * w)` with `w = total_terms / worker_count`.
pub open spec fn is_partition(ranges: Seq<TermRange>, total_terms: nat, worker_count: nat) -> bool {
    &&& ranges.len() == worker_count
    &&& forall|i: int|
        0 <= i < ranges.len() ==> {
            &&& (#[trigger] ranges[i]).wf()
            &&& ranges[i].start() == i * window_size(total_terms, worker_count)
            &&& ranges[i].end() == (i + 1) * window_size(total_terms, worker_count)
        }
}

/// Every window lies inside `[0, total_terms)`.
pub open spec fn within_total(ranges: Seq<TermRange>, total_terms: nat) -> bool {
    forall|i: int| 0 <= i < ranges.len() ==> (#[trigger] ranges[i]).end() <= total_terms
}

/// Each window ends where the next one starts, and the first starts at zero.
pub open spec fn contiguous(ranges: Seq<TermRange>) -> bool {
    &&& ranges.len() > 0 ==> ranges[0].start() == 0
    &&& forall|i: int, j: int|
        0 <= i && j == i + 1 && j < ranges.len() ==> (#[trigger] ranges[i]).end() == (
        #[trigger] ranges[j]).start()
}

/// No term index lies in two windows.
pub open spec fn pairwise_disjoint(ranges: Seq<TermRange>) -> bool {
    forall|i: int, j: int, k: u64|
        0 <= i < j < ranges.len() ==> !(#[trigger] ranges[i].contains(k)
            && #[trigger] ranges[j].contains(k))
}

/// Whether some window holds index `k`.
pub open spec fn holds_index(ranges: Seq<TermRange>, k: u64) -> bool {
    exists|i: int| 0 <= i < ranges.len() && #[trigger] ranges[i].contains(k)
}

/// The windows hold exactly the indices below `covered`.
pub open spec fn covers_exactly(ranges: Seq<TermRange>, covered: nat) -> bool {
    forall|k: u64| #[trigger] holds_index(ranges, k) <==> k < covered
}

/// The covered indices never exceed the total, and fewer indices are dropped
/// than there are workers.
pub proof fn lemma_dropped_below_worker_count(total_terms: nat, worker_count: nat)
    requires
        worker_count > 0,
    ensures
        covered_terms(total_terms, worker_count) <= total_terms,
        dropped_terms(total_terms, worker_count) == total_terms % worker_count,
        dropped_terms(total_terms, worker_count) < worker_count,
{
    let d = worker_count as int;
    vstd::arithmetic::div_mod::lemma_fundamental_div_mod(total_terms as int, d);
    vstd::arithmetic::div_mod::lemma_mod_bound(total_terms as int, d);
}

/// Window `i` of `worker_count` windows ends at or before the covered count.
proof fn lemma_window_bounds(total_terms: nat, worker_count: nat, i: nat)
    requires
        i < worker_count,
    ensures
        i * window_size(total_terms, worker_count) + window_size(total_terms, worker_count) == (i
            + 1) * window_size(total_terms, worker_count),
        (i + 1) * window_size(total_terms, worker_count) <= covered_terms(
            total_terms,
            worker_count,
        ),
        covered_terms(total_terms, worker_count) <= total_terms,
{
    let w = window_size(total_terms, worker_count) as int;
    lemma_dropped_below_worker_count(total_terms, worker_count);
    assert(i * w + w == (i + 1) * w) by (nonlinear_arith);
    assert((i + 1) * w <= worker_count * w) by (nonlinear_arith)
        requires
            i + 1 <= worker_count,
            0 <= w,
    ;
}

/// For every total and every positive number of workers, the windows of a
/// partition lie inside `[0, total_terms)`, follow one another without gap or
/// overlap, hold exactly the indices below `covered_terms`, and leave out
/// fewer indices than there are workers.
pub proof fn lemma_partition_coverage(ranges: Seq<TermRange>, total_terms: nat, worker_count: nat)
    requires
        worker_count > 0,
        is_partition(ranges, total_terms, worker_count),
    ensures
        within_total(ranges, total_terms),
        contiguous(ranges),
        pairwise_disjoint(ranges),
        covers_exactly(ranges, covered_terms(total_terms, worker_count)),
        covered_terms(total_terms, worker_count) <= total_terms,
        dropped_terms(total_terms, worker_count) < worker_count,
{
    let w = window_size(total_terms, worker_count) as int;
    let covered = covered_terms(total_terms, worker_count);
    lemma_dropped_below_worker_count(total_terms, worker_count);
    assert forall|i: int| 0 <= i < ranges.len() implies (#[trigger] ranges[i]).end()
        <= total_terms by {
        lemma_window_bounds(total_terms, worker_count, i as nat);
    }
    assert forall|i: int, j: int, k: u64| 0 <= i < j < ranges.len() implies !(
    #[trigger] ranges[i].contains(k) && #[trigger] ranges[j].contains(k)) by {
        assert((i + 1) * w <= j * w) by (nonlinear_arith)
            requires
                i + 1 <= j,
                0 <= w,
        ;
    }
    assert forall|k: u64| k < covered implies #[trigger] holds_index(ranges, k) by {
        assert(w > 0) by (nonlinear_arith)
            requires
                k < worker_count * w,
                0 <= k,
                0 <= w,
        ;
        let i = k as int / w;
        vstd::arithmetic::div_mod::lemma_fundamental_div_mod(k as int, w);
        vstd::arithmetic::div_mod::lemma_mod_bound(k as int, w);
        vstd::arithmetic::div_mod::lemma_div_pos_is_pos(k as int, w);
        assert(i < worker_count) by (nonlinear_arith)
            requires
                w * i <= k,
                k < worker_count * w,
                0 < w,
        ;
        assert(i * w == w * i) by (nonlinear_arith);
        assert((i + 1) * w == w * i + w) by (nonlinear_arith);
        assert(ranges[i].contains(k));
    }
    assert forall|k: u64| #[trigger] holds_index(ranges, k) implies k < covered by {
        let i = choose|i: int| 0 <= i < ranges.len() && #[trigger] ranges[i].contains(k);
        lemma_window_bounds(total_terms, worker_count, i as nat);
    }
}

/// Divides the term indices `[0, total_terms)` among `worker_count` workers.
///
/// Each worker receives `total_terms / worker_count` consecutive indices; the
/// `total_terms % worker_count` indices that remain at the end belong to no
/// window. Without a worker there is nothing to divide among, and the call
/// fails with `InvalidPartition`.
pub fn partition(total_terms: u64, worker_count: usize) -> (r: Result<Vec<TermRange>, EngineError>)
    ensures
        r is Err <==> worker_count == 0,
        r matches Err(e) ==> e == EngineError::InvalidPartition,
        r matches Ok(ranges) ==> {
            &&& is_partition(ranges@, total_terms as nat, worker_count as nat)
            &&& within_total(ranges@, total_terms as nat)
            &&& contiguous(ranges@)
            &&& pairwise_disjoint(ranges@)
            &&& covers_exactly(ranges@, covered_terms(total_terms as nat, worker_count as nat))
            &&& dropped_terms(total_terms as nat, worker_count as nat) < worker_count
        },
{
    if worker_count == 0 {
        return Err(EngineError::InvalidPartition);
    }
    let window: u64 = total_terms / (worker_count as u64);
    let mut ranges: Vec<TermRange> = Vec::new();
    let mut i: usize = 0;
    while i < worker_count
        invariant
            0 < worker_count,
            i <= worker_count,
            window == window_size(total_terms as nat, worker_count as nat),
            ranges@.len() == i,
            forall|j: int|
                0 <= j < i ==> {
                    &&& (#[trigger] ranges@[j]).wf()
                    &&& ranges@[j].start() == j * window
                    &&& ranges@[j].end() == (j + 1) * window
                },
        decreases worker_count - i,
    {
        proof {
            lemma_window_bounds(total_terms as nat, worker_count as nat, i as nat);
        }
        let start: u64 = (i as u64) * window;
        let end: u64 = start + window;
        ranges.push(TermRange { start, end });
        i += 1;
    }
    proof {
        lemma_partition_coverage(ranges@, total_terms as nat, worker_count as nat);
    }
    Ok(ranges)
}

} // verus!
