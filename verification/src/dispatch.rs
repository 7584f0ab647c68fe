//! What the dispatcher decides before and after the workers run: how the
//! terms are shared out, and whether every worker has reported.

use crate::config::{magnitude_in_range, total_terms_for, Configuration};
use crate::error::EngineError;
use crate::range::{
    contiguous, covered_terms, covers_exactly, dropped_terms, is_partition,
    lemma_partition_coverage, pairwise_disjoint, partition, window_size, within_total, TermRange,
};
use vstd::prelude::*;

verus! {

/// Asks `num_cpus::get` for the number of logical processors that this
/// process may use.
///
/// The answer depends on the machine and on the moment of the call, so the
/// contract claims nothing of it, not even that it is positive: callers
/// decide for every possible count.
#[verifier::external_body]
fn available_workers() -> (count: usize) {
    num_cpus::get()
}

/// The work of one computation, shared out: the number of terms asked for and
/// one window of term indices for each worker.
#[derive(Debug)]
pub struct Plan {
    total_terms: u64,
    ranges: Vec<TermRange>,
}

impl View for Plan {
    type V = Seq<TermRange>;

    /// The windows, in the order of the workers.
    closed spec fn view(&self) -> Seq<TermRange> {
        self.ranges@
    }
}

impl Plan {
    /// There is at least one worker, and the windows are the partition of
    /// `[0, total_terms)` among the workers.
    #[verifier::type_invariant]
    pub open spec fn wf(self) -> bool {
        &&& self@.len() > 0
        &&& self@.len() <= usize::MAX
        &&& is_partition(self@, self.total_terms() as nat, self@.len())
    }

    /// The number of terms that were asked for.
    pub closed spec fn spec_total_terms(&self) -> u64 {
        self.total_terms
    }

    /// The number of workers, which is the number of windows.
    pub open spec fn spec_worker_count(&self) -> usize {
        self@.len() as usize
    }

    /// The number of terms that the windows hold together.
    pub open spec fn spec_terms_covered(&self) -> u64 {
        covered_terms(self.total_terms() as nat, self@.len()) as u64
    }

    /// Whether `r` is what planning gives for `magnitude` and `worker_count`:
    /// `InvalidMagnitude` for a magnitude out of range, else
    /// `InvalidPartition` without a worker, else the partition of
    /// `10^(magnitude - 1)` terms among the workers.
    pub open spec fn is_outcome(r: Result<Plan, EngineError>, magnitude: u8, worker_count: usize)
        -> bool {
        if !magnitude_in_range(magnitude) {
            r == Err::<Plan, EngineError>(EngineError::InvalidMagnitude)
        } else if worker_count == 0 {
            r == Err::<Plan, EngineError>(EngineError::InvalidPartition)
        } else {
            &&& r matches Ok(plan)
            &&& plan.wf()
            &&& plan.total_terms() == total_terms_for(magnitude)
            &&& plan.worker_count() == worker_count
            &&& is_partition(plan@, total_terms_for(magnitude), worker_count as nat)
        }
    }

    /// Shares the terms of a validated configuration out among
    /// `worker_count` workers; fails with `InvalidPartition` without a worker.
    pub fn for_configuration(config: Configuration, worker_count: usize) -> (r: Result<
        Plan,
        EngineError,
    >)
        ensures
            Plan::is_outcome(r, config.magnitude(), worker_count),
    {
        proof {
            use_type_invariant(&config);
        }
        let total_terms: u64 = config.total_terms();
        match partition(total_terms, worker_count) {
            Ok(ranges) => Ok(Plan { total_terms, ranges }),
            Err(e) => Err(e),
        }
    }

    /// Validates `magnitude` and shares `10^(magnitude - 1)` terms out among
    /// `worker_count` workers.
    ///
    /// The magnitude is judged first: nothing is computed for one out of range.
    pub fn new(magnitude: u8, worker_count: usize) -> (r: Result<Plan, EngineError>)
        ensures
            Plan::is_outcome(r, magnitude, worker_count),
    {
        match Configuration::new(magnitude) {
            Ok(config) => Plan::for_configuration(config, worker_count),
            Err(e) => Err(e),
        }
    }

    /// Validates `magnitude` and shares the terms out among as many workers
    /// as the machine offers processors.
    ///
    /// A magnitude out of range fails before the machine is asked. Every
    /// accepted magnitude gets its plan: should the machine report no
    /// processor at all, a single worker takes the whole work. The plan is
    /// the one that `new` gives for the number of workers it holds.
    pub fn for_available_workers(magnitude: u8) -> (r: Result<Plan, EngineError>)
        ensures
            r is Ok <==> magnitude_in_range(magnitude),
            r matches Err(e) ==> e == EngineError::InvalidMagnitude,
            exists|worker_count: usize|
                worker_count > 0 && #[trigger] Plan::is_outcome(r, magnitude, worker_count),
    {
        match Configuration::new(magnitude) {
            Ok(config) => {
                let reported: usize = available_workers();
                let worker_count: usize = if reported == 0 {
                    1
                } else {
                    reported
                };
                let r = Plan::for_configuration(config, worker_count);
                assert(Plan::is_outcome(r, magnitude, worker_count));
                r
            },
            Err(e) => {
                let r = Err(e);
                assert(Plan::is_outcome(r, magnitude, 1));
                r
            },
        }
    }

    #[verifier::when_used_as_spec(spec_total_terms)]
    pub fn total_terms(&self) -> (n: u64)
        ensures
            n == self.total_terms(),
    {
        self.total_terms
    }

    #[verifier::when_used_as_spec(spec_worker_count)]
    pub fn worker_count(&self) -> (n: usize)
        ensures
            n == self.worker_count(),
            n == self@.len(),
            n > 0,
    {
        proof {
            use_type_invariant(self);
        }
        self.ranges.len()
    }

    /// The windows, in the order of the workers.
    pub fn ranges(&self) -> (ranges: &Vec<TermRange>)
        ensures
            ranges@ == self@,
            self.wf(),
            within_total(self@, self.total_terms() as nat),
            contiguous(self@),
            pairwise_disjoint(self@),
            covers_exactly(self@, self.terms_covered() as nat),
    {
        proof {
            use_type_invariant(self);
            lemma_partition_coverage(self@, self.total_terms as nat, self@.len());
        }
        &self.ranges
    }

    /// The number of terms that the workers process together: the number
    /// asked for, less the remainder that no window holds.
    #[verifier::when_used_as_spec(spec_terms_covered)]
    pub fn terms_covered(&self) -> (n: u64)
        ensures
            n == self.terms_covered(),
            n == covered_terms(self.total_terms() as nat, self@.len()),
            n <= self.total_terms(),
            self.total_terms() - n == dropped_terms(self.total_terms() as nat, self@.len()),
            self.total_terms() - n < self@.len(),
    {
        proof {
            use_type_invariant(self);
            lemma_partition_coverage(self@, self.total_terms as nat, self@.len());
        }
        let last: usize = self.ranges.len() - 1;
        let n: u64 = self.ranges[last].end();
        proof {
            let w = window_size(self.total_terms as nat, self@.len()) as int;
            let count = self@.len() as int;
            assert((last + 1) * w == count * w);
        }
        n
    }
}

/// Whether every worker has handed in a result.
pub open spec fn all_reported<T>(outcomes: Seq<Option<T>>) -> bool {
    forall|i: int| 0 <= i < outcomes.len() ==> (#[trigger] outcomes[i]) is Some
}

/// Whether `worker` is the first worker without a result.
pub open spec fn is_first_failure<T>(outcomes: Seq<Option<T>>, worker: int) -> bool {
    &&& 0 <= worker < outcomes.len()
    &&& outcomes[worker] is None
    &&& forall|j: int| 0 <= j < worker ==> (#[trigger] outcomes[j]) is Some
}

/// Gathers what the workers handed in, once all of them have ended.
///
/// `outcomes[i]` is the partial result of worker `i`, or nothing where that
/// worker ended without one. The results come back in the order of the
/// workers. A missing result is never taken for zero: the first worker
/// without one fails the whole computation with `WorkerFailure`.
pub fn collect_results<T>(outcomes: Vec<Option<T>>) -> (r: Result<Vec<T>, EngineError>)
    ensures
        r is Ok <==> all_reported(outcomes@),
        r matches Ok(values) ==> {
            &&& values@.len() == outcomes@.len()
            &&& forall|i: int| 0 <= i < values@.len() ==> outcomes@[i] == Some(#[trigger] values@[i])
        },
        r matches Err(e) ==> {
            &&& e matches EngineError::WorkerFailure { worker }
            &&& is_first_failure(outcomes@, worker as int)
        },
{
    let mut i: usize = 0;
    while i < outcomes.len()
        invariant
            i <= outcomes@.len(),
            forall|j: int| 0 <= j < i ==> (#[trigger] outcomes@[j]) is Some,
        decreases outcomes@.len() - i,
    {
        if outcomes[i].is_none() {
            return Err(EngineError::WorkerFailure { worker: i });
        }
        i += 1;
    }
    let ghost all = outcomes@;
    let mut values: Vec<T> = Vec::new();
    for outcome in it: outcomes
        invariant
            it.seq() == all,
            all_reported(all),
            values@.len() == it.index(),
            forall|j: int| 0 <= j < values@.len() ==> all[j] == Some(#[trigger] values@[j]),
    {
        match outcome {
            Some(value) => {
                values.push(value);
            },
            None => {},
        }
    }
    Ok(values)
}

} // verus!
