//! How the exact partial sums close in on the sum of the series.
//!
//! The laws here speak of a number that every two successive partial sums
//! enclose. The crate gives π no name: that π/4 is such a number is the
//! classical theorem on this series, and whoever holds a law against π
//! brings that theorem along.

use crate::config::{lemma_total_terms_increase, magnitude_in_range, total_terms_for};
use crate::range::{covered_terms, is_partition, window_size, TermRange};
use crate::series::{exact_estimate, lemma_partition_sum, term_value, window_sum};
use crate::term::{term_denominator, term_is_negative};
use vstd::prelude::*;

verus! {

/// The distance between two numbers.
pub open spec fn distance(a: real, b: real) -> real {
    if a < b {
        b - a
    } else {
        a - b
    }
}

/// The magnitude `1 / (2k + 1)` of the term with index `k`.
pub open spec fn term_magnitude(k: nat) -> real {
    1real / (term_denominator(k) as real)
}

/// Whether `limit` lies between the sum of the first `n` terms and the sum
/// of the first `n + 1` terms, bounds included.
pub open spec fn between_successive_sums(limit: real, n: nat) -> bool {
    if term_is_negative(n) {
        window_sum(0, n + 1) <= limit && limit <= window_sum(0, n)
    } else {
        window_sum(0, n) <= limit && limit <= window_sum(0, n + 1)
    }
}

/// Whether `limit` lies between every two successive partial sums of the
/// series.
pub open spec fn enclosed_by_partial_sums(limit: real) -> bool {
    forall|n: nat| #[trigger] between_successive_sums(limit, n)
}

/// How far the sum of the first `n` terms is from `limit`.
pub open spec fn error_after(limit: real, n: nat) -> real {
    distance(limit, window_sum(0, n))
}

/// Half the magnitude of term `n`, less the error after `n` terms.
spec fn slack(limit: real, n: nat) -> real {
    term_magnitude(n) / 2real - error_after(limit, n)
}

/// How much the magnitudes of three successive terms bend:
/// `(a(n) - 2 a(n + 1) + a(n + 2)) / 2`.
spec fn bend(n: nat) -> real {
    (term_magnitude(n) - 2real * term_magnitude(n + 1) + term_magnitude(n + 2)) / 2real
}

/// The product of the denominators of three successive terms.
spec fn denominator_product(n: nat) -> nat {
    term_denominator(n) * term_denominator(n + 1) * term_denominator(n + 2)
}

/// The errors before and after term `n` add up to the magnitude of that term.
proof fn lemma_errors_add_up(limit: real, n: nat)
    requires
        between_successive_sums(limit, n),
    ensures
        error_after(limit, n) + error_after(limit, n + 1) == term_magnitude(n),
        error_after(limit, n) >= 0real,
        error_after(limit, n + 1) >= 0real,
{
    assert(window_sum(0, n + 1) == window_sum(0, n) + term_value(n));
}

/// Two terms on, the slack has grown by the bend.
proof fn lemma_slack_step(limit: real, n: nat)
    requires
        between_successive_sums(limit, n),
        between_successive_sums(limit, n + 1),
    ensures
        slack(limit, n + 2) == slack(limit, n) + bend(n),
{
    lemma_errors_add_up(limit, n);
    lemma_errors_add_up(limit, n + 1);
}

/// The magnitudes bend upwards: the bend is `4` over the product of the
/// three denominators, and so positive.
proof fn lemma_bend_value(n: nat)
    ensures
        bend(n) > 0real,
        bend(n) * (denominator_product(n) as real) == 4real,
        denominator_product(n) >= 1,
{
    let x = term_denominator(n) as real;
    let a = 1real / x;
    let b = 1real / (x + 2real);
    let c = 1real / (x + 4real);
    let p = x * (x + 2real) * (x + 4real);
    assert(term_denominator(n + 1) as real == x + 2real);
    assert(term_denominator(n + 2) as real == x + 4real);
    assert(a * x == 1real && b * (x + 2real) == 1real && c * (x + 4real) == 1real)
        by (nonlinear_arith)
        requires
            x >= 1real,
            a == 1real / x,
            b == 1real / (x + 2real),
            c == 1real / (x + 4real),
    ;
    assert((a - 2real * b + c) * p == 8real && p >= 1real) by (nonlinear_arith)
        requires
            x >= 1real,
            a * x == 1real,
            b * (x + 2real) == 1real,
            c * (x + 4real) == 1real,
            p == x * (x + 2real) * (x + 4real),
    ;
    let q = denominator_product(n);
    assert(q as real == p && q >= 1) by (nonlinear_arith)
        requires
            q == term_denominator(n) * term_denominator(n + 1) * term_denominator(n + 2),
            x == term_denominator(n) as real,
            x + 2real == term_denominator(n + 1) as real,
            x + 4real == term_denominator(n + 2) as real,
            p == x * (x + 2real) * (x + 4real),
            term_denominator(n) >= 1,
            term_denominator(n + 1) >= 1,
            term_denominator(n + 2) >= 1,
    ;
    assert(bend(n) == (a - 2real * b + c) / 2real);
    assert(bend(n) * p == 4real && bend(n) > 0real) by (nonlinear_arith)
        requires
            bend(n) == (a - 2real * b + c) / 2real,
            (a - 2real * b + c) * p == 8real,
            p >= 1real,
    ;
}

/// From two terms on, the slack never falls below what it was plus the bend.
proof fn lemma_slack_grows(limit: real, n: nat, k: nat)
    requires
        enclosed_by_partial_sums(limit),
        k >= 1,
    ensures
        slack(limit, n + 2 * k) >= slack(limit, n) + bend(n),
    decreases k,
{
    let m = (n + 2 * (k - 1)) as nat;
    assert(between_successive_sums(limit, m));
    assert(between_successive_sums(limit, m + 1));
    lemma_slack_step(limit, m);
    if k > 1 {
        lemma_slack_grows(limit, n, (k - 1) as nat);
        lemma_bend_value(m);
    }
}

/// The error after `n` terms is more than half the magnitude of term `n`.
///
/// Were it not, the slack would be at least the bend from two terms on for
/// good, while it can never exceed half the magnitude of a term, and those
/// magnitudes fall below every positive number.
proof fn lemma_error_above_half_term(limit: real, n: nat)
    requires
        enclosed_by_partial_sums(limit),
    ensures
        error_after(limit, n) > term_magnitude(n) / 2real,
{
    if slack(limit, n) >= 0real {
        let k = denominator_product(n);
        let far = n + 2 * k;
        lemma_bend_value(n);
        lemma_slack_grows(limit, n, k);
        assert(between_successive_sums(limit, far));
        lemma_errors_add_up(limit, far);
        let p = k as real;
        let y = term_denominator(far) as real;
        assert(y >= 4real * p);
        assert(term_magnitude(far) / 2real < bend(n)) by (nonlinear_arith)
            requires
                term_magnitude(far) == 1real / y,
                bend(n) * p == 4real,
                p >= 1real,
                y >= 4real * p,
        ;
    }
}

/// Each further term brings the partial sum strictly closer to a number that
/// all partial sums enclose.
pub proof fn lemma_next_term_closer(limit: real, n: nat)
    requires
        enclosed_by_partial_sums(limit),
    ensures
        error_after(limit, n + 1) < error_after(limit, n),
{
    assert(between_successive_sums(limit, n));
    lemma_errors_add_up(limit, n);
    lemma_error_above_half_term(limit, n);
}

/// More terms give a strictly smaller error: of two partial sums, the one
/// of more terms is strictly closer to a number that all partial sums enclose.
pub proof fn lemma_more_terms_closer(limit: real, fewer: nat, more: nat)
    requires
        enclosed_by_partial_sums(limit),
        fewer < more,
    ensures
        error_after(limit, more) < error_after(limit, fewer),
    decreases more,
{
    lemma_next_term_closer(limit, (more - 1) as nat);
    if fewer + 1 < more {
        lemma_more_terms_closer(limit, fewer, (more - 1) as nat);
    }
}

/// A larger magnitude gives a strictly closer estimate, for the same number
/// of workers.
///
/// `quarter` is a number that all partial sums enclose, and the estimates are
/// held against four times that number. The windows of the two magnitudes
/// must not hold the same number of terms together, as they do where the
/// workers outnumber the terms of both: the two estimates are then the same.
pub proof fn lemma_larger_magnitude_closer(
    quarter: real,
    smaller: u8,
    larger: u8,
    worker_count: nat,
    fewer: Seq<TermRange>,
    more: Seq<TermRange>,
)
    requires
        enclosed_by_partial_sums(quarter),
        magnitude_in_range(smaller),
        magnitude_in_range(larger),
        smaller < larger,
        worker_count > 0,
        is_partition(fewer, total_terms_for(smaller), worker_count),
        is_partition(more, total_terms_for(larger), worker_count),
        covered_terms(total_terms_for(smaller), worker_count) != covered_terms(
            total_terms_for(larger),
            worker_count,
        ),
    ensures
        distance(4real * quarter, exact_estimate(more)) < distance(
            4real * quarter,
            exact_estimate(fewer),
        ),
{
    let few = total_terms_for(smaller);
    let many = total_terms_for(larger);
    lemma_total_terms_increase(smaller, larger);
    vstd::arithmetic::div_mod::lemma_div_is_ordered(few as int, many as int, worker_count as int);
    vstd::arithmetic::mul::lemma_mul_inequality(
        window_size(few, worker_count) as int,
        window_size(many, worker_count) as int,
        worker_count as int,
    );
    vstd::arithmetic::mul::lemma_mul_is_commutative(
        window_size(few, worker_count) as int,
        worker_count as int,
    );
    vstd::arithmetic::mul::lemma_mul_is_commutative(
        window_size(many, worker_count) as int,
        worker_count as int,
    );
    lemma_more_terms_closer(
        quarter,
        covered_terms(few, worker_count),
        covered_terms(many, worker_count),
    );
    lemma_partition_sum(fewer, few, worker_count);
    lemma_partition_sum(more, many, worker_count);
}

} // verus!
