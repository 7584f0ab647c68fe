//! The terms `(-1)^k / (2k + 1)` of the series, held exactly as a sign and a denominator.

use vstd::prelude::*;

verus! {

/// The denominator `2k + 1` of the term with index `k`.
pub open spec fn term_denominator(k: nat) -> nat {
    2 * k + 1
}

/// Whether the term with index `k` is subtracted: the terms with odd index are.
pub open spec fn term_is_negative(k: nat) -> bool {
    k % 2 == 1
}

/// One term of the series: the value `+1 / denominator` or `-1 / denominator`.
#[derive(Clone, Copy, Debug, PartialEq, Eq, Structural)]
pub struct Term {
    /// Whether the term is subtracted from the sum.
    pub negative: bool,
    /// The odd number that divides one.
    pub denominator: u128,
}

impl Term {
    /// Whether this is the term with index `k`.
    pub open spec fn is_term(self, k: nat) -> bool {
        &&& self.negative == term_is_negative(k)
        &&& self.denominator == term_denominator(k)
    }

    /// The numerator of the term: `-1` when it is subtracted, `1` otherwise.
    pub fn sign(&self) -> (s: i8)
        ensures
            s == (if self.negative {
                -1i8
            } else {
                1i8
            }),
    {
        if self.negative {
            -1
        } else {
            1
        }
    }
}

/// The term with index `k`.
///
/// The denominator is computed in 128 bits, so that `2k + 1` is exact for
/// every 64-bit index.
pub fn term_at(k: u64) -> (t: Term)
    ensures
        t.is_term(k as nat),
        t.negative == (k % 2 == 1),
        t.denominator == 2 * k + 1,
{
    let wide: u128 = k as u128;
    Term { negative: k % 2 == 1, denominator: 2 * wide + 1 }
}

/// The sign alternates strictly with the parity of the index: the first term
/// is added, and each term has the opposite sign of the one before it.
pub proof fn lemma_sign_alternates(k: nat)
    ensures
        !term_is_negative(0),
        term_is_negative(k + 1) == !term_is_negative(k),
        term_is_negative(k) <==> k % 2 == 1,
{
}

/// Denominators are odd and grow by two from one term to the next, so the
/// magnitude of the terms falls strictly as the index rises.
pub proof fn lemma_denominator_grows(k: nat)
    ensures
        term_denominator(0) == 1,
        term_denominator(k) % 2 == 1,
        term_denominator(k + 1) == term_denominator(k) + 2,
{
}

/// A term is fixed by its index, and distinct indices give distinct terms.
pub proof fn lemma_term_determines_index(a: Term, b: Term, i: nat, j: nat)
    requires
        a.is_term(i),
        b.is_term(j),
    ensures
        a == b <==> i == j,
{
}

} // verus!
