//! Validation of the caller-supplied magnitude and the term count it stands for.

use crate::error::EngineError;
use vstd::prelude::*;

verus! {

/// Largest magnitude that is accepted.
pub const MAX_MAGNITUDE: u8 = 10;

/// Whether `val` lies in the accepted interval `(0, MAX_MAGNITUDE]`.
pub open spec fn magnitude_in_range(val: u8) -> bool {
    0 < val && val <= MAX_MAGNITUDE
}

/// Ten to the power `e`.
pub open spec fn pow10(e: nat) -> nat
    decreases e,
{
    if e == 0 {
        1
    } else {
        10 * pow10((e - 1) as nat)
    }
}

/// The number of series terms that a magnitude asks for: `10^(magnitude - 1)`.
pub open spec fn total_terms_for(magnitude: u8) -> nat
    recommends
        magnitude_in_range(magnitude),
{
    pow10((magnitude - 1) as nat)
}

/// Powers of ten rise strictly with the exponent.
pub proof fn lemma_pow10_increases(a: nat, b: nat)
    requires
        a < b,
    ensures
        0 < pow10(a) < pow10(b),
    decreases b,
{
    if a + 1 < b {
        lemma_pow10_increases(a, (b - 1) as nat);
    } else if a > 0 {
        lemma_pow10_increases((a - 1) as nat, a);
    }
}

/// A larger magnitude always asks for strictly more terms.
pub proof fn lemma_total_terms_increase(smaller: u8, larger: u8)
    requires
        magnitude_in_range(smaller),
        magnitude_in_range(larger),
        smaller < larger,
    ensures
        total_terms_for(smaller) < total_terms_for(larger),
{
    lemma_pow10_increases((smaller - 1) as nat, (larger - 1) as nat);
}

/// Every accepted magnitude asks for at least one term and for no more than
/// `10^9`, which fits the index type with room to spare.
pub proof fn lemma_total_terms_bounds(magnitude: u8)
    requires
        magnitude_in_range(magnitude),
    ensures
        1 <= total_terms_for(magnitude) <= 1_000_000_000,
{
    assert(pow10(9) == 1_000_000_000) by {
        reveal_with_fuel(pow10, 10);
    }
    if magnitude > 1 {
        lemma_pow10_increases(0, (magnitude - 1) as nat);
    }
    if magnitude < 10 {
        lemma_pow10_increases((magnitude - 1) as nat, 9);
    }
}

/// Accepts a magnitude in `(0, MAX_MAGNITUDE]` and rejects every other value
/// with a diagnostic that names the accepted range.
pub fn is_valid_magnitude(val: u8) -> (r: Result<(), String>)
    ensures
        r is Ok <==> magnitude_in_range(val),
        r matches Err(text) ==> text@ == "magnitude must be within range (0-10]."@,
{
    if val > 0 && val <= MAX_MAGNITUDE {
        Ok(())
    } else {
        Err(EngineError::InvalidMagnitude.message())
    }
}

/// A magnitude that has passed validation.
#[derive(Clone, Copy, Debug, PartialEq, Eq, Structural)]
pub struct Configuration {
    magnitude: u8,
}

impl Configuration {
    /// The magnitude lies in `(0, MAX_MAGNITUDE]`.
    #[verifier::type_invariant]
    pub open spec fn wf(self) -> bool {
        magnitude_in_range(self.magnitude())
    }

    /// The validated magnitude.
    pub closed spec fn spec_magnitude(&self) -> u8 {
        self.magnitude
    }

    /// The number of series terms that this configuration asks for.
    pub open spec fn spec_total_terms(&self) -> u64 {
        total_terms_for(self.magnitude()) as u64
    }

    /// Validates `magnitude`; fails with `InvalidMagnitude` when it is zero
    /// or exceeds `MAX_MAGNITUDE`.
    pub fn new(magnitude: u8) -> (r: Result<Configuration, EngineError>)
        ensures
            r is Ok <==> magnitude_in_range(magnitude),
            r matches Err(e) ==> e == EngineError::InvalidMagnitude,
            r matches Ok(config) ==> config.wf() && config.magnitude() == magnitude,
    {
        if magnitude > 0 && magnitude <= MAX_MAGNITUDE {
            Ok(Configuration { magnitude })
        } else {
            Err(EngineError::InvalidMagnitude)
        }
    }

    #[verifier::when_used_as_spec(spec_magnitude)]
    pub fn magnitude(&self) -> (m: u8)
        ensures
            m == self.magnitude(),
            magnitude_in_range(m),
    {
        proof {
            use_type_invariant(self);
        }
        self.magnitude
    }

    #[verifier::when_used_as_spec(spec_total_terms)]
    pub fn total_terms(&self) -> (n: u64)
        ensures
            n == self.total_terms(),
            n == total_terms_for(self.magnitude()),
            1 <= n <= 1_000_000_000,
    {
        proof {
            use_type_invariant(self);
            lemma_total_terms_bounds(self.magnitude);
        }
        let exponent: u8 = self.magnitude - 1;
        let mut n: u64 = 1;
        let mut i: u8 = 0;
        while i < exponent
            invariant
                i <= exponent <= 9,
                n == pow10(i as nat),
            decreases exponent - i,
        {
            proof {
                assert(pow10(9) == 1_000_000_000) by {
                    reveal_with_fuel(pow10, 10);
                }
                if i + 1 < 9 {
                    lemma_pow10_increases((i + 1) as nat, 9);
                }
            }
            n = n * 10;
            i += 1;
        }
        n
    }
}

} // verus!
