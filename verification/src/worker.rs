//! The walk of one worker over its window: which term comes next, and when the
//! window is exhausted.

use crate::range::TermRange;
use crate::series::{lemma_value_of_term, lemma_window_sum_first, value_of, window_sum};
use crate::term::{term_at, Term};
use vstd::prelude::*;

verus! {

/// The progress of one worker through its window of term indices.
///
/// A worker starts at the first index of its window and takes the terms one
/// by one; the cursor owns no state but its position, so workers share nothing.
#[derive(Clone, Copy, Debug, PartialEq, Eq, Structural)]
pub struct TermCursor {
    next: u64,
    end: u64,
}

impl TermCursor {
    /// The position never passes the end of the window.
    #[verifier::type_invariant]
    pub open spec fn wf(self) -> bool {
        self.position() <= self.limit()
    }

    /// The index of the term that is handed out next.
    pub closed spec fn spec_position(&self) -> u64 {
        self.next
    }

    /// The index at which the walk ends.
    pub closed spec fn spec_limit(&self) -> u64 {
        self.end
    }

    /// The number of terms that are still to be handed out.
    pub open spec fn spec_remaining(&self) -> u64 {
        if self.limit() >= self.position() {
            (self.limit() - self.position()) as u64
        } else {
            0
        }
    }

    /// The indices that are still to be handed out, in the order in which
    /// they will be.
    pub open spec fn pending(&self) -> Seq<nat> {
        Seq::new(self.remaining() as nat, |i: int| (self.position() + i) as nat)
    }

    /// The exact sum of the terms that are still to be handed out.
    pub open spec fn pending_sum(&self) -> real {
        window_sum(self.position() as nat, self.limit() as nat)
    }

    /// A cursor at the start of `range`: every index of the window is pending.
    pub fn new(range: TermRange) -> (cursor: TermCursor)
        ensures
            cursor.wf(),
            cursor.position() == range.start(),
            cursor.limit() == range.end(),
            cursor.pending() == range.indices(),
    {
        let cursor = TermCursor { next: range.start(), end: range.end() };
        assert(cursor.pending() =~= range.indices());
        cursor
    }

    #[verifier::when_used_as_spec(spec_position)]
    pub fn position(&self) -> (k: u64)
        ensures
            k == self.position(),
    {
        self.next
    }

    #[verifier::when_used_as_spec(spec_limit)]
    pub fn limit(&self) -> (k: u64)
        ensures
            k == self.limit(),
    {
        self.end
    }

    #[verifier::when_used_as_spec(spec_remaining)]
    pub fn remaining(&self) -> (n: u64)
        ensures
            n == self.remaining(),
            n == self.pending().len(),
    {
        proof {
            use_type_invariant(self);
        }
        self.end - self.next
    }

    /// Hands out the next pending term and moves past it.
    ///
    /// Returns nothing, and changes nothing, once the window is exhausted; a
    /// cursor over an empty window is exhausted from the start.
    pub fn next_term(&mut self) -> (t: Option<Term>)
        ensures
            final(self).wf(),
            final(self).limit() == old(self).limit(),
            t is None <==> old(self).pending().len() == 0,
            t is None ==> *final(self) == *old(self) && old(self).pending_sum() == 0real,
            t matches Some(term) ==> {
                &&& term.is_term(old(self).pending()[0])
                &&& term.is_term(old(self).position() as nat)
                &&& final(self).position() == old(self).position() + 1
                &&& final(self).pending() == old(self).pending().drop_first()
                &&& old(self).pending_sum() == value_of(term) + final(self).pending_sum()
            },
    {
        proof {
            use_type_invariant(&*self);
        }
        if self.next < self.end {
            let term = term_at(self.next);
            proof {
                lemma_value_of_term(term, self.next as nat);
                lemma_window_sum_first(self.next as nat, self.end as nat);
            }
            self.next = self.next + 1;
            assert(final(self).pending() =~= old(self).pending().drop_first());
            Some(term)
        } else {
            None
        }
    }
}

} // verus!
