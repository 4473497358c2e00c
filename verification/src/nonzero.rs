//! Machine words that are not zero.

use vstd::prelude::*;

verus! {

/// A `usize` that is known not to be zero.
#[derive(Debug, Clone, Copy, PartialEq, Eq)]
pub struct NonZeroUsize {
    value: usize,
}

impl NonZeroUsize {
    #[verifier::type_invariant]
    spec fn positive(self) -> bool {
        self.value > 0
    }

    /// The number itself.
    pub closed spec fn view(&self) -> usize {
        self.value
    }

    /// Wraps `value`, or returns `None` for zero.
    pub fn new(value: usize) -> (wrapped: Option<NonZeroUsize>)
        ensures
            wrapped is Some <==> value > 0,
            wrapped matches Some(n) ==> n@ == value,
    {
        if value > 0 {
            Some(NonZeroUsize { value })
        } else {
            None
        }
    }

    /// The number itself, which is at least one.
    pub fn get(&self) -> (value: usize)
        ensures
            value == self@,
            value > 0,
    {
        proof {
            use_type_invariant(self);
        }
        self.value
    }
}

} // verus!
