//! Payload words: machine words that are never zero, since zero marks an empty cell.

use vstd::prelude::*;

verus! {

/// A non-zero machine word, the payload that the queue carries.
#[derive(Clone, Copy, Debug, PartialEq, Eq, Structural)]
pub struct NonZeroWord(usize);

impl View for NonZeroWord {
    type V = usize;

    closed spec fn view(&self) -> usize {
        self.0
    }
}

impl NonZeroWord {
    #[verifier::type_invariant]
    spec fn nonzero(&self) -> bool {
        self.0 != 0
    }

    /// `Some` word holding `w`, or `None` when `w` is zero.
    pub fn new(w: usize) -> (r: Option<NonZeroWord>)
        ensures
            r is Some <==> w != 0,
            r matches Some(n) ==> n@ == w,
    {
        if w == 0 {
            None
        } else {
            Some(NonZeroWord(w))
        }
    }

    /// The word held; never zero.
    pub fn get(self) -> (r: usize)
        ensures
            r == self@,
            r != 0,
    {
        proof {
            use_type_invariant(&self);
        }
        self.0
    }
}

} // verus!
