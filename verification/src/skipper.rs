//! Passing over the first lines of a stream and letting the rest through.

use vstd::prelude::*;

verus! {

/// The lines of a stream still to be passed over.
#[derive(Clone, Copy, Debug, PartialEq, Eq, Structural)]
pub struct ForwardSkipper {
    pub remaining: usize,
}

impl ForwardSkipper {
    /// A skipper that passes over the first `skip_count` lines.
    pub fn new(skip_count: usize) -> (skipper: ForwardSkipper)
        ensures
            skipper.remaining == skip_count,
    {
        ForwardSkipper { remaining: skip_count }
    }

    /// Takes note of the next line of the stream and says whether it goes
    /// to the output: it does once nothing is left to pass over.
    pub fn passes(&mut self) -> (emit: bool)
        ensures
            emit == (old(self).remaining == 0),
            final(self).remaining == if old(self).remaining == 0 {
                0
            } else {
                old(self).remaining - 1
            },
    {
        if self.remaining == 0 {
            true
        } else {
            self.remaining = self.remaining - 1;
            false
        }
    }
}

} // verus!
