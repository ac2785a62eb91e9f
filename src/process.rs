use vstd::prelude::*;

verus! {

/// One slot of a fixed table of processes.
pub struct Proc;

impl Proc {
    /// An empty slot.
    pub fn new() -> (r: Proc)
        ensures
            r == Proc,
    {
        Proc
    }
}

} // verus!
