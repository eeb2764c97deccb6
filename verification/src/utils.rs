//! Helpers of the evolution loop.
use vstd::prelude::*;

verus! {

/// Hands out consecutive identifiers, starting from `id`.
pub struct IdGenerator {
    pub id: u32,
}

impl IdGenerator {
    /// The next identifier; the generator moves on by one.
    pub fn next(&mut self) -> (r: Option<u32>)
        requires
            old(self).id < u32::MAX,
        ensures
            r == Some(old(self).id),
            final(self).id == old(self).id + 1,
    {
        let id = self.id;
        self.id = self.id + 1;
        Some(id)
    }
}

} // verus!
