use vstd::prelude::*;

verus! {

/// A counter that never goes below zero.
pub struct Increment {
    count: u32,
}

impl Increment {
    /// The current count.
    pub closed spec fn value(self) -> u32 {
        self.count
    }

    /// A counter at zero.
    pub fn new() -> (r: Increment)
        ensures
            r.value() == 0,
    {
        Increment { count: 0 }
    }

    /// A counter at `count`, as loaded from storage.
    pub fn with_count(count: u32) -> (r: Increment)
        ensures
            r.value() == count,
    {
        Increment { count }
    }

    /// Adds one to the count and returns the new count.
    pub fn increment(&mut self) -> (r: u32)
        requires
            old(self).value() < u32::MAX,
        ensures
            final(self).value() == old(self).value() + 1,
            r == final(self).value(),
    {
        self.count = self.count + 1;
        self.count
    }

    /// Takes one from the count unless it is zero, and returns the new count.
    pub fn decrement(&mut self) -> (r: u32)
        ensures
            final(self).value() == if old(self).value() > 0 {
                old(self).value() - 1
            } else {
                0
            },
            r == final(self).value(),
    {
        if self.count > 0 {
            self.count = self.count - 1;
        }
        self.count
    }

    /// Sets the count back to zero.
    pub fn reset(&mut self)
        ensures
            final(self).value() == 0,
    {
        self.count = 0;
    }

    /// The current count.
    pub fn get_count(&self) -> (r: u32)
        ensures
            r == self.value(),
    {
        self.count
    }
}

} // verus!
