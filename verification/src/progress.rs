//! Progress counter: one shared monotonic counter per active transfer,
//! advanced by workers as bytes arrive and read by the reporter.
use vstd::prelude::*;

verus! {

/// The counter. Its view is the number of bytes accounted so far; within one
/// engine run it only grows.
pub struct ProgressCounter {
    bytes: u64,
}

impl View for ProgressCounter {
    type V = u64;

    closed spec fn view(&self) -> u64 {
        self.bytes
    }
}

impl ProgressCounter {
    /// A fresh run starts counting at zero.
    pub fn new() -> (r: Self)
        ensures
            r@ == 0,
    {
        ProgressCounter { bytes: 0 }
    }

    /// A worker accounts one arrived fragment. The count never decreases,
    /// and saturates rather than wraps if it would outgrow its cell.
    pub fn add(&mut self, n: u64) -> (r: u64)
        ensures
            final(self)@ == if old(self)@ + n <= u64::MAX {
                (old(self)@ + n) as u64
            } else {
                u64::MAX
            },
            final(self)@ >= old(self)@,
            r == final(self)@,
    {
        self.bytes = match self.bytes.checked_add(n) {
            Option::Some(x) => x,
            Option::None => u64::MAX,
        };
        self.bytes
    }

    /// What the reporter reads.
    pub fn current(&self) -> (r: u64)
        ensures
            r == self@,
    {
        self.bytes
    }
}

} // verus!
