//! The accounting of an allocator that refuses a request that would take
//! the bytes in use past a limit.
//!
//! The library installs no allocator of its own: the formula of a large
//! network is built in whatever memory the process has. A program that
//! wants the cap installs an allocator that decides by `admits`.

use vstd::prelude::*;

verus! {

/// The count of the bytes in use, and the limit that it may not pass.
#[derive(Debug)]
pub struct LimitedAllocator {
    pub limit: usize,
    pub allocated: usize,
}

impl LimitedAllocator {
    /// An allocator with nothing in use.
    pub fn new(limit: usize) -> (r: Self)
        ensures
            r.limit == limit,
            r.allocated == 0,
    {
        LimitedAllocator { limit, allocated: 0 }
    }

    /// Whether a request of `size` bytes may be served when `in_use` bytes
    /// are in use: if the two together do not pass the limit.
    pub fn admits(&self, in_use: usize, size: usize) -> (r: bool)
        ensures
            r == (in_use + size <= self.limit),
    {
        size <= self.limit && in_use <= self.limit - size
    }

    /// Accounts for a request of `size` bytes, and says whether it may be
    /// served. A request that is served is added to the count; one that is
    /// refused leaves the count as it was.
    pub fn reserve(&mut self, size: usize) -> (granted: bool)
        ensures
            granted == (old(self).allocated + size <= old(self).limit),
            final(self).limit == old(self).limit,
            final(self).allocated == if granted {
                old(self).allocated + size
            } else {
                old(self).allocated as int
            },
    {
        let in_use = self.allocated;
        if self.admits(in_use, size) {
            self.allocated = in_use + size;
            true
        } else {
            false
        }
    }

    /// Accounts for the release of `size` bytes. The count wraps around as
    /// the counter of the machine does where more is released than is in
    /// use.
    pub fn release(&mut self, size: usize)
        ensures
            final(self).limit == old(self).limit,
            final(self).allocated == old(self).allocated.wrapping_sub(size),
    {
        self.allocated = self.allocated.wrapping_sub(size);
    }
}

} // verus!
