//! The accounting of a memory-usage tracker: how much is allocated, the
//! most that ever was, and how often memory was granted and returned.

use vstd::prelude::*;

verus! {

/// Why the tracker could not be set up.
#[derive(Debug)]
pub enum MemoryError {
    /// The tracker could not be initialised.
    Unavailable,
}

/// Running totals of the memory in use.
pub struct MemoryManager {
    total_allocated: usize,
    peak_usage: usize,
    allocation_count: usize,
    deallocation_count: usize,
}

/// What a tracker has counted.
pub struct MemoryUsage {
    pub total_allocated: int,
    pub peak_usage: int,
    pub allocation_count: int,
    pub deallocation_count: int,
}

impl View for MemoryManager {
    type V = MemoryUsage;

    closed spec fn view(&self) -> MemoryUsage {
        MemoryUsage {
            total_allocated: self.total_allocated as int,
            peak_usage: self.peak_usage as int,
            allocation_count: self.allocation_count as int,
            deallocation_count: self.deallocation_count as int,
        }
    }
}

impl MemoryManager {
    /// The peak is never below what is currently allocated.
    pub open spec fn wf(&self) -> bool {
        self@.total_allocated <= self@.peak_usage
    }

    /// A tracker that has counted nothing yet.
    pub fn new() -> (r: Result<Self, MemoryError>)
        ensures
            r matches Ok(m) && m.wf() && m@ == (MemoryUsage {
                total_allocated: 0,
                peak_usage: 0,
                allocation_count: 0,
                deallocation_count: 0,
            }),
    {
        Ok(
            MemoryManager {
                total_allocated: 0,
                peak_usage: 0,
                allocation_count: 0,
                deallocation_count: 0,
            },
        )
    }

    /// Whether a request for `size` bytes can still be counted.
    pub fn can_allocate(&self, size: usize) -> (ok: bool)
        ensures
            ok == (self@.total_allocated + size <= usize::MAX && self@.allocation_count
                < usize::MAX),
    {
        self.allocation_count < usize::MAX && size <= usize::MAX - self.total_allocated
    }

    /// Records a request for `size` bytes. Where the request was `granted`,
    /// the bytes are added to the total, the request is counted, and the
    /// peak follows the total; where it was not, nothing changes.
    pub fn allocate(&mut self, size: usize, granted: bool)
        requires
            old(self).wf(),
            granted ==> old(self)@.total_allocated + size <= usize::MAX,
            granted ==> old(self)@.allocation_count < usize::MAX,
        ensures
            final(self).wf(),
            !granted ==> final(self)@ == old(self)@,
            granted ==> final(self)@ == (MemoryUsage {
                total_allocated: old(self)@.total_allocated + size,
                peak_usage: if old(self)@.total_allocated + size > old(self)@.peak_usage {
                    old(self)@.total_allocated + size
                } else {
                    old(self)@.peak_usage
                },
                allocation_count: old(self)@.allocation_count + 1,
                deallocation_count: old(self)@.deallocation_count,
            }),
    {
        if granted {
            self.total_allocated = self.total_allocated + size;
            self.allocation_count = self.allocation_count + 1;
            if self.total_allocated > self.peak_usage {
                self.peak_usage = self.total_allocated;
            }
        }
    }

    /// Records the return of `size` bytes. Where a block was `present`, the
    /// total drops by `size`, but not below zero, and the return is counted;
    /// where none was, nothing changes.
    pub fn deallocate(&mut self, size: usize, present: bool)
        requires
            old(self).wf(),
            present ==> old(self)@.deallocation_count < usize::MAX,
        ensures
            final(self).wf(),
            !present ==> final(self)@ == old(self)@,
            present ==> final(self)@ == (MemoryUsage {
                total_allocated: if old(self)@.total_allocated >= size {
                    old(self)@.total_allocated - size
                } else {
                    0
                },
                peak_usage: old(self)@.peak_usage,
                allocation_count: old(self)@.allocation_count,
                deallocation_count: old(self)@.deallocation_count + 1,
            }),
    {
        if present {
            self.total_allocated = if self.total_allocated >= size {
                self.total_allocated - size
            } else {
                0
            };
            self.deallocation_count = self.deallocation_count + 1;
        }
    }

    /// The bytes currently allocated.
    pub fn total_allocated(&self) -> (n: usize)
        ensures
            n == self@.total_allocated,
    {
        self.total_allocated
    }

    /// The most bytes that were ever allocated at one time.
    pub fn peak_usage(&self) -> (n: usize)
        ensures
            n == self@.peak_usage,
    {
        self.peak_usage
    }

    /// The number of requests granted.
    pub fn allocation_count(&self) -> (n: usize)
        ensures
            n == self@.allocation_count,
    {
        self.allocation_count
    }

    /// The number of blocks returned.
    pub fn deallocation_count(&self) -> (n: usize)
        ensures
            n == self@.deallocation_count,
    {
        self.deallocation_count
    }

    /// The bytes that were once in use and no longer are, out of the peak:
    /// the two numbers whose quotient is the fragmentation ratio. Both are
    /// zero while nothing is allocated.
    pub fn fragmentation(&self) -> (r: (usize, usize))
        requires
            self.wf(),
        ensures
            self@.total_allocated == 0 ==> r == (0usize, 0usize),
            self@.total_allocated > 0 ==> r.0 == self@.peak_usage - self@.total_allocated && r.1
                == self@.peak_usage,
    {
        if self.total_allocated > 0 {
            (self.peak_usage - self.total_allocated, self.peak_usage)
        } else {
            (0, 0)
        }
    }
}

} // verus!
