//! The allocator of host-physical pages.

use vstd::prelude::*;

verus! {

/// Bytes in a page.
pub const PAGE_SIZE: u64 = 4096;

/// Hands out page-aligned ranges of host-physical memory, one after the
/// other, and never takes one back.
#[derive(Debug)]
pub struct PageAllocator {
    next: u64,
    end: u64,
}

/// `len` rounded up to whole pages.
pub open spec fn round_up_to_pages(len: nat) -> nat {
    ((len + 4095) / 4096 * 4096) as nat
}

impl PageAllocator {
    /// The address of the next range to hand out.
    pub closed spec fn spec_next(&self) -> u64 {
        self.next
    }

    /// The address at which the allocator's memory ends.
    pub closed spec fn spec_end(&self) -> u64 {
        self.end
    }

    /// Both bounds lie on page boundaries and the first is not above the second.
    pub open spec fn wf(&self) -> bool {
        &&& self.spec_next() % 4096 == 0
        &&& self.spec_end() % 4096 == 0
        &&& self.spec_next() <= self.spec_end()
    }

    /// Bytes that are still free.
    pub open spec fn spec_free(&self) -> nat {
        (self.spec_end() - self.spec_next()) as nat
    }

    /// An allocator over the whole pages that lie in `[start, end)`.
    pub fn new(start: u64, end: u64) -> (alloc: Self)
        ensures
            alloc.wf(),
            alloc.spec_end() == end / 4096 * 4096,
            start <= end / 4096 * 4096 ==> alloc.spec_next() == round_up_to_pages(start as nat),
            start > end / 4096 * 4096 ==> alloc.spec_next() == alloc.spec_end(),
    {
        let end = end / PAGE_SIZE * PAGE_SIZE;
        if start > end {
            return Self { next: end, end };
        }
        let next = (start + (PAGE_SIZE - 1)) / PAGE_SIZE * PAGE_SIZE;
        Self { next, end }
    }

    /// The address of the next range to hand out.
    pub fn next_addr(&self) -> (addr: u64)
        ensures
            addr == self.spec_next(),
    {
        self.next
    }

    /// The address at which the allocator's memory ends.
    pub fn end_addr(&self) -> (addr: u64)
        ensures
            addr == self.spec_end(),
    {
        self.end
    }

    /// Bytes that are still free.
    pub fn free_bytes(&self) -> (free: u64)
        requires
            self.wf(),
        ensures
            free == self.spec_free(),
    {
        self.end - self.next
    }

    /// Hands out `len` bytes, rounded up to whole pages, or nothing if that
    /// much is not free.
    pub fn alloc_pages(&mut self, len: usize) -> (r: Option<u64>)
        requires
            old(self).wf(),
        ensures
            final(self).wf(),
            final(self).spec_end() == old(self).spec_end(),
            round_up_to_pages(len as nat) <= old(self).spec_free() ==> r == Some(
                old(self).spec_next(),
            ) && final(self).spec_next() == old(self).spec_next() + round_up_to_pages(len as nat),
            round_up_to_pages(len as nat) > old(self).spec_free() ==> r is None
                && final(self).spec_next() == old(self).spec_next(),
    {
        let free = self.end - self.next;
        let len = len as u64;
        if len > free {
            return None;
        }
        let size = (len + (PAGE_SIZE - 1)) / PAGE_SIZE * PAGE_SIZE;
        if size > free {
            return None;
        }
        let addr = self.next;
        self.next = self.next + size;
        Some(addr)
    }
}

} // verus!
