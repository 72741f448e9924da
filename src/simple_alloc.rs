use crate::allocator::{OwnedAllocator, ShareableAllocator};
use crate::util::PowerOfTwo;
use vstd::arithmetic::power2::is_pow2;
use vstd::prelude::*;

verus! {

/// One answer in the script of a `MockAlloc`.
#[derive(Clone, Copy, PartialEq, Eq, Structural, Debug)]
pub enum MockAllocResult {
    Allocate(usize),
    Reallocate(usize),
    ReallocateInplace(usize),
    Deallocate,
}

/// An allocator that answers from a script, one entry per call, in order.
/// A call that the next entry is not for returns null (or, for
/// `reallocate_inplace`, the old size) and leaves the script as it is.
pub struct MockAlloc {
    schedule: Vec<MockAllocResult>,
}

impl MockAlloc {
    /// The entries not yet used.
    pub closed spec fn script(self) -> Seq<MockAllocResult> {
        self.schedule@
    }

    pub fn new(schedule: Vec<MockAllocResult>) -> (r: Self)
        ensures
            r.script() == schedule@,
    {
        MockAlloc { schedule }
    }

    /// The number of entries not yet used.
    pub fn remaining(&self) -> (r: usize)
        ensures
            r == self.script().len(),
    {
        self.schedule.len()
    }
}

impl OwnedAllocator for MockAlloc {
    open spec fn usable_spec(&self, size: usize, align: PowerOfTwo) -> usize {
        size
    }

    fn usable_size(&self, size: usize, align: PowerOfTwo) -> (r: usize) {
        let _ = align;
        size
    }

    fn deallocate(&mut self, ptr: usize, old_size: usize, align: PowerOfTwo)
        ensures
            old(self).script().len() > 0 && old(self).script()[0] == MockAllocResult::Deallocate
                ==> final(self).script() == old(self).script().drop_first(),
            !(old(self).script().len() > 0 && old(self).script()[0] == MockAllocResult::Deallocate)
                ==> final(self).script() == old(self).script(),
    {
        let _ = (ptr, old_size, align);
        if self.schedule.len() > 0 && self.schedule[0] == MockAllocResult::Deallocate {
            self.schedule.remove(0);
        }
    }

    fn allocate(&mut self, size: usize, align: PowerOfTwo) -> (r: usize)
        ensures
            match old(self).script().first() {
                MockAllocResult::Allocate(p) => old(self).script().len() > 0 ==> r == p && final(self).script() == old(self).script().drop_first(),
                _ => true,
            },
            old(self).script().len() == 0 || !(old(self).script()[0] is Allocate) ==> r == 0
                && final(self).script() == old(self).script(),
    {
        let _ = (size, align);
        if self.schedule.len() > 0 {
            match self.schedule[0] {
                MockAllocResult::Allocate(p) => {
                    self.schedule.remove(0);
                    return p;
                },
                _ => {},
            }
        }
        0
    }

    fn reallocate(&mut self, ptr: usize, old_size: usize, size: usize, align: PowerOfTwo) -> (r: usize)
        ensures
            match old(self).script().first() {
                MockAllocResult::Reallocate(p) => old(self).script().len() > 0 ==> r == p && final(self).script() == old(self).script().drop_first(),
                _ => true,
            },
            old(self).script().len() == 0 || !(old(self).script()[0] is Reallocate) ==> r == 0
                && final(self).script() == old(self).script(),
    {
        let _ = (ptr, old_size, size, align);
        if self.schedule.len() > 0 {
            match self.schedule[0] {
                MockAllocResult::Reallocate(p) => {
                    self.schedule.remove(0);
                    return p;
                },
                _ => {},
            }
        }
        0
    }

    fn reallocate_inplace(&mut self, ptr: usize, old_size: usize, size: usize, align: PowerOfTwo) -> (r: usize)
        ensures
            match old(self).script().first() {
                MockAllocResult::ReallocateInplace(n) => old(self).script().len() > 0 ==> r == n
                    && final(self).script() == old(self).script().drop_first(),
                _ => true,
            },
            old(self).script().len() == 0 || !(old(self).script()[0] is ReallocateInplace) ==> r
                == old_size && final(self).script() == old(self).script(),
    {
        let _ = (ptr, size, align);
        if self.schedule.len() > 0 {
            match self.schedule[0] {
                MockAllocResult::ReallocateInplace(n) => {
                    self.schedule.remove(0);
                    return n;
                },
                _ => {},
            }
        }
        old_size
    }
}

impl ShareableAllocator for MockAlloc {

}

/// Carves regions out of one block of `size` bytes, taken from `A` up
/// front, one after another; nothing is given back before the whole block.
pub struct BlockAlloc<A: OwnedAllocator> {
    allocator: A,
    block: usize,
    next: usize,
    size: usize,
}

impl<A: OwnedAllocator> BlockAlloc<A> {
    pub closed spec fn wf(self) -> bool {
        &&& self.block <= self.next
        &&& self.next - self.block <= self.size
        &&& self.block + self.size <= usize::MAX
    }

    /// The first free byte, or 0 when the block could not be had.
    pub closed spec fn cursor(self) -> usize {
        self.next
    }

    /// One past the last byte of the block.
    pub closed spec fn limit(self) -> int {
        self.block + self.size
    }

    pub fn new(allocator: A, size: usize) -> (r: Self)
        requires
            size > 0,
        ensures
            r.wf(),
    {
        let mut allocator = allocator;
        proof {
            reveal(is_pow2);
        }
        let align = PowerOfTwo::new(1);
        let block = allocator.allocate(size, align);
        if block == 0 || size > usize::MAX - block {
            if block != 0 {
                allocator.deallocate(block, size, align);
            }
            return BlockAlloc { allocator, block: 0, next: 0, size: 0 };
        }
        BlockAlloc { allocator, block, next: block, size }
    }

    /// Gives the block back and returns the allocator below.
    pub fn release(self) -> (r: A) {
        let mut allocator = self.allocator;
        if self.block != 0 {
            proof {
                reveal(is_pow2);
            }
            allocator.deallocate(self.block, self.size, PowerOfTwo::new(1));
        }
        allocator
    }
}

impl<A: OwnedAllocator> OwnedAllocator for BlockAlloc<A> {
    open spec fn usable_spec(&self, size: usize, align: PowerOfTwo) -> usize {
        size
    }

    fn usable_size(&self, size: usize, align: PowerOfTwo) -> (r: usize) {
        let _ = align;
        size
    }

    fn deallocate(&mut self, ptr: usize, old_size: usize, align: PowerOfTwo)
        ensures
            *final(self) == *old(self),
    {
        let _ = (ptr, old_size, align);
    }

    fn allocate(&mut self, size: usize, align: PowerOfTwo) -> (r: usize)
        ensures
            old(self).wf() ==> final(self).wf(),
            old(self).wf() && old(self).cursor() != 0 && old(self).cursor() + size <= old(self).limit() ==> r == old(self).cursor() && final(self).cursor() == r + size,
            !(old(self).wf() && old(self).cursor() != 0 && old(self).cursor() + size <= old(self).limit()) ==> r == 0 && *final(self) == *old(self),
    {
        let _ = align;
        if self.next == 0 || self.next < self.block || self.block > usize::MAX - self.size
            || self.next - self.block > self.size || size > self.size - (self.next - self.block) {
            return 0;
        }
        let ret = self.next;
        self.next = self.next + size;
        ret
    }

    fn reallocate(&mut self, ptr: usize, old_size: usize, size: usize, align: PowerOfTwo) -> (r: usize)
        ensures
            r == 0,
            *final(self) == *old(self),
    {
        let _ = (ptr, old_size, size, align);
        0
    }

    fn reallocate_inplace(&mut self, ptr: usize, old_size: usize, size: usize, align: PowerOfTwo) -> (r: usize)
        ensures
            r == old_size,
            *final(self) == *old(self),
    {
        let _ = (ptr, size, align);
        old_size
    }
}

impl<A: ShareableAllocator> ShareableAllocator for BlockAlloc<A> {

}

} // verus!
