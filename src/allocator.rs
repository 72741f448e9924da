use crate::util::PowerOfTwo;
use vstd::prelude::*;

verus! {

/// An allocator of address ranges. Addresses are plain numbers, and the
/// address 0 stands for "no memory": `allocate` and `reallocate` return it
/// when they run out. Beyond `usable_size` answering from the allocator's
/// state, nothing is promised of an implementation here; the layers that
/// check or build on one state their own contracts.
pub trait OwnedAllocator: Sized {
    /// At least `size` bytes aligned to `align`, or 0.
    fn allocate(&mut self, size: usize, align: PowerOfTwo) -> (r: usize);

    /// Moves or grows the live region `(ptr, old_size, align)` to `new_size`
    /// bytes, keeping its first `min(old_size, new_size)` bytes. On 0 the old
    /// region is still live.
    fn reallocate(&mut self, ptr: usize, old_size: usize, new_size: usize, align: PowerOfTwo) -> (r: usize);

    /// Resizes the live region without moving it; returns the size it has
    /// afterwards, `old_size` or `new_size`.
    fn reallocate_inplace(&mut self, ptr: usize, old_size: usize, new_size: usize, align: PowerOfTwo) -> (r: usize);

    /// Frees the live region `(ptr, old_size, align)`.
    fn deallocate(&mut self, ptr: usize, old_size: usize, align: PowerOfTwo);

    /// How far the live region could grow without moving.
    fn extendable_size(&self, ptr: usize, old_size: usize, align: PowerOfTwo) -> (r: usize) {
        let _ = ptr;
        let _ = align;
        old_size
    }

    /// How many bytes a request for `size` bytes at `align` is given in the
    /// allocator's present state.
    open spec fn usable_spec(&self, size: usize, align: PowerOfTwo) -> usize {
        size
    }

    /// How many bytes a request for `size` bytes would be given.
    fn usable_size(&self, size: usize, align: PowerOfTwo) -> (r: usize)
        ensures
            r == self.usable_spec(size, align),
    ;
}

/// An allocator with no state of its own, which can be copied freely.
pub trait Allocator: OwnedAllocator + Copy {

}

/// An allocator that may stand behind a handle shared by several owners.
pub trait ShareableAllocator: OwnedAllocator {

}

} // verus!
