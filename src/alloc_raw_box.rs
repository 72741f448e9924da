use crate::allocator::OwnedAllocator;
use crate::util::PowerOfTwo;
use std::marker::PhantomData;
use vstd::layout::size_of;
use vstd::prelude::*;

verus! {

/// One value of `T` that owns a region of `size_of::<T>()` bytes, aligned
/// for `T`, in an allocator `A` that it does not hold: the allocator has to
/// be handed to `into_inner` or `delete` to give the region back. A value of
/// size zero takes no region. The value itself is kept in the box.
pub struct AllocRawBox<T, A: OwnedAllocator> {
    ptr: usize,
    value: T,
    phantom: PhantomData<A>,
}

impl<T, A: OwnedAllocator> AllocRawBox<T, A> {
    pub closed spec fn value_spec(self) -> T {
        self.value
    }

    /// The address of the region.
    pub closed spec fn address(self) -> usize {
        self.ptr
    }

    /// Reserves the region in `alloc` and puts `value` in the box; hands
    /// `value` back if the allocator returns null.
    pub fn new(value: T, alloc: &mut A) -> (r: Result<Self, T>)
        ensures
            match r {
                Ok(b) => b.value_spec() == value && b.address() != 0,
                Err(v) => v == value,
            },
            size_of::<T>() == 0 ==> r.is_ok() && *final(alloc) == *old(alloc),
    {
        vstd::layout::layout_for_type_is_valid::<T>();
        if core::mem::size_of::<T>() == 0 {
            return Ok(AllocRawBox { ptr: core::mem::align_of::<T>(), value, phantom: PhantomData });
        }
        let pointer = alloc.allocate(core::mem::size_of::<T>(), PowerOfTwo::align_of::<T>());
        if pointer == 0 {
            return Err(value);
        }
        Ok(AllocRawBox { ptr: pointer, value, phantom: PhantomData })
    }

    /// Gives the region back to `alloc` and returns the value.
    pub fn into_inner(self, alloc: &mut A) -> (r: T)
        ensures
            r == self.value_spec(),
    {
        let size = core::mem::size_of::<T>();
        if size != 0 {
            alloc.deallocate(self.ptr, size, PowerOfTwo::align_of::<T>());
        }
        self.value
    }

    /// Drops the value and gives the region back to `alloc`.
    pub fn delete(self, alloc: &mut A) {
        let _ = self.into_inner(alloc);
    }

    pub fn get(&self) -> (r: &T)
        ensures
            *r == self.value_spec(),
    {
        &self.value
    }

    pub fn get_mut(&mut self) -> (r: &mut T)
        ensures
            *r == old(self).value_spec(),
            final(self).value_spec() == *final(r),
            final(self).address() == old(self).address(),
    {
        &mut self.value
    }
}

} // verus!
