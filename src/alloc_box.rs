use crate::alloc_raw_box::AllocRawBox;
use crate::allocator::OwnedAllocator;
use vstd::prelude::*;

verus! {

/// One value of `T` in a region of the allocator `A`, kept together with
/// that allocator, so that the box gives the region back itself.
pub struct AllocBox<T, A: OwnedAllocator> {
    alloc: A,
    ptr: AllocRawBox<T, A>,
}

impl<T, A: OwnedAllocator> AllocBox<T, A> {
    pub closed spec fn value_spec(self) -> T {
        self.ptr.value_spec()
    }

    /// Puts `x` in a region of `alloc`; hands both back if the allocator
    /// returns null.
    pub fn new(x: T, alloc: A) -> (r: Result<Self, (T, A)>)
        ensures
            match r {
                Ok(b) => b.value_spec() == x,
                Err((v, _)) => v == x,
            },
    {
        let mut alloc = alloc;
        match AllocRawBox::new(x, &mut alloc) {
            Ok(ptr) => Ok(AllocBox { ptr, alloc }),
            Err(x) => Err((x, alloc)),
        }
    }

    /// Gives the region back and returns the value.
    pub fn into_inner(self) -> (r: T)
        ensures
            r == self.value_spec(),
    {
        let mut alloc = self.alloc;
        self.ptr.into_inner(&mut alloc)
    }

    /// Gives the region back and returns the value and the allocator.
    pub fn into_inner_with_allocator(self) -> (r: (T, A))
        ensures
            r.0 == self.value_spec(),
    {
        let mut alloc = self.alloc;
        let value = self.ptr.into_inner(&mut alloc);
        (value, alloc)
    }

    /// Drops the value, gives the region back and returns the allocator.
    pub fn into_allocator(self) -> (r: A) {
        let mut alloc = self.alloc;
        self.ptr.delete(&mut alloc);
        alloc
    }

    pub fn get(&self) -> (r: &T)
        ensures
            *r == self.value_spec(),
    {
        self.ptr.get()
    }

    pub fn get_mut(&mut self) -> (r: &mut T)
        ensures
            *r == old(self).value_spec(),
            final(self).value_spec() == *final(r),
    {
        self.ptr.get_mut()
    }
}

} // verus!
