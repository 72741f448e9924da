use crate::allocator::OwnedAllocator;
use crate::util::PowerOfTwo;
use std::marker::PhantomData;
use vstd::layout::size_of;
use vstd::prelude::*;

verus! {

/// Why a buffer could not grow.
#[derive(Clone, Copy, PartialEq, Eq, Structural, Debug)]
pub enum ReserveError {
    /// The capacity asked for does not fit in `usize` bytes.
    CapacityOverflow,
    /// The allocator returned null.
    OutOfMemory,
}

/// Whether a region of `alloc_size` bytes may be asked for: never more than
/// `isize::MAX` bytes where `usize` is narrower than 64 bits (on wider
/// machines such a request fails in the allocator anyway).
pub open spec fn size_allowed(alloc_size: int) -> bool {
    size_of::<usize>() >= 8 || alloc_size <= isize::MAX
}

/// The capacity that `reserve` asks for: what is needed, twice the present
/// capacity (or `usize::MAX` if that does not fit), or the `slack` that the
/// region could grow to in place, whichever is most.
pub open spec fn amortized_cap(cap: int, required: int, slack: int) -> int {
    let doubled = if 2 * cap <= usize::MAX {
        2 * cap
    } else {
        usize::MAX as int
    };
    if required >= doubled && required >= slack {
        required
    } else if doubled >= slack {
        doubled
    } else {
        slack
    }
}

fn amortized_new_cap(cap: usize, required: usize, slack: usize) -> (r: usize)
    ensures
        r == amortized_cap(cap as int, required as int, slack as int),
{
    let doubled = if cap <= usize::MAX / 2 {
        cap * 2
    } else {
        usize::MAX
    };
    if required >= doubled && required >= slack {
        required
    } else if doubled >= slack {
        doubled
    } else {
        slack
    }
}

fn alloc_guard(alloc_size: usize) -> (r: bool)
    ensures
        r == size_allowed(alloc_size as int),
{
    core::mem::size_of::<usize>() >= 8 || alloc_size <= isize::MAX as usize
}

/// A buffer for `cap` values of `T`, reserved from the allocator `A` as one
/// region of `cap * size_of::<T>()` bytes aligned for `T`. Before anything
/// is reserved `ptr` is a non-null sentinel and `cap` is 0; for a type of
/// size zero nothing is ever reserved and the capacity is unbounded.
pub struct AllocRawVec<T, A: OwnedAllocator> {
    ptr: usize,
    cap: usize,
    alloc: A,
    phantom: PhantomData<T>,
}

impl<T, A: OwnedAllocator> AllocRawVec<T, A> {
    /// How many values the buffer has room for.
    pub closed spec fn capacity(self) -> nat {
        if size_of::<T>() == 0 {
            usize::MAX as nat
        } else {
            self.cap as nat
        }
    }

    /// The address of the buffer.
    pub closed spec fn address(self) -> usize {
        self.ptr
    }

    pub proof fn lemma_capacity_bound(self)
        ensures
            self.capacity() <= usize::MAX,
    {
    }

    pub closed spec fn alloc_spec(self) -> A {
        self.alloc
    }

    pub closed spec fn wf(self) -> bool {
        self.cap * size_of::<T>() <= usize::MAX
    }

    pub fn new(alloc: A) -> (r: Self)
        ensures
            r.wf(),
            r.alloc_spec() == alloc,
            size_of::<T>() != 0 ==> r.capacity() == 0,
            size_of::<T>() == 0 ==> r.capacity() == usize::MAX,
    {
        vstd::layout::layout_for_type_is_valid::<T>();
        let cap = if core::mem::size_of::<T>() == 0 {
            usize::MAX
        } else {
            0
        };
        AllocRawVec { ptr: core::mem::align_of::<T>(), cap, alloc, phantom: PhantomData }
    }

    /// The address of the buffer.
    pub fn ptr(&self) -> (r: usize)
        ensures
            r == self.address(),
    {
        self.ptr
    }

    pub fn cap(&self) -> (r: usize)
        ensures
            r == self.capacity(),
    {
        if core::mem::size_of::<T>() == 0 {
            usize::MAX
        } else {
            self.cap
        }
    }

    pub fn allocator(&self) -> (r: &A)
        ensures
            *r == self.alloc_spec(),
    {
        &self.alloc
    }

    /// Moves the buffer to a region of `new_cap` values, reserving it or
    /// resizing the one held.
    fn grow_to(&mut self, new_cap: usize) -> (r: Result<(), ReserveError>)
        requires
            old(self).wf(),
            size_of::<T>() != 0,
        ensures
            final(self).wf(),
            r.is_ok() ==> final(self).capacity() == new_cap,
            r.is_err() ==> final(self).capacity() == old(self).capacity(),
            r == Err::<(), ReserveError>(ReserveError::CapacityOverflow) <==> (new_cap * size_of::<
                T,
            >() > usize::MAX || !size_allowed(new_cap * size_of::<T>())),
    {
        let elem_size = core::mem::size_of::<T>();
        let new_alloc_size = match new_cap.checked_mul(elem_size) {
            Some(n) => n,
            None => {
                return Err(ReserveError::CapacityOverflow);
            },
        };
        if !alloc_guard(new_alloc_size) {
            return Err(ReserveError::CapacityOverflow);
        }
        let align = PowerOfTwo::align_of::<T>();
        let ptr = if self.cap == 0 {
            self.alloc.allocate(new_alloc_size, align)
        } else {
            self.alloc.reallocate(self.ptr, self.cap * elem_size, new_alloc_size, align)
        };
        if ptr == 0 {
            return Err(ReserveError::OutOfMemory);
        }
        self.ptr = ptr;
        self.cap = new_cap;
        Ok(())
    }

    /// Makes room for `used_cap + needed_extra_cap` values. When it grows,
    /// it asks for `amortized_cap` of the present capacity, the room needed,
    /// and the room the allocator says the region can grow to in place.
    pub fn reserve(&mut self, used_cap: usize, needed_extra_cap: usize) -> (r: Result<(), ReserveError>)
        requires
            old(self).wf(),
            used_cap <= old(self).capacity(),
        ensures
            final(self).wf(),
            old(self).capacity() - used_cap >= needed_extra_cap ==> r.is_ok() && *final(self)
                == *old(self),
            old(self).capacity() - used_cap < needed_extra_cap && (size_of::<T>() == 0 || used_cap
                + needed_extra_cap > usize::MAX) ==> r == Err::<(), ReserveError>(
                ReserveError::CapacityOverflow,
            ),
            r.is_ok() ==> final(self).capacity() >= used_cap + needed_extra_cap,
            r.is_ok() && old(self).capacity() - used_cap < needed_extra_cap ==> {
                &&& final(self).capacity() >= 2 * old(self).capacity() || final(self).capacity()
                    == usize::MAX
                &&& exists|slack: usize|
                    final(self).capacity() == #[trigger] amortized_cap(
                        old(self).capacity() as int,
                        used_cap + needed_extra_cap,
                        slack as int,
                    )
            },
            r.is_err() ==> final(self).capacity() == old(self).capacity(),
    {
        let elem_size = core::mem::size_of::<T>();
        if self.cap() - used_cap >= needed_extra_cap {
            return Ok(());
        }
        if elem_size == 0 {
            return Err(ReserveError::CapacityOverflow);
        }
        let required_cap = match used_cap.checked_add(needed_extra_cap) {
            Some(n) => n,
            None => {
                return Err(ReserveError::CapacityOverflow);
            },
        };
        let slack_cap = self.alloc.extendable_size(
            self.ptr,
            self.cap * elem_size,
            PowerOfTwo::align_of::<T>(),
        ) / elem_size;
        let new_cap = amortized_new_cap(self.cap, required_cap, slack_cap);
        let r = self.grow_to(new_cap);
        proof {
            if r.is_ok() {
                assert(self.capacity() == amortized_cap(
                    old(self).capacity() as int,
                    used_cap + needed_extra_cap,
                    slack_cap as int,
                ));
            }
        }
        r
    }

    /// Makes room for exactly `used_cap + needed_extra_cap` values when
    /// there is not room for them.
    pub fn reserve_exact(&mut self, used_cap: usize, needed_extra_cap: usize) -> (r: Result<(), ReserveError>)
        requires
            old(self).wf(),
            used_cap <= old(self).capacity(),
        ensures
            final(self).wf(),
            old(self).capacity() - used_cap >= needed_extra_cap ==> r.is_ok() && *final(self)
                == *old(self),
            r.is_ok() && old(self).capacity() - used_cap < needed_extra_cap ==> final(self).capacity() == used_cap + needed_extra_cap,
            old(self).capacity() - used_cap < needed_extra_cap ==> (r == Err::<(), ReserveError>(
                ReserveError::CapacityOverflow,
            ) <==> (size_of::<T>() == 0 || used_cap + needed_extra_cap > usize::MAX || (used_cap
                + needed_extra_cap) * size_of::<T>() > usize::MAX || !size_allowed(
                (used_cap + needed_extra_cap) * size_of::<T>(),
            ))),
            r.is_err() ==> final(self).capacity() == old(self).capacity(),
            used_cap + needed_extra_cap > usize::MAX ==> r == Err::<(), ReserveError>(
                ReserveError::CapacityOverflow,
            ),
    {
        let elem_size = core::mem::size_of::<T>();
        if self.cap() - used_cap >= needed_extra_cap {
            return Ok(());
        }
        if elem_size == 0 {
            return Err(ReserveError::CapacityOverflow);
        }
        let new_cap = match used_cap.checked_add(needed_extra_cap) {
            Some(n) => n,
            None => {
                return Err(ReserveError::CapacityOverflow);
            },
        };
        self.grow_to(new_cap)
    }

    /// Shrinks the buffer to `amount` values; at 0 the region is given back
    /// and the buffer is empty again.
    pub fn shrink_to_fit(&mut self, amount: usize) -> (r: Result<(), ReserveError>)
        requires
            old(self).wf(),
            amount <= old(self).capacity(),
        ensures
            final(self).wf(),
            r.is_ok() ==> final(self).capacity() == if size_of::<T>() == 0 {
                usize::MAX as nat
            } else {
                amount as nat
            },
            r.is_err() ==> final(self).capacity() == old(self).capacity(),
            amount == 0 || size_of::<T>() == 0 || amount == old(self).capacity() ==> r.is_ok(),
    {
        let elem_size = core::mem::size_of::<T>();
        if elem_size == 0 {
            self.cap = amount;
            return Ok(());
        }
        if amount == 0 {
            if self.cap != 0 {
                self.alloc.deallocate(self.ptr, self.cap * elem_size, PowerOfTwo::align_of::<T>());
            }
            self.ptr = core::mem::align_of::<T>();
            self.cap = 0;
            Ok(())
        } else if self.cap != amount {
            proof {
                assert(amount * elem_size <= self.cap * elem_size) by (nonlinear_arith)
                    requires
                        amount <= self.cap,
                ;
            }
            let ptr = self.alloc.reallocate(
                self.ptr,
                self.cap * elem_size,
                amount * elem_size,
                PowerOfTwo::align_of::<T>(),
            );
            if ptr == 0 {
                return Err(ReserveError::OutOfMemory);
            }
            self.ptr = ptr;
            self.cap = amount;
            Ok(())
        } else {
            Ok(())
        }
    }

    /// Gives the buffer back and returns the allocator.
    pub fn into_allocator(self) -> (r: A)
        requires
            self.wf(),
    {
        let mut alloc = self.alloc;
        let elem_size = core::mem::size_of::<T>();
        if elem_size != 0 && self.cap != 0 {
            alloc.deallocate(self.ptr, self.cap * elem_size, PowerOfTwo::align_of::<T>());
        }
        alloc
    }
}

} // verus!
