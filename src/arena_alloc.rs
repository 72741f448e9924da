use crate::allocator::OwnedAllocator;
use crate::util::PowerOfTwo;
use vstd::arithmetic::power2::is_pow2;
use vstd::prelude::*;

verus! {

/// The alignment of the blocks that an arena takes from its allocator.
fn arena_heap_alignment() -> (r: PowerOfTwo)
    ensures
        r == PowerOfTwo::one_spec(),
        r.value() == 1,
{
    PowerOfTwo::one()
}

/// `p` is the least power of two that is at least `x`.
pub open spec fn is_next_pow2(p: int, x: int) -> bool {
    is_pow2(p) && p >= x && (p == 1 || 2 * x > p)
}

/// The least power of two that is at least `x`, if it fits in `usize`.
fn next_power_of_two(x: usize) -> (r: Option<usize>)
    ensures
        match r {
            Some(p) => is_next_pow2(p as int, x as int),
            None => 2 * x > usize::MAX + 1,
        },
{
    proof {
        reveal(is_pow2);
    }
    let mut p: usize = 1;
    while p < x
        invariant
            p >= 1,
            is_pow2(p as int),
            p == 1 || 2 * x > p,
        decreases usize::MAX - p,
    {
        if p > usize::MAX / 2 {
            return None;
        }
        proof {
            reveal(is_pow2);
            assert((2 * p) as int / 2 == p as int);
        }
        p = p * 2;
    }
    Some(p)
}

/// The size that a full live block of `needed` bytes asks to grow to in
/// place: the least power of two above `needed`, capped at `max`. `None`
/// when no such size is at least `needed`.
fn growth_target(needed: usize, max: usize) -> (r: Option<usize>)
    ensures
        needed == usize::MAX || max < needed ==> r.is_none(),
        r.is_none() ==> needed == usize::MAX || 2 * (needed + 1) > usize::MAX + 1 || max < needed,
        r.is_some() ==> exists|p: int|
            #[trigger] is_next_pow2(p, needed + 1) && r.unwrap() == if p <= max {
                p
            } else {
                max as int
            },
{
    if needed == usize::MAX {
        return None;
    }
    let p = match next_power_of_two(needed + 1) {
        Some(p) => p,
        None => {
            return None;
        },
    };
    let t = if p > max {
        max
    } else {
        p
    };
    if t < needed {
        return None;
    }
    proof {
        assert(is_next_pow2(p as int, needed + 1));
    }
    Some(t)
}

/// The size of a new block: room for `needed` bytes at any offset allowed
/// by `align`, or `recommended` bytes capped by the options if that is
/// more. `None` when the room needed does not fit in `usize`.
pub open spec fn block_request(options: ArenaOptions, needed: int, recommended: int, align: int) -> Option<int> {
    if needed + align - 1 > usize::MAX {
        None
    } else {
        let capped = if options.recommended_max_block_size < recommended {
            options.recommended_max_block_size as int
        } else {
            recommended
        };
        Some(
            if needed + align - 1 > capped {
                needed + align - 1
            } else {
                capped
            },
        )
    }
}

fn block_size(options: &ArenaOptions, needed: usize, recommended: usize, align: PowerOfTwo) -> (r: Option<usize>)
    ensures
        match block_request(*options, needed as int, recommended as int, align.value() as int) {
            Some(n) => r == Some(n as usize),
            None => r.is_none(),
        },
{
    let a = align.into();
    if needed > usize::MAX - (a - 1) {
        return None;
    }
    let actual_needed_size = needed + (a - 1);
    let actual_recommended_size = if options.recommended_max_block_size < recommended {
        options.recommended_max_block_size
    } else {
        recommended
    };
    Some(
        if actual_needed_size > actual_recommended_size {
            actual_needed_size
        } else {
            actual_recommended_size
        },
    )
}

#[derive(Clone, Copy, PartialEq, Eq, Debug)]
pub struct ArenaOptions {
    /// The size of the first block.
    pub start_block_size: usize,
    /// The size past which blocks stop doubling; a larger block is still
    /// taken when one request needs it.
    pub recommended_max_block_size: usize,
}

impl Default for ArenaOptions {
    fn default() -> (r: ArenaOptions)
        ensures
            r.start_block_size == 4096,
            r.recommended_max_block_size == 65536,
    {
        ArenaOptions { start_block_size: 4096, recommended_max_block_size: 65536 }
    }
}

/// A block that is no longer bumped into.
#[derive(Clone, Copy, PartialEq, Eq, Debug)]
struct UsedBlock {
    memory: usize,
    size: usize,
}

impl UsedBlock {
    fn new(memory: usize, size: usize) -> (r: Self)
        ensures
            r.memory == memory,
            r.size == size,
    {
        UsedBlock { memory, size }
    }
}

/// The block being bumped into: `[begin, next)` is handed out and
/// `[next, end)` is free. All three are 0 before the first block is taken.
#[derive(Clone, Copy, PartialEq, Eq, Debug)]
struct LiveBlock {
    begin: usize,
    next: usize,
    end: usize,
}

impl LiveBlock {
    #[verifier::type_invariant]
    spec fn wf(self) -> bool {
        &&& self.begin <= self.next <= self.end
        &&& self.begin == 0 ==> self.next == 0 && self.end == 0
    }

    fn new() -> (r: Self)
        ensures
            r.begin == 0,
    {
        LiveBlock { begin: 0, next: 0, end: 0 }
    }

    fn initialized(&self) -> (r: bool)
        ensures
            r == (self.begin != 0),
    {
        self.begin != 0
    }

    /// Moves the bump cursor.
    fn set_next(&mut self, next: usize)
        requires
            old(self).begin <= next <= old(self).end,
            old(self).begin == 0 ==> next == 0,
        ensures
            *final(self) == (LiveBlock { next, ..*old(self) }),
    {
        proof {
            use_type_invariant(&*self);
        }
        *self = LiveBlock { begin: self.begin, next, end: self.end };
    }

    /// Retires the block.
    fn close(self) -> (r: UsedBlock)
        ensures
            r.memory == self.begin,
            r.size == self.end - self.begin,
    {
        proof {
            use_type_invariant(self);
        }
        UsedBlock::new(self.begin, self.end - self.begin)
    }

    /// Makes the block reach at least `new_end`, growing it in place if need
    /// be; whatever the allocator grants is kept, even if it is too little.
    fn try_ensure_end<A: OwnedAllocator>(&mut self, allocator: &mut A, options: &ArenaOptions, new_end: usize) -> (r: bool)
        requires
            old(self).begin != 0,
            new_end >= old(self).begin,
        ensures
            final(self).begin == old(self).begin,
            final(self).next == old(self).next,
            final(self).end >= old(self).end || final(self).end >= old(self).next,
            r == (new_end <= final(self).end),
            new_end <= old(self).end ==> r && *final(self) == *old(self) && *final(allocator) == *old(allocator),
            ({
                let needed = new_end - old(self).begin;
                new_end > old(self).end && (needed == usize::MAX
                    || options.recommended_max_block_size < needed) ==> !r && *final(self) == *old(self)
                    && *final(allocator) == *old(allocator)
            }),
    {
        proof {
            use_type_invariant(&*self);
        }
        if new_end <= self.end {
            return true;
        }
        let needed_size = new_end - self.begin;
        let mut new_size = match growth_target(needed_size, options.recommended_max_block_size) {
            Some(t) => t,
            None => {
                return false;
            },
        };
        new_size = allocator.usable_size(new_size, arena_heap_alignment());
        let real_new_size = allocator.reallocate_inplace(
            self.begin,
            self.end - self.begin,
            new_size,
            arena_heap_alignment(),
        );
        if real_new_size > usize::MAX - self.begin || self.begin + real_new_size < self.next {
            return false;
        }
        *self = LiveBlock { begin: self.begin, next: self.next, end: self.begin + real_new_size };
        new_end <= self.end
    }

    /// Takes a new block of `block_request` bytes, as far as the allocator's
    /// usable size for that request goes.
    fn initialize<A: OwnedAllocator>(
        &mut self,
        allocator: &mut A,
        options: &ArenaOptions,
        needed_size: usize,
        recommended_size: usize,
        align: PowerOfTwo,
    ) -> (r: bool)
        requires
            old(self).begin == 0,
        ensures
            r ==> final(self).begin != 0 && final(self).next == final(self).begin,
            !r ==> final(self).begin == 0,
            block_request(*options, needed_size as int, recommended_size as int, align.value() as int)
                is None ==> !r && *final(allocator) == *old(allocator),
            r ==> final(self).end - final(self).begin == old(allocator).usable_spec(
                block_request(
                    *options,
                    needed_size as int,
                    recommended_size as int,
                    align.value() as int,
                ).unwrap() as usize,
                PowerOfTwo::one_spec(),
            ),
    {
        proof {
            use_type_invariant(&*self);
        }
        let request = match block_size(options, needed_size, recommended_size, align) {
            Some(n) => n,
            None => {
                return false;
            },
        };
        let new_size = allocator.usable_size(request, arena_heap_alignment());
        let begin = allocator.allocate(new_size, arena_heap_alignment());
        if begin == 0 {
            return false;
        }
        if new_size > usize::MAX - begin {
            allocator.deallocate(begin, new_size, arena_heap_alignment());
            return false;
        }
        *self = LiveBlock { begin, next: begin, end: begin + new_size };
        true
    }

    /// Bumps `size` bytes at alignment `align` out of the block, growing it
    /// in place if need be; 0 if it cannot.
    fn try_allocate<A: OwnedAllocator>(&mut self, allocator: &mut A, options: &ArenaOptions, size: usize, align: PowerOfTwo) -> (r: usize)
        requires
            old(self).begin != 0,
        ensures
            final(self).begin == old(self).begin,
            r != 0 ==> {
                &&& r % align.value() == 0
                &&& old(self).next <= r < old(self).next + align.value()
                &&& final(self).next == r + size
            },
            r == 0 ==> final(self).next == old(self).next,
            old(self).next + align.value() - 1 <= usize::MAX && crate::util::align_up(
                old(self).next as int,
                align.value() as int,
            ) + size <= final(self).end ==> r != 0,
            old(self).next + align.value() - 1 <= usize::MAX && crate::util::align_up(
                old(self).next as int,
                align.value() as int,
            ) + size <= old(self).end ==> {
                &&& r != 0
                &&& *final(allocator) == *old(allocator)
                &&& r == crate::util::align_up(old(self).next as int, align.value() as int)
                &&& *final(self) == (LiveBlock { next: (r + size) as usize, ..*old(self) })
            },
    {
        proof {
            use_type_invariant(&*self);
        }
        let a = align.into();
        if self.next > usize::MAX - (a - 1) {
            return 0;
        }
        let aligned_next = align.align_size(self.next);
        if size > usize::MAX - aligned_next {
            return 0;
        }
        if self.try_ensure_end(allocator, options, aligned_next + size) {
            self.set_next(aligned_next + size);
            aligned_next
        } else {
            0
        }
    }
}

/// A bump allocator: it hands out the bytes of one live block in order,
/// and takes a new, larger block from `A` when that one is full. Only the
/// latest region handed out can be given back. The blocks go back to `A`
/// when the arena is given up with `release`.
pub struct Arena<A: OwnedAllocator> {
    allocator: A,
    options: ArenaOptions,
    used: Vec<UsedBlock>,
    live: LiveBlock,
    /// The size whose usable size the live block was asked for.
    request: Ghost<int>,
}

impl<A: OwnedAllocator> Arena<A> {
    /// Whether a block has been taken.
    pub closed spec fn initialized_spec(self) -> bool {
        self.live.begin != 0
    }

    /// The bump cursor: the first free byte of the live block.
    pub closed spec fn next(self) -> int {
        self.live.next as int
    }

    /// One past the last byte of the live block.
    pub closed spec fn end(self) -> int {
        self.live.end as int
    }

    /// The first byte of the live block.
    pub closed spec fn begin(self) -> int {
        self.live.begin as int
    }

    /// How many blocks have been retired.
    pub closed spec fn retired(self) -> nat {
        self.used@.len()
    }

    /// Retired block `i`, as its first byte and its size.
    pub closed spec fn retired_block(self, i: int) -> (int, int) {
        (self.used@[i].memory as int, self.used@[i].size as int)
    }

    /// The request that the live block was opened with: the allocator was
    /// asked for its usable size for this many bytes.
    pub closed spec fn request(self) -> int {
        self.request@
    }

    pub closed spec fn options_spec(self) -> ArenaOptions {
        self.options
    }

    pub closed spec fn inner(self) -> A {
        self.allocator
    }

    /// The arena with its cursor at `n` and nothing else changed.
    pub closed spec fn with_next(self, n: int) -> Self {
        Arena { live: LiveBlock { next: n as usize, ..self.live }, ..self }
    }

    /// The region of `old_size` bytes at `ptr` is the latest one handed out
    /// from the live block.
    pub open spec fn is_tail(self, ptr: usize, old_size: usize) -> bool {
        self.initialized_spec() && ptr + old_size == self.next() && ptr >= self.begin()
    }

    pub open spec fn valid_options(options: ArenaOptions) -> bool {
        options.start_block_size > 0 && options.recommended_max_block_size > 0
    }

    pub fn new(allocator: A, options: ArenaOptions) -> (r: Self)
        requires
            Self::valid_options(options),
        ensures
            !r.initialized_spec(),
            r.retired() == 0,
            r.options_spec() == options,
            r.inner() == allocator,
    {
        Arena { allocator, options, used: Vec::new(), live: LiveBlock::new(), request: Ghost(0) }
    }

    /// Every block the arena holds, as its first byte and its size: the
    /// retired ones in the order they were retired, then the live one.
    pub fn blocks(&self) -> (r: Vec<(usize, usize)>)
        ensures
            r@.len() == self.retired() + if self.initialized_spec() {
                1int
            } else {
                0int
            },
            forall|i: int|
                0 <= i < self.retired() ==> (r@[i].0 as int, r@[i].1 as int) == #[trigger] self.retired_block(i),
            self.initialized_spec() ==> r@[self.retired() as int] == (
                self.begin() as usize,
                (self.end() - self.begin()) as usize,
            ),
    {
        proof {
            use_type_invariant(&self.live);
        }
        let mut r: Vec<(usize, usize)> = Vec::new();
        let mut i: usize = 0;
        while i < self.used.len()
            invariant
                i <= self.used@.len(),
                r@.len() == i,
                forall|j: int| 0 <= j < i ==> (r@[j].0 as int, r@[j].1 as int) == #[trigger] self.retired_block(j),
            decreases self.used@.len() - i,
        {
            r.push((self.used[i].memory, self.used[i].size));
            i = i + 1;
        }
        if self.live.initialized() {
            r.push((self.live.begin, self.live.end - self.live.begin));
        }
        r
    }

    /// The number of retired blocks.
    pub fn retired_blocks(&self) -> (r: usize)
        ensures
            r == self.retired(),
    {
        self.used.len()
    }

    /// Gives every block of `blocks` back to the allocator below, in that
    /// order, and returns it.
    pub fn release(self) -> (r: A) {
        let blocks = self.blocks();
        let mut allocator = self.allocator;
        let mut i: usize = 0;
        while i < blocks.len()
            decreases blocks.len() - i,
        {
            let (memory, size) = blocks[i];
            allocator.deallocate(memory, size, arena_heap_alignment());
            i = i + 1;
        }
        allocator
    }
}

impl<A: OwnedAllocator + Default> Default for Arena<A> {
    fn default() -> (r: Self)
        ensures
            !r.initialized_spec(),
            r.retired() == 0,
    {
        Arena::new(A::default(), ArenaOptions::default())
    }
}

impl<A: OwnedAllocator> OwnedAllocator for Arena<A> {
    fn deallocate(&mut self, ptr: usize, old_size: usize, align: PowerOfTwo)
        ensures
            ptr + old_size == old(self).next() && ptr >= old(self).begin() ==> *final(self) == old(self).with_next(ptr as int),
            !(ptr + old_size == old(self).next() && ptr >= old(self).begin()) ==> *final(self)
                == *old(self),
    {
        let _ = align;
        proof {
            use_type_invariant(&self.live);
        }
        if old_size <= usize::MAX - ptr && self.live.next == ptr + old_size && ptr >= self.live.begin {
            self.live.set_next(ptr);
        }
    }

    fn allocate(&mut self, size: usize, align: PowerOfTwo) -> (r: usize)
        ensures
            r != 0 ==> {
                &&& r % align.value() == 0
                &&& final(self).begin() <= r
                &&& r + size == final(self).next() <= final(self).end()
            },
            r == 0 ==> final(self).next() <= final(self).end(),
            final(self).options_spec() == old(self).options_spec(),
            (!old(self).initialized_spec() || final(self).retired() == old(self).retired() + 1)
                && final(self).initialized_spec() && final(self).end() - final(self).begin() >= final(self).request() ==> r != 0,
            final(self).retired() == old(self).retired() || final(self).retired() == old(self).retired() + 1,
            forall|i: int| 0 <= i < old(self).retired() ==> #[trigger] final(self).retired_block(i) == old(self).retired_block(i),
            final(self).retired() == old(self).retired() + 1 ==> old(self).initialized_spec()
                && final(self).retired_block(old(self).retired() as int).0 == old(self).begin()
                && final(self).retired_block(old(self).retired() as int).1 >= old(self).next() - old(self).begin(),
            !old(self).initialized_spec() && final(self).initialized_spec() ==> Some(final(self).request())
                == block_request(old(self).options_spec(), size as int, old(self).options_spec().start_block_size as int, align.value() as int),
            old(self).initialized_spec() && final(self).retired() == old(self).retired() + 1
                && final(self).initialized_spec() ==> exists|rec: int|
                (is_next_pow2(rec, final(self).retired_block(old(self).retired() as int).1 + 1) || rec == usize::MAX)
                && #[trigger] block_request(old(self).options_spec(), size as int, rec, align.value() as int)
                == Some(final(self).request()),
            ({
                let aligned = crate::util::align_up(old(self).next(), align.value() as int);
                old(self).initialized_spec() && old(self).next() + align.value() - 1 <= usize::MAX
                    && aligned + size <= old(self).end() ==> r == aligned && *final(self) == old(self).with_next(aligned + size)
            }),
    {
        proof {
            use_type_invariant(&self.live);
        }
        let next_block_size;
        if self.live.initialized() {
            let result = self.live.try_allocate(&mut self.allocator, &self.options, size, align);
            if result == 0 {
                let mut old_live = LiveBlock::new();
                std::mem::swap(&mut self.live, &mut old_live);
                proof {
                    use_type_invariant(&old_live);
                }
                let old_block = old_live.close();
                next_block_size = if old_block.size < usize::MAX {
                    match next_power_of_two(old_block.size + 1) {
                        Some(p) => p,
                        None => usize::MAX,
                    }
                } else {
                    usize::MAX
                };
                self.used.push(old_block);
            } else {
                proof {
                    use_type_invariant(&self.live);
                }
                return result;
            }
        } else {
            next_block_size = self.options.start_block_size;
        }
        if !self.live.initialize(&mut self.allocator, &self.options, size, next_block_size, align) {
            proof {
                use_type_invariant(&self.live);
            }
            return 0;
        }
        self.request = Ghost(
            block_request(self.options, size as int, next_block_size as int, align.value() as int).unwrap(),
        );
        let ghost opened = self.live;
        let a = align.into();
        proof {
            use_type_invariant(&self.live);
            crate::util::lemma_align_up(opened.next as int, a as int);
        }
        let r = self.live.try_allocate(&mut self.allocator, &self.options, size, align);
        proof {
            use_type_invariant(&self.live);
        }
        r
    }

    fn reallocate(&mut self, ptr: usize, old_size: usize, new_size: usize, align: PowerOfTwo) -> (r: usize)
        ensures
            r != 0 && r != ptr ==> {
                &&& r % align.value() == 0
                &&& r + new_size == final(self).next() <= final(self).end()
            },
            old(self).is_tail(ptr, old_size) && ptr + new_size <= old(self).end() ==> r == ptr
                && *final(self) == old(self).with_next(ptr + new_size),
    {
        if self.reallocate_inplace(ptr, old_size, new_size, align) == new_size {
            ptr
        } else {
            self.allocate(new_size, align)
        }
    }

    fn reallocate_inplace(&mut self, ptr: usize, old_size: usize, new_size: usize, align: PowerOfTwo) -> (r: usize)
        ensures
            r == old_size || r == new_size,
            r == new_size && new_size != old_size ==> final(self).next() == ptr + new_size,
            r == old_size ==> final(self).next() == old(self).next(),
            !old(self).is_tail(ptr, old_size) || ptr + new_size > usize::MAX ==> r == old_size
                && *final(self) == *old(self),
            old(self).is_tail(ptr, old_size) && ptr + new_size <= old(self).end() ==> r == new_size
                && *final(self) == old(self).with_next(ptr + new_size),
    {
        let _ = align;
        proof {
            use_type_invariant(&self.live);
        }
        if old_size <= usize::MAX - ptr && self.live.next == ptr + old_size && self.live.initialized()
            && new_size <= usize::MAX - ptr && ptr >= self.live.begin {
            if self.live.try_ensure_end(&mut self.allocator, &self.options, ptr + new_size) {
                proof {
                    use_type_invariant(&self.live);
                }
                self.live.set_next(ptr + new_size);
                return new_size;
            }
        }
        old_size
    }

    fn extendable_size(&self, ptr: usize, old_size: usize, align: PowerOfTwo) -> (r: usize)
        ensures
            ptr + old_size == self.next() ==> r == self.end() - ptr,
            ptr + old_size != self.next() ==> r == 0,
    {
        let _ = align;
        proof {
            use_type_invariant(&self.live);
        }
        if old_size <= usize::MAX - ptr && self.live.next == ptr + old_size {
            self.live.end - self.live.next + old_size
        } else {
            0
        }
    }

    open spec fn usable_spec(&self, size: usize, align: PowerOfTwo) -> usize {
        size
    }

    fn usable_size(&self, size: usize, align: PowerOfTwo) -> (r: usize)
        ensures
            r == size,
    {
        let _ = align;
        size
    }
}

/// Giving back a region right after it was bumped out of the live block
/// puts the arena back as it was, when the cursor was already aligned:
/// `a1` is `a0` after `allocate(n, align)` served from the live block, as
/// `allocate` states, and `a2` is `a1` after `deallocate(p, n, align)`.
pub proof fn lemma_tail_free<A: OwnedAllocator>(
    a0: Arena<A>,
    a1: Arena<A>,
    a2: Arena<A>,
    p: usize,
    n: usize,
    align: PowerOfTwo,
)
    requires
        align.value() >= 1,
        a0.begin() <= a0.next() <= a0.end(),
        a0.initialized_spec(),
        a0.next() % (align.value() as int) == 0,
        a0.next() + align.value() - 1 <= usize::MAX,
        crate::util::align_up(a0.next(), align.value() as int) + n <= a0.end(),
        p == crate::util::align_up(a0.next(), align.value() as int),
        a1 == a0.with_next(p + n),
        p + n == a1.next() && p >= a1.begin() ==> a2 == a1.with_next(p as int),
        !(p + n == a1.next() && p >= a1.begin()) ==> a2 == a1,
    ensures
        a2 == a0,
{
    let a = align.value() as int;
    let x = a0.next();
    vstd::arithmetic::div_mod::lemma_fundamental_div_mod(x, a);
    let q = x / a;
    assert(x == a * q);
    assert((x + a - 1) / a == q) by {
        vstd::arithmetic::div_mod::lemma_div_multiples_vanish_fancy(q, a - 1, a);
        vstd::arithmetic::mul::lemma_mul_is_commutative(a, q);
    }
    vstd::arithmetic::mul::lemma_mul_is_commutative(a, q);
    assert(p == x);
    assert(a0.live.next == p);
    assert(a1.next() == p + n);
    assert(a1.begin() == a0.begin());
    assert(a2.live.next == a0.live.next);
    assert(a2.live.begin == a0.live.begin);
    assert(a2.live.end == a0.live.end);
    assert(a2.live == a0.live);
    assert(a2.used == a0.used);
}

} // verus!
