use crate::allocator::{OwnedAllocator, ShareableAllocator};
use crate::interval_map::{interval, Interval, IntervalMap, IntervalMapIter, TreeIntervalMap, ValueEq};
use crate::util::PowerOfTwo;
use vstd::math::min;
use vstd::prelude::*;

verus! {

/// What the checker keeps of one live region.
#[derive(Clone, Copy, PartialEq, Eq, Structural, Debug)]
pub struct Allocation {
    pub ptr: usize,
    pub requested_size: usize,
    pub align: PowerOfTwo,
}

impl ValueEq for Allocation {
    fn same_value(&self, other: &Allocation) -> (r: bool) {
        self.ptr == other.ptr && self.requested_size == other.requested_size && self.align
            == other.align
    }
}

/// A misuse of the allocator interface, or a fault of the allocator below,
/// that the checker found. After one, the checker refuses all further work.
#[derive(Clone, Copy, PartialEq, Eq, Structural, Debug)]
pub enum CheckFault {
    /// A size of zero was passed to `allocate`, `reallocate` or `deallocate`.
    ZeroSize,
    /// The allocator below returned an address that is not aligned.
    MisalignedResult,
    /// The allocator below gave out bytes that are still live.
    Overlap,
    /// The allocator below gave a usable size under the request, or one that
    /// runs past the end of the address space.
    BadUsableSize,
    /// A pointer that is not aligned was handed back.
    UnalignedPointer,
    /// A pointer that is not in any live region was handed back.
    NotLive,
    /// A region was handed back with another alignment than it was given.
    WrongAlign,
    /// A region was handed back with a size it cannot have.
    WrongSize,
    /// `reallocate_inplace` below returned neither the old nor the new size.
    BadInplaceSize,
}

impl CheckFault {
    /// A description of the fault, starting with "CheckedAlloc".
    pub fn message(&self) -> &'static str {
        match self {
            CheckFault::ZeroSize => "CheckedAlloc: size of zero",
            CheckFault::MisalignedResult => "CheckedAlloc: allocated pointer not aligned",
            CheckFault::Overlap => "CheckedAlloc: allocated interval still live",
            CheckFault::BadUsableSize => "CheckedAlloc: usable size out of range",
            CheckFault::UnalignedPointer => "CheckedAlloc: deallocated unaligned pointer",
            CheckFault::NotLive => "CheckedAlloc: deallocated interval is not live",
            CheckFault::WrongAlign => "CheckedAlloc: different alignment",
            CheckFault::WrongSize => "CheckedAlloc: different size",
            CheckFault::BadInplaceSize => "CheckedAlloc: in-place size neither old nor new",
        }
    }
}

/// The regions still live when the checker was asked for leaks.
#[derive(Clone, Copy, PartialEq, Eq, Debug)]
pub struct LeakReport {
    pub blocks: usize,
    pub bytes: usize,
}

impl LeakReport {
    /// A description of the finding, starting with "LeakChecker".
    pub fn message(&self) -> &'static str {
        "LeakChecker: regions still live"
    }
}

#[derive(Clone, Copy, PartialEq, Eq, Debug)]
pub struct CheckedAllocOptions {
    /// Skip the check for leaks.
    pub ignore_leaks: bool,
}

impl Default for CheckedAllocOptions {
    fn default() -> (r: Self)
        ensures
            !r.ignore_leaks,
    {
        CheckedAllocOptions { ignore_leaks: false }
    }
}

impl<A: OwnedAllocator + Default> Default for CheckedAlloc<A> {
    fn default() -> (r: Self)
        ensures
            r.failure() == None::<CheckFault>,
            r.is_clean(),
            !r.ignores_leaks(),
    {
        Self::new(A::default(), CheckedAllocOptions::default())
    }
}

/// Live regions never overlap, each runs from its own `ptr` without a gap,
/// and its record holds that `ptr`.
pub open spec fn regions_ok(m: TreeIntervalMap<usize, Allocation>) -> bool {
    &&& forall|k: int|
        0 <= k <= usize::MAX && (#[trigger] m.at(k)).is_some() ==> m.at(k).unwrap().ptr
            <= k
    &&& forall|j: int, k: int|
        0 <= j <= k <= usize::MAX && (#[trigger] m.at(k)).is_some() && m.at(k).unwrap().ptr
            <= j ==> #[trigger] m.at(j) == m.at(k)
}

/// The live regions, as an interval map from addresses to their records.
struct LiveSet {
    map: TreeIntervalMap<usize, Allocation>,
}

impl LiveSet {
    #[verifier::type_invariant]
    spec fn inv(self) -> bool {
        self.map.well_formed() && regions_ok(self.map)
    }

    fn new() -> (r: LiveSet)
        ensures
            forall|k: int| #[trigger] r.map.at(k) == None::<Allocation>,
    {
        LiveSet { map: TreeIntervalMap::new() }
    }

    /// Whether no address of `span` is live.
    fn is_free(&self, span: Interval<usize>) -> (r: bool)
        requires
            span.wf(),
        ensures
            r == forall|k: int| span.has(k) ==> #[trigger] self.map.at(k) == None::<Allocation>,
    {
        proof {
            use_type_invariant(self);
        }
        let first = self.map.get_first(span);
        proof {
            if first.is_some() {
                let (run, v) = first.unwrap();
                let k = if run.lo() > span.lo() { run.lo() } else { span.lo() };
                assert(run.has(k));
                assert(self.map.at(k) == Some(v));
            }
        }
        first.is_none()
    }

    /// Makes every address of `span` live under `rec`.
    fn insert(&mut self, span: Interval<usize>, rec: Allocation)
        requires
            span.wf(),
            rec.ptr == span.lo(),
            forall|k: int| span.has(k) ==> #[trigger] old(self).map.at(k) == None::<Allocation>,
        ensures
            forall|k: int|
                0 <= k <= usize::MAX ==> #[trigger] final(self).map.at(k) == if span.has(k) {
                    Some(rec)
                } else {
                    old(self).map.at(k)
                },
    {
        proof {
            use_type_invariant(&*self);
        }
        let mut map = TreeIntervalMap::new();
        std::mem::swap(&mut self.map, &mut map);
        let ghost m0 = map;
        map.fill(span, Some(rec));
        proof {
            lemma_gain_ok(m0, map, span.lo(), span.hi(), rec);
        }
        self.map = map;
    }

    /// The live region that `ptr` points into, with its record.
    fn find(&self, ptr: usize) -> (r: Option<(Interval<usize>, Allocation)>)
        ensures
            r.is_none() ==> self.map.at(ptr as int) == None::<Allocation>,
            r.is_some() ==> {
                let (run, rec) = r.unwrap();
                {
                    &&& self.map.at(ptr as int) == Some(rec)
                    &&& run.wf()
                    &&& run.lo() == rec.ptr
                    &&& forall|k: int|
                        0 <= k <= usize::MAX ==> (run.has(k) <==> #[trigger] self.map.at(k) == Some(
                            rec,
                        ))
                }
            },
    {
        proof {
            use_type_invariant(self);
        }
        let (run, value) = self.map.get_interval(ptr);
        proof {
            assert(self.map.at(ptr as int) == value);
        }
        match value {
            None => None,
            Some(rec) => {
                proof {
                    lemma_run_is_region(self.map, run, rec, ptr as int);
                }
                Some((run, rec))
            },
        }
    }

    /// Makes the region `run` of `rec` free again.
    fn remove(&mut self, run: Interval<usize>, rec: Allocation)
        requires
            run.wf(),
            forall|k: int|
                0 <= k <= usize::MAX ==> (run.has(k) <==> #[trigger] old(self).map.at(k) == Some(rec)),
        ensures
            forall|k: int|
                0 <= k <= usize::MAX ==> #[trigger] final(self).map.at(k) == if old(self).map.at(k) == Some(
                    rec,
                ) {
                    None
                } else {
                    old(self).map.at(k)
                },
    {
        proof {
            use_type_invariant(&*self);
        }
        let mut map = TreeIntervalMap::new();
        std::mem::swap(&mut self.map, &mut map);
        let ghost m0 = map;
        map.fill(run, None);
        proof {
            lemma_lose_ok(m0, map, rec);
        }
        self.map = map;
    }
}

/// The number of runs of equal `Some` values of `f` that start below `c`:
/// with `f` the live regions of a checker, the number of regions below `c`.
pub open spec fn runs_below(f: spec_fn(int) -> Option<Allocation>, c: int) -> nat
    decreases c,
{
    if c <= 0 {
        0
    } else {
        runs_below(f, c - 1) + if f(c - 1).is_some() && (c - 1 == 0 || f(c - 2) != f(c - 1)) {
            1nat
        } else {
            0nat
        }
    }
}

/// The number of keys below `c` where `f` is `Some`: with `f` the live
/// regions of a checker, the live bytes below `c`.
pub open spec fn bytes_below(f: spec_fn(int) -> Option<Allocation>, c: int) -> nat
    decreases c,
{
    if c <= 0 {
        0
    } else {
        bytes_below(f, c - 1) + if f(c - 1).is_some() {
            1nat
        } else {
            0nat
        }
    }
}

proof fn lemma_run_step(f: spec_fn(int) -> Option<Allocation>, c: int, hi: int, v: Option<Allocation>)
    requires
        0 <= c <= hi,
        forall|j: int| c <= j <= hi ==> #[trigger] f(j) == v,
        c == 0 || f(c - 1) != v,
    ensures
        runs_below(f, hi + 1) == runs_below(f, c) + if v.is_some() {
            1nat
        } else {
            0nat
        },
        bytes_below(f, hi + 1) == bytes_below(f, c) + if v.is_some() {
            (hi - c + 1) as nat
        } else {
            0nat
        },
    decreases hi - c,
{
    if hi > c {
        lemma_run_step(f, c, hi - 1, v);
        assert(f(hi - 1) == v);
        assert(f(hi) == v);
    } else {
        assert(f(c) == v);
    }
}

impl LiveSet {
    /// The number of live regions and their bytes (both capped at
    /// `usize::MAX`).
    fn leaks(&self) -> (r: (usize, usize))
        ensures
            r.0 == 0 <==> forall|k: int| 0 <= k <= usize::MAX ==> #[trigger] self.map.at(k) == None::<
                Allocation,
            >,
            r.0 > 0 ==> r.1 > 0,
            r.0 == min(runs_below(|k: int| self.map.at(k), usize::MAX + 1) as int, usize::MAX as int),
            r.1 == min(bytes_below(|k: int| self.map.at(k), usize::MAX + 1) as int, usize::MAX as int),
    {
        proof {
            use_type_invariant(self);
        }
        let ghost f = |k: int| self.map.at(k);
        let mut it = IntervalMapIter::new(&self.map, 0usize);
        let mut blocks: usize = 0;
        let mut bytes: usize = 0;
        loop
            invariant
                it.map() == self.map,
                self.map.wf(),
                blocks > 0 ==> bytes > 0,
                f == (|k: int| self.map.at(k)),
                match it.cursor() {
                    Some(c) => (blocks == 0 <==> forall|k: int|
                        0 <= k < c as int ==> #[trigger] self.map.at(k) == None::<Allocation>),
                    None => (blocks == 0 <==> forall|k: int|
                        0 <= k <= usize::MAX ==> #[trigger] self.map.at(k) == None::<Allocation>),
                },
                match it.cursor() {
                    Some(c) => {
                        &&& blocks == min(runs_below(f, c as int) as int, usize::MAX as int)
                        &&& bytes == min(bytes_below(f, c as int) as int, usize::MAX as int)
                        &&& c > 0 ==> self.map.at(c as int) != self.map.at(c - 1)
                    },
                    None => {
                        &&& blocks == min(runs_below(f, usize::MAX + 1) as int, usize::MAX as int)
                        &&& bytes == min(bytes_below(f, usize::MAX + 1) as int, usize::MAX as int)
                    },
                },
            ensures
                blocks > 0 ==> bytes > 0,
                blocks == min(runs_below(f, usize::MAX + 1) as int, usize::MAX as int),
                bytes == min(bytes_below(f, usize::MAX + 1) as int, usize::MAX as int),
                blocks == 0 <==> forall|k: int|
                    0 <= k <= usize::MAX ==> #[trigger] self.map.at(k) == None::<Allocation>,
            decreases
                match it.cursor() {
                    Some(c) => usize::MAX + 1 - c as int,
                    None => 0,
                },
        {
            let ghost before = it.cursor();
            match it.next() {
                None => {
                    break ;
                },
                Some((run, value)) => {
                    proof {
                        let c = before.unwrap() as int;
                        assert(self.map.at(c) == value);
                        if run.lo() < c {
                            assert(self.map.at(c - 1) == value);
                        }
                        assert(run.lo() == c);
                        assert forall|j: int| c <= j <= run.hi() implies #[trigger] f(j) == value by {
                            assert(run.has(j));
                        }
                        lemma_run_step(f, c, run.hi(), value);
                    }
                    if value.is_some() {
                        let n = match run.len() {
                            Some(n) => n,
                            None => usize::MAX,
                        };
                        blocks = if blocks < usize::MAX {
                            blocks + 1
                        } else {
                            blocks
                        };
                        bytes = if bytes <= usize::MAX - n {
                            bytes + n
                        } else {
                            usize::MAX
                        };
                    }
                },
            }
        }
        (blocks, bytes)
    }
}

/// Wraps an allocator and checks every call made to it: it keeps each live
/// region in an interval map, and records the first misuse it finds.
pub struct CheckedAlloc<A: OwnedAllocator> {
    internal: A,
    allocated: LiveSet,
    options: CheckedAllocOptions,
    fault: Option<CheckFault>,
}

impl<A: OwnedAllocator> CheckedAlloc<A> {
    /// The live region that holds address `k`, if any.
    pub closed spec fn live(self, k: int) -> Option<Allocation> {
        self.allocated.map.at(k)
    }

    /// The first fault found, if any.
    pub closed spec fn failure(self) -> Option<CheckFault> {
        self.fault
    }

    pub closed spec fn inner(self) -> A {
        self.internal
    }

    pub closed spec fn ignores_leaks(self) -> bool {
        self.options.ignore_leaks
    }

    /// The live regions do not overlap, and each runs without a gap from
    /// the address its record holds.
    pub closed spec fn consistent(self) -> bool {
        regions_ok(self.allocated.map)
    }

    /// No address is live.
    pub open spec fn is_clean(self) -> bool {
        forall|k: int| 0 <= k <= usize::MAX ==> #[trigger] self.live(k) == None::<Allocation>
    }

    /// `self` and `other` hold the same live regions.
    pub open spec fn same_live(self, other: Self) -> bool {
        forall|k: int| 0 <= k <= usize::MAX ==> #[trigger] other.live(k) == self.live(k)
    }

    /// `after` is `self` with `n` more bytes live from `lo` on, under `rec`,
    /// where nothing was live before.
    pub open spec fn gains(self, after: Self, lo: int, n: int, rec: Allocation) -> bool {
        &&& n >= 1
        &&& 0 <= lo
        &&& lo + n - 1 <= usize::MAX
        &&& forall|k: int| lo <= k < lo + n ==> #[trigger] self.live(k) == None::<Allocation>
        &&& forall|k: int|
            0 <= k <= usize::MAX ==> #[trigger] after.live(k) == if lo <= k < lo + n {
                Some(rec)
            } else {
                self.live(k)
            }
    }

    /// `after` is `self` without the region of `rec`.
    pub open spec fn loses(self, after: Self, rec: Allocation) -> bool {
        forall|k: int|
            0 <= k <= usize::MAX ==> #[trigger] after.live(k) == if self.live(k) == Some(rec) {
                None
            } else {
                self.live(k)
            }
    }

    pub fn new(alloc: A, options: CheckedAllocOptions) -> (r: Self)
        ensures
            r.inner() == alloc,
            r.failure() == None::<CheckFault>,
            r.is_clean(),
            r.ignores_leaks() == options.ignore_leaks,
            r.consistent(),
    {
        let allocated = LiveSet::new();
        proof {
            use_type_invariant(&allocated);
        }
        CheckedAlloc { internal: alloc, allocated, options, fault: None }
    }

    /// The first fault found, if any.
    pub fn fault(&self) -> (r: Option<CheckFault>)
        ensures
            r == self.failure(),
    {
        self.fault
    }

    /// The leak check: `Err` with the live regions that remain, unless the
    /// checker was made to ignore leaks.
    pub fn check_leaks(&self) -> (r: Result<(), LeakReport>)
        ensures
            self.ignores_leaks() ==> r.is_ok(),
            !self.ignores_leaks() ==> (r.is_ok() <==> self.is_clean()),
            r.is_err() ==> r.unwrap_err().blocks > 0 && r.unwrap_err().bytes > 0,
            r.is_err() ==> r.unwrap_err().blocks == min(
                runs_below(|k: int| self.live(k), usize::MAX + 1) as int,
                usize::MAX as int,
            ),
            r.is_err() ==> r.unwrap_err().bytes == min(
                bytes_below(|k: int| self.live(k), usize::MAX + 1) as int,
                usize::MAX as int,
            ),
    {
        if self.options.ignore_leaks {
            return Ok(());
        }
        let (blocks, bytes) = self.allocated.leaks();
        proof {
            assert((|k: int| self.live(k)) =~= (|k: int| self.allocated.map.at(k)));
            if blocks == 0 {
                assert forall|k: int| 0 <= k <= usize::MAX implies #[trigger] self.live(k) == None::<
                    Allocation,
                > by {
                    assert(self.allocated.map.at(k) == None::<Allocation>);
                }
            } else {
                assert(!forall|k: int|
                    0 <= k <= usize::MAX ==> #[trigger] self.allocated.map.at(k) == None::<
                        Allocation,
                    >);
                let k = choose|k: int|
                    0 <= k <= usize::MAX && #[trigger] self.allocated.map.at(k) != None::<
                        Allocation,
                    >;
                assert(self.live(k) != None::<Allocation>);
            }
        }
        if blocks > 0 {
            Err(LeakReport { blocks, bytes })
        } else {
            Ok(())
        }
    }

    /// Ends the checking and returns the allocator below.
    pub fn into_internal(self) -> (r: A)
        ensures
            r == self.inner(),
    {
        self.internal
    }

    /// The allocator below.
    pub fn internal(&self) -> (r: &A)
        ensures
            *r == self.inner(),
    {
        &self.internal
    }
}

proof fn lemma_gain_ok(
    m0: TreeIntervalMap<usize, Allocation>,
    m1: TreeIntervalMap<usize, Allocation>,
    lo: int,
    hi: int,
    rec: Allocation,
)
    requires
        regions_ok(m0),
        0 <= lo <= hi <= usize::MAX,
        rec.ptr == lo,
        forall|k: int| lo <= k <= hi ==> #[trigger] m0.at(k) == None::<Allocation>,
        forall|k: int|
            0 <= k <= usize::MAX ==> #[trigger] m1.at(k) == if lo <= k <= hi {
                Some(rec)
            } else {
                m0.at(k)
            },
    ensures
        regions_ok(m1),
{
    assert forall|j: int, k: int|
        0 <= j <= k <= usize::MAX && (#[trigger] m1.at(k)).is_some() && m1.at(k).unwrap().ptr
            <= j implies #[trigger] m1.at(j) == m1.at(k) by {
        if !(lo <= k <= hi) {
            assert(m0.at(k) == m1.at(k));
            assert(m0.at(j) == m0.at(k));
        }
    }
}

proof fn lemma_lose_ok(
    m0: TreeIntervalMap<usize, Allocation>,
    m1: TreeIntervalMap<usize, Allocation>,
    rec: Allocation,
)
    requires
        regions_ok(m0),
        forall|k: int|
            0 <= k <= usize::MAX ==> #[trigger] m1.at(k) == if m0.at(k) == Some(rec) {
                None
            } else {
                m0.at(k)
            },
    ensures
        regions_ok(m1),
{
    assert forall|j: int, k: int|
        0 <= j <= k <= usize::MAX && (#[trigger] m1.at(k)).is_some() && m1.at(k).unwrap().ptr
            <= j implies #[trigger] m1.at(j) == m1.at(k) by {
        assert(m0.at(k) == m1.at(k));
        assert(m0.at(j) == m0.at(k));
    }
}

/// In a map of regions, the run of equal values around a live address is
/// the whole region and nothing else.
proof fn lemma_run_is_region(
    m: TreeIntervalMap<usize, Allocation>,
    run: Interval<usize>,
    rec: Allocation,
    ptr: int,
)
    requires
        regions_ok(m),
        0 <= ptr <= usize::MAX,
        m.at(ptr) == Some(rec),
        run.has(ptr),
        forall|j: int| run.has(j) ==> #[trigger] m.at(j) == Some(rec),
        run.lo() > 0 ==> m.at(run.lo() - 1) != Some(rec),
        run.hi() + 1 <= usize::MAX ==> m.at(run.hi() + 1) != Some(rec),
    ensures
        forall|k: int| 0 <= k <= usize::MAX ==> (run.has(k) <==> #[trigger] m.at(k) == Some(rec)),
        run.lo() == rec.ptr,
{
    assert forall|k: int| 0 <= k <= usize::MAX && #[trigger] m.at(k) == Some(rec) implies run.has(k) by {
        assert(rec.ptr <= k);
        assert(rec.ptr <= ptr);
        if k > run.hi() {
            assert(m.at(run.hi() + 1) == m.at(k));
        }
        if k < run.lo() {
            assert(m.at(run.lo() - 1) == m.at(ptr));
        }
    }
    assert(m.at(rec.ptr as int) == Some(rec));
    assert(m.at(run.lo()) == Some(rec));
}

impl<A: OwnedAllocator> CheckedAlloc<A> {
    /// Enters a region that the allocator below has just given out.
    fn handle_allocate(&mut self, ptr: usize, requested_size: usize, align: PowerOfTwo) -> (r: Result<usize, CheckFault>)
        ensures
            final(self).inner() == old(self).inner(),
            final(self).failure() == old(self).failure(),
            final(self).ignores_leaks() == old(self).ignores_leaks(),
            r.is_err() <==> allocate_fault(*old(self), old(self).inner(), ptr, requested_size, align).is_some(),
            r.is_err() ==> r == Err::<usize, CheckFault>(
                allocate_fault(*old(self), old(self).inner(), ptr, requested_size, align).unwrap(),
            ),
            match r {
                Ok(n) => {
                    &&& ptr % align.value() == 0
                    &&& n >= requested_size
                    &&& n == old(self).inner().usable_spec(requested_size, align)
                    &&& old(self).gains(
                        *final(self),
                        ptr as int,
                        n as int,
                        Allocation { ptr, requested_size, align },
                    )
                },
                Err(_) => old(self).same_live(*final(self)),
            },
    {
        if !align.is_aligned_ptr_mut(ptr) {
            return Err(CheckFault::MisalignedResult);
        }
        let real_size = self.internal.usable_size(requested_size, align);
        if real_size == 0 || real_size < requested_size || ptr > usize::MAX - (real_size - 1) {
            return Err(CheckFault::BadUsableSize);
        }
        let span = interval(ptr, ptr + (real_size - 1));
        if !self.allocated.is_free(span) {
            proof {
                let k = choose|k: int| span.has(k) && self.allocated.map.at(k) != None::<Allocation>;
                assert(self.live(k).is_some());
            }
            return Err(CheckFault::Overlap);
        }
        self.allocated.insert(span, Allocation { ptr, requested_size, align });
        Ok(real_size)
    }

    /// Takes out the live region that `ptr` points into, after checking that
    /// it may be handed back with `size` and `align`.
    fn handle_deallocate(&mut self, ptr: usize, size: usize, align: PowerOfTwo) -> (r: Result<(Interval<usize>, Allocation), CheckFault>)
        ensures
            final(self).inner() == old(self).inner(),
            final(self).failure() == old(self).failure(),
            final(self).ignores_leaks() == old(self).ignores_leaks(),
            ptr % align.value() != 0 ==> r == Err::<(Interval<usize>, Allocation), CheckFault>(
                CheckFault::UnalignedPointer,
            ),
            ptr % align.value() == 0 && old(self).live(ptr as int).is_none() ==> r == Err::<
                (Interval<usize>, Allocation),
                CheckFault,
            >(CheckFault::NotLive),
            ptr % align.value() == 0 && old(self).live(ptr as int).is_some() && old(self).live(
                ptr as int,
            ).unwrap().align != align ==> r == Err::<(Interval<usize>, Allocation), CheckFault>(
                CheckFault::WrongAlign,
            ),
            r.is_err() <==> hand_back_fault(*old(self), ptr, size, align).is_some(),
            r.is_err() ==> r == Err::<(Interval<usize>, Allocation), CheckFault>(
                hand_back_fault(*old(self), ptr, size, align).unwrap(),
            ),
            match r {
                Ok((run, rec)) => {
                    &&& old(self).live(ptr as int) == Some(rec)
                    &&& run.lo() == rec.ptr
                    &&& rec.align == align
                    &&& rec.requested_size <= size
                    &&& run.wf()
                    &&& forall|k: int|
                        0 <= k <= usize::MAX ==> (run.has(k) <==> #[trigger] old(self).live(k)
                            == Some(rec))
                    &&& old(self).loses(*final(self), rec)
                },
                Err(_) => old(self).same_live(*final(self)),
            },
    {
        if !align.is_aligned_ptr_mut(ptr) {
            return Err(CheckFault::UnalignedPointer);
        }
        match self.allocated.find(ptr) {
            None => Err(CheckFault::NotLive),
            Some((run, allocation)) => {
                if allocation.align != align {
                    return Err(CheckFault::WrongAlign);
                }
                if allocation.requested_size > size {
                    return Err(CheckFault::WrongSize);
                }
                if size > self.internal.usable_size(allocation.requested_size, align) {
                    return Err(CheckFault::WrongSize);
                }
                self.allocated.remove(run, allocation);
                Ok((run, allocation))
            },
        }
    }
}

/// `after` is `self` with the region of `old_rec` gone and `n` bytes live
/// from `lo` on under `rec`; those bytes were free or in the old region.
pub open spec fn moves<A: OwnedAllocator>(
    before: CheckedAlloc<A>,
    after: CheckedAlloc<A>,
    old_rec: Allocation,
    lo: int,
    n: int,
    rec: Allocation,
) -> bool {
    &&& n >= 1
    &&& 0 <= lo
    &&& lo + n - 1 <= usize::MAX
    &&& forall|k: int|
        lo <= k < lo + n ==> #[trigger] before.live(k) == None::<Allocation> || before.live(k) == Some(
            old_rec,
        )
    &&& forall|k: int|
        0 <= k <= usize::MAX ==> #[trigger] after.live(k) == if lo <= k < lo + n {
            Some(rec)
        } else if before.live(k) == Some(old_rec) {
            None
        } else {
            before.live(k)
        }
}

/// The checks that `deallocate`, `reallocate` and `reallocate_inplace` make
/// of a region handed back, in order: the fault that the first failing one
/// gives, if any fails.
pub open spec fn hand_back_fault<A: OwnedAllocator>(
    c: CheckedAlloc<A>,
    ptr: usize,
    size: usize,
    align: PowerOfTwo,
) -> Option<CheckFault> {
    if ptr % align.value() != 0 {
        Some(CheckFault::UnalignedPointer)
    } else if c.live(ptr as int).is_none() {
        Some(CheckFault::NotLive)
    } else if c.live(ptr as int).unwrap().align != align {
        Some(CheckFault::WrongAlign)
    } else if size < c.live(ptr as int).unwrap().requested_size || size > c.inner().usable_spec(
        c.live(ptr as int).unwrap().requested_size,
        align,
    ) {
        Some(CheckFault::WrongSize)
    } else {
        None
    }
}

/// The checks made of a region that the allocator `inner` below has just
/// given out at `ptr` for `requested` bytes, against the live regions of
/// `c`, in order: the fault that the first failing one gives, if any fails.
pub open spec fn allocate_fault<A: OwnedAllocator>(
    c: CheckedAlloc<A>,
    inner: A,
    ptr: usize,
    requested: usize,
    align: PowerOfTwo,
) -> Option<CheckFault> {
    let n = inner.usable_spec(requested, align);
    if ptr % align.value() != 0 {
        Some(CheckFault::MisalignedResult)
    } else if n == 0 || n < requested || ptr + n - 1 > usize::MAX {
        Some(CheckFault::BadUsableSize)
    } else if exists|k: int| ptr <= k < ptr + n && (#[trigger] c.live(k)).is_some() {
        Some(CheckFault::Overlap)
    } else {
        None
    }
}

proof fn lemma_fault_from<A: OwnedAllocator>(
    a: CheckedAlloc<A>,
    b: CheckedAlloc<A>,
    inner: A,
    ptr: usize,
    requested: usize,
    align: PowerOfTwo,
)
    requires
        a.allocated == b.allocated,
    ensures
        allocate_fault(a, inner, ptr, requested, align) == allocate_fault(b, inner, ptr, requested, align),
{
    let n = inner.usable_spec(requested, align);
    if exists|k: int| ptr <= k < ptr + n && (#[trigger] a.live(k)).is_some() {
        let k = choose|k: int| ptr <= k < ptr + n && (#[trigger] a.live(k)).is_some();
        assert(b.live(k) == a.live(k));
    }
    if exists|k: int| ptr <= k < ptr + n && (#[trigger] b.live(k)).is_some() {
        let k = choose|k: int| ptr <= k < ptr + n && (#[trigger] b.live(k)).is_some();
        assert(b.live(k) == a.live(k));
    }
}

proof fn lemma_gains_from<A: OwnedAllocator>(
    a: CheckedAlloc<A>,
    b: CheckedAlloc<A>,
    c: CheckedAlloc<A>,
    lo: int,
    n: int,
    rec: Allocation,
)
    requires
        a.allocated == b.allocated,
        b.gains(c, lo, n, rec),
    ensures
        a.gains(c, lo, n, rec),
{
    assert forall|k: int| lo <= k < lo + n implies #[trigger] a.live(k) == None::<Allocation> by {
        assert(b.live(k) == None::<Allocation>);
    }
    assert forall|k: int| 0 <= k <= usize::MAX implies #[trigger] c.live(k) == if lo <= k < lo + n {
        Some(rec)
    } else {
        a.live(k)
    } by {
        assert(a.live(k) == b.live(k));
    }
}

proof fn lemma_same_from<A: OwnedAllocator>(
    a: CheckedAlloc<A>,
    b: CheckedAlloc<A>,
    c: CheckedAlloc<A>,
    d: CheckedAlloc<A>,
)
    requires
        a.allocated == b.allocated,
        b.same_live(c),
        c.allocated == d.allocated,
    ensures
        a.same_live(d),
{
    assert forall|k: int| 0 <= k <= usize::MAX implies #[trigger] d.live(k) == a.live(k) by {
        assert(a.live(k) == b.live(k));
        assert(c.live(k) == d.live(k));
    }
}

proof fn lemma_loses_from<A: OwnedAllocator>(
    a: CheckedAlloc<A>,
    b: CheckedAlloc<A>,
    c: CheckedAlloc<A>,
    rec: Allocation,
)
    requires
        a.loses(b, rec),
        b.allocated == c.allocated,
    ensures
        a.loses(c, rec),
{
    assert forall|k: int| 0 <= k <= usize::MAX implies #[trigger] c.live(k) == if a.live(k) == Some(
        rec,
    ) {
        None
    } else {
        a.live(k)
    } by {
        assert(b.live(k) == c.live(k));
    }
}

proof fn lemma_moves_from<A: OwnedAllocator>(
    a: CheckedAlloc<A>,
    b: CheckedAlloc<A>,
    c: CheckedAlloc<A>,
    d: CheckedAlloc<A>,
    old_rec: Allocation,
    lo: int,
    n: int,
    rec: Allocation,
)
    requires
        a.loses(b, old_rec),
        b.allocated == c.allocated,
        c.gains(d, lo, n, rec),
    ensures
        moves(a, d, old_rec, lo, n, rec),
{
    assert forall|k: int| lo <= k < lo + n implies #[trigger] a.live(k) == None::<Allocation> || a.live(k)
        == Some(old_rec) by {
        assert(c.live(k) == None::<Allocation>);
        assert(b.live(k) == c.live(k));
        assert(b.live(k) == if a.live(k) == Some(old_rec) {
            None
        } else {
            a.live(k)
        });
    }
    assert forall|k: int| 0 <= k <= usize::MAX implies #[trigger] d.live(k) == if lo <= k < lo + n {
        Some(rec)
    } else if a.live(k) == Some(old_rec) {
        None
    } else {
        a.live(k)
    } by {
        assert(b.live(k) == c.live(k));
        assert(b.live(k) == if a.live(k) == Some(old_rec) {
            None
        } else {
            a.live(k)
        });
    }
}

impl<A: OwnedAllocator> CheckedAlloc<A> {
    /// The work of `allocate`; the trait method adds that the live regions stay
    /// consistent.
    fn allocate_checked(&mut self, size: usize, align: PowerOfTwo) -> (r: usize)
        ensures
            old(self).failure().is_some() ==> r == 0 && *final(self) == *old(self),
            final(self).ignores_leaks() == old(self).ignores_leaks(),
            old(self).failure().is_none() ==> {
                &&& size == 0 ==> final(self).failure() == Some(CheckFault::ZeroSize)
                    && final(self).inner() == old(self).inner()
                &&& final(self).failure().is_some() ==> r == 0 && old(self).same_live(*final(self))
                &&& final(self).failure().is_none() && r == 0 ==> old(self).same_live(*final(self))
                &&& final(self).failure().is_none() && r != 0 ==> {
                    &&& r % align.value() == 0
                    &&& allocate_fault(*old(self), final(self).inner(), r, size, align).is_none()
                    &&& old(self).gains(
                        *final(self),
                        r as int,
                        final(self).inner().usable_spec(size, align) as int,
                        Allocation { ptr: r, requested_size: size, align },
                    )
                }
                &&& size > 0 && final(self).failure().is_some() ==> exists|p: usize|
                    #[trigger] allocate_fault(*old(self), final(self).inner(), p, size, align)
                        == final(self).failure()
            },
    {
        if self.fault.is_some() {
            return 0;
        }
        if size == 0 {
            self.fault = Some(CheckFault::ZeroSize);
            return 0;
        }
        let ret = self.internal.allocate(size, align);
        if ret == 0 {
            proof {
                lemma_same_from(*old(self), *self, *self, *self);
            }
            return ret;
        }
        let ghost mid = *self;
        match self.handle_allocate(ret, size, align) {
            Ok(n) => {
                proof {
                    lemma_gains_from(
                        *old(self),
                        mid,
                        *self,
                        ret as int,
                        n as int,
                        Allocation { ptr: ret, requested_size: size, align },
                    );
                    lemma_fault_from(*old(self), mid, mid.inner(), ret, size, align);
                }
                ret
            },
            Err(f) => {
                let ghost after = *self;
                self.fault = Some(f);
                proof {
                    lemma_same_from(*old(self), mid, after, *self);
                    lemma_fault_from(*old(self), mid, mid.inner(), ret, size, align);
                }
                0
            },
        }
    }

    /// The work of `reallocate`; the trait method adds that the live regions stay
    /// consistent.
    fn reallocate_checked(&mut self, ptr: usize, old_size: usize, size: usize, align: PowerOfTwo) -> (r: usize)
        ensures
            old(self).failure().is_some() ==> r == 0 && *final(self) == *old(self),
            final(self).ignores_leaks() == old(self).ignores_leaks(),
            old(self).failure().is_none() ==> {
                &&& size == 0 ==> final(self).failure() == Some(CheckFault::ZeroSize) && old(self).same_live(*final(self)) && final(self).inner() == old(self).inner()
                &&& size > 0 && hand_back_fault(*old(self), ptr, old_size, align).is_some()
                    ==> final(self).failure() == hand_back_fault(*old(self), ptr, old_size, align)
                    && old(self).same_live(*final(self)) && final(self).inner() == old(self).inner()
                &&& final(self).failure().is_some() ==> r == 0
                &&& final(self).failure().is_none() ==> {
                    let rec = old(self).live(ptr as int).unwrap();
                    &&& hand_back_fault(*old(self), ptr, old_size, align).is_none()
                    &&& r == 0 ==> old(self).same_live(*final(self))
                    &&& r != 0 ==> r % align.value() == 0 && moves(
                        *old(self),
                        *final(self),
                        rec,
                        r as int,
                        final(self).inner().usable_spec(size, align) as int,
                        Allocation { ptr: r, requested_size: size, align },
                    )
                }
            },
    {
        if self.fault.is_some() {
            return 0;
        }
        if size == 0 {
            self.fault = Some(CheckFault::ZeroSize);
            return 0;
        }
        let ghost before = *self;
        match self.handle_deallocate(ptr, old_size, align) {
            Err(f) => {
                let ghost after = *self;
                self.fault = Some(f);
                proof {
                    lemma_same_from(before, before, after, *self);
                }
                0
            },
            Ok((region, rec)) => {
                let ghost middle = *self;
                let ret = self.internal.reallocate(ptr, old_size, size, align);
                if ret == 0 {
                    proof {
                        assert forall|k: int| region.has(k) implies #[trigger] self.allocated.map.at(k)
                            == None::<Allocation> by {
                            assert(before.live(k) == Some(rec));
                            assert(middle.live(k) == None::<Allocation>);
                        }
                    }
                    let ghost pre = *self;
                    self.allocated.insert(region, rec);
                    proof {
                        assert forall|k: int| 0 <= k <= usize::MAX implies #[trigger] self.live(k)
                            == before.live(k) by {
                            assert(middle.live(k) == pre.live(k));
                            assert(region.has(k) <==> before.live(k) == Some(rec));
                        }
                    }
                    return 0;
                }
                let ghost mid = *self;
                match self.handle_allocate(ret, size, align) {
                    Ok(n) => {
                        proof {
                            lemma_moves_from(
                                before,
                                middle,
                                mid,
                                *self,
                                rec,
                                ret as int,
                                n as int,
                                Allocation { ptr: ret, requested_size: size, align },
                            );
                        }
                        ret
                    },
                    Err(f) => {
                        self.fault = Some(f);
                        0
                    },
                }
            },
        }
    }

    /// The work of `reallocate_inplace`; the trait method adds that the live regions stay
    /// consistent.
    fn reallocate_inplace_checked(&mut self, ptr: usize, old_size: usize, size: usize, align: PowerOfTwo) -> (r: usize)
        ensures
            old(self).failure().is_some() ==> r == old_size && *final(self) == *old(self),
            final(self).ignores_leaks() == old(self).ignores_leaks(),
            old(self).failure().is_none() ==> {
                &&& size == 0 ==> final(self).failure() == Some(CheckFault::ZeroSize) && old(self).same_live(*final(self)) && final(self).inner() == old(self).inner()
                &&& size > 0 && hand_back_fault(*old(self), ptr, old_size, align).is_some()
                    ==> final(self).failure() == hand_back_fault(*old(self), ptr, old_size, align)
                    && old(self).same_live(*final(self)) && final(self).inner() == old(self).inner()
                &&& final(self).failure().is_some() ==> r == old_size
                &&& final(self).failure().is_none() ==> {
                    let rec = old(self).live(ptr as int).unwrap();
                    &&& hand_back_fault(*old(self), ptr, old_size, align).is_none()
                    &&& r == old_size || r == size
                    &&& moves(
                        *old(self),
                        *final(self),
                        rec,
                        ptr as int,
                        final(self).inner().usable_spec(r, align) as int,
                        Allocation { ptr, requested_size: r, align },
                    )
                }
            },
    {
        if self.fault.is_some() {
            return old_size;
        }
        if size == 0 {
            self.fault = Some(CheckFault::ZeroSize);
            return old_size;
        }
        let ghost before = *self;
        match self.handle_deallocate(ptr, old_size, align) {
            Err(f) => {
                let ghost after = *self;
                self.fault = Some(f);
                proof {
                    lemma_same_from(before, before, after, *self);
                }
                old_size
            },
            Ok((_, rec)) => {
                let ghost middle = *self;
                let actual_size = self.internal.reallocate_inplace(ptr, old_size, size, align);
                if actual_size != size && actual_size != old_size {
                    self.fault = Some(CheckFault::BadInplaceSize);
                    return old_size;
                }
                let ghost mid = *self;
                match self.handle_allocate(ptr, actual_size, align) {
                    Ok(n) => {
                        proof {
                            lemma_moves_from(
                                before,
                                middle,
                                mid,
                                *self,
                                rec,
                                ptr as int,
                                n as int,
                                Allocation { ptr, requested_size: actual_size, align },
                            );
                        }
                        actual_size
                    },
                    Err(f) => {
                        self.fault = Some(f);
                        old_size
                    },
                }
            },
        }
    }

    /// The work of `deallocate`; the trait method adds that the live regions stay
    /// consistent.
    fn deallocate_checked(&mut self, ptr: usize, old_size: usize, align: PowerOfTwo)
        ensures
            old(self).failure().is_some() ==> *final(self) == *old(self),
            final(self).ignores_leaks() == old(self).ignores_leaks(),
            old(self).failure().is_none() ==> {
                &&& old_size == 0 ==> final(self).failure() == Some(CheckFault::ZeroSize)
                    && final(self).inner() == old(self).inner()
                &&& old_size > 0 && hand_back_fault(*old(self), ptr, old_size, align).is_some()
                    ==> final(self).failure() == hand_back_fault(*old(self), ptr, old_size, align)
                    && final(self).inner() == old(self).inner()
                &&& old_size > 0 && hand_back_fault(*old(self), ptr, old_size, align).is_none()
                    ==> final(self).failure().is_none()
                &&& final(self).failure().is_some() ==> old(self).same_live(*final(self))
                &&& final(self).failure().is_none() ==> {
                    &&& hand_back_fault(*old(self), ptr, old_size, align).is_none()
                    &&& old(self).loses(*final(self), old(self).live(ptr as int).unwrap())
                }
            },
    {
        if self.fault.is_some() {
            return;
        }
        if old_size == 0 {
            self.fault = Some(CheckFault::ZeroSize);
            return;
        }
        match self.handle_deallocate(ptr, old_size, align) {
            Err(f) => {
                let ghost after = *self;
                self.fault = Some(f);
                proof {
                    lemma_same_from(*old(self), *old(self), after, *self);
                }
            },
            Ok((_, rec)) => {
                let ghost after = *self;
                self.internal.deallocate(ptr, old_size, align);
                proof {
                    lemma_loses_from(*old(self), after, *self, rec);
                }
            },
        }
    }
}

impl<A: OwnedAllocator> OwnedAllocator for CheckedAlloc<A> {
    fn allocate(&mut self, size: usize, align: PowerOfTwo) -> (r: usize)
        ensures
            old(self).failure().is_some() ==> r == 0 && *final(self) == *old(self),
            final(self).ignores_leaks() == old(self).ignores_leaks(),
            old(self).failure().is_none() ==> {
                &&& size == 0 ==> final(self).failure() == Some(CheckFault::ZeroSize)
                    && final(self).inner() == old(self).inner()
                &&& final(self).failure().is_some() ==> r == 0 && old(self).same_live(*final(self))
                &&& final(self).failure().is_none() && r == 0 ==> old(self).same_live(*final(self))
                &&& final(self).failure().is_none() && r != 0 ==> {
                    &&& r % align.value() == 0
                    &&& allocate_fault(*old(self), final(self).inner(), r, size, align).is_none()
                    &&& old(self).gains(
                        *final(self),
                        r as int,
                        final(self).inner().usable_spec(size, align) as int,
                        Allocation { ptr: r, requested_size: size, align },
                    )
                }
                &&& size > 0 && final(self).failure().is_some() ==> exists|p: usize|
                    #[trigger] allocate_fault(*old(self), final(self).inner(), p, size, align)
                        == final(self).failure()
            },
            final(self).consistent(),
    {
        let r = self.allocate_checked(size, align);
        proof {
            use_type_invariant(&self.allocated);
        }
        r
    }

    fn reallocate(&mut self, ptr: usize, old_size: usize, size: usize, align: PowerOfTwo) -> (r: usize)
        ensures
            old(self).failure().is_some() ==> r == 0 && *final(self) == *old(self),
            final(self).ignores_leaks() == old(self).ignores_leaks(),
            old(self).failure().is_none() ==> {
                &&& size == 0 ==> final(self).failure() == Some(CheckFault::ZeroSize) && old(self).same_live(*final(self)) && final(self).inner() == old(self).inner()
                &&& size > 0 && hand_back_fault(*old(self), ptr, old_size, align).is_some()
                    ==> final(self).failure() == hand_back_fault(*old(self), ptr, old_size, align)
                    && old(self).same_live(*final(self)) && final(self).inner() == old(self).inner()
                &&& final(self).failure().is_some() ==> r == 0
                &&& final(self).failure().is_none() ==> {
                    let rec = old(self).live(ptr as int).unwrap();
                    &&& hand_back_fault(*old(self), ptr, old_size, align).is_none()
                    &&& r == 0 ==> old(self).same_live(*final(self))
                    &&& r != 0 ==> r % align.value() == 0 && moves(
                        *old(self),
                        *final(self),
                        rec,
                        r as int,
                        final(self).inner().usable_spec(size, align) as int,
                        Allocation { ptr: r, requested_size: size, align },
                    )
                }
            },
            final(self).consistent(),
    {
        let r = self.reallocate_checked(ptr, old_size, size, align);
        proof {
            use_type_invariant(&self.allocated);
        }
        r
    }

    fn reallocate_inplace(&mut self, ptr: usize, old_size: usize, size: usize, align: PowerOfTwo) -> (r: usize)
        ensures
            old(self).failure().is_some() ==> r == old_size && *final(self) == *old(self),
            final(self).ignores_leaks() == old(self).ignores_leaks(),
            old(self).failure().is_none() ==> {
                &&& size == 0 ==> final(self).failure() == Some(CheckFault::ZeroSize) && old(self).same_live(*final(self)) && final(self).inner() == old(self).inner()
                &&& size > 0 && hand_back_fault(*old(self), ptr, old_size, align).is_some()
                    ==> final(self).failure() == hand_back_fault(*old(self), ptr, old_size, align)
                    && old(self).same_live(*final(self)) && final(self).inner() == old(self).inner()
                &&& final(self).failure().is_some() ==> r == old_size
                &&& final(self).failure().is_none() ==> {
                    let rec = old(self).live(ptr as int).unwrap();
                    &&& hand_back_fault(*old(self), ptr, old_size, align).is_none()
                    &&& r == old_size || r == size
                    &&& moves(
                        *old(self),
                        *final(self),
                        rec,
                        ptr as int,
                        final(self).inner().usable_spec(r, align) as int,
                        Allocation { ptr, requested_size: r, align },
                    )
                }
            },
            final(self).consistent(),
    {
        let r = self.reallocate_inplace_checked(ptr, old_size, size, align);
        proof {
            use_type_invariant(&self.allocated);
        }
        r
    }

    fn deallocate(&mut self, ptr: usize, old_size: usize, align: PowerOfTwo)
        ensures
            old(self).failure().is_some() ==> *final(self) == *old(self),
            final(self).ignores_leaks() == old(self).ignores_leaks(),
            old(self).failure().is_none() ==> {
                &&& old_size == 0 ==> final(self).failure() == Some(CheckFault::ZeroSize)
                    && final(self).inner() == old(self).inner()
                &&& old_size > 0 && hand_back_fault(*old(self), ptr, old_size, align).is_some()
                    ==> final(self).failure() == hand_back_fault(*old(self), ptr, old_size, align)
                    && final(self).inner() == old(self).inner()
                &&& old_size > 0 && hand_back_fault(*old(self), ptr, old_size, align).is_none()
                    ==> final(self).failure().is_none()
                &&& final(self).failure().is_some() ==> old(self).same_live(*final(self))
                &&& final(self).failure().is_none() ==> {
                    &&& hand_back_fault(*old(self), ptr, old_size, align).is_none()
                    &&& old(self).loses(*final(self), old(self).live(ptr as int).unwrap())
                }
            },
            final(self).consistent(),
    {
        self.deallocate_checked(ptr, old_size, align);
        proof {
            use_type_invariant(&self.allocated);
        }
    }

    /// Asked of the allocator below.
    fn extendable_size(&self, ptr: usize, old_size: usize, align: PowerOfTwo) -> (r: usize) {
        self.internal.extendable_size(ptr, old_size, align)
    }

    open spec fn usable_spec(&self, size: usize, align: PowerOfTwo) -> usize {
        self.inner().usable_spec(size, align)
    }

    /// Asked of the allocator below.
    fn usable_size(&self, size: usize, align: PowerOfTwo) -> (r: usize) {
        self.internal.usable_size(size, align)
    }
}

impl<A: ShareableAllocator> ShareableAllocator for CheckedAlloc<A> {

}

/// Handing a region back right after the checker gave it out passes every
/// check, so no fault is recorded, and the live regions are as they were
/// before: nothing leaks. `c1` is `c0` after `allocate(n, align)` returned
/// `p != 0` with no fault, as `allocate` states, and `c2` is `c1` after
/// `deallocate(p, n, align)`, as `deallocate` states.
pub proof fn lemma_allocate_deallocate<A: OwnedAllocator>(
    c0: CheckedAlloc<A>,
    c1: CheckedAlloc<A>,
    c2: CheckedAlloc<A>,
    p: usize,
    n: usize,
    align: PowerOfTwo,
)
    requires
        c0.consistent(),
        n > 0,
        c1.failure().is_none(),
        p != 0,
        p % align.value() == 0,
        allocate_fault(c0, c1.inner(), p, n, align).is_none(),
        c0.gains(
            c1,
            p as int,
            c1.inner().usable_spec(n, align) as int,
            Allocation { ptr: p, requested_size: n, align },
        ),
        hand_back_fault(c1, p, n, align).is_none() ==> c2.failure().is_none(),
        c2.failure().is_none() ==> c1.loses(c2, c1.live(p as int).unwrap()),
    ensures
        hand_back_fault(c1, p, n, align).is_none(),
        c2.failure().is_none(),
        c0.same_live(c2),
{
    let rec = Allocation { ptr: p, requested_size: n, align };
    let m = c1.inner().usable_spec(n, align) as int;
    assert(c1.live(p as int) == Some(rec));
    assert forall|k: int| 0 <= k <= usize::MAX implies #[trigger] c2.live(k) == c0.live(k) by {
        assert(c2.live(k) == if c1.live(k) == Some(rec) {
            None
        } else {
            c1.live(k)
        });
        if !(p <= k < p + m) && c0.live(k) == Some(rec) {
            assert(c0.allocated.map.at(k) == Some(rec));
            assert(c0.allocated.map.at(p as int) == c0.allocated.map.at(k));
            assert(c0.live(p as int) == None::<Allocation>);
        }
    }
}

} // verus!
