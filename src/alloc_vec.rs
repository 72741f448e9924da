use crate::alloc_raw_vec::{AllocRawVec, ReserveError};
use crate::allocator::OwnedAllocator;
use crate::interval_map::ValueEq;
use vstd::prelude::*;

verus! {

/// A growable sequence whose buffer is reserved from the allocator `A`.
/// The values are kept in a `Vec` of their own; the buffer in `A` is the
/// room they stand for, with `len <= capacity` at all times.
pub struct AllocVec<T, A: OwnedAllocator> {
    buf: AllocRawVec<T, A>,
    items: Vec<T>,
}

impl<T, A: OwnedAllocator> View for AllocVec<T, A> {
    type V = Seq<T>;

    closed spec fn view(&self) -> Seq<T> {
        self.items@
    }
}

impl<T, A: OwnedAllocator> AllocVec<T, A> {
    /// The buffer's size in bytes fits in `usize`.
    pub closed spec fn buf_ok(self) -> bool {
        self.buf.wf()
    }

    pub open spec fn wf(self) -> bool {
        self.buf_ok() && self@.len() <= self.cap_spec()
    }

    /// How many values there is room for.
    pub closed spec fn cap_spec(self) -> nat {
        self.buf.capacity()
    }

    pub closed spec fn alloc_spec(self) -> A {
        self.buf.alloc_spec()
    }

    pub fn new() -> (r: Self)
        where
            A: Default,
        ensures
            r.wf(),
            r@ == Seq::<T>::empty(),
            vstd::layout::size_of::<T>() != 0 ==> r.cap_spec() == 0,
            vstd::layout::size_of::<T>() == 0 ==> r.cap_spec() == usize::MAX,
    {
        AllocVec { buf: AllocRawVec::new(A::default()), items: Vec::new() }
    }

    pub fn with_allocator(alloc: A) -> (r: Self)
        ensures
            r.wf(),
            r@ == Seq::<T>::empty(),
            r.alloc_spec() == alloc,
            vstd::layout::size_of::<T>() != 0 ==> r.cap_spec() == 0,
            vstd::layout::size_of::<T>() == 0 ==> r.cap_spec() == usize::MAX,
    {
        AllocVec { buf: AllocRawVec::new(alloc), items: Vec::new() }
    }

    pub fn capacity(&self) -> (r: usize)
        ensures
            r == self.cap_spec(),
    {
        self.buf.cap()
    }

    pub fn len(&self) -> (r: usize)
        ensures
            r == self@.len(),
    {
        self.items.len()
    }

    pub fn is_empty(&self) -> (r: bool)
        ensures
            r == (self@.len() == 0),
    {
        self.items.len() == 0
    }

    /// Makes room for `additional` more values.
    pub fn reserve(&mut self, additional: usize) -> (r: Result<(), ReserveError>)
        requires
            old(self).wf(),
        ensures
            final(self).wf(),
            final(self)@ == old(self)@,
            r.is_ok() ==> final(self).cap_spec() >= old(self)@.len() + additional,
            old(self).cap_spec() - old(self)@.len() >= additional ==> r.is_ok() && final(self).cap_spec()
                == old(self).cap_spec(),
            old(self)@.len() + additional > usize::MAX ==> r.is_err(),
            r.is_err() ==> final(self).cap_spec() == old(self).cap_spec(),
    {
        proof {
            self.buf.lemma_capacity_bound();
        }
        self.buf.reserve(self.items.len(), additional)
    }

    /// Makes room for exactly `additional` more values, if there is not room
    /// for them already.
    pub fn reserve_exact(&mut self, additional: usize) -> (r: Result<(), ReserveError>)
        requires
            old(self).wf(),
        ensures
            final(self).wf(),
            final(self)@ == old(self)@,
            old(self).cap_spec() - old(self)@.len() >= additional ==> r.is_ok() && final(self).cap_spec()
                == old(self).cap_spec(),
            r.is_ok() && old(self).cap_spec() - old(self)@.len() < additional ==> final(self).cap_spec()
                == old(self)@.len() + additional,
            old(self)@.len() + additional > usize::MAX ==> r.is_err(),
            r.is_err() ==> final(self).cap_spec() == old(self).cap_spec(),
    {
        self.buf.reserve_exact(self.items.len(), additional)
    }

    /// Shrinks the buffer to the length.
    pub fn shrink_to_fit(&mut self) -> (r: Result<(), ReserveError>)
        requires
            old(self).wf(),
        ensures
            final(self).wf(),
            final(self)@ == old(self)@,
            r.is_ok() && vstd::layout::size_of::<T>() != 0 ==> final(self).cap_spec() == old(self)@.len(),
            r.is_err() ==> final(self).cap_spec() == old(self).cap_spec(),
            old(self)@.len() == 0 || old(self)@.len() == old(self).cap_spec()
                || vstd::layout::size_of::<T>() == 0 ==> r.is_ok(),
    {
        self.buf.shrink_to_fit(self.items.len())
    }

    /// Drops the values from index `len` on.
    pub fn truncate(&mut self, len: usize)
        requires
            old(self).wf(),
        ensures
            final(self).wf(),
            final(self).cap_spec() == old(self).cap_spec(),
            len < old(self)@.len() ==> final(self)@ == old(self)@.subrange(0, len as int),
            len >= old(self)@.len() ==> final(self)@ == old(self)@,
    {
        self.items.truncate(len);
    }

    pub fn clear(&mut self)
        requires
            old(self).wf(),
        ensures
            final(self).wf(),
            final(self).cap_spec() == old(self).cap_spec(),
            final(self)@ == Seq::<T>::empty(),
    {
        self.items.clear();
    }

    pub fn as_slice(&self) -> (r: &[T])
        ensures
            r@ == self@,
    {
        self.items.as_slice()
    }

    pub fn as_mut_slice(&mut self) -> (r: &mut [T])
        ensures
            r@ == old(self)@,
            final(self)@ == final(r)@,
            final(self).cap_spec() == old(self).cap_spec(),
    {
        self.items.as_mut_slice()
    }

    /// The value at `index`.
    pub fn get(&self, index: usize) -> (r: &T)
        requires
            index < self@.len(),
        ensures
            *r == self@[index as int],
    {
        &self.items[index]
    }

    /// Removes the value at `index`, putting the last value in its place.
    pub fn swap_remove(&mut self, index: usize) -> (r: T)
        requires
            old(self).wf(),
            index < old(self)@.len(),
        ensures
            final(self).wf(),
            final(self).cap_spec() == old(self).cap_spec(),
            r == old(self)@[index as int],
            final(self)@ == old(self)@.update(index as int, old(self)@.last()).drop_last(),
    {
        self.items.swap_remove(index)
    }

    /// Puts `element` at `index`, moving the later values up by one.
    pub fn insert(&mut self, index: usize, element: T) -> (r: Result<(), ReserveError>)
        requires
            old(self).wf(),
            index <= old(self)@.len(),
        ensures
            final(self).wf(),
            r.is_ok() ==> final(self)@ == old(self)@.insert(index as int, element),
            r.is_err() ==> final(self)@ == old(self)@,
            old(self)@.len() < old(self).cap_spec() ==> r.is_ok() && final(self).cap_spec() == old(self).cap_spec(),
    {
        let len = self.items.len();
        if len == self.buf.cap() {
            match self.buf.reserve(len, 1) {
                Ok(()) => {},
                Err(e) => {
                    return Err(e);
                },
            }
        }
        self.items.insert(index, element);
        Ok(())
    }

    /// Takes out the value at `index`, moving the later values down by one.
    pub fn remove(&mut self, index: usize) -> (r: T)
        requires
            old(self).wf(),
            index < old(self)@.len(),
        ensures
            final(self).wf(),
            final(self).cap_spec() == old(self).cap_spec(),
            r == old(self)@[index as int],
            final(self)@ == old(self)@.remove(index as int),
    {
        self.items.remove(index)
    }

    /// Appends `value`, growing the buffer if it is full.
    pub fn push(&mut self, value: T) -> (r: Result<(), ReserveError>)
        requires
            old(self).wf(),
        ensures
            final(self).wf(),
            r.is_ok() ==> final(self)@ == old(self)@.push(value),
            r.is_err() ==> final(self)@ == old(self)@,
            old(self)@.len() < old(self).cap_spec() ==> r.is_ok() && final(self).cap_spec() == old(self).cap_spec(),
    {
        let len = self.items.len();
        if len == self.buf.cap() {
            match self.buf.reserve(len, 1) {
                Ok(()) => {},
                Err(e) => {
                    return Err(e);
                },
            }
        }
        self.items.push(value);
        Ok(())
    }

    /// Takes out the last value.
    pub fn pop(&mut self) -> (r: Option<T>)
        requires
            old(self).wf(),
        ensures
            final(self).wf(),
            final(self).cap_spec() == old(self).cap_spec(),
            old(self)@.len() == 0 ==> r.is_none() && final(self)@ == old(self)@,
            old(self)@.len() > 0 ==> r == Some(old(self)@.last()) && final(self)@ == old(self)@.drop_last(),
    {
        self.items.pop()
    }

    /// Moves every value of `other` to the end of `self`.
    pub fn append(&mut self, other: &mut Self) -> (r: Result<(), ReserveError>)
        requires
            old(self).wf(),
            old(other).wf(),
        ensures
            final(self).wf(),
            final(other).wf(),
            r.is_ok() ==> final(self)@ == old(self)@ + old(other)@ && final(other)@ == Seq::<
                T,
            >::empty(),
            r.is_err() ==> final(self)@ == old(self)@ && final(other)@ == old(other)@,
            old(self).cap_spec() - old(self)@.len() >= old(other)@.len() ==> r.is_ok(),
    {
        match self.reserve(other.items.len()) {
            Ok(()) => {},
            Err(e) => {
                return Err(e);
            },
        }
        self.items.append(&mut other.items);
        Ok(())
    }

    /// Takes out the values at indices `range.start .. range.end`, in order,
    /// and moves the later ones down to close the gap.
    pub fn drain(&mut self, range: std::ops::Range<usize>) -> (r: Vec<T>)
        requires
            old(self).wf(),
            range.start <= range.end <= old(self)@.len(),
        ensures
            final(self).wf(),
            final(self).cap_spec() == old(self).cap_spec(),
            r@ == old(self)@.subrange(range.start as int, range.end as int),
            final(self)@ == old(self)@.subrange(0, range.start as int) + old(self)@.subrange(
                range.end as int,
                old(self)@.len() as int,
            ),
    {
        let start = range.start;
        let end = range.end;
        let mut drained: Vec<T> = Vec::new();
        let mut i: usize = start;
        while i < end
            invariant
                start <= i <= end <= old(self)@.len(),
                self.items@.len() == old(self)@.len() - (i - start),
                self.buf == old(self).buf,
                self.items@ == old(self)@.subrange(0, start as int) + old(self)@.subrange(
                    i as int,
                    old(self)@.len() as int,
                ),
                drained@ == old(self)@.subrange(start as int, i as int),
            decreases end - i,
        {
            let v = self.items.remove(start);
            drained.push(v);
            proof {
                assert(self.items@ =~= old(self)@.subrange(0, start as int) + old(self)@.subrange(i + 1, old(self)@.len() as int));
                assert(drained@ =~= old(self)@.subrange(start as int, i + 1));
            }
            i = i + 1;
        }
        drained
    }

    /// Moves the values out, in order, gives the buffer back to the
    /// allocator and returns both.
    pub fn into_vec(self) -> (r: (Vec<T>, A))
        requires
            self.wf(),
        ensures
            r.0@ == self@,
    {
        let items = self.items;
        (items, self.buf.into_allocator())
    }

    /// Gives the buffer back to the allocator and returns it.
    pub fn into_allocator(self) -> (r: A)
        requires
            self.wf(),
    {
        self.buf.into_allocator()
    }
}

impl<T: Copy, A: OwnedAllocator> AllocVec<T, A> {
    /// Makes the length `new_len`: drops values past it, or appends copies
    /// of `value` up to it.
    pub fn resize(&mut self, new_len: usize, value: T) -> (r: Result<(), ReserveError>)
        requires
            old(self).wf(),
        ensures
            final(self).wf(),
            r.is_ok() ==> final(self)@.len() == new_len,
            r.is_ok() ==> forall|i: int|
                0 <= i < new_len ==> #[trigger] final(self)@[i] == if i < old(self)@.len() {
                    old(self)@[i]
                } else {
                    value
                },
            r.is_err() ==> final(self)@ == old(self)@,
            new_len <= old(self)@.len() || new_len <= old(self).cap_spec() ==> r.is_ok(),
    {
        let len = self.items.len();
        if new_len > len {
            self.extend_with_element(new_len - len, value)
        } else {
            self.truncate(new_len);
            Ok(())
        }
    }

    /// Appends `n` copies of `value`.
    fn extend_with_element(&mut self, n: usize, value: T) -> (r: Result<(), ReserveError>)
        requires
            old(self).wf(),
        ensures
            final(self).wf(),
            r.is_ok() ==> final(self)@ == old(self)@ + Seq::new(n as nat, |i: int| value),
            r.is_err() ==> final(self)@ == old(self)@,
            old(self).cap_spec() - old(self)@.len() >= n ==> r.is_ok() && final(self).cap_spec()
                == old(self).cap_spec(),
    {
        match self.reserve(n) {
            Ok(()) => {},
            Err(e) => {
                return Err(e);
            },
        }
        let ghost start = self@;
        let ghost cap0 = self.cap_spec();
        let mut i: usize = 0;
        while i < n
            invariant
                self.wf(),
                self.cap_spec() == cap0,
                start == old(self)@,
                self.cap_spec() >= start.len() + n,
                i <= n,
                self@ == start + Seq::new(i as nat, |j: int| value),
            decreases n - i,
        {
            self.items.push(value);
            proof {
                assert(self@ =~= start + Seq::new((i + 1) as nat, |j: int| value));
            }
            i = i + 1;
        }
        Ok(())
    }

    /// Appends a copy of every value of `other`.
    pub fn extend_from_slice(&mut self, other: &[T]) -> (r: Result<(), ReserveError>)
        requires
            old(self).wf(),
        ensures
            final(self).wf(),
            r.is_ok() ==> final(self)@ == old(self)@ + other@,
            r.is_err() ==> final(self)@ == old(self)@,
            old(self).cap_spec() - old(self)@.len() >= other@.len() ==> r.is_ok(),
    {
        match self.reserve(other.len()) {
            Ok(()) => {},
            Err(e) => {
                return Err(e);
            },
        }
        let ghost start = self@;
        let mut i: usize = 0;
        while i < other.len()
            invariant
                self.wf(),
                start == old(self)@,
                self.cap_spec() >= start.len() + other@.len(),
                i <= other@.len(),
                self@ == start + other@.subrange(0, i as int),
            decreases other@.len() - i,
        {
            self.items.push(other[i]);
            proof {
                assert(self@ =~= start + other@.subrange(0, i + 1));
            }
            i = i + 1;
        }
        proof {
            assert(other@.subrange(0, other@.len() as int) =~= other@);
        }
        Ok(())
    }
}

/// A vector of `n` copies of `elem`, with its buffer reserved from
/// `allocator`.
pub fn from_elem<T: Copy, A: OwnedAllocator>(elem: T, n: usize, allocator: A) -> (r: Result<
    AllocVec<T, A>,
    ReserveError,
>)
    ensures
        r.is_ok() ==> r.unwrap().wf() && r.unwrap()@ == Seq::new(n as nat, |i: int| elem),
        r.is_ok() && vstd::layout::size_of::<T>() != 0 ==> r.unwrap().cap_spec() == n,
        n == 0 || vstd::layout::size_of::<T>() == 0 ==> r.is_ok(),
{
    let mut v = AllocVec::with_allocator(allocator);
    match v.reserve_exact(n) {
        Ok(()) => {},
        Err(e) => {
            return Err(e);
        },
    }
    match v.extend_with_element(n, elem) {
        Ok(()) => {},
        Err(e) => {
            return Err(e);
        },
    }
    proof {
        assert(v@ =~= Seq::new(n as nat, |i: int| elem));
    }
    Ok(v)
}

/// `s` with every value that equals the one before it taken out.
pub open spec fn dedup_seq<T>(s: Seq<T>) -> Seq<T>
    decreases s.len(),
{
    if s.len() <= 1 {
        s
    } else if s.last() == s[s.len() - 2] {
        dedup_seq(s.drop_last())
    } else {
        dedup_seq(s.drop_last()).push(s.last())
    }
}

proof fn lemma_dedup_last<T>(s: Seq<T>)
    requires
        s.len() >= 1,
    ensures
        dedup_seq(s).len() >= 1,
        dedup_seq(s).len() <= s.len(),
        dedup_seq(s).last() == s.last(),
    decreases s.len(),
{
    if s.len() > 1 {
        lemma_dedup_last(s.drop_last());
    }
}

impl<T: ValueEq, A: OwnedAllocator> AllocVec<T, A> {
    /// Takes out every value that equals the one before it.
    pub fn dedup(&mut self)
        requires
            old(self).wf(),
        ensures
            final(self).wf(),
            final(self).cap_spec() == old(self).cap_spec(),
            final(self)@ == dedup_seq(old(self)@),
    {
        let ln = self.items.len();
        if ln <= 1 {
            return;
        }
        let mut kept: Vec<T> = Vec::new();
        kept.push(self.items[0]);
        proof {
            assert(old(self)@.subrange(0, 1) =~= seq![old(self)@[0]]);
        }
        let mut r: usize = 1;
        while r < ln
            invariant
                self == old(self),
                ln == old(self)@.len(),
                1 <= r <= ln,
                kept@ == dedup_seq(old(self)@.subrange(0, r as int)),
            decreases ln - r,
        {
            let ghost prefix = old(self)@.subrange(0, r as int);
            let ghost next = old(self)@.subrange(0, r + 1);
            proof {
                lemma_dedup_last(prefix);
                assert(next.drop_last() =~= prefix);
            }
            let x = self.items[r];
            if !x.same_value(&kept[kept.len() - 1]) {
                kept.push(x);
            }
            r = r + 1;
        }
        proof {
            assert(old(self)@.subrange(0, ln as int) =~= old(self)@);
            lemma_dedup_last(old(self)@);
        }
        self.items = kept;
    }
}

impl<T, A: OwnedAllocator> AllocVec<T, A> {
    /// Keeps only the values for which `f` returns true, in order. `f` must
    /// give one answer for each value.
    pub fn retain<F: Fn(&T) -> bool>(&mut self, f: F)
        requires
            old(self).wf(),
            forall|x: &T| #[trigger] f.requires((x,)),
            forall|x: &T, b: bool| #[trigger] f.ensures((x,), b) ==> (b <==> f.ensures((x,), true)),
        ensures
            final(self).wf(),
            final(self).cap_spec() == old(self).cap_spec(),
            final(self)@ == old(self)@.filter(|x: T| f.ensures((&x,), true)),
    {
        let ghost pred = |x: T| f.ensures((&x,), true);
        let ghost n = old(self)@.len();
        let len = self.items.len();
        let mut i: usize = 0;
        let mut j: usize = 0;
        while j < len
            invariant
                self.buf == old(self).buf,
                n == old(self)@.len(),
                len == n,
                forall|x: &T| #[trigger] f.requires((x,)),
                forall|x: &T, b: bool| #[trigger] f.ensures((x,), b) ==> (b <==> f.ensures((x,), true)),
                pred == (|x: T| f.ensures((&x,), true)),
                j <= n,
                i == old(self)@.subrange(0, j as int).filter(pred).len(),
                self.items@ == old(self)@.subrange(0, j as int).filter(pred) + old(self)@.subrange(
                    j as int,
                    n as int,
                ),
            decreases n - j,
        {
            let ghost before = old(self)@.subrange(0, j as int);
            let ghost after = old(self)@.subrange(0, j + 1);
            let ghost x = old(self)@[j as int];
            proof {
                assert(after.drop_last() =~= before);
                assert(after.last() == x);
                reveal(Seq::filter);
                assert(after.filter(pred) == if pred(x) {
                    before.filter(pred).push(x)
                } else {
                    before.filter(pred)
                });
                assert(self.items@[i as int] == x);
            }
            let keep = f(&self.items[i]);
            proof {
                assert(keep == pred(x));
            }
            if keep {
                i = i + 1;
                proof {
                    assert(self.items@ =~= after.filter(pred) + old(self)@.subrange(j + 1, n as int));
                }
            } else {
                self.items.remove(i);
                proof {
                    assert(self.items@ =~= after.filter(pred) + old(self)@.subrange(j + 1, n as int));
                }
            }
            j = j + 1;
        }
        proof {
            assert(old(self)@.subrange(0, n as int) =~= old(self)@);
            assert(self.items@ =~= old(self)@.filter(pred));
            old(self)@.lemma_filter_len(pred);
        }
    }
}

/// `pop` after a `push` that succeeded gives back the value pushed and
/// restores the sequence: `v1` is `v0` after `push(x)`, as `push` states,
/// and `v2`, `popped` are `v1` and the result after `pop`.
pub proof fn lemma_push_pop<T, A: OwnedAllocator>(
    v0: AllocVec<T, A>,
    v1: AllocVec<T, A>,
    v2: AllocVec<T, A>,
    x: T,
    popped: Option<T>,
)
    requires
        v1@ == v0@.push(x),
        v1@.len() > 0 ==> popped == Some(v1@.last()) && v2@ == v1@.drop_last(),
    ensures
        popped == Some(x),
        v2@ == v0@,
{
    assert(v1@.drop_last() =~= v0@);
}

} // verus!
