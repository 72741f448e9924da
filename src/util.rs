use vstd::arithmetic::div_mod::{lemma_fundamental_div_mod, lemma_mod_multiples_basic};
use vstd::arithmetic::power2::is_pow2;
use vstd::prelude::*;

verus! {

/// `x` rounded up to a multiple of `a`.
pub open spec fn align_up(x: int, a: int) -> int {
    (x + a - 1) / a * a
}

/// Rounding up to a power of two `a` gives a multiple of `a` that is at
/// least `n` and less than `a` above it.
pub proof fn lemma_align_up(n: int, a: int)
    requires
        n >= 0,
        is_pow2(a),
    ensures
        align_up(n, a) >= n,
        align_up(n, a) % a == 0,
        align_up(n, a) - n < a,
{
    lemma_pow2_positive(a);
    let y = n + a - 1;
    lemma_fundamental_div_mod(y, a);
    lemma_mod_multiples_basic(y / a, a);
    vstd::arithmetic::mul::lemma_mul_is_commutative(a, y / a);
}

/// A positive power of two, used as an alignment.
#[derive(Clone, Copy, PartialEq, Eq, Structural, PartialOrd, Ord, Debug)]
pub struct PowerOfTwo(usize);

proof fn lemma_pow2_positive(x: int)
    requires
        is_pow2(x),
    ensures
        x >= 1,
{
    reveal(is_pow2);
}

impl PowerOfTwo {
    #[verifier::type_invariant]
    spec fn inv(self) -> bool {
        is_pow2(self.0 as int)
    }

    /// The alignment as a number.
    pub closed spec fn value(self) -> usize {
        self.0
    }

    pub fn new(x: usize) -> (r: PowerOfTwo)
        requires
            is_pow2(x as int),
        ensures
            r.value() == x,
    {
        PowerOfTwo(x)
    }

    /// The alignment of one byte.
    pub closed spec fn one_spec() -> PowerOfTwo {
        PowerOfTwo(1)
    }

    /// The alignment of one byte.
    pub fn one() -> (r: PowerOfTwo)
        ensures
            r == Self::one_spec(),
            r.value() == 1,
    {
        proof {
            reveal(is_pow2);
        }
        PowerOfTwo(1)
    }

    /// Rounds `x` up to the next multiple of the alignment.
    pub fn align_size(self, x: usize) -> (r: usize)
        requires
            x + self.value() - 1 <= usize::MAX,
        ensures
            r == align_up(x as int, self.value() as int),
            r % self.value() == 0,
            x <= r < x + self.value(),
    {
        proof {
            use_type_invariant(self);
        }
        let a = self.0;
        proof {
            lemma_pow2_positive(a as int);
        }
        let y = x + (a - 1);
        let r = y - y % a;
        proof {
            lemma_fundamental_div_mod(y as int, a as int);
            lemma_mod_multiples_basic(y as int / a as int, a as int);
            vstd::arithmetic::mul::lemma_mul_is_commutative(a as int, y as int / a as int);
        }
        r
    }

    /// Whether `x` is a multiple of the alignment.
    pub fn is_aligned_size(self, x: usize) -> (r: bool)
        ensures
            r == (x % self.value() == 0),
    {
        let a = self.into();
        x % a == 0
    }

    /// Rounds the address `x` up to the next multiple of the alignment.
    pub fn align_ptr_mut(self, x: usize) -> (r: usize)
        requires
            x + self.value() - 1 <= usize::MAX,
        ensures
            r % self.value() == 0,
            x <= r < x + self.value(),
    {
        self.align_size(x)
    }

    /// Rounds the address `x` up to the next multiple of the alignment.
    pub fn align_ptr_const(self, x: usize) -> (r: usize)
        requires
            x + self.value() - 1 <= usize::MAX,
        ensures
            r % self.value() == 0,
            x <= r < x + self.value(),
    {
        self.align_size(x)
    }

    /// Whether the address `x` is a multiple of the alignment.
    pub fn is_aligned_ptr_mut(self, x: usize) -> (r: bool)
        ensures
            r == (x % self.value() == 0),
    {
        self.is_aligned_size(x)
    }

    /// The alignment that the type `T` asks for.
    pub fn align_of<T>() -> (r: PowerOfTwo)
        ensures
            r.value() == vstd::layout::align_of::<T>(),
    {
        vstd::layout::layout_for_type_is_valid::<T>();
        PowerOfTwo(core::mem::align_of::<T>())
    }

    /// The alignment as a plain number.
    pub fn into(self) -> (r: usize)
        ensures
            r == self.value(),
            r >= 1,
            is_pow2(r as int),
    {
        proof {
            use_type_invariant(self);
            lemma_pow2_positive(self.0 as int);
        }
        self.0
    }
}

/// The number of elements of `T` from address `x` to address `y`.
pub fn distance<T>(x: usize, y: usize) -> (r: usize)
    requires
        x <= y,
        vstd::layout::size_of::<T>() > 0,
    ensures
        r == (y - x) / (vstd::layout::size_of::<T>() as int),
{
    (y - x) / core::mem::size_of::<T>()
}

/// `a`, by a multiplication and a division that cancel.
pub fn do_nothing1(a: usize) -> (r: usize)
    ensures
        r == a,
{
    a * 1 / 1
}

/// `a`, by a multiplication and a division that cancel.
pub fn do_nothing2(a: usize) -> (r: usize)
    requires
        2 * a <= usize::MAX,
    ensures
        r == a,
{
    a * 2 / 2
}

/// `a`, by a multiplication and a division that cancel.
pub fn do_nothing3(a: usize) -> (r: usize)
    requires
        6 * a <= usize::MAX,
    ensures
        r == a,
{
    a * 6 / 6
}

} // verus!
